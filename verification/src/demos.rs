//! A demonstration task graph: one import batch with nested groups,
//! parallel work, and tasks that wait on other tasks.

use vstd::prelude::*;
use crate::task::group::GroupId;
use crate::task::manager::TaskManager;
use crate::task::task::{Task, TaskId};
use crate::text::{dec, push_dec, push_str};

verus! {

broadcast use Task::lemma_with_id;

/// Name of the batch's root group.
pub open spec fn batch_name(batch_id: u32) -> Seq<char> {
    "Import batch #"@ + dec(batch_id as nat)
}

/// `t` is a pending task numbered `id` with the given text, group and
/// dependencies.
pub open spec fn task_is(
    t: Task,
    id: int,
    name: Seq<char>,
    description: Seq<char>,
    group: Option<GroupId>,
    deps: Seq<TaskId>,
) -> bool {
    &&& t.spec_id() == id
    &&& t.spec_name() == name
    &&& t.spec_description() == description
    &&& t.spec_group() == group
    &&& t.spec_deps() == deps
    &&& t.spec_status() is Pending
    &&& t.spec_message() == Seq::<char>::empty()
}

/// The `k`-th task a batch adds, when the batch's groups start at `root`
/// and the manager held `base` tasks before:
/// five decodes (`Decode file <i>.cr2`, group Decode RAW), five thumbnails
/// each waiting for its decode (group Thumbnails), one metadata task
/// waiting for every decode (group Metadata), five previews each waiting
/// for its thumbnail and the metadata task (group Preview), then three
/// `Sidecar::verify <j>` and two `Build proxy::video <j>` tasks in no group.
pub open spec fn batch_task(t: Task, root: GroupId, base: int, k: int) -> bool {
    let id = base + 1 + k;
    if k < 5 {
        task_is(t, id, "Decode file "@ + dec(k as nat) + ".cr2"@,
            "RAW demosaic + white balance"@, Some((root + 1) as GroupId), Seq::empty())
    } else if k < 10 {
        task_is(t, id, "Thumbnail "@ + dec((k - 5) as nat), "256x256 preview"@,
            Some((root + 2) as GroupId), seq![(base + 1 + (k - 5)) as TaskId])
    } else if k == 10 {
        task_is(t, id, "Extract EXIF / IPTC"@, "Build keyword index"@, Some((root + 3) as GroupId),
            Seq::new(5, |j: int| (base + 1 + j) as TaskId))
    } else if k < 16 {
        task_is(t, id, "Preview "@ + dec((k - 11) as nat), "Build full-res preview"@,
            Some((root + 4) as GroupId), seq![(base + 6 + (k - 11)) as TaskId, (base + 11) as TaskId])
    } else if k < 19 {
        task_is(t, id, "Sidecar::verify "@ + dec((k - 16) as nat), "Hash + checksum"@, None, Seq::empty())
    } else {
        task_is(t, id, "Build proxy::video "@ + dec((k - 19) as nat), "Transcode proxy"@, None,
            Seq::empty())
    }
}

/// The ids of what one batch added.
pub struct ImportBatch {
    /// The root group, `Import batch #<n>`.
    pub root: GroupId,
    /// The decode tasks, in order.
    pub decode: Vec<TaskId>,
    /// The thumbnail tasks, in order.
    pub thumbs: Vec<TaskId>,
    /// The metadata task.
    pub meta: TaskId,
    /// The preview tasks, in order.
    pub previews: Vec<TaskId>,
    /// The ungrouped sidecar checks.
    pub sidecars: Vec<TaskId>,
    /// The ungrouped proxy builds.
    pub proxies: Vec<TaskId>,
}

/// `ts` extends `old` by the first `n` tasks of a batch.
pub open spec fn batch_prefix(ts: Seq<Task>, old: Seq<Task>, root: GroupId, n: int) -> bool {
    &&& ts.len() == old.len() + n
    &&& forall|i: int| 0 <= i < old.len() ==> ts[i] == old[i]
    &&& forall|k: int| 0 <= k < n ==> #[trigger] batch_task(ts[old.len() + k], root, old.len() as int, k)
}

/// Add one task with the given attributes; returns its id.
fn add_one(
    mgr: &mut TaskManager,
    name: &str,
    description: &str,
    group: Option<GroupId>,
    deps: &[TaskId],
) -> (id: TaskId)
    requires
        old(mgr).wf(),
        old(mgr).tasks().len() < u64::MAX - 1,
    ensures
        final(mgr).wf(),
        id == old(mgr).tasks().len() + 1,
        final(mgr).tasks().len() == old(mgr).tasks().len() + 1,
        forall|i: int| 0 <= i < old(mgr).tasks().len() ==> final(mgr).tasks()[i] == old(mgr).tasks()[i],
        task_is(final(mgr).tasks().last(), id as int, name@, description@, group, deps@),
        final(mgr).group_tree() == old(mgr).group_tree(),
        final(mgr).next_group() == old(mgr).next_group(),
        final(mgr).max_conc() == old(mgr).max_conc(),
        final(mgr).is_started() == old(mgr).is_started(),
{
    let t = Task::new(name, description).depends_on_all(deps);
    let t = match group {
        Some(g) => t.group(g),
        None => t,
    };
    mgr.add_task(t)
}

/// `prefix` followed by `i` in decimal and then `suffix`.
fn numbered(prefix: &str, i: u64, suffix: &str) -> (s: String)
    ensures
        s@ == prefix@ + dec(i as nat) + suffix@,
{
    let mut s = String::new();
    push_str(&mut s, prefix);
    push_dec(&mut s, i);
    push_str(&mut s, suffix);
    s
}

/// Add a demonstration import batch to `mgr`: a root group
/// `Import batch #<batch_id>` with the sub-groups Decode RAW, Thumbnails,
/// Metadata and Preview, and the tasks described by [`batch_task`].
/// Attaching work to the tasks and starting the manager is the caller's
/// part.
pub fn build_import_batch(mgr: &mut TaskManager, batch_id: u32) -> (b: ImportBatch)
    requires
        old(mgr).wf(),
        old(mgr).next_group() + 5 < u64::MAX,
        old(mgr).tasks().len() + 21 < u64::MAX - 1,
    ensures
        final(mgr).wf(),
        b.root == old(mgr).next_group(),
        final(mgr).next_group() == b.root + 5,
        final(mgr).group_tree().groups()[b.root].spec_name() == batch_name(batch_id),
        final(mgr).group_tree().groups()[b.root].spec_parent() is None,
        final(mgr).group_tree().groups()[(b.root + 1) as GroupId].spec_name() == "Decode RAW"@,
        final(mgr).group_tree().groups()[(b.root + 2) as GroupId].spec_name() == "Thumbnails"@,
        final(mgr).group_tree().groups()[(b.root + 3) as GroupId].spec_name() == "Metadata"@,
        final(mgr).group_tree().groups()[(b.root + 4) as GroupId].spec_name() == "Preview"@,
        forall|g: int| 1 <= g <= 4 ==> #[trigger] final(mgr).group_tree().groups()[(b.root + g) as GroupId].spec_parent()
            == Some(b.root),
        forall|g: int| 0 <= g <= 4 ==> !(#[trigger] final(mgr).group_tree().groups()[(b.root + g) as GroupId]).spec_collapsed(),
        final(mgr).parents_precede() == old(mgr).parents_precede(),
        final(mgr).group_tree().kids_of(b.root) == old(mgr).group_tree().kids_of(b.root) + seq![
            (b.root + 1) as GroupId,
            (b.root + 2) as GroupId,
            (b.root + 3) as GroupId,
            (b.root + 4) as GroupId,
        ],
        batch_prefix(final(mgr).tasks(), old(mgr).tasks(), b.root, 21),
        b.decode@ == Seq::new(5, |i: int| (old(mgr).tasks().len() + 1 + i) as TaskId),
        b.thumbs@ == Seq::new(5, |i: int| (old(mgr).tasks().len() + 6 + i) as TaskId),
        b.meta == old(mgr).tasks().len() + 11,
        b.previews@ == Seq::new(5, |i: int| (old(mgr).tasks().len() + 12 + i) as TaskId),
        b.sidecars@ == Seq::new(3, |i: int| (old(mgr).tasks().len() + 17 + i) as TaskId),
        b.proxies@ == Seq::new(2, |i: int| (old(mgr).tasks().len() + 20 + i) as TaskId),
        final(mgr).max_conc() == old(mgr).max_conc(),
        final(mgr).is_started() == old(mgr).is_started(),
{
    let ghost old_ts = mgr.tasks();
    let ghost base = old_ts.len() as int;
    let root_name = numbered("Import batch #", batch_id as u64, "");
    proof {
        reveal_strlit("");
        assert(root_name@ == batch_name(batch_id));
    }
    let ghost k0 = mgr.group_tree().kids_of(mgr.next_group());
    let root = mgr.add_group(root_name.as_str(), None);
    assert(mgr.group_tree().kids_of(root) == k0);
    let decode_g = mgr.add_group("Decode RAW", Some(root));
    let thumbs_g = mgr.add_group("Thumbnails", Some(root));
    let meta_g = mgr.add_group("Metadata", Some(root));
    let preview_g = mgr.add_group("Preview", Some(root));
    let ghost gt = mgr.group_tree();
    let ghost ng = mgr.next_group();
    assert(gt.groups()[root].spec_name() == batch_name(batch_id));
    assert(gt.groups()[root].spec_parent() is None);
    assert(gt.groups()[decode_g].spec_parent() == Some(root));
    assert(gt.groups()[thumbs_g].spec_parent() == Some(root));
    assert(gt.groups()[meta_g].spec_parent() == Some(root));
    assert(gt.groups()[preview_g].spec_parent() == Some(root));
    assert(gt.groups()[decode_g].spec_name() == "Decode RAW"@);
    assert(gt.groups()[thumbs_g].spec_name() == "Thumbnails"@);
    assert(gt.groups()[meta_g].spec_name() == "Metadata"@);
    assert(gt.groups()[preview_g].spec_name() == "Preview"@);
    assert(gt.kids_of(root) == k0 + seq![decode_g, thumbs_g, meta_g, preview_g]);
    assert(!gt.groups()[root].spec_collapsed() && !gt.groups()[decode_g].spec_collapsed()
        && !gt.groups()[thumbs_g].spec_collapsed() && !gt.groups()[meta_g].spec_collapsed()
        && !gt.groups()[preview_g].spec_collapsed());
    assert(mgr.tasks() == old_ts);
    let no_deps: [TaskId; 0] = [];
    assert(no_deps@ == Seq::<TaskId>::empty());

    let mut decode: Vec<TaskId> = Vec::new();
    let mut i: u64 = 0;
    while i < 5
        invariant
            mgr.wf(),
            i <= 5,
            base == old_ts.len(),
            base + 21 < u64::MAX - 1,
            batch_prefix(mgr.tasks(), old_ts, root, i as int),
            decode@ == Seq::new(i as nat, |j: int| (base + 1 + j) as TaskId),
            decode_g == root + 1,
            no_deps@ == Seq::<TaskId>::empty(),
            mgr.group_tree() == gt,
            mgr.next_group() == ng,
            mgr.max_conc() == old(mgr).max_conc(),
            mgr.is_started() == old(mgr).is_started(),
        decreases 5 - i,
    {
        let name = numbered("Decode file ", i, ".cr2");
        let ghost before = mgr.tasks();
        let id = add_one(mgr, name.as_str(), "RAW demosaic + white balance", Some(decode_g), no_deps.as_slice());
        decode.push(id);
        proof {
            assert(batch_task(mgr.tasks()[base + i], root, base, i as int));
            assert forall|k: int| 0 <= k < i + 1 implies #[trigger] batch_task(mgr.tasks()[base + k], root, base, k) by {
                if k < i {
                    assert(mgr.tasks()[base + k] == before[base + k]);
                }
            }
        }
        i = i + 1;
    }

    let mut thumbs: Vec<TaskId> = Vec::new();
    let mut i: u64 = 0;
    while i < 5
        invariant
            mgr.wf(),
            i <= 5,
            base == old_ts.len(),
            base + 21 < u64::MAX - 1,
            batch_prefix(mgr.tasks(), old_ts, root, 5 + i),
            decode@ == Seq::new(5, |j: int| (base + 1 + j) as TaskId),
            thumbs@ == Seq::new(i as nat, |j: int| (base + 6 + j) as TaskId),
            thumbs_g == root + 2,
            mgr.group_tree() == gt,
            mgr.next_group() == ng,
            mgr.max_conc() == old(mgr).max_conc(),
            mgr.is_started() == old(mgr).is_started(),
        decreases 5 - i,
    {
        let name = numbered("Thumbnail ", i, "");
        let dep: [TaskId; 1] = [decode[i as usize]];
        assert(dep@ == seq![(base + 1 + i) as TaskId]);
        proof {
            reveal_strlit("");
        }
        let ghost before = mgr.tasks();
        let id = add_one(mgr, name.as_str(), "256x256 preview", Some(thumbs_g), dep.as_slice());
        thumbs.push(id);
        proof {
            assert(batch_task(mgr.tasks()[base + 5 + i], root, base, 5 + i));
            assert forall|k: int| 0 <= k < 5 + i + 1 implies #[trigger] batch_task(mgr.tasks()[base + k], root, base, k) by {
                if k < 5 + i {
                    assert(mgr.tasks()[base + k] == before[base + k]);
                }
            }
        }
        i = i + 1;
    }

    let ghost before = mgr.tasks();
    let meta = add_one(mgr, "Extract EXIF / IPTC", "Build keyword index", Some(meta_g), decode.as_slice());
    proof {
        assert(batch_task(mgr.tasks()[base + 10], root, base, 10));
        assert forall|k: int| 0 <= k < 11 implies #[trigger] batch_task(mgr.tasks()[base + k], root, base, k) by {
            if k < 10 {
                assert(mgr.tasks()[base + k] == before[base + k]);
            }
        }
    }

    let mut previews: Vec<TaskId> = Vec::new();
    let mut i: u64 = 0;
    while i < 5
        invariant
            mgr.wf(),
            i <= 5,
            base == old_ts.len(),
            base + 21 < u64::MAX - 1,
            batch_prefix(mgr.tasks(), old_ts, root, 11 + i),
            thumbs@ == Seq::new(5, |j: int| (base + 6 + j) as TaskId),
            meta == base + 11,
            previews@ == Seq::new(i as nat, |j: int| (base + 12 + j) as TaskId),
            preview_g == root + 4,
            mgr.group_tree() == gt,
            mgr.next_group() == ng,
            mgr.max_conc() == old(mgr).max_conc(),
            mgr.is_started() == old(mgr).is_started(),
        decreases 5 - i,
    {
        let name = numbered("Preview ", i, "");
        let deps: [TaskId; 2] = [thumbs[i as usize], meta];
        assert(deps@ == seq![(base + 6 + i) as TaskId, (base + 11) as TaskId]);
        proof {
            reveal_strlit("");
        }
        let ghost before = mgr.tasks();
        let id = add_one(mgr, name.as_str(), "Build full-res preview", Some(preview_g), deps.as_slice());
        previews.push(id);
        proof {
            assert(batch_task(mgr.tasks()[base + 11 + i], root, base, 11 + i));
            assert forall|k: int| 0 <= k < 11 + i + 1 implies #[trigger] batch_task(mgr.tasks()[base + k], root, base, k) by {
                if k < 11 + i {
                    assert(mgr.tasks()[base + k] == before[base + k]);
                }
            }
        }
        i = i + 1;
    }

    let mut sidecars: Vec<TaskId> = Vec::new();
    let mut j: u64 = 0;
    while j < 3
        invariant
            mgr.wf(),
            j <= 3,
            base == old_ts.len(),
            base + 21 < u64::MAX - 1,
            batch_prefix(mgr.tasks(), old_ts, root, 16 + j),
            sidecars@ == Seq::new(j as nat, |k: int| (base + 17 + k) as TaskId),
            no_deps@ == Seq::<TaskId>::empty(),
            mgr.group_tree() == gt,
            mgr.next_group() == ng,
            mgr.max_conc() == old(mgr).max_conc(),
            mgr.is_started() == old(mgr).is_started(),
        decreases 3 - j,
    {
        let name = numbered("Sidecar::verify ", j, "");
        proof {
            reveal_strlit("");
        }
        let ghost before = mgr.tasks();
        let id = add_one(mgr, name.as_str(), "Hash + checksum", None, no_deps.as_slice());
        sidecars.push(id);
        proof {
            assert(batch_task(mgr.tasks()[base + 16 + j], root, base, 16 + j));
            assert forall|k: int| 0 <= k < 16 + j + 1 implies #[trigger] batch_task(mgr.tasks()[base + k], root, base, k) by {
                if k < 16 + j {
                    assert(mgr.tasks()[base + k] == before[base + k]);
                }
            }
        }
        j = j + 1;
    }

    let mut proxies: Vec<TaskId> = Vec::new();
    let mut j: u64 = 0;
    while j < 2
        invariant
            mgr.wf(),
            j <= 2,
            base == old_ts.len(),
            base + 21 < u64::MAX - 1,
            batch_prefix(mgr.tasks(), old_ts, root, 19 + j),
            proxies@ == Seq::new(j as nat, |k: int| (base + 20 + k) as TaskId),
            no_deps@ == Seq::<TaskId>::empty(),
            mgr.group_tree() == gt,
            mgr.next_group() == ng,
            mgr.max_conc() == old(mgr).max_conc(),
            mgr.is_started() == old(mgr).is_started(),
        decreases 2 - j,
    {
        let name = numbered("Build proxy::video ", j, "");
        proof {
            reveal_strlit("");
        }
        let ghost before = mgr.tasks();
        let id = add_one(mgr, name.as_str(), "Transcode proxy", None, no_deps.as_slice());
        proxies.push(id);
        proof {
            assert(batch_task(mgr.tasks()[base + 19 + j], root, base, 19 + j));
            assert forall|k: int| 0 <= k < 19 + j + 1 implies #[trigger] batch_task(mgr.tasks()[base + k], root, base, k) by {
                if k < 19 + j {
                    assert(mgr.tasks()[base + k] == before[base + k]);
                }
            }
        }
        j = j + 1;
    }
    assert forall|g: int| 1 <= g <= 4 implies #[trigger] mgr.group_tree().groups()[(root + g) as GroupId].spec_parent()
        == Some(root) by {
    }
    assert forall|g: int| 0 <= g <= 4 implies !(#[trigger] mgr.group_tree().groups()[(root + g) as GroupId]).spec_collapsed() by {
    }
    ImportBatch { root, decode, thumbs, meta, previews, sidecars, proxies }
}

} // verus!
