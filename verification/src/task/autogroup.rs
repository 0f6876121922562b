//! Buckets of ungrouped tasks that share a name prefix.
//!
//! The task tree shows tasks without a group under synthetic headers:
//! all ungrouped tasks whose names share a prefix (see
//! [`name_prefix`](crate::task::view::name_prefix)) are listed together,
//! headers in ascending order of prefix, and the remaining ungrouped
//! tasks follow on their own.

use vstd::prelude::*;
use crate::task::status::TaskStatus;
use crate::task::task::Task;
use crate::task::view::{extract_prefix, name_prefix};
use crate::text::str_chars;

verus! {

/// String order: `a` sorts strictly before `b` (character by character,
/// a proper prefix first).
#[verifier::opaque]
pub open spec fn lex_lt(a: Seq<char>, b: Seq<char>) -> bool
    decreases a.len(),
{
    if a.len() == 0 {
        b.len() > 0
    } else if b.len() == 0 {
        false
    } else if a[0] != b[0] {
        (a[0] as int) < (b[0] as int)
    } else {
        lex_lt(a.drop_first(), b.drop_first())
    }
}

/// No string sorts before itself.
pub proof fn lemma_lex_irreflexive(a: Seq<char>)
    ensures
        !lex_lt(a, a),
    decreases a.len(),
{
    reveal(lex_lt);
    if a.len() > 0 {
        lemma_lex_irreflexive(a.drop_first());
    }
}

/// Of two different strings, one sorts before the other.
pub proof fn lemma_lex_total(a: Seq<char>, b: Seq<char>)
    ensures
        a == b || lex_lt(a, b) || lex_lt(b, a),
    decreases a.len(),
{
    reveal(lex_lt);
    if a.len() > 0 && b.len() > 0 && a[0] == b[0] {
        lemma_lex_total(a.drop_first(), b.drop_first());
        if a.drop_first() == b.drop_first() {
            assert(a == seq![a[0]] + a.drop_first());
            assert(b == seq![b[0]] + b.drop_first());
        }
    } else if a.len() == 0 && b.len() == 0 {
        assert(a == b);
    } else if a.len() > 0 && b.len() > 0 {
    }
}

/// String order is transitive.
pub proof fn lemma_lex_transitive(a: Seq<char>, b: Seq<char>, c: Seq<char>)
    requires
        lex_lt(a, b),
        lex_lt(b, c),
    ensures
        lex_lt(a, c),
    decreases a.len(),
{
    reveal(lex_lt);
    if a.len() > 0 && b.len() > 0 && c.len() > 0 && a[0] == b[0] && b[0] == c[0] {
        lemma_lex_transitive(a.drop_first(), b.drop_first(), c.drop_first());
    }
}

/// Two strings in string order are different.
pub proof fn lemma_lex_asymmetric(a: Seq<char>, b: Seq<char>)
    requires
        lex_lt(a, b),
    ensures
        !lex_lt(b, a),
        a != b,
    decreases a.len(),
{
    reveal(lex_lt);
    if a.len() > 0 && b.len() > 0 && a[0] == b[0] {
        lemma_lex_asymmetric(a.drop_first(), b.drop_first());
    }
    if a == b {
        lemma_lex_irreflexive(a);
    }
}

/// Compare two strings: negative when `a` sorts first, zero when they
/// are equal, positive when `b` sorts first.
pub fn lex_order(a: &[char], b: &[char]) -> (r: i8)
    ensures
        r < 0 <==> lex_lt(a@, b@),
        r == 0 <==> a@ == b@,
        r > 0 <==> lex_lt(b@, a@),
{
    reveal(lex_lt);
    let mut i: usize = 0;
    assert(a@.skip(0) == a@);
    assert(b@.skip(0) == b@);
    while i < a.len() && i < b.len()
        invariant
            i <= a@.len(),
            i <= b@.len(),
            a@.subrange(0, i as int) == b@.subrange(0, i as int),
            lex_lt(a@, b@) == lex_lt(a@.skip(i as int), b@.skip(i as int)),
            lex_lt(b@, a@) == lex_lt(b@.skip(i as int), a@.skip(i as int)),
        decreases a@.len() - i,
    {
        proof {
            reveal(lex_lt);
        }
        let x = a[i];
        let y = b[i];
        assert(a@.skip(i as int)[0] == x);
        assert(b@.skip(i as int)[0] == y);
        if x < y {
            proof {
                lemma_lex_asymmetric(a@.skip(i as int), b@.skip(i as int));
                assert(a@[i as int] != b@[i as int]);
            }
            return -1;
        }
        if y < x {
            proof {
                lemma_lex_asymmetric(b@.skip(i as int), a@.skip(i as int));
                assert(a@[i as int] != b@[i as int]);
            }
            return 1;
        }
        assert(x == y);
        assert(a@.skip(i as int).drop_first() == a@.skip(i + 1));
        assert(b@.skip(i as int).drop_first() == b@.skip(i + 1));
        assert(a@.subrange(0, i + 1) == a@.subrange(0, i as int).push(x));
        assert(b@.subrange(0, i + 1) == b@.subrange(0, i as int).push(y));
        i = i + 1;
    }
    proof {
        reveal(lex_lt);
    }
    if i < b.len() {
        assert(a@.skip(i as int).len() == 0);
        proof {
            lemma_lex_asymmetric(a@, b@);
        }
        assert(a@.len() != b@.len());
        -1
    } else if i < a.len() {
        assert(b@.skip(i as int).len() == 0);
        proof {
            lemma_lex_asymmetric(b@, a@);
        }
        assert(a@.len() != b@.len());
        1
    } else {
        assert(a@ == a@.subrange(0, i as int));
        assert(b@ == b@.subrange(0, i as int));
        proof {
            lemma_lex_irreflexive(a@);
        }
        0
    }
}

/// Task `t` is listed under the header for prefix `p`: it has no group
/// and its name has that prefix.
#[verifier::opaque]
pub open spec fn in_bucket(t: Task, p: Seq<char>) -> bool {
    t.spec_group() is None && name_prefix(t.spec_name()) == Some(p)
}

/// A task is listed under one prefix at most.
pub proof fn lemma_in_bucket_unique(t: Task, p: Seq<char>, q: Seq<char>)
    requires
        in_bucket(t, p),
        in_bucket(t, q),
    ensures
        p == q,
{
    reveal(in_bucket);
}

/// Task `t` has no group and no prefix: it is listed on its own.
pub open spec fn is_loose(t: Task) -> bool {
    t.spec_group() is None && name_prefix(t.spec_name()) is None
}

/// Positions, among the first `n` tasks of `ts`, of those under prefix `p`.
pub open spec fn bucket_upto(ts: Seq<Task>, p: Seq<char>, n: nat) -> Seq<usize>
    decreases n,
{
    if n == 0 {
        Seq::empty()
    } else {
        let r = bucket_upto(ts, p, (n - 1) as nat);
        if in_bucket(ts[n - 1], p) { r.push((n - 1) as usize) } else { r }
    }
}

/// How many of the first `n` tasks of `ts` under prefix `p` completed.
pub open spec fn completed_upto(ts: Seq<Task>, p: Seq<char>, n: nat) -> nat
    decreases n,
{
    if n == 0 {
        0
    } else {
        completed_upto(ts, p, (n - 1) as nat) + if in_bucket(ts[n - 1], p) && ts[n - 1].spec_status() is Completed {
            1nat
        } else {
            0nat
        }
    }
}

/// Positions, among the first `n` tasks of `ts`, of the loose ones.
pub open spec fn loose_upto(ts: Seq<Task>, n: nat) -> Seq<usize>
    decreases n,
{
    if n == 0 {
        Seq::empty()
    } else {
        let r = loose_upto(ts, (n - 1) as nat);
        if is_loose(ts[n - 1]) { r.push((n - 1) as usize) } else { r }
    }
}

/// One header of ungrouped tasks: the shared prefix, the positions of
/// its tasks in the task list (in list order), and how many completed.
pub struct AutoGroup {
    pub prefix: String,
    pub members: Vec<usize>,
    pub completed: usize,
}

/// The ungrouped tasks sorted into headers, and those left on their own.
pub struct AutoGrouping {
    pub buckets: Vec<AutoGroup>,
    pub loose: Vec<usize>,
}

/// `bs` are exactly the headers for the first `n` tasks of `ts`: one per
/// prefix that occurs, in ascending order of prefix, each with its tasks
/// and completed count.
pub open spec fn buckets_of(ts: Seq<Task>, n: nat, bs: Seq<AutoGroup>) -> bool {
    &&& forall|i: int, j: int| 0 <= i < j < bs.len() ==> lex_lt(#[trigger] bs[i].prefix@, #[trigger] bs[j].prefix@)
    &&& forall|i: int| 0 <= i < bs.len() ==> {
        &&& (#[trigger] bs[i]).members@ == bucket_upto(ts, bs[i].prefix@, n)
        &&& bs[i].completed == completed_upto(ts, bs[i].prefix@, n)
        &&& bs[i].members@.len() > 0
    }
    &&& forall|k: int, p: Seq<char>| 0 <= k < n && #[trigger] in_bucket(ts[k], p)
        ==> exists|i: int| 0 <= i < bs.len() && #[trigger] bs[i].prefix@ == p
}

/// With no task under `p` among the first `n`, its bucket is empty.
proof fn lemma_bucket_empty(ts: Seq<Task>, p: Seq<char>, n: nat)
    requires
        forall|k: int| 0 <= k < n ==> !in_bucket(#[trigger] ts[k], p),
    ensures
        bucket_upto(ts, p, n) == Seq::<usize>::empty(),
        completed_upto(ts, p, n) == 0,
    decreases n,
{
    if n > 0 {
        lemma_bucket_empty(ts, p, (n - 1) as nat);
    }
}

/// A bucket counts no more completed tasks than it holds.
proof fn lemma_completed_bound(ts: Seq<Task>, p: Seq<char>, n: nat)
    ensures
        completed_upto(ts, p, n) <= bucket_upto(ts, p, n).len(),
    decreases n,
{
    if n > 0 {
        lemma_completed_bound(ts, p, (n - 1) as nat);
    }
}

/// Where prefix `p` goes among the sorted headers `bs`: the first header
/// not sorting before `p`, and whether it is `p`'s own.
fn bucket_slot(bs: &Vec<AutoGroup>, p: &[char]) -> (r: (usize, bool))
    requires
        forall|i: int, j: int| 0 <= i < j < bs@.len() ==> lex_lt(#[trigger] bs@[i].prefix@, #[trigger] bs@[j].prefix@),
    ensures
        r.0 <= bs@.len(),
        forall|j: int| 0 <= j < r.0 ==> lex_lt(#[trigger] bs@[j].prefix@, p@),
        r.1 ==> r.0 < bs@.len() && bs@[r.0 as int].prefix@ == p@,
        !r.1 ==> forall|j: int| r.0 <= j < bs@.len() ==> lex_lt(p@, #[trigger] bs@[j].prefix@),
{
    let mut k: usize = 0;
    while k < bs.len()
        invariant
            k <= bs@.len(),
            forall|a: int, b: int| 0 <= a < b < bs@.len() ==> lex_lt(#[trigger] bs@[a].prefix@, #[trigger] bs@[b].prefix@),
            forall|j: int| 0 <= j < k ==> lex_lt(#[trigger] bs@[j].prefix@, p@),
        decreases bs@.len() - k,
    {
        let kc = str_chars(bs[k].prefix.as_str());
        let o = lex_order(kc.as_slice(), p);
        if o == 0 {
            return (k, true);
        }
        if o > 0 {
            proof {
                assert forall|j: int| k <= j < bs@.len() implies lex_lt(p@, #[trigger] bs@[j].prefix@) by {
                    if j > k {
                        lemma_lex_transitive(p@, bs@[k as int].prefix@, bs@[j].prefix@);
                    }
                }
            }
            return (k, false);
        }
        k = k + 1;
    }
    (k, false)
}

/// A task under no header leaves the headers as they are.
proof fn lemma_buckets_skip(ts: Seq<Task>, i: nat, bs: Seq<AutoGroup>)
    requires
        i < ts.len(),
        buckets_of(ts, i, bs),
        forall|p: Seq<char>| !in_bucket(ts[i as int], p),
    ensures
        buckets_of(ts, i + 1, bs),
{
    assert forall|j: int| 0 <= j < bs.len() implies {
        &&& (#[trigger] bs[j]).members@ == bucket_upto(ts, bs[j].prefix@, i + 1)
        &&& bs[j].completed == completed_upto(ts, bs[j].prefix@, i + 1)
        &&& bs[j].members@.len() > 0
    } by {
        assert(!in_bucket(ts[i as int], bs[j].prefix@));
    }
}

/// The common conditions of placing task `i` under prefix `p` at header
/// position `k`.
pub open spec fn placing(ts: Seq<Task>, i: nat, bs: Seq<AutoGroup>, p: Seq<char>, k: int) -> bool {
    &&& i < ts.len() <= usize::MAX
    &&& buckets_of(ts, i, bs)
    &&& in_bucket(ts[i as int], p)
    &&& 0 <= k <= bs.len()
    &&& forall|j: int| 0 <= j < k ==> lex_lt(#[trigger] bs[j].prefix@, p)
}

/// Task `i` joins the existing header `k`, which is its prefix's.
fn place_found(bs: &mut Vec<AutoGroup>, Ghost(ts): Ghost<Seq<Task>>, i: usize, k: usize, p: &String, done: bool)
    requires
        placing(ts, i as nat, old(bs)@, p@, k as int),
        k < old(bs)@.len(),
        old(bs)@[k as int].prefix@ == p@,
        done == (ts[i as int].spec_status() is Completed),
    ensures
        buckets_of(ts, (i + 1) as nat, final(bs)@),
{
    let ghost old_b = bs@;
    proof {
        lemma_completed_bound(ts, p@, i as nat);
        lemma_bucket_len(ts, p@, i as nat);
        assert(old_b[k as int].completed == completed_upto(ts, p@, i as nat));
        assert(old_b[k as int].members@ == bucket_upto(ts, p@, i as nat));
    }
    bs[k].members.push(i);
    if done {
        bs[k].completed = bs[k].completed + 1;
    }
    proof {
        assert forall|j: int| 0 <= j < bs@.len() implies {
            &&& (#[trigger] bs@[j]).members@ == bucket_upto(ts, bs@[j].prefix@, (i + 1) as nat)
            &&& bs@[j].completed == completed_upto(ts, bs@[j].prefix@, (i + 1) as nat)
            &&& bs@[j].members@.len() > 0
        } by {
            if j != k {
                assert(bs@[j] == old_b[j]);
                if j < k {
                    lemma_lex_asymmetric(old_b[j].prefix@, old_b[k as int].prefix@);
                } else {
                    lemma_lex_asymmetric(old_b[k as int].prefix@, old_b[j].prefix@);
                }
                if in_bucket(ts[i as int], bs@[j].prefix@) {
                    lemma_in_bucket_unique(ts[i as int], bs@[j].prefix@, p@);
                }
            }
        }
        assert forall|a: int, b: int| 0 <= a < b < bs@.len() implies lex_lt(
            #[trigger] bs@[a].prefix@,
            #[trigger] bs@[b].prefix@,
        ) by {
            assert(bs@[a].prefix@ == old_b[a].prefix@);
            assert(bs@[b].prefix@ == old_b[b].prefix@);
        }
        assert forall|q: int, pp: Seq<char>| 0 <= q < i + 1 && #[trigger] in_bucket(ts[q], pp) implies exists|w: int|
            0 <= w < bs@.len() && #[trigger] bs@[w].prefix@ == pp by {
            if q < i {
                let w = choose|w: int| 0 <= w < old_b.len() && #[trigger] old_b[w].prefix@ == pp;
                assert(bs@[w].prefix@ == pp);
            } else {
                lemma_in_bucket_unique(ts[i as int], pp, p@);
                assert(bs@[k as int].prefix@ == pp);
            }
        }
    }
}

/// Task `i` opens a new header for its prefix at position `k`.
fn place_new(bs: &mut Vec<AutoGroup>, Ghost(ts): Ghost<Seq<Task>>, i: usize, k: usize, p: String, done: bool)
    requires
        placing(ts, i as nat, old(bs)@, p@, k as int),
        forall|j: int| k <= j < old(bs)@.len() ==> lex_lt(p@, #[trigger] old(bs)@[j].prefix@),
        done == (ts[i as int].spec_status() is Completed),
    ensures
        buckets_of(ts, (i + 1) as nat, final(bs)@),
{
    let ghost old_b = bs@;
    let mut m: Vec<usize> = Vec::new();
    m.push(i);
    let c: usize = if done { 1 } else { 0 };
    proof {
        assert forall|q: int| 0 <= q < i implies !in_bucket(#[trigger] ts[q], p@) by {
            if in_bucket(ts[q], p@) {
                let w = choose|w: int| 0 <= w < old_b.len() && #[trigger] old_b[w].prefix@ == p@;
                if w < k {
                    lemma_lex_asymmetric(old_b[w].prefix@, p@);
                } else {
                    lemma_lex_asymmetric(p@, old_b[w].prefix@);
                }
            }
        }
        lemma_bucket_empty(ts, p@, i as nat);
    }
    let ghost g = AutoGroup { prefix: p, members: m, completed: c };
    bs.insert(k, AutoGroup { prefix: p, members: m, completed: c });
    proof {
        assert forall|j: int| 0 <= j < bs@.len() implies {
            &&& (#[trigger] bs@[j]).members@ == bucket_upto(ts, bs@[j].prefix@, (i + 1) as nat)
            &&& bs@[j].completed == completed_upto(ts, bs@[j].prefix@, (i + 1) as nat)
            &&& bs@[j].members@.len() > 0
        } by {
            if j != k {
                let o = if j < k { j } else { j - 1 };
                assert(bs@[j] == old_b[o]);
                if o < k {
                    lemma_lex_asymmetric(old_b[o].prefix@, p@);
                } else {
                    lemma_lex_asymmetric(p@, old_b[o].prefix@);
                }
                if in_bucket(ts[i as int], bs@[j].prefix@) {
                    lemma_in_bucket_unique(ts[i as int], bs@[j].prefix@, p@);
                }
            } else {
                assert(bs@[j] == g);
                assert(g.members@ == seq![i]);
            }
        }
        assert forall|a: int, b: int| 0 <= a < b < bs@.len() implies lex_lt(
            #[trigger] bs@[a].prefix@,
            #[trigger] bs@[b].prefix@,
        ) by {
            if a < k && b < k {
                assert(bs@[a] == old_b[a] && bs@[b] == old_b[b]);
            } else if a < k && b == k {
                assert(bs@[a] == old_b[a] && bs@[b] == g);
            } else if a < k {
                assert(bs@[a] == old_b[a] && bs@[b] == old_b[b - 1]);
            } else if a == k {
                assert(bs@[a] == g && bs@[b] == old_b[b - 1]);
            } else {
                assert(bs@[a] == old_b[a - 1] && bs@[b] == old_b[b - 1]);
            }
        }
        assert forall|q: int, pp: Seq<char>| 0 <= q < i + 1 && #[trigger] in_bucket(ts[q], pp) implies exists|w: int|
            0 <= w < bs@.len() && #[trigger] bs@[w].prefix@ == pp by {
            if q < i {
                let w = choose|w: int| 0 <= w < old_b.len() && #[trigger] old_b[w].prefix@ == pp;
                if w < k {
                    assert(bs@[w] == old_b[w]);
                } else {
                    assert(bs@[w + 1] == old_b[w]);
                }
            } else {
                lemma_in_bucket_unique(ts[i as int], pp, p@);
                assert(bs@[k as int] == g);
            }
        }
    }
}

/// Add task `i`, which goes under prefix `p`, to the headers for the
/// tasks before it.
fn place_task(bs: &mut Vec<AutoGroup>, Ghost(ts): Ghost<Seq<Task>>, i: usize, p: String, done: bool)
    requires
        i < ts.len() <= usize::MAX,
        buckets_of(ts, i as nat, old(bs)@),
        in_bucket(ts[i as int], p@),
        done == (ts[i as int].spec_status() is Completed),
    ensures
        buckets_of(ts, (i + 1) as nat, final(bs)@),
{
    let pc = str_chars(p.as_str());
    let (k, found) = bucket_slot(bs, pc.as_slice());
    if found {
        place_found(bs, Ghost(ts), i, k, &p, done);
    } else {
        place_new(bs, Ghost(ts), i, k, p, done);
    }
}

/// Sort the ungrouped tasks of `tasks` into headers by name prefix
/// (ascending), and list the ungrouped tasks without a prefix.
pub fn auto_group(tasks: &[Task]) -> (g: AutoGrouping)
    ensures
        buckets_of(tasks@, tasks@.len(), g.buckets@),
        g.loose@ == loose_upto(tasks@, tasks@.len()),
{
    let ghost ts = tasks@;
    let n = tasks.len();
    let mut buckets: Vec<AutoGroup> = Vec::new();
    let mut loose: Vec<usize> = Vec::new();
    let mut i: usize = 0;
    while i < n
        invariant
            ts == tasks@,
            n == ts.len(),
            i <= ts.len(),
            buckets_of(ts, i as nat, buckets@),
            loose@ == loose_upto(ts, i as nat),
        decreases ts.len() - i,
    {
        let t = &tasks[i];
        proof {
            reveal(in_bucket);
        }
        if t.group_id().is_some() {
            proof {
                lemma_buckets_skip(ts, i as nat, buckets@);
            }
        } else {
            match extract_prefix(t.name()) {
                None => {
                    loose.push(i);
                    proof {
                        lemma_buckets_skip(ts, i as nat, buckets@);
                    }
                },
                Some(p) => {
                    let done = match t.status() {
                        TaskStatus::Completed => true,
                        _ => false,
                    };
                    place_task(&mut buckets, Ghost(ts), i, p, done);
                },
            }
        }
        i = i + 1;
    }
    AutoGrouping { buckets, loose }
}

/// A bucket holds at most as many tasks as were looked at.
proof fn lemma_bucket_len(ts: Seq<Task>, p: Seq<char>, n: nat)
    ensures
        bucket_upto(ts, p, n).len() <= n,
    decreases n,
{
    if n > 0 {
        lemma_bucket_len(ts, p, (n - 1) as nat);
    }
}

/// Membership in a bucket is exactly being under its prefix.
proof fn lemma_bucket_members(ts: Seq<Task>, p: Seq<char>, n: nat, k: int)
    requires
        n <= ts.len() <= usize::MAX,
    ensures
        bucket_upto(ts, p, n).contains(k as usize) && 0 <= k <= usize::MAX <==> 0 <= k < n && in_bucket(ts[k], p),
    decreases n,
{
    if n > 0 {
        lemma_bucket_members(ts, p, (n - 1) as nat, k);
        let r = bucket_upto(ts, p, (n - 1) as nat);
        if in_bucket(ts[n - 1], p) {
            assert(r.push((n - 1) as usize)[r.len() as int] == (n - 1) as usize);
            let q = r.push((n - 1) as usize);
            if q.contains(k as usize) && 0 <= k <= usize::MAX && k != n - 1 {
                let w = choose|w: int| 0 <= w < q.len() && q[w] == k as usize;
                assert(w < r.len());
                assert(r[w] == k as usize);
            }
            if r.contains(k as usize) {
                let w = choose|w: int| 0 <= w < r.len() && r[w] == k as usize;
                assert(r.push((n - 1) as usize)[w] == k as usize);
            }
        }
    }
}

/// Membership in the loose list is exactly being loose.
proof fn lemma_loose_members(ts: Seq<Task>, n: nat, k: int)
    requires
        n <= ts.len() <= usize::MAX,
    ensures
        loose_upto(ts, n).contains(k as usize) && 0 <= k <= usize::MAX <==> 0 <= k < n && is_loose(ts[k]),
    decreases n,
{
    if n > 0 {
        lemma_loose_members(ts, (n - 1) as nat, k);
        let r = loose_upto(ts, (n - 1) as nat);
        if is_loose(ts[n - 1]) {
            assert(r.push((n - 1) as usize)[r.len() as int] == (n - 1) as usize);
            let q = r.push((n - 1) as usize);
            if q.contains(k as usize) && 0 <= k <= usize::MAX && k != n - 1 {
                let w = choose|w: int| 0 <= w < q.len() && q[w] == k as usize;
                assert(w < r.len());
                assert(r[w] == k as usize);
            }
            if r.contains(k as usize) {
                let w = choose|w: int| 0 <= w < r.len() && r[w] == k as usize;
                assert(r.push((n - 1) as usize)[w] == k as usize);
            }
        }
    }
}

/// Every ungrouped task is listed exactly once: under the header of its
/// prefix, or on its own when it has none; grouped tasks are not listed.
pub proof fn law_auto_group_partitions(ts: Seq<Task>, bs: Seq<AutoGroup>, loose: Seq<usize>, k: int)
    requires
        ts.len() <= usize::MAX,
        buckets_of(ts, ts.len(), bs),
        loose == loose_upto(ts, ts.len()),
        0 <= k < ts.len(),
    ensures
        ts[k].spec_group() is Some ==> !loose.contains(k as usize) && forall|i: int|
            0 <= i < bs.len() ==> !(#[trigger] bs[i]).members@.contains(k as usize),
        ts[k].spec_group() is None && name_prefix(ts[k].spec_name()) is None ==> loose.contains(k as usize)
            && forall|i: int| 0 <= i < bs.len() ==> !(#[trigger] bs[i]).members@.contains(k as usize),
        ts[k].spec_group() is None && name_prefix(ts[k].spec_name()) is Some ==> !loose.contains(k as usize)
            && exists|i: int| 0 <= i < bs.len() && (#[trigger] bs[i]).members@.contains(k as usize)
            && forall|j: int| 0 <= j < bs.len() && j != i ==> !(#[trigger] bs[j]).members@.contains(k as usize),
{
    reveal(in_bucket);
    lemma_loose_members(ts, ts.len(), k);
    assert forall|i: int| 0 <= i < bs.len() implies ((#[trigger] bs[i]).members@.contains(k as usize)
        <==> in_bucket(ts[k], bs[i].prefix@)) by {
        lemma_bucket_members(ts, bs[i].prefix@, ts.len(), k);
    }
    if ts[k].spec_group() is None && name_prefix(ts[k].spec_name()) is Some {
        let p = name_prefix(ts[k].spec_name()).unwrap();
        assert(in_bucket(ts[k], p));
        let i = choose|i: int| 0 <= i < bs.len() && #[trigger] bs[i].prefix@ == p;
        assert(bs[i].members@.contains(k as usize));
        assert forall|j: int| 0 <= j < bs.len() && j != i implies !(#[trigger] bs[j]).members@.contains(k as usize) by {
            if bs[j].members@.contains(k as usize) {
                if j < i {
                    lemma_lex_asymmetric(bs[j].prefix@, bs[i].prefix@);
                } else {
                    lemma_lex_asymmetric(bs[i].prefix@, bs[j].prefix@);
                }
            }
        }
    }
}

} // verus!
