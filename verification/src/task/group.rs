//! Groups of tasks and the tree they form.

use std::collections::HashMap;
use vstd::prelude::*;

verus! {

broadcast use vstd::std_specs::hash::group_hash_axioms;

/// Unique identifier for a group.
pub type GroupId = u64;

/// A logical grouping of related tasks.
///
/// Groups form a tree via the optional `parent` pointer, so that an outer
/// "Import" group can hold inner "Decoding", "Thumbnail", "Metadata" groups.
#[derive(Debug, Clone)]
pub struct TaskGroup {
    pub(crate) id: GroupId,
    pub(crate) name: String,
    pub(crate) parent: Option<GroupId>,
    /// UI hint: is the group collapsed in the task tree?
    pub(crate) collapsed: bool,
}

impl TaskGroup {
    /// The group's id (0 until a manager assigns one).
    pub closed spec fn spec_id(&self) -> GroupId {
        self.id
    }

    /// The group's name.
    pub closed spec fn spec_name(&self) -> Seq<char> {
        self.name@
    }

    /// The group's parent, if any.
    pub closed spec fn spec_parent(&self) -> Option<GroupId> {
        self.parent
    }

    /// Whether the group is shown collapsed.
    pub closed spec fn spec_collapsed(&self) -> bool {
        self.collapsed
    }

    /// A root group named `name`, id 0, expanded.
    pub fn new(name: &str) -> (g: Self)
        ensures
            g.spec_id() == 0,
            g.spec_name() == name@,
            g.spec_parent() is None,
            !g.spec_collapsed(),
    {
        TaskGroup { id: 0, name: name.to_string(), parent: None, collapsed: false }
    }

    /// A group named `name` with the given id and parent, expanded.
    pub(crate) fn with_identity(name: &str, id: GroupId, parent: Option<GroupId>) -> (g: Self)
        ensures
            g.spec_id() == id,
            g.spec_name() == name@,
            g.spec_parent() == parent,
            !g.spec_collapsed(),
    {
        TaskGroup { id, name: name.to_string(), parent, collapsed: false }
    }

    /// The same group, placed under `parent`.
    pub fn parent(self, parent: GroupId) -> (g: Self)
        ensures
            g.spec_id() == self.spec_id(),
            g.spec_name() == self.spec_name(),
            g.spec_parent() == Some(parent),
            g.spec_collapsed() == self.spec_collapsed(),
    {
        TaskGroup { parent: Some(parent), ..self }
    }

    /// The same group, with the collapsed flag set to `collapsed`.
    pub fn collapsed(self, collapsed: bool) -> (g: Self)
        ensures
            g.spec_id() == self.spec_id(),
            g.spec_name() == self.spec_name(),
            g.spec_parent() == self.spec_parent(),
            g.spec_collapsed() == collapsed,
    {
        TaskGroup { collapsed, ..self }
    }

    pub fn id(&self) -> (r: GroupId)
        ensures
            r == self.spec_id(),
    {
        self.id
    }

    pub fn name(&self) -> (r: &str)
        ensures
            r@ == self.spec_name(),
    {
        self.name.as_str()
    }

    pub fn parent_id(&self) -> (r: Option<GroupId>)
        ensures
            r == self.spec_parent(),
    {
        self.parent
    }

    pub fn is_collapsed(&self) -> (r: bool)
        ensures
            r == self.spec_collapsed(),
    {
        self.collapsed
    }

    pub fn set_collapsed(&mut self, c: bool)
        ensures
            final(self).spec_id() == old(self).spec_id(),
            final(self).spec_name() == old(self).spec_name(),
            final(self).spec_parent() == old(self).spec_parent(),
            final(self).spec_collapsed() == c,
    {
        self.collapsed = c;
    }
}


/// Tree of groups, used to compute aggregate progress / counts.
///
/// `by_id` holds the groups by id; `children` lists, for a parent id, the
/// ids of the groups inserted under it, in insertion order.
#[derive(Debug)]
pub struct GroupTree {
    pub(crate) by_id: HashMap<GroupId, TaskGroup>,
    pub(crate) children: HashMap<GroupId, Vec<GroupId>>,
}

/// `rank` strictly decreases from every parent to each of its children.
pub open spec fn ranked_by(kids: spec_fn(GroupId) -> Seq<GroupId>, rank: spec_fn(GroupId) -> nat) -> bool {
    forall|p: GroupId, i: int|
        0 <= i < kids(p).len() ==> #[trigger] rank(kids(p)[i]) < rank(p)
}

/// Depth-first pre-order listing of the subtree under `id`: `id` itself,
/// then the listing of each child in order.
pub open spec fn subtree_from(
    kids: spec_fn(GroupId) -> Seq<GroupId>,
    rank: spec_fn(GroupId) -> nat,
    id: GroupId,
) -> Seq<GroupId>
    decreases rank(id), 1nat, 0nat,
    when ranked_by(kids, rank)
{
    seq![id] + subtrees_of_kids(kids, rank, id, 0)
}

/// The listings of the children of `p` from position `i` on, concatenated.
pub open spec fn subtrees_of_kids(
    kids: spec_fn(GroupId) -> Seq<GroupId>,
    rank: spec_fn(GroupId) -> nat,
    p: GroupId,
    i: nat,
) -> Seq<GroupId>
    decreases rank(p), 0nat, kids(p).len() - i,
    when ranked_by(kids, rank)
{
    if i < kids(p).len() {
        subtree_from(kids, rank, kids(p)[i as int]) + subtrees_of_kids(kids, rank, p, i + 1)
    } else {
        seq![]
    }
}


impl GroupTree {
    /// The groups, by id.
    pub closed spec fn groups(&self) -> Map<GroupId, TaskGroup> {
        self.by_id@
    }

    /// The ids inserted under `p`, in insertion order.
    pub closed spec fn kids_of(&self, p: GroupId) -> Seq<GroupId> {
        if self.children@.contains_key(p) {
            self.children@[p]@
        } else {
            Seq::empty()
        }
    }

    /// `kids_of` as a function value.
    pub open spec fn kids(&self) -> spec_fn(GroupId) -> Seq<GroupId> {
        |p: GroupId| self.kids_of(p)
    }

    /// Every id listed under `p` names a group whose parent is `p`, and
    /// each child list is in increasing id order.
    pub open spec fn linked(&self) -> bool {
        &&& forall|p: GroupId, i: int| 0 <= i < self.kids_of(p).len() ==> {
            &&& self.groups().contains_key(#[trigger] self.kids_of(p)[i])
            &&& self.groups()[self.kids_of(p)[i]].spec_parent() == Some(p)
        }
        &&& forall|p: GroupId, i: int, j: int| 0 <= i < j < self.kids_of(p).len()
            ==> #[trigger] self.kids_of(p)[i] < #[trigger] self.kids_of(p)[j]
    }

    /// No group is (transitively) its own descendant.
    pub open spec fn acyclic(&self) -> bool {
        exists|rank: spec_fn(GroupId) -> nat| ranked_by(self.kids(), rank)
    }

    /// Depth-first pre-order listing of the subtree rooted at `root`.
    pub open spec fn subtree(&self, root: GroupId) -> Seq<GroupId> {
        subtree_from(self.kids(), choose|rank: spec_fn(GroupId) -> nat| ranked_by(self.kids(), rank), root)
    }

    /// An empty tree.
    pub fn new() -> (t: Self)
        ensures
            t.groups() == Map::<GroupId, TaskGroup>::empty(),
            forall|p: GroupId| t.kids_of(p) == Seq::<GroupId>::empty(),
    {
        GroupTree { by_id: HashMap::new(), children: HashMap::new() }
    }

    /// Record `group` under its id; when it has a parent, append its id
    /// to the parent's child list. Returns the group's id.
    pub fn insert(&mut self, group: TaskGroup) -> (id: GroupId)
        ensures
            id == group.spec_id(),
            final(self).groups() == old(self).groups().insert(id, group),
            forall|p: GroupId| #[trigger] final(self).kids_of(p) == if group.spec_parent() == Some(p) {
                old(self).kids_of(p).push(id)
            } else {
                old(self).kids_of(p)
            },
    {
        let id = group.id;
        if let Some(parent) = group.parent {
            let mut v = match self.children.remove(&parent) {
                Some(v) => v,
                None => Vec::new(),
            };
            v.push(id);
            self.children.insert(parent, v);
        }
        self.by_id.insert(id, group);
        id
    }

    /// The group recorded under `id`, if any.
    pub fn get(&self, id: GroupId) -> (r: Option<&TaskGroup>)
        ensures
            r matches Some(g) ==> self.groups().contains_key(id) && *g == self.groups()[id],
            r is None ==> !self.groups().contains_key(id),
    {
        self.by_id.get(&id)
    }

    /// Set the collapsed flag of the group recorded under `gid`, if any.
    pub fn set_collapsed(&mut self, gid: GroupId, collapsed: bool)
        ensures
            final(self).groups().dom() == old(self).groups().dom(),
            forall|h: GroupId| h != gid && #[trigger] old(self).groups().contains_key(h)
                ==> final(self).groups()[h] == old(self).groups()[h],
            old(self).groups().contains_key(gid) ==> {
                let (a, b) = (old(self).groups()[gid], final(self).groups()[gid]);
                &&& b.spec_id() == a.spec_id()
                &&& b.spec_name() == a.spec_name()
                &&& b.spec_parent() == a.spec_parent()
                &&& b.spec_collapsed() == collapsed
            },
            forall|p: GroupId| #[trigger] final(self).kids_of(p) == old(self).kids_of(p),
    {
        match self.by_id.remove(&gid) {
            Some(g) => {
                let mut g = g;
                g.set_collapsed(collapsed);
                self.by_id.insert(gid, g);
                assert(self.groups().dom() =~= old(self).groups().dom());
            },
            None => {},
        }
    }

    /// The ids inserted under `id`, in insertion order.
    pub fn children_of(&self, id: GroupId) -> (r: &[GroupId])
        ensures
            r@ == self.kids_of(id),
    {
        match self.children.get(&id) {
            Some(v) => v.as_slice(),
            None => &[],
        }
    }

    /// The subtree rooted at `root` in depth-first pre-order.
    pub fn walk(&self, root: GroupId) -> (out: Vec<GroupId>)
        requires
            self.acyclic(),
        ensures
            out@ == self.subtree(root),
    {
        let ghost rank = choose|rank: spec_fn(GroupId) -> nat| ranked_by(self.kids(), rank);
        let mut out: Vec<GroupId> = Vec::new();
        self.walk_into(root, &mut out, Ghost(rank));
        out
    }

    fn walk_into(&self, id: GroupId, out: &mut Vec<GroupId>, Ghost(rank): Ghost<spec_fn(GroupId) -> nat>)
        requires
            ranked_by(self.kids(), rank),
        ensures
            final(out)@ == old(out)@ + subtree_from(self.kids(), rank, id),
        decreases rank(id), 1nat, 0nat,
    {
        out.push(id);
        let kids = self.children_of(id);
        let n = kids.len();
        let mut i: usize = 0;
        while i < n
            invariant
                ranked_by(self.kids(), rank),
                kids@ == self.kids_of(id),
                n == kids@.len(),
                i <= n,
                out@ + subtrees_of_kids(self.kids(), rank, id, i as nat)
                    == old(out)@ + subtree_from(self.kids(), rank, id),
            decreases n - i,
        {
            let c = kids[i];
            assert(rank(c) < rank(id)) by {
                assert(self.kids()(id)[i as int] == c);
            }
            let ghost before = out@;
            self.walk_into(c, out, Ghost(rank));
            assert(subtrees_of_kids(self.kids(), rank, id, i as nat) == subtree_from(self.kids(), rank, c)
                + subtrees_of_kids(self.kids(), rank, id, (i + 1) as nat));
            assert(out@ + subtrees_of_kids(self.kids(), rank, id, (i + 1) as nat)
                == before + subtrees_of_kids(self.kids(), rank, id, i as nat));
            i = i + 1;
        }
        assert(subtrees_of_kids(self.kids(), rank, id, n as nat) == Seq::<GroupId>::empty());
        assert(out@ == out@ + Seq::<GroupId>::empty());
    }
}

/// Whatever the subtree of child `i` of `p` lists (for `i >= j`), the
/// listings of `p`'s children from `j` on list too.
proof fn lemma_kids_listing_contains(
    kids: spec_fn(GroupId) -> Seq<GroupId>,
    rank: spec_fn(GroupId) -> nat,
    p: GroupId,
    j: nat,
    i: int,
    g: GroupId,
)
    requires
        ranked_by(kids, rank),
        j <= i < kids(p).len(),
        subtree_from(kids, rank, kids(p)[i]).contains(g),
    ensures
        subtrees_of_kids(kids, rank, p, j).contains(g),
    decreases kids(p).len() - j,
{
    let here = subtree_from(kids, rank, kids(p)[j as int]);
    let rest = subtrees_of_kids(kids, rank, p, j + 1);
    assert(subtrees_of_kids(kids, rank, p, j) == here + rest);
    if i == j {
        let w = choose|w: int| 0 <= w < here.len() && here[w] == g;
        assert((here + rest)[w] == g);
    } else {
        lemma_kids_listing_contains(kids, rank, p, j + 1, i, g);
        let w = choose|w: int| 0 <= w < rest.len() && rest[w] == g;
        assert((here + rest)[here.len() + w] == g);
    }
}

/// The listing of a group's subtree contains the group itself and
/// everything its children's subtrees contain: sub-groups are reached at
/// any depth.
pub proof fn law_subtree_reaches_descendants(
    kids: spec_fn(GroupId) -> Seq<GroupId>,
    rank: spec_fn(GroupId) -> nat,
    p: GroupId,
    i: int,
    g: GroupId,
)
    requires
        ranked_by(kids, rank),
        0 <= i < kids(p).len(),
        subtree_from(kids, rank, kids(p)[i]).contains(g),
    ensures
        subtree_from(kids, rank, p)[0] == p,
        subtree_from(kids, rank, p).contains(g),
{
    lemma_kids_listing_contains(kids, rank, p, 0, i, g);
    let rest = subtrees_of_kids(kids, rank, p, 0);
    assert(subtree_from(kids, rank, p) == seq![p] + rest);
    let w = choose|w: int| 0 <= w < rest.len() && rest[w] == g;
    assert((seq![p] + rest)[1 + w] == g);
}

/// A listing of children's subtrees holds `y` only inside the subtree
/// of one of those children; returns its position.
proof fn lemma_in_kids_listing(
    kids: spec_fn(GroupId) -> Seq<GroupId>,
    rank: spec_fn(GroupId) -> nat,
    p: GroupId,
    i: nat,
    y: GroupId,
) -> (j: int)
    requires
        ranked_by(kids, rank),
        subtrees_of_kids(kids, rank, p, i).contains(y),
    ensures
        i <= j < kids(p).len(),
        subtree_from(kids, rank, kids(p)[j]).contains(y),
    decreases kids(p).len() - i,
{
    if i < kids(p).len() {
        let here = subtree_from(kids, rank, kids(p)[i as int]);
        let rest = subtrees_of_kids(kids, rank, p, i + 1);
        assert(subtrees_of_kids(kids, rank, p, i) == here + rest);
        let w = choose|w: int| 0 <= w < (here + rest).len() && (here + rest)[w] == y;
        if w < here.len() {
            assert(here[w] == y);
            i as int
        } else {
            assert(rest[w - here.len()] == y);
            lemma_in_kids_listing(kids, rank, p, i + 1, y)
        }
    } else {
        assert(subtrees_of_kids(kids, rank, p, i) == Seq::<GroupId>::empty());
        assert(false);
        0
    }
}

/// Everything listed under `a` ranks no higher than `a`, and everything
/// but `a` itself ranks lower.
proof fn lemma_subtree_rank(
    kids: spec_fn(GroupId) -> Seq<GroupId>,
    rank: spec_fn(GroupId) -> nat,
    a: GroupId,
    y: GroupId,
)
    requires
        ranked_by(kids, rank),
        subtree_from(kids, rank, a).contains(y),
    ensures
        rank(y) <= rank(a),
        y != a ==> rank(y) < rank(a),
    decreases rank(a),
{
    let rest = subtrees_of_kids(kids, rank, a, 0);
    assert(subtree_from(kids, rank, a) == seq![a] + rest);
    if y != a {
        let w = choose|w: int| 0 <= w < (seq![a] + rest).len() && (seq![a] + rest)[w] == y;
        assert(rest[w - 1] == y);
        let j = lemma_in_kids_listing(kids, rank, a, 0, y);
        let c = kids(a)[j];
        assert(rank(c) < rank(a));
        lemma_subtree_rank(kids, rank, c, y);
    }
}

/// Below `a`, the parent of anything but `a` is listed under `a` too,
/// and ranks higher.
proof fn lemma_parent_listed(
    kids: spec_fn(GroupId) -> Seq<GroupId>,
    rank: spec_fn(GroupId) -> nat,
    parent: spec_fn(GroupId) -> GroupId,
    a: GroupId,
    y: GroupId,
)
    requires
        ranked_by(kids, rank),
        forall|p: GroupId, i: int| 0 <= i < kids(p).len() ==> parent(#[trigger] kids(p)[i]) == p,
        subtree_from(kids, rank, a).contains(y),
        y != a,
    ensures
        subtree_from(kids, rank, a).contains(parent(y)),
        rank(y) < rank(parent(y)),
    decreases rank(a),
{
    let rest = subtrees_of_kids(kids, rank, a, 0);
    assert(subtree_from(kids, rank, a) == seq![a] + rest);
    let w = choose|w: int| 0 <= w < (seq![a] + rest).len() && (seq![a] + rest)[w] == y;
    assert(rest[w - 1] == y);
    let j = lemma_in_kids_listing(kids, rank, a, 0, y);
    let c = kids(a)[j];
    assert(rank(c) < rank(a));
    if y == c {
        assert(parent(c) == a);
        assert((seq![a] + rest)[0] == a);
    } else {
        lemma_parent_listed(kids, rank, parent, c, y);
        law_subtree_reaches_descendants(kids, rank, a, j, parent(y));
    }
}

/// Two subtrees that share a group are nested: one lists the other's
/// root.
proof fn lemma_shared_means_nested(
    kids: spec_fn(GroupId) -> Seq<GroupId>,
    rank: spec_fn(GroupId) -> nat,
    parent: spec_fn(GroupId) -> GroupId,
    a: GroupId,
    b: GroupId,
    y: GroupId,
)
    requires
        ranked_by(kids, rank),
        forall|p: GroupId, i: int| 0 <= i < kids(p).len() ==> parent(#[trigger] kids(p)[i]) == p,
        subtree_from(kids, rank, a).contains(y),
        subtree_from(kids, rank, b).contains(y),
    ensures
        subtree_from(kids, rank, a).contains(b) || subtree_from(kids, rank, b).contains(a),
    decreases rank(a) - rank(y),
{
    lemma_subtree_rank(kids, rank, a, y);
    if y == a || y == b {
    } else {
        lemma_parent_listed(kids, rank, parent, a, y);
        lemma_parent_listed(kids, rank, parent, b, y);
        lemma_subtree_rank(kids, rank, a, parent(y));
        lemma_shared_means_nested(kids, rank, parent, a, b, parent(y));
    }
}

/// The subtree listing under `x` names no group twice.
proof fn lemma_subtree_no_duplicates(
    kids: spec_fn(GroupId) -> Seq<GroupId>,
    rank: spec_fn(GroupId) -> nat,
    parent: spec_fn(GroupId) -> GroupId,
    x: GroupId,
)
    requires
        ranked_by(kids, rank),
        forall|p: GroupId, i: int| 0 <= i < kids(p).len() ==> parent(#[trigger] kids(p)[i]) == p,
        forall|p: GroupId, i: int, j: int| 0 <= i < j < kids(p).len() ==> #[trigger] kids(p)[i] != #[trigger] kids(p)[j],
    ensures
        subtree_from(kids, rank, x).no_duplicates(),
    decreases rank(x), 1nat, 0nat,
{
    let rest = subtrees_of_kids(kids, rank, x, 0);
    assert(subtree_from(kids, rank, x) == seq![x] + rest);
    lemma_kids_listings_no_duplicates(kids, rank, parent, x, 0);
    assert forall|i: int, j: int| 0 <= i < seq![x].len() && 0 <= j < rest.len() implies seq![x][i] != rest[j] by {
        if rest[j] == x {
            assert(rest.contains(x));
            let k = lemma_in_kids_listing(kids, rank, x, 0, x);
            assert(rank(kids(x)[k]) < rank(x));
            lemma_subtree_rank(kids, rank, kids(x)[k], x);
        }
    }
    vstd::seq_lib::lemma_no_dup_in_concat(seq![x], rest);
}

/// The listings of the children of `p` from position `i` on name no group
/// twice.
proof fn lemma_kids_listings_no_duplicates(
    kids: spec_fn(GroupId) -> Seq<GroupId>,
    rank: spec_fn(GroupId) -> nat,
    parent: spec_fn(GroupId) -> GroupId,
    p: GroupId,
    i: nat,
)
    requires
        ranked_by(kids, rank),
        forall|q: GroupId, k: int| 0 <= k < kids(q).len() ==> parent(#[trigger] kids(q)[k]) == q,
        forall|q: GroupId, k: int, l: int| 0 <= k < l < kids(q).len() ==> #[trigger] kids(q)[k] != #[trigger] kids(q)[l],
    ensures
        subtrees_of_kids(kids, rank, p, i).no_duplicates(),
    decreases rank(p), 0nat, kids(p).len() - i,
{
    if i < kids(p).len() {
        let c = kids(p)[i as int];
        assert(rank(c) < rank(p));
        let here = subtree_from(kids, rank, c);
        let rest = subtrees_of_kids(kids, rank, p, i + 1);
        assert(subtrees_of_kids(kids, rank, p, i) == here + rest);
        lemma_subtree_no_duplicates(kids, rank, parent, c);
        lemma_kids_listings_no_duplicates(kids, rank, parent, p, i + 1);
        assert forall|u: int, v: int| 0 <= u < here.len() && 0 <= v < rest.len() implies here[u] != rest[v] by {
            if here[u] == rest[v] {
                let y = here[u];
                assert(rest.contains(y));
                let j = lemma_in_kids_listing(kids, rank, p, i + 1, y);
                let d = kids(p)[j];
                assert(c != d);
                lemma_shared_means_nested(kids, rank, parent, c, d, y);
                if subtree_from(kids, rank, c).contains(d) {
                    lemma_parent_listed(kids, rank, parent, c, d);
                    lemma_subtree_rank(kids, rank, c, p);
                } else {
                    lemma_parent_listed(kids, rank, parent, d, c);
                    assert(rank(d) < rank(p));
                    lemma_subtree_rank(kids, rank, d, p);
                }
            }
        }
        vstd::seq_lib::lemma_no_dup_in_concat(here, rest);
    } else {
        assert(subtrees_of_kids(kids, rank, p, i) == Seq::<GroupId>::empty());
    }
}

/// Every id listed under `p` names a group whose parent is `p`, and no
/// child list names an id twice: what inserting each group once leaves.
pub open spec fn inserted_once(t: GroupTree) -> bool {
    &&& forall|p: GroupId, i: int| 0 <= i < t.kids_of(p).len() ==>
        t.groups()[#[trigger] t.kids_of(p)[i]].spec_parent() == Some(p)
    &&& forall|p: GroupId, i: int, j: int| 0 <= i < j < t.kids_of(p).len()
        ==> #[trigger] t.kids_of(p)[i] != #[trigger] t.kids_of(p)[j]
}

/// The walk of a group tree lists each group once: in an acyclic tree
/// where each group was inserted once (every listed child names its
/// parent, and no child list repeats an id), the depth-first listing
/// from any root starts at the root and has no duplicates.
pub proof fn law_walk_lists_each_group_once(t: GroupTree, root: GroupId)
    requires
        inserted_once(t),
        t.acyclic(),
    ensures
        t.subtree(root).no_duplicates(),
        t.subtree(root)[0] == root,
{
    let rank = choose|rank: spec_fn(GroupId) -> nat| ranked_by(t.kids(), rank);
    let parent = |g: GroupId| match t.groups()[g].spec_parent() {
        Some(p) => p,
        None => 0,
    };
    assert forall|p: GroupId, i: int| 0 <= i < t.kids()(p).len() implies parent(#[trigger] t.kids()(p)[i]) == p by {
        assert(t.kids()(p) == t.kids_of(p));
    }
    assert forall|p: GroupId, i: int, j: int| 0 <= i < j < t.kids()(p).len() implies
        #[trigger] t.kids()(p)[i] != #[trigger] t.kids()(p)[j] by {
        assert(t.kids()(p) == t.kids_of(p));
    }
    lemma_subtree_no_duplicates(t.kids(), rank, parent, root);
    assert(subtree_from(t.kids(), rank, root) == seq![root] + subtrees_of_kids(t.kids(), rank, root, 0));
}

/// A linked tree (as the task manager keeps it) has each group inserted
/// once.
pub proof fn lemma_linked_inserted_once(t: GroupTree)
    requires
        t.linked(),
    ensures
        inserted_once(t),
{
    assert forall|p: GroupId, i: int, j: int| 0 <= i < j < t.kids_of(p).len()
        implies #[trigger] t.kids_of(p)[i] != #[trigger] t.kids_of(p)[j] by {
        assert(t.kids_of(p)[i] < t.kids_of(p)[j]);
    }
}

impl Default for GroupTree {
    fn default() -> (t: Self)
        ensures
            t.groups() == Map::<GroupId, TaskGroup>::empty(),
            forall|p: GroupId| t.kids_of(p) == Seq::<GroupId>::empty(),
    {
        GroupTree::new()
    }
}

} // verus!
