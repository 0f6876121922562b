//! Folder rows: finding or creating the row of a directory, ancestors
//! first, so that every row's parent is already recorded.
//!
//! The database work is the host's: an [`EnsureFolder`] run tells it,
//! step by step, which row to look up or write, and turns the answers
//! into the next step.

use vstd::prelude::*;
use crate::paths::{comp_start, lemma_comp_start, parent_from, parent_of, parent_path, trim_tail, body_start};

verus! {

/// A row of the `folders` table.
#[derive(Debug, Clone)]
pub struct Folder {
    pub id: i64,
    pub path: String,
    pub parent_id: Option<i64>,
}

/// `trim_tail` never lengthens a path.
proof fn lemma_trim_tail_len(s: Seq<char>, b: int)
    ensures
        trim_tail(s, b).len() <= s.len(),
    decreases s.len(),
{
    if s.len() == 0 || s.len() <= b {
    } else if s.last() == '/' {
        lemma_trim_tail_len(s.drop_last(), b);
    } else {
        lemma_comp_start(s, s.len() as int);
        let k = comp_start(s, s.len() as int);
        if s.subrange(k, s.len() as int) == seq!['.'] {
            assert(s.subrange(k, s.len() as int).len() == seq!['.'].len());
            lemma_trim_tail_len(s.subrange(0, if k > b && k > 0 { k - 1 } else { k }), b);
        }
    }
}

/// The last component of a path not ending in `/` is not empty.
proof fn lemma_comp_nonempty(s: Seq<char>)
    requires
        s.len() > 0,
        s.last() != '/',
    ensures
        comp_start(s, s.len() as int) < s.len(),
{
    lemma_comp_start(s, s.len() - 1);
}

/// A parent is shorter than its path.
pub proof fn lemma_parent_shorter(s: Seq<char>, b: int)
    requires
        parent_from(s, b) is Some,
    ensures
        parent_from(s, b).unwrap().len() < s.len(),
    decreases s.len(),
{
    if s.len() == 0 || s.len() <= b {
    } else if s.last() == '/' {
        lemma_parent_shorter(s.drop_last(), b);
    } else {
        lemma_comp_start(s, s.len() as int);
        lemma_comp_nonempty(s);
        let k = comp_start(s, s.len() as int);
        if s.subrange(k, s.len() as int) == seq!['.'] {
            assert(s.subrange(k, s.len() as int).len() == seq!['.'].len());
            lemma_parent_shorter(s.subrange(0, k), b);
        } else {
            lemma_trim_tail_len(s.subrange(0, if k > b && k > 0 { k - 1 } else { k }), b);
        }
    }
}

/// The folders an ensure run may have to create for `path`: the path
/// itself, then its parent, its parent's parent, and so on, while a
/// non-empty parent exists.
pub open spec fn folder_chain(path: Seq<char>) -> Seq<Seq<char>>
    decreases path.len(),
{
    match parent_of(path) {
        Some(p) => if p.len() > 0 {
            proof {
                lemma_parent_shorter(path, body_start(path));
            }
            seq![path] + folder_chain(p)
        } else {
            seq![path]
        },
        None => seq![path],
    }
}

/// The chain starts at the path and steps from each folder to its
/// parent; it ends at a folder with no (or an empty) parent.
pub proof fn law_chain_climbs_to_root(path: Seq<char>)
    ensures
        folder_chain(path).len() >= 1,
        folder_chain(path)[0] == path,
        forall|i: int| 0 <= i < folder_chain(path).len() - 1 ==> parent_of(#[trigger] folder_chain(path)[i])
            == Some(folder_chain(path)[i + 1]),
        parent_of(folder_chain(path).last()) matches Some(p) ==> p.len() == 0,
    decreases path.len(),
{
    match parent_of(path) {
        Some(p) => if p.len() > 0 {
            lemma_parent_shorter(path, body_start(path));
            law_chain_climbs_to_root(p);
            let c = folder_chain(path);
            assert forall|i: int| 0 <= i < c.len() - 1 implies parent_of(#[trigger] c[i]) == Some(c[i + 1]) by {
                if i > 0 {
                    assert(c[i] == folder_chain(p)[i - 1]);
                }
            }
        },
        None => {},
    }
}

/// What the host does next in an ensure-folder run.
#[derive(Debug, Clone, PartialEq, Eq)]
pub enum FolderStep {
    /// Look up the row of this path and report its id, if any.
    Lookup(String),
    /// Insert (or update) the row of this path with this parent, then
    /// report that it is written.
    Insert(String, Option<i64>),
    /// The folder's id: the run is over.
    Done(i64),
    /// The row just written could not be found again: the run failed.
    Missing(String),
}

/// Where a run stands.
#[derive(Debug, Clone, Copy, PartialEq, Eq, Structural)]
pub enum PlanMode {
    /// Looking up folder `i` of the chain, going up.
    Descending(usize),
    /// Writing folder `i` of the chain, coming down.
    Inserting(usize),
    /// Reading back folder `i` of the chain after writing it.
    Verifying(usize),
    /// The run is over.
    Finished,
}

/// An ensure-folder run: find the row of a path, creating it and any
/// missing ancestors (ancestors first) when it is not there.
pub struct EnsureFolder {
    chain: Vec<String>,
    mode: PlanMode,
}

/// The step that names folder `i` of `chain` in `mode`, with `parent`
/// the id for an insert.
pub open spec fn step_is(step: FolderStep, chain: Seq<Seq<char>>, i: int, lookup: bool, parent: Option<i64>) -> bool {
    if lookup {
        step matches FolderStep::Lookup(p) && p@ == chain[i]
    } else {
        step matches FolderStep::Insert(p, q) && p@ == chain[i] && q == parent
    }
}

impl EnsureFolder {
    /// The folders of the run, from the path up.
    pub closed spec fn spec_chain(&self) -> Seq<Seq<char>> {
        self.chain@.map_values(|s: String| s@)
    }

    /// Where the run stands.
    pub closed spec fn spec_mode(&self) -> PlanMode {
        self.mode
    }

    /// The run's positions lie inside its chain.
    pub open spec fn wf(&self) -> bool {
        &&& self.spec_chain().len() >= 1
        &&& match self.spec_mode() {
            PlanMode::Descending(i) => i < self.spec_chain().len(),
            PlanMode::Inserting(i) => i < self.spec_chain().len(),
            PlanMode::Verifying(i) => i < self.spec_chain().len(),
            PlanMode::Finished => true,
        }
    }

    /// Start a run for `path`; the first step looks the path up.
    pub fn new(path: &str) -> (r: (Self, FolderStep))
        ensures
            r.0.wf(),
            r.0.spec_chain() == folder_chain(path@),
            r.0.spec_mode() == PlanMode::Descending(0),
            step_is(r.1, r.0.spec_chain(), 0, true, None),
    {
        let mut chain: Vec<String> = Vec::new();
        let mut cur: String = path.to_owned();
        let ghost start = path@;
        loop
            invariant_except_break
                folder_chain(start) == chain@.map_values(|s: String| s@) + folder_chain(cur@),
            ensures
                folder_chain(start) == chain@.map_values(|s: String| s@),
            decreases cur@.len(),
        {
            let parent = parent_path(cur.as_str());
            let ghost before = chain@;
            let ghost c = cur@;
            match parent {
                Some(p) => {
                    if p.unicode_len() == 0 {
                        chain.push(cur);
                        assert(chain@.map_values(|s: String| s@) == before.map_values(|s: String| s@).push(c));
                        assert(folder_chain(c) == seq![c]);
                        assert(folder_chain(start) == chain@.map_values(|s: String| s@));
                        break;
                    }
                    chain.push(cur);
                    assert(chain@.map_values(|s: String| s@) == before.map_values(|s: String| s@).push(c));
                    proof {
                        lemma_parent_shorter(c, body_start(c));
                    }
                    assert(folder_chain(c) == seq![c] + folder_chain(p@));
                    assert(folder_chain(start) == chain@.map_values(|s: String| s@) + folder_chain(p@));
                    cur = p;
                },
                None => {
                    chain.push(cur);
                    assert(chain@.map_values(|s: String| s@) == before.map_values(|s: String| s@).push(c));
                    assert(folder_chain(c) == seq![c]);
                    assert(folder_chain(start) == chain@.map_values(|s: String| s@));
                    break;
                },
            }
        }
        proof {
            law_chain_climbs_to_root(start);
        }
        let first = chain[0].clone();
        (EnsureFolder { chain, mode: PlanMode::Descending(0) }, FolderStep::Lookup(first))
    }

    /// The host answered the last `Lookup`: `id` is the row's id, if the
    /// row exists. Found while going up: the run is done if this is the
    /// path itself, else the folder below is inserted under this id. Not
    /// found while going up: the next ancestor is looked up, or, with no
    /// ancestor left, this topmost folder is inserted without a parent.
    /// Found when reading back a written row: as when found going up.
    /// Not found when reading back: the run fails.
    pub fn found(&mut self, id: Option<i64>) -> (step: FolderStep)
        requires
            old(self).wf(),
            old(self).spec_mode() matches PlanMode::Descending(_) || old(self).spec_mode() matches PlanMode::Verifying(_),
        ensures
            final(self).wf(),
            final(self).spec_chain() == old(self).spec_chain(),
            ({
                let c = old(self).spec_chain();
                match (old(self).spec_mode(), id) {
                    (PlanMode::Descending(i), Some(x)) | (PlanMode::Verifying(i), Some(x)) => if i == 0 {
                        step == FolderStep::Done(x) && final(self).spec_mode() == PlanMode::Finished
                    } else {
                        &&& step_is(step, c, i - 1, false, Some(x))
                        &&& final(self).spec_mode() == PlanMode::Inserting((i - 1) as usize)
                    },
                    (PlanMode::Descending(i), None) => if i + 1 < c.len() {
                        &&& step_is(step, c, i + 1, true, None)
                        &&& final(self).spec_mode() == PlanMode::Descending((i + 1) as usize)
                    } else {
                        &&& step_is(step, c, i as int, false, None)
                        &&& final(self).spec_mode() == PlanMode::Inserting(i)
                    },
                    (PlanMode::Verifying(i), None) => {
                        &&& step matches FolderStep::Missing(p) && p@ == c[i as int]
                        &&& final(self).spec_mode() == PlanMode::Finished
                    },
                    _ => false,
                }
            }),
    {
        let n = self.chain.len();
        let (i, verifying) = match self.mode {
            PlanMode::Descending(i) => (i, false),
            PlanMode::Verifying(i) => (i, true),
            _ => (0, false),
        };
        match id {
            Some(x) => {
                if i == 0 {
                    self.mode = PlanMode::Finished;
                    FolderStep::Done(x)
                } else {
                    self.mode = PlanMode::Inserting(i - 1);
                    FolderStep::Insert(self.chain[i - 1].clone(), Some(x))
                }
            },
            None => {
                if verifying {
                    self.mode = PlanMode::Finished;
                    FolderStep::Missing(self.chain[i].clone())
                } else if i + 1 < n {
                    self.mode = PlanMode::Descending(i + 1);
                    FolderStep::Lookup(self.chain[i + 1].clone())
                } else {
                    self.mode = PlanMode::Inserting(i);
                    FolderStep::Insert(self.chain[i].clone(), None)
                }
            },
        }
    }

    /// The host wrote the row of the last `Insert`; the next step reads
    /// it back.
    pub fn inserted(&mut self) -> (step: FolderStep)
        requires
            old(self).wf(),
            old(self).spec_mode() matches PlanMode::Inserting(_),
        ensures
            final(self).wf(),
            final(self).spec_chain() == old(self).spec_chain(),
            ({
                let i = old(self).spec_mode()->Inserting_0;
                &&& step_is(step, old(self).spec_chain(), i as int, true, None)
                &&& final(self).spec_mode() == PlanMode::Verifying(i)
            }),
    {
        let i = match self.mode {
            PlanMode::Inserting(i) => i,
            _ => 0,
        };
        self.mode = PlanMode::Verifying(i);
        FolderStep::Lookup(self.chain[i].clone())
    }

    /// Whether the run is over.
    pub fn is_finished(&self) -> (r: bool)
        ensures
            r == (self.spec_mode() == PlanMode::Finished),
    {
        match self.mode {
            PlanMode::Finished => true,
            _ => false,
        }
    }
}

} // verus!
