//! What the task views offer the host application.

use vstd::prelude::*;
use crate::task::group::GroupId;
use crate::task::task::TaskId;
use crate::text::{str_chars, string_from_chars};

verus! {

/// User actions the UI can request from the host application.
#[derive(Debug, Clone, Copy)]
pub enum TaskCommand {
    /// Cancel a single task.
    CancelTask(TaskId),
    /// Cancel every task in a group (and its sub-groups).
    CancelGroup(GroupId),
    /// Toggle the collapsed state of a group header.
    ToggleGroup(GroupId, bool),
}

/// UI options for the task tree.
#[derive(Debug, Clone, Copy)]
pub struct TaskViewOptions {
    /// Show the "Cancel" button next to tasks / groups.
    pub show_cancel: bool,
    /// Show elapsed time next to tasks.
    pub show_elapsed: bool,
    /// Show ETA next to running tasks.
    pub show_eta: bool,
    /// Show the description line below the name.
    pub show_description: bool,
    /// Auto-group tasks whose name contains `::`, `:` or `/` under a
    /// synthetic group based on the prefix.
    pub auto_group_by_separator: bool,
    /// Render each task on a single line.
    pub compact: bool,
    /// Render tasks as a flat list with no group / category headers.
    pub flat: bool,
    /// Only tasks currently running are shown.
    pub only_running: bool,
}

impl Default for TaskViewOptions {
    fn default() -> (o: Self)
        ensures
            o.show_cancel && o.show_elapsed && o.show_eta && !o.show_description,
            o.auto_group_by_separator && !o.compact && !o.flat && !o.only_running,
    {
        TaskViewOptions {
            show_cancel: true,
            show_elapsed: true,
            show_eta: true,
            show_description: false,
            auto_group_by_separator: true,
            compact: false,
            flat: false,
            only_running: false,
        }
    }
}

/// `pat` occurs in `s` at position `i`.
pub open spec fn occurs_at(s: Seq<char>, pat: Seq<char>, i: int) -> bool {
    0 <= i && i + pat.len() <= s.len() && s.subrange(i, i + pat.len()) == pat
}

/// The first position of `pat` in `s`, if any (`str::find`).
pub open spec fn find(s: Seq<char>, pat: Seq<char>) -> Option<int> {
    if exists|i: int| occurs_at(s, pat, i) {
        Some(choose|i: int| occurs_at(s, pat, i) && forall|j: int| 0 <= j < i ==> !occurs_at(s, pat, j))
    } else {
        None
    }
}

/// The auto-group prefix of a task name: the text before the first `::`;
/// failing that, before the first `/`; failing that, before the first
/// `:`.
pub open spec fn name_prefix(name: Seq<char>) -> Option<Seq<char>> {
    match find(name, seq![':', ':']) {
        Some(i) => Some(name.subrange(0, i)),
        None => match find(name, seq!['/']) {
            Some(i) => Some(name.subrange(0, i)),
            None => match find(name, seq![':']) {
                Some(i) => Some(name.subrange(0, i)),
                None => None,
            },
        },
    }
}

/// First position of the pattern `pat` (1 or 2 characters) in `v`.
fn find_chars(v: &[char], pat: &[char]) -> (r: Option<usize>)
    requires
        1 <= pat@.len() <= 2,
    ensures
        r matches Some(i) ==> find(v@, pat@) == Some(i as int) && i + pat@.len() <= v@.len(),
        r is None ==> find(v@, pat@) is None,
{
    let m = pat.len();
    let n = v.len();
    if n < m {
        return None;
    }
    let mut i: usize = 0;
    while i <= n - m
        invariant
            m == pat@.len(),
            n == v@.len(),
            m <= n,
            1 <= m <= 2,
            i <= n - m + 1,
            forall|j: int| 0 <= j < i ==> !occurs_at(v@, pat@, j),
        decreases n - m + 1 - i,
    {
        let hit = v[i] == pat[0] && (m == 1 || v[i + 1] == pat[1]);
        if hit {
            assert(v@.subrange(i as int, i + m) =~= pat@);
            assert(occurs_at(v@, pat@, i as int));
            let ghost w = choose|k: int| occurs_at(v@, pat@, k) && forall|j: int| 0 <= j < k ==> !occurs_at(v@, pat@, j);
            assert(w == i) by {
                if w < i {
                    assert(!occurs_at(v@, pat@, w));
                } else if w > i {
                    assert(!occurs_at(v@, pat@, i as int));
                }
            }
            return Some(i);
        } else {
            assert(!occurs_at(v@, pat@, i as int)) by {
                if occurs_at(v@, pat@, i as int) {
                    assert(v@.subrange(i as int, i + m)[0] == v@[i as int]);
                    if m == 2 {
                        assert(v@.subrange(i as int, i + m)[1] == v@[i + 1]);
                    }
                }
            }
        }
        i = i + 1;
    }
    assert forall|j: int| !occurs_at(v@, pat@, j) by {
        if 0 <= j && j + m <= n {
            assert(j < i);
        }
    }
    None
}

/// The text of `v` before the first occurrence of `pat`, if any.
fn prefix_before(v: &[char], pat: &[char]) -> (r: Option<String>)
    requires
        1 <= pat@.len() <= 2,
    ensures
        r matches Some(p) ==> find(v@, pat@) matches Some(i) && p@ == v@.subrange(0, i),
        r is None ==> find(v@, pat@) is None,
{
    match find_chars(v, pat) {
        Some(i) => Some(string_from_chars(&v[0..i])),
        None => None,
    }
}

/// The auto-group prefix of a task name (see [`name_prefix`]).
pub fn extract_prefix(name: &str) -> (r: Option<String>)
    ensures
        r matches Some(p) ==> name_prefix(name@) == Some(p@),
        r is None ==> name_prefix(name@) is None,
{
    let v = str_chars(name);
    let double_colon: [char; 2] = [':', ':'];
    let slash: [char; 1] = ['/'];
    let colon: [char; 1] = [':'];
    assert(double_colon@ == seq![':', ':']);
    assert(slash@ == seq!['/']);
    assert(colon@ == seq![':']);
    let first = prefix_before(v.as_slice(), double_colon.as_slice());
    if first.is_some() {
        return first;
    }
    let second = prefix_before(v.as_slice(), slash.as_slice());
    if second.is_some() {
        return second;
    }
    prefix_before(v.as_slice(), colon.as_slice())
}

} // verus!
