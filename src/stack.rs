//! Stack discovery: how many of the commits met walking back from HEAD form
//! the stack of candidates for absorption.
use vstd::prelude::*;

verus! {

/// The depth at which the walk stops when no base bounds it.
pub const MAX_STACK: usize = 10;

/// A commit met on the first-parent walk back from HEAD.
#[derive(Clone, Copy, Debug, PartialEq, Eq, Structural)]
pub struct Candidate {
    /// How many parents the commit has.
    pub parent_count: usize,
    /// The commit is the configured base.
    pub is_base: bool,
    /// The commit's author is the current user.
    pub by_user: bool,
}

/// The walk stops at `c`, met at `depth` (HEAD being at depth zero), and
/// leaves it out: it is the base, a merge, or, with no base configured,
/// another author's commit or one past the depth limit, which `force` lifts.
pub open spec fn stops_at(c: Candidate, depth: int, has_base: bool, force: bool) -> bool {
    c.is_base || c.parent_count > 1 || (!has_base && !c.by_user) || (!has_base && !force
        && depth >= MAX_STACK)
}

/// The number of commits, counted from HEAD, that form the stack: those
/// before the first one at which the walk stops.
pub fn stack_len(candidates: &Vec<Candidate>, has_base: bool, force: bool) -> (r: usize)
    ensures
        r <= candidates@.len(),
        forall|j: int| 0 <= j < r ==> !stops_at(#[trigger] candidates@[j], j, has_base, force),
        r < candidates@.len() ==> stops_at(candidates@[r as int], r as int, has_base, force),
{
    let mut i: usize = 0;
    while i < candidates.len()
        invariant
            i <= candidates@.len(),
            forall|j: int| 0 <= j < i ==> !stops_at(#[trigger] candidates@[j], j, has_base, force),
        decreases candidates.len() - i,
    {
        let c = candidates[i];
        if c.is_base || c.parent_count > 1 || (!has_base && !c.by_user) || (!has_base && !force
            && i >= MAX_STACK) {
            return i;
        }
        i = i + 1;
    }
    i
}

} // verus!
