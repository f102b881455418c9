//! The absorption driver: for each staged hunk, the newest commit of the
//! stack that it cannot be moved past, and the message of its fixup.
use vstd::prelude::*;
use crate::bytes::append_bytes;
use crate::commute::{commute_all_spec, commute_diff_before};
use crate::owned::{find_new_spec, Diff, Hunk, HunkView, PatchView, Status};

verus! {

/// The options of a run.
#[derive(Debug)]
pub struct Config {
    /// Report what would be committed, and commit nothing.
    pub dry_run: bool,
    /// Lift the depth limit on the stack.
    pub force: bool,
    /// The revision that bounds the stack, itself excluded.
    pub base: Option<String>,
}

/// Why a commit stops a hunk's walk back through the stack.
#[derive(Clone, Copy, Debug, PartialEq, Eq, Structural)]
pub enum Blocker {
    /// The commit creates the hunk's file.
    Created,
    /// A hunk of the commit conflicts with it.
    Conflict,
}

/// What becomes of one staged hunk.
#[derive(Clone, Copy, Debug, PartialEq, Eq, Structural)]
pub enum Outcome {
    /// Its file is not merely modified in the index: the hunk is left alone.
    Skipped,
    /// It can be moved past every commit of the stack: no commit owns it.
    NoDestination,
    /// It belongs to the commit at this index of the stack, which stops it
    /// for the reason given.
    Destination(usize, Blocker),
}

/// The views of the diffs of a stack, newest commit first.
pub open spec fn stack_view(stack: Seq<Diff>) -> Seq<Seq<PatchView>> {
    stack.map_values(|d: Diff| d@)
}

/// Walking the stack from index `i`, with `h` on the file at `path`: the index
/// of the first commit that creates the file or holds a hunk that conflicts
/// with `h`, or `None` when `h` moves past them all.
pub open spec fn destination_from(
    h: HunkView,
    path: Seq<u8>,
    stack: Seq<Seq<PatchView>>,
    i: int,
) -> Option<(int, Blocker)>
    decreases stack.len() - i,
{
    if i < 0 || i >= stack.len() {
        None
    } else {
        match find_new_spec(stack[i], path) {
            None => destination_from(h, path, stack, i + 1),
            Some(k) => if stack[i][k].status == Status::Added {
                Some((i, Blocker::Created))
            } else {
                match commute_all_spec(h, stack[i][k].hunks) {
                    None => Some((i, Blocker::Conflict)),
                    Some(h2) => destination_from(h2, stack[i][k].old_path, stack, i + 1),
                }
            },
        }
    }
}

/// A destination found from index `i` lies within the stack, at `i` or later.
pub proof fn lemma_destination_in_stack(
    h: HunkView,
    path: Seq<u8>,
    stack: Seq<Seq<PatchView>>,
    i: int,
)
    requires
        0 <= i,
    ensures
        destination_from(h, path, stack, i) matches Some((d, _)) ==> i <= d < stack.len(),
    decreases stack.len() - i,
{
    if i < stack.len() {
        match find_new_spec(stack[i], path) {
            None => lemma_destination_in_stack(h, path, stack, i + 1),
            Some(k) => if stack[i][k].status != Status::Added {
                match commute_all_spec(h, stack[i][k].hunks) {
                    None => {},
                    Some(h2) => lemma_destination_in_stack(h2, stack[i][k].old_path, stack, i + 1),
                }
            },
        }
    }
}

/// The newest commit of `stack` that `hunk`, staged on the file at `path`,
/// cannot be moved past, and why; `None` when it moves past them all.
pub fn find_destination(hunk: &Hunk, path: &[u8], stack: &Vec<Diff>) -> (r: Option<
    (usize, Blocker),
>)
    ensures
        r matches Some((d, _)) ==> d < stack@.len(),
        r.is_some() == destination_from(hunk@, path@, stack_view(stack@), 0).is_some(),
        r.is_some() ==> (r.unwrap().0 as int, r.unwrap().1) == destination_from(
            hunk@,
            path@,
            stack_view(stack@),
            0,
        ).unwrap(),
{
    let ghost st = stack_view(stack@);
    proof {
        lemma_destination_in_stack(hunk@, path@, st, 0);
    }
    let mut cur = hunk.moved_to(hunk.removed.start, hunk.added.start);
    let mut cur_path = vstd::slice::slice_to_vec(path);
    let mut i: usize = 0;
    while i < stack.len()
        invariant
            i <= stack@.len(),
            st == stack_view(stack@),
            destination_from(hunk@, path@, st, 0) == destination_from(cur@, cur_path@, st, i as int),
        decreases stack.len() - i,
    {
        let diff = &stack[i];
        assert(st[i as int] == diff@);
        match diff.by_new(cur_path.as_slice()) {
            None => {},
            Some(patch) => {
                if patch.status == Status::Added {
                    return Some((i, Blocker::Created));
                }
                match commute_diff_before(&cur, &patch.hunks) {
                    None => {
                        return Some((i, Blocker::Conflict));
                    },
                    Some(h) => {
                        cur = h;
                        cur_path = vstd::slice::slice_to_vec(patch.old_path.as_slice());
                    },
                }
            },
        }
        i = i + 1;
    }
    None
}

/// What becomes of hunk `j` of the staged patch `p`.
pub open spec fn outcome_spec(p: PatchView, j: int, stack: Seq<Seq<PatchView>>) -> Outcome {
    if p.status != Status::Modified {
        Outcome::Skipped
    } else {
        match destination_from(p.hunks[j], p.old_path, stack, 0) {
            None => Outcome::NoDestination,
            Some((d, why)) => Outcome::Destination(d as usize, why),
        }
    }
}

/// The outcome of every staged hunk: one list per patch of `index`, one
/// entry per hunk, in order.
pub fn plan(index: &Diff, stack: &Vec<Diff>) -> (r: Vec<Vec<Outcome>>)
    ensures
        r@.len() == index@.len(),
        forall|p: int|
            0 <= p < r@.len() ==> (#[trigger] r@[p])@.len() == index@[p].hunks.len(),
        forall|p: int, j: int|
            0 <= p < r@.len() && 0 <= j < r@[p]@.len() ==> #[trigger] r@[p]@[j] == outcome_spec(
                index@[p],
                j,
                stack_view(stack@),
            ),
        forall|p: int, j: int|
            0 <= p < r@.len() && 0 <= j < r@[p]@.len() ==> (#[trigger] r@[p]@[j] matches Outcome::Destination(d, _) ==> d < stack@.len()),
{
    let ghost st = stack_view(stack@);
    let mut r: Vec<Vec<Outcome>> = Vec::new();
    let mut p: usize = 0;
    while p < index.patches.len()
        invariant
            p <= index@.len(),
            index@.len() == index.patches@.len(),
            st == stack_view(stack@),
            r@.len() == p,
            forall|q: int| 0 <= q < p ==> (#[trigger] r@[q])@.len() == index@[q].hunks.len(),
            forall|q: int, j: int|
                0 <= q < p && 0 <= j < r@[q]@.len() ==> #[trigger] r@[q]@[j] == outcome_spec(
                    index@[q],
                    j,
                    st,
                ),
            forall|q: int, j: int|
                0 <= q < p && 0 <= j < r@[q]@.len() ==> (#[trigger] r@[q]@[j] matches Outcome::Destination(d, _) ==> d < stack@.len()),
        decreases index.patches.len() - p,
    {
        let patch = &index.patches[p];
        assert(index@[p as int] == patch@);
        let mut row: Vec<Outcome> = Vec::new();
        let mut j: usize = 0;
        while j < patch.hunks.len()
            invariant
                j <= patch.hunks@.len(),
                patch@.hunks.len() == patch.hunks@.len(),
                st == stack_view(stack@),
                row@.len() == j,
                forall|k: int| 0 <= k < j ==> #[trigger] row@[k] == outcome_spec(patch@, k, st),
                forall|k: int| 0 <= k < j ==> (#[trigger] row@[k] matches Outcome::Destination(d, _) ==> d < stack@.len()),
            decreases patch.hunks.len() - j,
        {
            assert(patch@.hunks[j as int] == patch.hunks@[j as int]@);
            let o = if patch.status != Status::Modified {
                Outcome::Skipped
            } else {
                match find_destination(&patch.hunks[j], patch.old_path.as_slice(), stack) {
                    None => Outcome::NoDestination,
                    Some((d, why)) => Outcome::Destination(d, why),
                }
            };
            row.push(o);
            j = j + 1;
        }
        r.push(row);
        p = p + 1;
    }
    r
}

/// The bytes `fixup! `.
pub open spec fn fixup_prefix() -> Seq<u8> {
    seq![102u8, 105u8, 120u8, 117u8, 112u8, 33u8, 32u8]
}

/// The bytes `<no message>`.
pub open spec fn no_message() -> Seq<u8> {
    seq![60u8, 110u8, 111u8, 32u8, 109u8, 101u8, 115u8, 115u8, 97u8, 103u8, 101u8, 62u8]
}

/// The message of a fixup of the commit `id` whose summary is `summary`.
pub open spec fn fixup_message_spec(id: Seq<u8>, summary: Option<Seq<u8>>) -> Seq<u8> {
    fixup_prefix() + id + seq![32u8] + match summary {
        Some(s) => s,
        None => no_message(),
    }
}

/// The message of a fixup commit: `fixup! <id> <summary>`, with
/// `<no message>` standing for a missing summary.
pub fn fixup_message(id: &[u8], summary: Option<&[u8]>) -> (r: Vec<u8>)
    ensures
        r@ == fixup_message_spec(
            id@,
            match summary {
                Some(s) => Some(s@),
                None => None,
            },
        ),
{
    let prefix: [u8; 7] = [102u8, 105u8, 120u8, 117u8, 112u8, 33u8, 32u8];
    let space: [u8; 1] = [32u8];
    let none: [u8; 12] = [
        60u8,
        110u8,
        111u8,
        32u8,
        109u8,
        101u8,
        115u8,
        115u8,
        97u8,
        103u8,
        101u8,
        62u8,
    ];
    let mut r: Vec<u8> = Vec::new();
    append_bytes(&mut r, prefix.as_slice());
    append_bytes(&mut r, id);
    append_bytes(&mut r, space.as_slice());
    match summary {
        Some(s) => append_bytes(&mut r, s),
        None => append_bytes(&mut r, none.as_slice()),
    }
    assert(prefix@ =~= fixup_prefix());
    assert(none@ =~= no_message());
    r
}

} // verus!
