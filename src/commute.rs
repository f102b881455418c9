//! The commutation kernel: moving a hunk back past an earlier hunk of the
//! same file, translating its positions, or finding that the two conflict.
use vstd::prelude::*;
use crate::owned::{BlockView, Hunk, HunkView};

verus! {

/// `later` (applied after `earlier`) lies wholly above the lines that
/// `earlier` added.
pub open spec fn lies_above(later: HunkView, earlier: HunkView) -> bool {
    later.removed.start + later.removed.lines.len() <= earlier.added.start
}

/// `later` lies wholly below the lines that `earlier` added.
pub open spec fn lies_below(later: HunkView, earlier: HunkView) -> bool {
    later.removed.start >= earlier.added.start + earlier.added.lines.len()
}

/// The two hunks do not conflict: the lines `later` removes do not meet
/// those that `earlier` added.
pub open spec fn commutes(later: HunkView, earlier: HunkView) -> bool {
    lies_above(later, earlier) || lies_below(later, earlier)
}

/// The number of lines a hunk adds to its file, net.
pub open spec fn growth(h: HunkView) -> int {
    h.added.lines.len() - h.removed.lines.len()
}

/// `h` with both of its positions moved by `by` lines.
pub open spec fn shift(h: HunkView, by: int) -> HunkView {
    HunkView {
        removed: BlockView { start: h.removed.start + by, lines: h.removed.lines },
        added: BlockView { start: h.added.start + by, lines: h.added.lines },
    }
}

/// `later` as it reads once moved before `earlier`.
pub open spec fn translated(later: HunkView, earlier: HunkView) -> HunkView {
    if lies_above(later, earlier) {
        later
    } else {
        shift(later, -growth(earlier))
    }
}

/// `earlier` as it reads once `later`, translated, has been applied first.
pub open spec fn displaced(earlier: HunkView, later: HunkView) -> HunkView {
    if lies_above(later, earlier) {
        shift(earlier, growth(later))
    } else {
        earlier
    }
}

/// Both positions of a hunk can be held in an `isize`.
pub open spec fn positions_fit(h: HunkView) -> bool {
    isize::MIN <= h.removed.start <= isize::MAX && isize::MIN <= h.added.start <= isize::MAX
}

/// The outcome of moving `later` before `earlier`: the translated hunk, or
/// `None` when they conflict or its new positions overflow an `isize`.
pub open spec fn commute_spec(later: HunkView, earlier: HunkView) -> Option<HunkView> {
    if commutes(later, earlier) && positions_fit(translated(later, earlier)) {
        Some(translated(later, earlier))
    } else {
        None
    }
}

/// Moves `later` before the hunks of one patch, the last of them first.
pub open spec fn commute_all_spec(later: HunkView, earlier: Seq<HunkView>) -> Option<HunkView>
    decreases earlier.len(),
{
    if earlier.len() == 0 {
        Some(later)
    } else {
        match commute_spec(later, earlier.last()) {
            Some(h) => commute_all_spec(h, earlier.drop_last()),
            None => None,
        }
    }
}

/// Moves `later`, a hunk applied after `earlier`, so that it applies
/// before it; `None` when the two conflict.
pub fn commute(later: &Hunk, earlier: &Hunk) -> (r: Option<Hunk>)
    ensures
        r.is_some() == commute_spec(later@, earlier@).is_some(),
        r.is_some() ==> r.unwrap()@ == commute_spec(later@, earlier@).unwrap(),
{
    let h_r = later.removed.start;
    let h_rl = later.removed.lines.len();
    let e_a = earlier.added.start;
    let e_al = earlier.added.lines.len();
    let e_rl = earlier.removed.lines.len();
    if h_r as i128 + h_rl as i128 <= e_a as i128 {
        Some(later.moved_to(later.removed.start, later.added.start))
    } else if h_r as i128 >= e_a as i128 + e_al as i128 {
        let by: i128 = e_rl as i128 - e_al as i128;
        let removed_start: i128 = h_r as i128 + by;
        let added_start: i128 = later.added.start as i128 + by;
        if isize::MIN as i128 <= removed_start && removed_start <= isize::MAX as i128
            && isize::MIN as i128 <= added_start && added_start <= isize::MAX as i128 {
            Some(later.moved_to(removed_start as isize, added_start as isize))
        } else {
            None
        }
    } else {
        None
    }
}

/// Moves `later` before every hunk of a patch, walking them from the last;
/// `None` when any of them conflicts with it.
pub fn commute_diff_before(later: &Hunk, earlier: &Vec<Hunk>) -> (r: Option<Hunk>)
    ensures
        r.is_some() == commute_all_spec(later@, earlier@.map_values(|h: Hunk| h@)).is_some(),
        r.is_some() ==> r.unwrap()@ == commute_all_spec(
            later@,
            earlier@.map_values(|h: Hunk| h@),
        ).unwrap(),
{
    let ghost es = earlier@.map_values(|h: Hunk| h@);
    let mut cur = later.moved_to(later.removed.start, later.added.start);
    let mut i: usize = earlier.len();
    assert(es.take(i as int) =~= es);
    while i > 0
        invariant
            i <= earlier.len(),
            es == earlier@.map_values(|h: Hunk| h@),
            commute_all_spec(later@, es) == commute_all_spec(cur@, es.take(i as int)),
        decreases i,
    {
        assert(es.take(i as int).drop_last() =~= es.take(i - 1));
        match commute(&cur, &earlier[i - 1]) {
            Some(h) => {
                cur = h;
            },
            None => {
                return None;
            },
        }
        i = i - 1;
    }
    assert(es.take(0) =~= Seq::<HunkView>::empty());
    Some(cur)
}

/// `h` can be applied to the file `f`, a sequence of lines: the lines it
/// removes lie within `f`.
pub open spec fn applies_to(f: Seq<Seq<u8>>, h: HunkView) -> bool {
    1 <= h.removed.start && h.removed.start - 1 + h.removed.lines.len() <= f.len()
}

/// `f` with the lines of `h`'s removed block replaced by its added lines.
pub open spec fn apply_spec(f: Seq<Seq<u8>>, h: HunkView) -> Seq<Seq<u8>> {
    let at = h.removed.start - 1;
    f.take(at) + h.added.lines + f.skip(at + h.removed.lines.len())
}

/// The same hunk seen from the other side: it removes what `h` added and adds
/// what `h` removed.
pub open spec fn inverse(h: HunkView) -> HunkView {
    HunkView { removed: h.added, added: h.removed }
}

/// Commuting preserves content: applying `earlier` and then `later` to a file
/// gives the same lines as applying the translated `later` first and then
/// `earlier`, displaced by what `later` added above it. `earlier` stands alone
/// on the file, so both of its positions are equal.
pub proof fn lemma_commute_preserves_content(f: Seq<Seq<u8>>, earlier: HunkView, later: HunkView)
    requires
        earlier.removed.start == earlier.added.start,
        applies_to(f, earlier),
        applies_to(apply_spec(f, earlier), later),
        commutes(later, earlier),
    ensures
        applies_to(f, translated(later, earlier)),
        applies_to(apply_spec(f, translated(later, earlier)), displaced(earlier, later)),
        apply_spec(apply_spec(f, earlier), later) == apply_spec(
            apply_spec(f, translated(later, earlier)),
            displaced(earlier, later),
        ),
{
    let h2 = translated(later, earlier);
    let e2 = displaced(earlier, later);
    let m = apply_spec(f, earlier);
    let g = apply_spec(f, h2);
    let e_at = earlier.removed.start - 1;
    let e_rl = earlier.removed.lines.len() as int;
    let e_al = earlier.added.lines.len() as int;
    let h_at = later.removed.start - 1;
    let h_rl = later.removed.lines.len() as int;
    let h_al = later.added.lines.len() as int;
    if lies_above(later, earlier) {
        assert(m.take(h_at) =~= f.take(h_at));
        assert(m.skip(h_at + h_rl) =~= f.subrange(h_at + h_rl, e_at) + earlier.added.lines
            + f.skip(e_at + e_rl));
        assert(g.take(e_at + h_al - h_rl) =~= f.take(h_at) + later.added.lines + f.subrange(
            h_at + h_rl,
            e_at,
        ));
        assert(g.skip(e_at + h_al - h_rl + e_rl) =~= f.skip(e_at + e_rl));
    } else {
        let h2_at = h_at - e_al + e_rl;
        assert(m.take(h_at) =~= f.take(e_at) + earlier.added.lines + f.subrange(
            e_at + e_rl,
            h2_at,
        ));
        assert(m.skip(h_at + h_rl) =~= f.skip(h2_at + h_rl));
        assert(g.take(e_at) =~= f.take(e_at));
        assert(g.skip(e_at + e_rl) =~= f.subrange(e_at + e_rl, h2_at) + later.added.lines
            + f.skip(h2_at + h_rl));
    }
    assert(apply_spec(m, later) =~= apply_spec(g, e2));
}

/// Conflict is symmetric: `later` conflicts with `earlier` exactly when, seen
/// from the other side, the inverse of `earlier` conflicts with the inverse of
/// `later`.
pub proof fn lemma_conflict_symmetric(later: HunkView, earlier: HunkView)
    ensures
        commutes(later, earlier) == commutes(inverse(earlier), inverse(later)),
{
}

} // verus!
