//! The content side of the tree patcher: the bytes of a file once a hunk is
//! applied, and the splitting of a slash-separated path.
use vstd::prelude::*;
use crate::bytes::{append_bytes, find_byte, lemma_skip_first_needle, skip_past_nth, skip_past_spec};
use crate::commute::{applies_to, apply_spec};
use crate::owned::{Hunk, HunkView};

verus! {

/// The lines of `lines`, one after another.
pub open spec fn joined(lines: Seq<Seq<u8>>) -> Seq<u8>
    decreases lines.len(),
{
    if lines.len() == 0 {
        Seq::empty()
    } else {
        joined(lines.drop_last()) + lines.last()
    }
}

/// `blob` with `h` applied: the bytes before line `h.removed.start`, then the
/// added lines, then what follows the removed lines.
pub open spec fn patched_blob_spec(blob: Seq<u8>, h: HunkView) -> Seq<u8> {
    let pre = skip_past_spec(10u8, blob, (h.removed.start - 1) as nat) as int;
    let rest = blob.skip(pre);
    let gone = skip_past_spec(10u8, rest, h.removed.lines.len()) as int;
    blob.take(pre) + joined(h.added.lines) + rest.skip(gone)
}

/// The content of a file after `hunk` is applied to `blob`, its old content.
pub fn patch_blob(blob: &[u8], hunk: &Hunk) -> (r: Vec<u8>)
    requires
        hunk@.removed.start >= 1,
    ensures
        r@ == patched_blob_spec(blob@, hunk@),
{
    let mut out: Vec<u8> = Vec::new();
    let pre = skip_past_nth(10u8, blob, (hunk.removed.start - 1) as usize);
    let (head, rest) = blob.split_at(pre);
    append_bytes(&mut out, head);
    let mut i: usize = 0;
    while i < hunk.added.lines.len()
        invariant
            i <= hunk.added.lines@.len(),
            out@ == head@ + joined(hunk@.added.lines.take(i as int)),
        decreases hunk.added.lines.len() - i,
    {
        append_bytes(&mut out, hunk.added.lines[i].as_slice());
        proof {
            let s = hunk@.added.lines.take(i + 1);
            assert(s.drop_last() =~= hunk@.added.lines.take(i as int));
            assert(hunk.added.lines@[i as int]@ =~= hunk@.added.lines[i as int]);
        }
        i = i + 1;
    }
    assert(hunk@.added.lines.take(i as int) =~= hunk@.added.lines);
    let gone = skip_past_nth(10u8, rest, hunk.removed.lines.len());
    let (_, tail) = rest.split_at(gone);
    append_bytes(&mut out, tail);
    assert(rest@ =~= blob@.skip(pre as int));
    assert(tail@ =~= rest@.skip(gone as int));
    out
}

/// Splits `path` at its first `/`: the first component and the rest; `None`
/// when `path` has a single component.
pub fn split_path(path: &[u8]) -> (r: Option<(Vec<u8>, Vec<u8>)>)
    ensures
        match r {
            Some((first, rest)) => exists|i: int|
                0 <= i < path@.len() && path@[i] == 47u8 && (forall|j: int|
                    0 <= j < i ==> path@[j] != 47u8) && first@ == path@.take(i) && rest@
                    == path@.skip(i + 1),
            None => forall|j: int| 0 <= j < path@.len() ==> path@[j] != 47u8,
        },
{
    match find_byte(47u8, path) {
        Some(i) => {
            let (first, rest) = path.split_at(i);
            let (_, after) = rest.split_at(1);
            let first_v = vstd::slice::slice_to_vec(first);
            let rest_v = vstd::slice::slice_to_vec(after);
            assert(after@ =~= path@.skip(i + 1));
            Some((first_v, rest_v))
        },
        None => None,
    }
}

/// Every line of `f` ends in a newline and holds no other.
pub open spec fn whole_lines(f: Seq<Seq<u8>>) -> bool {
    forall|i: int|
        0 <= i < f.len() ==> (#[trigger] f[i]).len() > 0 && f[i].last() == 10u8 && forall|j: int|
            0 <= j < f[i].len() - 1 ==> f[i][j] != 10u8
}

proof fn lemma_joined_append(a: Seq<Seq<u8>>, b: Seq<Seq<u8>>)
    ensures
        joined(a + b) == joined(a) + joined(b),
    decreases b.len(),
{
    if b.len() == 0 {
        assert(a + b =~= a);
        assert(joined(a) + joined(b) =~= joined(a));
    } else {
        assert((a + b).drop_last() =~= a + b.drop_last());
        lemma_joined_append(a, b.drop_last());
        assert(joined(a + b) =~= joined(a) + joined(b));
    }
}

proof fn lemma_joined_split(f: Seq<Seq<u8>>, k: int)
    requires
        0 <= k <= f.len(),
    ensures
        joined(f) == joined(f.take(k)) + joined(f.skip(k)),
{
    assert(f =~= f.take(k) + f.skip(k));
    lemma_joined_append(f.take(k), f.skip(k));
}

proof fn lemma_skip_lines(f: Seq<Seq<u8>>, k: int)
    requires
        whole_lines(f),
        0 <= k <= f.len(),
    ensures
        skip_past_spec(10u8, joined(f), k as nat) == joined(f.take(k)).len(),
    decreases k,
{
    if k == 0 {
        assert(f.take(0) =~= Seq::<Seq<u8>>::empty());
    } else {
        let head = f[0];
        let tail = f.drop_first();
        assert(f =~= seq![head] + tail);
        lemma_joined_append(seq![head], tail);
        assert(seq![head].drop_last() =~= Seq::<Seq<u8>>::empty());
        assert(joined(Seq::<Seq<u8>>::empty()) =~= Seq::<u8>::empty());
        assert(seq![head].last() == head);
        assert(joined(seq![head]) =~= head);
        let s = joined(f);
        assert(s =~= head + joined(tail));
        let i = head.len() - 1;
        assert forall|j: int| 0 <= j < i implies s[j] != 10u8 by {
            assert(s[j] == head[j]);
        }
        assert(s[i] == head[i]);
        lemma_skip_first_needle(10u8, s, k as nat, i);
        assert(s.subrange(i + 1, s.len() as int) =~= joined(tail));
        assert forall|m: int| 0 <= m < tail.len() implies #[trigger] tail[m] == f[m + 1] by {}
        lemma_skip_lines(tail, k - 1);
        assert(f.take(k) =~= seq![head] + tail.take(k - 1));
        lemma_joined_append(seq![head], tail.take(k - 1));
    }
}

/// Patching the bytes of a file applies the hunk to its lines: when every
/// line of `f` ends in a newline, the patched content of `f`'s bytes is the
/// bytes of `f` with `h` applied.
pub proof fn lemma_patch_blob_applies_hunk(f: Seq<Seq<u8>>, h: HunkView)
    requires
        whole_lines(f),
        applies_to(f, h),
    ensures
        patched_blob_spec(joined(f), h) == joined(apply_spec(f, h)),
{
    let at = h.removed.start - 1;
    let rl = h.removed.lines.len() as int;
    let blob = joined(f);
    lemma_skip_lines(f, at);
    lemma_joined_split(f, at);
    let pre = joined(f.take(at)).len() as int;
    assert(blob.take(pre) =~= joined(f.take(at)));
    assert(blob.skip(pre) =~= joined(f.skip(at)));
    let g = f.skip(at);
    assert(whole_lines(g)) by {
        assert forall|m: int| 0 <= m < g.len() implies #[trigger] g[m] == f[m + at] by {}
    }
    lemma_skip_lines(g, rl);
    lemma_joined_split(g, rl);
    let gone = joined(g.take(rl)).len() as int;
    assert(joined(g).skip(gone) =~= joined(g.skip(rl)));
    assert(g.skip(rl) =~= f.skip(at + rl));
    lemma_joined_append(f.take(at), h.added.lines);
    lemma_joined_append(f.take(at) + h.added.lines, f.skip(at + rl));
}

} // verus!
