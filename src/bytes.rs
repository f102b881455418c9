//! Byte-level helpers: counting and skipping past a delimiter.
use vstd::prelude::*;

verus! {

/// Number of occurrences of `needle` in `s`.
pub open spec fn count_byte(needle: u8, s: Seq<u8>) -> nat
    decreases s.len(),
{
    if s.len() == 0 {
        0
    } else {
        (if s[0] == needle {
            1nat
        } else {
            0nat
        }) + count_byte(needle, s.drop_first())
    }
}

/// The offset just after the `n`-th occurrence of `needle` in `s`, or the
/// length of `s` when it holds fewer than `n` of them; zero when `n` is zero.
pub open spec fn skip_past_spec(needle: u8, s: Seq<u8>, n: nat) -> nat
    decreases s.len(),
{
    if n == 0 || s.len() == 0 {
        0
    } else if s[0] == needle {
        1 + skip_past_spec(needle, s.drop_first(), (n - 1) as nat)
    } else {
        1 + skip_past_spec(needle, s.drop_first(), n)
    }
}

/// The offset after the `n`-th `needle` bounds a prefix that holds exactly
/// `n` of them, or the whole of `s` when `s` holds fewer; for `n == 0` it is
/// zero, and otherwise, when `s` holds `n` of them, it follows one.
pub proof fn lemma_skip_past_counts(needle: u8, s: Seq<u8>, n: nat)
    ensures
        skip_past_spec(needle, s, n) <= s.len(),
        n == 0 ==> skip_past_spec(needle, s, n) == 0,
        n <= count_byte(needle, s) ==> count_byte(
            needle,
            s.take(skip_past_spec(needle, s, n) as int),
        ) == n,
        n > count_byte(needle, s) ==> skip_past_spec(needle, s, n) == s.len(),
        0 < n <= count_byte(needle, s) ==> s[skip_past_spec(needle, s, n) - 1] == needle,
    decreases s.len(),
{
    let r = skip_past_spec(needle, s, n);
    if n == 0 || s.len() == 0 {
        assert(s.take(0) =~= Seq::<u8>::empty());
    } else {
        let t = s.drop_first();
        let m: nat = if s[0] == needle {
            (n - 1) as nat
        } else {
            n
        };
        lemma_skip_past_counts(needle, t, m);
        let rt = skip_past_spec(needle, t, m);
        assert(s.take(r as int).drop_first() =~= t.take(rt as int));
        if 0 < n <= count_byte(needle, s) && rt > 0 {
            assert(s[r - 1] == t[rt - 1]);
        }
    }
}

/// Relies on memchr::memchr: the index of the first occurrence of `needle`
/// in `haystack`, or `None` when there is none.
#[verifier::external_body]
pub(crate) fn find_byte(needle: u8, haystack: &[u8]) -> (r: Option<usize>)
    ensures
        match r {
            Some(i) => i < haystack@.len() && haystack@[i as int] == needle && forall|j: int|
                0 <= j < i ==> haystack@[j] != needle,
            None => forall|j: int| 0 <= j < haystack@.len() ==> haystack@[j] != needle,
        },
{
    memchr::memchr(needle, haystack)
}

proof fn lemma_skip_no_needle(needle: u8, s: Seq<u8>, n: nat)
    requires
        n > 0,
        forall|j: int| 0 <= j < s.len() ==> s[j] != needle,
    ensures
        skip_past_spec(needle, s, n) == s.len(),
    decreases s.len(),
{
    if s.len() > 0 {
        lemma_skip_no_needle(needle, s.drop_first(), n);
    }
}

pub(crate) proof fn lemma_skip_first_needle(needle: u8, s: Seq<u8>, n: nat, i: int)
    requires
        n > 0,
        0 <= i < s.len(),
        s[i] == needle,
        forall|j: int| 0 <= j < i ==> s[j] != needle,
    ensures
        skip_past_spec(needle, s, n) == i + 1 + skip_past_spec(
            needle,
            s.subrange(i + 1, s.len() as int),
            (n - 1) as nat,
        ),
    decreases i,
{
    if i == 0 {
        assert(s.drop_first() =~= s.subrange(1, s.len() as int));
    } else {
        let t = s.drop_first();
        assert forall|j: int| 0 <= j < i - 1 implies t[j] != needle by {
            assert(t[j] == s[j + 1]);
        }
        lemma_skip_first_needle(needle, t, n, i - 1);
        assert(t.subrange(i, t.len() as int) =~= s.subrange(i + 1, s.len() as int));
    }
}

/// The offset just after the `n`-th `needle` in `haystack`, or the length of
/// `haystack` when it holds fewer; `0` for `n == 0`.
pub fn skip_past_nth(needle: u8, haystack: &[u8], n: usize) -> (r: usize)
    ensures
        r as nat == skip_past_spec(needle, haystack@, n as nat),
        r <= haystack@.len(),
{
    proof {
        lemma_skip_past_counts(needle, haystack@, n as nat);
    }
    if n == 0 {
        return 0;
    }
    let mut pos: usize = 0;
    let mut left: usize = n;
    let len: usize = haystack.len();
    assert(haystack@.subrange(0, haystack@.len() as int) =~= haystack@);
    while left > 0
        invariant
            pos <= haystack@.len(),
            len == haystack@.len(),
            left <= n,
            n > 0,
            skip_past_spec(needle, haystack@, n as nat) == pos + skip_past_spec(
                needle,
                haystack@.subrange(pos as int, haystack@.len() as int),
                left as nat,
            ),
        decreases left,
    {
        let (_, rest) = haystack.split_at(pos);
        assert(rest@ =~= haystack@.subrange(pos as int, haystack@.len() as int));
        match find_byte(needle, rest) {
            Some(i) => {
                assert(rest@.len() == haystack@.len() - pos);
                proof {
                    lemma_skip_first_needle(needle, rest@, left as nat, i as int);
                    assert(rest@.subrange(i + 1, rest@.len() as int) =~= haystack@.subrange(
                        pos + i + 1,
                        haystack@.len() as int,
                    ));
                }
                pos = pos + i + 1;
                left = left - 1;
            },
            None => {
                proof {
                    lemma_skip_no_needle(needle, rest@, left as nat);
                }
                return haystack.len();
            },
        }
    }
    pos
}

/// Appends the bytes of `src` to `out`.
pub(crate) fn append_bytes(out: &mut Vec<u8>, src: &[u8])
    ensures
        final(out)@ == old(out)@ + src@,
{
    let mut i: usize = 0;
    let ghost start = out@;
    while i < src.len()
        invariant
            i <= src@.len(),
            out@ == start + src@.take(i as int),
        decreases src.len() - i,
    {
        out.push(src[i]);
        i = i + 1;
        assert(out@ =~= start + src@.take(i as int));
    }
    assert(src@.take(i as int) =~= src@);
}

} // verus!
