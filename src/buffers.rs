use vstd::prelude::*;

use crate::ternary::{is_trit, valid_trits};

verus! {

/// A copy of `src[from..to]`.
pub fn copy_range(src: &[i8], from: usize, to: usize) -> (r: Vec<i8>)
    requires
        from <= to <= src@.len(),
    ensures
        r@ == src@.subrange(from as int, to as int),
{
    let mut out: Vec<i8> = Vec::new();
    let mut i: usize = from;
    while i < to
        invariant
            from <= i <= to <= src@.len(),
            out@ == src@.subrange(from as int, i as int),
        decreases to - i,
    {
        out.push(src[i]);
        i += 1;
        assert(out@ =~= src@.subrange(from as int, i as int));
    }
    out
}

/// Appends all of `src` to `out`.
pub fn push_all(out: &mut Vec<i8>, src: &[i8])
    ensures
        final(out)@ == old(out)@ + src@,
{
    let ghost start = out@;
    let mut i: usize = 0;
    while i < src.len()
        invariant
            i <= src@.len(),
            out@ == start + src@.subrange(0, i as int),
        decreases src@.len() - i,
    {
        out.push(src[i]);
        i += 1;
        assert(out@ =~= start + src@.subrange(0, i as int));
    }
    assert(src@.subrange(0, src@.len() as int) =~= src@);
}

/// Whether the first `n` entries of `s` are all trits.
pub fn trits_upto(s: &[i8], n: usize) -> (r: bool)
    requires
        n <= s@.len(),
    ensures
        r == valid_trits(s@.subrange(0, n as int)),
{
    let mut i: usize = 0;
    while i < n
        invariant
            i <= n <= s@.len(),
            valid_trits(s@.subrange(0, i as int)),
        decreases n - i,
    {
        if s[i] < -1 || s[i] > 1 {
            assert(!is_trit(s@.subrange(0, n as int)[i as int]));
            return false;
        }
        i += 1;
        assert(valid_trits(s@.subrange(0, i as int))) by {
            assert forall|k: int| 0 <= k < i implies is_trit(#[trigger] s@.subrange(0, i as int)[k]) by {
                if k < i - 1 {
                    assert(s@.subrange(0, i as int)[k] == s@.subrange(0, i - 1)[k]);
                }
            }
        }
    }
    true
}

/// Whether all of `s` are trits.
pub fn all_trits(s: &[i8]) -> (r: bool)
    ensures
        r == valid_trits(s@),
{
    let r = trits_upto(s, s.len());
    assert(s@.subrange(0, s@.len() as int) =~= s@);
    r
}

} // verus!
