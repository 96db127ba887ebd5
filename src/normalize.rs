use vstd::prelude::*;

use crate::ternary::{tryte_position, tryte_value};

verus! {

/// The tryte values of a string.
pub open spec fn values(s: Seq<char>) -> Seq<i8> {
    Seq::new(s.len(), |i: int| tryte_value(s[i]) as i8)
}

/// The sum of the values.
pub open spec fn sum(s: Seq<i8>) -> int
    decreases s.len(),
{
    if s.len() == 0 {
        0
    } else {
        sum(s.drop_last()) + s.last()
    }
}

/// `s` with its first value above -13 lowered by one.
pub open spec fn lower_first(s: Seq<i8>) -> Seq<i8>
    decreases s.len(),
{
    if s.len() == 0 {
        s
    } else if s[0] > -13 {
        s.update(0, (s[0] - 1) as i8)
    } else {
        seq![s[0]] + lower_first(s.drop_first())
    }
}

/// `s` with its first value below 13 raised by one.
pub open spec fn raise_first(s: Seq<i8>) -> Seq<i8>
    decreases s.len(),
{
    if s.len() == 0 {
        s
    } else if s[0] < 13 {
        s.update(0, (s[0] + 1) as i8)
    } else {
        seq![s[0]] + raise_first(s.drop_first())
    }
}

/// `s` after `k` steps of `lower_first`.
pub open spec fn lower(s: Seq<i8>, k: nat) -> Seq<i8>
    decreases k,
{
    if k == 0 {
        s
    } else {
        lower_first(lower(s, (k - 1) as nat))
    }
}

/// `s` after `k` steps of `raise_first`.
pub open spec fn raise(s: Seq<i8>, k: nat) -> Seq<i8>
    decreases k,
{
    if k == 0 {
        s
    } else {
        raise_first(raise(s, (k - 1) as nat))
    }
}

/// A group of values brought to sum zero: a positive sum is taken off one step at a time from
/// the first value that can still go down, a negative one added to the first that can go up.
pub open spec fn balance(s: Seq<i8>) -> Seq<i8> {
    let t = sum(s);
    if t >= 0 {
        lower(s, t as nat)
    } else {
        raise(s, (-t) as nat)
    }
}

/// The normalized form of a bundle hash: three groups of 27 tryte values, each balanced.
pub open spec fn normalized_of(h: Seq<char>) -> Seq<i8> {
    balance(values(h.subrange(0, 27))) + balance(values(h.subrange(27, 54))) + balance(
        values(h.subrange(54, 81)),
    )
}

proof fn lemma_lower_first_at(s: Seq<i8>, j: int)
    requires
        0 <= j < s.len(),
        forall|k: int| 0 <= k < j ==> s[k] <= -13,
        s[j] > -13,
    ensures
        lower_first(s) == s.update(j, (s[j] - 1) as i8),
    decreases j,
{
    if j > 0 {
        lemma_lower_first_at(s.drop_first(), j - 1);
        assert(lower_first(s) =~= s.update(j, (s[j] - 1) as i8));
    }
}

proof fn lemma_lower_first_none(s: Seq<i8>)
    requires
        forall|k: int| 0 <= k < s.len() ==> s[k] <= -13,
    ensures
        lower_first(s) == s,
    decreases s.len(),
{
    if s.len() > 0 {
        lemma_lower_first_none(s.drop_first());
        assert(lower_first(s) =~= s);
    }
}

proof fn lemma_raise_first_at(s: Seq<i8>, j: int)
    requires
        0 <= j < s.len(),
        forall|k: int| 0 <= k < j ==> s[k] >= 13,
        s[j] < 13,
    ensures
        raise_first(s) == s.update(j, (s[j] + 1) as i8),
    decreases j,
{
    if j > 0 {
        lemma_raise_first_at(s.drop_first(), j - 1);
        assert(raise_first(s) =~= s.update(j, (s[j] + 1) as i8));
    }
}

proof fn lemma_raise_first_none(s: Seq<i8>)
    requires
        forall|k: int| 0 <= k < s.len() ==> s[k] >= 13,
    ensures
        raise_first(s) == s,
    decreases s.len(),
{
    if s.len() > 0 {
        lemma_raise_first_none(s.drop_first());
        assert(raise_first(s) =~= s);
    }
}

/// The balanced value of one tryte.
pub fn tryte_val(c: char) -> (r: i8)
    ensures
        r == tryte_value(c),
{
    let p = tryte_position(c);
    if p < 0 {
        0
    } else if p <= 13 {
        p
    } else {
        p - 27
    }
}

/// Lowers the first value above -13 by one.
fn lower_step(v: &mut Vec<i8>)
    ensures
        final(v)@ == lower_first(old(v)@),
{
    let ghost s = v@;
    let mut j: usize = 0;
    let mut done = false;
    while j < v.len() && !done
        invariant
            v@.len() == s.len(),
            j <= s.len(),
            !done ==> v@ == s,
            !done ==> forall|k: int| 0 <= k < j ==> s[k] <= -13,
            done ==> v@ == lower_first(s),
        decreases s.len() - j,
    {
        if v[j] > -13 {
            proof {
                lemma_lower_first_at(s, j as int);
            }
            let x = v[j] - 1;
            v.set(j, x);
            assert(v@ =~= s.update(j as int, x));
            done = true;
        }
        j += 1;
    }
    if !done {
        proof {
            lemma_lower_first_none(s);
        }
    }
}

/// Raises the first value below 13 by one.
fn raise_step(v: &mut Vec<i8>)
    ensures
        final(v)@ == raise_first(old(v)@),
{
    let ghost s = v@;
    let mut j: usize = 0;
    let mut done = false;
    while j < v.len() && !done
        invariant
            v@.len() == s.len(),
            j <= s.len(),
            !done ==> v@ == s,
            !done ==> forall|k: int| 0 <= k < j ==> s[k] >= 13,
            done ==> v@ == raise_first(s),
        decreases s.len() - j,
    {
        if v[j] < 13 {
            proof {
                lemma_raise_first_at(s, j as int);
            }
            let x = v[j] + 1;
            v.set(j, x);
            assert(v@ =~= s.update(j as int, x));
            done = true;
        }
        j += 1;
    }
    if !done {
        proof {
            lemma_raise_first_none(s);
        }
    }
}

/// Brings a group of 27 values to sum zero.
fn balance_group(v: &mut Vec<i8>)
    requires
        old(v)@.len() == 27,
    ensures
        final(v)@ == balance(old(v)@),
{
    let ghost s = v@;
    let mut total: i32 = 0;
    let mut i: usize = 0;
    while i < v.len()
        invariant
            v@ == s,
            s.len() == 27,
            i <= 27,
            total == sum(s.subrange(0, i as int)),
            -128 * i <= total <= 127 * i,
        decreases 27 - i,
    {
        assert(s.subrange(0, i + 1).drop_last() =~= s.subrange(0, i as int));
        total = total + v[i] as i32;
        i += 1;
    }
    assert(s.subrange(0, 27) =~= s);
    let ghost t0 = total as int;
    if total >= 0 {
        while total > 0
            invariant
                0 <= total <= t0,
                t0 == sum(s),
                v@ == lower(s, (t0 - total) as nat),
            decreases total,
        {
            lower_step(v);
            total = total - 1;
        }
    } else {
        while total < 0
            invariant
                t0 <= total <= 0,
                t0 == sum(s),
                v@ == raise(s, (total - t0) as nat),
            decreases -total,
        {
            raise_step(v);
            total = total + 1;
        }
    }
}

/// Normalizes a bundle hash: the values of its first 81 trytes in three groups of 27, each
/// brought to sum zero.
pub fn normalized_bundle(bundle_hash: &str) -> (r: Vec<i8>)
    requires
        bundle_hash@.len() >= 81,
    ensures
        r@ == normalized_of(bundle_hash@),
        r@.len() == 81,
{
    let mut out: Vec<i8> = Vec::new();
    let mut g: usize = 0;
    while g < 3
        invariant
            g <= 3,
            bundle_hash@.len() >= 81,
            out@.len() == 27 * g,
            g == 0 ==> out@ == Seq::<i8>::empty(),
            g == 1 ==> out@ == balance(values(bundle_hash@.subrange(0, 27))),
            g == 2 ==> out@ == balance(values(bundle_hash@.subrange(0, 27))) + balance(
                values(bundle_hash@.subrange(27, 54)),
            ),
            g == 3 ==> out@ == normalized_of(bundle_hash@),
        decreases 3 - g,
    {
        let ghost part = bundle_hash@.subrange(27 * g, 27 * g + 27);
        let mut group: Vec<i8> = Vec::new();
        let mut j: usize = 0;
        assert(group@ =~= values(part).subrange(0, 0));
        while j < 27
            invariant
                j <= 27,
                g < 3,
                bundle_hash@.len() >= 81,
                part == bundle_hash@.subrange(27 * g, 27 * g + 27),
                group@ == values(part).subrange(0, j as int),
            decreases 27 - j,
        {
            let c = bundle_hash.get_char(27 * g + j);
            let x = tryte_val(c);
            group.push(x);
            j += 1;
            assert(group@ =~= values(part).subrange(0, j as int));
        }
        assert(group@ =~= values(part));
        balance_group(&mut group);
        proof {
            lemma_balance_len(values(part));
        }
        let ghost before = out@;
        let mut k: usize = 0;
        assert(out@ =~= before + group@.subrange(0, 0));
        while k < 27
            invariant
                k <= 27,
                group@.len() == 27,
                out@ == before + group@.subrange(0, k as int),
            decreases 27 - k,
        {
            out.push(group[k]);
            k += 1;
            assert(out@ =~= before + group@.subrange(0, k as int));
        }
        assert(group@.subrange(0, 27) =~= group@);
        g += 1;
    }
    out
}

proof fn lemma_lower_len(s: Seq<i8>, k: nat)
    ensures
        lower(s, k).len() == s.len(),
    decreases k,
{
    if k > 0 {
        lemma_lower_len(s, (k - 1) as nat);
        lemma_lower_first_len(lower(s, (k - 1) as nat));
    }
}

proof fn lemma_raise_len(s: Seq<i8>, k: nat)
    ensures
        raise(s, k).len() == s.len(),
    decreases k,
{
    if k > 0 {
        lemma_raise_len(s, (k - 1) as nat);
        lemma_raise_first_len(raise(s, (k - 1) as nat));
    }
}

proof fn lemma_lower_first_len(s: Seq<i8>)
    ensures
        lower_first(s).len() == s.len(),
    decreases s.len(),
{
    if s.len() > 0 && s[0] <= -13 {
        lemma_lower_first_len(s.drop_first());
    }
}

proof fn lemma_raise_first_len(s: Seq<i8>)
    ensures
        raise_first(s).len() == s.len(),
    decreases s.len(),
{
    if s.len() > 0 && s[0] >= 13 {
        lemma_raise_first_len(s.drop_first());
    }
}

proof fn lemma_balance_len(s: Seq<i8>)
    ensures
        balance(s).len() == s.len(),
{
    let t = sum(s);
    if t >= 0 {
        lemma_lower_len(s, t as nat);
    } else {
        lemma_raise_len(s, (-t) as nat);
    }
}

} // verus!
