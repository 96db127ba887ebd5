#![allow(deprecated)]

use crypto::encoding::ternary::{T1B1Buf, TritBuf, Trits, T1B1};
use crypto::hashes::ternary::curl_p::CurlP;
use crypto::hashes::ternary::kerl::Kerl;
use crypto::hashes::ternary::Sponge;
use iota_conversion::Trinary;
use vstd::prelude::*;

verus! {

/// Number of trits in one hash.
pub const HASH_LENGTH: usize = 243;

/// Number of trytes in one hash.
pub const HASH_TRYTES: usize = 81;

/// Number of trits in one key fragment: 27 hash-sized segments.
pub const KEY_LENGTH: usize = 6561;

/// Number of hash-sized segments in one key fragment.
pub const SEGMENTS: usize = 27;

/// Number of hashing rounds that turn a key segment into a public segment.
pub const SEGMENT_ROUNDS: usize = 26;

/// Errors of the signing primitives.
#[derive(Clone, Copy, Debug, PartialEq, Eq, Structural)]
pub enum Error {
    /// A trit outside of {-1, 0, 1} was handed in.
    InvalidTrit,
    /// A buffer that is hashed is not a whole number of hashes long.
    HashLength,
    /// The security level is below 1.
    InvalidSecurity,
    /// A fragment, hash or key is shorter than the scheme needs.
    InvalidLength,
}

/// Whether `t` is a balanced trit: -1, 0 or 1.
pub open spec fn is_trit(t: i8) -> bool {
    -1 <= t <= 1
}

/// Whether every entry of `s` is a trit.
pub open spec fn valid_trits(s: Seq<i8>) -> bool {
    forall|i: int| 0 <= i < s.len() ==> is_trit(#[trigger] s[i])
}

/// The tryte of alphabet position `k` (0..=26): the values 0, 1, ..., 13, -13, ..., -1.
pub open spec fn alphabet_char(k: int) -> char {
    if k == 0 {
        '9'
    } else if k == 1 {
        'A'
    } else if k == 2 {
        'B'
    } else if k == 3 {
        'C'
    } else if k == 4 {
        'D'
    } else if k == 5 {
        'E'
    } else if k == 6 {
        'F'
    } else if k == 7 {
        'G'
    } else if k == 8 {
        'H'
    } else if k == 9 {
        'I'
    } else if k == 10 {
        'J'
    } else if k == 11 {
        'K'
    } else if k == 12 {
        'L'
    } else if k == 13 {
        'M'
    } else if k == 14 {
        'N'
    } else if k == 15 {
        'O'
    } else if k == 16 {
        'P'
    } else if k == 17 {
        'Q'
    } else if k == 18 {
        'R'
    } else if k == 19 {
        'S'
    } else if k == 20 {
        'T'
    } else if k == 21 {
        'U'
    } else if k == 22 {
        'V'
    } else if k == 23 {
        'W'
    } else if k == 24 {
        'X'
    } else if k == 25 {
        'Y'
    } else {
        'Z'
    }
}

/// Position of `c` in the tryte alphabet, or -1 where `c` is no tryte.
pub open spec fn tryte_index(c: char) -> int {
    match c {
        '9' => 0,
        'A' => 1,
        'B' => 2,
        'C' => 3,
        'D' => 4,
        'E' => 5,
        'F' => 6,
        'G' => 7,
        'H' => 8,
        'I' => 9,
        'J' => 10,
        'K' => 11,
        'L' => 12,
        'M' => 13,
        'N' => 14,
        'O' => 15,
        'P' => 16,
        'Q' => 17,
        'R' => 18,
        'S' => 19,
        'T' => 20,
        'U' => 21,
        'V' => 22,
        'W' => 23,
        'X' => 24,
        'Y' => 25,
        'Z' => 26,
        _ => -1,
    }
}

/// Whether `c` is in the tryte alphabet.
pub open spec fn is_tryte(c: char) -> bool {
    tryte_index(c) >= 0
}

/// Whether every character of `s` is a tryte.
pub open spec fn all_trytes(s: Seq<char>) -> bool {
    forall|i: int| 0 <= i < s.len() ==> is_tryte(#[trigger] s[i])
}

/// Balanced value of a tryte, in -13..=13; a character outside the alphabet counts as '9'.
pub open spec fn tryte_value(c: char) -> int {
    let p = tryte_index(c);
    if p < 0 {
        0
    } else if p <= 13 {
        p
    } else {
        p - 27
    }
}

/// The `n` least significant balanced-ternary digits of `v`, least significant first.
pub open spec fn balanced(v: int, n: nat) -> Seq<i8>
    decreases n,
{
    if n == 0 {
        seq![]
    } else {
        let r = v % 3;
        let d: int = if r == 2 { -1 } else { r };
        seq![d as i8] + balanced((v - d) / 3, (n - 1) as nat)
    }
}

/// The trits of a tryte string, three per character.
pub open spec fn trits_of(s: Seq<char>) -> Seq<i8>
    decreases s.len(),
{
    if s.len() == 0 {
        seq![]
    } else {
        trits_of(s.drop_last()) + balanced(tryte_value(s.last()), 3)
    }
}

/// The tryte of three trits, or '-' where one of them is no trit.
pub open spec fn tryte_of(a: i8, b: i8, c: i8) -> char {
    if is_trit(a) && is_trit(b) && is_trit(c) {
        let v = a + 3 * b + 9 * c;
        alphabet_char(if v >= 0 { v } else { v + 27 })
    } else {
        '-'
    }
}

/// The tryte string of a trit sequence, one character per three trits.
pub open spec fn trytes_of(t: Seq<i8>) -> Seq<char>
    decreases t.len(),
{
    if t.len() < 3 {
        seq![]
    } else {
        let n = t.len();
        trytes_of(t.subrange(0, n - 3)) + seq![tryte_of(t[n - 3], t[n - 2], t[n - 1])]
    }
}

/// The first `n` trits that Kerl squeezes after absorbing `input` from a fresh state.
pub uninterp spec fn kerl_of(input: Seq<i8>, n: nat) -> Seq<i8>;

/// The hash that Curl-P squeezes after absorbing `input` from a fresh state.
pub uninterp spec fn curl_of(input: Seq<i8>) -> Seq<i8>;

/// `s` read as one hash: its first 243 entries, with 0 for an entry that is missing or no trit.
pub open spec fn as_hash(s: Seq<i8>) -> Seq<i8> {
    Seq::new(243, |i: int| if i < s.len() && is_trit(s[i]) { s[i] } else { 0i8 })
}

/// One Kerl hash of `x`.
pub open spec fn kerl_block(x: Seq<i8>) -> Seq<i8> {
    as_hash(kerl_of(x, 243))
}

pub proof fn lemma_as_hash(s: Seq<i8>)
    ensures
        as_hash(s).len() == 243,
        valid_trits(as_hash(s)),
        s.len() == 243 && valid_trits(s) ==> as_hash(s) == s,
{
    if s.len() == 243 && valid_trits(s) {
        assert(as_hash(s) =~= s);
    }
}

pub proof fn lemma_balanced(v: int, n: nat)
    ensures
        balanced(v, n).len() == n,
        valid_trits(balanced(v, n)),
    decreases n,
{
    if n > 0 {
        let r = v % 3;
        let d: int = if r == 2 { -1 } else { r };
        lemma_balanced((v - d) / 3, (n - 1) as nat);
    }
}

pub proof fn lemma_trits_of(s: Seq<char>)
    ensures
        trits_of(s).len() == 3 * s.len(),
        valid_trits(trits_of(s)),
    decreases s.len(),
{
    if s.len() > 0 {
        lemma_trits_of(s.drop_last());
        lemma_balanced(tryte_value(s.last()), 3);
    }
}

pub proof fn lemma_trytes_of_len(t: Seq<i8>)
    ensures
        trytes_of(t).len() == t.len() / 3,
    decreases t.len(),
{
    if t.len() >= 3 {
        lemma_trytes_of_len(t.subrange(0, t.len() - 3));
    }
}

/// Position of `c` in the tryte alphabet, or -1 where `c` is no tryte.
pub fn tryte_position(c: char) -> (r: i8)
    ensures
        r == tryte_index(c),
{
    match c {
        '9' => 0,
        'A' => 1,
        'B' => 2,
        'C' => 3,
        'D' => 4,
        'E' => 5,
        'F' => 6,
        'G' => 7,
        'H' => 8,
        'I' => 9,
        'J' => 10,
        'K' => 11,
        'L' => 12,
        'M' => 13,
        'N' => 14,
        'O' => 15,
        'P' => 16,
        'Q' => 17,
        'R' => 18,
        'S' => 19,
        'T' => 20,
        'U' => 21,
        'V' => 22,
        'W' => 23,
        'X' => 24,
        'Y' => 25,
        'Z' => 26,
        _ => -1,
    }
}

pub proof fn lemma_trytes_of_alphabet(t: Seq<i8>)
    requires
        valid_trits(t),
    ensures
        all_trytes(trytes_of(t)),
    decreases t.len(),
{
    if t.len() >= 3 {
        let n = t.len();
        lemma_trytes_of_alphabet(t.subrange(0, n - 3));
        let v = t[n - 3] + 3 * t[n - 2] + 9 * t[n - 1];
        assert(-13 <= v <= 13);
        assert(is_tryte(tryte_of(t[n - 3], t[n - 2], t[n - 1])));
        let s = trytes_of(t);
        assert forall|i: int| 0 <= i < s.len() implies is_tryte(#[trigger] s[i]) by {
            if i < s.len() - 1 {
                assert(s[i] == trytes_of(t.subrange(0, n - 3))[i]);
            }
        }
    }
}

/// Relies on `iota_conversion::Trinary::trits` for `&str`: three trits per character, by the
/// tryte alphabet, and [0, 0, 0] for a character outside it.
#[verifier::external_body]
pub(crate) fn str_trits(s: &str) -> (r: Vec<i8>)
    ensures
        r@ == trits_of(s@),
{
    s.trits()
}

/// Relies on `iota_conversion::trytes`: fails where the length is no multiple of 3, else maps
/// each three trits to their tryte ('-' where they are not all trits).
#[verifier::external_body]
pub(crate) fn trits_trytes(t: &[i8]) -> (r: Option<String>)
    ensures
        r is Some <==> t@.len() % 3 == 0,
        r matches Some(s) ==> s@ == trytes_of(t@),
{
    match iota_conversion::trytes(t) {
        Ok(s) => Some(s),
        Err(_) => None,
    }
}

/// Relies on `iota_conversion::Trinary::trits_with_length` for `i64`: the balanced-ternary
/// digits of `v`, least significant first, padded with zeros or cut to `len`.
#[verifier::external_body]
pub(crate) fn int_trits(v: i64, len: usize) -> (r: Vec<i8>)
    requires
        v != i64::MIN,
    ensures
        r@ == balanced(v as int, len as nat),
{
    v.trits_with_length(len)
}

/// Relies on `crypto::hashes::ternary::kerl::Kerl`: a fresh sponge absorbs `input` and squeezes
/// `out_len` trits. Both `absorb` and `squeeze_into` refuse a length that is no multiple of
/// the hash length, and the trit view of `input` refuses a value outside {-1, 0, 1}.
#[verifier::external_body]
pub(crate) fn kerl_hash(input: &[i8], out_len: usize) -> (r: Option<Vec<i8>>)
    ensures
        r is Some <==> (input@.len() % 243 == 0 && out_len % 243 == 0 && valid_trits(input@)),
        r matches Some(v) ==> v@ == kerl_of(input@, out_len as nat) && v@.len() == out_len
            && valid_trits(v@),
{
    let trits = match Trits::<T1B1>::try_from_raw(input, input.len()) {
        Ok(t) => t,
        Err(_) => return None,
    };
    let mut kerl = Kerl::new();
    let mut out = TritBuf::<T1B1Buf>::zeros(out_len);
    if kerl.absorb(trits).is_err() || kerl.squeeze_into(&mut out).is_err() {
        return None;
    }
    Some(out.as_i8_slice().to_vec())
}

/// Relies on `crypto::hashes::ternary::curl_p::CurlP::digest` (81 rounds): a fresh sponge
/// absorbs `input` and squeezes one hash. It panics on an empty input or one that is no whole number of
/// hashes long; the trit view of `input` refuses a value outside {-1, 0, 1}.
#[verifier::external_body]
pub(crate) fn curl_hash(input: &[i8]) -> (r: Option<Vec<i8>>)
    requires
        input@.len() > 0,
        input@.len() % 243 == 0,
    ensures
        r is Some <==> valid_trits(input@),
        r matches Some(v) ==> v@ == curl_of(input@) && v@.len() == 243 && valid_trits(v@),
{
    match Trits::<T1B1>::try_from_raw(input, input.len()) {
        Ok(t) => Some(CurlP::new().digest(t).as_i8_slice().to_vec()),
        Err(_) => None,
    }
}

} // verus!
