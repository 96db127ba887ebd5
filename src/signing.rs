use vstd::arithmetic::div_mod::lemma_mod_multiples_basic;
use vstd::prelude::*;

use crate::buffers::{copy_range, push_all, trits_upto, all_trits};
use crate::model::Transaction;
use crate::normalize::{normalized_bundle, normalized_of};
use crate::ternary::{
    is_trit, kerl_block, kerl_hash, kerl_of, lemma_as_hash, lemma_trits_of, str_trits,
    trits_of, trits_trytes, trytes_of, valid_trits, Error, HASH_LENGTH, HASH_TRYTES, KEY_LENGTH, SEGMENTS, SEGMENT_ROUNDS,
};

verus! {

/// `x` hashed `k` times over.
pub open spec fn chain(x: Seq<i8>, k: nat) -> Seq<i8>
    decreases k,
{
    if k == 0 {
        x
    } else {
        kerl_block(chain(x, (k - 1) as nat))
    }
}

/// Segment `i` of a fragment: its `i`-th run of 243 trits.
pub open spec fn segment(f: Seq<i8>, i: int) -> Seq<i8> {
    f.subrange(i * 243, i * 243 + 243)
}

/// The first `n` segments of `f` one after another, segment `i` hashed `rounds[i]` times.
pub open spec fn chained(f: Seq<i8>, rounds: Seq<u8>, n: nat) -> Seq<i8>
    decreases n,
{
    if n == 0 {
        seq![]
    } else {
        chained(f, rounds, (n - 1) as nat) + chain(segment(f, n - 1), rounds[n - 1] as nat)
    }
}

/// How many segments a normalized fragment signs: one per value, at most 27.
pub open spec fn signed_count(norm: Seq<i8>) -> nat {
    if norm.len() < 27 {
        norm.len()
    } else {
        27
    }
}

/// Rounds of signing: `13 - v` for each value `v`, none below zero.
pub open spec fn sign_rounds(norm: Seq<i8>) -> Seq<u8> {
    Seq::new(signed_count(norm), |i: int| if norm[i] < 13 { (13 - norm[i]) as u8 } else { 0u8 })
}

/// Rounds that complete a signature segment: `v + 13` for each value `v`, none below zero.
pub open spec fn verify_rounds(norm: Seq<i8>) -> Seq<u8> {
    Seq::new(27, |i: int| if norm[i] > -13 { (norm[i] + 13) as u8 } else { 0u8 })
}

/// The fixed rounds that turn a key fragment into its public form.
pub open spec fn full_rounds() -> Seq<u8> {
    Seq::new(27, |i: int| 26u8)
}

/// The signature of key fragment `key` for normalized fragment `norm`; trits past the
/// signed segments are kept as they are.
pub open spec fn signature_of(norm: Seq<i8>, key: Seq<i8>) -> Seq<i8> {
    let n = signed_count(norm);
    chained(key, sign_rounds(norm), n) + key.subrange((n * 243) as int, key.len() as int)
}

/// The digest that signature fragment `sig` yields for normalized fragment `norm`.
pub open spec fn digest_of(norm: Seq<i8>, sig: Seq<i8>) -> Seq<i8> {
    kerl_block(chained(sig, verify_rounds(norm), 27))
}

/// The public digest of one key fragment.
pub open spec fn fragment_digest(f: Seq<i8>) -> Seq<i8> {
    kerl_block(chained(f, full_rounds(), 27))
}

/// The security level of a key: how many whole fragments it holds.
pub open spec fn security_of(key: Seq<i8>) -> nat {
    key.len() / 6561
}

/// The digests of the first `n` fragments of `key`.
pub open spec fn digests_of(key: Seq<i8>, n: nat) -> Seq<i8>
    decreases n,
{
    if n == 0 {
        seq![]
    } else {
        digests_of(key, (n - 1) as nat) + fragment_digest(
            key.subrange((n - 1) * 6561, (n * 6561) as int),
        )
    }
}

/// The address of a digest sequence.
pub open spec fn address_of(digests: Seq<i8>) -> Seq<i8> {
    kerl_block(digests)
}

/// The seed plus one, in balanced ternary with the least significant trit first.
pub open spec fn increment(s: Seq<i8>) -> Seq<i8>
    decreases s.len(),
{
    if s.len() == 0 {
        s
    } else if s[0] >= 1 {
        seq![-1i8] + increment(s.drop_first())
    } else {
        s.update(0, (s[0] + 1) as i8)
    }
}

/// The seed plus `n`.
pub open spec fn increment_n(s: Seq<i8>, n: nat) -> Seq<i8>
    decreases n,
{
    if n == 0 {
        s
    } else {
        increment(increment_n(s, (n - 1) as nat))
    }
}

/// The private key of `seed` at `index` with `security` fragments: the seed plus `index` is
/// hashed into a state as long as the seed, and `security * 6561` trits are squeezed from that
/// state, 243 at a time.
pub open spec fn key_of(seed: Seq<i8>, index: nat, security: nat) -> Seq<i8> {
    let state = kerl_of(increment_n(seed, index), seed.len());
    let stream = kerl_of(state, security * 6561);
    Seq::new(security * 6561, |i: int| stream[i])
}

/// Whether a seed can be hashed: non-empty, whole hashes long, of trits only.
pub open spec fn seed_ok(seed: Seq<i8>) -> bool {
    seed.len() > 0 && seed.len() % 243 == 0 && valid_trits(seed)
}

/// `x` hashed `rounds` times over.
fn hash_chain(x: Vec<i8>, rounds: u8) -> (r: Vec<i8>)
    requires
        x@.len() == 243,
        valid_trits(x@),
    ensures
        r@ == chain(x@, rounds as nat),
        r@.len() == 243,
        valid_trits(r@),
{
    let ghost x0 = x@;
    let mut buf = x;
    let mut j: u8 = 0;
    while j < rounds
        invariant
            j <= rounds,
            buf@ == chain(x0, j as nat),
            buf@.len() == 243,
            valid_trits(buf@),
        decreases rounds - j,
    {
        match kerl_hash(buf.as_slice(), HASH_LENGTH) {
            Some(v) => {
                proof {
                    lemma_as_hash(v@);
                }
                buf = v;
            },
            None => {
                return buf;
            },
        }
        j += 1;
    }
    buf
}

/// Hashes segment `i` of `f` `rounds[i]` times over, for each `i` below `rounds.len()`.
fn chain_segments(f: &[i8], rounds: &Vec<u8>) -> (r: Vec<i8>)
    requires
        rounds@.len() <= 27,
        rounds@.len() * 243 <= f@.len(),
        valid_trits(f@.subrange(0, (rounds@.len() * 243) as int)),
    ensures
        r@ == chained(f@, rounds@, rounds@.len() as nat),
        r@.len() == rounds@.len() * 243,
        valid_trits(r@),
{
    let mut out: Vec<i8> = Vec::new();
    let mut i: usize = 0;
    while i < rounds.len()
        invariant
            i <= rounds@.len() <= 27,
            rounds@.len() * 243 <= f@.len(),
            valid_trits(f@.subrange(0, (rounds@.len() * 243) as int)),
            out@ == chained(f@, rounds@, i as nat),
            out@.len() == i * 243,
            valid_trits(out@),
        decreases rounds@.len() - i,
    {
        assert((i + 1) * 243 <= rounds@.len() * 243) by (nonlinear_arith)
            requires
                i < rounds@.len(),
        ;
        let start = i * HASH_LENGTH;
        let seg = copy_range(f, start, start + HASH_LENGTH);
        assert(valid_trits(seg@)) by {
            assert forall|k: int| 0 <= k < 243 implies is_trit(#[trigger] seg@[k]) by {
                assert(seg@[k] == f@.subrange(0, (rounds@.len() * 243) as int)[start + k]);
            }
        }
        let h = hash_chain(seg, rounds[i]);
        let ghost before = out@;
        push_all(&mut out, h.as_slice());
        i += 1;
        assert(valid_trits(out@)) by {
            assert forall|k: int| 0 <= k < out@.len() implies is_trit(#[trigger] out@[k]) by {
                if k < before.len() {
                    assert(out@[k] == before[k]);
                } else {
                    assert(out@[k] == h@[k - before.len()]);
                }
            }
        }
    }
    out
}

/// Signs one normalized bundle-hash fragment with a key fragment: segment `i` of the key
/// fragment is hashed `13 - norm[i]` times over, for the first 27 values of `norm`.
pub fn signature_fragment(normalized_bundle_fragment: &[i8], key_fragment: &[i8]) -> (r: Result<
    Vec<i8>,
    Error,
>)
    ensures
        r is Err <==> key_fragment@.len() < signed_count(normalized_bundle_fragment@) * 243
            || !valid_trits(
            key_fragment@.subrange(0, (signed_count(normalized_bundle_fragment@) * 243) as int),
        ),
        r matches Err(e) ==> e == if key_fragment@.len() < signed_count(
            normalized_bundle_fragment@,
        ) * 243 {
            Error::InvalidLength
        } else {
            Error::InvalidTrit
        },
        r matches Ok(s) ==> s@ == signature_of(normalized_bundle_fragment@, key_fragment@),
{
    let norm = normalized_bundle_fragment;
    let n: usize = if norm.len() < SEGMENTS {
        norm.len()
    } else {
        SEGMENTS
    };
    if key_fragment.len() < n * HASH_LENGTH {
        return Err(Error::InvalidLength);
    }
    if !trits_upto(key_fragment, n * HASH_LENGTH) {
        return Err(Error::InvalidTrit);
    }
    let mut rounds: Vec<u8> = Vec::new();
    let mut i: usize = 0;
    while i < n
        invariant
            i <= n == signed_count(norm@),
            rounds@ == sign_rounds(norm@).subrange(0, i as int),
        decreases n - i,
    {
        let v = norm[i];
        let k: u8 = if v < 13 {
            (13 - v as i16) as u8
        } else {
            0
        };
        rounds.push(k);
        i += 1;
        assert(rounds@ =~= sign_rounds(norm@).subrange(0, i as int));
    }
    assert(rounds@ =~= sign_rounds(norm@));
    let mut sig = chain_segments(key_fragment, &rounds);
    let rest = copy_range(key_fragment, n * HASH_LENGTH, key_fragment.len());
    push_all(&mut sig, rest.as_slice());
    Ok(sig)
}

/// Recovers the digest of one key fragment from a signature fragment: segment `i` of the
/// signature is hashed `norm[i] + 13` times over, and the 27 results are hashed together.
pub fn digest(normalized_bundle_fragment: &[i8], signature_fragment: &[i8]) -> (r: Result<
    Vec<i8>,
    Error,
>)
    ensures
        r is Err <==> normalized_bundle_fragment@.len() < 27 || signature_fragment@.len() < 6561
            || !valid_trits(signature_fragment@.subrange(0, 6561)),
        r matches Err(e) ==> e == if normalized_bundle_fragment@.len() < 27
            || signature_fragment@.len() < 6561 {
            Error::InvalidLength
        } else {
            Error::InvalidTrit
        },
        r matches Ok(d) ==> d@ == digest_of(normalized_bundle_fragment@, signature_fragment@)
            && d@.len() == 243 && valid_trits(d@),
{
    let norm = normalized_bundle_fragment;
    if norm.len() < SEGMENTS || signature_fragment.len() < KEY_LENGTH {
        return Err(Error::InvalidLength);
    }
    if !trits_upto(signature_fragment, KEY_LENGTH) {
        return Err(Error::InvalidTrit);
    }
    let mut rounds: Vec<u8> = Vec::new();
    let mut i: usize = 0;
    while i < SEGMENTS
        invariant
            i <= 27 <= norm@.len(),
            rounds@ == verify_rounds(norm@).subrange(0, i as int),
        decreases 27 - i,
    {
        let v = norm[i];
        let k: u8 = if v > -13 {
            (v as i16 + 13) as u8
        } else {
            0
        };
        rounds.push(k);
        i += 1;
        assert(rounds@ =~= verify_rounds(norm@).subrange(0, i as int));
    }
    assert(rounds@ =~= verify_rounds(norm@));
    let completed = chain_segments(signature_fragment, &rounds);
    match kerl_hash(completed.as_slice(), HASH_LENGTH) {
        Some(d) => {
            proof {
                lemma_as_hash(d@);
            }
            Ok(d)
        },
        None => Err(Error::HashLength),
    }
}

/// The digests of a key: one hash per whole fragment, from its segments hashed 26 times over.
pub fn digests(key: &[i8]) -> (r: Result<Vec<i8>, Error>)
    ensures
        r is Ok <==> valid_trits(key@.subrange(0, (security_of(key@) * 6561) as int)),
        r matches Err(e) ==> e == Error::InvalidTrit,
        r matches Ok(d) ==> d@ == digests_of(key@, security_of(key@)) && d@.len()
            == security_of(key@) * 243 && valid_trits(d@),
{
    let len = key.len();
    let security = len / KEY_LENGTH;
    if !trits_upto(key, security * KEY_LENGTH) {
        return Err(Error::InvalidTrit);
    }
    let mut rounds: Vec<u8> = Vec::new();
    let mut j: usize = 0;
    while j < SEGMENTS
        invariant
            j <= 27,
            rounds@ == full_rounds().subrange(0, j as int),
        decreases 27 - j,
    {
        rounds.push(SEGMENT_ROUNDS as u8);
        j += 1;
        assert(rounds@ =~= full_rounds().subrange(0, j as int));
    }
    assert(rounds@ =~= full_rounds());
    let mut out: Vec<i8> = Vec::new();
    let mut i: usize = 0;
    while i < security
        invariant
            i <= security == security_of(key@),
            len == key@.len(),
            security * 6561 <= key@.len(),
            valid_trits(key@.subrange(0, (security * 6561) as int)),
            rounds@ == full_rounds(),
            out@ == digests_of(key@, i as nat),
            out@.len() == i * 243,
            valid_trits(out@),
        decreases security - i,
    {
        assert(i * 6561 + 6561 <= security * 6561) by (nonlinear_arith)
            requires
                i < security,
        ;
        assert(i * 6561 + 6561 <= len);
        let start = i * KEY_LENGTH;
        let frag = copy_range(key, start, start + KEY_LENGTH);
        assert(valid_trits(frag@.subrange(0, 6561))) by {
            assert forall|k: int| 0 <= k < 6561 implies is_trit(
                #[trigger] frag@.subrange(0, 6561)[k],
            ) by {
                assert(frag@.subrange(0, 6561)[k] == key@.subrange(0, (security * 6561) as int)[start
                    + k]);
            }
        }
        let public = chain_segments(frag.as_slice(), &rounds);
        let ghost before = out@;
        match kerl_hash(public.as_slice(), HASH_LENGTH) {
            Some(d) => {
                proof {
                    lemma_as_hash(d@);
                }
                push_all(&mut out, d.as_slice());
            },
            None => {
                return Err(Error::HashLength);
            },
        }
        i += 1;
        assert(valid_trits(out@)) by {
            assert forall|k: int| 0 <= k < out@.len() implies is_trit(#[trigger] out@[k]) by {
                if k < before.len() {
                    assert(out@[k] == before[k]);
                }
            }
        }
    }
    Ok(out)
}

/// The address of a digest sequence: one Kerl hash over all of it.
pub fn address(digests: &[i8]) -> (r: Result<Vec<i8>, Error>)
    ensures
        r is Ok <==> digests@.len() % 243 == 0 && valid_trits(digests@),
        r matches Err(e) ==> e == if !valid_trits(digests@) {
            Error::InvalidTrit
        } else {
            Error::HashLength
        },
        r matches Ok(a) ==> a@ == address_of(digests@) && a@.len() == 243 && valid_trits(a@),
{
    if !all_trits(digests) {
        return Err(Error::InvalidTrit);
    }
    match kerl_hash(digests, HASH_LENGTH) {
        Some(a) => {
            proof {
                lemma_as_hash(a@);
            }
            Ok(a)
        },
        None => Err(Error::HashLength),
    }
}

/// Adds one to a seed in balanced ternary, least significant trit first.
fn increment_seed(seed: &mut Vec<i8>)
    requires
        valid_trits(old(seed)@),
    ensures
        final(seed)@ == increment(old(seed)@),
        valid_trits(final(seed)@),
{
    let ghost s0 = seed@;
    let len = seed.len();
    let mut j: usize = 0;
    let mut carry = true;
    assert(s0.subrange(0, len as int) =~= s0);
    assert(seed@.subrange(0, 0) =~= Seq::<i8>::empty());
    assert(increment(s0) =~= seed@.subrange(0, 0) + increment(s0.subrange(0, len as int)));
    while carry && j < len
        invariant
            j <= len == seed@.len() == s0.len(),
            valid_trits(seed@),
            carry ==> increment(s0) == seed@.subrange(0, j as int) + increment(
                s0.subrange(j as int, len as int),
            ),
            carry ==> seed@.subrange(j as int, len as int) == s0.subrange(j as int, len as int),
            !carry ==> seed@ == increment(s0),
        decreases len - j + (if carry { 1int } else { 0int }),
    {
        let ghost before = seed@;
        let ghost t = s0.subrange(j as int, len as int);
        assert(t[0] == seed@[j as int]) by {
            assert(seed@.subrange(j as int, len as int)[0] == seed@[j as int]);
        }
        if seed[j] >= 1 {
            seed.set(j, -1);
            assert(t.drop_first() =~= s0.subrange(j + 1, len as int));
            assert(seed@.subrange(0, j + 1) =~= before.subrange(0, j as int) + seq![-1i8]);
            assert(seed@.subrange(j + 1, len as int) =~= before.subrange(j + 1, len as int));
            assert(before.subrange(j + 1, len as int) =~= t.subrange(1, t.len() as int));
            j += 1;
        } else {
            let v = seed[j] + 1;
            seed.set(j, v);
            carry = false;
            assert(seed@ =~= before.subrange(0, j as int) + t.update(0, v)) by {
                assert(before.subrange(j as int, len as int) == t);
            }
        }
    }
    if carry {
        assert(s0.subrange(len as int, len as int) =~= Seq::<i8>::empty());
        assert(seed@.subrange(0, len as int) =~= seed@);
    }
}

/// Derives the private key of `in_seed` at `index`: the seed is increased by `index`, hashed
/// into a sponge state, and 27 blocks of 243 trits per security level are squeezed from it.
/// The blocks follow one another in a single squeeze, whatever the seed's length; for a seed
/// longer than 81 trytes this differs from implementations that squeeze a seed-long buffer per
/// block and keep its first 243 trits.
pub fn key(in_seed: &[i8], index: usize, security: usize) -> (r: Result<Vec<i8>, Error>)
    requires
        security * 6561 <= usize::MAX,
    ensures
        r is Ok <==> security >= 1 && seed_ok(in_seed@),
        r matches Err(e) ==> e == if security < 1 {
            Error::InvalidSecurity
        } else if !valid_trits(in_seed@) {
            Error::InvalidTrit
        } else {
            Error::HashLength
        },
        r matches Ok(k) ==> k@ == key_of(in_seed@, index as nat, security as nat) && k@.len()
            == security * 6561 && valid_trits(k@),
{
    if security < 1 {
        return Err(Error::InvalidSecurity);
    }
    if !all_trits(in_seed) {
        return Err(Error::InvalidTrit);
    }
    let l = in_seed.len();
    if l == 0 || l % HASH_LENGTH != 0 {
        return Err(Error::HashLength);
    }
    let mut seed = copy_range(in_seed, 0, l);
    assert(seed@ =~= in_seed@);
    let mut i: usize = 0;
    while i < index
        invariant
            i <= index,
            seed@ == increment_n(in_seed@, i as nat),
            valid_trits(seed@),
        decreases index - i,
    {
        increment_seed(&mut seed);
        i += 1;
    }
    proof {
        lemma_increment_n_len(in_seed@, index as nat);
    }
    let state = match kerl_hash(seed.as_slice(), l) {
        Some(v) => v,
        None => {
            return Err(Error::HashLength);
        },
    };
    let total = security * KEY_LENGTH;
    assert(total % 243 == 0) by {
        lemma_mod_multiples_basic(27 * security as int, 243);
    }
    match kerl_hash(state.as_slice(), total) {
        Some(stream) => {
            assert(stream@ =~= key_of(in_seed@, index as nat, security as nat));
            Ok(stream)
        },
        None => Err(Error::HashLength),
    }
}

pub proof fn lemma_increment_len(s: Seq<i8>)
    ensures
        increment(s).len() == s.len(),
    decreases s.len(),
{
    if s.len() > 0 && s[0] >= 1 {
        lemma_increment_len(s.drop_first());
    }
}

pub proof fn lemma_increment_n_len(s: Seq<i8>, n: nat)
    ensures
        increment_n(s, n).len() == s.len(),
    decreases n,
{
    if n > 0 {
        lemma_increment_n_len(s, (n - 1) as nat);
        lemma_increment_len(increment_n(s, (n - 1) as nat));
    }
}

/// Normalized group `i % 3` of a normalized bundle hash: the group that signs fragment `i`.
pub open spec fn group(norm: Seq<i8>, i: int) -> Seq<i8> {
    norm.subrange((i % 3) * 27, (i % 3) * 27 + 27)
}

/// Whether each signature fragment is long enough to sign: 2187 trytes or more.
pub open spec fn fragments_ok(fragments: Seq<String>) -> bool {
    forall|i: int| 0 <= i < fragments.len() ==> #[trigger] fragments[i]@.len() >= 2187
}

/// The digests that the first `n` signature fragments yield for a normalized bundle hash.
pub open spec fn signature_digests(norm: Seq<i8>, fragments: Seq<String>, n: nat) -> Seq<i8>
    decreases n,
{
    if n == 0 {
        seq![]
    } else {
        signature_digests(norm, fragments, (n - 1) as nat) + digest_of(
            group(norm, n - 1),
            trits_of(fragments[n - 1]@),
        )
    }
}

/// The address, in trytes, that signature fragments yield for a bundle hash.
pub open spec fn signed_address(fragments: Seq<String>, bundle_hash: Seq<char>) -> Seq<char> {
    trytes_of(
        address_of(signature_digests(normalized_of(bundle_hash), fragments, fragments.len())),
    )
}

/// Checks signature fragments against an address: each fragment yields a digest for its group
/// of the normalized bundle hash, the groups taken in turn, and the digests hash to the address.
pub fn validate_signatures(
    expected_address: &str,
    signature_fragments: &[String],
    bundle_hash: &str,
) -> (r: Result<bool, Error>)
    ensures
        r is Err <==> bundle_hash@.len() < 81 || !fragments_ok(signature_fragments@),
        r matches Err(e) ==> e == Error::InvalidLength,
        r matches Ok(b) ==> b == (expected_address@ == signed_address(
            signature_fragments@,
            bundle_hash@,
        )),
{
    if bundle_hash.unicode_len() < HASH_TRYTES {
        return Err(Error::InvalidLength);
    }
    let count = signature_fragments.len();
    let mut i: usize = 0;
    while i < count
        invariant
            i <= count == signature_fragments@.len(),
            forall|k: int| 0 <= k < i ==> #[trigger] signature_fragments@[k]@.len() >= 2187,
        decreases count - i,
    {
        if signature_fragments[i].as_str().unicode_len() < KEY_LENGTH / 3 {
            return Err(Error::InvalidLength);
        }
        i += 1;
    }
    let norm = normalized_bundle(bundle_hash);
    let ghost frags = signature_fragments@;
    let mut digests: Vec<i8> = Vec::new();
    let mut i: usize = 0;
    while i < count
        invariant
            i <= count == frags.len(),
            frags == signature_fragments@,
            fragments_ok(frags),
            norm@.len() == 81,
            digests@ == signature_digests(norm@, frags, i as nat),
            digests@.len() == i * 243,
            valid_trits(digests@),
        decreases count - i,
    {
        let start = (i % 3) * SEGMENTS;
        let part = copy_range(norm.as_slice(), start, start + SEGMENTS);
        let trits = str_trits(signature_fragments[i].as_str());
        proof {
            lemma_trits_of(frags[i as int]@);
        }
        let ghost before = digests@;
        match digest(part.as_slice(), trits.as_slice()) {
            Ok(d) => {
                push_all(&mut digests, d.as_slice());
                assert(valid_trits(digests@)) by {
                    assert forall|k: int| 0 <= k < digests@.len() implies is_trit(
                        #[trigger] digests@[k],
                    ) by {
                        if k < before.len() {
                            assert(digests@[k] == before[k]);
                        } else {
                            assert(digests@[k] == d@[k - before.len()]);
                        }
                    }
                }
            },
            Err(e) => {
                return Err(e);
            },
        }
        i += 1;
    }
    assert(digests@.len() % 243 == 0) by {
        lemma_mod_multiples_basic(count as int, 243);
    }
    let addr = match address(digests.as_slice()) {
        Ok(a) => a,
        Err(e) => {
            return Err(e);
        },
    };
    match trits_trytes(addr.as_slice()) {
        Some(trytes) => {
            let expected = expected_address.to_owned();
            Ok(expected == trytes)
        },
        None => Err(Error::HashLength),
    }
}

/// What a scan of the first `n` transactions for `address` has found: the bundle hash of the
/// first transaction from that address, the fragments collected, whether an all-'9' fragment
/// has ended the collection, and whether any transaction from that address was seen.
pub open spec fn scan(txs: Seq<Transaction>, address: Seq<char>, n: nat) -> (Seq<char>, Seq<
    String,
>, bool, bool)
    decreases n,
{
    if n == 0 {
        (Seq::empty(), Seq::empty(), false, false)
    } else {
        let prev = scan(txs, address, (n - 1) as nat);
        let tx = txs[n - 1];
        if tx.address@ != address {
            prev
        } else {
            let hash = if prev.3 { prev.0 } else { tx.bundle@ };
            if prev.2 {
                (hash, prev.1, true, true)
            } else if is_nine_trytes(tx.signature_fragments@) {
                (hash, prev.1, true, true)
            } else {
                (hash, prev.1.push(tx.signature_fragments), false, true)
            }
        }
    }
}

/// Whether a string is a non-empty run of '9's: an unsigned placeholder.
pub open spec fn is_nine_trytes(s: Seq<char>) -> bool {
    s.len() > 0 && forall|i: int| 0 <= i < s.len() ==> #[trigger] s[i] == '9'
}

/// Whether a string is a non-empty run of '9's.
pub fn nine_trytes(s: &str) -> (r: bool)
    ensures
        r == is_nine_trytes(s@),
{
    let n = s.unicode_len();
    if n == 0 {
        return false;
    }
    let mut i: usize = 0;
    while i < n
        invariant
            i <= n == s@.len(),
            forall|k: int| 0 <= k < i ==> #[trigger] s@[k] == '9',
        decreases n - i,
    {
        if s.get_char(i) != '9' {
            return false;
        }
        i += 1;
    }
    true
}

/// Checks the signature of `address` in a bundle: the fragments of the transactions from that
/// address are collected, in order, up to the first all-'9' one, and checked against the
/// bundle hash of the first transaction from that address (an empty hash where there is none).
pub fn validate_bundle_signatures(signed_bundle: &[Transaction], address: &str) -> (r: Result<
    bool,
    Error,
>)
    ensures
        ({
            let found = scan(signed_bundle@, address@, signed_bundle@.len());
            &&& r is Err <==> found.0.len() < 81 || !fragments_ok(found.1)
            &&& r matches Err(e) ==> e == Error::InvalidLength
            &&& r matches Ok(b) ==> b == (address@ == signed_address(found.1, found.0))
        }),
{
    let mut bundle_hash = String::new();
    let mut fragments: Vec<String> = Vec::new();
    let mut stopped = false;
    let mut seen = false;
    let mut i: usize = 0;
    let n = signed_bundle.len();
    let target = address.to_owned();
    while i < n
        invariant
            i <= n == signed_bundle@.len(),
            target@ == address@,
            scan(signed_bundle@, address@, i as nat) == (bundle_hash@, fragments@, stopped, seen),
        decreases n - i,
    {
        let tx = &signed_bundle[i];
        if tx.address == target {
            if !seen {
                bundle_hash = tx.bundle.clone();
                seen = true;
            }
            if !stopped {
                if nine_trytes(tx.signature_fragments.as_str()) {
                    stopped = true;
                } else {
                    fragments.push(tx.signature_fragments.clone());
                }
            }
        }
        i += 1;
    }
    validate_signatures(address, fragments.as_slice(), bundle_hash.as_str())
}

pub proof fn lemma_chain_len(x: Seq<i8>, k: nat)
    requires
        x.len() == 243,
    ensures
        chain(x, k).len() == 243,
{
    if k > 0 {
        lemma_as_hash(kerl_of(chain(x, (k - 1) as nat), 243));
    }
}

/// Hashing `a` times and then `b` times is hashing `a + b` times.
pub proof fn lemma_chain_compose(x: Seq<i8>, a: nat, b: nat)
    ensures
        chain(chain(x, a), b) == chain(x, a + b),
    decreases b,
{
    if b > 0 {
        lemma_chain_compose(x, a, (b - 1) as nat);
    }
}

/// Segment `i` of the chained segments is segment `i` of the input hashed `rounds[i]` times.
pub proof fn lemma_chained_segment(f: Seq<i8>, rounds: Seq<u8>, n: nat, i: int)
    requires
        n * 243 <= f.len(),
        0 <= i < n,
    ensures
        chained(f, rounds, n).len() == n * 243,
        segment(chained(f, rounds, n), i) == chain(segment(f, i), rounds[i] as nat),
    decreases n,
{
    let m = (n - 1) as nat;
    let prev = chained(f, rounds, m);
    let last = chain(segment(f, m as int), rounds[m as int] as nat);
    lemma_chain_len(segment(f, m as int), rounds[m as int] as nat);
    if m > 0 {
        lemma_chained_segment(f, rounds, m, 0);
    }
    assert(prev.len() == m * 243);
    let whole = prev + last;
    if i < m {
        lemma_chained_segment(f, rounds, m, i);
        assert(segment(whole, i) =~= segment(prev, i));
    } else {
        assert(segment(whole, i) =~= last);
    }
}

/// The chained segments of a signature, completed by verification, are those of the key
/// hashed the full 26 times.
proof fn lemma_completed_segments(norm: Seq<i8>, key: Seq<i8>, n: nat)
    requires
        norm.len() == 27,
        forall|i: int| 0 <= i < 27 ==> -13 <= #[trigger] norm[i] <= 13,
        key.len() == 6561,
        n <= 27,
    ensures
        chained(signature_of(norm, key), verify_rounds(norm), n) == chained(
            key,
            full_rounds(),
            n,
        ),
    decreases n,
{
    if n > 0 {
        let m = (n - 1) as nat;
        lemma_completed_segments(norm, key, m);
        let signed = chained(key, sign_rounds(norm), 27);
        lemma_chained_segment(key, sign_rounds(norm), 27, m as int);
        assert(signature_of(norm, key) =~= signed);
        let v = norm[m as int];
        let a = sign_rounds(norm)[m as int] as nat;
        let b = verify_rounds(norm)[m as int] as nat;
        assert(a + b == 26);
        lemma_chain_compose(segment(key, m as int), a, b);
    }
}

/// Signing a normalized fragment with a key fragment and then recovering the digest from the
/// signature gives the digest of the key fragment itself.
pub proof fn lemma_sign_then_digest(norm: Seq<i8>, key: Seq<i8>)
    requires
        norm.len() == 27,
        forall|i: int| 0 <= i < 27 ==> -13 <= #[trigger] norm[i] <= 13,
        key.len() == 6561,
    ensures
        digest_of(norm, signature_of(norm, key)) == fragment_digest(key),
{
    lemma_completed_segments(norm, key, 27);
}

proof fn lemma_digests_len(key: Seq<i8>, n: nat)
    ensures
        digests_of(key, n).len() == n * 243,
    decreases n,
{
    if n > 0 {
        lemma_digests_len(key, (n - 1) as nat);
        lemma_as_hash(
            kerl_of(
                chained(key.subrange((n - 1) * 6561, (n * 6561) as int), full_rounds(), 27),
                243,
            ),
        );
    }
}

/// A key derived with security level `s` is `s` fragments long, and its digests are `s`
/// hashes long.
pub proof fn lemma_derived_key_digests(seed: Seq<i8>, index: nat, security: nat)
    ensures
        key_of(seed, index, security).len() == security * 6561,
        security_of(key_of(seed, index, security)) == security,
        digests_of(key_of(seed, index, security), security).len() == security * 243,
{
    vstd::arithmetic::div_mod::lemma_div_multiples_vanish(security as int, 6561);
    assert(security * 6561 == 6561 * security) by (nonlinear_arith);
    lemma_digests_len(key_of(seed, index, security), security);
}

} // verus!
