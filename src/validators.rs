use vstd::prelude::*;

use crate::buffers::push_all;
use crate::checksum::is_trytes;
use crate::model::{Signature, Transaction};
use crate::signing::{fragments_ok, signed_address, validate_signatures};
use crate::ternary::{
    all_trytes, balanced, int_trits, is_trit, kerl_block, kerl_hash,
    lemma_as_hash, lemma_balanced, lemma_trits_of, lemma_trytes_of_len, str_trits, trits_of,
    trits_trytes, trytes_of, valid_trits, HASH_LENGTH,
};

verus! {

/// Whether a transaction has the shape that validation reads: an address and a bundle hash of
/// 81 trytes, an obsolete tag of 27, a signature area of 2187, and numbers that fit the trits.
pub open spec fn is_transaction(tx: Transaction) -> bool {
    &&& tx.address@.len() == 81 && all_trytes(tx.address@)
    &&& tx.bundle@.len() == 81 && all_trytes(tx.bundle@)
    &&& tx.obsolete_tag@.len() == 27 && all_trytes(tx.obsolete_tag@)
    &&& tx.signature_fragments@.len() == 2187 && all_trytes(tx.signature_fragments@)
    &&& tx.value != i64::MIN
    &&& tx.timestamp != i64::MIN
    &&& tx.current_index <= i64::MAX
    &&& tx.last_index <= i64::MAX
}

/// Whether a sequence of transactions is non-empty and each has the shape of a transaction.
pub open spec fn is_slice_of_transactions(txs: Seq<Transaction>) -> bool {
    txs.len() > 0 && forall|i: int| 0 <= i < txs.len() ==> is_transaction(#[trigger] txs[i])
}

/// The essence of a transaction: address, value, obsolete tag, timestamp, current and last
/// index, in trits.
pub open spec fn essence_of(tx: Transaction) -> Seq<i8> {
    trits_of(tx.address@) + balanced(tx.value as int, 81) + trits_of(tx.obsolete_tag@)
        + balanced(tx.timestamp as int, 27) + balanced(tx.current_index as int, 27) + balanced(
        tx.last_index as int,
        27,
    )
}

/// The essences of the first `n` transactions, one after another.
pub open spec fn essences(txs: Seq<Transaction>, n: nat) -> Seq<i8>
    decreases n,
{
    if n == 0 {
        seq![]
    } else {
        essences(txs, (n - 1) as nat) + essence_of(txs[n - 1])
    }
}

/// The bundle hash of a sequence of transactions: the Kerl hash of their essences, in trytes.
pub open spec fn bundle_hash_of(txs: Seq<Transaction>) -> Seq<char> {
    trytes_of(kerl_block(essences(txs, txs.len())))
}

/// The sum of the values of the first `n` transactions.
pub open spec fn value_sum(txs: Seq<Transaction>, n: nat) -> int
    decreases n,
{
    if n == 0 {
        0
    } else {
        value_sum(txs, (n - 1) as nat) + txs[n - 1].value
    }
}

/// Whether each transaction stands at the position that it claims.
pub open spec fn in_sequence(txs: Seq<Transaction>) -> bool {
    forall|i: int| 0 <= i < txs.len() ==> #[trigger] txs[i].current_index == i
}

/// Whether a sequence of transactions is a valid bundle: well shaped, in sequence, with values
/// that sum to zero, bound by its essences to the bundle hash of its first transaction, and
/// ending at the last index that it declares.
pub open spec fn is_bundle_spec(txs: Seq<Transaction>) -> bool {
    &&& is_slice_of_transactions(txs)
    &&& in_sequence(txs)
    &&& value_sum(txs, txs.len()) == 0
    &&& bundle_hash_of(txs) == txs[0].bundle@
    &&& txs.last().current_index == txs.last().last_index
}

/// Whether a transaction has the shape that validation reads.
pub fn is_transaction_shape(tx: &Transaction) -> (r: bool)
    ensures
        r == is_transaction(*tx),
{
    tx.address.as_str().unicode_len() == 81 && is_trytes(tx.address.as_str())
        && tx.bundle.as_str().unicode_len() == 81 && is_trytes(tx.bundle.as_str())
        && tx.obsolete_tag.as_str().unicode_len() == 27 && is_trytes(tx.obsolete_tag.as_str())
        && tx.signature_fragments.as_str().unicode_len() == 2187 && is_trytes(
        tx.signature_fragments.as_str(),
    ) && tx.value != i64::MIN && tx.timestamp != i64::MIN && tx.current_index as u64
        <= i64::MAX as u64 && tx.last_index as u64 <= i64::MAX as u64
}

/// Whether a slice is non-empty and each of its transactions is well shaped.
pub fn slice_of_transactions(bundle: &[Transaction]) -> (r: bool)
    ensures
        r == is_slice_of_transactions(bundle@),
{
    let n = bundle.len();
    if n == 0 {
        return false;
    }
    let mut i: usize = 0;
    while i < n
        invariant
            i <= n == bundle@.len(),
            forall|k: int| 0 <= k < i ==> is_transaction(#[trigger] bundle@[k]),
        decreases n - i,
    {
        if !is_transaction_shape(&bundle[i]) {
            return false;
        }
        i += 1;
    }
    true
}

proof fn lemma_essence(tx: Transaction)
    requires
        is_transaction(tx),
    ensures
        essence_of(tx).len() == 486,
        valid_trits(essence_of(tx)),
{
    lemma_trits_of(tx.address@);
    lemma_trits_of(tx.obsolete_tag@);
    lemma_balanced(tx.value as int, 81);
    lemma_balanced(tx.timestamp as int, 27);
    lemma_balanced(tx.current_index as int, 27);
    lemma_balanced(tx.last_index as int, 27);
    let e = essence_of(tx);
    let parts = seq![
        trits_of(tx.address@),
        balanced(tx.value as int, 81),
        trits_of(tx.obsolete_tag@),
        balanced(tx.timestamp as int, 27),
        balanced(tx.current_index as int, 27),
        balanced(tx.last_index as int, 27),
    ];
    assert forall|k: int| 0 <= k < e.len() implies is_trit(#[trigger] e[k]) by {
        if k < 243 {
            assert(e[k] == parts[0][k]);
        } else if k < 324 {
            assert(e[k] == parts[1][k - 243]);
        } else if k < 405 {
            assert(e[k] == parts[2][k - 324]);
        } else if k < 432 {
            assert(e[k] == parts[3][k - 405]);
        } else if k < 459 {
            assert(e[k] == parts[4][k - 432]);
        } else {
            assert(e[k] == parts[5][k - 459]);
        }
    }
}

/// Appends `src` to `out`, keeping `out` all trits.
fn push_trits(out: &mut Vec<i8>, src: &[i8])
    requires
        valid_trits(old(out)@),
        valid_trits(src@),
    ensures
        final(out)@ == old(out)@ + src@,
        valid_trits(final(out)@),
{
    let ghost before = out@;
    push_all(out, src);
    assert forall|k: int| 0 <= k < out@.len() implies is_trit(#[trigger] out@[k]) by {
        if k < before.len() {
            assert(out@[k] == before[k]);
        } else {
            assert(out@[k] == src@[k - before.len()]);
        }
    }
}

/// The essence of one transaction in trits.
fn essence(tx: &Transaction) -> (r: Vec<i8>)
    requires
        is_transaction(*tx),
    ensures
        r@ == essence_of(*tx),
{
    let mut out = str_trits(tx.address.as_str());
    proof {
        lemma_trits_of(tx.address@);
    }
    let value = int_trits(tx.value, 81);
    proof {
        lemma_balanced(tx.value as int, 81);
    }
    push_trits(&mut out, value.as_slice());
    let tag = str_trits(tx.obsolete_tag.as_str());
    proof {
        lemma_trits_of(tx.obsolete_tag@);
    }
    push_trits(&mut out, tag.as_slice());
    let timestamp = int_trits(tx.timestamp, 27);
    proof {
        lemma_balanced(tx.timestamp as int, 27);
    }
    push_trits(&mut out, timestamp.as_slice());
    let current = int_trits(tx.current_index as i64, 27);
    proof {
        lemma_balanced(tx.current_index as int, 27);
    }
    push_trits(&mut out, current.as_slice());
    let last = int_trits(tx.last_index as i64, 27);
    proof {
        lemma_balanced(tx.last_index as int, 27);
    }
    push_trits(&mut out, last.as_slice());
    out
}

/// The bundle hash that the essences of the transactions give, in trytes.
pub fn essence_hash(bundle: &[Transaction]) -> (r: String)
    requires
        is_slice_of_transactions(bundle@),
    ensures
        r@ == bundle_hash_of(bundle@),
        r@.len() == 81,
{
    let n = bundle.len();
    let mut all: Vec<i8> = Vec::new();
    let mut i: usize = 0;
    while i < n
        invariant
            i <= n == bundle@.len(),
            is_slice_of_transactions(bundle@),
            all@ == essences(bundle@, i as nat),
            all@.len() == 486 * i,
            valid_trits(all@),
        decreases n - i,
    {
        let e = essence(&bundle[i]);
        proof {
            lemma_essence(bundle@[i as int]);
        }
        push_trits(&mut all, e.as_slice());
        i += 1;
    }
    assert(all@.len() % 243 == 0) by {
        vstd::arithmetic::div_mod::lemma_mod_multiples_basic(2 * n as int, 243);
    }
    let hash = match kerl_hash(all.as_slice(), HASH_LENGTH) {
        Some(h) => h,
        None => {
            return String::new();
        },
    };
    proof {
        lemma_as_hash(hash@);
        lemma_trytes_of_len(hash@);
    }
    match trits_trytes(hash.as_slice()) {
        Some(t) => t,
        None => String::new(),
    }
}

/// Validates that a slice of transactions is a bundle. Whether the signatures of its inputs
/// hold is a separate check: see `validate_input_signatures`.
pub fn is_bundle(bundle: &[Transaction]) -> (r: Result<bool, crate::ternary::Error>)
    ensures
        r == Ok::<bool, crate::ternary::Error>(is_bundle_spec(bundle@)),
{
    if !slice_of_transactions(bundle) {
        return Ok(false);
    }
    let n = bundle.len();
    let mut total: i128 = 0;
    let mut i: usize = 0;
    while i < n
        invariant
            i <= n == bundle@.len(),
            total == value_sum(bundle@, i as nat),
            -(i * 9223372036854775808) <= total <= i * 9223372036854775807,
            forall|k: int| 0 <= k < i ==> #[trigger] bundle@[k].current_index == k,
        decreases n - i,
    {
        assert((i + 1) * 9223372036854775808 <= 18446744073709551615 * 9223372036854775808)
            by (nonlinear_arith)
            requires
                i + 1 <= 18446744073709551615int,
        ;
        total = total + bundle[i].value as i128;
        if i != bundle[i].current_index {
            return Ok(false);
        }
        i += 1;
    }
    if total != 0 {
        return Ok(false);
    }
    let hash = essence_hash(bundle);
    if hash != bundle[0].bundle {
        return Ok(false);
    }
    let last = &bundle[n - 1];
    Ok(last.current_index == last.last_index)
}

/// A bundle is refused when a transaction is out of sequence, when its values do not sum to
/// zero, or when the hash of its essences differs from its bundle hash.
pub proof fn lemma_is_bundle_refusals(txs: Seq<Transaction>)
    ensures
        (exists|i: int| 0 <= i < txs.len() && #[trigger] txs[i].current_index != i)
            ==> !is_bundle_spec(txs),
        value_sum(txs, txs.len()) != 0 ==> !is_bundle_spec(txs),
        txs.len() > 0 && bundle_hash_of(txs) != txs[0].bundle@ ==> !is_bundle_spec(txs),
{
}

/// The fragments that continue the signature of input `i` among the first `n` transactions:
/// those of later transactions from the same address with value zero, in order.
pub open spec fn continuation(txs: Seq<Transaction>, i: int, n: nat) -> Seq<String>
    decreases n,
{
    if n == 0 || n <= i + 1 {
        Seq::empty()
    } else {
        let prev = continuation(txs, i, (n - 1) as nat);
        let tx = txs[n - 1];
        if tx.address@ == txs[i].address@ && tx.value == 0 {
            prev.push(tx.signature_fragments)
        } else {
            prev
        }
    }
}

/// The signatures of the inputs among the first `n` transactions: for each transaction of
/// negative value, its address and its continuation fragments.
pub open spec fn input_signatures_of(txs: Seq<Transaction>, n: nat) -> Seq<(Seq<char>, Seq<String>)>
    decreases n,
{
    if n == 0 {
        Seq::empty()
    } else {
        let prev = input_signatures_of(txs, (n - 1) as nat);
        if txs[n - 1].value < 0 {
            prev.push((txs[n - 1].address@, continuation(txs, n - 1, txs.len())))
        } else {
            prev
        }
    }
}

/// Whether `sigs` holds, one for one, the addresses and fragments of `expected`.
pub open spec fn signatures_match(sigs: Seq<Signature>, expected: Seq<(Seq<char>, Seq<String>)>) -> bool {
    &&& sigs.len() == expected.len()
    &&& forall|k: int|
        0 <= k < sigs.len() ==> (#[trigger] sigs[k]).address@ == expected[k].0
            && sigs[k].signature_fragments@ == expected[k].1
}

/// Checks the first `n` signatures against a bundle hash in turn, stopping at the first that
/// fails or cannot be checked.
pub open spec fn check_signatures(
    sigs: Seq<(Seq<char>, Seq<String>)>,
    bundle_hash: Seq<char>,
    n: nat,
) -> Result<bool, crate::ternary::Error>
    decreases n,
{
    if n == 0 {
        Ok(true)
    } else {
        match check_signatures(sigs, bundle_hash, (n - 1) as nat) {
            Ok(true) => {
                let sig = sigs[n - 1];
                if bundle_hash.len() < 81 || !fragments_ok(sig.1) {
                    Err(crate::ternary::Error::InvalidLength)
                } else {
                    Ok(sig.0 == signed_address(sig.1, bundle_hash))
                }
            },
            other => other,
        }
    }
}

proof fn lemma_check_signatures_stops(
    sigs: Seq<(Seq<char>, Seq<String>)>,
    bundle_hash: Seq<char>,
    m: nat,
    n: nat,
)
    requires
        m <= n,
        check_signatures(sigs, bundle_hash, m) != Ok::<bool, crate::ternary::Error>(true),
    ensures
        check_signatures(sigs, bundle_hash, n) == check_signatures(sigs, bundle_hash, m),
    decreases n,
{
    if n > m {
        lemma_check_signatures_stops(sigs, bundle_hash, m, (n - 1) as nat);
    }
}

/// The fragments that continue the signature of the input at `i`.
fn continuation_fragments(bundle: &[Transaction], i: usize) -> (r: Vec<String>)
    requires
        i < bundle@.len(),
    ensures
        r@ == continuation(bundle@, i as int, bundle@.len()),
{
    let n = bundle.len();
    let mut out: Vec<String> = Vec::new();
    let mut j: usize = i + 1;
    while j < n
        invariant
            i < j <= n == bundle@.len(),
            out@ == continuation(bundle@, i as int, j as nat),
        decreases n - j,
    {
        let tx = &bundle[j];
        if tx.value == 0 && tx.address == bundle[i].address {
            out.push(tx.signature_fragments.clone());
        }
        j += 1;
    }
    out
}

/// The signatures of the inputs of a bundle: for each transaction of negative value, its
/// address and the fragments of the later transactions from that address with value zero.
pub fn input_signatures(bundle: &[Transaction]) -> (r: Vec<Signature>)
    ensures
        signatures_match(r@, input_signatures_of(bundle@, bundle@.len())),
{
    let n = bundle.len();
    let mut out: Vec<Signature> = Vec::new();
    let mut i: usize = 0;
    while i < n
        invariant
            i <= n == bundle@.len(),
            signatures_match(out@, input_signatures_of(bundle@, i as nat)),
        decreases n - i,
    {
        if bundle[i].value < 0 {
            let mut sig = Signature { address: bundle[i].address.clone(), signature_fragments: Vec::new() };
            let fragments = continuation_fragments(bundle, i);
            sig.signature_fragments = fragments;
            let ghost before = out@;
            out.push(sig);
            assert(signatures_match(out@, input_signatures_of(bundle@, (i + 1) as nat))) by {
                let exp = input_signatures_of(bundle@, (i + 1) as nat);
                assert forall|k: int| 0 <= k < out@.len() implies (#[trigger] out@[k]).address@
                    == exp[k].0 && out@[k].signature_fragments@ == exp[k].1 by {
                    if k < before.len() {
                        assert(out@[k] == before[k]);
                    }
                }
            }
        }
        i += 1;
    }
    out
}

/// Checks the signature of every input of a bundle against the bundle hash of its first
/// transaction, in order; the first that does not match gives `false`, the first that cannot
/// be checked gives its error.
pub fn validate_input_signatures(bundle: &[Transaction]) -> (r: Result<bool, crate::ternary::Error>)
    requires
        bundle@.len() > 0,
    ensures
        r == check_signatures(
            input_signatures_of(bundle@, bundle@.len()),
            bundle@[0].bundle@,
            input_signatures_of(bundle@, bundle@.len()).len(),
        ),
{
    let sigs = input_signatures(bundle);
    let ghost expected = input_signatures_of(bundle@, bundle@.len());
    let hash = bundle[0].bundle.as_str();
    let mut result: Result<bool, crate::ternary::Error> = Ok(true);
    let mut i: usize = 0;
    while i < sigs.len() && matches!(result, Ok(true))
        invariant
            i <= sigs@.len() == expected.len(),
            signatures_match(sigs@, expected),
            hash@ == bundle@[0].bundle@,
            result == Ok::<bool, crate::ternary::Error>(true) ==> check_signatures(
                expected,
                hash@,
                i as nat,
            ) == result,
            result != Ok::<bool, crate::ternary::Error>(true) ==> check_signatures(
                expected,
                hash@,
                expected.len(),
            ) == result,
        decreases sigs@.len() - i,
    {
        let sig = &sigs[i];
        let res = validate_signatures(
            sig.address.as_str(),
            sig.signature_fragments.as_slice(),
            hash,
        );
        proof {
            let e = expected[i as int];
            assert(sig.address@ == e.0 && sig.signature_fragments@ == e.1);
            assert(check_signatures(expected, hash@, (i + 1) as nat) == res);
            if res != Ok::<bool, crate::ternary::Error>(true) {
                lemma_check_signatures_stops(expected, hash@, (i + 1) as nat, expected.len());
            }
        }
        result = res;
        i += 1;
    }
    result
}

} // verus!
