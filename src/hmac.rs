use vstd::prelude::*;

use crate::buffers::{all_trits, push_all};
use crate::model::Transaction;
use crate::ternary::{
    as_hash, curl_hash, curl_of, lemma_as_hash, lemma_trits_of, lemma_trytes_of_len, str_trits,
    trits_of, trits_trytes, trytes_of, valid_trits, Error,
};

verus! {

/// The input that tags a transaction: the key trits, then the trits of its bundle hash.
pub open spec fn hmac_input(key: Seq<i8>, tx: Transaction) -> Seq<i8> {
    key + trits_of(tx.bundle@)
}

/// The tag of a transaction: the Curl-P hash (the 81-round variant that `crypto` offers) of
/// its input, in trytes.
pub open spec fn hmac_tag(key: Seq<i8>, tx: Transaction) -> Seq<char> {
    trytes_of(as_hash(curl_of(hmac_input(key, tx))))
}

/// What a tag leaves of a signature area: its trytes from 81 up to 2187.
pub open spec fn kept_tail(sig: Seq<char>) -> Seq<char> {
    let from = if sig.len() < 81 { sig.len() } else { 81 };
    let to = if sig.len() < 2187 { sig.len() } else { 2187 };
    sig.subrange(from as int, to as int)
}

/// Whether the input of every output (a transaction of positive value) can be hashed: it is
/// non-empty and a whole number of hashes long.
pub open spec fn hmac_ready(key: Seq<i8>, txs: Seq<Transaction>) -> bool {
    forall|i: int|
        0 <= i < txs.len() && #[trigger] txs[i].value > 0 ==> hmac_input(key, txs[i]).len() > 0
            && hmac_input(key, txs[i]).len() % 243 == 0
}

/// Whether `b` is `a` with at most the signature area changed.
pub open spec fn same_but_signature(a: Transaction, b: Transaction) -> bool {
    &&& b.address == a.address
    &&& b.value == a.value
    &&& b.obsolete_tag == a.obsolete_tag
    &&& b.timestamp == a.timestamp
    &&& b.current_index == a.current_index
    &&& b.last_index == a.last_index
    &&& b.bundle == a.bundle
}

/// Whether `b` is `a` tagged: an output gets the tag in front of the kept tail of its
/// signature area, any other transaction stays as it is.
pub open spec fn tagged(key: Seq<i8>, a: Transaction, b: Transaction) -> bool {
    if a.value > 0 {
        same_but_signature(a, b) && b.signature_fragments@ == hmac_tag(key, a) + kept_tail(
            a.signature_fragments@,
        )
    } else {
        b == a
    }
}

/// Adds a message authentication tag, keyed by trits, to the outputs of a bundle.
#[derive(Clone, Debug)]
pub struct HMAC {
    key: Vec<i8>,
}

impl HMAC {
    /// The key trits.
    pub closed spec fn key_trits(&self) -> Seq<i8> {
        self.key@
    }

    /// Creates an instance keyed by the trits of `key`.
    pub fn new(key: &str) -> (r: HMAC)
        ensures
            r.key_trits() == trits_of(key@),
    {
        HMAC { key: str_trits(key) }
    }

    /// The tag of one transaction.
    fn tag(&self, tx: &Transaction) -> (r: Option<String>)
        requires
            valid_trits(self.key_trits()),
        ensures
            r is Some <==> hmac_input(self.key_trits(), *tx).len() > 0 && hmac_input(
                self.key_trits(),
                *tx,
            ).len() % 243 == 0,
            r matches Some(t) ==> t@ == hmac_tag(self.key_trits(), *tx) && t@.len() == 81,
    {
        let mut input = self.key.clone();
        let bundle_trits = str_trits(tx.bundle.as_str());
        proof {
            lemma_trits_of(tx.bundle@);
        }
        push_all(&mut input, bundle_trits.as_slice());
        if input.len() == 0 || input.len() % 243 != 0 {
            return None;
        }
        assert(valid_trits(input@)) by {
            assert forall|k: int| 0 <= k < input@.len() implies crate::ternary::is_trit(
                #[trigger] input@[k],
            ) by {
                if k < self.key@.len() {
                    assert(input@[k] == self.key@[k]);
                } else {
                    assert(input@[k] == bundle_trits@[k - self.key@.len()]);
                }
            }
        }
        let hash = match curl_hash(input.as_slice()) {
            Some(h) => h,
            None => {
                return None;
            },
        };
        proof {
            lemma_as_hash(hash@);
            lemma_trytes_of_len(hash@);
        }
        trits_trytes(hash.as_slice())
    }

    /// Tags every output of the bundle: the first 81 trytes of its signature area become the
    /// Curl-P hash of the key trits followed by the trits of its bundle hash, and trytes 81 to
    /// 2186 are kept. The hash is the 81-round Curl-P of `crypto`, so tags differ from those of
    /// the 27-round variant. That sponge takes whole hashes only: the key trits plus the bundle
    /// hash trits must be a non-empty multiple of 243 (a key of 81 trytes, say); otherwise
    /// `HashLength` comes back and nothing is changed.
    pub fn add_hmac(&self, bundle: &mut Vec<Transaction>) -> (r: Result<(), Error>)
        ensures
            r is Ok <==> valid_trits(self.key_trits()) && hmac_ready(self.key_trits(), old(bundle)@),
            r matches Err(e) ==> e == if !valid_trits(self.key_trits()) {
                Error::InvalidTrit
            } else {
                Error::HashLength
            },
            r is Err ==> final(bundle)@ == old(bundle)@,
            r is Ok ==> final(bundle)@.len() == old(bundle)@.len() && forall|i: int|
                0 <= i < old(bundle)@.len() ==> tagged(
                    self.key_trits(),
                    #[trigger] old(bundle)@[i],
                    final(bundle)@[i],
                ),
    {
        if !all_trits(self.key.as_slice()) {
            return Err(Error::InvalidTrit);
        }
        let ghost key = self.key_trits();
        let ghost start = bundle@;
        let n = bundle.len();
        let mut tags: Vec<String> = Vec::new();
        let mut i: usize = 0;
        while i < n
            invariant
                i <= n == bundle@.len(),
                bundle@ == start,
                valid_trits(key),
                key == self.key_trits(),
                tags@.len() == i,
                hmac_ready(key, start.subrange(0, i as int)),
                forall|k: int|
                    0 <= k < i && #[trigger] start[k].value > 0 ==> tags@[k]@ == hmac_tag(
                        key,
                        start[k],
                    ),
            decreases n - i,
        {
            if bundle[i].value > 0 {
                match self.tag(&bundle[i]) {
                    Some(t) => tags.push(t),
                    None => {
                        assert(!hmac_ready(key, start)) by {
                            assert(start[i as int].value > 0);
                        }
                        return Err(Error::HashLength);
                    },
                }
            } else {
                tags.push(String::new());
            }
            i += 1;
            assert(hmac_ready(key, start.subrange(0, i as int))) by {
                assert forall|k: int|
                    0 <= k < i && #[trigger] start.subrange(0, i as int)[k].value > 0 implies hmac_input(
                    key,
                    start.subrange(0, i as int)[k],
                ).len() > 0 && hmac_input(key, start.subrange(0, i as int)[k]).len() % 243 == 0 by {
                    if k < i - 1 {
                        assert(start.subrange(0, i as int)[k] == start.subrange(0, i - 1)[k]);
                    }
                }
            }
        }
        assert(start.subrange(0, n as int) =~= start);
        let mut j: usize = 0;
        while j < n
            invariant
                j <= n == start.len(),
                bundle@.len() == n,
                tags@.len() == n,
                forall|k: int|
                    0 <= k < n && #[trigger] start[k].value > 0 ==> tags@[k]@ == hmac_tag(
                        key,
                        start[k],
                    ),
                forall|k: int| 0 <= k < j ==> tagged(key, #[trigger] start[k], bundle@[k]),
                forall|k: int| j <= k < n ==> #[trigger] bundle@[k] == start[k],
            decreases n - j,
        {
            if bundle[j].value > 0 {
                let mut tx = bundle[j].copy();
                let sig = tx.signature_fragments.as_str();
                let len = sig.unicode_len();
                let from = if len < 81 {
                    len
                } else {
                    81
                };
                let to = if len < 2187 {
                    len
                } else {
                    2187
                };
                let tail = sig.substring_char(from, to);
                let fresh = tags[j].clone().concat(tail);
                tx.signature_fragments = fresh;
                bundle.set(j, tx);
            }
            j += 1;
        }
        Ok(())
    }
}

/// After tagging, an output's signature area holds 81 trytes of tag and then, unchanged, what
/// stood from tryte 81 up to tryte 2187 before.
pub proof fn lemma_tag_keeps_tail(key: Seq<i8>, before: Transaction, after: Transaction)
    requires
        before.value > 0,
        tagged(key, before, after),
    ensures
        after.signature_fragments@.subrange(0, 81) == hmac_tag(key, before),
        after.signature_fragments@.subrange(81, after.signature_fragments@.len() as int)
            == kept_tail(before.signature_fragments@),
{
    let h = as_hash(curl_of(hmac_input(key, before)));
    lemma_as_hash(curl_of(hmac_input(key, before)));
    lemma_trytes_of_len(h);
    let s = after.signature_fragments@;
    assert(s.subrange(0, 81) =~= hmac_tag(key, before));
    assert(s.subrange(81, s.len() as int) =~= kept_tail(before.signature_fragments@));
}

} // verus!
