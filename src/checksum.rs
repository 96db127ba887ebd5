use vstd::prelude::*;

use crate::ternary::{
    all_trytes, is_tryte, kerl_block, kerl_hash, lemma_as_hash, lemma_trits_of,
    lemma_trytes_of_alphabet, lemma_trytes_of_len, str_trits, trits_of, trits_trytes,
    tryte_position, trytes_of, Error, HASH_LENGTH,
};

verus! {

/// Length of an address without checksum, in trytes.
pub const ADDRESS_LENGTH_WITHOUT_CHECKSUM: usize = 81;

/// Length of an address with checksum, in trytes.
pub const ADDRESS_LENGTH_WITH_CHECKSUM: usize = 90;

/// Whether `a` is an address: 81 trytes, or 90 with a checksum.
pub open spec fn is_address_spec(a: Seq<char>) -> bool {
    (a.len() == 81 || a.len() == 90) && all_trytes(a)
}

/// The checksum of an address: trytes 72 to 80 of its Kerl hash.
pub open spec fn checksum_of(a: Seq<char>) -> Seq<char> {
    trytes_of(kerl_block(trits_of(a))).subrange(72, 81)
}

/// Whether an address ends in the checksum of its first 81 trytes (or is only those).
pub open spec fn checksum_valid(a: Seq<char>) -> bool {
    a == a.subrange(0, 81) + checksum_of(a.subrange(0, 81))
}

/// Whether a string is all trytes.
pub fn is_trytes(s: &str) -> (r: bool)
    ensures
        r == all_trytes(s@),
{
    let n = s.unicode_len();
    let mut i: usize = 0;
    while i < n
        invariant
            i <= n == s@.len(),
            forall|k: int| 0 <= k < i ==> is_tryte(#[trigger] s@[k]),
        decreases n - i,
    {
        if tryte_position(s.get_char(i)) < 0 {
            return false;
        }
        i += 1;
    }
    true
}

/// Whether a string is an address: 81 trytes, or 90 with a checksum.
pub fn is_address(address: &str) -> (r: bool)
    ensures
        r == is_address_spec(address@),
{
    let n = address.unicode_len();
    (n == ADDRESS_LENGTH_WITHOUT_CHECKSUM || n == ADDRESS_LENGTH_WITH_CHECKSUM) && is_trytes(address)
}

/// The checksum of an address of 81 trytes.
fn calculate_checksum(address: &str) -> (r: Result<String, Error>)
    requires
        address@.len() == 81,
    ensures
        r matches Ok(c) && c@ == checksum_of(address@),
{
    let trits = str_trits(address);
    proof {
        lemma_trits_of(address@);
    }
    let hash = match kerl_hash(trits.as_slice(), HASH_LENGTH) {
        Some(h) => h,
        None => {
            return Err(Error::HashLength);
        },
    };
    proof {
        lemma_as_hash(hash@);
        lemma_trytes_of_len(hash@);
    }
    match trits_trytes(hash.as_slice()) {
        Some(t) => Ok(t.as_str().substring_char(72, 81).to_owned()),
        None => Err(Error::HashLength),
    }
}

/// Appends the checksum to an address of 81 trytes; one of 90 cannot be hashed.
pub fn add_checksum(address: &str) -> (r: Result<String, Error>)
    requires
        is_address_spec(address@),
    ensures
        r is Ok <==> address@.len() == 81,
        r matches Err(e) ==> e == Error::HashLength,
        r matches Ok(s) ==> s@ == address@ + checksum_of(address@),
{
    if address.unicode_len() != ADDRESS_LENGTH_WITHOUT_CHECKSUM {
        return Err(Error::HashLength);
    }
    let checksum = calculate_checksum(address)?;
    let mut with_checksum = address.to_owned();
    with_checksum.append(checksum.as_str());
    Ok(with_checksum)
}

/// The address without its checksum: its first 81 trytes.
pub fn remove_checksum(address: &str) -> (r: String)
    requires
        is_address_spec(address@),
    ensures
        r@ == address@.subrange(0, 81),
{
    if is_address_with_checksum(address) {
        return address.substring_char(0, ADDRESS_LENGTH_WITHOUT_CHECKSUM).to_owned();
    }
    assert(address@.subrange(0, 81) =~= address@);
    address.to_owned()
}

/// Whether an address carries the checksum of its first 81 trytes; one of 81 trytes is
/// compared with itself plus its checksum.
pub fn is_valid_checksum(address: &str) -> (r: Result<bool, Error>)
    requires
        is_address_spec(address@),
    ensures
        r == Ok::<bool, Error>(checksum_valid(address@)),
{
    let without = remove_checksum(address);
    let checksum = calculate_checksum(without.as_str())?;
    let recalculated = without.concat(checksum.as_str());
    let given = address.to_owned();
    Ok(given == recalculated)
}

/// Whether a string is an address with a checksum: 90 trytes.
pub fn is_address_with_checksum(address: &str) -> (r: bool)
    ensures
        r == (is_address_spec(address@) && address@.len() == 90),
{
    is_address(address) && address.unicode_len() == ADDRESS_LENGTH_WITH_CHECKSUM
}

/// Whether a string is an address without a checksum: 81 trytes.
pub fn is_address_without_checksum(address: &str) -> (r: bool)
    ensures
        r == (is_address_spec(address@) && address@.len() == 81),
{
    is_address(address) && address.unicode_len() == ADDRESS_LENGTH_WITHOUT_CHECKSUM
}

/// The checksum of an address is nine trytes.
pub proof fn lemma_checksum_trytes(a: Seq<char>)
    ensures
        checksum_of(a).len() == 9,
        all_trytes(checksum_of(a)),
{
    let h = kerl_block(trits_of(a));
    lemma_as_hash(crate::ternary::kerl_of(trits_of(a), 243));
    lemma_trytes_of_len(h);
    lemma_trytes_of_alphabet(h);
    let t = trytes_of(h);
    assert forall|i: int| 0 <= i < 9 implies is_tryte(#[trigger] checksum_of(a)[i]) by {
        assert(checksum_of(a)[i] == t[72 + i]);
    }
}

/// Adding a checksum to an address of 81 trytes gives an address of 90 whose checksum is
/// valid, and removing the checksum gives the address back.
pub proof fn lemma_checksum_round_trip(address: Seq<char>)
    requires
        is_address_spec(address),
        address.len() == 81,
    ensures
        is_address_spec(address + checksum_of(address)),
        (address + checksum_of(address)).subrange(0, 81) == address,
        checksum_valid(address + checksum_of(address)),
{
    let c = checksum_of(address);
    let s = address + c;
    lemma_checksum_trytes(address);
    assert(s.subrange(0, 81) =~= address);
    assert forall|i: int| 0 <= i < s.len() implies is_tryte(#[trigger] s[i]) by {
        if i < 81 {
            assert(s[i] == address[i]);
        } else {
            assert(s[i] == c[i - 81]);
        }
    }
}

} // verus!
