use vstd::prelude::*;

verus! {

/// One transaction of a bundle, with the fields that signing and validation read.
#[derive(Clone, Debug, Default)]
pub struct Transaction {
    /// Address that the value moves to or from, 81 trytes.
    pub address: String,
    /// Value moved: negative for an input, positive for an output.
    pub value: i64,
    /// Obsolete tag, 27 trytes.
    pub obsolete_tag: String,
    /// Timestamp in seconds.
    pub timestamp: i64,
    /// Position of the transaction in its bundle.
    pub current_index: usize,
    /// Position of the last transaction of its bundle.
    pub last_index: usize,
    /// Bundle hash, 81 trytes.
    pub bundle: String,
    /// A signature or a message, 2187 trytes.
    pub signature_fragments: String,
}

impl Transaction {
    /// A copy of the transaction.
    pub fn copy(&self) -> (r: Transaction)
        ensures
            r == *self,
    {
        Transaction {
            address: self.address.clone(),
            value: self.value,
            obsolete_tag: self.obsolete_tag.clone(),
            timestamp: self.timestamp,
            current_index: self.current_index,
            last_index: self.last_index,
            bundle: self.bundle.clone(),
            signature_fragments: self.signature_fragments.clone(),
        }
    }
}

/// An address and a grouping of signature fragments.
#[derive(Clone, Debug, Default)]
pub struct Signature {
    /// Transaction address.
    pub address: String,
    /// A signature or a message, both of which may be fragmented over several transactions.
    pub signature_fragments: Vec<String>,
}

impl Signature {
    /// Appends a fragment to the signature.
    pub fn add_fragment(&mut self, fragment: String)
        ensures
            final(self).address == old(self).address,
            final(self).signature_fragments@ == old(self).signature_fragments@.push(fragment),
    {
        self.signature_fragments.push(fragment);
    }
}

} // verus!
