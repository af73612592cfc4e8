//! What the indexer reads of a transaction, as plain values.

use vstd::prelude::*;

verus! {

/// The output that an input spends.
#[derive(Clone, Debug, PartialEq, Eq)]
pub struct OutPoint {
    /// The identifier of the transaction, in lower-case hexadecimal.
    pub txid: String,
    /// The place of the output in that transaction.
    pub vout: u32,
}

/// An input of a transaction.
#[derive(Clone, Debug, PartialEq, Eq)]
pub struct TxIn {
    pub previous_output: OutPoint,
    /// The items of the witness, first item first.
    pub witness: Vec<Vec<u8>>,
}

/// An output of a transaction.
#[derive(Clone, Debug, PartialEq, Eq)]
pub struct TxOut {
    /// The amount, in satoshis.
    pub value: u64,
    /// The bytes of the locking script.
    pub script_pubkey: Vec<u8>,
}

/// A transaction.
#[derive(Clone, Debug, PartialEq, Eq)]
pub struct Tx {
    pub input: Vec<TxIn>,
    pub output: Vec<TxOut>,
}

/// What is known of an output that an input spends, from the node.
#[derive(Clone, Debug, PartialEq, Eq)]
pub struct PrevOut {
    /// The bytes of the locking script of the output.
    pub script_pubkey: Vec<u8>,
    /// How many blocks confirm the transaction that holds the output.
    pub confirmations: Option<u32>,
}

impl Tx {
    /// The locking scripts of the outputs, in order.
    pub open spec fn scripts(self) -> Seq<Seq<u8>> {
        Seq::new(self.output@.len(), |i: int| self.output@[i].script_pubkey@)
    }

    /// The outputs that the inputs spend, in order: the identifier of the
    /// transaction and the place of the output in it.
    pub open spec fn points(self) -> Seq<(Seq<char>, u32)> {
        Seq::new(
            self.input@.len(),
            |i: int|
                (self.input@[i].previous_output.txid@, self.input@[i].previous_output.vout),
        )
    }

    /// The amounts of the outputs, in order.
    pub open spec fn values(self) -> Seq<u64> {
        Seq::new(self.output@.len(), |i: int| self.output@[i].value)
    }

    /// The witnesses of the inputs, in order.
    pub open spec fn witnesses(self) -> Seq<Seq<Seq<u8>>> {
        Seq::new(self.input@.len(), |i: int| self.input@[i].witness.deep_view())
    }
}

} // verus!
