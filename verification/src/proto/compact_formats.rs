//! Compact blocks: what of a block the wallet needs to find its funds.

use vstd::prelude::*;

verus! {

/// A spend, by the nullifier that it reveals.
#[derive(Clone, Debug, PartialEq, Eq)]
pub struct CompactSpend {
    pub nf: Vec<u8>,
}

/// An output: its note commitment, its ephemeral key, and as much of its
/// ciphertext as trial decryption needs.
#[derive(Clone, Debug, PartialEq, Eq)]
pub struct CompactOutput {
    pub cmu: Vec<u8>,
    pub epk: Vec<u8>,
    pub ciphertext: Vec<u8>,
}

/// A transaction: its identifier, and its spends and outputs in order.
#[derive(Clone, Debug, PartialEq, Eq)]
pub struct CompactTx {
    pub hash: [u8; 32],
    pub spends: Vec<CompactSpend>,
    pub outputs: Vec<CompactOutput>,
}

/// A block: its transactions in order.
#[derive(Clone, Debug, PartialEq, Eq)]
pub struct CompactBlock {
    pub vtx: Vec<CompactTx>,
}

/// What a compact output is in contracts.
pub struct CompactOutputView {
    pub cmu: Seq<u8>,
    pub epk: Seq<u8>,
    pub ciphertext: Seq<u8>,
}

/// What a compact transaction is in contracts: its identifier, the
/// nullifiers of its spends, and its outputs.
pub struct CompactTxView {
    pub hash: Seq<u8>,
    pub spends: Seq<Seq<u8>>,
    pub outputs: Seq<CompactOutputView>,
}

impl View for CompactSpend {
    type V = Seq<u8>;

    open spec fn view(&self) -> Seq<u8> {
        self.nf@
    }
}

impl View for CompactOutput {
    type V = CompactOutputView;

    open spec fn view(&self) -> CompactOutputView {
        CompactOutputView { cmu: self.cmu@, epk: self.epk@, ciphertext: self.ciphertext@ }
    }
}

/// The spends of a transaction as contracts see them.
pub open spec fn spend_views(spends: Seq<CompactSpend>) -> Seq<Seq<u8>> {
    Seq::new(spends.len(), |i: int| spends[i]@)
}

/// The outputs of a transaction as contracts see them.
pub open spec fn output_views(outputs: Seq<CompactOutput>) -> Seq<CompactOutputView> {
    Seq::new(outputs.len(), |i: int| outputs[i]@)
}

/// The transactions of a block as contracts see them.
pub open spec fn tx_views(vtx: Seq<CompactTx>) -> Seq<CompactTxView> {
    Seq::new(vtx.len(), |i: int| vtx[i]@)
}

impl View for CompactTx {
    type V = CompactTxView;

    open spec fn view(&self) -> CompactTxView {
        CompactTxView {
            hash: self.hash@,
            spends: spend_views(self.spends@),
            outputs: output_views(self.outputs@),
        }
    }
}

impl View for CompactBlock {
    type V = Seq<CompactTxView>;

    open spec fn view(&self) -> Seq<CompactTxView> {
        tx_views(self.vtx@)
    }
}

} // verus!
