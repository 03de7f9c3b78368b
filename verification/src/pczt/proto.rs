//! The document of a partially-created transaction.

use vstd::prelude::*;

verus! {

/// What concerns the transaction as a whole: the net value that leaves the
/// shielded pool, and the two accumulators of the binding signature. The
/// accumulators are empty until something has been added to them.
#[derive(Debug, PartialEq, Eq)]
pub struct PcztGlobal {
    pub value_balance: i64,
    pub bsk: Vec<u8>,
    pub bvk: Vec<u8>,
}

/// Where in the key tree of a seed the key of a spend stands: the
/// fingerprint of the seed, and the path from the master key.
#[derive(Debug, PartialEq, Eq)]
pub struct Zip32Key {
    pub master_fingerprint: Vec<u8>,
    pub derivation_path: Vec<u32>,
}

/// A spend that waits for its signature.
#[derive(Debug, PartialEq, Eq)]
pub struct PcztSpend {
    pub key: Zip32Key,
    /// The scalar by which the spend's key is re-randomised.
    pub alpha: Vec<u8>,
    /// The spend authorization signature; empty until the spend is signed.
    pub spend_auth_sig: Vec<u8>,
}

/// An output of the transaction, with what a later party needs to check the
/// accumulators against it: its value and the randomness of its value
/// commitment.
#[derive(Debug, PartialEq, Eq)]
pub struct PcztOutput {
    pub cv: Vec<u8>,
    pub cmu: Vec<u8>,
    pub epk: Vec<u8>,
    pub enc_ciphertext: Vec<u8>,
    pub out_ciphertext: Vec<u8>,
    pub zkproof: Vec<u8>,
    pub value: i64,
    pub rcv: Vec<u8>,
}

/// A partially-created transaction.
#[derive(Debug, PartialEq, Eq)]
pub struct PartiallyCreatedTransaction {
    pub global: PcztGlobal,
    pub spends: Vec<PcztSpend>,
    pub outputs: Vec<PcztOutput>,
}

/// What the global part is in contracts.
pub struct GlobalView {
    pub value_balance: i64,
    pub bsk: Seq<u8>,
    pub bvk: Seq<u8>,
}

/// What a spend is in contracts.
pub struct SpendView {
    pub master_fingerprint: Seq<u8>,
    pub derivation_path: Seq<u32>,
    pub alpha: Seq<u8>,
    pub spend_auth_sig: Seq<u8>,
}

/// What an output is in contracts.
pub struct OutputView {
    pub cv: Seq<u8>,
    pub cmu: Seq<u8>,
    pub epk: Seq<u8>,
    pub enc_ciphertext: Seq<u8>,
    pub out_ciphertext: Seq<u8>,
    pub zkproof: Seq<u8>,
    pub value: i64,
    pub rcv: Seq<u8>,
}

/// What a document is in contracts.
pub struct DocumentView {
    pub global: GlobalView,
    pub spends: Seq<SpendView>,
    pub outputs: Seq<OutputView>,
}

impl View for PcztGlobal {
    type V = GlobalView;

    open spec fn view(&self) -> GlobalView {
        GlobalView { value_balance: self.value_balance, bsk: self.bsk@, bvk: self.bvk@ }
    }
}

impl View for PcztSpend {
    type V = SpendView;

    open spec fn view(&self) -> SpendView {
        SpendView {
            master_fingerprint: self.key.master_fingerprint@,
            derivation_path: self.key.derivation_path@,
            alpha: self.alpha@,
            spend_auth_sig: self.spend_auth_sig@,
        }
    }
}

impl View for PcztOutput {
    type V = OutputView;

    open spec fn view(&self) -> OutputView {
        OutputView {
            cv: self.cv@,
            cmu: self.cmu@,
            epk: self.epk@,
            enc_ciphertext: self.enc_ciphertext@,
            out_ciphertext: self.out_ciphertext@,
            zkproof: self.zkproof@,
            value: self.value,
            rcv: self.rcv@,
        }
    }
}

/// The spends of a document as contracts see them.
pub open spec fn spend_views(spends: Seq<PcztSpend>) -> Seq<SpendView> {
    Seq::new(spends.len(), |i: int| spends[i]@)
}

/// The outputs of a document as contracts see them.
pub open spec fn output_views(outputs: Seq<PcztOutput>) -> Seq<OutputView> {
    Seq::new(outputs.len(), |i: int| outputs[i]@)
}

impl View for PartiallyCreatedTransaction {
    type V = DocumentView;

    open spec fn view(&self) -> DocumentView {
        DocumentView {
            global: self.global@,
            spends: spend_views(self.spends@),
            outputs: output_views(self.outputs@),
        }
    }
}

impl PartiallyCreatedTransaction {
    /// The document that holds nothing yet.
    pub fn new() -> (document: PartiallyCreatedTransaction)
        ensures
            document@ == empty_document(),
    {
        let document = PartiallyCreatedTransaction {
            global: PcztGlobal { value_balance: 0, bsk: Vec::new(), bvk: Vec::new() },
            spends: Vec::new(),
            outputs: Vec::new(),
        };
        assert(document@.spends =~= Seq::empty());
        assert(document@.outputs =~= Seq::empty());
        document
    }
}

/// The document that holds nothing yet.
pub open spec fn empty_document() -> DocumentView {
    DocumentView {
        global: GlobalView { value_balance: 0, bsk: Seq::empty(), bvk: Seq::empty() },
        spends: Seq::empty(),
        outputs: Seq::empty(),
    }
}

} // verus!
