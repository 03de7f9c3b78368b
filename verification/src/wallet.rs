//! What the wallet learns of a transaction that concerns it.

use vstd::prelude::*;
use crate::primitives::{Note, NoteView, PaymentAddress, PaymentAddressView};

verus! {

/// The identifier of a transaction.
#[derive(Clone, Copy, Debug, PartialEq, Eq)]
pub struct TxId(pub [u8; 32]);

/// A spend of one of the wallet's notes.
#[derive(Debug, PartialEq, Eq)]
pub struct WalletShieldedSpend {
    /// The place of the spend among the spends of its transaction.
    pub index: usize,
    /// The nullifier that the spend reveals.
    pub nf: Vec<u8>,
    /// The account whose note is spent.
    pub account: usize,
}

/// What a matched spend is in contracts.
pub struct WalletShieldedSpendView {
    pub index: usize,
    pub nf: Seq<u8>,
    pub account: usize,
}

impl View for WalletShieldedSpend {
    type V = WalletShieldedSpendView;

    open spec fn view(&self) -> WalletShieldedSpendView {
        WalletShieldedSpendView { index: self.index, nf: self.nf@, account: self.account }
    }
}

/// An output that one of the wallet's accounts can decrypt.
#[derive(Debug, PartialEq, Eq)]
pub struct WalletShieldedOutput {
    /// The place of the output among the outputs of its transaction.
    pub index: usize,
    /// The note commitment.
    pub cmu: [u8; 32],
    /// The ephemeral key.
    pub epk: [u8; 32],
    /// The account that the note belongs to.
    pub account: usize,
    /// The note.
    pub note: Note,
    /// The address that the note was sent to.
    pub to: PaymentAddress,
    /// Whether the account has also spent notes in this transaction.
    pub is_change: bool,
}

/// What a matched output is in contracts.
pub struct WalletShieldedOutputView {
    pub index: usize,
    pub cmu: Seq<u8>,
    pub epk: Seq<u8>,
    pub account: usize,
    pub note: NoteView,
    pub to: PaymentAddressView,
    pub is_change: bool,
}

impl View for WalletShieldedOutput {
    type V = WalletShieldedOutputView;

    open spec fn view(&self) -> WalletShieldedOutputView {
        WalletShieldedOutputView {
            index: self.index,
            cmu: self.cmu@,
            epk: self.epk@,
            account: self.account,
            note: self.note@,
            to: self.to@,
            is_change: self.is_change,
        }
    }
}

/// A transaction that spends from the wallet or pays to it.
#[derive(Debug, PartialEq, Eq)]
pub struct WalletTx {
    pub txid: TxId,
    /// The number of spends of the transaction, the wallet's or not.
    pub num_spends: usize,
    /// The number of outputs of the transaction, the wallet's or not.
    pub num_outputs: usize,
    pub shielded_spends: Vec<WalletShieldedSpend>,
    pub shielded_outputs: Vec<WalletShieldedOutput>,
}

/// What a wallet transaction is in contracts.
pub struct WalletTxView {
    pub txid: Seq<u8>,
    pub num_spends: usize,
    pub num_outputs: usize,
    pub shielded_spends: Seq<WalletShieldedSpendView>,
    pub shielded_outputs: Seq<WalletShieldedOutputView>,
}

impl View for WalletTx {
    type V = WalletTxView;

    open spec fn view(&self) -> WalletTxView {
        WalletTxView {
            txid: self.txid.0@,
            num_spends: self.num_spends,
            num_outputs: self.num_outputs,
            shielded_spends: Seq::new(
                self.shielded_spends@.len(),
                |i: int| self.shielded_spends@[i]@,
            ),
            shielded_outputs: Seq::new(
                self.shielded_outputs@.len(),
                |i: int| self.shielded_outputs@[i]@,
            ),
        }
    }
}

} // verus!
