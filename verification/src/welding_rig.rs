//! Scanning of compact blocks for the wallet's funds.

use vstd::prelude::*;
use crate::encoding::{
    bytes_equal, copy_bytes, decodes_to_base, decodes_to_subgroup_point, is_canonical_base,
    leading_bytes, subgroup_point_decodes,
};
use crate::merkle_tree::{CommitmentTree, IncrementalWitness, MAX_LEAVES};
use crate::note_encryption::{
    compact_decryption, try_compact_decryption, Zip212Enforcement, COMPACT_NOTE_SIZE,
};
use crate::primitives::{Note, NoteView, PaymentAddress, PaymentAddressView, Rseed, RseedView};
use crate::proto::codec::parse_block;
use crate::proto::compact_formats::{
    tx_views, CompactBlock, CompactOutput, CompactSpend, CompactTx, CompactTxView,
};
use crate::sapling::Node;
use crate::wallet::{
    TxId, WalletShieldedOutput, WalletShieldedOutputView, WalletShieldedSpend,
    WalletShieldedSpendView, WalletTx, WalletTxView,
};
use crate::zip32::ExtendedFullViewingKey;

pub mod laws;

verus! {

/// The incoming viewing key of each account, where the account's key has one.
pub open spec fn account_ivks(extfvks: Seq<ExtendedFullViewingKey>) -> Seq<Option<Seq<u8>>> {
    Seq::new(extfvks.len(), |account: int| extfvks[account].fvk.spec_ivk())
}

/// The account that the first entry of the table with the nullifier `nf`
/// names.
pub open spec fn nullifier_account(nullifiers: Seq<(&[u8], usize)>, nf: Seq<u8>) -> Option<usize>
    decreases nullifiers.len(),
{
    if nullifiers.len() == 0 {
        None
    } else if nullifiers[0].0@ == nf {
        Some(nullifiers[0].1)
    } else {
        nullifier_account(nullifiers.drop_first(), nf)
    }
}

/// The spends among the first `upto` that reveal a nullifier of the table, in
/// order.
pub open spec fn matched_spends(
    spends: Seq<CompactSpend>,
    nullifiers: Seq<(&[u8], usize)>,
    upto: nat,
) -> Seq<WalletShieldedSpendView>
    decreases upto,
{
    if upto == 0 {
        Seq::empty()
    } else {
        let before = matched_spends(spends, nullifiers, (upto - 1) as nat);
        let nf = spends[upto - 1].nf@;
        match nullifier_account(nullifiers, nf) {
            Some(account) => before.push(
                WalletShieldedSpendView { index: (upto - 1) as usize, nf, account },
            ),
            None => before,
        }
    }
}

/// Whether one of the matched spends is from `account`.
pub open spec fn spent_from(spends: Seq<WalletShieldedSpendView>, account: usize) -> bool {
    exists|i: int| 0 <= i < spends.len() && (#[trigger] spends[i]).account == account
}

/// Whether the commitment and the ephemeral key of an output can be read:
/// the first 32 bytes of the one encode a field element, those of the other a
/// point of the prime-order subgroup.
pub open spec fn output_is_well_formed(output: CompactOutput) -> bool {
    &&& output.cmu@.len() >= 32
    &&& is_canonical_base(output.cmu@.take(32))
    &&& output.epk@.len() >= 32
    &&& subgroup_point_decodes(output.epk@.take(32))
}

/// The leaves that the first `upto` outputs add to the tree: the commitment
/// of each output that is well formed, in order.
pub open spec fn outputs_leaves(outputs: Seq<CompactOutput>, upto: nat) -> Seq<Seq<u8>>
    decreases upto,
{
    if upto == 0 {
        Seq::empty()
    } else {
        let before = outputs_leaves(outputs, (upto - 1) as nat);
        if output_is_well_formed(outputs[upto - 1]) {
            before.push(outputs[upto - 1].cmu@.take(32))
        } else {
            before
        }
    }
}

/// The leaves that the first `upto` transactions add to the tree.
pub open spec fn block_leaves(vtx: Seq<CompactTx>, upto: nat) -> Seq<Seq<u8>>
    decreases upto,
{
    if upto == 0 {
        Seq::empty()
    } else {
        block_leaves(vtx, (upto - 1) as nat) + outputs_leaves(
            vtx[upto - 1].outputs@,
            vtx[upto - 1].outputs@.len(),
        )
    }
}

/// The number of outputs of the first `upto` transactions.
pub open spec fn output_count(vtx: Seq<CompactTx>, upto: nat) -> nat
    decreases upto,
{
    if upto == 0 {
        0
    } else {
        output_count(vtx, (upto - 1) as nat) + vtx[upto - 1].outputs@.len()
    }
}

/// The forms of note plaintext that the scanner admits: both. The scanner
/// does not know the height of a block, by which the one form gives way to
/// the other.
pub open spec fn admitted_plaintexts() -> Zip212Enforcement {
    Zip212Enforcement::GracePeriod
}

/// What the key of `account` finds in a well-formed output: trial decryption
/// is tried where the account has an incoming viewing key and the output
/// carries a ciphertext of the compact size.
pub open spec fn decryption_by(
    ivks: Seq<Option<Seq<u8>>>,
    output: CompactOutput,
    account: int,
) -> Option<(u64, Seq<u8>, bool, Seq<u8>)> {
    if ivks[account] is Some && output.ciphertext@.len() == COMPACT_NOTE_SIZE {
        compact_decryption(
            ivks[account]->0,
            output.epk@.take(32),
            output.cmu@.take(32),
            output.ciphertext@,
            admitted_plaintexts(),
        )
    } else {
        None
    }
}

/// The first account from `from` on whose key decrypts the output.
pub open spec fn first_decrypting(
    ivks: Seq<Option<Seq<u8>>>,
    output: CompactOutput,
    from: nat,
) -> Option<nat>
    decreases ivks.len() - from,
{
    if from >= ivks.len() {
        None
    } else if decryption_by(ivks, output, from as int) is Some {
        Some(from)
    } else {
        first_decrypting(ivks, output, from + 1)
    }
}

/// The note that the wallet finds in the output at `index` of a transaction
/// with the given matched spends: that of the first account whose key
/// decrypts it, marked as change where that account spends in the
/// transaction too.
pub open spec fn scanned_output(
    index: nat,
    output: CompactOutput,
    ivks: Seq<Option<Seq<u8>>>,
    spends: Seq<WalletShieldedSpendView>,
) -> Option<WalletShieldedOutputView> {
    if !output_is_well_formed(output) {
        None
    } else {
        match first_decrypting(ivks, output, 0) {
            Some(account) => {
                let found = decryption_by(ivks, output, account as int)->0;
                Some(
                    WalletShieldedOutputView {
                        index: index as usize,
                        cmu: output.cmu@.take(32),
                        epk: output.epk@.take(32),
                        account: account as usize,
                        note: NoteView {
                            value: found.0,
                            diversifier: found.1.take(11),
                            pk_d: found.1.skip(11),
                            rseed: RseedView { is_seed: found.2, bytes: found.3 },
                        },
                        to: PaymentAddressView {
                            diversifier: found.1.take(11),
                            pk_d: found.1.skip(11),
                        },
                        is_change: spent_from(spends, account as usize),
                    },
                )
            },
            None => None,
        }
    }
}

/// The notes that the wallet finds in the first `upto` outputs, in order.
pub open spec fn matched_outputs(
    outputs: Seq<CompactOutput>,
    ivks: Seq<Option<Seq<u8>>>,
    spends: Seq<WalletShieldedSpendView>,
    upto: nat,
) -> Seq<WalletShieldedOutputView>
    decreases upto,
{
    if upto == 0 {
        Seq::empty()
    } else {
        let before = matched_outputs(outputs, ivks, spends, (upto - 1) as nat);
        match scanned_output((upto - 1) as nat, outputs[upto - 1], ivks, spends) {
            Some(found) => before.push(found),
            None => before,
        }
    }
}

/// What the wallet learns of a transaction; `None` where the transaction
/// neither spends from the wallet nor pays to it.
pub open spec fn scanned_tx(
    tx: CompactTx,
    ivks: Seq<Option<Seq<u8>>>,
    nullifiers: Seq<(&[u8], usize)>,
) -> Option<WalletTxView> {
    let spends = matched_spends(tx.spends@, nullifiers, tx.spends@.len());
    let outputs = matched_outputs(tx.outputs@, ivks, spends, tx.outputs@.len());
    if spends.len() == 0 && outputs.len() == 0 {
        None
    } else {
        Some(
            WalletTxView {
                txid: tx.hash@,
                num_spends: tx.spends@.len() as usize,
                num_outputs: tx.outputs@.len() as usize,
                shielded_spends: spends,
                shielded_outputs: outputs,
            },
        )
    }
}

/// Those of the first `upto` transactions that concern the wallet, in order,
/// each with its place in the block.
pub open spec fn scanned_txs(
    vtx: Seq<CompactTx>,
    ivks: Seq<Option<Seq<u8>>>,
    nullifiers: Seq<(&[u8], usize)>,
    upto: nat,
) -> Seq<(nat, WalletTxView)>
    decreases upto,
{
    if upto == 0 {
        Seq::empty()
    } else {
        let before = scanned_txs(vtx, ivks, nullifiers, (upto - 1) as nat);
        match scanned_tx(vtx[upto - 1], ivks, nullifiers) {
            Some(found) => before.push(((upto - 1) as nat, found)),
            None => before,
        }
    }
}

/// The number of leaves that a block has added to the tree once the output
/// at `output` of its transaction at `tx` has been taken in.
pub open spec fn leaves_through(vtx: Seq<CompactTx>, tx: nat, output: nat) -> nat {
    block_leaves(vtx, tx).len() + outputs_leaves(vtx[tx as int].outputs@, output + 1).len()
}

/// No more leaves are added than there are outputs.
pub proof fn lemma_outputs_leaves_bounded(outputs: Seq<CompactOutput>, upto: nat)
    ensures
        outputs_leaves(outputs, upto).len() <= upto,
    decreases upto,
{
    if upto > 0 {
        lemma_outputs_leaves_bounded(outputs, (upto - 1) as nat);
    }
}

/// No more leaves are added than there are outputs, block by block.
pub proof fn lemma_block_leaves_bounded(vtx: Seq<CompactTx>, upto: nat)
    ensures
        block_leaves(vtx, upto).len() <= output_count(vtx, upto),
    decreases upto,
{
    if upto > 0 {
        lemma_block_leaves_bounded(vtx, (upto - 1) as nat);
        lemma_outputs_leaves_bounded(vtx[upto - 1].outputs@, vtx[upto - 1].outputs@.len());
    }
}

/// The outputs of a block's first transactions are among those of the block.
pub proof fn lemma_output_count_monotonic(vtx: Seq<CompactTx>, a: nat, b: nat)
    requires
        a <= b,
    ensures
        output_count(vtx, a) <= output_count(vtx, b),
    decreases b,
{
    if a < b {
        lemma_output_count_monotonic(vtx, a, (b - 1) as nat);
    }
}

/// A note that the wallet finds is marked as change exactly where its
/// account also spends in the transaction.
pub proof fn lemma_change_iff_spent(
    index: nat,
    output: CompactOutput,
    ivks: Seq<Option<Seq<u8>>>,
    spends: Seq<WalletShieldedSpendView>,
)
    ensures
        scanned_output(index, output, ivks, spends) matches Some(found) ==> (found.is_change
            <==> spent_from(spends, found.account)),
{
}

/// Where no key decrypts an output, the wallet finds nothing in it, and a
/// note that the wallet finds belongs to the first account whose key
/// decrypts the output.
pub proof fn lemma_found_by_first_key(
    ivks: Seq<Option<Seq<u8>>>,
    output: CompactOutput,
    from: nat,
)
    ensures
        match first_decrypting(ivks, output, from) {
            Some(account) => {
                &&& from <= account < ivks.len()
                &&& decryption_by(ivks, output, account as int) is Some
                &&& forall|earlier: int|
                    from <= earlier < account ==> decryption_by(ivks, output, earlier) is None
            },
            None => forall|account: int|
                from <= account < ivks.len() ==> decryption_by(ivks, output, account) is None,
        },
    decreases ivks.len() - from,
{
    if from < ivks.len() && decryption_by(ivks, output, from as int) is None {
        lemma_found_by_first_key(ivks, output, from + 1);
    }
}

/// Witnesses that have followed the tree up to a block have followed it
/// through the block: what the scan adds to the tree, it adds to them.
pub proof fn lemma_scan_keeps_step(
    tree_before: Seq<Seq<u8>>,
    added: Seq<Seq<u8>>,
    before: Seq<IncrementalWitness>,
    after: Seq<IncrementalWitness>,
)
    requires
        witnesses_advanced(after, before, added),
        forall|i: int| 0 <= i < before.len() ==> (#[trigger] before[i])@ == tree_before,
    ensures
        after.len() == before.len(),
        forall|i: int|
            0 <= i < after.len() ==> witness_is_for(
                #[trigger] after[i],
                tree_before + added,
                before[i].witnessed(),
            ),
{
    assert forall|i: int| 0 <= i < after.len() implies witness_is_for(
        #[trigger] after[i],
        tree_before + added,
        before[i].witnessed(),
    ) by {
        assert(witness_advanced(after[i], before[i], added));
    }
}

/// The account that the table of nullifiers names for `nf`.
fn find_account(nullifiers: &[(&[u8], usize)], nf: &[u8]) -> (account: Option<usize>)
    ensures
        account == nullifier_account(nullifiers@, nf@),
{
    let mut i: usize = 0;
    assert(nullifiers@.skip(0) =~= nullifiers@);
    while i < nullifiers.len()
        invariant
            i <= nullifiers@.len(),
            nullifier_account(nullifiers@, nf@) == nullifier_account(
                nullifiers@.skip(i as int),
                nf@,
            ),
        decreases nullifiers@.len() - i,
    {
        let entry = &nullifiers[i];
        proof {
            assert(nullifiers@.skip(i as int).drop_first() =~= nullifiers@.skip(i + 1));
            assert(nullifiers@.skip(i as int)[0] == nullifiers@[i as int]);
        }
        if bytes_equal(entry.0, nf) {
            return Some(entry.1);
        }
        i += 1;
    }
    assert(nullifiers@.skip(i as int).len() == 0);
    None
}

/// The spends of a transaction that reveal a nullifier of the table.
fn match_spends(spends: &Vec<CompactSpend>, nullifiers: &[(&[u8], usize)]) -> (matched: Vec<
    WalletShieldedSpend,
>)
    ensures
        spend_views(matched@) == matched_spends(spends@, nullifiers@, spends@.len()),
{
    let mut matched: Vec<WalletShieldedSpend> = Vec::new();
    let mut index: usize = 0;
    assert(spend_views(matched@) =~= Seq::empty());
    while index < spends.len()
        invariant
            index <= spends@.len(),
            spend_views(matched@) == matched_spends(spends@, nullifiers@, index as nat),
        decreases spends@.len() - index,
    {
        let ghost before = matched@;
        let spend = &spends[index];
        match find_account(nullifiers, spend.nf.as_slice()) {
            Some(account) => {
                let nf = copy_bytes(spend.nf.as_slice());
                matched.push(WalletShieldedSpend { index, nf, account });
                assert(spend_views(matched@) =~= spend_views(before).push(
                    WalletShieldedSpendView { index, nf: spend.nf@, account },
                ));
            },
            None => {},
        }
        index += 1;
    }
    matched
}

/// The matched spends as contracts see them.
pub open spec fn spend_views(spends: Seq<WalletShieldedSpend>) -> Seq<WalletShieldedSpendView> {
    Seq::new(spends.len(), |i: int| spends[i]@)
}

/// The matched outputs as contracts see them.
pub open spec fn output_views(outputs: Seq<WalletShieldedOutput>) -> Seq<
    WalletShieldedOutputView,
> {
    Seq::new(outputs.len(), |i: int| outputs[i]@)
}

/// Whether one of the matched spends is from `account`.
fn is_spent_from(spends: &Vec<WalletShieldedSpend>, account: usize) -> (found: bool)
    ensures
        found == spent_from(spend_views(spends@), account),
{
    let mut i: usize = 0;
    while i < spends.len()
        invariant
            i <= spends@.len(),
            forall|j: int| 0 <= j < i ==> (#[trigger] spend_views(spends@)[j]).account != account,
        decreases spends@.len() - i,
    {
        if spends[i].account == account {
            assert(spend_views(spends@)[i as int].account == account);
            return true;
        }
        i += 1;
    }
    false
}

/// The incoming viewing keys of the accounts.
fn derive_ivks(extfvks: &[ExtendedFullViewingKey]) -> (ivks: Vec<Option<[u8; 32]>>)
    ensures
        ivk_views(ivks@) == account_ivks(extfvks@),
{
    let mut ivks: Vec<Option<[u8; 32]>> = Vec::new();
    let mut account: usize = 0;
    while account < extfvks.len()
        invariant
            account <= extfvks@.len(),
            ivks@.len() == account,
            forall|a: int|
                0 <= a < account ==> match #[trigger] ivks@[a] {
                    Some(ivk) => extfvks@[a].fvk.spec_ivk() == Some(ivk@),
                    None => extfvks@[a].fvk.spec_ivk() is None,
                },
        decreases extfvks@.len() - account,
    {
        let ivk = extfvks[account].fvk.ivk();
        ivks.push(ivk);
        account += 1;
    }
    assert(ivk_views(ivks@) =~= account_ivks(extfvks@));
    ivks
}

/// The incoming viewing keys as contracts see them.
pub open spec fn ivk_views(ivks: Seq<Option<[u8; 32]>>) -> Seq<Option<Seq<u8>>> {
    Seq::new(
        ivks.len(),
        |account: int|
            match ivks[account] {
                Some(ivk) => Some(ivk@),
                None => None,
            },
    )
}

/// Tries the keys of the accounts on an output in turn, and stops at the
/// first that decrypts it.
fn decrypt_for_accounts(
    ivks: &Vec<Option<[u8; 32]>>,
    output: &CompactOutput,
    epk: &[u8; 32],
    cmu: &[u8; 32],
) -> (found: Option<(usize, (u64, [u8; 43], bool, [u8; 32]))>)
    requires
        output.cmu@.len() >= 32,
        output.epk@.len() >= 32,
        epk@ == output.epk@.take(32),
        cmu@ == output.cmu@.take(32),
    ensures
        match found {
            Some((account, note)) => {
                &&& first_decrypting(ivk_views(ivks@), *output, 0) == Some(account as nat)
                &&& decryption_by(ivk_views(ivks@), *output, account as int) == Some(
                    (note.0, note.1@, note.2, note.3@),
                )
            },
            None => first_decrypting(ivk_views(ivks@), *output, 0) is None,
        },
{
    if output.ciphertext.len() != COMPACT_NOTE_SIZE {
        proof {
            lemma_no_ciphertext(ivk_views(ivks@), *output, 0);
        }
        return None;
    }
    let ciphertext: [u8; 52] = leading_bytes(output.ciphertext.as_slice());
    assert(ciphertext@ =~= output.ciphertext@);
    let mut account: usize = 0;
    while account < ivks.len()
        invariant
            account <= ivks@.len(),
            output.ciphertext@.len() == COMPACT_NOTE_SIZE,
            ciphertext@ == output.ciphertext@,
            epk@ == output.epk@.take(32),
            cmu@ == output.cmu@.take(32),
            first_decrypting(ivk_views(ivks@), *output, 0) == first_decrypting(
                ivk_views(ivks@),
                *output,
                account as nat,
            ),
        decreases ivks@.len() - account,
    {
        match &ivks[account] {
            Some(ivk) => {
                assert(ivk_views(ivks@)[account as int] == Some(ivk@));
                match try_compact_decryption(
                    ivk,
                    epk,
                    cmu,
                    &ciphertext,
                    Zip212Enforcement::GracePeriod,
                ) {
                    Some(note) => {
                        return Some((account, note));
                    },
                    None => {},
                }
            },
            None => {
                assert(ivk_views(ivks@)[account as int] is None);
            },
        }
        account += 1;
    }
    None
}

/// Without a ciphertext of the compact size no key decrypts an output.
proof fn lemma_no_ciphertext(ivks: Seq<Option<Seq<u8>>>, output: CompactOutput, from: nat)
    requires
        output.ciphertext@.len() != COMPACT_NOTE_SIZE,
    ensures
        first_decrypting(ivks, output, from) is None,
    decreases ivks.len() - from,
{
    if from < ivks.len() {
        lemma_no_ciphertext(ivks, output, from + 1);
    }
}

/// Whether a witness is sound, has followed exactly `leaves`, and is for the
/// last of the first `witnessed` of them.
pub open spec fn witness_is_for(
    witness: IncrementalWitness,
    leaves: Seq<Seq<u8>>,
    witnessed: nat,
) -> bool {
    witness.wf() && witness@ == leaves && witness.witnessed() == witnessed
}

/// Whether a witness has followed `added` more leaves than it had before.
pub open spec fn witness_advanced(
    after: IncrementalWitness,
    before: IncrementalWitness,
    added: Seq<Seq<u8>>,
) -> bool {
    after.wf() && after@ == before@ + added && after.witnessed() == before.witnessed()
}

/// Whether each witness has followed `added` more leaves than it had before.
pub open spec fn witnesses_advanced(
    after: Seq<IncrementalWitness>,
    before: Seq<IncrementalWitness>,
    added: Seq<Seq<u8>>,
) -> bool {
    &&& after.len() == before.len()
    &&& forall|i: int|
        0 <= i < before.len() ==> #[trigger] witness_advanced(after[i], before[i], added)
}

/// Whether every witness is sound and has room for `room` more leaves.
pub open spec fn witnesses_have_room(witnesses: Seq<IncrementalWitness>, room: nat) -> bool {
    forall|i: int|
        0 <= i < witnesses.len() ==> (#[trigger] witnesses[i]).wf() && witnesses[i]@.len() + room
            <= MAX_LEAVES
}

/// Whether `found` is what the scan of the first `upto` transactions of a
/// block yields, where the tree held `base` leaves before the block and holds
/// `leaves` now: the transactions that concern the wallet, in order, each
/// with one witness for each of its matched outputs, which has followed the
/// tree ever since the output's own leaf.
pub open spec fn is_scan_result(
    found: Seq<(WalletTx, Vec<IncrementalWitness>)>,
    vtx: Seq<CompactTx>,
    ivks: Seq<Option<Seq<u8>>>,
    nullifiers: Seq<(&[u8], usize)>,
    upto: nat,
    base: nat,
    leaves: Seq<Seq<u8>>,
) -> bool {
    let scanned = scanned_txs(vtx, ivks, nullifiers, upto);
    &&& found.len() == scanned.len()
    &&& forall|k: int|
        0 <= k < found.len() ==> (#[trigger] found[k]).0@ == scanned[k].1 && found[k].1@.len()
            == found[k].0.shielded_outputs@.len()
    &&& forall|k: int, j: int|
        0 <= k < found.len() && 0 <= j < found[k].1@.len() ==> #[trigger] witness_is_for(
            found[k].1@[j],
            leaves,
            base + leaves_through(
                vtx,
                scanned[k].0,
                found[k].0.shielded_outputs@[j].index as nat,
            ),
        )
}

/// Lets every witness follow the tree by one leaf.
fn advance_witnesses(witnesses: &mut [IncrementalWitness], node: Node)
    requires
        witnesses_have_room(old(witnesses)@, 1),
    ensures
        witnesses_advanced(final(witnesses)@, old(witnesses)@, seq![node@]),
{
    let n = witnesses.len();
    let mut i: usize = 0;
    while i < n
        invariant
            i <= n,
            witnesses@.len() == n,
            n == old(witnesses)@.len(),
            witnesses_have_room(old(witnesses)@, 1),
            forall|j: int|
                0 <= j < i ==> #[trigger] witness_advanced(
                    witnesses@[j],
                    old(witnesses)@[j],
                    seq![node@],
                ),
            forall|j: int| i <= j < n ==> witnesses@[j] == old(witnesses)@[j],
        decreases n - i,
    {
        let ghost before = witnesses@[i as int];
        assert(before.wf() && before@.len() + 1 <= MAX_LEAVES);
        let witness = &mut witnesses[i];
        let _ = witness.append(node);
        proof {
            assert(witnesses@[i as int]@ =~= before@ + seq![node@]);
        }
        i += 1;
    }
}

/// Lets every witness of the transactions found so far follow the tree by
/// one leaf.
fn advance_found(found: &mut Vec<(WalletTx, Vec<IncrementalWitness>)>, node: Node)
    requires
        forall|k: int|
            0 <= k < old(found)@.len() ==> witnesses_have_room(
                (#[trigger] old(found)@[k]).1@,
                1,
            ),
    ensures
        final(found)@.len() == old(found)@.len(),
        forall|k: int|
            0 <= k < old(found)@.len() ==> (#[trigger] final(found)@[k]).0 == old(found)@[k].0
                && witnesses_advanced(final(found)@[k].1@, old(found)@[k].1@, seq![node@]),
{
    let n = found.len();
    let mut k: usize = 0;
    while k < n
        invariant
            k <= n,
            found@.len() == n,
            n == old(found)@.len(),
            forall|a: int|
                0 <= a < n ==> witnesses_have_room((#[trigger] old(found)@[a]).1@, 1),
            forall|a: int|
                0 <= a < k ==> (#[trigger] found@[a]).0 == old(found)@[a].0 && witnesses_advanced(
                    found@[a].1@,
                    old(found)@[a].1@,
                    seq![node@],
                ),
            forall|a: int| k <= a < n ==> found@[a] == old(found)@[a],
        decreases n - k,
    {
        assert(witnesses_have_room(old(found)@[k as int].1@, 1));
        let entry = &mut found[k];
        advance_witnesses(entry.1.as_mut_slice(), node);
        k += 1;
    }
}

/// Scans one output: where its commitment and ephemeral key can be read, the
/// commitment is appended to the tree and to every witness, and the keys of
/// the accounts are tried on it in turn. Where one decrypts it, the note is
/// handed out with a new witness for it.
fn scan_output(
    index: usize,
    output: &CompactOutput,
    ivks: &Vec<Option<[u8; 32]>>,
    spends: &Vec<WalletShieldedSpend>,
    tree: &mut CommitmentTree,
    existing_witnesses: &mut [IncrementalWitness],
    found: &mut Vec<(WalletTx, Vec<IncrementalWitness>)>,
    new_witnesses: &mut Vec<IncrementalWitness>,
) -> (scanned: Option<(WalletShieldedOutput, IncrementalWitness)>)
    requires
        old(tree).wf(),
        old(tree)@.len() < MAX_LEAVES,
        witnesses_have_room(old(existing_witnesses)@, 1),
        witnesses_have_room(old(new_witnesses)@, 1),
        forall|k: int|
            0 <= k < old(found)@.len() ==> witnesses_have_room(
                (#[trigger] old(found)@[k]).1@,
                1,
            ),
    ensures
        final(tree).wf(),
        final(tree)@ == old(tree)@ + outputs_leaves(seq![*output], 1),
        witnesses_advanced(
            final(existing_witnesses)@,
            old(existing_witnesses)@,
            outputs_leaves(seq![*output], 1),
        ),
        witnesses_advanced(
            final(new_witnesses)@,
            old(new_witnesses)@,
            outputs_leaves(seq![*output], 1),
        ),
        final(found)@.len() == old(found)@.len(),
        forall|k: int|
            0 <= k < old(found)@.len() ==> (#[trigger] final(found)@[k]).0 == old(found)@[k].0
                && witnesses_advanced(
                final(found)@[k].1@,
                old(found)@[k].1@,
                outputs_leaves(seq![*output], 1),
            ),
        match scanned {
            Some((note, witness)) => {
                &&& scanned_output(index as nat, *output, ivk_views(ivks@), spend_views(spends@))
                    == Some(note@)
                &&& witness_is_for(witness, final(tree)@, final(tree)@.len())
            },
            None => scanned_output(
                index as nat,
                *output,
                ivk_views(ivks@),
                spend_views(spends@),
            ) is None,
        },
{
    let ghost nothing = Seq::<Seq<u8>>::empty();
    proof {
        assert(outputs_leaves(seq![*output], 0) =~= nothing);
        assert(old(tree)@ + nothing =~= old(tree)@);
        assert forall|w: IncrementalWitness| w.wf() implies #[trigger] witness_advanced(
            w,
            w,
            nothing,
        ) by {
            assert(w@ + nothing =~= w@);
        }
    }
    if output.cmu.len() < 32 || output.epk.len() < 32 {
        return None;
    }
    let cmu: [u8; 32] = leading_bytes(output.cmu.as_slice());
    if !decodes_to_base(&cmu) {
        return None;
    }
    let epk: [u8; 32] = leading_bytes(output.epk.as_slice());
    if !decodes_to_subgroup_point(&epk) {
        return None;
    }
    assert(output_is_well_formed(*output));
    assert(outputs_leaves(seq![*output], 1) =~= seq![cmu@]);

    let node = Node::new(cmu);
    advance_witnesses(existing_witnesses, node);
    advance_found(found, node);
    advance_witnesses(new_witnesses.as_mut_slice(), node);
    let _ = tree.append(node);
    assert(tree@ =~= old(tree)@ + seq![cmu@]);

    match decrypt_for_accounts(ivks, output, &epk, &cmu) {
        Some((account, plain)) => {
            let address = plain.1;
            let diversifier: [u8; 11] = leading_bytes(address.as_slice());
            let pk_d: [u8; 32] = trailing_bytes(&address);
            let rseed = if plain.2 {
                Rseed::AfterZip212(plain.3)
            } else {
                Rseed::BeforeZip212(plain.3)
            };
            let is_change = is_spent_from(spends, account);
            let note = WalletShieldedOutput {
                index,
                cmu,
                epk,
                account,
                note: Note { value: plain.0, diversifier, pk_d, rseed },
                to: PaymentAddress { diversifier, pk_d },
                is_change,
            };
            let witness = IncrementalWitness::from_tree(tree);
            Some((note, witness))
        },
        None => None,
    }
}

/// The 32 bytes of an address's encoding that follow its diversifier.
fn trailing_bytes(address: &[u8; 43]) -> (tail: [u8; 32])
    ensures
        tail@ == address@.skip(11),
{
    let mut tail = [0u8; 32];
    let mut i: usize = 0;
    while i < 32
        invariant
            i <= 32,
            forall|j: int| 0 <= j < i ==> tail@[j] == address@[11 + j],
        decreases 32 - i,
    {
        tail[i] = address[11 + i];
        i += 1;
    }
    assert(tail@ =~= address@.skip(11));
    tail
}

/// Taking in one more output adds its leaf, if it has one, behind those of
/// the outputs before it.
proof fn lemma_outputs_leaves_step(outputs: Seq<CompactOutput>, upto: nat)
    requires
        upto < outputs.len(),
    ensures
        outputs_leaves(outputs, upto + 1) == outputs_leaves(outputs, upto) + outputs_leaves(
            seq![outputs[upto as int]],
            1,
        ),
{
    let one = seq![outputs[upto as int]];
    assert(outputs_leaves(one, 0) =~= Seq::<Seq<u8>>::empty());
    assert(one[0] == outputs[upto as int]);
    if output_is_well_formed(outputs[upto as int]) {
        assert(outputs_leaves(outputs, upto + 1) =~= outputs_leaves(outputs, upto) + seq![
            outputs[upto as int].cmu@.take(32),
        ]);
        assert(outputs_leaves(one, 1) =~= seq![outputs[upto as int].cmu@.take(32)]);
    } else {
        assert(outputs_leaves(one, 1) =~= Seq::<Seq<u8>>::empty());
        assert(outputs_leaves(outputs, upto) + Seq::<Seq<u8>>::empty() =~= outputs_leaves(
            outputs,
            upto,
        ));
    }
}

/// A witness that has followed some leaves and then some more has followed
/// them all.
proof fn lemma_witnesses_advanced_twice(
    last: Seq<IncrementalWitness>,
    middle: Seq<IncrementalWitness>,
    first: Seq<IncrementalWitness>,
    added: Seq<Seq<u8>>,
    more: Seq<Seq<u8>>,
)
    requires
        witnesses_advanced(middle, first, added),
        witnesses_advanced(last, middle, more),
    ensures
        witnesses_advanced(last, first, added + more),
{
    assert forall|i: int| 0 <= i < first.len() implies #[trigger] witness_advanced(
        last[i],
        first[i],
        added + more,
    ) by {
        assert(witness_advanced(middle[i], first[i], added));
        assert(witness_advanced(last[i], middle[i], more));
        assert((first[i]@ + added) + more =~= first[i]@ + (added + more));
    }
}

/// Whether the tree and the witnesses have room for the outputs of a block,
/// as a scan of the block asks of them.
pub fn has_room_for(
    block: &CompactBlock,
    tree: &CommitmentTree,
    existing_witnesses: &[IncrementalWitness],
) -> (room: bool)
    requires
        tree.wf(),
        forall|i: int| 0 <= i < existing_witnesses@.len() ==> (#[trigger] existing_witnesses@[i]).wf(),
    ensures
        room == (tree@.len() + output_count(block.vtx@, block.vtx@.len()) <= MAX_LEAVES
            && witnesses_have_room(
            existing_witnesses@,
            output_count(block.vtx@, block.vtx@.len()),
        )),
{
    let ghost vtx = block.vtx@;
    let mut outputs: u64 = 0;
    let mut t: usize = 0;
    while t < block.vtx.len()
        invariant
            t <= vtx.len(),
            vtx == block.vtx@,
            outputs == output_count(vtx, t as nat),
            outputs <= MAX_LEAVES,
        decreases vtx.len() - t,
    {
        let more = block.vtx[t].outputs.len() as u64;
        if more > MAX_LEAVES - outputs {
            proof {
                lemma_output_count_monotonic(vtx, (t + 1) as nat, vtx.len());
            }
            return false;
        }
        outputs = outputs + more;
        t += 1;
    }
    if tree.size() > MAX_LEAVES - outputs {
        return false;
    }
    let mut i: usize = 0;
    while i < existing_witnesses.len()
        invariant
            i <= existing_witnesses@.len(),
            outputs <= MAX_LEAVES,
            outputs == output_count(block.vtx@, block.vtx@.len()),
            tree@.len() + outputs <= MAX_LEAVES,
            forall|j: int|
                0 <= j < existing_witnesses@.len() ==> (#[trigger] existing_witnesses@[j]).wf(),
            forall|j: int|
                0 <= j < i ==> (#[trigger] existing_witnesses@[j])@.len() + outputs <= MAX_LEAVES,
        decreases existing_witnesses@.len() - i,
    {
        if existing_witnesses[i].size() > MAX_LEAVES - outputs {
            assert(!(existing_witnesses@[i as int]@.len() + outputs <= MAX_LEAVES));
            return false;
        }
        i += 1;
    }
    true
}

/// Scans a block for the wallet's funds.
///
/// The spends of each transaction are matched against the table of
/// nullifiers. The outputs are taken in order: the commitment of each output
/// whose commitment and ephemeral key can be read becomes the next leaf of
/// the tree, and every witness follows, those made earlier in the block too;
/// then the keys of the accounts are tried on the output in turn, and the
/// first that decrypts it makes it a note of the wallet, with a new witness.
///
/// A note is taken to belong to one account at most: the keys behind the
/// first that decrypts an output are not tried.
///
/// The leaves must reach the tree in the order of the chain: blocks are to
/// be scanned in that order, each once. The tree and the witnesses must have
/// room for the outputs of the block.
pub fn scan_block(
    block: &CompactBlock,
    extfvks: &[ExtendedFullViewingKey],
    nullifiers: &[(&[u8], usize)],
    tree: &mut CommitmentTree,
    existing_witnesses: &mut [IncrementalWitness],
) -> (found: Vec<(WalletTx, Vec<IncrementalWitness>)>)
    requires
        old(tree).wf(),
        old(tree)@.len() + output_count(block.vtx@, block.vtx@.len()) <= MAX_LEAVES,
        witnesses_have_room(
            old(existing_witnesses)@,
            output_count(block.vtx@, block.vtx@.len()),
        ),
    ensures
        final(tree).wf(),
        final(tree)@ == old(tree)@ + block_leaves(block.vtx@, block.vtx@.len()),
        witnesses_advanced(
            final(existing_witnesses)@,
            old(existing_witnesses)@,
            block_leaves(block.vtx@, block.vtx@.len()),
        ),
        is_scan_result(
            found@,
            block.vtx@,
            account_ivks(extfvks@),
            nullifiers@,
            block.vtx@.len(),
            old(tree)@.len(),
            final(tree)@,
        ),
{
    let ivks = derive_ivks(extfvks);
    let ghost keys = account_ivks(extfvks@);
    let ghost vtx = block.vtx@;
    let ghost total = output_count(vtx, vtx.len());
    let ghost base = tree@;
    let ghost first = existing_witnesses@;
    let mut found: Vec<(WalletTx, Vec<IncrementalWitness>)> = Vec::new();
    let mut t: usize = 0;
    proof {
        assert(base + block_leaves(vtx, 0) =~= base);
        assert forall|i: int| 0 <= i < first.len() implies #[trigger] witness_advanced(
            first[i],
            first[i],
            block_leaves(vtx, 0),
        ) by {
            assert(first[i].wf());
            assert(first[i]@ + block_leaves(vtx, 0) =~= first[i]@);
        }
    }
    while t < block.vtx.len()
        invariant
            t <= vtx.len(),
            vtx == block.vtx@,
            keys == ivk_views(ivks@),
            total == output_count(vtx, vtx.len()),
            base.len() + total <= MAX_LEAVES,
            witnesses_have_room(first, total),
            tree.wf(),
            tree@ == base + block_leaves(vtx, t as nat),
            witnesses_advanced(existing_witnesses@, first, block_leaves(vtx, t as nat)),
            is_scan_result(found@, vtx, keys, nullifiers@, t as nat, base.len(), tree@),
        decreases vtx.len() - t,
    {
        let tx = &block.vtx[t];
        let shielded_spends = match_spends(&tx.spends, nullifiers);
        let mut shielded_outputs: Vec<WalletShieldedOutput> = Vec::new();
        let mut new_witnesses: Vec<IncrementalWitness> = Vec::new();
        let ghost outputs = tx.outputs@;
        let ghost spends = spend_views(shielded_spends@);
        let ghost before_tx = block_leaves(vtx, t as nat);
        let mut i: usize = 0;
        proof {
            assert(output_views(shielded_outputs@) =~= matched_outputs(outputs, keys, spends, 0));
            assert(before_tx + outputs_leaves(outputs, 0) =~= before_tx);
        }
        while i < tx.outputs.len()
            invariant
                t < vtx.len(),
                i <= outputs.len(),
                vtx == block.vtx@,
                *tx == vtx[t as int],
                outputs == tx.outputs@,
                spends == spend_views(shielded_spends@),
                before_tx == block_leaves(vtx, t as nat),
                keys == ivk_views(ivks@),
                total == output_count(vtx, vtx.len()),
                base.len() + total <= MAX_LEAVES,
                witnesses_have_room(first, total),
                tree.wf(),
                tree@ == base + (before_tx + outputs_leaves(outputs, i as nat)),
                witnesses_advanced(
                    existing_witnesses@,
                    first,
                    before_tx + outputs_leaves(outputs, i as nat),
                ),
                is_scan_result(found@, vtx, keys, nullifiers@, t as nat, base.len(), tree@),
                output_views(shielded_outputs@) == matched_outputs(outputs, keys, spends, i as nat),
                new_witnesses@.len() == shielded_outputs@.len(),
                forall|j: int|
                    0 <= j < new_witnesses@.len() ==> #[trigger] witness_is_for(
                        new_witnesses@[j],
                        tree@,
                        base.len() + leaves_through(vtx, t as nat, shielded_outputs@[j].index as nat),
                    ),
            decreases outputs.len() - i,
        {
            let ghost tree_before = tree@;
            let ghost existing_before = existing_witnesses@;
            let ghost found_before = found@;
            let ghost new_before = new_witnesses@;
            let ghost notes_before = shielded_outputs@;
            let ghost so_far = before_tx + outputs_leaves(outputs, i as nat);
            let ghost added = outputs_leaves(seq![outputs[i as int]], 1);
            proof {
                lemma_block_leaves_bounded(vtx, t as nat);
                lemma_outputs_leaves_bounded(outputs, i as nat);
                lemma_output_count_monotonic(vtx, (t + 1) as nat, vtx.len());
                lemma_outputs_leaves_step(outputs, i as nat);
                assert(so_far.len() < total);
                assert forall|a: int| 0 <= a < existing_witnesses@.len() implies (
                #[trigger] existing_witnesses@[a]).wf() && existing_witnesses@[a]@.len() + 1
                    <= MAX_LEAVES by {
                    assert(witness_advanced(existing_witnesses@[a], first[a], so_far));
                    assert(first[a].wf() && first[a]@.len() + total <= MAX_LEAVES);
                }
                assert forall|k: int| 0 <= k < found@.len() implies witnesses_have_room(
                    (#[trigger] found@[k]).1@,
                    1,
                ) by {
                    assert forall|j: int| 0 <= j < found@[k].1@.len() implies (
                    #[trigger] found@[k].1@[j]).wf() && found@[k].1@[j]@.len() + 1
                        <= MAX_LEAVES by {
                        assert(witness_is_for(
                            found@[k].1@[j],
                            tree@,
                            base.len() + leaves_through(
                                vtx,
                                scanned_txs(vtx, keys, nullifiers@, t as nat)[k].0,
                                found@[k].0.shielded_outputs@[j].index as nat,
                            ),
                        ));
                    }
                }
                assert forall|j: int| 0 <= j < new_witnesses@.len() implies (
                #[trigger] new_witnesses@[j]).wf() && new_witnesses@[j]@.len() + 1
                    <= MAX_LEAVES by {
                    assert(witness_is_for(
                        new_witnesses@[j],
                        tree@,
                        base.len() + leaves_through(
                            vtx,
                            t as nat,
                            shielded_outputs@[j].index as nat,
                        ),
                    ));
                }
            }
            let scanned = scan_output(
                i,
                &tx.outputs[i],
                &ivks,
                &shielded_spends,
                tree,
                existing_witnesses,
                &mut found,
                &mut new_witnesses,
            );
            proof {
                assert(tree@ =~= base + (before_tx + outputs_leaves(outputs, (i + 1) as nat))) by {
                    assert((base + so_far) + added =~= base + (so_far + added));
                    assert(so_far + added =~= before_tx + (outputs_leaves(outputs, i as nat)
                        + added));
                }
                lemma_witnesses_advanced_twice(
                    existing_witnesses@,
                    existing_before,
                    first,
                    so_far,
                    added,
                );
                assert(so_far + added =~= before_tx + outputs_leaves(outputs, (i + 1) as nat));
                assert forall|k: int, j: int|
                    0 <= k < found@.len() && 0 <= j < found@[k].1@.len() implies #[trigger] witness_is_for(
                    found@[k].1@[j],
                    tree@,
                    base.len() + leaves_through(
                        vtx,
                        scanned_txs(vtx, keys, nullifiers@, t as nat)[k].0,
                        found@[k].0.shielded_outputs@[j].index as nat,
                    ),
                ) by {
                    assert(found@[k].0 == found_before[k].0);
                    assert(witnesses_advanced(found@[k].1@, found_before[k].1@, added));
                    assert(witness_advanced(found@[k].1@[j], found_before[k].1@[j], added));
                    assert(witness_is_for(
                        found_before[k].1@[j],
                        tree_before,
                        base.len() + leaves_through(
                            vtx,
                            scanned_txs(vtx, keys, nullifiers@, t as nat)[k].0,
                            found_before[k].0.shielded_outputs@[j].index as nat,
                        ),
                    ));
                }
                assert forall|k: int| 0 <= k < found@.len() implies (#[trigger] found@[k]).0@
                    == scanned_txs(vtx, keys, nullifiers@, t as nat)[k].1 && found@[k].1@.len()
                    == found@[k].0.shielded_outputs@.len() by {
                    assert(found@[k].0 == found_before[k].0);
                    assert(witnesses_advanced(found@[k].1@, found_before[k].1@, added));
                }
                assert forall|j: int| 0 <= j < new_witnesses@.len() implies #[trigger] witness_is_for(
                    new_witnesses@[j],
                    tree@,
                    base.len() + leaves_through(vtx, t as nat, shielded_outputs@[j].index as nat),
                ) by {
                    assert(witness_advanced(new_witnesses@[j], new_before[j], added));
                    assert(witness_is_for(
                        new_before[j],
                        tree_before,
                        base.len() + leaves_through(
                            vtx,
                            t as nat,
                            shielded_outputs@[j].index as nat,
                        ),
                    ));
                }
            }
            match scanned {
                Some((note, witness)) => {
                    shielded_outputs.push(note);
                    new_witnesses.push(witness);
                    proof {
                        assert(output_views(shielded_outputs@) =~= output_views(
                            notes_before,
                        ).push(note@));
                        assert(note.index == i);
                        assert(tree@.len() == base.len() + leaves_through(vtx, t as nat, i as nat));
                    }
                },
                None => {},
            }
            i += 1;
        }
        let ghost scanned_before = scanned_txs(vtx, keys, nullifiers@, t as nat);
        if !(shielded_spends.len() == 0 && shielded_outputs.len() == 0) {
            let ghost found_before = found@;
            let ghost notes = shielded_outputs@;
            let wtx = WalletTx {
                txid: TxId(tx.hash),
                num_spends: tx.spends.len(),
                num_outputs: tx.outputs.len(),
                shielded_spends,
                shielded_outputs,
            };
            proof {
                assert(wtx@.shielded_spends =~= spends);
                assert(wtx@.shielded_outputs =~= output_views(notes));
                assert(scanned_tx(vtx[t as int], keys, nullifiers@) == Some(wtx@));
            }
            found.push((wtx, new_witnesses));
            proof {
                let scanned_now = scanned_txs(vtx, keys, nullifiers@, (t + 1) as nat);
                assert(scanned_now == scanned_before.push((t as nat, wtx@)));
                assert forall|k: int, j: int|
                    0 <= k < found@.len() && 0 <= j < found@[k].1@.len() implies #[trigger] witness_is_for(
                    found@[k].1@[j],
                    tree@,
                    base.len() + leaves_through(
                        vtx,
                        scanned_now[k].0,
                        found@[k].0.shielded_outputs@[j].index as nat,
                    ),
                ) by {
                    if k < found_before.len() {
                        assert(found@[k] == found_before[k]);
                        assert(witness_is_for(
                            found_before[k].1@[j],
                            tree@,
                            base.len() + leaves_through(
                                vtx,
                                scanned_before[k].0,
                                found_before[k].0.shielded_outputs@[j].index as nat,
                            ),
                        ));
                    } else {
                        assert(witness_is_for(
                            new_witnesses@[j],
                            tree@,
                            base.len() + leaves_through(vtx, t as nat, notes[j].index as nat),
                        ));
                    }
                }
            }
        } else {
            proof {
                assert(spends.len() == 0);
                assert(output_views(shielded_outputs@).len() == 0);
                assert(scanned_tx(vtx[t as int], keys, nullifiers@) is None);
            }
        }
        proof {
            assert(tree@ =~= base + block_leaves(vtx, (t + 1) as nat));
        }
        t += 1;
    }
    found
}

/// The number of outputs of the first `upto` transactions of a block, by
/// the block as contracts see it.
pub open spec fn view_output_count(block: Seq<CompactTxView>, upto: nat) -> nat
    decreases upto,
{
    if upto == 0 {
        0
    } else {
        view_output_count(block, (upto - 1) as nat) + block[upto - 1].outputs.len()
    }
}

/// The outputs of a block are counted alike in the block and in what
/// contracts see of it.
pub proof fn lemma_view_output_count(vtx: Seq<CompactTx>, upto: nat)
    requires
        upto <= vtx.len(),
    ensures
        view_output_count(tx_views(vtx), upto) == output_count(vtx, upto),
    decreases upto,
{
    if upto > 0 {
        lemma_view_output_count(vtx, (upto - 1) as nat);
    }
}

/// Whether a tree with the given leaves, and the witnesses, have room for
/// the outputs of a block.
pub open spec fn has_room(
    block: Seq<CompactTxView>,
    leaves: Seq<Seq<u8>>,
    witnesses: Seq<IncrementalWitness>,
) -> bool {
    &&& leaves.len() + view_output_count(block, block.len()) <= MAX_LEAVES
    &&& witnesses_have_room(witnesses, view_output_count(block, block.len()))
}

/// Whether `found`, the tree and the witnesses are what the scan of a block
/// makes of the tree and the witnesses before it: what `scan_block` ensures.
pub open spec fn is_scan_of(
    block: CompactBlock,
    found: Seq<(WalletTx, Vec<IncrementalWitness>)>,
    extfvks: Seq<ExtendedFullViewingKey>,
    nullifiers: Seq<(&[u8], usize)>,
    leaves_before: Seq<Seq<u8>>,
    tree: CommitmentTree,
    witnesses_before: Seq<IncrementalWitness>,
    witnesses: Seq<IncrementalWitness>,
) -> bool {
    &&& tree.wf()
    &&& tree@ == leaves_before + block_leaves(block.vtx@, block.vtx@.len())
    &&& witnesses_advanced(
        witnesses,
        witnesses_before,
        block_leaves(block.vtx@, block.vtx@.len()),
    )
    &&& is_scan_result(
        found,
        block.vtx@,
        account_ivks(extfvks),
        nullifiers,
        block.vtx@.len(),
        leaves_before.len(),
        tree@,
    )
}

/// Whether `found`, the tree and the witnesses are what the scan of a block
/// makes of them, for a block that is read as `block`.
pub open spec fn is_scan_of_encoded(
    block: Seq<CompactTxView>,
    found: Seq<(WalletTx, Vec<IncrementalWitness>)>,
    extfvks: Seq<ExtendedFullViewingKey>,
    nullifiers: Seq<(&[u8], usize)>,
    leaves_before: Seq<Seq<u8>>,
    tree: CommitmentTree,
    witnesses_before: Seq<IncrementalWitness>,
    witnesses: Seq<IncrementalWitness>,
) -> bool {
    exists|read: CompactBlock|
        read@ == block && #[trigger] is_scan_of(
            read,
            found,
            extfvks,
            nullifiers,
            leaves_before,
            tree,
            witnesses_before,
            witnesses,
        )
}

/// Scans an encoded block for the wallet's funds: the block is read from
/// its encoding and scanned as `scan_block` scans it.
///
/// Nothing is scanned, and the tree and the witnesses are left as they are,
/// where the bytes are not the encoding of a block, or the tree or a
/// witness has no room for the outputs of the block.
pub fn scan_block_from_bytes(
    block: &[u8],
    extfvks: &[ExtendedFullViewingKey],
    nullifiers: &[(&[u8], usize)],
    tree: &mut CommitmentTree,
    witnesses: &mut [IncrementalWitness],
) -> (scanned: Option<Vec<(WalletTx, Vec<IncrementalWitness>)>>)
    requires
        old(tree).wf(),
        forall|i: int| 0 <= i < old(witnesses)@.len() ==> (#[trigger] old(witnesses)@[i]).wf(),
    ensures
        scanned is Some <==> parse_block(block@) is Some && has_room(
            parse_block(block@)->0,
            old(tree)@,
            old(witnesses)@,
        ),
        match scanned {
            Some(found) => is_scan_of_encoded(
                parse_block(block@)->0,
                found@,
                extfvks@,
                nullifiers@,
                old(tree)@,
                *final(tree),
                old(witnesses)@,
                final(witnesses)@,
            ),
            None => final(tree).wf() && final(tree)@ == old(tree)@ && final(witnesses)@ == old(
                witnesses,
            )@,
        },
{
    let read = match crate::proto::codec::parse_from_bytes(block) {
        Some(read) => read,
        None => {
            return None;
        },
    };
    proof {
        lemma_view_output_count(read.vtx@, read.vtx@.len());
    }
    if !has_room_for(&read, tree, witnesses) {
        return None;
    }
    let found = scan_block(&read, extfvks, nullifiers, tree, witnesses);
    proof {
        assert(is_scan_of(
            read,
            found@,
            extfvks@,
            nullifiers@,
            old(tree)@,
            *tree,
            old(witnesses)@,
            witnesses@,
        ));
        assert(is_scan_of_encoded(
            read@,
            found@,
            extfvks@,
            nullifiers@,
            old(tree)@,
            *tree,
            old(witnesses)@,
            witnesses@,
        ));
    }
    Some(found)
}

} // verus!
