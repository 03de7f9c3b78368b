//! What follows from the contract of a scan: the general properties of
//! scanning, each proved from what `scan_block` ensures.

use vstd::prelude::*;
use crate::merkle_tree::model::{auth_path, fold_path, merkle_root};
use crate::merkle_tree::witness::lemma_witness_authenticates;
use crate::merkle_tree::{CommitmentTree, IncrementalWitness};
use crate::proto::compact_formats::{CompactOutput, CompactSpend, CompactTx};
use crate::wallet::{WalletShieldedSpendView, WalletTx};
use crate::welding_rig::{
    block_leaves, first_decrypting, is_scan_result, leaves_through, matched_outputs,
    matched_spends, nullifier_account, output_is_well_formed, outputs_leaves, scanned_output,
    scanned_tx, scanned_txs, spent_from, witness_advanced, witness_is_for, witnesses_advanced,
};

verus! {

/// Witnesses that were in step with the tree before a scan are in step with
/// it after: each has the leaves of the tree, is for the leaf it was for, and
/// its path leads from that leaf to the root of the tree.
pub proof fn lemma_witnesses_follow_the_scan(
    tree: CommitmentTree,
    tree_before: Seq<Seq<u8>>,
    added: Seq<Seq<u8>>,
    before: Seq<IncrementalWitness>,
    after: Seq<IncrementalWitness>,
)
    requires
        tree.wf(),
        tree@ == tree_before + added,
        witnesses_advanced(after, before, added),
        forall|i: int|
            0 <= i < before.len() ==> (#[trigger] before[i])@ == tree_before && before[i].witnessed()
                > 0,
    ensures
        forall|i: int|
            0 <= i < after.len() ==> {
                let witnessed = (#[trigger] after[i]).witnessed();
                &&& after[i]@ == tree@
                &&& witnessed == before[i].witnessed()
                &&& 0 < witnessed <= tree@.len()
                &&& fold_path(
                    tree@[witnessed - 1],
                    auth_path(after[i]@, (witnessed - 1) as nat),
                ) == merkle_root(tree@)
            },
{
    assert forall|i: int| 0 <= i < after.len() implies {
        let witnessed = (#[trigger] after[i]).witnessed();
        &&& after[i]@ == tree@
        &&& witnessed == before[i].witnessed()
        &&& 0 < witnessed <= tree@.len()
        &&& fold_path(tree@[witnessed - 1], auth_path(after[i]@, (witnessed - 1) as nat))
            == merkle_root(tree@)
    } by {
        assert(witness_advanced(after[i], before[i], added));
        lemma_witness_authenticates(tree, after[i]);
    }
}

/// Every witness that a scan hands out has followed the tree to the end of
/// the block, also one made for an earlier transaction of the block: it has
/// the leaves of the tree, and its path leads from its leaf to the root of
/// the tree.
pub proof fn lemma_found_witnesses_authenticate(
    tree: CommitmentTree,
    found: Seq<(WalletTx, Vec<IncrementalWitness>)>,
    vtx: Seq<CompactTx>,
    ivks: Seq<Option<Seq<u8>>>,
    nullifiers: Seq<(&[u8], usize)>,
    upto: nat,
    base: nat,
)
    requires
        tree.wf(),
        is_scan_result(found, vtx, ivks, nullifiers, upto, base, tree@),
    ensures
        forall|k: int, j: int|
            0 <= k < found.len() && 0 <= j < found[k].1@.len() ==> {
                let witness = #[trigger] found[k].1@[j];
                &&& witness@ == tree@
                &&& 0 < witness.witnessed() <= tree@.len()
                &&& witness.witnessed() == base + leaves_through(
                    vtx,
                    scanned_txs(vtx, ivks, nullifiers, upto)[k].0,
                    found[k].0.shielded_outputs@[j].index as nat,
                )
                &&& fold_path(
                    tree@[witness.witnessed() - 1],
                    auth_path(witness@, (witness.witnessed() - 1) as nat),
                ) == merkle_root(tree@)
            },
{
    let scanned = scanned_txs(vtx, ivks, nullifiers, upto);
    assert forall|k: int, j: int| 0 <= k < found.len() && 0 <= j < found[k].1@.len() implies {
        let witness = #[trigger] found[k].1@[j];
        &&& witness@ == tree@
        &&& 0 < witness.witnessed() <= tree@.len()
        &&& witness.witnessed() == base + leaves_through(
            vtx,
            scanned[k].0,
            found[k].0.shielded_outputs@[j].index as nat,
        )
        &&& fold_path(
            tree@[witness.witnessed() - 1],
            auth_path(witness@, (witness.witnessed() - 1) as nat),
        ) == merkle_root(tree@)
    } by {
        let witness = found[k].1@[j];
        let index = found[k].0.shielded_outputs@[j].index as nat;
        assert(witness_is_for(witness, tree@, base + leaves_through(vtx, scanned[k].0, index)));
        lemma_leaves_through_positive(vtx, scanned[k].0, index, found, ivks, nullifiers, upto, k, j);
        lemma_witness_authenticates(tree, witness);
    }
}

/// A matched output has a leaf of its own: the leaves through it are one at
/// least.
proof fn lemma_leaves_through_positive(
    vtx: Seq<CompactTx>,
    tx: nat,
    index: nat,
    found: Seq<(WalletTx, Vec<IncrementalWitness>)>,
    ivks: Seq<Option<Seq<u8>>>,
    nullifiers: Seq<(&[u8], usize)>,
    upto: nat,
    k: int,
    j: int,
)
    requires
        0 <= k < found.len(),
        0 <= j < found[k].1@.len(),
        found.len() == scanned_txs(vtx, ivks, nullifiers, upto).len(),
        found[k].0@ == scanned_txs(vtx, ivks, nullifiers, upto)[k].1,
        found[k].1@.len() == found[k].0.shielded_outputs@.len(),
        tx == scanned_txs(vtx, ivks, nullifiers, upto)[k].0,
        index == found[k].0.shielded_outputs@[j].index,
    ensures
        leaves_through(vtx, tx, index) > 0,
{
    lemma_scanned_txs_are_scans(vtx, ivks, nullifiers, upto, k);
    let spends = matched_spends(vtx[tx as int].spends@, nullifiers, vtx[tx as int].spends@.len());
    let outputs = vtx[tx as int].outputs@;
    assert(found[k].0@.shielded_outputs[j] == found[k].0.shielded_outputs@[j]@);
    assert(outputs.len() == vtx[tx as int].outputs.len());
    lemma_matched_outputs_are_scans(outputs, ivks, spends, outputs.len(), j);
}

/// Each transaction that a scan finds is the scan of the transaction of the
/// block at its place.
pub proof fn lemma_scanned_txs_are_scans(
    vtx: Seq<CompactTx>,
    ivks: Seq<Option<Seq<u8>>>,
    nullifiers: Seq<(&[u8], usize)>,
    upto: nat,
    k: int,
)
    requires
        0 <= k < scanned_txs(vtx, ivks, nullifiers, upto).len(),
    ensures
        scanned_txs(vtx, ivks, nullifiers, upto)[k].0 < upto,
        scanned_tx(vtx[scanned_txs(vtx, ivks, nullifiers, upto)[k].0 as int], ivks, nullifiers)
            == Some(scanned_txs(vtx, ivks, nullifiers, upto)[k].1),
    decreases upto,
{
    if upto > 0 {
        let before = scanned_txs(vtx, ivks, nullifiers, (upto - 1) as nat);
        if k < before.len() {
            lemma_scanned_txs_are_scans(vtx, ivks, nullifiers, (upto - 1) as nat, k);
        }
    }
}

/// Each output that a scan finds is the scan of the output of the
/// transaction at its index, which is well formed and so has a leaf.
pub proof fn lemma_matched_outputs_are_scans(
    outputs: Seq<CompactOutput>,
    ivks: Seq<Option<Seq<u8>>>,
    spends: Seq<WalletShieldedSpendView>,
    upto: nat,
    j: int,
)
    requires
        0 <= j < matched_outputs(outputs, ivks, spends, upto).len(),
        upto <= usize::MAX,
    ensures
        ({
            let index = matched_outputs(outputs, ivks, spends, upto)[j].index as nat;
            &&& index < upto
            &&& scanned_output(index, outputs[index as int], ivks, spends) == Some(
                matched_outputs(outputs, ivks, spends, upto)[j],
            )
            &&& output_is_well_formed(outputs[index as int])
            &&& outputs_leaves(outputs, index + 1).len() > 0
        }),
    decreases upto,
{
    if upto > 0 {
        let before = matched_outputs(outputs, ivks, spends, (upto - 1) as nat);
        if j < before.len() {
            lemma_matched_outputs_are_scans(outputs, ivks, spends, (upto - 1) as nat, j);
        }
    }
}

/// The leaves of the first outputs of a transaction are the first leaves of
/// the transaction.
pub proof fn lemma_outputs_leaves_prefix(outputs: Seq<CompactOutput>, fewer: nat, more: nat)
    requires
        fewer <= more,
    ensures
        outputs_leaves(outputs, fewer).len() <= outputs_leaves(outputs, more).len(),
        outputs_leaves(outputs, more).take(outputs_leaves(outputs, fewer).len() as int)
            == outputs_leaves(outputs, fewer),
    decreases more,
{
    let short = outputs_leaves(outputs, fewer);
    if fewer < more {
        lemma_outputs_leaves_prefix(outputs, fewer, (more - 1) as nat);
        let middle = outputs_leaves(outputs, (more - 1) as nat);
        let long = outputs_leaves(outputs, more);
        assert(long.take(short.len() as int) =~= middle.take(short.len() as int));
    } else {
        assert(short.take(short.len() as int) =~= short);
    }
}

/// The leaves of the first transactions of a block are the first leaves of
/// the block.
pub proof fn lemma_block_leaves_prefix(vtx: Seq<CompactTx>, fewer: nat, more: nat)
    requires
        fewer <= more,
    ensures
        block_leaves(vtx, fewer).len() <= block_leaves(vtx, more).len(),
        block_leaves(vtx, more).take(block_leaves(vtx, fewer).len() as int) == block_leaves(
            vtx,
            fewer,
        ),
    decreases more,
{
    let short = block_leaves(vtx, fewer);
    if fewer < more {
        lemma_block_leaves_prefix(vtx, fewer, (more - 1) as nat);
        let middle = block_leaves(vtx, (more - 1) as nat);
        let long = block_leaves(vtx, more);
        assert(long.take(short.len() as int) =~= middle.take(short.len() as int));
    } else {
        assert(short.take(short.len() as int) =~= short);
    }
}

/// The leaf that a well-formed output of a block adds stands in the tree
/// where the leaves through that output end, and is the commitment of the
/// output: a witness made for the output is for that leaf.
pub proof fn lemma_leaf_of_output(
    tree_before: Seq<Seq<u8>>,
    vtx: Seq<CompactTx>,
    tx: nat,
    index: nat,
)
    requires
        tx < vtx.len(),
        index < vtx[tx as int].outputs@.len(),
        output_is_well_formed(vtx[tx as int].outputs@[index as int]),
    ensures
        0 < leaves_through(vtx, tx, index) <= block_leaves(vtx, vtx.len()).len(),
        (tree_before + block_leaves(vtx, vtx.len()))[tree_before.len() + leaves_through(
            vtx,
            tx,
            index,
        ) - 1] == vtx[tx as int].outputs@[index as int].cmu@.take(32),
{
    let outputs = vtx[tx as int].outputs@;
    let before_tx = block_leaves(vtx, tx);
    let through = outputs_leaves(outputs, index + 1);
    let of_tx = outputs_leaves(outputs, outputs.len());
    let with_tx = block_leaves(vtx, tx + 1);
    let whole = block_leaves(vtx, vtx.len());
    lemma_outputs_leaves_prefix(outputs, index + 1, outputs.len());
    lemma_block_leaves_prefix(vtx, tx + 1, vtx.len());
    assert(with_tx == before_tx + of_tx);
    let at = before_tx.len() + through.len() - 1;
    assert(through.last() == outputs[index as int].cmu@.take(32));
    assert(of_tx.take(through.len() as int)[through.len() - 1] == of_tx[through.len() - 1]);
    assert(with_tx[at] == of_tx[through.len() - 1]);
    assert(whole.take(with_tx.len() as int)[at] == whole[at]);
}

/// The account that the table names for a nullifier is that of the first
/// entry with the nullifier.
pub proof fn lemma_first_entry_names_the_account(
    nullifiers: Seq<(&[u8], usize)>,
    nf: Seq<u8>,
    entry: int,
)
    requires
        0 <= entry < nullifiers.len(),
        nullifiers[entry].0@ == nf,
        forall|earlier: int| 0 <= earlier < entry ==> (#[trigger] nullifiers[earlier]).0@ != nf,
    ensures
        nullifier_account(nullifiers, nf) == Some(nullifiers[entry].1),
    decreases entry,
{
    if entry > 0 {
        let rest = nullifiers.drop_first();
        assert(rest[entry - 1] == nullifiers[entry]);
        assert forall|earlier: int| 0 <= earlier < entry - 1 implies (#[trigger] rest[earlier]).0@
            != nf by {
            assert(rest[earlier] == nullifiers[earlier + 1]);
        }
        lemma_first_entry_names_the_account(rest, nf, entry - 1);
    }
}

/// An account spends in a transaction exactly where the nullifier of one of
/// the transaction's spends is that of a note of the account.
pub proof fn lemma_spent_iff_nullifier_known(
    spends: Seq<CompactSpend>,
    nullifiers: Seq<(&[u8], usize)>,
    upto: nat,
    account: usize,
)
    ensures
        spent_from(matched_spends(spends, nullifiers, upto), account) <==> exists|s: int|
            0 <= s < upto && nullifier_account(nullifiers, (#[trigger] spends[s]).nf@) == Some(
                account,
            ),
    decreases upto,
{
    let matched = matched_spends(spends, nullifiers, upto);
    if upto > 0 {
        let before = matched_spends(spends, nullifiers, (upto - 1) as nat);
        lemma_spent_iff_nullifier_known(spends, nullifiers, (upto - 1) as nat, account);
        let last = nullifier_account(nullifiers, spends[upto - 1].nf@);
        if spent_from(matched, account) {
            let i = choose|i: int| 0 <= i < matched.len() && (#[trigger] matched[i]).account == account;
            if i < before.len() {
                assert(before[i] == matched[i]);
                assert(spent_from(before, account));
                let s = choose|s: int|
                    0 <= s < upto - 1 && nullifier_account(nullifiers, (#[trigger] spends[s]).nf@)
                        == Some(account);
                assert(0 <= s < upto && nullifier_account(nullifiers, spends[s].nf@) == Some(
                    account,
                ));
            } else {
                assert(last == Some(account));
                assert(nullifier_account(nullifiers, spends[upto - 1].nf@) == Some(account));
            }
        }
        if exists|s: int|
            0 <= s < upto && nullifier_account(nullifiers, (#[trigger] spends[s]).nf@) == Some(
                account,
            ) {
            let s = choose|s: int|
                0 <= s < upto && nullifier_account(nullifiers, (#[trigger] spends[s]).nf@) == Some(
                    account,
                );
            if s < upto - 1 {
                assert(spent_from(before, account));
                let i = choose|i: int| 0 <= i < before.len() && (#[trigger] before[i]).account == account;
                assert(matched[i] == before[i]);
            } else {
                assert(matched.last().account == account);
            }
        }
    }
}

/// Against an empty table of nullifiers no spend is matched.
pub proof fn lemma_empty_table_matches_no_spend(
    spends: Seq<CompactSpend>,
    nullifiers: Seq<(&[u8], usize)>,
    upto: nat,
)
    requires
        nullifiers.len() == 0,
    ensures
        matched_spends(spends, nullifiers, upto) == Seq::<WalletShieldedSpendView>::empty(),
    decreases upto,
{
    if upto > 0 {
        lemma_empty_table_matches_no_spend(spends, nullifiers, (upto - 1) as nat);
    }
}

/// After the scan of a whole block, the witness handed out for a matched
/// output is for the leaf that the output added: its position is the number
/// of leaves of the tree before the block and of the block before the
/// output, and its path leads from the commitment of the output to the root
/// of the tree.
pub proof fn lemma_found_witness_is_for_its_output(
    tree: CommitmentTree,
    tree_before: Seq<Seq<u8>>,
    found: Seq<(WalletTx, Vec<IncrementalWitness>)>,
    vtx: Seq<CompactTx>,
    ivks: Seq<Option<Seq<u8>>>,
    nullifiers: Seq<(&[u8], usize)>,
    k: int,
    j: int,
)
    requires
        tree.wf(),
        tree@ == tree_before + block_leaves(vtx, vtx.len()),
        is_scan_result(found, vtx, ivks, nullifiers, vtx.len(), tree_before.len(), tree@),
        0 <= k < found.len(),
        0 <= j < found[k].1@.len(),
    ensures
        ({
            let tx = scanned_txs(vtx, ivks, nullifiers, vtx.len())[k].0;
            let index = found[k].0.shielded_outputs@[j].index as nat;
            let witness = found[k].1@[j];
            &&& tx < vtx.len()
            &&& index < vtx[tx as int].outputs@.len()
            &&& witness.witnessed() == tree_before.len() + leaves_through(vtx, tx, index)
            &&& 0 < witness.witnessed() <= tree@.len()
            &&& fold_path(
                vtx[tx as int].outputs@[index as int].cmu@.take(32),
                auth_path(tree@, (witness.witnessed() - 1) as nat),
            ) == merkle_root(tree@)
        }),
{
    let scanned = scanned_txs(vtx, ivks, nullifiers, vtx.len());
    let tx = scanned[k].0;
    let index = found[k].0.shielded_outputs@[j].index as nat;
    let witness = found[k].1@[j];
    lemma_found_witnesses_authenticate(tree, found, vtx, ivks, nullifiers, vtx.len(), tree_before.len());
    assert(witness == found[k].1@[j]);
    lemma_scanned_txs_are_scans(vtx, ivks, nullifiers, vtx.len(), k);
    let spends = matched_spends(vtx[tx as int].spends@, nullifiers, vtx[tx as int].spends@.len());
    let outputs = vtx[tx as int].outputs@;
    assert(found[k].0@.shielded_outputs[j] == found[k].0.shielded_outputs@[j]@);
    assert(outputs.len() == vtx[tx as int].outputs.len());
    lemma_matched_outputs_are_scans(outputs, ivks, spends, outputs.len(), j);
    lemma_leaf_of_output(tree_before, vtx, tx, index);
}

/// A block of one transaction with one well-formed output, which a key of
/// the wallet decrypts: the scan finds that transaction, with that output
/// alone, for the first account whose key decrypts it, marked as change
/// exactly where that account spends in the transaction; and the tree gains
/// the commitment of the output as its one new leaf.
pub proof fn lemma_one_output_found(
    vtx: Seq<CompactTx>,
    ivks: Seq<Option<Seq<u8>>>,
    nullifiers: Seq<(&[u8], usize)>,
    account: nat,
)
    requires
        vtx.len() == 1,
        vtx[0].outputs@.len() == 1,
        output_is_well_formed(vtx[0].outputs@[0]),
        first_decrypting(ivks, vtx[0].outputs@[0], 0) == Some(account),
    ensures
        block_leaves(vtx, 1) == seq![vtx[0].outputs@[0].cmu@.take(32)],
        leaves_through(vtx, 0, 0) == 1,
        scanned_txs(vtx, ivks, nullifiers, 1).len() == 1,
        ({
            let found = scanned_txs(vtx, ivks, nullifiers, 1)[0];
            let spends = matched_spends(vtx[0].spends@, nullifiers, vtx[0].spends@.len());
            &&& found.0 == 0
            &&& found.1.txid == vtx[0].hash@
            &&& found.1.shielded_spends == spends
            &&& found.1.shielded_outputs.len() == 1
            &&& found.1.shielded_outputs[0].index == 0
            &&& found.1.shielded_outputs[0].account == account as usize
            &&& found.1.shielded_outputs[0].is_change == spent_from(spends, account as usize)
        }),
{
    let outputs = vtx[0].outputs@;
    let spends = matched_spends(vtx[0].spends@, nullifiers, vtx[0].spends@.len());
    assert(outputs_leaves(outputs, 0) =~= Seq::<Seq<u8>>::empty());
    assert(outputs_leaves(outputs, 1) =~= seq![outputs[0].cmu@.take(32)]);
    assert(block_leaves(vtx, 0) =~= Seq::<Seq<u8>>::empty());
    assert(block_leaves(vtx, 1) =~= seq![outputs[0].cmu@.take(32)]);
    assert(matched_outputs(outputs, ivks, spends, 0) =~= Seq::empty());
    let found = scanned_output(0, outputs[0], ivks, spends)->0;
    assert(matched_outputs(outputs, ivks, spends, 1) =~= seq![found]);
    assert(scanned_txs(vtx, ivks, nullifiers, 0) =~= Seq::empty());
    assert(scanned_tx(vtx[0], ivks, nullifiers) is Some);
}

/// A block of one transaction with one well-formed output that no key of
/// the wallet decrypts, and no spend of the wallet: the scan finds nothing,
/// and the tree gains the commitment of the output as its one new leaf all
/// the same.
pub proof fn lemma_no_key_nothing_found(
    vtx: Seq<CompactTx>,
    ivks: Seq<Option<Seq<u8>>>,
    nullifiers: Seq<(&[u8], usize)>,
)
    requires
        vtx.len() == 1,
        vtx[0].outputs@.len() == 1,
        output_is_well_formed(vtx[0].outputs@[0]),
        first_decrypting(ivks, vtx[0].outputs@[0], 0) is None,
        matched_spends(vtx[0].spends@, nullifiers, vtx[0].spends@.len()).len() == 0,
    ensures
        block_leaves(vtx, 1) == seq![vtx[0].outputs@[0].cmu@.take(32)],
        scanned_txs(vtx, ivks, nullifiers, 1).len() == 0,
{
    let outputs = vtx[0].outputs@;
    let spends = matched_spends(vtx[0].spends@, nullifiers, vtx[0].spends@.len());
    assert(outputs_leaves(outputs, 0) =~= Seq::<Seq<u8>>::empty());
    assert(outputs_leaves(outputs, 1) =~= seq![outputs[0].cmu@.take(32)]);
    assert(block_leaves(vtx, 0) =~= Seq::<Seq<u8>>::empty());
    assert(block_leaves(vtx, 1) =~= seq![outputs[0].cmu@.take(32)]);
    assert(matched_outputs(outputs, ivks, spends, 0) =~= Seq::empty());
    assert(matched_outputs(outputs, ivks, spends, 1) =~= Seq::empty());
    assert(scanned_txs(vtx, ivks, nullifiers, 0) =~= Seq::empty());
    assert(scanned_tx(vtx[0], ivks, nullifiers) is None);
}

} // verus!
