//! The wire format of compact blocks: the transactions behind their number;
//! of each the identifier, the spends behind their number and the outputs
//! behind theirs; every byte string behind its length. The block without
//! transactions is written as no bytes at all. A block has one encoding, and
//! only that is accepted.

use vstd::prelude::*;
use crate::pczt::codec::{
    codec_complete, codec_sound, dec_items, enc_items, lemma_dec_items_complete,
    lemma_dec_items_fails, lemma_dec_items_sound, lemma_parts, lemma_split,
};
use crate::pczt::wire::{
    dec_bytes, dec_u64, enc_bytes, enc_u64, lemma_dec_bytes_complete, lemma_dec_bytes_sound,
    lemma_dec_u64_complete, lemma_dec_u64_sound, read_bytes, read_u64, write_bytes, write_raw,
    write_u64,
};
use crate::proto::compact_formats::{
    output_views, spend_views, tx_views, CompactBlock, CompactOutput, CompactOutputView,
    CompactSpend, CompactTx, CompactTxView,
};

verus! {

/// How the nullifier of a spend is encoded.
pub open spec fn spend_enc() -> spec_fn(Seq<u8>) -> Seq<u8> {
    |nf: Seq<u8>| enc_bytes(nf)
}

/// How the nullifier of a spend is read.
pub open spec fn spend_dec() -> spec_fn(Seq<u8>, int) -> Option<(Seq<u8>, int)> {
    |input: Seq<u8>, pos: int| dec_bytes(input, pos)
}

/// Which nullifiers can be encoded.
pub open spec fn spend_fitting() -> spec_fn(Seq<u8>) -> bool {
    |nf: Seq<u8>| nf.len() <= u64::MAX
}

/// The encoding of an output.
pub open spec fn enc_output(output: CompactOutputView) -> Seq<u8> {
    enc_bytes(output.cmu) + enc_bytes(output.epk) + enc_bytes(output.ciphertext)
}

/// The output that stands at `pos`, and where it ends.
pub open spec fn dec_output(input: Seq<u8>, pos: int) -> Option<(CompactOutputView, int)> {
    match dec_bytes(input, pos) {
        Some((cmu, after_cmu)) => match dec_bytes(input, after_cmu) {
            Some((epk, after_epk)) => match dec_bytes(input, after_epk) {
                Some((ciphertext, end)) => Some((CompactOutputView { cmu, epk, ciphertext }, end)),
                None => None,
            },
            None => None,
        },
        None => None,
    }
}

/// Whether the byte strings of an output are short enough for their lengths
/// to be written down.
pub open spec fn output_fits(output: CompactOutputView) -> bool {
    output.cmu.len() <= u64::MAX && output.epk.len() <= u64::MAX && output.ciphertext.len()
        <= u64::MAX
}

/// How an output is encoded.
pub open spec fn output_enc() -> spec_fn(CompactOutputView) -> Seq<u8> {
    |output: CompactOutputView| enc_output(output)
}

/// How an output is read.
pub open spec fn output_dec() -> spec_fn(Seq<u8>, int) -> Option<(CompactOutputView, int)> {
    |input: Seq<u8>, pos: int| dec_output(input, pos)
}

/// Which outputs can be encoded.
pub open spec fn output_fitting() -> spec_fn(CompactOutputView) -> bool {
    |output: CompactOutputView| output_fits(output)
}

/// The encoding of a transaction: the 32 bytes of its identifier, its spends
/// behind their number, and its outputs behind theirs.
pub open spec fn enc_tx(tx: CompactTxView) -> Seq<u8> {
    tx.hash + (enc_u64(tx.spends.len() as u64) + enc_items(tx.spends, spend_enc())) + (enc_u64(
        tx.outputs.len() as u64,
    ) + enc_items(tx.outputs, output_enc()))
}

/// The transaction that stands at `pos`, and where it ends.
pub open spec fn dec_tx(input: Seq<u8>, pos: int) -> Option<(CompactTxView, int)> {
    if 0 <= pos && pos + 32 <= input.len() {
        match dec_u64(input, pos + 32) {
            Some((spend_count, spends_at)) => match dec_items(
                input,
                spends_at,
                spend_count as nat,
                spend_dec(),
            ) {
                Some((spends, after_spends)) => match dec_u64(input, after_spends) {
                    Some((output_count, outputs_at)) => match dec_items(
                        input,
                        outputs_at,
                        output_count as nat,
                        output_dec(),
                    ) {
                        Some((outputs, end)) => Some(
                            (
                                CompactTxView {
                                    hash: input.subrange(pos, pos + 32),
                                    spends,
                                    outputs,
                                },
                                end,
                            ),
                        ),
                        None => None,
                    },
                    None => None,
                },
                None => None,
            },
            None => None,
        }
    } else {
        None
    }
}

/// Whether a transaction can be encoded: its identifier has 32 bytes, and
/// its lists and byte strings are short enough for their lengths to be
/// written down.
pub open spec fn tx_fits(tx: CompactTxView) -> bool {
    &&& tx.hash.len() == 32
    &&& tx.spends.len() <= u64::MAX
    &&& tx.outputs.len() <= u64::MAX
    &&& forall|i: int| 0 <= i < tx.spends.len() ==> (#[trigger] tx.spends[i]).len() <= u64::MAX
    &&& forall|i: int| 0 <= i < tx.outputs.len() ==> output_fits(#[trigger] tx.outputs[i])
}

/// How a transaction is encoded.
pub open spec fn tx_enc() -> spec_fn(CompactTxView) -> Seq<u8> {
    |tx: CompactTxView| enc_tx(tx)
}

/// How a transaction is read.
pub open spec fn tx_dec() -> spec_fn(Seq<u8>, int) -> Option<(CompactTxView, int)> {
    |input: Seq<u8>, pos: int| dec_tx(input, pos)
}

/// Which transactions can be encoded.
pub open spec fn tx_fitting() -> spec_fn(CompactTxView) -> bool {
    |tx: CompactTxView| tx_fits(tx)
}

/// The encoding of a block: no bytes at all for the block without
/// transactions, and the transactions behind their number for every other.
pub open spec fn enc_block(block: Seq<CompactTxView>) -> Seq<u8> {
    if block.len() == 0 {
        Seq::empty()
    } else {
        enc_u64(block.len() as u64) + enc_items(block, tx_enc())
    }
}

/// The block that a byte string encodes: the block without transactions,
/// for the empty byte string; else the transactions that stand behind their
/// number, at least one, and end at its end.
pub open spec fn parse_block(input: Seq<u8>) -> Option<Seq<CompactTxView>> {
    if input.len() == 0 {
        Some(Seq::empty())
    } else {
        match dec_u64(input, 0) {
            Some((count, start)) => match dec_items(input, start, count as nat, tx_dec()) {
                Some((block, end)) => if end == input.len() && count > 0 {
                    Some(block)
                } else {
                    None
                },
                None => None,
            },
            None => None,
        }
    }
}

/// Whether a block can be encoded.
pub open spec fn block_fits(block: Seq<CompactTxView>) -> bool {
    block.len() <= u64::MAX && forall|i: int| 0 <= i < block.len() ==> tx_fits(#[trigger] block[i])
}

/// The codecs of nullifiers and outputs are sound and complete.
pub proof fn lemma_part_codecs()
    ensures
        codec_sound(spend_enc(), spend_dec()),
        codec_complete(spend_enc(), spend_dec(), spend_fitting()),
        codec_sound(output_enc(), output_dec()),
        codec_complete(output_enc(), output_dec(), output_fitting()),
{
    assert forall|input: Seq<u8>, pos: int|
        0 <= pos && (#[trigger] spend_dec()(input, pos)) is Some implies {
        let found = spend_dec()(input, pos)->0;
        pos <= found.1 <= input.len() && input.subrange(pos, found.1) == spend_enc()(found.0)
    } by {
        lemma_dec_bytes_sound(input, pos);
    }
    assert forall|input: Seq<u8>, pos: int, value: Seq<u8>|
        0 <= pos && spend_fitting()(value) && pos + spend_enc()(value).len() <= input.len()
            && input.subrange(pos, pos + spend_enc()(value).len()) == #[trigger] spend_enc()(
            value,
        ) implies #[trigger] spend_dec()(input, pos) == Some(
        (value, pos + spend_enc()(value).len()),
    ) by {
        lemma_dec_bytes_complete(input, pos, value);
    }
    assert forall|input: Seq<u8>, pos: int|
        0 <= pos && (#[trigger] output_dec()(input, pos)) is Some implies {
        let found = output_dec()(input, pos)->0;
        pos <= found.1 <= input.len() && input.subrange(pos, found.1) == output_enc()(found.0)
    } by {
        lemma_dec_bytes_sound(input, pos);
        let a = (dec_bytes(input, pos)->0).1;
        lemma_dec_bytes_sound(input, a);
        let b = (dec_bytes(input, a)->0).1;
        lemma_dec_bytes_sound(input, b);
        let c = (dec_bytes(input, b)->0).1;
        lemma_split(input, pos, a, b);
        lemma_split(input, pos, b, c);
    }
    assert forall|input: Seq<u8>, pos: int, value: CompactOutputView|
        0 <= pos && output_fitting()(value) && pos + output_enc()(value).len() <= input.len()
            && input.subrange(pos, pos + output_enc()(value).len()) == #[trigger] output_enc()(
            value,
        ) implies #[trigger] output_dec()(input, pos) == Some(
        (value, pos + output_enc()(value).len()),
    ) by {
        let e1 = enc_bytes(value.cmu);
        let e2 = enc_bytes(value.epk);
        let e3 = enc_bytes(value.ciphertext);
        lemma_parts(input, pos, e1 + e2, e3);
        lemma_parts(input, pos, e1, e2);
        lemma_dec_bytes_complete(input, pos, value.cmu);
        lemma_dec_bytes_complete(input, pos + e1.len(), value.epk);
        lemma_dec_bytes_complete(input, pos + e1.len() + e2.len(), value.ciphertext);
    }
}

/// What is read as a transaction is what stands there encoded.
pub proof fn lemma_dec_tx_sound(input: Seq<u8>, pos: int)
    requires
        0 <= pos,
        dec_tx(input, pos) is Some,
    ensures
        pos <= (dec_tx(input, pos)->0).1 <= input.len(),
        input.subrange(pos, (dec_tx(input, pos)->0).1) == enc_tx((dec_tx(input, pos)->0).0),
{
    lemma_part_codecs();
    let a = pos + 32;
    lemma_dec_u64_sound(input, a);
    let spend_count = (dec_u64(input, a)->0).0;
    lemma_dec_items_sound(input, a + 8, spend_count as nat, spend_enc(), spend_dec());
    let b = (dec_items(input, a + 8, spend_count as nat, spend_dec())->0).1;
    lemma_split(input, a, a + 8, b);
    lemma_dec_u64_sound(input, b);
    let output_count = (dec_u64(input, b)->0).0;
    lemma_dec_items_sound(input, b + 8, output_count as nat, output_enc(), output_dec());
    let c = (dec_items(input, b + 8, output_count as nat, output_dec())->0).1;
    lemma_split(input, b, b + 8, c);
    lemma_split(input, pos, a, b);
    lemma_split(input, pos, b, c);
}

/// A transaction that stands encoded at a place is what is read there.
pub proof fn lemma_dec_tx_complete(input: Seq<u8>, pos: int, tx: CompactTxView)
    requires
        0 <= pos,
        tx_fits(tx),
        pos + enc_tx(tx).len() <= input.len(),
        input.subrange(pos, pos + enc_tx(tx).len()) == enc_tx(tx),
    ensures
        dec_tx(input, pos) == Some((tx, pos + enc_tx(tx).len())),
{
    vstd::bytes::lemma_auto_spec_u64_to_from_le_bytes();
    lemma_part_codecs();
    let e1 = tx.hash;
    let h2 = enc_u64(tx.spends.len() as u64);
    let t2 = enc_items(tx.spends, spend_enc());
    let h3 = enc_u64(tx.outputs.len() as u64);
    let t3 = enc_items(tx.outputs, output_enc());
    lemma_parts(input, pos, e1 + (h2 + t2), h3 + t3);
    lemma_parts(input, pos, e1, h2 + t2);
    let a = pos + 32;
    lemma_parts(input, a, h2, t2);
    lemma_dec_u64_complete(input, a, tx.spends.len() as u64);
    assert forall|i: int| 0 <= i < tx.spends.len() implies spend_fitting()(#[trigger] tx.spends[i]) by {
        assert(tx.spends[i].len() <= u64::MAX);
    }
    lemma_dec_items_complete(input, a + 8, tx.spends, spend_enc(), spend_dec(), spend_fitting());
    let b = a + 8 + t2.len();
    lemma_parts(input, b, h3, t3);
    lemma_dec_u64_complete(input, b, tx.outputs.len() as u64);
    assert forall|i: int| 0 <= i < tx.outputs.len() implies output_fitting()(
        #[trigger] tx.outputs[i],
    ) by {
        assert(output_fits(tx.outputs[i]));
    }
    lemma_dec_items_complete(
        input,
        b + 8,
        tx.outputs,
        output_enc(),
        output_dec(),
        output_fitting(),
    );
}

/// The codec of transactions is sound and complete.
pub proof fn lemma_tx_codec()
    ensures
        codec_sound(tx_enc(), tx_dec()),
        codec_complete(tx_enc(), tx_dec(), tx_fitting()),
{
    assert forall|input: Seq<u8>, pos: int|
        0 <= pos && (#[trigger] tx_dec()(input, pos)) is Some implies {
        let found = tx_dec()(input, pos)->0;
        pos <= found.1 <= input.len() && input.subrange(pos, found.1) == tx_enc()(found.0)
    } by {
        lemma_dec_tx_sound(input, pos);
    }
    assert forall|input: Seq<u8>, pos: int, value: CompactTxView|
        0 <= pos && tx_fitting()(value) && pos + tx_enc()(value).len() <= input.len()
            && input.subrange(pos, pos + tx_enc()(value).len()) == #[trigger] tx_enc()(value) implies
        #[trigger] tx_dec()(input, pos) == Some((value, pos + tx_enc()(value).len())) by {
        lemma_dec_tx_complete(input, pos, value);
    }
}

/// A byte string that encodes a block is the encoding of that block.
pub proof fn lemma_parse_then_encode(input: Seq<u8>)
    requires
        parse_block(input) is Some,
    ensures
        enc_block(parse_block(input)->0) == input,
{
    if input.len() == 0 {
        assert(input =~= Seq::<u8>::empty());
    } else {
        lemma_tx_codec();
        lemma_dec_u64_sound(input, 0);
        let count = (dec_u64(input, 0)->0).0;
        lemma_dec_items_sound(input, 8, count as nat, tx_enc(), tx_dec());
        lemma_split(input, 0, 8, input.len() as int);
        assert(input.subrange(0, input.len() as int) =~= input);
    }
}

/// The encoding of a block encodes that block.
pub proof fn lemma_encode_then_parse(block: Seq<CompactTxView>)
    requires
        block_fits(block),
    ensures
        parse_block(enc_block(block)) == Some(block),
{
    if block.len() == 0 {
        assert(block =~= Seq::<CompactTxView>::empty());
    } else {
        vstd::bytes::lemma_auto_spec_u64_to_from_le_bytes();
        lemma_tx_codec();
        let input = enc_block(block);
        let head = enc_u64(block.len() as u64);
        let tail = enc_items(block, tx_enc());
        assert(input.subrange(0, input.len() as int) =~= input);
        lemma_parts(input, 0, head, tail);
        lemma_dec_u64_complete(input, 0, block.len() as u64);
        assert forall|i: int| 0 <= i < block.len() implies tx_fitting()(#[trigger] block[i]) by {
            assert(tx_fits(block[i]));
        }
        lemma_dec_items_complete(input, 8, block, tx_enc(), tx_dec(), tx_fitting());
    }
}

/// Reads the output at `pos`.
fn read_output(input: &[u8], pos: usize) -> (found: Option<(CompactOutput, usize)>)
    ensures
        match found {
            Some((output, end)) => dec_output(input@, pos as int) == Some((output@, end as int)),
            None => dec_output(input@, pos as int) is None,
        },
{
    let (cmu, after_cmu) = match read_bytes(input, pos) {
        Some(found) => found,
        None => {
            return None;
        },
    };
    let (epk, after_epk) = match read_bytes(input, after_cmu) {
        Some(found) => found,
        None => {
            return None;
        },
    };
    let (ciphertext, end) = match read_bytes(input, after_epk) {
        Some(found) => found,
        None => {
            return None;
        },
    };
    Some((CompactOutput { cmu, epk, ciphertext }, end))
}

/// Reads the transaction at `pos`.
fn read_tx(input: &[u8], pos: usize) -> (found: Option<(CompactTx, usize)>)
    ensures
        match found {
            Some((tx, end)) => dec_tx(input@, pos as int) == Some((tx@, end as int)),
            None => dec_tx(input@, pos as int) is None,
        },
{
    if pos > input.len() || input.len() - pos < 32 {
        return None;
    }
    let mut hash = [0u8; 32];
    let mut k: usize = 0;
    while k < 32
        invariant
            k <= 32,
            pos + 32 <= input@.len() <= usize::MAX,
            forall|j: int| 0 <= j < k ==> hash@[j] == input@[pos + j],
        decreases 32 - k,
    {
        hash[k] = input[pos + k];
        k += 1;
    }
    assert(hash@ =~= input@.subrange(pos as int, pos + 32));
    let (spend_count, spends_at) = match read_u64(input, pos + 32) {
        Some(found) => found,
        None => {
            return None;
        },
    };
    let mut spends: Vec<CompactSpend> = Vec::new();
    let mut at: usize = spends_at;
    let mut i: u64 = 0;
    assert(spend_views(spends@) =~= Seq::empty());
    while i < spend_count
        invariant
            i <= spend_count,
            0 <= pos && pos + 32 <= input@.len(),
            dec_u64(input@, pos + 32) == Some((spend_count, spends_at as int)),
            dec_items(input@, spends_at as int, i as nat, spend_dec()) == Some(
                (spend_views(spends@), at as int),
            ),
        decreases spend_count - i,
    {
        let ghost before = spends@;
        match read_bytes(input, at) {
            Some((nf, end)) => {
                spends.push(CompactSpend { nf });
                at = end;
                assert(spend_views(spends@) =~= spend_views(before).push(nf@));
            },
            None => {
                proof {
                    assert(spend_dec()(input@, at as int) is None);
                    assert(dec_items(input@, spends_at as int, (i + 1) as nat, spend_dec())
                        is None);
                    lemma_dec_items_fails(
                        input@,
                        spends_at as int,
                        (i + 1) as nat,
                        spend_count as nat,
                        spend_dec(),
                    );
                }
                return None;
            },
        }
        i += 1;
    }
    let after_spends = at;
    let (output_count, outputs_at) = match read_u64(input, after_spends) {
        Some(found) => found,
        None => {
            return None;
        },
    };
    let mut outputs: Vec<CompactOutput> = Vec::new();
    let mut at: usize = outputs_at;
    let mut j: u64 = 0;
    assert(output_views(outputs@) =~= Seq::empty());
    while j < output_count
        invariant
            j <= output_count,
            0 <= pos && pos + 32 <= input@.len(),
            dec_u64(input@, pos + 32) == Some((spend_count, spends_at as int)),
            dec_items(input@, spends_at as int, spend_count as nat, spend_dec()) == Some(
                (spend_views(spends@), after_spends as int),
            ),
            dec_u64(input@, after_spends as int) == Some((output_count, outputs_at as int)),
            dec_items(input@, outputs_at as int, j as nat, output_dec()) == Some(
                (output_views(outputs@), at as int),
            ),
        decreases output_count - j,
    {
        let ghost before = outputs@;
        match read_output(input, at) {
            Some((output, end)) => {
                outputs.push(output);
                at = end;
                assert(output_views(outputs@) =~= output_views(before).push(output@));
            },
            None => {
                proof {
                    assert(output_dec()(input@, at as int) is None);
                    assert(dec_items(input@, outputs_at as int, (j + 1) as nat, output_dec())
                        is None);
                    lemma_dec_items_fails(
                        input@,
                        outputs_at as int,
                        (j + 1) as nat,
                        output_count as nat,
                        output_dec(),
                    );
                }
                return None;
            },
        }
        j += 1;
    }
    Some((CompactTx { hash, spends, outputs }, at))
}

/// Reads a block from its encoding. The whole input must be the encoding of
/// one block; of the block that is read, the input is the encoding. The
/// empty input is the block without transactions.
pub fn parse_from_bytes(input: &[u8]) -> (block: Option<CompactBlock>)
    ensures
        match block {
            Some(found) => parse_block(input@) == Some(found@) && enc_block(found@) == input@,
            None => parse_block(input@) is None,
        },
{
    if input.len() == 0 {
        let found = CompactBlock { vtx: Vec::new() };
        assert(found@ =~= Seq::<CompactTxView>::empty());
        proof {
            lemma_parse_then_encode(input@);
        }
        return Some(found);
    }
    let (count, start) = match read_u64(input, 0) {
        Some(found) => found,
        None => {
            return None;
        },
    };
    let mut vtx: Vec<CompactTx> = Vec::new();
    let mut at: usize = start;
    let mut i: u64 = 0;
    assert(tx_views(vtx@) =~= Seq::empty());
    while i < count
        invariant
            i <= count,
            input@.len() > 0,
            dec_u64(input@, 0) == Some((count, start as int)),
            dec_items(input@, start as int, i as nat, tx_dec()) == Some(
                (tx_views(vtx@), at as int),
            ),
        decreases count - i,
    {
        let ghost before = vtx@;
        match read_tx(input, at) {
            Some((tx, end)) => {
                vtx.push(tx);
                at = end;
                assert(tx_views(vtx@) =~= tx_views(before).push(tx@));
            },
            None => {
                proof {
                    assert(tx_dec()(input@, at as int) is None);
                    assert(dec_items(input@, start as int, (i + 1) as nat, tx_dec()) is None);
                    lemma_dec_items_fails(
                        input@,
                        start as int,
                        (i + 1) as nat,
                        count as nat,
                        tx_dec(),
                    );
                }
                return None;
            },
        }
        i += 1;
    }
    if at != input.len() || count == 0 {
        return None;
    }
    let found = CompactBlock { vtx };
    proof {
        lemma_parse_then_encode(input@);
    }
    Some(found)
}

impl CompactBlock {
    /// A block that a machine holds can be encoded.
    pub proof fn lemma_fits(&self)
        ensures
            block_fits(self@),
    {
        assert(self.vtx@.len() == self.vtx.len());
        assert forall|i: int| 0 <= i < self@.len() implies tx_fits(#[trigger] self@[i]) by {
            let tx = self.vtx@[i];
            assert(self@[i] == tx@);
            assert(tx.spends@.len() == tx.spends.len());
            assert(tx.outputs@.len() == tx.outputs.len());
            assert forall|k: int| 0 <= k < tx@.spends.len() implies (#[trigger] tx@.spends[k]).len()
                <= u64::MAX by {
                assert(tx@.spends[k] == tx.spends@[k].nf@);
                assert(tx.spends@[k].nf@.len() == tx.spends@[k].nf.len());
            }
            assert forall|k: int| 0 <= k < tx@.outputs.len() implies output_fits(
                #[trigger] tx@.outputs[k],
            ) by {
                let output = tx.outputs@[k];
                assert(tx@.outputs[k] == output@);
                assert(output.cmu@.len() == output.cmu.len());
                assert(output.epk@.len() == output.epk.len());
                assert(output.ciphertext@.len() == output.ciphertext.len());
            }
        }
    }

    /// The encoding of the block.
    pub fn write_to_bytes(&self) -> (bytes: Vec<u8>)
        ensures
            bytes@ == enc_block(self@),
            parse_block(bytes@) == Some(self@),
    {
        let mut out: Vec<u8> = Vec::new();
        proof {
            self.lemma_fits();
            lemma_encode_then_parse(self@);
        }
        if self.vtx.len() == 0 {
            return out;
        }
        let ghost block = self@;
        write_u64(&mut out, self.vtx.len() as u64);
        let ghost start = out@;
        let mut t: usize = 0;
        assert(enc_items(block.take(0), tx_enc()) =~= Seq::<u8>::empty());
        assert(start + Seq::<u8>::empty() =~= start);
        while t < self.vtx.len()
            invariant
                t <= self.vtx@.len(),
                block == self@,
                out@ == start + enc_items(block.take(t as int), tx_enc()),
            decreases self.vtx@.len() - t,
        {
            let tx = &self.vtx[t];
            let ghost before_tx = out@;
            write_raw(&mut out, tx.hash.as_slice());
            let ghost spends = spend_views(tx.spends@);
            write_u64(&mut out, tx.spends.len() as u64);
            let ghost spends_start = out@;
            let mut i: usize = 0;
            assert(enc_items(spends.take(0), spend_enc()) =~= Seq::<u8>::empty());
            assert(spends_start + Seq::<u8>::empty() =~= spends_start);
            while i < tx.spends.len()
                invariant
                    i <= tx.spends@.len(),
                    spends == spend_views(tx.spends@),
                    out@ == spends_start + enc_items(spends.take(i as int), spend_enc()),
                decreases tx.spends@.len() - i,
            {
                write_bytes(&mut out, tx.spends[i].nf.as_slice());
                proof {
                    let next = spends.take(i + 1);
                    assert(next.drop_last() =~= spends.take(i as int));
                    assert(next.last() == tx.spends@[i as int]@);
                    assert(out@ =~= spends_start + enc_items(next, spend_enc()));
                }
                i += 1;
            }
            assert(spends.take(i as int) =~= spends);
            let ghost outputs = output_views(tx.outputs@);
            let ghost after_spends = out@;
            write_u64(&mut out, tx.outputs.len() as u64);
            let ghost outputs_start = out@;
            let mut j: usize = 0;
            assert(enc_items(outputs.take(0), output_enc()) =~= Seq::<u8>::empty());
            assert(outputs_start + Seq::<u8>::empty() =~= outputs_start);
            while j < tx.outputs.len()
                invariant
                    j <= tx.outputs@.len(),
                    outputs == output_views(tx.outputs@),
                    out@ == outputs_start + enc_items(outputs.take(j as int), output_enc()),
                decreases tx.outputs@.len() - j,
            {
                let output = &tx.outputs[j];
                let ghost before_output = out@;
                write_bytes(&mut out, output.cmu.as_slice());
                write_bytes(&mut out, output.epk.as_slice());
                write_bytes(&mut out, output.ciphertext.as_slice());
                proof {
                    assert(out@ =~= before_output + enc_output(output@));
                    let next = outputs.take(j + 1);
                    assert(next.drop_last() =~= outputs.take(j as int));
                    assert(next.last() == tx.outputs@[j as int]@);
                    assert(out@ =~= outputs_start + enc_items(next, output_enc()));
                }
                j += 1;
            }
            assert(outputs.take(j as int) =~= outputs);
            proof {
                assert(out@ =~= before_tx + enc_tx(tx@));
                let next = block.take(t + 1);
                assert(next.drop_last() =~= block.take(t as int));
                assert(next.last() == self.vtx@[t as int]@);
                assert(out@ =~= start + enc_items(next, tx_enc()));
            }
            t += 1;
        }
        assert(block.take(t as int) =~= block);
        out
    }
}

} // verus!
