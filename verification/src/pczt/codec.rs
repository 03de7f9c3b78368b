//! The wire format of the document: the global part, then the spends and
//! the outputs, each list behind its length; in every part the fields in a
//! fixed order, integers in little-endian byte order and byte strings behind
//! their length. The document that holds nothing is written as no bytes at
//! all. A document has one encoding, and only that is accepted.

use vstd::prelude::*;
use crate::pczt::proto::{
    empty_document, output_views, spend_views, DocumentView, GlobalView, OutputView,
    PartiallyCreatedTransaction, PcztGlobal, PcztOutput, PcztSpend, SpendView, Zip32Key,
};
use crate::pczt::wire::{
    dec_bytes, dec_i64, dec_u32, dec_u64, enc_bytes, enc_i64, enc_u32, enc_u64,
    lemma_dec_bytes_complete, lemma_dec_bytes_sound, lemma_dec_i64_complete,
    lemma_dec_i64_sound, lemma_dec_u32_complete, lemma_dec_u32_sound, lemma_dec_u64_complete,
    lemma_dec_u64_sound, read_bytes, read_i64, read_u32, read_u64, write_bytes, write_i64,
    write_u32, write_u64,
};

verus! {

/// The encodings of the items of a list, one behind the other.
pub open spec fn enc_items<T>(items: Seq<T>, enc: spec_fn(T) -> Seq<u8>) -> Seq<u8>
    decreases items.len(),
{
    if items.len() == 0 {
        Seq::empty()
    } else {
        enc_items(items.drop_last(), enc) + enc(items.last())
    }
}

/// The `count` items that stand one behind the other from `pos` on, and
/// where the last of them ends.
pub open spec fn dec_items<T>(
    input: Seq<u8>,
    pos: int,
    count: nat,
    dec: spec_fn(Seq<u8>, int) -> Option<(T, int)>,
) -> Option<(Seq<T>, int)>
    decreases count,
{
    if count == 0 {
        Some((Seq::empty(), pos))
    } else {
        match dec_items(input, pos, (count - 1) as nat, dec) {
            Some((before, middle)) => match dec(input, middle) {
                Some((item, end)) => Some((before.push(item), end)),
                None => None,
            },
            None => None,
        }
    }
}

/// Whether what `dec` reads at a place is what stands there encoded by
/// `enc`.
pub open spec fn codec_sound<T>(
    enc: spec_fn(T) -> Seq<u8>,
    dec: spec_fn(Seq<u8>, int) -> Option<(T, int)>,
) -> bool {
    forall|input: Seq<u8>, pos: int|
        0 <= pos && (#[trigger] dec(input, pos)) is Some ==> {
            let found = dec(input, pos)->0;
            pos <= found.1 <= input.len() && input.subrange(pos, found.1) == enc(found.0)
        }
}

/// Whether `dec` reads at a place what stands there encoded by `enc`, for
/// every value that `fits`.
pub open spec fn codec_complete<T>(
    enc: spec_fn(T) -> Seq<u8>,
    dec: spec_fn(Seq<u8>, int) -> Option<(T, int)>,
    fits: spec_fn(T) -> bool,
) -> bool {
    forall|input: Seq<u8>, pos: int, value: T|
        0 <= pos && fits(value) && pos + enc(value).len() <= input.len() && input.subrange(
            pos,
            pos + enc(value).len(),
        ) == #[trigger] enc(value) ==> #[trigger] dec(input, pos) == Some(
            (value, pos + enc(value).len()),
        )
}

/// What is read as a list is what stands there encoded.
pub proof fn lemma_dec_items_sound<T>(
    input: Seq<u8>,
    pos: int,
    count: nat,
    enc: spec_fn(T) -> Seq<u8>,
    dec: spec_fn(Seq<u8>, int) -> Option<(T, int)>,
)
    requires
        0 <= pos <= input.len(),
        codec_sound(enc, dec),
        dec_items(input, pos, count, dec) is Some,
    ensures
        ({
            let found = dec_items(input, pos, count, dec)->0;
            &&& found.0.len() == count
            &&& pos <= found.1 <= input.len()
            &&& input.subrange(pos, found.1) == enc_items(found.0, enc)
        }),
    decreases count,
{
    if count == 0 {
        assert(input.subrange(pos, pos) =~= Seq::<u8>::empty());
    } else {
        lemma_dec_items_sound(input, pos, (count - 1) as nat, enc, dec);
        let before = dec_items(input, pos, (count - 1) as nat, dec)->0;
        let last = dec(input, before.1)->0;
        let found = dec_items(input, pos, count, dec)->0;
        assert(found.0.drop_last() =~= before.0);
        assert(found.0.last() == last.0);
        assert(input.subrange(pos, last.1) =~= input.subrange(pos, before.1) + input.subrange(
            before.1,
            last.1,
        ));
    }
}

/// A list that stands encoded at a place is what is read there.
pub proof fn lemma_dec_items_complete<T>(
    input: Seq<u8>,
    pos: int,
    items: Seq<T>,
    enc: spec_fn(T) -> Seq<u8>,
    dec: spec_fn(Seq<u8>, int) -> Option<(T, int)>,
    fits: spec_fn(T) -> bool,
)
    requires
        0 <= pos,
        codec_complete(enc, dec, fits),
        forall|i: int| 0 <= i < items.len() ==> fits(#[trigger] items[i]),
        pos + enc_items(items, enc).len() <= input.len(),
        input.subrange(pos, pos + enc_items(items, enc).len()) == enc_items(items, enc),
    ensures
        dec_items(input, pos, items.len(), dec) == Some(
            (items, pos + enc_items(items, enc).len()),
        ),
    decreases items.len(),
{
    if items.len() == 0 {
        assert(items =~= Seq::<T>::empty());
    } else {
        let before = items.drop_last();
        let head = enc_items(before, enc);
        let tail = enc(items.last());
        let whole = enc_items(items, enc);
        assert(whole == head + tail);
        assert(input.subrange(pos, pos + head.len()) =~= whole.subrange(0, head.len() as int));
        assert(whole.subrange(0, head.len() as int) =~= head);
        assert(input.subrange(pos + head.len(), pos + head.len() + tail.len())
            =~= whole.subrange(head.len() as int, whole.len() as int));
        assert(whole.subrange(head.len() as int, whole.len() as int) =~= tail);
        assert forall|i: int| 0 <= i < before.len() implies fits(#[trigger] before[i]) by {
            assert(before[i] == items[i]);
        }
        lemma_dec_items_complete(input, pos, before, enc, dec, fits);
        assert(fits(items.last()));
        assert(dec(input, pos + head.len()) == Some(
            (items.last(), pos + head.len() + tail.len()),
        ));
        assert(before.push(items.last()) =~= items);
    }
}

/// Where a list cannot be read up to some length, it cannot be read beyond.
pub proof fn lemma_dec_items_fails<T>(
    input: Seq<u8>,
    pos: int,
    short: nat,
    count: nat,
    dec: spec_fn(Seq<u8>, int) -> Option<(T, int)>,
)
    requires
        short <= count,
        dec_items(input, pos, short, dec) is None,
    ensures
        dec_items(input, pos, count, dec) is None,
    decreases count,
{
    if short < count {
        lemma_dec_items_fails(input, pos, short, (count - 1) as nat, dec);
    }
}

/// A stretch of the input is its first part followed by the rest.
pub proof fn lemma_split(input: Seq<u8>, from: int, middle: int, to: int)
    requires
        0 <= from <= middle <= to <= input.len(),
    ensures
        input.subrange(from, to) == input.subrange(from, middle) + input.subrange(middle, to),
{
    assert(input.subrange(from, to) =~= input.subrange(from, middle) + input.subrange(
        middle,
        to,
    ));
}

/// Where two encodings stand one behind the other, each stands at its place.
pub proof fn lemma_parts(input: Seq<u8>, pos: int, first: Seq<u8>, second: Seq<u8>)
    requires
        0 <= pos,
        pos + (first + second).len() <= input.len(),
        input.subrange(pos, pos + (first + second).len()) == first + second,
    ensures
        pos + first.len() + second.len() <= input.len(),
        input.subrange(pos, pos + first.len()) == first,
        input.subrange(pos + first.len(), pos + first.len() + second.len()) == second,
{
    let whole = first + second;
    assert(input.subrange(pos, pos + first.len()) =~= whole.subrange(0, first.len() as int));
    assert(whole.subrange(0, first.len() as int) =~= first);
    assert(input.subrange(pos + first.len(), pos + first.len() + second.len())
        =~= whole.subrange(first.len() as int, whole.len() as int));
    assert(whole.subrange(first.len() as int, whole.len() as int) =~= second);
}

/// How an index of a derivation path is encoded.
pub open spec fn index_enc() -> spec_fn(u32) -> Seq<u8> {
    |index: u32| enc_u32(index)
}

/// How an index of a derivation path is read.
pub open spec fn index_dec() -> spec_fn(Seq<u8>, int) -> Option<(u32, int)> {
    |input: Seq<u8>, pos: int| dec_u32(input, pos)
}

/// Every index can be encoded.
pub open spec fn index_fits() -> spec_fn(u32) -> bool {
    |index: u32| true
}

/// The encoding of a derivation path: the number of its indices, then the
/// indices.
pub open spec fn enc_path(path: Seq<u32>) -> Seq<u8> {
    enc_u64(path.len() as u64) + enc_items(path, index_enc())
}

/// The derivation path that stands at `pos`, and where it ends.
pub open spec fn dec_path(input: Seq<u8>, pos: int) -> Option<(Seq<u32>, int)> {
    match dec_u64(input, pos) {
        Some((count, start)) => dec_items(input, start, count as nat, index_dec()),
        None => None,
    }
}

/// The encoding of the global part.
pub open spec fn enc_global(global: GlobalView) -> Seq<u8> {
    enc_i64(global.value_balance) + enc_bytes(global.bsk) + enc_bytes(global.bvk)
}

/// The global part that stands at `pos`, and where it ends.
pub open spec fn dec_global(input: Seq<u8>, pos: int) -> Option<(GlobalView, int)> {
    match dec_i64(input, pos) {
        Some((value_balance, after_balance)) => match dec_bytes(input, after_balance) {
            Some((bsk, after_bsk)) => match dec_bytes(input, after_bsk) {
                Some((bvk, end)) => Some((GlobalView { value_balance, bsk, bvk }, end)),
                None => None,
            },
            None => None,
        },
        None => None,
    }
}

/// Whether the byte strings of the global part are short enough for their
/// lengths to be written down.
pub open spec fn global_fits(global: GlobalView) -> bool {
    global.bsk.len() <= u64::MAX && global.bvk.len() <= u64::MAX
}

/// The codec of the indices is sound and complete.
pub proof fn lemma_index_codec()
    ensures
        codec_sound(index_enc(), index_dec()),
        codec_complete(index_enc(), index_dec(), index_fits()),
{
    assert forall|input: Seq<u8>, pos: int|
        0 <= pos && (#[trigger] index_dec()(input, pos)) is Some implies {
        let found = index_dec()(input, pos)->0;
        pos <= found.1 <= input.len() && input.subrange(pos, found.1) == index_enc()(found.0)
    } by {
        lemma_dec_u32_sound(input, pos);
    }
    assert forall|input: Seq<u8>, pos: int, value: u32|
        0 <= pos && index_fits()(value) && pos + index_enc()(value).len() <= input.len()
            && input.subrange(pos, pos + index_enc()(value).len()) == #[trigger] index_enc()(
            value,
        ) implies #[trigger] index_dec()(input, pos) == Some(
        (value, pos + index_enc()(value).len()),
    ) by {
        vstd::bytes::lemma_auto_spec_u32_to_from_le_bytes();
        assert(enc_u32(value).len() == 4);
        lemma_dec_u32_complete(input, pos, value);
    }
}

/// What is read as a path is what stands there encoded.
pub proof fn lemma_dec_path_sound(input: Seq<u8>, pos: int)
    requires
        0 <= pos,
        dec_path(input, pos) is Some,
    ensures
        pos <= (dec_path(input, pos)->0).1 <= input.len(),
        input.subrange(pos, (dec_path(input, pos)->0).1) == enc_path((dec_path(input, pos)->0).0),
{
    lemma_dec_u64_sound(input, pos);
    lemma_index_codec();
    let count = (dec_u64(input, pos)->0).0;
    lemma_dec_items_sound(input, pos + 8, count as nat, index_enc(), index_dec());
    let found = dec_path(input, pos)->0;
    lemma_split(input, pos, pos + 8, found.1);
}

/// A path that stands encoded at a place is what is read there.
pub proof fn lemma_dec_path_complete(input: Seq<u8>, pos: int, path: Seq<u32>)
    requires
        0 <= pos,
        path.len() <= u64::MAX,
        pos + enc_path(path).len() <= input.len(),
        input.subrange(pos, pos + enc_path(path).len()) == enc_path(path),
    ensures
        dec_path(input, pos) == Some((path, pos + enc_path(path).len())),
{
    vstd::bytes::lemma_auto_spec_u64_to_from_le_bytes();
    lemma_index_codec();
    let head = enc_u64(path.len() as u64);
    let tail = enc_items(path, index_enc());
    lemma_parts(input, pos, head, tail);
    lemma_dec_u64_complete(input, pos, path.len() as u64);
    lemma_dec_items_complete(input, pos + 8, path, index_enc(), index_dec(), index_fits());
}

/// What is read as the global part is what stands there encoded.
pub proof fn lemma_dec_global_sound(input: Seq<u8>, pos: int)
    requires
        0 <= pos,
        dec_global(input, pos) is Some,
    ensures
        pos <= (dec_global(input, pos)->0).1 <= input.len(),
        input.subrange(pos, (dec_global(input, pos)->0).1) == enc_global(
            (dec_global(input, pos)->0).0,
        ),
{
    lemma_dec_i64_sound(input, pos);
    let a = pos + 8;
    lemma_dec_bytes_sound(input, a);
    let b = (dec_bytes(input, a)->0).1;
    lemma_dec_bytes_sound(input, b);
    let c = (dec_bytes(input, b)->0).1;
    lemma_split(input, pos, a, b);
    lemma_split(input, pos, b, c);
}

/// A global part that stands encoded at a place is what is read there.
pub proof fn lemma_dec_global_complete(input: Seq<u8>, pos: int, global: GlobalView)
    requires
        0 <= pos,
        global_fits(global),
        pos + enc_global(global).len() <= input.len(),
        input.subrange(pos, pos + enc_global(global).len()) == enc_global(global),
    ensures
        dec_global(input, pos) == Some((global, pos + enc_global(global).len())),
{
    vstd::bytes::lemma_auto_spec_u64_to_from_le_bytes();
    let e1 = enc_i64(global.value_balance);
    let e2 = enc_bytes(global.bsk);
    let e3 = enc_bytes(global.bvk);
    lemma_parts(input, pos, e1 + e2, e3);
    lemma_parts(input, pos, e1, e2);
    lemma_dec_i64_complete(input, pos, global.value_balance);
    lemma_dec_bytes_complete(input, pos + 8, global.bsk);
    lemma_dec_bytes_complete(input, pos + 8 + e2.len(), global.bvk);
}

/// The encoding of a spend.
pub open spec fn enc_spend(spend: SpendView) -> Seq<u8> {
    enc_bytes(spend.master_fingerprint) + enc_path(spend.derivation_path) + enc_bytes(spend.alpha)
        + enc_bytes(spend.spend_auth_sig)
}

/// The spend that stands at `pos`, and where it ends.
pub open spec fn dec_spend(input: Seq<u8>, pos: int) -> Option<(SpendView, int)> {
    match dec_bytes(input, pos) {
        Some((master_fingerprint, after_fingerprint)) => match dec_path(input, after_fingerprint) {
            Some((derivation_path, after_path)) => match dec_bytes(input, after_path) {
                Some((alpha, after_alpha)) => match dec_bytes(input, after_alpha) {
                    Some((spend_auth_sig, end)) => Some(
                        (
                            SpendView { master_fingerprint, derivation_path, alpha, spend_auth_sig },
                            end,
                        ),
                    ),
                    None => None,
                },
                None => None,
            },
            None => None,
        },
        None => None,
    }
}

/// Whether the parts of a spend are short enough for their lengths to be
/// written down.
pub open spec fn spend_fits(spend: SpendView) -> bool {
    &&& spend.master_fingerprint.len() <= u64::MAX
    &&& spend.derivation_path.len() <= u64::MAX
    &&& spend.alpha.len() <= u64::MAX
    &&& spend.spend_auth_sig.len() <= u64::MAX
}

/// What is read as a spend is what stands there encoded.
pub proof fn lemma_dec_spend_sound(input: Seq<u8>, pos: int)
    requires
        0 <= pos,
        dec_spend(input, pos) is Some,
    ensures
        pos <= (dec_spend(input, pos)->0).1 <= input.len(),
        input.subrange(pos, (dec_spend(input, pos)->0).1) == enc_spend(
            (dec_spend(input, pos)->0).0,
        ),
{
    lemma_dec_bytes_sound(input, pos);
    let a = (dec_bytes(input, pos)->0).1;
    lemma_dec_path_sound(input, a);
    let b = (dec_path(input, a)->0).1;
    lemma_dec_bytes_sound(input, b);
    let c = (dec_bytes(input, b)->0).1;
    lemma_dec_bytes_sound(input, c);
    let d = (dec_bytes(input, c)->0).1;
    lemma_split(input, pos, a, b);
    lemma_split(input, pos, b, c);
    lemma_split(input, pos, c, d);
}

/// A spend that stands encoded at a place is what is read there.
pub proof fn lemma_dec_spend_complete(input: Seq<u8>, pos: int, spend: SpendView)
    requires
        0 <= pos,
        spend_fits(spend),
        pos + enc_spend(spend).len() <= input.len(),
        input.subrange(pos, pos + enc_spend(spend).len()) == enc_spend(spend),
    ensures
        dec_spend(input, pos) == Some((spend, pos + enc_spend(spend).len())),
{
    let e1 = enc_bytes(spend.master_fingerprint);
    let e2 = enc_path(spend.derivation_path);
    let e3 = enc_bytes(spend.alpha);
    let e4 = enc_bytes(spend.spend_auth_sig);
    lemma_parts(input, pos, e1 + e2 + e3, e4);
    lemma_parts(input, pos, e1 + e2, e3);
    lemma_parts(input, pos, e1, e2);
    lemma_dec_bytes_complete(input, pos, spend.master_fingerprint);
    lemma_dec_path_complete(input, pos + e1.len(), spend.derivation_path);
    lemma_dec_bytes_complete(input, pos + e1.len() + e2.len(), spend.alpha);
    lemma_dec_bytes_complete(input, pos + e1.len() + e2.len() + e3.len(), spend.spend_auth_sig);
}

/// The encoding of an output.
pub open spec fn enc_output(output: OutputView) -> Seq<u8> {
    enc_bytes(output.cv) + enc_bytes(output.cmu) + enc_bytes(output.epk) + enc_bytes(
        output.enc_ciphertext,
    ) + enc_bytes(output.out_ciphertext) + enc_bytes(output.zkproof) + enc_i64(output.value)
        + enc_bytes(output.rcv)
}

/// The output that stands at `pos`, and where it ends.
pub open spec fn dec_output(input: Seq<u8>, pos: int) -> Option<(OutputView, int)> {
    match dec_bytes(input, pos) {
        Some((cv, at1)) => match dec_bytes(input, at1) {
            Some((cmu, at2)) => match dec_bytes(input, at2) {
                Some((epk, at3)) => match dec_bytes(input, at3) {
                    Some((enc_ciphertext, at4)) => match dec_bytes(input, at4) {
                        Some((out_ciphertext, at5)) => match dec_bytes(input, at5) {
                            Some((zkproof, at6)) => match dec_i64(input, at6) {
                                Some((value, at7)) => match dec_bytes(input, at7) {
                                    Some((rcv, end)) => Some(
                                        (
                                            OutputView {
                                                cv,
                                                cmu,
                                                epk,
                                                enc_ciphertext,
                                                out_ciphertext,
                                                zkproof,
                                                value,
                                                rcv,
                                            },
                                            end,
                                        ),
                                    ),
                                    None => None,
                                },
                                None => None,
                            },
                            None => None,
                        },
                        None => None,
                    },
                    None => None,
                },
                None => None,
            },
            None => None,
        },
        None => None,
    }
}

/// Whether the byte strings of an output are short enough for their lengths
/// to be written down.
pub open spec fn output_fits(output: OutputView) -> bool {
    &&& output.cv.len() <= u64::MAX
    &&& output.cmu.len() <= u64::MAX
    &&& output.epk.len() <= u64::MAX
    &&& output.enc_ciphertext.len() <= u64::MAX
    &&& output.out_ciphertext.len() <= u64::MAX
    &&& output.zkproof.len() <= u64::MAX
    &&& output.rcv.len() <= u64::MAX
}

/// What is read as an output is what stands there encoded.
pub proof fn lemma_dec_output_sound(input: Seq<u8>, pos: int)
    requires
        0 <= pos,
        dec_output(input, pos) is Some,
    ensures
        pos <= (dec_output(input, pos)->0).1 <= input.len(),
        input.subrange(pos, (dec_output(input, pos)->0).1) == enc_output(
            (dec_output(input, pos)->0).0,
        ),
{
    lemma_dec_bytes_sound(input, pos);
    let at1 = (dec_bytes(input, pos)->0).1;
    lemma_dec_bytes_sound(input, at1);
    let at2 = (dec_bytes(input, at1)->0).1;
    lemma_dec_bytes_sound(input, at2);
    let at3 = (dec_bytes(input, at2)->0).1;
    lemma_dec_bytes_sound(input, at3);
    let at4 = (dec_bytes(input, at3)->0).1;
    lemma_dec_bytes_sound(input, at4);
    let at5 = (dec_bytes(input, at4)->0).1;
    lemma_dec_bytes_sound(input, at5);
    let at6 = (dec_bytes(input, at5)->0).1;
    lemma_dec_i64_sound(input, at6);
    let at7 = at6 + 8;
    lemma_dec_bytes_sound(input, at7);
    let at8 = (dec_bytes(input, at7)->0).1;
    lemma_split(input, pos, at1, at2);
    lemma_split(input, pos, at2, at3);
    lemma_split(input, pos, at3, at4);
    lemma_split(input, pos, at4, at5);
    lemma_split(input, pos, at5, at6);
    lemma_split(input, pos, at6, at7);
    lemma_split(input, pos, at7, at8);
}

/// An output that stands encoded at a place is what is read there.
pub proof fn lemma_dec_output_complete(input: Seq<u8>, pos: int, output: OutputView)
    requires
        0 <= pos,
        output_fits(output),
        pos + enc_output(output).len() <= input.len(),
        input.subrange(pos, pos + enc_output(output).len()) == enc_output(output),
    ensures
        dec_output(input, pos) == Some((output, pos + enc_output(output).len())),
{
    vstd::bytes::lemma_auto_spec_u64_to_from_le_bytes();
    let e1 = enc_bytes(output.cv);
    let e2 = enc_bytes(output.cmu);
    let e3 = enc_bytes(output.epk);
    let e4 = enc_bytes(output.enc_ciphertext);
    let e5 = enc_bytes(output.out_ciphertext);
    let e6 = enc_bytes(output.zkproof);
    let e7 = enc_i64(output.value);
    let e8 = enc_bytes(output.rcv);
    lemma_parts(input, pos, e1 + e2 + e3 + e4 + e5 + e6 + e7, e8);
    lemma_parts(input, pos, e1 + e2 + e3 + e4 + e5 + e6, e7);
    lemma_parts(input, pos, e1 + e2 + e3 + e4 + e5, e6);
    lemma_parts(input, pos, e1 + e2 + e3 + e4, e5);
    lemma_parts(input, pos, e1 + e2 + e3, e4);
    lemma_parts(input, pos, e1 + e2, e3);
    lemma_parts(input, pos, e1, e2);
    let at1 = pos + e1.len();
    let at2 = at1 + e2.len();
    let at3 = at2 + e3.len();
    let at4 = at3 + e4.len();
    let at5 = at4 + e5.len();
    let at6 = at5 + e6.len();
    let at7 = at6 + e7.len();
    lemma_dec_bytes_complete(input, pos, output.cv);
    lemma_dec_bytes_complete(input, at1, output.cmu);
    lemma_dec_bytes_complete(input, at2, output.epk);
    lemma_dec_bytes_complete(input, at3, output.enc_ciphertext);
    lemma_dec_bytes_complete(input, at4, output.out_ciphertext);
    lemma_dec_bytes_complete(input, at5, output.zkproof);
    lemma_dec_i64_complete(input, at6, output.value);
    lemma_dec_bytes_complete(input, at7, output.rcv);
}

/// How a spend is encoded.
pub open spec fn spend_enc() -> spec_fn(SpendView) -> Seq<u8> {
    |spend: SpendView| enc_spend(spend)
}

/// How a spend is read.
pub open spec fn spend_dec() -> spec_fn(Seq<u8>, int) -> Option<(SpendView, int)> {
    |input: Seq<u8>, pos: int| dec_spend(input, pos)
}

/// Which spends can be encoded.
pub open spec fn spend_fitting() -> spec_fn(SpendView) -> bool {
    |spend: SpendView| spend_fits(spend)
}

/// How an output is encoded.
pub open spec fn output_enc() -> spec_fn(OutputView) -> Seq<u8> {
    |output: OutputView| enc_output(output)
}

/// How an output is read.
pub open spec fn output_dec() -> spec_fn(Seq<u8>, int) -> Option<(OutputView, int)> {
    |input: Seq<u8>, pos: int| dec_output(input, pos)
}

/// Which outputs can be encoded.
pub open spec fn output_fitting() -> spec_fn(OutputView) -> bool {
    |output: OutputView| output_fits(output)
}

/// The codecs of spends and outputs are sound and complete.
pub proof fn lemma_record_codecs()
    ensures
        codec_sound(spend_enc(), spend_dec()),
        codec_complete(spend_enc(), spend_dec(), spend_fitting()),
        codec_sound(output_enc(), output_dec()),
        codec_complete(output_enc(), output_dec(), output_fitting()),
{
    assert forall|input: Seq<u8>, pos: int|
        0 <= pos && (#[trigger] spend_dec()(input, pos)) is Some implies {
        let found = spend_dec()(input, pos)->0;
        pos <= found.1 <= input.len() && input.subrange(pos, found.1) == spend_enc()(found.0)
    } by {
        lemma_dec_spend_sound(input, pos);
    }
    assert forall|input: Seq<u8>, pos: int, value: SpendView|
        0 <= pos && spend_fitting()(value) && pos + spend_enc()(value).len() <= input.len()
            && input.subrange(pos, pos + spend_enc()(value).len()) == #[trigger] spend_enc()(
            value,
        ) implies #[trigger] spend_dec()(input, pos) == Some(
        (value, pos + spend_enc()(value).len()),
    ) by {
        lemma_dec_spend_complete(input, pos, value);
    }
    assert forall|input: Seq<u8>, pos: int|
        0 <= pos && (#[trigger] output_dec()(input, pos)) is Some implies {
        let found = output_dec()(input, pos)->0;
        pos <= found.1 <= input.len() && input.subrange(pos, found.1) == output_enc()(found.0)
    } by {
        lemma_dec_output_sound(input, pos);
    }
    assert forall|input: Seq<u8>, pos: int, value: OutputView|
        0 <= pos && output_fitting()(value) && pos + output_enc()(value).len() <= input.len()
            && input.subrange(pos, pos + output_enc()(value).len()) == #[trigger] output_enc()(
            value,
        ) implies #[trigger] output_dec()(input, pos) == Some(
        (value, pos + output_enc()(value).len()),
    ) by {
        lemma_dec_output_complete(input, pos, value);
    }
}

/// The encoding of the spends: their number, then the spends.
pub open spec fn enc_spends(spends: Seq<SpendView>) -> Seq<u8> {
    enc_u64(spends.len() as u64) + enc_items(spends, spend_enc())
}

/// The spends that stand at `pos`, and where they end.
pub open spec fn dec_spends(input: Seq<u8>, pos: int) -> Option<(Seq<SpendView>, int)> {
    match dec_u64(input, pos) {
        Some((count, start)) => dec_items(input, start, count as nat, spend_dec()),
        None => None,
    }
}

/// The encoding of the outputs: their number, then the outputs.
pub open spec fn enc_outputs(outputs: Seq<OutputView>) -> Seq<u8> {
    enc_u64(outputs.len() as u64) + enc_items(outputs, output_enc())
}

/// The outputs that stand at `pos`, and where they end.
pub open spec fn dec_outputs(input: Seq<u8>, pos: int) -> Option<(Seq<OutputView>, int)> {
    match dec_u64(input, pos) {
        Some((count, start)) => dec_items(input, start, count as nat, output_dec()),
        None => None,
    }
}

/// The encoding of the three parts of a document, one behind the other.
pub open spec fn enc_parts(document: DocumentView) -> Seq<u8> {
    enc_global(document.global) + enc_spends(document.spends) + enc_outputs(document.outputs)
}

/// Whether a document holds nothing: no balance, no accumulators, no spends
/// and no outputs.
pub open spec fn holds_nothing(document: DocumentView) -> bool {
    &&& document.global.value_balance == 0
    &&& document.global.bsk.len() == 0
    &&& document.global.bvk.len() == 0
    &&& document.spends.len() == 0
    &&& document.outputs.len() == 0
}

/// The encoding of a document: no bytes at all for the document that holds
/// nothing, whose global part is not there yet; and the three parts, one
/// behind the other, for every other.
pub open spec fn enc_document(document: DocumentView) -> Seq<u8> {
    if holds_nothing(document) {
        Seq::empty()
    } else {
        enc_parts(document)
    }
}

/// The three parts of a document that stand at `pos`, and where they end.
pub open spec fn dec_parts(input: Seq<u8>, pos: int) -> Option<(DocumentView, int)> {
    match dec_global(input, pos) {
        Some((global, after_global)) => match dec_spends(input, after_global) {
            Some((spends, after_spends)) => match dec_outputs(input, after_spends) {
                Some((outputs, end)) => Some((DocumentView { global, spends, outputs }, end)),
                None => None,
            },
            None => None,
        },
        None => None,
    }
}

/// The document that a byte string encodes: the document that holds
/// nothing, for the empty byte string; else the document whose parts stand
/// at its beginning and end at its end, unless that document holds nothing,
/// whose encoding the empty byte string is.
pub open spec fn parse_document(input: Seq<u8>) -> Option<DocumentView> {
    if input.len() == 0 {
        Some(empty_document())
    } else {
        match dec_parts(input, 0) {
            Some((document, end)) => if end == input.len() && !holds_nothing(document) {
                Some(document)
            } else {
                None
            },
            None => None,
        }
    }
}

/// Whether the lists and byte strings of a document are short enough for
/// their lengths to be written down. Every document that a machine holds is.
pub open spec fn document_fits(document: DocumentView) -> bool {
    &&& global_fits(document.global)
    &&& document.spends.len() <= u64::MAX
    &&& document.outputs.len() <= u64::MAX
    &&& forall|i: int| 0 <= i < document.spends.len() ==> spend_fits(#[trigger] document.spends[i])
    &&& forall|i: int|
        0 <= i < document.outputs.len() ==> output_fits(#[trigger] document.outputs[i])
}

/// What is read as a document is what stands there encoded.
pub proof fn lemma_dec_parts_sound(input: Seq<u8>, pos: int)
    requires
        0 <= pos,
        dec_parts(input, pos) is Some,
    ensures
        pos <= (dec_parts(input, pos)->0).1 <= input.len(),
        input.subrange(pos, (dec_parts(input, pos)->0).1) == enc_parts(
            (dec_parts(input, pos)->0).0,
        ),
{
    lemma_record_codecs();
    lemma_dec_global_sound(input, pos);
    let a = (dec_global(input, pos)->0).1;
    lemma_dec_u64_sound(input, a);
    let spend_count = (dec_u64(input, a)->0).0;
    lemma_dec_items_sound(input, a + 8, spend_count as nat, spend_enc(), spend_dec());
    let b = (dec_spends(input, a)->0).1;
    lemma_split(input, a, a + 8, b);
    lemma_dec_u64_sound(input, b);
    let output_count = (dec_u64(input, b)->0).0;
    lemma_dec_items_sound(input, b + 8, output_count as nat, output_enc(), output_dec());
    let c = (dec_outputs(input, b)->0).1;
    lemma_split(input, b, b + 8, c);
    lemma_split(input, pos, a, b);
    lemma_split(input, pos, b, c);
}

/// A document that stands encoded at a place is what is read there.
pub proof fn lemma_dec_parts_complete(input: Seq<u8>, pos: int, document: DocumentView)
    requires
        0 <= pos,
        document_fits(document),
        pos + enc_parts(document).len() <= input.len(),
        input.subrange(pos, pos + enc_parts(document).len()) == enc_parts(document),
    ensures
        dec_parts(input, pos) == Some((document, pos + enc_parts(document).len())),
{
    vstd::bytes::lemma_auto_spec_u64_to_from_le_bytes();
    lemma_record_codecs();
    let e1 = enc_global(document.global);
    let e2 = enc_spends(document.spends);
    let e3 = enc_outputs(document.outputs);
    lemma_parts(input, pos, e1 + e2, e3);
    lemma_parts(input, pos, e1, e2);
    lemma_dec_global_complete(input, pos, document.global);
    let a = pos + e1.len();
    let h2 = enc_u64(document.spends.len() as u64);
    let t2 = enc_items(document.spends, spend_enc());
    lemma_parts(input, a, h2, t2);
    lemma_dec_u64_complete(input, a, document.spends.len() as u64);
    assert forall|i: int| 0 <= i < document.spends.len() implies spend_fitting()(
        #[trigger] document.spends[i],
    ) by {
        assert(spend_fits(document.spends[i]));
    }
    lemma_dec_items_complete(
        input,
        a + 8,
        document.spends,
        spend_enc(),
        spend_dec(),
        spend_fitting(),
    );
    let b = a + e2.len();
    let h3 = enc_u64(document.outputs.len() as u64);
    let t3 = enc_items(document.outputs, output_enc());
    lemma_parts(input, b, h3, t3);
    lemma_dec_u64_complete(input, b, document.outputs.len() as u64);
    assert forall|i: int| 0 <= i < document.outputs.len() implies output_fitting()(
        #[trigger] document.outputs[i],
    ) by {
        assert(output_fits(document.outputs[i]));
    }
    lemma_dec_items_complete(
        input,
        b + 8,
        document.outputs,
        output_enc(),
        output_dec(),
        output_fitting(),
    );
}

/// The empty byte string is the document that holds nothing, and the other
/// way round.
pub proof fn lemma_empty_document()
    ensures
        parse_document(Seq::empty()) == Some(empty_document()),
        enc_document(empty_document()) == Seq::<u8>::empty(),
{
}

/// A document that holds nothing is the document that holds nothing.
pub proof fn lemma_holds_nothing(document: DocumentView)
    ensures
        holds_nothing(document) <==> document == empty_document(),
{
    if holds_nothing(document) {
        assert(document.global.bsk =~= Seq::<u8>::empty());
        assert(document.global.bvk =~= Seq::<u8>::empty());
        assert(document.spends =~= Seq::<SpendView>::empty());
        assert(document.outputs =~= Seq::<OutputView>::empty());
    }
}

/// A byte string that encodes a document is the encoding of that document:
/// to read a document and to write it again gives the same bytes.
pub proof fn lemma_parse_then_encode(input: Seq<u8>)
    requires
        parse_document(input) is Some,
    ensures
        enc_document(parse_document(input)->0) == input,
{
    if input.len() == 0 {
        assert(input =~= Seq::<u8>::empty());
    } else {
        lemma_dec_parts_sound(input, 0);
        assert(input.subrange(0, input.len() as int) =~= input);
    }
}

/// The encoding of a document encodes that document: to write a document
/// and to read it again gives the same document.
pub proof fn lemma_encode_then_parse(document: DocumentView)
    requires
        document_fits(document),
    ensures
        parse_document(enc_document(document)) == Some(document),
{
    if holds_nothing(document) {
        lemma_holds_nothing(document);
    } else {
        let input = enc_parts(document);
        vstd::bytes::lemma_auto_spec_u64_to_from_le_bytes();
        assert(enc_i64(document.global.value_balance).len() == 8);
        assert(input.len() > 0);
        assert(input.subrange(0, input.len() as int) =~= input);
        lemma_dec_parts_complete(input, 0, document);
    }
}

/// Appends the encoding of a derivation path.
fn write_path(out: &mut Vec<u8>, path: &Vec<u32>)
    ensures
        final(out)@ == old(out)@ + enc_path(path@),
{
    write_u64(out, path.len() as u64);
    let ghost start = out@;
    let mut i: usize = 0;
    assert(enc_items(path@.take(0), index_enc()) =~= Seq::<u8>::empty());
    assert(start + Seq::<u8>::empty() =~= start);
    while i < path.len()
        invariant
            i <= path@.len(),
            out@ == start + enc_items(path@.take(i as int), index_enc()),
        decreases path@.len() - i,
    {
        write_u32(out, path[i]);
        proof {
            let next = path@.take(i + 1);
            assert(next.drop_last() =~= path@.take(i as int));
            assert(next.last() == path@[i as int]);
            assert(out@ =~= start + enc_items(next, index_enc()));
        }
        i += 1;
    }
    assert(path@.take(i as int) =~= path@);
    assert(out@ =~= old(out)@ + enc_path(path@));
}

/// Appends the encoding of a spend.
fn write_spend(out: &mut Vec<u8>, spend: &PcztSpend)
    ensures
        final(out)@ == old(out)@ + enc_spend(spend@),
{
    write_bytes(out, spend.key.master_fingerprint.as_slice());
    write_path(out, &spend.key.derivation_path);
    write_bytes(out, spend.alpha.as_slice());
    write_bytes(out, spend.spend_auth_sig.as_slice());
    assert(out@ =~= old(out)@ + enc_spend(spend@));
}

/// Appends the encoding of an output.
fn write_output(out: &mut Vec<u8>, output: &PcztOutput)
    ensures
        final(out)@ == old(out)@ + enc_output(output@),
{
    write_bytes(out, output.cv.as_slice());
    write_bytes(out, output.cmu.as_slice());
    write_bytes(out, output.epk.as_slice());
    write_bytes(out, output.enc_ciphertext.as_slice());
    write_bytes(out, output.out_ciphertext.as_slice());
    write_bytes(out, output.zkproof.as_slice());
    write_i64(out, output.value);
    write_bytes(out, output.rcv.as_slice());
    assert(out@ =~= old(out)@ + enc_output(output@));
}

impl PartiallyCreatedTransaction {
    /// Whether the document holds nothing.
    pub fn holds_nothing(&self) -> (nothing: bool)
        ensures
            nothing == holds_nothing(self@),
    {
        self.global.value_balance == 0 && self.global.bsk.len() == 0 && self.global.bvk.len() == 0
            && self.spends.len() == 0 && self.outputs.len() == 0
    }

    /// The encoding of the document.
    pub fn write_to_bytes(&self) -> (bytes: Vec<u8>)
        ensures
            bytes@ == enc_document(self@),
            parse_document(bytes@) == Some(self@),
    {
        let mut out: Vec<u8> = Vec::new();
        if self.holds_nothing() {
            proof {
                self.lemma_fits();
                lemma_encode_then_parse(self@);
            }
            return out;
        }
        write_i64(&mut out, self.global.value_balance);
        write_bytes(&mut out, self.global.bsk.as_slice());
        write_bytes(&mut out, self.global.bvk.as_slice());
        assert(out@ =~= enc_global(self.global@));

        let ghost spends = spend_views(self.spends@);
        write_u64(&mut out, self.spends.len() as u64);
        let ghost start = out@;
        let mut i: usize = 0;
        assert(enc_items(spends.take(0), spend_enc()) =~= Seq::<u8>::empty());
        assert(start + Seq::<u8>::empty() =~= start);
        while i < self.spends.len()
            invariant
                i <= self.spends@.len(),
                spends == spend_views(self.spends@),
                out@ == start + enc_items(spends.take(i as int), spend_enc()),
            decreases self.spends@.len() - i,
        {
            write_spend(&mut out, &self.spends[i]);
            proof {
                let next = spends.take(i + 1);
                assert(next.drop_last() =~= spends.take(i as int));
                assert(next.last() == self.spends@[i as int]@);
                assert(out@ =~= start + enc_items(next, spend_enc()));
            }
            i += 1;
        }
        assert(spends.take(i as int) =~= spends);
        assert(out@ =~= enc_global(self.global@) + enc_spends(spends));

        let ghost outputs = output_views(self.outputs@);
        let ghost middle = out@;
        write_u64(&mut out, self.outputs.len() as u64);
        let ghost start = out@;
        let mut j: usize = 0;
        assert(enc_items(outputs.take(0), output_enc()) =~= Seq::<u8>::empty());
        assert(start + Seq::<u8>::empty() =~= start);
        while j < self.outputs.len()
            invariant
                j <= self.outputs@.len(),
                outputs == output_views(self.outputs@),
                out@ == start + enc_items(outputs.take(j as int), output_enc()),
            decreases self.outputs@.len() - j,
        {
            write_output(&mut out, &self.outputs[j]);
            proof {
                let next = outputs.take(j + 1);
                assert(next.drop_last() =~= outputs.take(j as int));
                assert(next.last() == self.outputs@[j as int]@);
                assert(out@ =~= start + enc_items(next, output_enc()));
            }
            j += 1;
        }
        assert(outputs.take(j as int) =~= outputs);
        assert(out@ =~= middle + enc_outputs(outputs));
        proof {
            self.lemma_fits();
            lemma_encode_then_parse(self@);
        }
        out
    }

    /// A document that a machine holds can be encoded: the lengths of its
    /// lists and byte strings can be written down.
    pub proof fn lemma_fits(&self)
        ensures
            document_fits(self@),
    {
        assert forall|i: int| 0 <= i < self@.spends.len() implies spend_fits(
            #[trigger] self@.spends[i],
        ) by {
            let spend = self.spends@[i];
            assert(self@.spends[i] == spend@);
            assert(spend.key.master_fingerprint@.len() == spend.key.master_fingerprint.len());
            assert(spend.key.derivation_path@.len() == spend.key.derivation_path.len());
            assert(spend.alpha@.len() == spend.alpha.len());
            assert(spend.spend_auth_sig@.len() == spend.spend_auth_sig.len());
        }
        assert forall|i: int| 0 <= i < self@.outputs.len() implies output_fits(
            #[trigger] self@.outputs[i],
        ) by {
            let output = self.outputs@[i];
            assert(self@.outputs[i] == output@);
            assert(output.cv@.len() == output.cv.len());
            assert(output.cmu@.len() == output.cmu.len());
            assert(output.epk@.len() == output.epk.len());
            assert(output.enc_ciphertext@.len() == output.enc_ciphertext.len());
            assert(output.out_ciphertext@.len() == output.out_ciphertext.len());
            assert(output.zkproof@.len() == output.zkproof.len());
            assert(output.rcv@.len() == output.rcv.len());
        }
        assert(self.global.bsk@.len() == self.global.bsk.len());
        assert(self.global.bvk@.len() == self.global.bvk.len());
        assert(self.spends@.len() == self.spends.len());
        assert(self.outputs@.len() == self.outputs.len());
    }
}

/// Reads the derivation path at `pos`.
fn read_path(input: &[u8], pos: usize) -> (found: Option<(Vec<u32>, usize)>)
    ensures
        match found {
            Some((path, end)) => dec_path(input@, pos as int) == Some((path@, end as int)),
            None => dec_path(input@, pos as int) is None,
        },
{
    let (count, start) = match read_u64(input, pos) {
        Some(found) => found,
        None => {
            return None;
        },
    };
    let mut path: Vec<u32> = Vec::new();
    let mut at: usize = start;
    let mut i: u64 = 0;
    while i < count
        invariant
            i <= count,
            dec_u64(input@, pos as int) == Some((count, start as int)),
            dec_items(input@, start as int, i as nat, index_dec()) == Some((path@, at as int)),
        decreases count - i,
    {
        match read_u32(input, at) {
            Some((index, end)) => {
                path.push(index);
                at = end;
            },
            None => {
                proof {
                    assert(index_dec()(input@, at as int) is None);
                    assert(dec_items(input@, start as int, (i + 1) as nat, index_dec()) is None);
                    lemma_dec_items_fails(
                        input@,
                        start as int,
                        (i + 1) as nat,
                        count as nat,
                        index_dec(),
                    );
                }
                return None;
            },
        }
        i += 1;
    }
    Some((path, at))
}

/// Reads the spend at `pos`.
fn read_spend(input: &[u8], pos: usize) -> (found: Option<(PcztSpend, usize)>)
    ensures
        match found {
            Some((spend, end)) => dec_spend(input@, pos as int) == Some((spend@, end as int)),
            None => dec_spend(input@, pos as int) is None,
        },
{
    let (master_fingerprint, at1) = match read_bytes(input, pos) {
        Some(found) => found,
        None => {
            return None;
        },
    };
    let (derivation_path, at2) = match read_path(input, at1) {
        Some(found) => found,
        None => {
            return None;
        },
    };
    let (alpha, at3) = match read_bytes(input, at2) {
        Some(found) => found,
        None => {
            return None;
        },
    };
    let (spend_auth_sig, end) = match read_bytes(input, at3) {
        Some(found) => found,
        None => {
            return None;
        },
    };
    Some(
        (
            PcztSpend {
                key: Zip32Key { master_fingerprint, derivation_path },
                alpha,
                spend_auth_sig,
            },
            end,
        ),
    )
}

/// Reads the output at `pos`.
fn read_output(input: &[u8], pos: usize) -> (found: Option<(PcztOutput, usize)>)
    ensures
        match found {
            Some((output, end)) => dec_output(input@, pos as int) == Some((output@, end as int)),
            None => dec_output(input@, pos as int) is None,
        },
{
    let (cv, at1) = match read_bytes(input, pos) {
        Some(found) => found,
        None => {
            return None;
        },
    };
    let (cmu, at2) = match read_bytes(input, at1) {
        Some(found) => found,
        None => {
            return None;
        },
    };
    let (epk, at3) = match read_bytes(input, at2) {
        Some(found) => found,
        None => {
            return None;
        },
    };
    let (enc_ciphertext, at4) = match read_bytes(input, at3) {
        Some(found) => found,
        None => {
            return None;
        },
    };
    let (out_ciphertext, at5) = match read_bytes(input, at4) {
        Some(found) => found,
        None => {
            return None;
        },
    };
    let (zkproof, at6) = match read_bytes(input, at5) {
        Some(found) => found,
        None => {
            return None;
        },
    };
    let (value, at7) = match read_i64(input, at6) {
        Some(found) => found,
        None => {
            return None;
        },
    };
    let (rcv, end) = match read_bytes(input, at7) {
        Some(found) => found,
        None => {
            return None;
        },
    };
    Some(
        (
            PcztOutput { cv, cmu, epk, enc_ciphertext, out_ciphertext, zkproof, value, rcv },
            end,
        ),
    )
}

/// Reads the spends at `pos`.
fn read_spends(input: &[u8], pos: usize) -> (found: Option<(Vec<PcztSpend>, usize)>)
    ensures
        match found {
            Some((spends, end)) => dec_spends(input@, pos as int) == Some(
                (spend_views(spends@), end as int),
            ),
            None => dec_spends(input@, pos as int) is None,
        },
{
    let (count, start) = match read_u64(input, pos) {
        Some(found) => found,
        None => {
            return None;
        },
    };
    let mut spends: Vec<PcztSpend> = Vec::new();
    let mut at: usize = start;
    let mut i: u64 = 0;
    assert(spend_views(spends@) =~= Seq::empty());
    while i < count
        invariant
            i <= count,
            dec_u64(input@, pos as int) == Some((count, start as int)),
            dec_items(input@, start as int, i as nat, spend_dec()) == Some(
                (spend_views(spends@), at as int),
            ),
        decreases count - i,
    {
        let ghost before = spends@;
        match read_spend(input, at) {
            Some((spend, end)) => {
                spends.push(spend);
                at = end;
                assert(spend_views(spends@) =~= spend_views(before).push(spend@));
            },
            None => {
                proof {
                    assert(spend_dec()(input@, at as int) is None);
                    assert(dec_items(input@, start as int, (i + 1) as nat, spend_dec()) is None);
                    lemma_dec_items_fails(
                        input@,
                        start as int,
                        (i + 1) as nat,
                        count as nat,
                        spend_dec(),
                    );
                }
                return None;
            },
        }
        i += 1;
    }
    Some((spends, at))
}

/// Reads the outputs at `pos`.
fn read_outputs(input: &[u8], pos: usize) -> (found: Option<(Vec<PcztOutput>, usize)>)
    ensures
        match found {
            Some((outputs, end)) => dec_outputs(input@, pos as int) == Some(
                (output_views(outputs@), end as int),
            ),
            None => dec_outputs(input@, pos as int) is None,
        },
{
    let (count, start) = match read_u64(input, pos) {
        Some(found) => found,
        None => {
            return None;
        },
    };
    let mut outputs: Vec<PcztOutput> = Vec::new();
    let mut at: usize = start;
    let mut i: u64 = 0;
    assert(output_views(outputs@) =~= Seq::empty());
    while i < count
        invariant
            i <= count,
            dec_u64(input@, pos as int) == Some((count, start as int)),
            dec_items(input@, start as int, i as nat, output_dec()) == Some(
                (output_views(outputs@), at as int),
            ),
        decreases count - i,
    {
        let ghost before = outputs@;
        match read_output(input, at) {
            Some((output, end)) => {
                outputs.push(output);
                at = end;
                assert(output_views(outputs@) =~= output_views(before).push(output@));
            },
            None => {
                proof {
                    assert(output_dec()(input@, at as int) is None);
                    assert(dec_items(input@, start as int, (i + 1) as nat, output_dec()) is None);
                    lemma_dec_items_fails(
                        input@,
                        start as int,
                        (i + 1) as nat,
                        count as nat,
                        output_dec(),
                    );
                }
                return None;
            },
        }
        i += 1;
    }
    Some((outputs, at))
}

/// Reads a document from its encoding. The whole input must be the encoding
/// of one document; of the document that is read, the input is the encoding.
/// The empty input is the document that holds nothing.
pub fn parse_from_bytes(input: &[u8]) -> (document: Option<PartiallyCreatedTransaction>)
    ensures
        match document {
            Some(found) => parse_document(input@) == Some(found@) && enc_document(found@)
                == input@,
            None => parse_document(input@) is None,
        },
{
    if input.len() == 0 {
        proof {
            lemma_parse_then_encode(input@);
        }
        return Some(PartiallyCreatedTransaction::new());
    }
    let (value_balance, at1) = match read_i64(input, 0) {
        Some(found) => found,
        None => {
            return None;
        },
    };
    let (bsk, at2) = match read_bytes(input, at1) {
        Some(found) => found,
        None => {
            return None;
        },
    };
    let (bvk, at3) = match read_bytes(input, at2) {
        Some(found) => found,
        None => {
            return None;
        },
    };
    let (spends, at4) = match read_spends(input, at3) {
        Some(found) => found,
        None => {
            return None;
        },
    };
    let (outputs, end) = match read_outputs(input, at4) {
        Some(found) => found,
        None => {
            return None;
        },
    };
    if end != input.len() {
        return None;
    }
    let found = PartiallyCreatedTransaction {
        global: PcztGlobal { value_balance, bsk, bvk },
        spends,
        outputs,
    };
    if found.holds_nothing() {
        return None;
    }
    proof {
        lemma_parse_then_encode(input@);
    }
    Some(found)
}

} // verus!
