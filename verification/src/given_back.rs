//! What the rows of an encoded list give back of its transactions.

use crate::decode::be_value;
use crate::reading::{
    behind, body_size, head_size, is_list, item_size, lemma_reads_string, lemma_reads_word,
    number_at, string_at,
};
use crate::rlp_stream::{concat_all, item_header, minimal_be, rlp_string, without_leading_zeros};
use crate::round_trip::{
    all_supported, data_parts, fee_parts, first_parts, header_parts, is_supported, laid_out,
    law_encoded_list_is_given_back, lemma_input_shorter, lemma_minimal_be, signature_parts,
    tx_list_rlp, tx_parts, txs_laid_out, typed_strings, Part, SignedView,
};
use crate::row::{field_rows, row_count, Row, MAX_BYTE_COLUMN_NUM};
use crate::state::list_rows;
use crate::tags::RlpTxFieldTag;
use crate::transaction::{dynamic_fee_items, dynamic_fee_rlp, to_rlp};
use vstd::prelude::*;

verus! {

/// A row holds a piece of a field: that which is as far from its end as the row says.
pub open spec fn holds_piece(row: Row, field: RlpTxFieldTag, item: Seq<u8>, tx_id: int) -> bool {
    let from = item.len() - row.rlp_tx_member_length;
    &&& row.tx_member == field
    &&& row.tx_id == tx_id
    &&& row.valid
    &&& 0 <= from <= from + row.rlp_bytes_in_row <= item.len()
    &&& row.bytes == item.subrange(from, from + row.rlp_bytes_in_row)
    &&& item.len() <= MAX_BYTE_COLUMN_NUM ==> row.bytes == item
}

/// The rows of fields hold pieces of them.
proof fn lemma_laid_out_row(
    parts: Seq<Part>,
    tx_id: int,
    left: int,
    r: int,
    m: int,
    after: Seq<Row>,
    i: int,
)
    requires
        0 <= i < laid_out(parts, tx_id, left, r, m, after).len(),
        forall|p: int|
            0 <= p < parts.len() ==> (#[trigger] parts[p]).0 != RlpTxFieldTag::DecodeError,
    ensures
        ({
            let row = laid_out(parts, tx_id, left, r, m, after)[i];
            ||| exists|p: int|
                0 <= p < parts.len() && holds_piece(
                    row,
                    (#[trigger] parts[p]).0,
                    parts[p].1,
                    tx_id,
                )
            ||| exists|j: int| 0 <= j < after.len() && row == #[trigger] after[j]
        }),
    decreases parts.len(),
{
    let all = laid_out(parts, tx_id, left, r, m, after);
    if parts.len() == 0 {
        assert(all[i] == after[i]);
    } else {
        let (state, item) = parts[0];
        let front = field_rows(tx_id, state, item, r, m, left, None);
        let more = parts.skip(1);
        let rest = laid_out(more, tx_id, left - item.len(), r, m, after);
        assert(all == front + rest);
        if i < front.len() {
            let row = front[i];
            assert(all[i] == row);
            let start = i * MAX_BYTE_COLUMN_NUM;
            assert(row.bytes =~= item.subrange(start, start + row.rlp_bytes_in_row));
            if item.len() <= MAX_BYTE_COLUMN_NUM {
                assert(row_count(item.len()) == 1);
                assert(row.bytes =~= item);
            }
            assert(holds_piece(row, parts[0].0, parts[0].1, tx_id));
        } else {
            let k = i - front.len();
            assert(all[i] == rest[k]);
            assert forall|p: int| 0 <= p < more.len() implies (#[trigger] more[p]).0
                != RlpTxFieldTag::DecodeError by {
                assert(more[p] == parts[p + 1]);
            }
            lemma_laid_out_row(more, tx_id, left - item.len(), r, m, after, k);
            let row = rest[k];
            if exists|p: int|
                0 <= p < more.len() && holds_piece(row, (#[trigger] more[p]).0, more[p].1, tx_id) {
                let p = choose|p: int|
                    0 <= p < more.len() && holds_piece(
                        row,
                        (#[trigger] more[p]).0,
                        more[p].1,
                        tx_id,
                    );
                assert(more[p] == parts[p + 1]);
            }
        }
    }
}

/// Each row of transactions holds a piece of a field of one of them.
proof fn lemma_txs_row(txs: Seq<SignedView>, tx_id: int, left: int, r: int, m: int, i: int)
    requires
        0 <= i < txs_laid_out(txs, tx_id, left, r, m).len(),
    ensures
        ({
            let row = txs_laid_out(txs, tx_id, left, r, m)[i];
            let t = row.tx_id - tx_id;
            &&& 0 <= t < txs.len()
            &&& exists|p: int|
                0 <= p < 15 && holds_piece(
                    row,
                    (#[trigger] tx_parts(txs[t].tx, txs[t].signature)[p]).0,
                    tx_parts(txs[t].tx, txs[t].signature)[p].1,
                    row.tx_id,
                )
        }),
    decreases txs.len(),
{
    if txs.len() > 0 {
        let (tx, signature) = (txs[0].tx, txs[0].signature);
        let rest = left - rlp_string(dynamic_fee_rlp(tx, signature)).len();
        let more = txs.skip(1);
        let after = txs_laid_out(more, tx_id + 1, rest, r, m);
        let parts = tx_parts(tx, signature);
        assert(parts.len() == 15);
        lemma_laid_out_row(parts, tx_id, left, r, m, after, i);
        let row = laid_out(parts, tx_id, left, r, m, after)[i];
        if exists|p: int|
            0 <= p < parts.len() && holds_piece(row, (#[trigger] parts[p]).0, parts[p].1, tx_id) {
        } else {
            let j = choose|j: int| 0 <= j < after.len() && row == #[trigger] after[j];
            lemma_txs_row(more, tx_id + 1, rest, r, m, j);
            let t = row.tx_id - tx_id;
            assert(more[t - 1] == txs[t]);
        }
    }
}

/// `bytes` is the shortest string that holds the number.
#[verifier::opaque]
pub open spec fn holds_number(bytes: Seq<u8>, value: int) -> bool {
    number_at(bytes, 0, value) && behind(bytes, 1).len() == 0
}

/// The row holds a piece of a string that holds `value`.
#[verifier::opaque]
pub open spec fn piece_of_string(row: Row, value: Seq<u8>) -> bool {
    exists|whole: Seq<u8>| #[trigger]
        string_at(whole, 0, value) && item_size(whole) == whole.len() && holds_piece(
            row,
            row.tx_member,
            whole,
            row.tx_id,
        )
}

/// What a row of a field of a transaction holds.
pub open spec fn gives_back(row: Row, t: SignedView) -> bool {
    let tx = t.tx;
    match row.tx_member {
        RlpTxFieldTag::TypedTxHeader => !is_list(row.bytes) && row.bytes.len() == head_size(
            row.bytes,
        ) && body_size(row.bytes) == dynamic_fee_rlp(tx, t.signature).len(),
        RlpTxFieldTag::TxType => row.bytes == seq![2u8],
        RlpTxFieldTag::TxRlpHeader => is_list(row.bytes) && row.bytes.len() == head_size(
            row.bytes,
        ) && body_size(row.bytes) == concat_all(dynamic_fee_items(tx, t.signature)).len(),
        RlpTxFieldTag::ChainID => holds_number(row.bytes, be_value(tx.chain_id->0)),
        RlpTxFieldTag::Nonce => holds_number(row.bytes, be_value(tx.nonce)),
        RlpTxFieldTag::GasTipCap => holds_number(
            row.bytes,
            be_value(tx.max_priority_fee_per_gas->0),
        ),
        RlpTxFieldTag::GasFeeCap => holds_number(row.bytes, be_value(tx.max_fee_per_gas->0)),
        RlpTxFieldTag::Gas => holds_number(row.bytes, be_value(tx.gas)),
        RlpTxFieldTag::To => match tx.to {
            Some(a) => row.bytes == seq![0x94u8] + a,
            None => row.bytes == seq![0x80u8],
        },
        RlpTxFieldTag::Value => holds_number(row.bytes, be_value(tx.value)),
        RlpTxFieldTag::Data => piece_of_string(row, tx.input),
        RlpTxFieldTag::AccessList => row.bytes == seq![0xc0u8],
        RlpTxFieldTag::SignV => holds_number(row.bytes, t.signature.v as int),
        RlpTxFieldTag::SignR => holds_number(row.bytes, be_value(t.signature.r)),
        RlpTxFieldTag::SignS => holds_number(row.bytes, be_value(t.signature.s)),
        _ => false,
    }
}

/// A whole string is read as one item.
proof fn lemma_holds_string(value: Seq<u8>)
    requires
        value.len() <= u32::MAX,
    ensures
        string_at(rlp_string(value), 0, value),
        item_size(rlp_string(value)) == rlp_string(value).len(),
        behind(rlp_string(value), 1).len() == 0,
{
    let s = rlp_string(value);
    lemma_reads_string(value);
    assert(s + Seq::<u8>::empty() =~= s);
    reveal_with_fuel(behind, 2);
}

/// The encoding of a word holds its number.
proof fn lemma_holds_word(word: Seq<u8>)
    requires
        without_leading_zeros(word).len() <= 32,
    ensures
        holds_number(rlp_string(without_leading_zeros(word)), be_value(word)),
        rlp_string(without_leading_zeros(word)).len() <= MAX_BYTE_COLUMN_NUM,
{
    reveal(holds_number);
    lemma_reads_word(word);
    lemma_holds_string(without_leading_zeros(word));
}

/// The encoding of a part of a signature holds it.
proof fn lemma_holds_u64(v: u64)
    ensures
        holds_number(rlp_string(minimal_be(v as nat)), v as int),
        rlp_string(minimal_be(v as nat)).len() <= MAX_BYTE_COLUMN_NUM,
{
    reveal(holds_number);
    lemma_minimal_be(v as nat);
    lemma_holds_string(minimal_be(v as nat));
}

/// A piece of the encoding of a string.
proof fn lemma_piece_of_string(row: Row, value: Seq<u8>)
    requires
        value.len() <= u32::MAX,
        holds_piece(row, row.tx_member, rlp_string(value), row.tx_id),
    ensures
        piece_of_string(row, value),
{
    reveal(piece_of_string);
    lemma_holds_string(value);
    assert(string_at(rlp_string(value), 0, value));
}

/// A header is read.
proof fn lemma_holds_header(base: int, len: nat)
    requires
        base == 0x80 || base == 0xc0,
        55 < len <= 0xff_ffff,
    ensures
        ({
            let header = item_header(base, len);
            &&& is_list(header) == (base == 0xc0)
            &&& header.len() == head_size(header)
            &&& body_size(header) == len
            &&& header.len() <= MAX_BYTE_COLUMN_NUM
        }),
{
    lemma_minimal_be(len);
    let digits = minimal_be(len);
    let header = item_header(base, len);
    assert(header[0] == base + 55 + digits.len());
    assert(header.subrange(1, 1 + digits.len() as int) =~= digits);
}

/// A piece of a header of a transaction gives back what the transaction says.
proof fn lemma_header_gives_back(row: Row, t: SignedView, p: int)
    requires
        is_supported(t.tx, t.signature),
        0 <= p < 3,
        holds_piece(
            row,
            tx_parts(t.tx, t.signature)[p].0,
            tx_parts(t.tx, t.signature)[p].1,
            row.tx_id,
        ),
    ensures
        gives_back(row, t),
{
    let (tx, signature) = (t.tx, t.signature);
    let item = tx_parts(tx, signature)[p].1;
    assert(tx_parts(tx, signature)[p] == header_parts(tx, signature)[p]);
    if p == 0 {
        let typed = dynamic_fee_rlp(tx, signature);
        assert(typed.len() > 55);
        lemma_holds_header(0x80, typed.len());
    } else if p == 1 {
        reveal_with_fuel(minimal_be, 2);
        assert(minimal_be(2) =~= seq![2u8]);
        assert(item =~= seq![2u8]);
    } else {
        lemma_holds_header(0xc0, concat_all(dynamic_fee_items(tx, signature)).len());
    }
}

/// A piece of one of the first fields of a transaction gives back what the transaction says.
proof fn lemma_first_gives_back(row: Row, t: SignedView, p: int)
    requires
        is_supported(t.tx, t.signature),
        3 <= p < 6,
        holds_piece(
            row,
            tx_parts(t.tx, t.signature)[p].0,
            tx_parts(t.tx, t.signature)[p].1,
            row.tx_id,
        ),
    ensures
        gives_back(row, t),
{
    let (tx, signature) = (t.tx, t.signature);
    let first = first_parts(tx);
    let item = tx_parts(tx, signature)[p].1;
    assert(tx_parts(tx, signature)[p] == first[p - 3]);
    if p == 3 {
        lemma_holds_word(tx.chain_id->0);
    } else if p == 4 {
        lemma_holds_word(tx.nonce);
    } else {
        lemma_holds_word(tx.max_priority_fee_per_gas->0);
    }
}

/// A piece of a field from the fee up to the recipient gives back what the transaction says.
proof fn lemma_fee_gives_back(row: Row, t: SignedView, p: int)
    requires
        is_supported(t.tx, t.signature),
        6 <= p < 9,
        holds_piece(
            row,
            tx_parts(t.tx, t.signature)[p].0,
            tx_parts(t.tx, t.signature)[p].1,
            row.tx_id,
        ),
    ensures
        gives_back(row, t),
{
    let (tx, signature) = (t.tx, t.signature);
    let fee = fee_parts(tx);
    let item = tx_parts(tx, signature)[p].1;
    assert(tx_parts(tx, signature)[p] == fee[p - 6]);
    if p == 6 {
        lemma_holds_word(tx.max_fee_per_gas->0);
    } else if p == 7 {
        lemma_holds_word(tx.gas);
    } else {
        assert(item == to_rlp(tx.to));
        match tx.to {
            Some(a) => {
                assert(item =~= seq![0x94u8] + a);
            },
            None => {
                assert(item =~= seq![0x80u8]);
            },
        }
    }
}

/// A piece of a field from the value up to the access list gives back what the transaction says.
proof fn lemma_data_gives_back(row: Row, t: SignedView, p: int)
    requires
        is_supported(t.tx, t.signature),
        9 <= p < 12,
        holds_piece(
            row,
            tx_parts(t.tx, t.signature)[p].0,
            tx_parts(t.tx, t.signature)[p].1,
            row.tx_id,
        ),
    ensures
        gives_back(row, t),
{
    let (tx, signature) = (t.tx, t.signature);
    let data = data_parts(tx);
    let item = tx_parts(tx, signature)[p].1;
    assert(tx_parts(tx, signature)[p] == data[p - 9]);
    if p == 9 {
        lemma_holds_word(tx.value);
    } else if p == 10 {
        lemma_input_shorter(tx, signature);
        lemma_piece_of_string(row, tx.input);
    } else {
        let none = Seq::new(0, |i: int| crate::transaction::access_item_rlp(tx.access_list->0[i]));
        assert(none =~= seq![]);
        assert(concat_all(none) =~= seq![]);
        assert(item =~= seq![0xc0u8]);
    }
}

/// A piece of the signature of a transaction gives back what it says.
proof fn lemma_signature_gives_back(row: Row, t: SignedView, p: int)
    requires
        is_supported(t.tx, t.signature),
        12 <= p < 15,
        holds_piece(
            row,
            tx_parts(t.tx, t.signature)[p].0,
            tx_parts(t.tx, t.signature)[p].1,
            row.tx_id,
        ),
    ensures
        gives_back(row, t),
{
    let (tx, signature) = (t.tx, t.signature);
    let sign = signature_parts(signature);
    let item = tx_parts(tx, signature)[p].1;
    assert(tx_parts(tx, signature)[p] == sign[p - 12]);
    if p == 12 {
        lemma_holds_u64(signature.v);
    } else if p == 13 {
        lemma_holds_word(signature.r);
    } else {
        lemma_holds_word(signature.s);
    }
}

/// A piece of a field of a transaction gives back what the transaction says.
proof fn lemma_piece_gives_back(row: Row, t: SignedView, p: int)
    requires
        is_supported(t.tx, t.signature),
        0 <= p < 15,
        holds_piece(
            row,
            tx_parts(t.tx, t.signature)[p].0,
            tx_parts(t.tx, t.signature)[p].1,
            row.tx_id,
        ),
    ensures
        gives_back(row, t),
{
    if p < 3 {
        lemma_header_gives_back(row, t, p);
    } else if p < 6 {
        lemma_first_gives_back(row, t, p);
    } else if p < 9 {
        lemma_fee_gives_back(row, t, p);
    } else if p < 12 {
        lemma_data_gives_back(row, t, p);
    } else {
        lemma_signature_gives_back(row, t, p);
    }
}

/// The rows of an encoded list give back its transactions: behind the header of the list, each row
/// belongs to the transaction that its number tells, and what it holds is read as the field of that
/// transaction that its tag tells.
pub proof fn law_rows_give_back_the_fields(
    txs: Seq<SignedView>,
    digest: Seq<u8>,
    r: int,
    m: int,
    i: int,
)
    requires
        all_supported(txs),
        concat_all(typed_strings(txs)).len() < 0x100_0000,
        2 <= i < list_rows(tx_list_rlp(txs), digest, r, m).len(),
    ensures
        ({
            let row = list_rows(tx_list_rlp(txs), digest, r, m)[i];
            &&& 1 <= row.tx_id <= txs.len()
            &&& gives_back(row, txs[row.tx_id - 1])
        }),
{
    law_encoded_list_is_given_back(txs, digest, r, m);
    let rows = list_rows(tx_list_rlp(txs), digest, r, m);
    let payload = concat_all(typed_strings(txs));
    let header = item_header(0xc0, payload.len());
    let laid = txs_laid_out(txs, 1, payload.len() as int, r, m);
    lemma_minimal_be(payload.len());
    let front = field_rows(
        0,
        RlpTxFieldTag::TxListRlpHeader,
        header,
        r,
        m,
        tx_list_rlp(txs).len() as int,
        None,
    );
    assert(header.len() <= 4);
    assert(front.len() == 1);
    let row = rows[i];
    assert(row == laid[i - 2]);
    lemma_txs_row(txs, 1, payload.len() as int, r, m, i - 2);
    let t = txs[row.tx_id - 1];
    assert(is_supported(t.tx, t.signature));
    let p = choose|p: int|
        0 <= p < 15 && holds_piece(
            row,
            (#[trigger] tx_parts(t.tx, t.signature)[p]).0,
            tx_parts(t.tx, t.signature)[p].1,
            row.tx_id,
        );
    lemma_piece_gives_back(row, t, p);
}

} // verus!
