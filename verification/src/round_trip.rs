//! The decoder accepts what is encoded.

use crate::acceptance::{law_accepted_list_satisfies_circuit, row_satisfied};
use crate::circuit::{data_rows, min_rows};
use crate::decode::{accepted, be_value, field_outcome};
use crate::laws::{law_combination_of_the_list, law_witness_ends_in_padding};
use crate::rlc::rlc_be;
use crate::rlp_decoder_tables::{tx1559_field_rules, RlpDecodeRule};
use crate::rlp_stream::{
    concat_all, item_header, minimal_be, rlp_list, rlp_string, without_leading_zeros,
};
use crate::row::{field_rows, row_count, Row, MAX_BYTE_COLUMN_NUM};
use crate::state::{
    decode_rows, finished, head_row, lemma_row_count, lemma_step_bounds, list_row_count, list_rows,
    next_tx_id, state_rule, step, step_rows, successor, NUM_BLINDING_ROWS,
};
use crate::tags::{RlpTxFieldTag, TX1559_TX_FIELD_NUM};
use crate::transaction::{
    access_item_rlp, access_list_rlp, dynamic_fee_items, dynamic_fee_rlp, to_rlp, word_rlp,
    AccessView, SignatureView, TransactionView,
};
use vstd::prelude::*;

verus! {

/// The shortest big endian form has the value, no zero in front, and few bytes.
pub proof fn lemma_minimal_be(n: nat)
    ensures
        be_value(minimal_be(n)) == n,
        n > 0 ==> minimal_be(n).len() > 0 && minimal_be(n)[0] != 0,
        n < 0x100 ==> minimal_be(n).len() <= 1,
        n < 0x1_0000 ==> minimal_be(n).len() <= 2,
        n < 0x100_0000 ==> minimal_be(n).len() <= 3,
        n >= 0x100 ==> minimal_be(n).len() >= 2,
        n < 0x1_0000_0000 ==> minimal_be(n).len() <= 4,
        n < 0x100_0000_0000 ==> minimal_be(n).len() <= 5,
        n < 0x1_0000_0000_0000 ==> minimal_be(n).len() <= 6,
        n < 0x100_0000_0000_0000 ==> minimal_be(n).len() <= 7,
        n < 0x1_0000_0000_0000_0000 ==> minimal_be(n).len() <= 8,
    decreases n,
{
    if n > 0 {
        lemma_minimal_be(n / 256);
        let digits = minimal_be(n);
        assert(digits.drop_last() =~= minimal_be(n / 256));
        assert(digits.last() == n % 256);
    }
}

/// Stripping the zeros in front leaves none in front.
pub proof fn lemma_without_leading_zeros(bytes: Seq<u8>)
    ensures
        without_leading_zeros(bytes).len() <= bytes.len(),
        without_leading_zeros(bytes).len() > 0 ==> without_leading_zeros(bytes)[0] != 0,
    decreases bytes.len(),
{
    if bytes.len() > 0 && bytes[0] == 0 {
        lemma_without_leading_zeros(bytes.skip(1));
    }
}

/// The field `state` at the front of `bytes` is accepted and takes `n` bytes.
pub open spec fn takes(state: RlpTxFieldTag, bytes: Seq<u8>, n: int) -> bool {
    field_outcome(state_rule(state, bytes), bytes) == accepted(n)
}

/// An integer is accepted.
proof fn lemma_uint(state: RlpTxFieldTag, digits: Seq<u8>, rest: Seq<u8>)
    requires
        tx1559_field_rules(state).len() == 1,
        tx1559_field_rules(state)[0] == RlpDecodeRule::Uint96 || tx1559_field_rules(state)[0]
            == RlpDecodeRule::Uint256,
        digits.len() > 0 ==> digits[0] != 0,
        tx1559_field_rules(state)[0] == RlpDecodeRule::Uint96 ==> digits.len() <= 12,
        tx1559_field_rules(state)[0] == RlpDecodeRule::Uint256 ==> digits.len() <= 32,
    ensures
        takes(state, rlp_string(digits) + rest, rlp_string(digits).len() as int),
        0 < rlp_string(digits).len() <= MAX_BYTE_COLUMN_NUM,
{
    let item = rlp_string(digits);
    let bytes = item + rest;
    if digits.len() == 1 && digits[0] < 0x80 {
        assert(bytes[0] == digits[0]);
    } else {
        assert(bytes[0] == 0x80 + digits.len());
        if digits.len() > 0 {
            assert(bytes[1] == digits[0]);
        }
    }
}

/// A recipient is accepted.
proof fn lemma_to(to: Option<Seq<u8>>, rest: Seq<u8>)
    requires
        to matches Some(a) ==> a.len() == 20,
    ensures
        takes(RlpTxFieldTag::To, to_rlp(to) + rest, to_rlp(to).len() as int),
        0 < to_rlp(to).len() <= MAX_BYTE_COLUMN_NUM,
{
    let bytes = to_rlp(to) + rest;
    match to {
        Some(a) => {
            assert(bytes[0] == 0x94);
        },
        None => {
            assert(bytes[0] == 0x80);
        },
    }
}

/// The header of a long item.
proof fn lemma_long_header(base: int, len: nat, rest: Seq<u8>)
    requires
        55 < len < 0x100_0000,
        0 <= base,
        base + 58 <= 0xff,
    ensures
        ({
            let header = item_header(base, len);
            let bytes = header + rest;
            let len_of_len = header.len() - 1;
            &&& 1 <= len_of_len <= 3
            &&& bytes[0] == base + 55 + len_of_len
            &&& bytes.subrange(1, 1 + len_of_len) == minimal_be(len)
            &&& be_value(bytes.subrange(1, 1 + len_of_len)) == len
            &&& len_of_len == 1 ==> bytes[1] > 55
            &&& len_of_len > 1 ==> bytes[1] != 0
        }),
{
    lemma_minimal_be(len);
    let digits = minimal_be(len);
    let header = item_header(base, len);
    let bytes = header + rest;
    assert(bytes.subrange(1, 1 + digits.len() as int) =~= digits);
    assert(bytes[1] == digits[0]);
    if digits.len() == 1 {
        reveal_with_fuel(be_value, 2);
        assert(digits.drop_last() =~= seq![]);
        assert(be_value(digits) == digits[0]);
    }
}

/// Data of less than 16 million bytes is accepted.
proof fn lemma_data(input: Seq<u8>, rest: Seq<u8>)
    requires
        input.len() < 0x100_0000,
    ensures
        takes(RlpTxFieldTag::Data, rlp_string(input) + rest, rlp_string(input).len() as int),
        0 < rlp_string(input).len() <= input.len() + 4,
{
    let item = rlp_string(input);
    let bytes = item + rest;
    if input.len() == 1 && input[0] < 0x80 {
        assert(bytes[0] == input[0]);
    } else if input.len() <= 55 {
        assert(bytes[0] == 0x80 + input.len());
        if input.len() > 0 {
            assert(bytes[1] == input[0]);
        }
    } else {
        lemma_long_header(0x80, input.len(), input + rest);
        assert(bytes =~= item_header(0x80, input.len()) + (input + rest));
    }
}

/// The header of a long string with its payload behind it is accepted.
proof fn lemma_typed_header(len: nat, rest: Seq<u8>)
    requires
        55 < len < 0x100_0000,
        rest.len() >= len,
    ensures
        takes(
            RlpTxFieldTag::TypedTxHeader,
            item_header(0x80, len) + rest,
            item_header(0x80, len).len() as int,
        ),
        0 < item_header(0x80, len).len() <= MAX_BYTE_COLUMN_NUM,
{
    lemma_long_header(0x80, len, rest);
}

/// The header of a long list with its payload behind it is accepted.
proof fn lemma_list_header(state: RlpTxFieldTag, len: nat, rest: Seq<u8>)
    requires
        state == RlpTxFieldTag::TxListRlpHeader || state == RlpTxFieldTag::TxRlpHeader,
        55 < len < 0x100_0000,
        rest.len() >= len,
    ensures
        takes(state, item_header(0xc0, len) + rest, item_header(0xc0, len).len() as int),
        0 < item_header(0xc0, len).len() <= MAX_BYTE_COLUMN_NUM,
{
    lemma_long_header(0xc0, len, rest);
}

/// A field with its bytes.
pub type Part = (RlpTxFieldTag, Seq<u8>);

/// The rows of fields that follow each other, when `left` bytes are left in front of the first of
/// them, and then the rows `after`.
pub open spec fn laid_out(
    parts: Seq<Part>,
    tx_id: int,
    left: int,
    r: int,
    m: int,
    after: Seq<Row>,
) -> Seq<Row>
    decreases parts.len(),
{
    if parts.len() == 0 {
        after
    } else {
        let (state, item) = parts[0];
        field_rows(tx_id, state, item, r, m, left, None) + laid_out(
            parts.skip(1),
            tx_id,
            left - item.len(),
            r,
            m,
            after,
        )
    }
}

/// From `state` on, all of `bytes` is accepted in the `n` rows `rows`, with no byte left over.
pub open spec fn accepted_in(
    state: RlpTxFieldTag,
    tx_id: int,
    bytes: Seq<u8>,
    r: int,
    m: int,
    n: nat,
    rows: Seq<Row>,
) -> bool {
    &&& state != RlpTxFieldTag::Padding
    &&& rows == decode_rows(state, tx_id, bytes, r, m)
    &&& rows.len() == n
    &&& n > 0
    &&& rows.last().valid
    &&& rows.last().rlp_remain_length == 0
}

/// A field that is accepted in front of what is accepted.
proof fn lemma_advance(
    state: RlpTxFieldTag,
    tx_id: int,
    item: Seq<u8>,
    rest: Seq<u8>,
    r: int,
    m: int,
    n: nat,
    more: Seq<Part>,
    after: Seq<Row>,
)
    requires
        state != RlpTxFieldTag::TxListRlpHeader,
        state != RlpTxFieldTag::DecodeError,
        state != RlpTxFieldTag::Padding,
        takes(state, item + rest, item.len() as int),
        ({
            let next = successor(state, rest.len() == 0);
            accepted_in(
                next,
                next_tx_id(tx_id, next),
                rest,
                r,
                m,
                n,
                laid_out(more, tx_id, rest.len() as int, r, m, after),
            )
        }),
    ensures
        accepted_in(
            state,
            tx_id,
            item + rest,
            r,
            m,
            n + row_count(item.len()),
            laid_out(
                seq![(state, item)] + more,
                tx_id,
                (item + rest).len() as int,
                r,
                m,
                after,
            ),
        ),
{
    let bytes = item + rest;
    let len = bytes.len() as int;
    reveal(step);
    reveal(step_rows);
    lemma_step_bounds(state, bytes, len);
    let s = step(state, bytes, len);
    assert(bytes.skip(item.len() as int) =~= rest);
    assert(bytes.take(item.len() as int) =~= item);
    let next = successor(state, rest.len() == 0);
    let front = step_rows(state, tx_id, bytes, len, r, m);
    let back = decode_rows(next, next_tx_id(tx_id, next), rest, r, m);
    assert(decode_rows(state, tx_id, bytes, r, m) == front + back);
    assert((front + back).last() == back.last());
    let parts = seq![(state, item)] + more;
    assert(parts.skip(1) =~= more);
    assert(parts[0] == (state, item));
    assert(front == field_rows(tx_id, state, item, r, m, len, None));
}

/// An access list without items is accepted.
proof fn lemma_access_list(rest: Seq<u8>)
    ensures
        access_list_rlp(seq![]) == seq![0xc0u8],
        takes(RlpTxFieldTag::AccessList, access_list_rlp(seq![]) + rest, 1),
{
    let items = Seq::<AccessView>::empty();
    let none = Seq::new(0, |i: int| access_item_rlp(items[i]));
    assert(none =~= seq![]);
    assert(concat_all(none) =~= seq![]);
    assert(access_list_rlp(seq![]) =~= seq![0xc0u8]);
    let bytes = access_list_rlp(seq![]) + rest;
    assert(bytes[0] == 0xc0);
}

/// The last field of the last transaction is accepted.
proof fn lemma_last_field(tx_id: int, digits: Seq<u8>, r: int, m: int)
    requires
        digits.len() <= 32,
        digits.len() > 0 ==> digits[0] != 0,
    ensures
        accepted_in(
            RlpTxFieldTag::SignS,
            tx_id,
            rlp_string(digits),
            r,
            m,
            1,
            laid_out(
                seq![(RlpTxFieldTag::SignS, rlp_string(digits))],
                tx_id,
                rlp_string(digits).len() as int,
                r,
                m,
                seq![],
            ),
        ),
{
    let bytes = rlp_string(digits);
    let len = bytes.len() as int;
    lemma_uint(RlpTxFieldTag::SignS, digits, seq![]);
    assert(bytes + seq![] =~= bytes);
    reveal(step);
    reveal(step_rows);
    let s = step(RlpTxFieldTag::SignS, bytes, len);
    assert(s.next == RlpTxFieldTag::Padding);
    let rows = step_rows(RlpTxFieldTag::SignS, tx_id, bytes, len, r, m);
    assert(rows.len() == 1);
    assert(decode_rows(RlpTxFieldTag::SignS, tx_id, bytes, r, m) =~= rows) by {
        assert(decode_rows(
            RlpTxFieldTag::Padding,
            next_tx_id(tx_id, RlpTxFieldTag::Padding),
            bytes.skip(s.consumed),
            r,
            m,
        ) =~= seq![]);
    }
    let parts = seq![(RlpTxFieldTag::SignS, bytes)];
    assert(parts.skip(1) =~= seq![]);
    assert(bytes.take(len) =~= bytes);
    assert(laid_out(parts, tx_id, len, r, m, seq![]) =~= rows) by {
        reveal_with_fuel(laid_out, 2);
    }
}

/// A number of at most 96 bits.
pub open spec fn is_uint96(word: Seq<u8>) -> bool {
    without_leading_zeros(word).len() <= 12
}

/// A number of at most 256 bits.
pub open spec fn is_scalar(word: Seq<u8>) -> bool {
    without_leading_zeros(word).len() <= 32
}

/// The decoder has room for the fields of a signed dynamic fee transaction: its numbers are of at
/// most 96 bits, its access list is empty, and both of its headers are long ones.
pub open spec fn is_supported(tx: TransactionView, signature: SignatureView) -> bool {
    &&& tx.chain_id matches Some(w) && is_uint96(w)
    &&& is_uint96(tx.nonce)
    &&& tx.max_priority_fee_per_gas matches Some(w) && is_uint96(w)
    &&& tx.max_fee_per_gas matches Some(w) && is_uint96(w)
    &&& is_uint96(tx.gas)
    &&& tx.to matches Some(a) ==> a.len() == 20
    &&& is_uint96(tx.value)
    &&& tx.access_list == Some(Seq::<AccessView>::empty())
    &&& is_scalar(signature.r)
    &&& is_scalar(signature.s)
    &&& concat_all(dynamic_fee_items(tx, signature)).len() > 55
    &&& dynamic_fee_rlp(tx, signature).len() < 0x100_0000
}

/// The rows of the data of a transaction.
pub open spec fn input_rows(tx: TransactionView) -> nat {
    row_count(rlp_string(tx.input).len())
}

/// The rows of a transaction: those of its data, and one for each of the other fields.
pub open spec fn tx_rows(tx: TransactionView) -> nat {
    14 + input_rows(tx)
}

/// The parts, the first of them taken out.
proof fn lemma_concat_first(parts: Seq<Seq<u8>>)
    requires
        parts.len() > 0,
    ensures
        concat_all(parts) == parts[0] + concat_all(parts.skip(1)),
    decreases parts.len(),
{
    let rest = parts.skip(1);
    if parts.len() == 1 {
        assert(parts.drop_last() =~= seq![]);
        assert(rest =~= seq![]);
        assert(concat_all(parts) =~= parts[0] + concat_all(rest));
    } else {
        lemma_concat_first(parts.drop_last());
        assert(parts.drop_last().skip(1) =~= rest.drop_last());
        assert(concat_all(parts) =~= parts[0] + concat_all(rest));
    }
}

/// Twelve parts, one after the other, in front of `rest`.
proof fn lemma_twelve_parts(parts: Seq<Seq<u8>>, rest: Seq<u8>)
    requires
        parts.len() == 12,
    ensures
        concat_all(parts) + rest == parts[0] + (parts[1] + (parts[2] + (parts[3] + (parts[4] + (
        parts[5] + (parts[6] + (parts[7] + (parts[8] + (parts[9] + (parts[10] + (parts[11]
            + rest))))))))))),
{
    lemma_tail_parts(parts, rest, 0);
    lemma_tail_parts(parts, rest, 1);
    lemma_tail_parts(parts, rest, 2);
    lemma_tail_parts(parts, rest, 3);
    lemma_tail_parts(parts, rest, 4);
    lemma_tail_parts(parts, rest, 5);
    lemma_tail_parts(parts, rest, 6);
    lemma_tail_parts(parts, rest, 7);
    lemma_tail_parts(parts, rest, 8);
    lemma_tail_parts(parts, rest, 9);
    lemma_tail_parts(parts, rest, 10);
    lemma_tail_parts(parts, rest, 11);
    assert(parts.skip(0) =~= parts);
    assert(parts.skip(12) =~= seq![]);
    assert(concat_all(parts.skip(12)) + rest =~= rest);
}

/// The parts from one on: that one, and those behind it.
pub proof fn lemma_tail_parts(parts: Seq<Seq<u8>>, rest: Seq<u8>, k: int)
    requires
        0 <= k < parts.len(),
    ensures
        concat_all(parts.skip(k)) + rest == parts[k] + (concat_all(parts.skip(k + 1)) + rest),
{
    lemma_concat_first(parts.skip(k));
    assert(parts.skip(k).skip(1) =~= parts.skip(k + 1));
    assert(concat_all(parts.skip(k)) + rest =~= parts[k] + (concat_all(parts.skip(k + 1)) + rest));
}

/// What follows the last field of a transaction: nothing, or the `n` rows `rows` of the next
/// transaction.
pub open spec fn continues(
    tx_id: int,
    rest: Seq<u8>,
    r: int,
    m: int,
    n: nat,
    rows: Seq<Row>,
) -> bool {
    if rest.len() == 0 {
        n == 0 && rows == Seq::<Row>::empty()
    } else {
        accepted_in(RlpTxFieldTag::TypedTxHeader, tx_id + 1, rest, r, m, n, rows)
    }
}

/// The fields of the signature of a transaction.
pub open spec fn signature_parts(signature: SignatureView) -> Seq<Part> {
    seq![
        (RlpTxFieldTag::SignV, rlp_string(minimal_be(signature.v as nat))),
        (RlpTxFieldTag::SignR, word_rlp(signature.r)),
        (RlpTxFieldTag::SignS, word_rlp(signature.s)),
    ]
}

/// The fields of a transaction from its value up to its access list.
pub open spec fn data_parts(tx: TransactionView) -> Seq<Part> {
    seq![
        (RlpTxFieldTag::Value, word_rlp(tx.value)),
        (RlpTxFieldTag::Data, rlp_string(tx.input)),
        (RlpTxFieldTag::AccessList, access_list_rlp(tx.access_list->0)),
    ]
}

/// The fields of a transaction from its fee up to its recipient.
pub open spec fn fee_parts(tx: TransactionView) -> Seq<Part> {
    seq![
        (RlpTxFieldTag::GasFeeCap, word_rlp(tx.max_fee_per_gas->0)),
        (RlpTxFieldTag::Gas, word_rlp(tx.gas)),
        (RlpTxFieldTag::To, to_rlp(tx.to)),
    ]
}

/// The first fields of a transaction.
pub open spec fn first_parts(tx: TransactionView) -> Seq<Part> {
    seq![
        (RlpTxFieldTag::ChainID, word_rlp(tx.chain_id->0)),
        (RlpTxFieldTag::Nonce, word_rlp(tx.nonce)),
        (RlpTxFieldTag::GasTipCap, word_rlp(tx.max_priority_fee_per_gas->0)),
    ]
}

/// The headers of a transaction, with its type between them.
pub open spec fn header_parts(tx: TransactionView, signature: SignatureView) -> Seq<Part> {
    let payload = concat_all(dynamic_fee_items(tx, signature));
    seq![
        (
            RlpTxFieldTag::TypedTxHeader,
            item_header(0x80, dynamic_fee_rlp(tx, signature).len()),
        ),
        (RlpTxFieldTag::TxType, rlp_string(minimal_be(2))),
        (RlpTxFieldTag::TxRlpHeader, item_header(0xc0, payload.len())),
    ]
}

/// All the fields of a transaction but its headers.
pub open spec fn field_parts(tx: TransactionView, signature: SignatureView) -> Seq<Part> {
    first_parts(tx) + (fee_parts(tx) + (data_parts(tx) + signature_parts(signature)))
}

/// All the fields of a signed dynamic fee transaction, in order.
pub open spec fn tx_parts(tx: TransactionView, signature: SignatureView) -> Seq<Part> {
    header_parts(tx, signature) + field_parts(tx, signature)
}

/// The fields of a signature are accepted.
proof fn lemma_signature_fields(
    signature: SignatureView,
    tx_id: int,
    rest: Seq<u8>,
    r: int,
    m: int,
    n: nat,
    after: Seq<Row>,
)
    requires
        is_scalar(signature.r),
        is_scalar(signature.s),
        continues(tx_id, rest, r, m, n, after),
    ensures
        ({
            let parts = signature_parts(signature);
            let bytes = parts[0].1 + (parts[1].1 + (parts[2].1 + rest));
            accepted_in(
                RlpTxFieldTag::SignV,
                tx_id,
                bytes,
                r,
                m,
                n + 3,
                laid_out(parts, tx_id, bytes.len() as int, r, m, after),
            )
        }),
{
    let parts = signature_parts(signature);
    let (v, sr, ss) = (parts[0].1, parts[1].1, parts[2].1);
    let none = Seq::<Part>::empty();
    let last = seq![(RlpTxFieldTag::SignS, ss)];
    let tail_s = ss + rest;
    lemma_without_leading_zeros(signature.s);
    assert(last + none =~= last);
    if rest.len() == 0 {
        assert(tail_s =~= ss);
        assert(after =~= seq![]);
        lemma_last_field(tx_id, without_leading_zeros(signature.s), r, m);
    } else {
        lemma_uint(RlpTxFieldTag::SignS, without_leading_zeros(signature.s), rest);
        lemma_advance(RlpTxFieldTag::SignS, tx_id, ss, rest, r, m, n, none, after);
    }
    assert(accepted_in(
        RlpTxFieldTag::SignS,
        tx_id,
        tail_s,
        r,
        m,
        n + 1,
        laid_out(last, tx_id, tail_s.len() as int, r, m, after),
    ));
    let two = seq![(RlpTxFieldTag::SignR, sr)] + last;
    lemma_without_leading_zeros(signature.r);
    lemma_uint(RlpTxFieldTag::SignR, without_leading_zeros(signature.r), tail_s);
    lemma_advance(RlpTxFieldTag::SignR, tx_id, sr, tail_s, r, m, n + 1, last, after);
    let tail_r = sr + tail_s;
    lemma_minimal_be(signature.v as nat);
    lemma_uint(RlpTxFieldTag::SignV, minimal_be(signature.v as nat), tail_r);
    lemma_advance(RlpTxFieldTag::SignV, tx_id, v, tail_r, r, m, n + 2, two, after);
    assert(seq![(RlpTxFieldTag::SignV, v)] + two =~= parts);
}

/// The fields from the value up to the access list are accepted.
proof fn lemma_data_fields(
    tx: TransactionView,
    signature: SignatureView,
    tx_id: int,
    rest: Seq<u8>,
    r: int,
    m: int,
    n: nat,
    more: Seq<Part>,
    after: Seq<Row>,
)
    requires
        is_supported(tx, signature),
        tx.input.len() < 0x100_0000,
        accepted_in(
            RlpTxFieldTag::SignV,
            tx_id,
            rest,
            r,
            m,
            n,
            laid_out(more, tx_id, rest.len() as int, r, m, after),
        ),
    ensures
        ({
            let parts = data_parts(tx);
            let bytes = parts[0].1 + (parts[1].1 + (parts[2].1 + rest));
            accepted_in(
                RlpTxFieldTag::Value,
                tx_id,
                bytes,
                r,
                m,
                n + input_rows(tx) + 2,
                laid_out(parts + more, tx_id, bytes.len() as int, r, m, after),
            )
        }),
{
    let parts = data_parts(tx);
    let (value, data, list) = (parts[0].1, parts[1].1, parts[2].1);
    lemma_access_list(rest);
    lemma_advance(RlpTxFieldTag::AccessList, tx_id, list, rest, r, m, n, more, after);
    let more_2 = seq![(RlpTxFieldTag::AccessList, list)] + more;
    let tail_2 = list + rest;
    lemma_data(tx.input, tail_2);
    lemma_advance(RlpTxFieldTag::Data, tx_id, data, tail_2, r, m, n + 1, more_2, after);
    let more_1 = seq![(RlpTxFieldTag::Data, data)] + more_2;
    let tail_1 = data + tail_2;
    lemma_without_leading_zeros(tx.value);
    lemma_uint(RlpTxFieldTag::Value, without_leading_zeros(tx.value), tail_1);
    lemma_advance(
        RlpTxFieldTag::Value,
        tx_id,
        value,
        tail_1,
        r,
        m,
        n + 1 + input_rows(tx),
        more_1,
        after,
    );
    assert(seq![(RlpTxFieldTag::Value, value)] + more_1 =~= parts + more);
}

/// The fields from the fee up to the recipient are accepted.
proof fn lemma_fee_fields(
    tx: TransactionView,
    signature: SignatureView,
    tx_id: int,
    rest: Seq<u8>,
    r: int,
    m: int,
    n: nat,
    more: Seq<Part>,
    after: Seq<Row>,
)
    requires
        is_supported(tx, signature),
        accepted_in(
            RlpTxFieldTag::Value,
            tx_id,
            rest,
            r,
            m,
            n,
            laid_out(more, tx_id, rest.len() as int, r, m, after),
        ),
    ensures
        ({
            let parts = fee_parts(tx);
            let bytes = parts[0].1 + (parts[1].1 + (parts[2].1 + rest));
            accepted_in(
                RlpTxFieldTag::GasFeeCap,
                tx_id,
                bytes,
                r,
                m,
                n + 3,
                laid_out(parts + more, tx_id, bytes.len() as int, r, m, after),
            )
        }),
{
    let parts = fee_parts(tx);
    let (fee, gas, to) = (parts[0].1, parts[1].1, parts[2].1);
    lemma_to(tx.to, rest);
    lemma_advance(RlpTxFieldTag::To, tx_id, to, rest, r, m, n, more, after);
    let more_2 = seq![(RlpTxFieldTag::To, to)] + more;
    let tail_2 = to + rest;
    lemma_without_leading_zeros(tx.gas);
    lemma_uint(RlpTxFieldTag::Gas, without_leading_zeros(tx.gas), tail_2);
    lemma_advance(RlpTxFieldTag::Gas, tx_id, gas, tail_2, r, m, n + 1, more_2, after);
    let more_1 = seq![(RlpTxFieldTag::Gas, gas)] + more_2;
    let tail_1 = gas + tail_2;
    lemma_without_leading_zeros(tx.max_fee_per_gas->0);
    lemma_uint(RlpTxFieldTag::GasFeeCap, without_leading_zeros(tx.max_fee_per_gas->0), tail_1);
    lemma_advance(RlpTxFieldTag::GasFeeCap, tx_id, fee, tail_1, r, m, n + 2, more_1, after);
    assert(seq![(RlpTxFieldTag::GasFeeCap, fee)] + more_1 =~= parts + more);
}

/// The first fields are accepted.
proof fn lemma_first_fields(
    tx: TransactionView,
    signature: SignatureView,
    tx_id: int,
    rest: Seq<u8>,
    r: int,
    m: int,
    n: nat,
    more: Seq<Part>,
    after: Seq<Row>,
)
    requires
        is_supported(tx, signature),
        accepted_in(
            RlpTxFieldTag::GasFeeCap,
            tx_id,
            rest,
            r,
            m,
            n,
            laid_out(more, tx_id, rest.len() as int, r, m, after),
        ),
    ensures
        ({
            let parts = first_parts(tx);
            let bytes = parts[0].1 + (parts[1].1 + (parts[2].1 + rest));
            accepted_in(
                RlpTxFieldTag::ChainID,
                tx_id,
                bytes,
                r,
                m,
                n + 3,
                laid_out(parts + more, tx_id, bytes.len() as int, r, m, after),
            )
        }),
{
    let parts = first_parts(tx);
    let (chain, nonce, tip) = (parts[0].1, parts[1].1, parts[2].1);
    lemma_without_leading_zeros(tx.max_priority_fee_per_gas->0);
    lemma_uint(
        RlpTxFieldTag::GasTipCap,
        without_leading_zeros(tx.max_priority_fee_per_gas->0),
        rest,
    );
    lemma_advance(RlpTxFieldTag::GasTipCap, tx_id, tip, rest, r, m, n, more, after);
    let more_2 = seq![(RlpTxFieldTag::GasTipCap, tip)] + more;
    let tail_2 = tip + rest;
    lemma_without_leading_zeros(tx.nonce);
    lemma_uint(RlpTxFieldTag::Nonce, without_leading_zeros(tx.nonce), tail_2);
    lemma_advance(RlpTxFieldTag::Nonce, tx_id, nonce, tail_2, r, m, n + 1, more_2, after);
    let more_1 = seq![(RlpTxFieldTag::Nonce, nonce)] + more_2;
    let tail_1 = nonce + tail_2;
    lemma_without_leading_zeros(tx.chain_id->0);
    lemma_uint(RlpTxFieldTag::ChainID, without_leading_zeros(tx.chain_id->0), tail_1);
    lemma_advance(RlpTxFieldTag::ChainID, tx_id, chain, tail_1, r, m, n + 2, more_1, after);
    assert(seq![(RlpTxFieldTag::ChainID, chain)] + more_1 =~= parts + more);
}

/// The fields of a transaction are accepted.
proof fn lemma_fields(
    tx: TransactionView,
    signature: SignatureView,
    tx_id: int,
    rest: Seq<u8>,
    r: int,
    m: int,
    n: nat,
    after: Seq<Row>,
)
    requires
        is_supported(tx, signature),
        tx.input.len() < 0x100_0000,
        continues(tx_id, rest, r, m, n, after),
    ensures
        ({
            let bytes = concat_all(dynamic_fee_items(tx, signature)) + rest;
            accepted_in(
                RlpTxFieldTag::ChainID,
                tx_id,
                bytes,
                r,
                m,
                n + input_rows(tx) + 11,
                laid_out(field_parts(tx, signature), tx_id, bytes.len() as int, r, m, after),
            )
        }),
{
    let items = dynamic_fee_items(tx, signature);
    lemma_twelve_parts(items, rest);
    let signed = signature_parts(signature);
    let tail_9 = items[9] + (items[10] + (items[11] + rest));
    lemma_signature_fields(signature, tx_id, rest, r, m, n, after);
    let more_6 = data_parts(tx) + signed;
    let tail_6 = items[6] + (items[7] + (items[8] + tail_9));
    lemma_data_fields(tx, signature, tx_id, tail_9, r, m, n + 3, signed, after);
    let more_3 = fee_parts(tx) + more_6;
    let tail_3 = items[3] + (items[4] + (items[5] + tail_6));
    lemma_fee_fields(
        tx,
        signature,
        tx_id,
        tail_6,
        r,
        m,
        n + 5 + input_rows(tx),
        more_6,
        after,
    );
    lemma_first_fields(
        tx,
        signature,
        tx_id,
        tail_3,
        r,
        m,
        n + 8 + input_rows(tx),
        more_3,
        after,
    );
}

/// The type of a transaction and the header of its fields are accepted.
proof fn lemma_tx_body(
    tx: TransactionView,
    signature: SignatureView,
    tx_id: int,
    rest: Seq<u8>,
    r: int,
    m: int,
    n: nat,
    after: Seq<Row>,
)
    requires
        is_supported(tx, signature),
        continues(tx_id, rest, r, m, n, after),
    ensures
        ({
            let bytes = dynamic_fee_rlp(tx, signature) + rest;
            accepted_in(
                RlpTxFieldTag::TxType,
                tx_id,
                bytes,
                r,
                m,
                n + input_rows(tx) + 13,
                laid_out(
                    header_parts(tx, signature).skip(1) + field_parts(tx, signature),
                    tx_id,
                    bytes.len() as int,
                    r,
                    m,
                    after,
                ),
            )
        }),
{
    let payload = concat_all(dynamic_fee_items(tx, signature));
    let tag = rlp_string(minimal_be(2));
    let header = item_header(0xc0, payload.len());
    let fields = payload + rest;
    let body = header + fields;
    let more = field_parts(tx, signature);
    lemma_input_shorter(tx, signature);
    lemma_fields(tx, signature, tx_id, rest, r, m, n, after);
    lemma_list_header(RlpTxFieldTag::TxRlpHeader, payload.len(), fields);
    lemma_advance(
        RlpTxFieldTag::TxRlpHeader,
        tx_id,
        header,
        fields,
        r,
        m,
        n + input_rows(tx) + 11,
        more,
        after,
    );
    let more_1 = seq![(RlpTxFieldTag::TxRlpHeader, header)] + more;
    assert(minimal_be(2) =~= seq![2u8]) by {
        reveal_with_fuel(minimal_be, 2);
    }
    assert(tag =~= seq![2u8]);
    assert((tag + body)[0] == 2);
    assert(takes(RlpTxFieldTag::TxType, tag + body, 1));
    lemma_advance(
        RlpTxFieldTag::TxType,
        tx_id,
        tag,
        body,
        r,
        m,
        n + input_rows(tx) + 12,
        more_1,
        after,
    );
    assert(seq![(RlpTxFieldTag::TxType, tag)] + more_1 =~= header_parts(tx, signature).skip(1)
        + more);
    assert(dynamic_fee_rlp(tx, signature) + rest =~= tag + body);
}

/// A signed dynamic fee transaction is accepted.
proof fn lemma_tx(
    tx: TransactionView,
    signature: SignatureView,
    tx_id: int,
    rest: Seq<u8>,
    r: int,
    m: int,
    n: nat,
    after: Seq<Row>,
)
    requires
        is_supported(tx, signature),
        continues(tx_id, rest, r, m, n, after),
    ensures
        ({
            let bytes = rlp_string(dynamic_fee_rlp(tx, signature)) + rest;
            accepted_in(
                RlpTxFieldTag::TypedTxHeader,
                tx_id,
                bytes,
                r,
                m,
                n + tx_rows(tx),
                laid_out(tx_parts(tx, signature), tx_id, bytes.len() as int, r, m, after),
            )
        }),
{
    let typed = dynamic_fee_rlp(tx, signature);
    let outer = item_header(0x80, typed.len());
    let more = header_parts(tx, signature).skip(1) + field_parts(tx, signature);
    lemma_tx_body(tx, signature, tx_id, rest, r, m, n, after);
    lemma_typed_header(typed.len(), typed + rest);
    lemma_advance(
        RlpTxFieldTag::TypedTxHeader,
        tx_id,
        outer,
        typed + rest,
        r,
        m,
        n + input_rows(tx) + 13,
        more,
        after,
    );
    assert(seq![(RlpTxFieldTag::TypedTxHeader, outer)] + more =~= tx_parts(tx, signature));
    assert(rlp_string(typed) + rest =~= outer + (typed + rest));
}

/// A signed transaction, as bytes.
pub struct SignedView {
    pub tx: TransactionView,
    pub signature: SignatureView,
}

/// The encodings of signed dynamic fee transactions, each of them as a string.
pub open spec fn typed_strings(txs: Seq<SignedView>) -> Seq<Seq<u8>> {
    Seq::new(txs.len(), |i: int| rlp_string(dynamic_fee_rlp(txs[i].tx, txs[i].signature)))
}

/// The list of signed dynamic fee transactions in the recursive length prefix format.
pub open spec fn tx_list_rlp(txs: Seq<SignedView>) -> Seq<u8> {
    rlp_list(concat_all(typed_strings(txs)))
}

/// The rows of all the transactions.
pub open spec fn txs_rows(txs: Seq<SignedView>) -> nat
    decreases txs.len(),
{
    if txs.len() == 0 {
        0
    } else {
        tx_rows(txs[0].tx) + txs_rows(txs.skip(1))
    }
}

/// The rows of transactions numbered from `tx_id` on, when `left` bytes are left in front of them:
/// those of their fields.
pub open spec fn txs_laid_out(
    txs: Seq<SignedView>,
    tx_id: int,
    left: int,
    r: int,
    m: int,
) -> Seq<Row>
    decreases txs.len(),
{
    if txs.len() == 0 {
        seq![]
    } else {
        let (tx, signature) = (txs[0].tx, txs[0].signature);
        let rest = left - rlp_string(dynamic_fee_rlp(tx, signature)).len();
        laid_out(
            tx_parts(tx, signature),
            tx_id,
            left,
            r,
            m,
            txs_laid_out(txs.skip(1), tx_id + 1, rest, r, m),
        )
    }
}

/// There are transactions, and the decoder has room for each of them.
pub open spec fn all_supported(txs: Seq<SignedView>) -> bool {
    &&& txs.len() > 0
    &&& forall|i: int|
        0 <= i < txs.len() ==> is_supported((#[trigger] txs[i]).tx, txs[i].signature)
}

/// The transactions of a list are accepted.
proof fn lemma_txs(txs: Seq<SignedView>, tx_id: int, r: int, m: int)
    requires
        all_supported(txs),
    ensures
        accepted_in(
            RlpTxFieldTag::TypedTxHeader,
            tx_id,
            concat_all(typed_strings(txs)),
            r,
            m,
            txs_rows(txs),
            txs_laid_out(txs, tx_id, concat_all(typed_strings(txs)).len() as int, r, m),
        ),
        concat_all(typed_strings(txs)).len() > 0,
    decreases txs.len(),
{
    let strings = typed_strings(txs);
    let more = txs.skip(1);
    let rest = concat_all(typed_strings(more));
    lemma_concat_first(strings);
    assert(strings.skip(1) =~= typed_strings(more));
    assert(is_supported(txs[0].tx, txs[0].signature));
    if more.len() == 0 {
        assert(typed_strings(more) =~= seq![]);
        assert(rest =~= seq![]);
    } else {
        assert forall|i: int| 0 <= i < more.len() implies is_supported(
            (#[trigger] more[i]).tx,
            more[i].signature,
        ) by {
            assert(more[i] == txs[i + 1]);
        }
        lemma_txs(more, tx_id + 1, r, m);
    }
    lemma_tx(
        txs[0].tx,
        txs[0].signature,
        tx_id,
        rest,
        r,
        m,
        txs_rows(more),
        txs_laid_out(more, tx_id + 1, rest.len() as int, r, m),
    );
}

/// The string of an encoded transaction is long.
proof fn lemma_long_payload(txs: Seq<SignedView>)
    requires
        all_supported(txs),
    ensures
        concat_all(typed_strings(txs)).len() > 55,
{
    let strings = typed_strings(txs);
    lemma_concat_first(strings);
    assert(is_supported(txs[0].tx, txs[0].signature));
    assert(strings[0].len() > 55);
}

/// What is encoded is given back: the decoder takes every list of signed dynamic fee transactions
/// that it has room for, up to its last byte, and lays out the header of the list and then the
/// encodings of the fields of each transaction, in order, each of them in rows of its own. These
/// are one row for each field other than the data, and the rows of the data.
pub proof fn law_encoded_list_is_given_back(
    txs: Seq<SignedView>,
    digest: Seq<u8>,
    r: int,
    m: int,
)
    requires
        all_supported(txs),
        concat_all(typed_strings(txs)).len() < 0x100_0000,
    ensures
        ({
            let rows = list_rows(tx_list_rlp(txs), digest, r, m);
            let (bytes, payload) = (tx_list_rlp(txs), concat_all(typed_strings(txs)));
            &&& rows.last().valid
            &&& rows.last().rlp_remain_length == 0
            &&& rows.len() == 2 + txs_rows(txs)
            &&& rows == seq![head_row(bytes, digest, r, m)] + (field_rows(
                0,
                RlpTxFieldTag::TxListRlpHeader,
                item_header(0xc0, payload.len()),
                r,
                m,
                bytes.len() as int,
                None,
            ) + txs_laid_out(txs, 1, payload.len() as int, r, m))
        }),
{
    let payload = concat_all(typed_strings(txs));
    let header = item_header(0xc0, payload.len());
    let bytes = tx_list_rlp(txs);
    let len = bytes.len() as int;
    lemma_long_payload(txs);
    lemma_txs(txs, 1, r, m);
    lemma_list_header(RlpTxFieldTag::TxListRlpHeader, payload.len(), payload);
    lemma_long_header(0xc0, payload.len(), payload);
    assert(bytes == header + payload);
    let s = step(RlpTxFieldTag::TxListRlpHeader, bytes, len);
    assert(s.consumed == header.len() && s.error is None && !s.mismatch && s.next
        == RlpTxFieldTag::TypedTxHeader) by {
        reveal(step);
    }
    assert(bytes.skip(header.len() as int) =~= payload);
    let front = step_rows(RlpTxFieldTag::TxListRlpHeader, 0, bytes, len, r, m);
    assert(front == field_rows(0, RlpTxFieldTag::TxListRlpHeader, header, r, m, len, None)) by {
        reveal(step_rows);
        assert(bytes.take(header.len() as int) =~= header);
    }
    assert(front.len() == 1);
    let back = decode_rows(RlpTxFieldTag::TypedTxHeader, 1, payload, r, m);
    assert(decode_rows(RlpTxFieldTag::TxListRlpHeader, 0, bytes, r, m) == front + back);
    assert(list_rows(bytes, digest, r, m).last() == back.last());
}

/// The numbers of bytes of the data of the transactions.
pub open spec fn data_lengths(txs: Seq<SignedView>) -> Seq<nat> {
    Seq::new(txs.len(), |i: int| txs[i].tx.input.len())
}

/// The rows of the data, the first transaction taken out.
proof fn lemma_data_rows_first(lengths: Seq<nat>)
    requires
        lengths.len() > 0,
    ensures
        data_rows(lengths) == lengths[0] / MAX_BYTE_COLUMN_NUM as nat + 1 + data_rows(
            lengths.skip(1),
        ),
    decreases lengths.len(),
{
    let rest = lengths.skip(1);
    if lengths.len() == 1 {
        assert(lengths.drop_last() =~= seq![]);
        assert(rest =~= seq![]);
    } else {
        lemma_data_rows_first(lengths.drop_last());
        assert(lengths.drop_last().skip(1) =~= rest.drop_last());
    }
}

/// The transactions take no more rows than are planned for them.
proof fn lemma_txs_rows_bound(txs: Seq<SignedView>)
    requires
        forall|i: int|
            0 <= i < txs.len() ==> is_supported((#[trigger] txs[i]).tx, txs[i].signature),
    ensures
        txs_rows(txs) <= txs.len() * TX1559_TX_FIELD_NUM + data_rows(data_lengths(txs)),
    decreases txs.len(),
{
    if txs.len() > 0 {
        let more = txs.skip(1);
        assert forall|i: int| 0 <= i < more.len() implies is_supported(
            (#[trigger] more[i]).tx,
            more[i].signature,
        ) by {
            assert(more[i] == txs[i + 1]);
        }
        lemma_txs_rows_bound(more);
        lemma_data_rows_first(data_lengths(txs));
        assert(data_lengths(txs).skip(1) =~= data_lengths(more));
        assert(is_supported(txs[0].tx, txs[0].signature));
        lemma_input_shorter(txs[0].tx, txs[0].signature);
        lemma_data(txs[0].tx.input, seq![]);
    }
}

/// The data of a transaction is shorter than its encoding.
pub proof fn lemma_input_shorter(tx: TransactionView, signature: SignatureView)
    requires
        is_supported(tx, signature),
    ensures
        tx.input.len() < 0x100_0000,
{
    let items = dynamic_fee_items(tx, signature);
    lemma_twelve_parts(items, seq![]);
    assert(concat_all(items) + seq![] =~= concat_all(items));
    assert(items[7].len() >= tx.input.len());
}

/// The minimum number of rows is enough: a circuit of that many rows, or more, holds the witness
/// for every list of transactions that the decoder has room for.
pub proof fn law_min_rows_are_enough(txs: Seq<SignedView>)
    requires
        all_supported(txs),
        concat_all(typed_strings(txs)).len() < 0x100_0000,
    ensures
        min_rows(data_lengths(txs)) > list_row_count(tx_list_rlp(txs)) + 1 + NUM_BLINDING_ROWS,
{
    law_encoded_list_is_given_back(txs, seq![], 0, 1);
    lemma_txs_rows_bound(txs);
}

/// The circuit accepts the witness for every list of signed dynamic fee transactions that the
/// decoder has room for: every gate, every comparison and every lookup holds in every row.
pub proof fn law_encoded_list_satisfies_circuit(
    txs: Seq<SignedView>,
    digest: Seq<u8>,
    after: Seq<Row>,
    r: int,
    m: int,
    k: int,
    i: int,
)
    requires
        all_supported(txs),
        concat_all(typed_strings(txs)).len() < 0x100_0000,
        m > 0x1_0000_0000,
        finished(list_rows(tx_list_rlp(txs), digest, r, m), after, r, m, k),
        k >= min_rows(data_lengths(txs)),
        0 <= i < after.len(),
    ensures
        row_satisfied(after, i, r, m),
        after[after.len() - 2].valid,
        after[after.len() - 2].acc_rlc_value == rlc_be(tx_list_rlp(txs), r, m),
{
    let bytes = tx_list_rlp(txs);
    law_encoded_list_is_given_back(txs, digest, r, m);
    law_min_rows_are_enough(txs);
    lemma_long_payload(txs);
    lemma_minimal_be(concat_all(typed_strings(txs)).len());
    lemma_row_count(RlpTxFieldTag::TxListRlpHeader, 0, bytes, r, m, 0, 1);
    law_accepted_list_satisfies_circuit(bytes, digest, after, r, m, k, i);
    law_witness_ends_in_padding(list_rows(bytes, digest, r, m), after, r, m, k);
    law_combination_of_the_list(bytes, digest, after, r, m, k);
}

} // verus!
