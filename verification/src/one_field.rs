//! What the rows of one field say, and which cells they fill.

use crate::assign::{
    all_columns, byte_columns, comparison_columns, error_columns, length_columns, member_columns,
    selector_columns, tag_columns, type_columns, valid_columns, witness_columns,
};
use crate::config::{Column, Comparison};
use crate::field::pow_mod;
use crate::row::{field_row, field_rows, row_count};
use crate::state::{lemma_step_bounds, step, step_rows};
use crate::tags::{RlpDecodeErrorType, RlpTxFieldTag, RlpTxTypeTag};
use vstd::prelude::*;

verus! {

/// The rows that `raw` takes: as many as it takes to hold 33 bytes in each, and one where there
/// are no bytes.
pub open spec fn takes_rows(raw: Seq<u8>, n: int) -> bool {
    &&& n >= 1
    &&& raw.len() <= 33 * n
    &&& n > 1 ==> 33 * (n - 1) < raw.len()
}

proof fn lemma_takes_rows(raw: Seq<u8>)
    ensures
        takes_rows(raw, row_count(raw.len()) as int),
{
    let len = raw.len() as int;
    if len > 0 {
        let n = (len + 32) / 33;
        assert(33 * n <= len + 32 < 33 * n + 33);
    }
}

/// A field is cut into rows of 33 bytes, the last of them with what is left. Each says how many
/// bytes it has, how many are left behind it, and to which transaction and field it belongs. Only
/// the last is complete.
pub proof fn law_field_is_cut_into_rows(
    tx_id: int,
    member: RlpTxFieldTag,
    raw: Seq<u8>,
    r: int,
    m: int,
    remain: int,
    error: Option<RlpDecodeErrorType>,
    i: int,
)
    requires
        0 <= i < field_rows(tx_id, member, raw, r, m, remain, error).len(),
    ensures
        ({
            let cut = field_rows(tx_id, member, raw, r, m, remain, error);
            let row = cut[i];
            let last = i == cut.len() - 1;
            &&& takes_rows(raw, cut.len() as int)
            &&& row.tx_id == tx_id
            &&& row.tx_type == RlpTxTypeTag::Tx1559Type
            &&& row.tx_member == member
            &&& row.complete == last
            &&& row.rlp_bytes_in_row == row.bytes.len()
            &&& !last ==> row.bytes.len() == 33
            &&& last ==> row.bytes.len() == raw.len() - 33 * i
            &&& forall|k: int|
                0 <= k < row.bytes.len() ==> #[trigger] row.bytes[k] == raw[33 * i + k]
            &&& row.rlp_remain_length + row.bytes.len() == if i == 0 {
                remain
            } else {
                cut[i - 1].rlp_remain_length
            }
            &&& row.r_mult == pow_mod(r, row.bytes.len(), m)
            &&& row.r_mult_comp == pow_mod(r, (33 - row.bytes.len()) as nat, m)
            &&& row.value == 0
            &&& row.q_enable
            &&& row.q_first == (last && member == RlpTxFieldTag::TxListRlpHeader)
            &&& !row.q_last
        }),
{
    lemma_takes_rows(raw);
    let cut = field_rows(tx_id, member, raw, r, m, remain, error);
    assert(cut[i] == field_row(tx_id, member, raw, r, m, remain, error, i));
    if i > 0 {
        assert(cut[i - 1] == field_row(tx_id, member, raw, r, m, remain, error, i - 1));
    }
}

/// Only the last row of a field flags its error, and one error only. It is invalid then, and where
/// the bytes are passed over.
pub proof fn law_last_row_flags_the_error(
    tx_id: int,
    member: RlpTxFieldTag,
    raw: Seq<u8>,
    r: int,
    m: int,
    remain: int,
    error: Option<RlpDecodeErrorType>,
    i: int,
)
    requires
        0 <= i < field_rows(tx_id, member, raw, r, m, remain, error).len(),
    ensures
        ({
            let cut = field_rows(tx_id, member, raw, r, m, remain, error);
            let row = cut[i];
            let last = i == cut.len() - 1;
            &&& row.errors.len() == 4
            &&& row.errors[0] == (last && error == Some(RlpDecodeErrorType::HeaderDecError))
            &&& row.errors[1] == (last && error == Some(RlpDecodeErrorType::LenOfLenError))
            &&& row.errors[2] == (last && error == Some(RlpDecodeErrorType::ValueError))
            &&& row.errors[3] == (last && error matches Some(
                RlpDecodeErrorType::RunOutOfDataError(_),
            ))
            &&& row.valid == (!last || error is None && member != RlpTxFieldTag::DecodeError)
        }),
{
    let cut = field_rows(tx_id, member, raw, r, m, remain, error);
    assert(cut[i] == field_row(tx_id, member, raw, r, m, remain, error, i));
}

/// The length in a row of a field is that of the field from there on. Where the bytes of a field
/// ran out, it is the length that was announced, except in the last row, which tells what is
/// there.
pub proof fn law_rows_tell_the_length(
    tx_id: int,
    member: RlpTxFieldTag,
    raw: Seq<u8>,
    r: int,
    m: int,
    remain: int,
    error: Option<RlpDecodeErrorType>,
    i: int,
)
    requires
        0 <= i < field_rows(tx_id, member, raw, r, m, remain, error).len(),
    ensures
        ({
            let cut = field_rows(tx_id, member, raw, r, m, remain, error);
            let row = cut[i];
            if i == cut.len() - 1 {
                row.rlp_tx_member_length == row.bytes.len()
            } else {
                row.rlp_tx_member_length + 33 * i == match error {
                    Some(RlpDecodeErrorType::RunOutOfDataError(announced)) => announced as int,
                    _ => raw.len() as int,
                }
            }
        }),
{
    lemma_takes_rows(raw);
    let cut = field_rows(tx_id, member, raw, r, m, remain, error);
    assert(cut[i] == field_row(tx_id, member, raw, r, m, remain, error, i));
}

/// The rows of a step hold the bytes that it takes, and belong to its field. The last one flags
/// what is wrong with the field, and the list itself as a wrong value where its length is not that
/// of the bytes behind its header.
pub proof fn law_step_lays_out_its_bytes(
    state: RlpTxFieldTag,
    tx_id: int,
    bytes: Seq<u8>,
    remain: int,
    r: int,
    m: int,
)
    ensures
        ({
            let cut = step_rows(state, tx_id, bytes, remain, r, m);
            let s = step(state, bytes, remain);
            &&& takes_rows(bytes.take(s.consumed), cut.len() as int)
            &&& forall|i: int|
                0 <= i < cut.len() ==> (#[trigger] cut[i]).tx_member == state && cut[i].tx_id
                    == tx_id && cut[i].rlp_bytes_in_row == cut[i].bytes.len() && cut[i].complete
                    == (i == cut.len() - 1)
            &&& forall|i: int, k: int|
                0 <= i < cut.len() && 0 <= k < cut[i].bytes.len() ==> #[trigger] cut[i].bytes[k]
                    == bytes[33 * i + k]
            &&& cut.last().rlp_remain_length == remain - s.consumed
            &&& cut.last().errors[0] == (s.error == Some(RlpDecodeErrorType::HeaderDecError))
            &&& cut.last().errors[1] == (s.error == Some(RlpDecodeErrorType::LenOfLenError))
            &&& cut.last().errors[2] == (s.mismatch || s.error == Some(
                RlpDecodeErrorType::ValueError,
            ))
            &&& cut.last().errors[3] == (s.error matches Some(
                RlpDecodeErrorType::RunOutOfDataError(_),
            ))
            &&& cut.last().valid == (s.error is None && !s.mismatch && state
                != RlpTxFieldTag::DecodeError)
        }),
{
    reveal(step_rows);
    lemma_step_bounds(state, bytes, remain);
    let cut = step_rows(state, tx_id, bytes, remain, r, m);
    let s = step(state, bytes, remain);
    let raw = bytes.take(s.consumed);
    lemma_takes_rows(raw);
    let before = field_rows(tx_id, state, raw, r, m, remain, s.error);
    assert forall|i: int| 0 <= i < cut.len() implies (#[trigger] cut[i]).bytes == before[i].bytes
        && cut[i].tx_member == state && cut[i].tx_id == tx_id && cut[i].rlp_bytes_in_row
        == cut[i].bytes.len() && cut[i].complete == (i == cut.len() - 1) by {
        law_field_is_cut_into_rows(tx_id, state, raw, r, m, remain, s.error, i);
    }
    assert forall|i: int, k: int|
        0 <= i < cut.len() && 0 <= k < cut[i].bytes.len() implies #[trigger] cut[i].bytes[k]
        == bytes[33 * i + k] by {
        law_field_is_cut_into_rows(tx_id, state, raw, r, m, remain, s.error, i);
        assert(cut[i].bytes[k] == before[i].bytes[k]);
    }
    let n = cut.len() - 1;
    law_last_row_flags_the_error(tx_id, state, raw, r, m, remain, s.error, n);
    assert(before[n] == field_row(tx_id, state, raw, r, m, remain, s.error, n));
}

/// A column that the circuit has: those with places have as many as there are decoding types,
/// fields, errors, bytes in a row, and bytes in the difference of a comparison.
pub open spec fn is_column(c: Column) -> bool {
    match c {
        Column::QRlpType(i) => i < 14,
        Column::QTxMember(i) => i < 19,
        Column::Error(i) => i < 4,
        Column::Byte(i) => i < 33,
        Column::Diff(Comparison::VGt55 | Comparison::VGt0 | Comparison::VLt128, i) => i < 1,
        Column::Diff(_, i) => i < 4,
        _ => true,
    }
}

proof fn lemma_comparison_is_filled(x: Comparison, k: int)
    requires
        0 <= k < comparison_columns(x).len(),
    ensures
        all_columns().contains(comparison_columns(x)[k]),
{
    let (a, b, c) = (
        comparison_columns(Comparison::VGt55),
        comparison_columns(Comparison::VGt0),
        comparison_columns(Comparison::VLt128),
    );
    let (d, e, f) = (
        comparison_columns(Comparison::RemainLengthGt33),
        comparison_columns(Comparison::RemainLengthLt33),
        comparison_columns(Comparison::RemainLengthGeLength),
    );
    let rest = witness_columns();
    let n: int = match x {
        Comparison::VGt55 => 0,
        Comparison::VGt0 => a.len() as int,
        Comparison::VLt128 => a.len() + b.len() as int,
        Comparison::RemainLengthGt33 => a.len() + b.len() + c.len() as int,
        Comparison::RemainLengthLt33 => a.len() + b.len() + c.len() + d.len() as int,
        Comparison::RemainLengthGeLength => a.len() + b.len() + c.len() + d.len() + e.len() as int,
    };
    assert(all_columns() =~= a + b + c + d + e + f + rest);
    assert(all_columns()[n + k] == comparison_columns(x)[k]);
}

proof fn lemma_witness_column_is_filled(part: Seq<Column>, k: int)
    requires
        0 <= k < part.len(),
        seq![
            tag_columns(),
            type_columns(),
            length_columns(),
            byte_columns(),
            error_columns(),
            valid_columns(),
            member_columns(),
            selector_columns(),
        ].contains(part),
    ensures
        all_columns().contains(part[k]),
{
    let (a, b, c, d) = (tag_columns(), type_columns(), length_columns(), byte_columns());
    let (e, f, g, h) = (error_columns(), valid_columns(), member_columns(), selector_columns());
    let w = witness_columns();
    assert(w =~= a + b + c + d + e + f + g + h);
    let n: int = if part == a {
        0
    } else if part == b {
        a.len() as int
    } else if part == c {
        (a + b).len() as int
    } else if part == d {
        (a + b + c).len() as int
    } else if part == e {
        (a + b + c + d).len() as int
    } else if part == f {
        (a + b + c + d + e).len() as int
    } else if part == g {
        (a + b + c + d + e + f).len() as int
    } else {
        (a + b + c + d + e + f + g).len() as int
    };
    assert(w[n + k] == part[k]);
    let front = all_columns().len() - w.len();
    assert(all_columns()[front + n + k] == w[n + k]);
}

/// A row fills every column of the circuit.
pub proof fn law_every_column_is_filled(c: Column)
    requires
        is_column(c),
    ensures
        all_columns().contains(c),
{
    match c {
        Column::IsLt(x) | Column::Diff(x, _) => {
            let part = comparison_columns(x);
            let k = match c {
                Column::Diff(_, i) => i + 1,
                _ => 0int,
            };
            assert(part[k] == c);
            lemma_comparison_is_filled(x, k);
        },
        _ => {
            let k: int = match c {
                Column::QRlpType(i)
                | Column::QTxMember(i)
                | Column::Error(i)
                | Column::Byte(i) => i as int,
                Column::TxType | Column::BytesInRow | Column::QLast => 1,
                Column::TxMember | Column::RMult | Column::RMultComp => 2,
                Column::Complete | Column::RemainLength | Column::RlcQuotient => 3,
                Column::RlpType | Column::Value | Column::QEnable => 4,
                Column::AccRlcValue => 5,
                _ => 0,
            };
            let parts = seq![
                tag_columns(),
                type_columns(),
                length_columns(),
                byte_columns(),
                error_columns(),
                valid_columns(),
                member_columns(),
                selector_columns(),
            ];
            let p: int = match c {
                Column::QRlpType(_) => 1,
                Column::QTxMember(_) => 6,
                Column::Error(_) => 4,
                Column::Byte(_) => 3,
                Column::Valid => 5,
                Column::TxId
                | Column::TxType
                | Column::TxMember
                | Column::Complete
                | Column::RlpType => 0,
                Column::TxMemberLength
                | Column::BytesInRow
                | Column::RMult
                | Column::RemainLength
                | Column::Value
                | Column::AccRlcValue => 2,
                _ => 7,
            };
            let part = parts[p];
            assert(part[k] == c);
            lemma_witness_column_is_filled(part, k);
        },
    }
}

} // verus!
