//! The circuit accepts the witnesses of the decoder.

use crate::accumulate::padded;
use crate::assign::{cell_value, difference, row_before, row_env, sides};
use crate::config::{
    byte_cells, bytes_in_range, circuit_lookups, circuit_rules, common_rule, comparison_rules,
    decode_error_rule, decode_inputs, diff_bytes, diff_cells, diff_in_range, diff_range,
    eof_error_rule, error_cells, errors_boolean, first_row_rule, header_error_rule, is_lt,
    keccak_input, last_row_rule, len_error_rule, looked_up, lt_rule, matches_row, member_cells,
    member_lengths, member_on, member_rows, member_rule, members_bound, padding_rule, q_error,
    q_member, q_type, r_mult_comp_inputs, r_mult_inputs, range_inputs, switch_inputs,
    tx_header_rule, type_cells, typed_header_rule, types_bound, value_error_rule, Column,
    Comparison,
};
use crate::expression::{
    any_of, is_bit, lemma_congruent, lemma_polynomial, none_of, polynomial, total, Env,
};
use crate::field::{le_byte, pow_mod};
use crate::rlc::rlc_be;
use crate::rlp_decoder_tables::{
    bit, decodable, decode_row, followers, in_fixed_table, lemma_decode_row, lemma_r_mult_row,
    lemma_range_row, lemma_switch_row, lemma_zero_row, r_mult_row, range_row, switch_row,
    table_row,
};
use crate::row::{blank_row, no_errors, Row, MAX_BYTE_COLUMN_NUM};
use crate::tags::{
    RlpDecodeErrorType, RlpDecodeTypeTag, RlpTxFieldTag, RlpTxTypeTag, RLP_DECODE_ERROR_TYPE_NUM,
    RLP_DECODE_TYPE_NUM, TX1559_TX_FIELD_NUM,
};
use vstd::arithmetic::div_mod::{lemma_mod_bound, lemma_small_mod};
use vstd::prelude::*;

verus! {

/// Byte `i` of a row, which is zero behind its bytes.
pub open spec fn byte_at(row: Row, i: int) -> int {
    if 0 <= i < row.bytes.len() {
        row.bytes[i] as int
    } else {
        0
    }
}

/// The flag of an error in a row.
pub open spec fn has_error(row: Row, error: RlpDecodeErrorType) -> bool {
    row.errors[error.ordinal() as int]
}

/// The numbers of a row stay within what the comparisons can tell apart.
pub open spec fn bounded(row: Row) -> bool {
    &&& row.errors.len() == RLP_DECODE_ERROR_TYPE_NUM
    &&& row.bytes.len() <= MAX_BYTE_COLUMN_NUM
    &&& 0 <= row.rlp_tx_member_length < 0x1_0000_0000
    &&& 0 <= row.rlp_remain_length < 0x1_0000_0000
}

/// The combinations in a row continue those of the row before.
pub open spec fn combines(prev: Row, row: Row, r: int, m: int) -> bool {
    &&& (row.rlc_quotient * row.r_mult_comp) % m == rlc_be(padded(row.bytes), r, m)
    &&& row.acc_rlc_value == (prev.acc_rlc_value * row.r_mult + row.rlc_quotient) % m
}

/// Validity is lost for good, comes from the errors, and needs enough bytes.
pub open spec fn validity(prev: Row, row: Row, next: Row) -> bool {
    &&& next.valid ==> row.valid
    &&& row.tx_member != RlpTxFieldTag::DecodeError && row.tx_member != RlpTxFieldTag::Padding ==> (
    row.valid <==> row.errors =~= no_errors())
    &&& row.valid ==> row.rlp_tx_member_length <= prev.rlp_remain_length
}

/// The length of a valid field, by its decoding type.
pub open spec fn length_fits(prev: Row, row: Row) -> bool {
    let length = row.rlp_tx_member_length;
    let (b0, b1, b2, b3) = (byte_at(row, 0), byte_at(row, 1), byte_at(row, 2), byte_at(row, 3));
    match row.rlp_type {
        RlpDecodeTypeTag::DoNothing => length == 0,
        RlpDecodeTypeTag::SingleByte => length == 1,
        RlpDecodeTypeTag::NullValue => length == 1,
        RlpDecodeTypeTag::ShortStringValue => length == b0 - 0x80 + 1 && b1 > 0,
        RlpDecodeTypeTag::ShortStringBytes => length == b0 - 0x80 + 1,
        RlpDecodeTypeTag::LongString1 => length == b1 + 2 && b1 > 55,
        RlpDecodeTypeTag::LongString2 => length == b1 * 256 + b2 + 3 && b1 > 0,
        RlpDecodeTypeTag::LongString3 => length == b1 * 65536 + b2 * 256 + b3 + 4 && b1 > 0,
        RlpDecodeTypeTag::EmptyList => length == 1,
        RlpDecodeTypeTag::ShortList => length == b0 - 0xc0 + 1,
        RlpDecodeTypeTag::PartialRlp => {
            &&& length == prev.rlp_tx_member_length - prev.rlp_bytes_in_row
            &&& !prev.complete
            &&& row.tx_member == RlpTxFieldTag::Data
        },
        _ => true,
    }
}

/// What a valid row that is no header holds.
pub open spec fn member_fits(prev: Row, row: Row) -> bool {
    row.valid && !row.q_first && row.tx_member != RlpTxFieldTag::TxRlpHeader && row.tx_member
        != RlpTxFieldTag::TypedTxHeader ==> {
        &&& row.errors =~= no_errors() || row.tx_member == RlpTxFieldTag::Padding
        &&& length_fits(prev, row)
        &&& row.complete ==> row.rlp_bytes_in_row == row.rlp_tx_member_length
            && row.rlp_remain_length == prev.rlp_remain_length - row.rlp_bytes_in_row
        &&& !row.complete ==> row.rlp_bytes_in_row == MAX_BYTE_COLUMN_NUM
    }
}

/// What the header of the whole list holds.
pub open spec fn first_row_fits(prev: Row, row: Row) -> bool {
    let (b0, b1, b2, b3) = (byte_at(row, 0), byte_at(row, 1), byte_at(row, 2), byte_at(row, 3));
    row.q_first ==> {
        &&& row.tx_id == 0
        &&& row.tx_type == RlpTxTypeTag::Tx1559Type
        &&& row.tx_member == RlpTxFieldTag::TxListRlpHeader
        &&& row.complete
        &&& prev.acc_rlc_value == 0
        &&& row.valid ==> {
            &&& row.rlp_type == RlpDecodeTypeTag::LongList1 ==> row.rlp_remain_length == b1 && b1
                > 55
            &&& row.rlp_type == RlpDecodeTypeTag::LongList2 ==> row.rlp_remain_length == b1 * 256
                + b2 && b1 > 0
            &&& row.rlp_type == RlpDecodeTypeTag::LongList3 ==> row.rlp_remain_length == b1 * 65536
                + b2 * 256 + b3 && b1 > 0
            &&& row.rlp_tx_member_length == b0 - 247 + 1
        }
    }
}

/// What the header of the string around a transaction holds.
pub open spec fn typed_header_fits(prev: Row, row: Row) -> bool {
    let b1 = byte_at(row, 1);
    row.q_enable && row.tx_member == RlpTxFieldTag::TypedTxHeader ==> {
        &&& row.tx_id == prev.tx_id + 1
        &&& row.tx_type == RlpTxTypeTag::Tx1559Type
        &&& row.complete
        &&& row.valid ==> row.errors =~= no_errors() && match row.rlp_type {
            RlpDecodeTypeTag::LongString1 => row.rlp_tx_member_length == 2 && b1 > 55,
            RlpDecodeTypeTag::LongString2 => row.rlp_tx_member_length == 3 && b1 > 0,
            RlpDecodeTypeTag::LongString3 => row.rlp_tx_member_length == 4 && b1 > 0,
            _ => true,
        }
    }
}

/// What the header of a transaction holds.
pub open spec fn tx_header_fits(row: Row) -> bool {
    row.q_enable && row.tx_member == RlpTxFieldTag::TxRlpHeader ==> {
        &&& row.tx_type == RlpTxTypeTag::Tx1559Type
        &&& row.complete
        &&& has_error(row, RlpDecodeErrorType::HeaderDecError) || row.rlp_tx_member_length
            == byte_at(row, 0) - 247 + 1
    }
}

/// What the padding holds.
pub open spec fn padding_fits(prev: Row, row: Row) -> bool {
    row.q_enable && row.tx_member == RlpTxFieldTag::Padding ==> {
        &&& row.complete
        &&& row.r_mult == 1
        &&& row.rlp_tx_member_length == 0
        &&& row.rlp_remain_length == 0
        &&& prev.rlp_remain_length == 0
        &&& row.acc_rlc_value == prev.acc_rlc_value
        &&& forall|i: int| 0 <= i < row.bytes.len() ==> #[trigger] row.bytes[i] == 0
    }
}

/// Each error that is flagged shows in the row.
pub open spec fn errors_show(prev: Row, row: Row) -> bool {
    let b1 = byte_at(row, 1);
    &&& has_error(row, RlpDecodeErrorType::HeaderDecError) ==> !row.valid
    &&& has_error(row, RlpDecodeErrorType::LenOfLenError) ==> match row.rlp_type {
        RlpDecodeTypeTag::LongString1 | RlpDecodeTypeTag::LongList1 => b1 <= 55,
        RlpDecodeTypeTag::LongString2
        | RlpDecodeTypeTag::LongString3
        | RlpDecodeTypeTag::LongList2
        | RlpDecodeTypeTag::LongList3 => b1 == 0,
        _ => true,
    }
    &&& has_error(row, RlpDecodeErrorType::ValueError) && row.rlp_type
        == RlpDecodeTypeTag::ShortStringValue ==> b1 == 0 || (byte_at(row, 0) == 0x81 && b1 < 0x80)
    &&& row.errors[3] ==> {
        &&& prev.rlp_remain_length == row.rlp_tx_member_length
        &&& row.tx_member == RlpTxFieldTag::SignS ==> prev.rlp_remain_length < MAX_BYTE_COLUMN_NUM
    }
}

/// What a row that passes over the bytes behind an error holds.
pub open spec fn decode_error_fits(prev: Row, row: Row) -> bool {
    row.q_enable && row.tx_member == RlpTxFieldTag::DecodeError ==> {
        &&& row.complete
        &&& row.rlp_tx_member_length == if prev.rlp_remain_length > MAX_BYTE_COLUMN_NUM {
            MAX_BYTE_COLUMN_NUM as int
        } else {
            prev.rlp_remain_length
        }
        &&& row.rlp_remain_length == prev.rlp_remain_length - row.rlp_tx_member_length
        &&& !prev.valid
    }
}

/// What is looked up for a row stands in the fixed table.
pub open spec fn lookups_fit(prev: Row, row: Row, next: Row, r: int, m: int) -> bool {
    &&& prev.valid && row.rlp_type != RlpDecodeTypeTag::PartialRlp ==> {
        &&& row.tx_type == RlpTxTypeTag::Tx1559Type
        &&& decodable(row.tx_member, byte_at(row, 0) as u8) == !has_error(
            row,
            RlpDecodeErrorType::HeaderDecError,
        )
    }
    &&& !row.q_last && row.complete ==> followers(row.tx_member).contains(next.tx_member)
    &&& 0 <= row.rlp_bytes_in_row <= MAX_BYTE_COLUMN_NUM
    &&& row.r_mult == pow_mod(r, row.rlp_bytes_in_row as nat, m)
    &&& row.r_mult_comp == pow_mod(
        r,
        (MAX_BYTE_COLUMN_NUM - row.rlp_bytes_in_row) as nat,
        m,
    )
}

/// All that the circuit asks of an enabled row between two others, told of the rows themselves.
pub open spec fn row_fits(prev: Row, row: Row, next: Row, r: int, m: int) -> bool {
    &&& row.q_enable
    &&& bounded(prev)
    &&& bounded(row)
    &&& combines(prev, row, r, m)
    &&& row.q_last || validity(prev, row, next)
    &&& member_fits(prev, row)
    &&& first_row_fits(prev, row)
    &&& typed_header_fits(prev, row)
    &&& tx_header_fits(row)
    &&& padding_fits(prev, row)
    &&& row.q_last ==> row.tx_member == RlpTxFieldTag::Padding
    &&& errors_show(prev, row)
    &&& decode_error_fits(prev, row)
    &&& lookups_fit(prev, row, next, r, m)
}

/// The environment shows these three rows.
pub open spec fn shows(e: Env<Column>, prev: Row, row: Row, next: Row, r: int, m: int) -> bool {
    &&& e.modulus == m
    &&& keccak_input(e) == r
    &&& forall|c: Column| #[trigger] e.cur(c) == cell_value(prev, row, c, m)
    &&& e.prev(Column::TxId) == prev.tx_id
    &&& e.prev(Column::TxMemberLength) == prev.rlp_tx_member_length
    &&& e.prev(Column::BytesInRow) == prev.rlp_bytes_in_row
    &&& e.prev(Column::RemainLength) == prev.rlp_remain_length
    &&& e.prev(Column::AccRlcValue) == prev.acc_rlc_value
    &&& e.prev(Column::Complete) == bit(prev.complete)
    &&& e.prev(Column::Valid) == bit(prev.valid)
    &&& e.next(Column::Valid) == bit(next.valid)
    &&& e.next(Column::TxMember) == next.tx_member.ordinal()
}

/// The environment of a row between two others shows the three. In front of the first row and
/// behind the last one, it shows a blank row.
pub proof fn lemma_row_env(rows: Seq<Row>, i: int, r: int, m: int)
    requires
        0 <= i < rows.len(),
        rows.last() == blank_row(),
    ensures
        shows(
            row_env(rows, i, r, m),
            row_before(rows, i),
            rows[i],
            if i == rows.len() - 1 {
                blank_row()
            } else {
                rows[i + 1]
            },
            r,
            m,
        ),
{
}

/// Equal values stay equal under any condition.
pub proof fn lemma_equal(e: Env<Column>, on: int, a: int, b: int)
    requires
        e.modulus > 0,
        a == b || on == 0,
    ensures
        e.equal_if(on, a, b),
{
    assert(on * (a - b) == 0) by (nonlinear_arith)
        requires
            a == b || on == 0,
    ;
    lemma_small_mod(0, e.modulus as nat);
}

pub proof fn lemma_equal_both(e: Env<Column>, on: int, condition: int, a: int, b: int)
    requires
        e.modulus > 0,
        a == b || on == 0 || condition == 0,
    ensures
        e.equal_if_both(on, condition, a, b),
{
    assert(on * (condition * (a - b)) == 0) by (nonlinear_arith)
        requires
            a == b || on == 0 || condition == 0,
    ;
    lemma_small_mod(0, e.modulus as nat);
}

pub proof fn lemma_boolean(e: Env<Column>, on: int, a: int)
    requires
        e.modulus > 0,
        is_bit(a) || on == 0,
    ensures
        e.boolean_if(on, a),
{
    assert(on * (a * (1 - a)) == 0) by (nonlinear_arith)
        requires
            a == 0 || a == 1 || on == 0,
    ;
    lemma_small_mod(0, e.modulus as nat);
}

/// Exactly one of the flags for `k` is set.
proof fn lemma_one_hot(values: Seq<int>, k: int, n: nat)
    requires
        values.len() == n,
        forall|i: int| 0 <= i < n ==> #[trigger] values[i] == bit(i == k),
        0 <= k,
    ensures
        total(values) == bit(k < n),
    decreases n,
{
    if n > 0 {
        lemma_one_hot(values.drop_last(), k, (n - 1) as nat);
    }
}

proof fn lemma_common(e: Env<Column>, prev: Row, row: Row, next: Row, r: int, m: int)
    requires
        m > 1,
        shows(e, prev, row, next, r, m),
        row_fits(prev, row, next, r, m),
    ensures
        common_rule(e),
{
    let on = e.cur(Column::QEnable) * (1 - e.cur(Column::QLast));
    if row.q_last {
        assert(e.cur(Column::QLast) == 1);
        assert(e.cur(Column::QEnable) * 0 == 0);
    }
    lemma_boolean(e, on, e.cur(Column::Complete));
    assert(errors_boolean(e, on, RLP_DECODE_ERROR_TYPE_NUM as int)) by {
        assert forall|i: usize| i < RLP_DECODE_ERROR_TYPE_NUM implies e.boolean_if(
            on,
            #[trigger] e.cur(Column::Error(i)),
        ) by {
            lemma_boolean(e, on, e.cur(Column::Error(i)));
        }
    }
    lemma_boolean(e, on, e.cur(Column::Valid));
    lemma_common_flags(e, prev, row, next, r, m, on);
    lemma_common_combinations(e, prev, row, next, r, m, on);
    lemma_common_validity(e, prev, row, next, r, m, on);
}

proof fn lemma_common_flags(
    e: Env<Column>,
    prev: Row,
    row: Row,
    next: Row,
    r: int,
    m: int,
    on: int,
)
    requires
        m > 1,
        shows(e, prev, row, next, r, m),
    ensures
        types_bound(e, on, RLP_DECODE_TYPE_NUM as int),
        e.equal_if(on, total(type_cells(e)), 1),
        members_bound(e, on, TX1559_TX_FIELD_NUM as int),
        e.equal_if(on, total(member_cells(e)), 1),
{
    assert forall|i: usize| i < RLP_DECODE_TYPE_NUM implies e.boolean_if(
        on,
        #[trigger] e.cur(Column::QRlpType(i)),
    ) && e.equal_if_both(
        on,
        e.cur(Column::QRlpType(i)),
        e.cur(Column::RlpType),
        i as int,
    ) by {
        lemma_boolean(e, on, e.cur(Column::QRlpType(i)));
        lemma_equal_both(
            e,
            on,
            e.cur(Column::QRlpType(i)),
            e.cur(Column::RlpType),
            i as int,
        );
    }
    assert forall|i: usize| i < TX1559_TX_FIELD_NUM implies e.boolean_if(
        on,
        #[trigger] e.cur(Column::QTxMember(i)),
    ) && e.equal_if_both(
        on,
        e.cur(Column::QTxMember(i)),
        e.cur(Column::TxMember),
        i as int,
    ) by {
        lemma_boolean(e, on, e.cur(Column::QTxMember(i)));
        lemma_equal_both(
            e,
            on,
            e.cur(Column::QTxMember(i)),
            e.cur(Column::TxMember),
            i as int,
        );
    }
    lemma_one_hot(type_cells(e), row.rlp_type.ordinal() as int, RLP_DECODE_TYPE_NUM as nat);
    lemma_one_hot(member_cells(e), row.tx_member.ordinal() as int, TX1559_TX_FIELD_NUM as nat);
    lemma_equal(e, on, total(type_cells(e)), 1);
    lemma_equal(e, on, total(member_cells(e)), 1);
}

proof fn lemma_common_combinations(
    e: Env<Column>,
    prev: Row,
    row: Row,
    next: Row,
    r: int,
    m: int,
    on: int,
)
    requires
        m > 1,
        shows(e, prev, row, next, r, m),
        row_fits(prev, row, next, r, m),
    ensures
        e.equal_if(
            on,
            e.cur(Column::RlcQuotient) * e.cur(Column::RMultComp),
            polynomial(byte_cells(e), keccak_input(e)),
        ),
        e.equal_if(
            on,
            e.cur(Column::AccRlcValue),
            e.cur(Column::RMult) * e.prev(Column::AccRlcValue) + e.cur(Column::RlcQuotient),
        ),
{
    lemma_polynomial(byte_cells(e), padded(row.bytes), r, m);
    lemma_congruent(
        e,
        on,
        e.cur(Column::RlcQuotient) * e.cur(Column::RMultComp),
        polynomial(byte_cells(e), r),
    );
    let sum = prev.acc_rlc_value * row.r_mult + row.rlc_quotient;
    assert(row.r_mult * prev.acc_rlc_value == prev.acc_rlc_value * row.r_mult) by (nonlinear_arith);
    lemma_mod_bound(sum, m);
    lemma_small_mod((sum % m) as nat, m as nat);
    lemma_congruent(
        e,
        on,
        e.cur(Column::AccRlcValue),
        e.cur(Column::RMult) * e.prev(Column::AccRlcValue) + e.cur(Column::RlcQuotient),
    );
}

/// The flags of the errors, as one.
proof fn lemma_any_error(e: Env<Column>, prev: Row, row: Row, next: Row, r: int, m: int)
    requires
        shows(e, prev, row, next, r, m),
        row.errors.len() == RLP_DECODE_ERROR_TYPE_NUM,
    ensures
        any_of(error_cells(e)) == bit(!(row.errors =~= no_errors())),
{
    let v = error_cells(e);
    assert(v =~= seq![
        bit(row.errors[0]),
        bit(row.errors[1]),
        bit(row.errors[2]),
        bit(row.errors[3]),
    ]);
    lemma_any_of_four(v[0], v[1], v[2], v[3]);
}

proof fn lemma_common_validity(
    e: Env<Column>,
    prev: Row,
    row: Row,
    next: Row,
    r: int,
    m: int,
    on: int,
)
    requires
        m > 1,
        shows(e, prev, row, next, r, m),
        row_fits(prev, row, next, r, m),
        row.q_last ==> on == 0,
    ensures
        e.equal_if(
            on,
            e.cur(Column::Valid) * e.next(Column::Valid),
            e.next(Column::Valid),
        ),
        e.equal_if_both(
            on,
            (1 - q_member(e, RlpTxFieldTag::DecodeError)) * (1 - q_member(
                e,
                RlpTxFieldTag::Padding,
            )),
            any_of(error_cells(e)),
            1 - e.cur(Column::Valid),
        ),
        e.equal_if_both(
            on,
            e.cur(Column::Valid),
            is_lt(e, Comparison::RemainLengthGeLength),
            1,
        ),
{
    lemma_any_error(e, prev, row, next, r, m);
    let (valid, valid_next) = (e.cur(Column::Valid), e.next(Column::Valid));
    assert(1 * valid_next == valid_next);
    assert(0 * valid_next == 0);
    lemma_equal(e, on, valid * valid_next, valid_next);
    let (x, y) = (q_member(e, RlpTxFieldTag::DecodeError), q_member(e, RlpTxFieldTag::Padding));
    assert(x == 1 || y == 1 ==> (1 - x) * (1 - y) == 0) by (nonlinear_arith);
    lemma_equal_both(e, on, (1 - x) * (1 - y), any_of(error_cells(e)), 1 - valid);
    lemma_equal_both(e, on, valid, is_lt(e, Comparison::RemainLengthGeLength), 1);
}

/// The selector of the rows that are no headers is off in all others.
proof fn lemma_member_on(e: Env<Column>, prev: Row, row: Row, next: Row, r: int, m: int)
    requires
        m > 1,
        shows(e, prev, row, next, r, m),
        row_fits(prev, row, next, r, m),
    ensures
        !row.valid || row.q_first || row.tx_member == RlpTxFieldTag::TxRlpHeader || row.tx_member
            == RlpTxFieldTag::TypedTxHeader ==> member_on(e) == 0,
{
    let (a, b) = (e.cur(Column::QEnable), e.cur(Column::Valid));
    let c = 1 - e.cur(Column::QFirst);
    let d = 1 - q_member(e, RlpTxFieldTag::TxRlpHeader);
    let f = 1 - q_member(e, RlpTxFieldTag::TypedTxHeader);
    assert(b == 0 || c == 0 || d == 0 || f == 0 ==> a * b * c * d * f == 0) by (nonlinear_arith);
}

proof fn lemma_member(e: Env<Column>, prev: Row, row: Row, next: Row, r: int, m: int)
    requires
        m > 1,
        shows(e, prev, row, next, r, m),
        row_fits(prev, row, next, r, m),
    ensures
        member_rule(e),
{
    lemma_member_on(e, prev, row, next, r, m);
    lemma_member_lengths(e, prev, row, next, r, m);
    lemma_member_rows(e, prev, row, next, r, m);
}

proof fn lemma_member_lengths(e: Env<Column>, prev: Row, row: Row, next: Row, r: int, m: int)
    requires
        m > 1,
        shows(e, prev, row, next, r, m),
        row_fits(prev, row, next, r, m),
        !row.valid || row.q_first || row.tx_member == RlpTxFieldTag::TxRlpHeader || row.tx_member
            == RlpTxFieldTag::TypedTxHeader ==> member_on(e) == 0,
    ensures
        member_lengths(e, member_on(e)),
{
    let on = member_on(e);
    let length = e.cur(Column::TxMemberLength);
    let len_valid = 1 - q_error(e, RlpDecodeErrorType::LenOfLenError);
    let value_valid = 1 - q_error(e, RlpDecodeErrorType::ValueError);
    let gt_0 = is_lt(e, Comparison::VGt0);
    let gt_55 = is_lt(e, Comparison::VGt55);
    let (b0, b1, b2, b3) = (byte_at(row, 0), byte_at(row, 1), byte_at(row, 2), byte_at(row, 3));
    lemma_equal_both(e, on, q_type(e, RlpDecodeTypeTag::DoNothing), length, 0);
    lemma_equal_both(e, on, q_type(e, RlpDecodeTypeTag::SingleByte), length, 1);
    lemma_equal_both(e, on, q_type(e, RlpDecodeTypeTag::NullValue), length, 1);
    lemma_equal_both(e, on, q_type(e, RlpDecodeTypeTag::ShortStringValue), length, b0 - 0x80 + 1);
    lemma_equal_both(e, on, q_type(e, RlpDecodeTypeTag::ShortStringValue), gt_0, value_valid);
    lemma_equal_both(e, on, q_type(e, RlpDecodeTypeTag::ShortStringBytes), length, b0 - 0x80 + 1);
    lemma_equal_both(e, on, q_type(e, RlpDecodeTypeTag::LongString1), length, b1 + 2);
    lemma_equal_both(e, on, q_type(e, RlpDecodeTypeTag::LongString1), gt_55, len_valid);
    lemma_equal_both(e, on, q_type(e, RlpDecodeTypeTag::LongString2), length, b1 * 256 + b2 + 3);
    lemma_equal_both(e, on, q_type(e, RlpDecodeTypeTag::LongString2), gt_0, len_valid);
    lemma_equal_both(
        e,
        on,
        q_type(e, RlpDecodeTypeTag::LongString3),
        length,
        b1 * 65536 + b2 * 256 + b3 + 4,
    );
    lemma_equal_both(e, on, q_type(e, RlpDecodeTypeTag::LongString3), gt_0, len_valid);
    lemma_equal_both(e, on, q_type(e, RlpDecodeTypeTag::EmptyList), length, 1);
    lemma_equal_both(e, on, q_type(e, RlpDecodeTypeTag::ShortList), length, b0 - 0xc0 + 1);
}

proof fn lemma_member_rows(e: Env<Column>, prev: Row, row: Row, next: Row, r: int, m: int)
    requires
        m > 1,
        shows(e, prev, row, next, r, m),
        row_fits(prev, row, next, r, m),
        !row.valid || row.q_first || row.tx_member == RlpTxFieldTag::TxRlpHeader || row.tx_member
            == RlpTxFieldTag::TypedTxHeader ==> member_on(e) == 0,
    ensures
        member_rows(e, member_on(e)),
{
    let on = member_on(e);
    let length = e.cur(Column::TxMemberLength);
    let in_row = e.cur(Column::BytesInRow);
    let complete = e.cur(Column::Complete);
    let partial = q_type(e, RlpDecodeTypeTag::PartialRlp);
    lemma_equal_both(
        e,
        on,
        partial,
        length,
        e.prev(Column::TxMemberLength) - e.prev(Column::BytesInRow),
    );
    lemma_equal_both(e, on, partial, e.prev(Column::Complete), 0);
    lemma_equal_both(
        e,
        on,
        partial,
        e.cur(Column::TxMember),
        RlpTxFieldTag::Data.ordinal() as int,
    );
    lemma_equal_both(e, on, complete, in_row, length);
    lemma_equal_both(
        e,
        on,
        complete,
        e.cur(Column::RemainLength),
        e.prev(Column::RemainLength) - in_row,
    );
    lemma_equal_both(e, on, 1 - complete, in_row, MAX_BYTE_COLUMN_NUM as int);
}

proof fn lemma_first_row(e: Env<Column>, prev: Row, row: Row, next: Row, r: int, m: int)
    requires
        m > 1,
        shows(e, prev, row, next, r, m),
        row_fits(prev, row, next, r, m),
    ensures
        first_row_rule(e),
{
    let on = e.cur(Column::QFirst);
    let valid = e.cur(Column::Valid);
    let remain = e.cur(Column::RemainLength);
    let (b0, b1, b2, b3) = (byte_at(row, 0), byte_at(row, 1), byte_at(row, 2), byte_at(row, 3));
    let list_1 = q_type(e, RlpDecodeTypeTag::LongList1) * valid;
    let list_2 = q_type(e, RlpDecodeTypeTag::LongList2) * valid;
    let list_3 = q_type(e, RlpDecodeTypeTag::LongList3) * valid;
    lemma_bit_product(q_type(e, RlpDecodeTypeTag::LongList1), valid);
    lemma_bit_product(q_type(e, RlpDecodeTypeTag::LongList2), valid);
    lemma_bit_product(q_type(e, RlpDecodeTypeTag::LongList3), valid);
    lemma_equal(e, on, e.cur(Column::TxId), 0);
    lemma_equal(e, on, e.cur(Column::TxType), 1);
    lemma_equal(e, on, e.cur(Column::TxMember), 0);
    lemma_equal(e, on, e.cur(Column::Complete), 1);
    lemma_equal(e, on, e.prev(Column::AccRlcValue), 0);
    lemma_equal_both(e, on, list_1, remain, b1);
    lemma_equal_both(e, on, list_1, is_lt(e, Comparison::VGt55), 1);
    lemma_equal_both(e, on, list_2, remain, b1 * 256 + b2);
    lemma_equal_both(e, on, list_2, is_lt(e, Comparison::VGt0), 1);
    lemma_equal_both(e, on, list_3, remain, b1 * 65536 + b2 * 256 + b3);
    lemma_equal_both(e, on, list_3, is_lt(e, Comparison::VGt0), 1);
    lemma_equal_both(e, on, valid, e.cur(Column::TxMemberLength), b0 - 247 + 1);
}

proof fn lemma_typed_header(e: Env<Column>, prev: Row, row: Row, next: Row, r: int, m: int)
    requires
        m > 1,
        shows(e, prev, row, next, r, m),
        row_fits(prev, row, next, r, m),
    ensures
        typed_header_rule(e),
{
    let on = q_member(e, RlpTxFieldTag::TypedTxHeader) * e.cur(Column::QEnable);
    let valid = e.cur(Column::Valid);
    let length = e.cur(Column::TxMemberLength);
    let len_valid = 1 - q_error(e, RlpDecodeErrorType::LenOfLenError);
    let string_1 = q_type(e, RlpDecodeTypeTag::LongString1) * valid;
    let string_2 = q_type(e, RlpDecodeTypeTag::LongString2) * valid;
    let string_3 = q_type(e, RlpDecodeTypeTag::LongString3) * valid;
    lemma_bit_product(q_member(e, RlpTxFieldTag::TypedTxHeader), e.cur(Column::QEnable));
    lemma_bit_product(q_type(e, RlpDecodeTypeTag::LongString1), valid);
    lemma_bit_product(q_type(e, RlpDecodeTypeTag::LongString2), valid);
    lemma_bit_product(q_type(e, RlpDecodeTypeTag::LongString3), valid);
    lemma_equal(e, on, e.cur(Column::TxId), e.prev(Column::TxId) + 1);
    lemma_equal(e, on, e.cur(Column::TxType), 1);
    lemma_equal(e, on, e.cur(Column::Complete), 1);
    lemma_equal_both(e, on, string_1, length, 2);
    lemma_equal_both(e, on, string_1, is_lt(e, Comparison::VGt55), len_valid);
    lemma_equal_both(e, on, string_2, length, 3);
    lemma_equal_both(e, on, string_2, is_lt(e, Comparison::VGt0), len_valid);
    lemma_equal_both(e, on, string_3, length, 4);
    lemma_equal_both(e, on, string_3, is_lt(e, Comparison::VGt0), len_valid);
}

proof fn lemma_tx_header(e: Env<Column>, prev: Row, row: Row, next: Row, r: int, m: int)
    requires
        m > 1,
        shows(e, prev, row, next, r, m),
        row_fits(prev, row, next, r, m),
    ensures
        tx_header_rule(e),
{
    let on = q_member(e, RlpTxFieldTag::TxRlpHeader) * e.cur(Column::QEnable);
    lemma_bit_product(q_member(e, RlpTxFieldTag::TxRlpHeader), e.cur(Column::QEnable));
    lemma_equal(e, on, e.cur(Column::TxType), 1);
    lemma_equal(e, on, e.cur(Column::Complete), 1);
    lemma_equal_both(
        e,
        on,
        1 - q_error(e, RlpDecodeErrorType::HeaderDecError),
        e.cur(Column::TxMemberLength),
        byte_at(row, 0) - 247 + 1,
    );
}

proof fn lemma_padding(e: Env<Column>, prev: Row, row: Row, next: Row, r: int, m: int)
    requires
        m > 1,
        shows(e, prev, row, next, r, m),
        row_fits(prev, row, next, r, m),
    ensures
        padding_rule(e),
        last_row_rule(e),
{
    let on = q_member(e, RlpTxFieldTag::Padding) * e.cur(Column::QEnable);
    lemma_bit_product(q_member(e, RlpTxFieldTag::Padding), e.cur(Column::QEnable));
    lemma_bit_product(e.cur(Column::QLast), e.cur(Column::QEnable));
    lemma_equal(e, on, e.cur(Column::TxMember), RlpTxFieldTag::Padding.ordinal() as int);
    lemma_equal(e, on, e.cur(Column::Complete), 1);
    lemma_equal(e, on, e.cur(Column::RMult), 1);
    lemma_equal(e, on, e.cur(Column::TxMemberLength), 0);
    lemma_equal(e, on, e.cur(Column::RemainLength), 0);
    lemma_equal(e, on, e.prev(Column::RemainLength), 0);
    lemma_equal(e, on, e.cur(Column::AccRlcValue), e.prev(Column::AccRlcValue));
    assert forall|i: usize| i < MAX_BYTE_COLUMN_NUM implies e.equal_if(
        on,
        #[trigger] e.cur(Column::Byte(i)),
        0,
    ) by {
        if on != 0 && i < row.bytes.len() {
            assert(row.bytes[i as int] == 0);
        }
        lemma_equal(e, on, e.cur(Column::Byte(i)), 0);
    }
    lemma_equal(
        e,
        e.cur(Column::QLast) * e.cur(Column::QEnable),
        q_member(e, RlpTxFieldTag::Padding),
        1,
    );
}

/// The flag of two or of four flags.
proof fn lemma_any_of_two(a: int, b: int)
    requires
        is_bit(a),
        is_bit(b),
    ensures
        any_of(seq![a, b]) == bit(a == 1 || b == 1),
{
    let v = seq![a, b];
    reveal_with_fuel(none_of, 3);
    assert(v.drop_last() =~= seq![a]);
    assert(seq![a].drop_last() =~= seq![]);
    assert(none_of(v) == (1 * (1 - a)) * (1 - b));
    assert((1 * (1 - a)) * (1 - b) == if a == 0 && b == 0 { 1int } else { 0int })
        by (nonlinear_arith)
        requires
            a == 0 || a == 1,
            b == 0 || b == 1,
    ;
}

proof fn lemma_any_of_more(v: Seq<int>, c: int)
    requires
        v.len() > 0,
        is_bit(v.last()),
        any_of(v.drop_last()) == c,
        is_bit(c),
    ensures
        any_of(v) == bit(c == 1 || v.last() == 1),
{
    let (a, b) = (1 - c, v.last());
    assert(none_of(v) == a * (1 - b));
    assert(a * (1 - b) == if c == 0 && b == 0 { 1int } else { 0int }) by (nonlinear_arith)
        requires
            a == 1 - c,
            c == 0 || c == 1,
            b == 0 || b == 1,
    ;
}

proof fn lemma_any_of_three(a: int, b: int, c: int)
    requires
        is_bit(a),
        is_bit(b),
        is_bit(c),
    ensures
        any_of(seq![a, b, c]) == bit(a == 1 || b == 1 || c == 1),
{
    lemma_any_of_two(a, b);
    assert(seq![a, b, c].drop_last() =~= seq![a, b]);
    lemma_any_of_more(seq![a, b, c], bit(a == 1 || b == 1));
}

proof fn lemma_any_of_four(a: int, b: int, c: int, d: int)
    requires
        is_bit(a),
        is_bit(b),
        is_bit(c),
        is_bit(d),
    ensures
        any_of(seq![a, b, c, d]) == bit(a == 1 || b == 1 || c == 1 || d == 1),
{
    lemma_any_of_three(a, b, c);
    assert(seq![a, b, c, d].drop_last() =~= seq![a, b, c]);
    lemma_any_of_more(seq![a, b, c, d], bit(a == 1 || b == 1 || c == 1));
}

proof fn lemma_errors(e: Env<Column>, prev: Row, row: Row, next: Row, r: int, m: int)
    requires
        m > 1,
        shows(e, prev, row, next, r, m),
        row_fits(prev, row, next, r, m),
    ensures
        header_error_rule(e),
        len_error_rule(e),
        value_error_rule(e),
        eof_error_rule(e),
{
    let q_enable = e.cur(Column::QEnable);
    let header = q_error(e, RlpDecodeErrorType::HeaderDecError);
    lemma_bit_product(q_enable, header);
    lemma_equal(e, q_enable * header, header, 1 - e.cur(Column::Valid));

    let len = q_error(e, RlpDecodeErrorType::LenOfLenError);
    lemma_bit_product(q_enable, len);
    let s1 = q_type(e, RlpDecodeTypeTag::LongString1);
    let l1 = q_type(e, RlpDecodeTypeTag::LongList1);
    lemma_any_of_two(s1, l1);
    lemma_equal_both(e, q_enable * len, any_of(seq![s1, l1]), is_lt(e, Comparison::VGt55), 0);
    let s2 = q_type(e, RlpDecodeTypeTag::LongString2);
    let s3 = q_type(e, RlpDecodeTypeTag::LongString3);
    let l2 = q_type(e, RlpDecodeTypeTag::LongList2);
    let l3 = q_type(e, RlpDecodeTypeTag::LongList3);
    lemma_any_of_four(s2, s3, l2, l3);
    lemma_equal_both(
        e,
        q_enable * len,
        any_of(seq![s2, s3, l2, l3]),
        is_lt(e, Comparison::VGt0),
        0,
    );

    let value = q_error(e, RlpDecodeErrorType::ValueError);
    lemma_bit_product(q_enable, value);
    let integer = q_type(e, RlpDecodeTypeTag::ShortStringValue);
    let gt_0 = is_lt(e, Comparison::VGt0);
    assert(byte_at(row, 0) == e.cur(Column::Byte(0)));
    lemma_equal_both(e, q_enable * value, integer, gt_0 * (e.cur(Column::Byte(0)) - 0x81), 0);
    lemma_equal_both(
        e,
        q_enable * value,
        integer,
        gt_0 * (1 - is_lt(e, Comparison::VLt128)),
        0,
    );

    let eof = q_error(e, RlpDecodeErrorType::RunOutOfDataError(0));
    lemma_bit_product(q_enable, eof);
    lemma_equal(
        e,
        q_enable * eof,
        e.prev(Column::RemainLength),
        e.cur(Column::TxMemberLength),
    );
    lemma_equal_both(
        e,
        q_enable * eof,
        q_member(e, RlpTxFieldTag::SignS),
        is_lt(e, Comparison::RemainLengthLt33),
        1,
    );
}

proof fn lemma_decode_error(e: Env<Column>, prev: Row, row: Row, next: Row, r: int, m: int)
    requires
        m > 1,
        shows(e, prev, row, next, r, m),
        row_fits(prev, row, next, r, m),
    ensures
        decode_error_rule(e),
{
    let on = q_member(e, RlpTxFieldTag::DecodeError) * e.cur(Column::QEnable);
    let length = e.cur(Column::TxMemberLength);
    let prev_remain = e.prev(Column::RemainLength);
    let more_than_a_row = is_lt(e, Comparison::RemainLengthGt33);
    lemma_bit_product(q_member(e, RlpTxFieldTag::DecodeError), e.cur(Column::QEnable));
    lemma_equal(e, on, e.cur(Column::TxMember), RlpTxFieldTag::DecodeError.ordinal() as int);
    lemma_equal(e, on, e.cur(Column::Complete), 1);
    lemma_equal_both(e, on, more_than_a_row, length, MAX_BYTE_COLUMN_NUM as int);
    lemma_equal_both(e, on, 1 - more_than_a_row, length, prev_remain);
    lemma_equal(e, on, e.cur(Column::RemainLength), prev_remain - length);
    lemma_equal(e, on, e.prev(Column::Valid), 0);
}

/// The product of two flags is the flag of both.
pub proof fn lemma_bit_product(a: int, b: int)
    requires
        is_bit(a),
        is_bit(b),
    ensures
        a * b == bit(a == 1 && b == 1),
{
    assert(0 * b == 0);
    assert(1 * b == b);
}

/// The gates of the circuit hold for a row that fits.
pub proof fn lemma_rules(e: Env<Column>, prev: Row, row: Row, next: Row, r: int, m: int)
    requires
        m > 1,
        shows(e, prev, row, next, r, m),
        row_fits(prev, row, next, r, m),
    ensures
        circuit_rules(e),
{
    lemma_common(e, prev, row, next, r, m);
    lemma_member(e, prev, row, next, r, m);
    lemma_first_row(e, prev, row, next, r, m);
    lemma_typed_header(e, prev, row, next, r, m);
    lemma_tx_header(e, prev, row, next, r, m);
    lemma_padding(e, prev, row, next, r, m);
    lemma_errors(e, prev, row, next, r, m);
    lemma_decode_error(e, prev, row, next, r, m);
}

/// Every byte of a number is a byte.
proof fn lemma_le_byte_range(value: int, k: nat)
    ensures
        0 <= le_byte(value, k) < 256,
    decreases k,
{
    if k > 0 {
        lemma_le_byte_range(value / 256, (k - 1) as nat);
    }
}

/// The bytes of a small number make it up.
proof fn lemma_diff_value(cells: Seq<int>, comparison: Comparison, d: int)
    requires
        cells.len() == diff_bytes(comparison),
        forall|k: int| 0 <= k < cells.len() ==> #[trigger] cells[k] == le_byte(d, k as nat),
        0 <= d < diff_range(comparison),
    ensures
        polynomial(cells.reverse(), 256) == d,
{
    let v = cells.reverse();
    reveal_with_fuel(le_byte, 5);
    if diff_bytes(comparison) == 1 {
        assert(v =~= seq![cells[0]]);
        reveal_with_fuel(polynomial, 2);
        assert(v.drop_last() =~= seq![]);
    } else {
        assert(v =~= seq![cells[3], cells[2], cells[1], cells[0]]);
        let (v3, v2, v1) = (
            seq![cells[3], cells[2], cells[1]],
            seq![cells[3], cells[2]],
            seq![cells[3]],
        );
        reveal_with_fuel(polynomial, 5);
        assert(v.drop_last() =~= v3);
        assert(v3.drop_last() =~= v2);
        assert(v2.drop_last() =~= v1);
        assert(v1.drop_last() =~= seq![]);
        let (d1, d2, d3) = (d / 256, d / 256 / 256, d / 256 / 256 / 256);
        assert(cells[0] == d % 256);
        assert(cells[1] == d1 % 256);
        assert(cells[2] == d2 % 256);
        assert(cells[3] == d3 % 256);
        assert(d3 < 256);
    }
}

/// The comparison of two numbers that it can tell apart.
proof fn lemma_lt(
    e: Env<Column>,
    prev: Row,
    row: Row,
    next: Row,
    r: int,
    m: int,
    comparison: Comparison,
    on: int,
)
    requires
        m > 0x1_0000_0000,
        shows(e, prev, row, next, r, m),
        ({
            let s = sides(comparison, prev, row);
            on != 0 ==> 0 <= s.0 < diff_range(comparison) && 0 <= s.1 <= diff_range(comparison)
        }),
    ensures
        lt_rule(
            e,
            comparison,
            on,
            sides(comparison, prev, row).0,
            sides(comparison, prev, row).1,
        ),
{
    let s = sides(comparison, prev, row);
    let flag = is_lt(e, comparison);
    let range = diff_range(comparison) as int;
    let d = s.0 - s.1 + flag * range;
    let cells = diff_cells(e, comparison);
    if on != 0 {
        assert(flag * range == if s.0 < s.1 { range } else { 0 }) by {
            assert(1 * range == range && 0 * range == 0);
        }
        assert(0 <= d < range);
        lemma_small_mod(d as nat, m as nat);
        assert forall|k: int| 0 <= k < cells.len() implies #[trigger] cells[k] == le_byte(
            d,
            k as nat,
        ) by {
            assert(e.cur(Column::Diff(comparison, k as usize)) == cells[k]);
        }
        lemma_diff_value(cells, comparison, d);
    }
    lemma_equal(
        e,
        on,
        s.0 - s.1 - polynomial(cells.reverse(), 256) + flag * diff_range(comparison),
        0,
    );
    lemma_boolean(e, on, flag);
}

/// The comparisons of the circuit hold for a row whose numbers they can tell apart, and for any
/// row that is not enabled.
pub proof fn lemma_comparisons(e: Env<Column>, prev: Row, row: Row, next: Row, r: int, m: int)
    requires
        m > 0x1_0000_0000,
        shows(e, prev, row, next, r, m),
        row.q_enable ==> bounded(prev) && bounded(row),
    ensures
        comparison_rules(e),
{
    let q_enable = e.cur(Column::QEnable);
    let list_1 = q_type(e, RlpDecodeTypeTag::LongList1);
    let others = any_of(
        seq![
            q_type(e, RlpDecodeTypeTag::ShortStringValue),
            q_type(e, RlpDecodeTypeTag::LongList2),
            q_type(e, RlpDecodeTypeTag::LongList3),
        ],
    );
    let invalid = 1 - e.cur(Column::Valid);
    let integer = q_type(e, RlpDecodeTypeTag::ShortStringValue);
    assert(list_1 * 0 == 0 && others * 0 == 0 && integer * 0 == 0 && invalid * 0 == 0);
    assert(byte_at(row, 1) == e.cur(Column::Byte(1)));
    lemma_lt(e, prev, row, next, r, m, Comparison::VGt55, list_1 * q_enable);
    lemma_lt(e, prev, row, next, r, m, Comparison::VGt0, others * q_enable);
    lemma_lt(e, prev, row, next, r, m, Comparison::VLt128, integer * q_enable);
    lemma_lt(e, prev, row, next, r, m, Comparison::RemainLengthGt33, invalid * q_enable);
    lemma_lt(e, prev, row, next, r, m, Comparison::RemainLengthLt33, invalid * q_enable);
    lemma_lt(e, prev, row, next, r, m, Comparison::RemainLengthGeLength, q_enable);
}

/// Values that are the front of a row of the table are found.
proof fn lemma_found(e: Env<Column>, values: Seq<int>, row: Seq<int>)
    requires
        e.modulus > 0,
        in_fixed_table(row, keccak_input(e), e.modulus),
        values.len() <= row.len(),
        forall|i: int| 0 <= i < values.len() ==> #[trigger] values[i] == row[i],
    ensures
        looked_up(values, e),
{
    lemma_small_mod(0, e.modulus as nat);
    assert(matches_row(values, row, e.modulus));
}

/// A byte is found.
proof fn lemma_byte_found(e: Env<Column>, value: int)
    requires
        e.modulus > 0,
        0 <= value < 256,
    ensures
        looked_up(range_inputs(value), e),
{
    lemma_range_row(value, keccak_input(e), e.modulus);
    lemma_found(e, range_inputs(value), range_row(value));
}

/// All the bytes of a row, and of its comparisons, are found.
proof fn lemma_bytes_found(e: Env<Column>, prev: Row, row: Row, next: Row, r: int, m: int)
    requires
        m > 1,
        shows(e, prev, row, next, r, m),
    ensures
        bytes_in_range(e, MAX_BYTE_COLUMN_NUM as int),
        forall|comparison: Comparison, n: int| #[trigger] diff_in_range(e, comparison, n),
{
    assert forall|i: usize| i < MAX_BYTE_COLUMN_NUM implies looked_up(
        range_inputs(#[trigger] e.cur(Column::Byte(i))),
        e,
    ) by {
        lemma_byte_found(e, e.cur(Column::Byte(i)));
    }
    assert forall|comparison: Comparison, n: int| #[trigger] diff_in_range(e, comparison, n) by {
        assert forall|i: usize| i < n implies looked_up(
            range_inputs(#[trigger] e.cur(Column::Diff(comparison, i))),
            e,
        ) by {
            let d = difference(comparison, sides(comparison, prev, row), m);
            lemma_le_byte_range(d, i as nat);
            lemma_byte_found(e, e.cur(Column::Diff(comparison, i)));
        }
    }
}

/// Nothing is looked up where the selector is off.
proof fn lemma_nothing_found(e: Env<Column>, values: Seq<int>)
    requires
        e.modulus > 0,
        values.len() <= 6,
        forall|i: int| 0 <= i < values.len() ==> #[trigger] values[i] == 0,
    ensures
        looked_up(values, e),
{
    lemma_zero_row(keccak_input(e), e.modulus);
    lemma_found(e, values, table_row(0, 0, 0, 0, 0));
}

/// The lookups of the circuit hold for a row that fits, and for any row that is not enabled.
pub proof fn lemma_lookups(e: Env<Column>, prev: Row, row: Row, next: Row, r: int, m: int)
    requires
        m > 1,
        shows(e, prev, row, next, r, m),
        row.q_enable ==> lookups_fit(prev, row, next, r, m) && bounded(row),
    ensures
        circuit_lookups(e),
{
    lemma_bytes_found(e, prev, row, next, r, m);
    lemma_decode_found(e, prev, row, next, r, m);
    lemma_switch_found(e, prev, row, next, r, m);
    lemma_powers_found(e, prev, row, next, r, m);
}

proof fn lemma_decode_found(e: Env<Column>, prev: Row, row: Row, next: Row, r: int, m: int)
    requires
        m > 1,
        shows(e, prev, row, next, r, m),
        row.q_enable ==> lookups_fit(prev, row, next, r, m) && bounded(row),
    ensures
        looked_up(decode_inputs(e), e),
{
    let (a, b) = (e.cur(Column::QEnable), 1 - q_type(e, RlpDecodeTypeTag::PartialRlp));
    let on = a * b * e.prev(Column::Valid);
    lemma_bit_product(a, b);
    lemma_bit_product(a * b, e.prev(Column::Valid));
    let values = decode_inputs(e);
    let byte0 = byte_at(row, 0) as u8;
    assert(e.cur(Column::Byte(0)) == byte_at(row, 0));
    if on == 0 {
        lemma_all_zero(on, 1, e.cur(Column::TxType), e.cur(Column::TxMember));
        lemma_all_zero(
            on,
            e.cur(Column::Byte(0)),
            1 - q_error(e, RlpDecodeErrorType::HeaderDecError),
            0,
        );
        lemma_nothing_found(e, values);
    } else {
        lemma_decode_row(row.tx_member, byte0, r, m);
        lemma_all_same(on, 1, e.cur(Column::TxType), e.cur(Column::TxMember));
        lemma_all_same(
            on,
            e.cur(Column::Byte(0)),
            1 - q_error(e, RlpDecodeErrorType::HeaderDecError),
            0,
        );
        lemma_found(e, values, decode_row(row.tx_member, byte0));
    }
}

proof fn lemma_all_zero(on: int, a: int, b: int, c: int)
    requires
        on == 0,
    ensures
        on * a == 0,
        on * b == 0,
        on * c == 0,
{
    assert(0 * a == 0 && 0 * b == 0 && 0 * c == 0);
}

proof fn lemma_all_same(on: int, a: int, b: int, c: int)
    requires
        on == 1,
    ensures
        on * a == a,
        on * b == b,
        on * c == c,
{
    assert(1 * a == a && 1 * b == b && 1 * c == c);
}

proof fn lemma_switch_found(e: Env<Column>, prev: Row, row: Row, next: Row, r: int, m: int)
    requires
        m > 1,
        shows(e, prev, row, next, r, m),
        row.q_enable ==> lookups_fit(prev, row, next, r, m) && bounded(row),
    ensures
        looked_up(switch_inputs(e), e),
{
    let (a, b) = (1 - e.cur(Column::QLast), e.cur(Column::QEnable));
    let on = a * b * e.cur(Column::Complete);
    lemma_bit_product(a, b);
    lemma_bit_product(a * b, e.cur(Column::Complete));
    let values = switch_inputs(e);
    if on == 0 {
        lemma_all_zero(on, 2, e.cur(Column::TxMember), e.next(Column::TxMember));
        lemma_nothing_found(e, values);
    } else {
        let i = choose|i: int|
            0 <= i < followers(row.tx_member).len() && followers(row.tx_member)[i]
                == next.tx_member;
        lemma_switch_row(row.tx_member, i, r, m);
        lemma_all_same(on, 2, e.cur(Column::TxMember), e.next(Column::TxMember));
        lemma_found(e, values, switch_row(row.tx_member, next.tx_member));
    }
}

proof fn lemma_powers_found(e: Env<Column>, prev: Row, row: Row, next: Row, r: int, m: int)
    requires
        m > 1,
        shows(e, prev, row, next, r, m),
        row.q_enable ==> lookups_fit(prev, row, next, r, m) && bounded(row),
    ensures
        looked_up(r_mult_inputs(e), e),
        looked_up(r_mult_comp_inputs(e), e),
{
    let on = e.cur(Column::QEnable);
    let in_row = e.cur(Column::BytesInRow);
    let unused = MAX_BYTE_COLUMN_NUM - in_row;
    if on == 0 {
        lemma_all_zero(on, 3, e.cur(Column::RMult), in_row);
        lemma_all_zero(on, 3, e.cur(Column::RMultComp), unused);
        lemma_nothing_found(e, r_mult_inputs(e));
        lemma_nothing_found(e, r_mult_comp_inputs(e));
    } else {
        lemma_all_same(on, 3, e.cur(Column::RMult), in_row);
        lemma_all_same(on, 3, e.cur(Column::RMultComp), unused);
        lemma_r_mult_row(in_row, r, m);
        lemma_r_mult_row(unused, r, m);
        lemma_found(e, r_mult_inputs(e), r_mult_row(in_row, r, m));
        lemma_found(e, r_mult_comp_inputs(e), r_mult_row(unused, r, m));
    }
}

/// Everything holds where the selector is off.
proof fn lemma_off(e: Env<Column>)
    requires
        e.modulus > 0,
    ensures
        forall|a: int, b: int| #[trigger] e.equal_if(0, a, b),
        forall|c: int, a: int, b: int| #[trigger] e.equal_if_both(0, c, a, b),
        forall|a: int| #[trigger] e.boolean_if(0, a),
{
    assert forall|a: int, b: int| #[trigger] e.equal_if(0, a, b) by {
        lemma_equal(e, 0, a, b);
    }
    assert forall|c: int, a: int, b: int| #[trigger] e.equal_if_both(0, c, a, b) by {
        lemma_equal_both(e, 0, c, a, b);
    }
    assert forall|a: int| #[trigger] e.boolean_if(0, a) by {
        lemma_boolean(e, 0, a);
    }
}

/// The gates of the circuit hold for a row that is not enabled.
pub proof fn lemma_disabled_rules(e: Env<Column>)
    requires
        e.modulus > 0,
        e.cur(Column::QEnable) == 0,
        e.cur(Column::QFirst) == 0,
    ensures
        circuit_rules(e),
{
    lemma_off(e);
    let z = e.cur(Column::QEnable);
    let last = e.cur(Column::QLast);
    assert(z * (1 - last) == 0) by (nonlinear_arith)
        requires
            z == 0,
    ;
    assert(last * z == 0) by (nonlinear_arith)
        requires
            z == 0,
    ;
    assert(member_on(e) == 0) by {
        let (b, c) = (e.cur(Column::Valid), 1 - e.cur(Column::QFirst));
        let d = 1 - q_member(e, RlpTxFieldTag::TxRlpHeader);
        let f = 1 - q_member(e, RlpTxFieldTag::TypedTxHeader);
        assert(z * b * c * d * f == 0) by (nonlinear_arith)
            requires
                z == 0,
        ;
    }
    assert forall|x: int| #[trigger] (x * z) == 0 by {
        assert(x * z == 0) by (nonlinear_arith)
            requires
                z == 0,
        ;
    }
    assert forall|x: int| #[trigger] (z * x) == 0 by {
        assert(z * x == 0) by (nonlinear_arith)
            requires
                z == 0,
        ;
    }
    assert(common_rule(e));
    assert(member_rule(e));
    assert(first_row_rule(e));
    assert(typed_header_rule(e));
    assert(tx_header_rule(e));
    assert(padding_rule(e));
    assert(last_row_rule(e));
    assert(header_error_rule(e));
    assert(len_error_rule(e));
    assert(value_error_rule(e));
    assert(eof_error_rule(e));
    assert(decode_error_rule(e));
}

} // verus!
