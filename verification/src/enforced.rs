//! What each constraint of the decoder circuit forces, said of the cells themselves.

use crate::config::{
    circuit_lookups, circuit_rules, common_rule, comparison_rules, decode_inputs, diff_in_range,
    last_row_rule, looked_up, padding_rule, r_mult_comp_inputs, r_mult_inputs, range_inputs,
    switch_inputs, v_gt_0_rule, v_lt_128_rule, value_error_rule, Column, Comparison,
};
use crate::expression::{any_of, none_of, Challenge, Env};
use crate::rlp_decoder_tables::bit;
use crate::soundness::{env_at, law_comparisons_are_right, no_zero_divisors};
use crate::tags::{RlpDecodeTypeTag, RlpTxFieldTag, RlpTxTypeTag};
use vstd::arithmetic::div_mod::{lemma_mod_equivalence, lemma_small_mod};
use vstd::prelude::*;

verus! {

/// Two numbers are the same element of the field.
pub open spec fn same(e: Env<Column>, a: int, b: int) -> bool {
    a % e.modulus == b % e.modulus
}

/// The flag of a field is set to `value`.
pub open spec fn member_flag(e: Env<Column>, tag: RlpTxFieldTag, value: int) -> bool {
    e.cur(Column::QTxMember(tag.ordinal())) == value
}

/// The flag of a decoding type is set.
pub open spec fn has_type(e: Env<Column>, tag: RlpDecodeTypeTag) -> bool {
    e.cur(Column::QRlpType(tag.ordinal())) == 1
}

/// The flag of an error, by its place.
pub open spec fn error_at(e: Env<Column>, i: usize) -> int {
    e.cur(Column::Error(i))
}

/// Byte `i` of the row.
pub open spec fn byte_at(e: Env<Column>, i: usize) -> int {
    e.cur(Column::Byte(i))
}

/// The row is a valid one of a field, with neither the header of the list nor one of a transaction.
pub open spec fn is_field(e: Env<Column>) -> bool {
    &&& e.modulus > 0
    &&& e.cur(Column::QEnable) == 1
    &&& e.cur(Column::Valid) == 1
    &&& e.cur(Column::QFirst) == 0
    &&& member_flag(e, RlpTxFieldTag::TxRlpHeader, 0)
    &&& member_flag(e, RlpTxFieldTag::TypedTxHeader, 0)
}

/// A constraint that is switched on.
proof fn lemma_on(e: Env<Column>, on: int, a: int, b: int)
    requires
        e.modulus > 0,
        on == 1,
        e.equal_if(on, a, b),
    ensures
        same(e, a, b),
{
    assert(1 * (a - b) == a - b);
    lemma_mod_equivalence(a, b, e.modulus);
}

/// A constraint that is switched on, whose condition is met.
proof fn lemma_both(e: Env<Column>, on: int, condition: int, a: int, b: int)
    requires
        e.modulus > 0,
        on == 1,
        condition == 1,
        e.equal_if_both(on, condition, a, b),
    ensures
        same(e, a, b),
{
    assert(1 * (1 * (a - b)) == a - b);
    lemma_mod_equivalence(a, b, e.modulus);
}

/// The selector of the fields.
proof fn lemma_field_on(e: Env<Column>)
    requires
        is_field(e),
    ensures
        crate::config::member_on(e) == 1,
{
    let (a, b, c) = (
        e.cur(Column::QFirst),
        e.cur(Column::QTxMember(RlpTxFieldTag::TxRlpHeader.ordinal())),
        e.cur(Column::QTxMember(RlpTxFieldTag::TypedTxHeader.ordinal())),
    );
    let (q, v) = (e.cur(Column::QEnable), e.cur(Column::Valid));
    assert(q * v * (1 - a) * (1 - b) * (1 - c) == 1) by (nonlinear_arith)
        requires
            q == 1,
            v == 1,
            a == 0,
            b == 0,
            c == 0,
    ;
}

/// Whatever the cells hold, a field that ends in its row takes as many bytes there as it is long,
/// and leaves over what the row above left over, less these. One that does not end fills the row.
pub proof fn law_constraints_count_the_bytes(e: Env<Column>)
    requires
        circuit_rules(e),
        is_field(e),
    ensures
        e.cur(Column::Complete) == 1 ==> same(
            e,
            e.cur(Column::RemainLength),
            e.prev(Column::RemainLength) - e.cur(Column::BytesInRow),
        ),
        e.cur(Column::Complete) == 1 ==> same(
            e,
            e.cur(Column::BytesInRow),
            e.cur(Column::TxMemberLength),
        ),
        e.cur(Column::Complete) == 0 ==> same(e, e.cur(Column::BytesInRow), 33),
{
    lemma_field_on(e);
    let on = crate::config::member_on(e);
    let (complete, in_row) = (e.cur(Column::Complete), e.cur(Column::BytesInRow));
    if complete == 1 {
        lemma_both(
            e,
            on,
            complete,
            e.cur(Column::RemainLength),
            e.prev(Column::RemainLength) - in_row,
        );
        lemma_both(e, on, complete, in_row, e.cur(Column::TxMemberLength));
    }
    if complete == 0 {
        lemma_both(e, on, 1 - complete, in_row, 33);
    }
}

/// Whatever the cells hold, the length of a field is that which its first bytes announce, header
/// and all; a field that goes on is as long as what the row above left of it, is the data of a
/// transaction, and stands behind a row that is not its end.
pub proof fn law_constraints_fix_the_length(e: Env<Column>, tag: RlpDecodeTypeTag)
    requires
        circuit_rules(e),
        is_field(e),
        has_type(e, tag),
    ensures
        ({
            let length = e.cur(Column::TxMemberLength);
            let (b0, b1, b2, b3) = (byte_at(e, 0), byte_at(e, 1), byte_at(e, 2), byte_at(e, 3));
            match tag {
                RlpDecodeTypeTag::DoNothing => same(e, length, 0),
                RlpDecodeTypeTag::SingleByte => same(e, length, 1),
                RlpDecodeTypeTag::NullValue => same(e, length, 1),
                RlpDecodeTypeTag::ShortStringValue => same(e, length, b0 - 0x7f),
                RlpDecodeTypeTag::ShortStringBytes => same(e, length, b0 - 0x7f),
                RlpDecodeTypeTag::LongString1 => same(e, length, 2 + b1),
                RlpDecodeTypeTag::LongString2 => same(e, length, 3 + b1 * 0x100 + b2),
                RlpDecodeTypeTag::LongString3 => same(
                    e,
                    length,
                    4 + b1 * 0x1_0000 + b2 * 0x100 + b3,
                ),
                RlpDecodeTypeTag::EmptyList => same(e, length, 1),
                RlpDecodeTypeTag::ShortList => same(e, length, b0 - 0xbf),
                RlpDecodeTypeTag::PartialRlp => {
                    &&& same(
                        e,
                        length,
                        e.prev(Column::TxMemberLength) - e.prev(Column::BytesInRow),
                    )
                    &&& same(e, e.prev(Column::Complete), 0)
                    &&& same(e, e.cur(Column::TxMember), RlpTxFieldTag::Data.ordinal() as int)
                },
                _ => true,
            }
        }),
{
    lemma_field_on(e);
    let on = crate::config::member_on(e);
    let q = e.cur(Column::QRlpType(tag.ordinal()));
    let length = e.cur(Column::TxMemberLength);
    let (b0, b1, b2, b3) = (byte_at(e, 0), byte_at(e, 1), byte_at(e, 2), byte_at(e, 3));
    match tag {
        RlpDecodeTypeTag::DoNothing => lemma_both(e, on, q, length, 0),
        RlpDecodeTypeTag::SingleByte => lemma_both(e, on, q, length, 1),
        RlpDecodeTypeTag::NullValue => lemma_both(e, on, q, length, 1),
        RlpDecodeTypeTag::ShortStringValue => lemma_both(e, on, q, length, b0 - 0x80 + 1),
        RlpDecodeTypeTag::ShortStringBytes => lemma_both(e, on, q, length, b0 - 0x80 + 1),
        RlpDecodeTypeTag::LongString1 => lemma_both(e, on, q, length, b1 + 2),
        RlpDecodeTypeTag::LongString2 => lemma_both(e, on, q, length, b1 * 256 + b2 + 3),
        RlpDecodeTypeTag::LongString3 => lemma_both(
            e,
            on,
            q,
            length,
            b1 * 65536 + b2 * 256 + b3 + 4,
        ),
        RlpDecodeTypeTag::EmptyList => lemma_both(e, on, q, length, 1),
        RlpDecodeTypeTag::ShortList => lemma_both(e, on, q, length, b0 - 0xc0 + 1),
        RlpDecodeTypeTag::PartialRlp => {
            lemma_both(
                e,
                on,
                q,
                length,
                e.prev(Column::TxMemberLength) - e.prev(Column::BytesInRow),
            );
            lemma_both(e, on, q, e.prev(Column::Complete), 0);
            lemma_both(
                e,
                on,
                q,
                e.cur(Column::TxMember),
                RlpTxFieldTag::Data.ordinal() as int,
            );
        },
        _ => {},
    }
}

/// Whatever the cells hold, a valid field whose length takes bytes of its own is flagged as having
/// a wrong length exactly where the comparison of the first of them, with 55 for a single one and
/// with 0 for more, says so; and an integer with a header as having a wrong value where that of
/// its first byte with 0 does.
pub proof fn law_constraints_flag_short_lengths(e: Env<Column>, tag: RlpDecodeTypeTag)
    requires
        circuit_rules(e),
        is_field(e),
        has_type(e, tag),
    ensures
        ({
            let gt_55 = e.cur(Column::IsLt(Comparison::VGt55));
            let gt_0 = e.cur(Column::IsLt(Comparison::VGt0));
            match tag {
                RlpDecodeTypeTag::LongString1 => same(e, gt_55, 1 - error_at(e, 1)),
                RlpDecodeTypeTag::LongString2 => same(e, gt_0, 1 - error_at(e, 1)),
                RlpDecodeTypeTag::LongString3 => same(e, gt_0, 1 - error_at(e, 1)),
                RlpDecodeTypeTag::ShortStringValue => same(e, gt_0, 1 - error_at(e, 2)),
                _ => true,
            }
        }),
{
    lemma_field_on(e);
    let on = crate::config::member_on(e);
    let q = e.cur(Column::QRlpType(tag.ordinal()));
    let gt_55 = e.cur(Column::IsLt(Comparison::VGt55));
    let gt_0 = e.cur(Column::IsLt(Comparison::VGt0));
    match tag {
        RlpDecodeTypeTag::LongString1 => lemma_both(e, on, q, gt_55, 1 - error_at(e, 1)),
        RlpDecodeTypeTag::LongString2 => lemma_both(e, on, q, gt_0, 1 - error_at(e, 1)),
        RlpDecodeTypeTag::LongString3 => lemma_both(e, on, q, gt_0, 1 - error_at(e, 1)),
        RlpDecodeTypeTag::ShortStringValue => lemma_both(e, on, q, gt_0, 1 - error_at(e, 2)),
        _ => {},
    }
}

/// Whatever the cells hold, the first row is the header of the whole list, of no transaction, and
/// the combination starts from nothing. Where it is valid, it announces exactly what is left behind
/// it, in the fewest bytes.
pub proof fn law_constraints_start_with_the_list(e: Env<Column>)
    requires
        circuit_rules(e),
        e.modulus > 0,
        e.cur(Column::QFirst) == 1,
    ensures
        same(e, e.cur(Column::TxId), 0),
        same(e, e.cur(Column::TxType), RlpTxTypeTag::Tx1559Type.ordinal() as int),
        same(e, e.cur(Column::TxMember), RlpTxFieldTag::TxListRlpHeader.ordinal() as int),
        same(e, e.cur(Column::Complete), 1),
        same(e, e.prev(Column::AccRlcValue), 0),
        e.cur(Column::Valid) == 1 ==> {
            let left = e.cur(Column::RemainLength);
            let (b1, b2, b3) = (byte_at(e, 1), byte_at(e, 2), byte_at(e, 3));
            let gt_55 = e.cur(Column::IsLt(Comparison::VGt55));
            let gt_0 = e.cur(Column::IsLt(Comparison::VGt0));
            &&& same(e, e.cur(Column::TxMemberLength), byte_at(e, 0) - 0xf6)
            &&& has_type(e, RlpDecodeTypeTag::LongList1) ==> same(e, left, b1) && same(
                e,
                gt_55,
                1,
            )
            &&& has_type(e, RlpDecodeTypeTag::LongList2) ==> same(e, left, b1 * 0x100 + b2)
                && same(e, gt_0, 1)
            &&& has_type(e, RlpDecodeTypeTag::LongList3) ==> same(
                e,
                left,
                b1 * 0x1_0000 + b2 * 0x100 + b3,
            ) && same(e, gt_0, 1)
        },
{
    let on = e.cur(Column::QFirst);
    let valid = e.cur(Column::Valid);
    let left = e.cur(Column::RemainLength);
    let (b1, b2, b3) = (byte_at(e, 1), byte_at(e, 2), byte_at(e, 3));
    let gt_55 = e.cur(Column::IsLt(Comparison::VGt55));
    let gt_0 = e.cur(Column::IsLt(Comparison::VGt0));
    lemma_on(e, on, e.cur(Column::TxId), 0);
    lemma_on(e, on, e.cur(Column::TxType), RlpTxTypeTag::Tx1559Type.ordinal() as int);
    lemma_on(e, on, e.cur(Column::TxMember), RlpTxFieldTag::TxListRlpHeader.ordinal() as int);
    lemma_on(e, on, e.cur(Column::Complete), 1);
    lemma_on(e, on, e.prev(Column::AccRlcValue), 0);
    if valid == 1 {
        lemma_both(e, on, valid, e.cur(Column::TxMemberLength), byte_at(e, 0) - 247 + 1);
        let q1 = e.cur(Column::QRlpType(RlpDecodeTypeTag::LongList1.ordinal()));
        let q2 = e.cur(Column::QRlpType(RlpDecodeTypeTag::LongList2.ordinal()));
        let q3 = e.cur(Column::QRlpType(RlpDecodeTypeTag::LongList3.ordinal()));
        assert(q1 * valid == q1 && q2 * valid == q2 && q3 * valid == q3) by (nonlinear_arith)
            requires
                valid == 1,
        ;
        if q1 == 1 {
            lemma_both(e, on, q1 * valid, left, b1);
            lemma_both(e, on, q1 * valid, gt_55, 1);
        }
        if q2 == 1 {
            lemma_both(e, on, q2 * valid, left, b1 * 256 + b2);
            lemma_both(e, on, q2 * valid, gt_0, 1);
        }
        if q3 == 1 {
            lemma_both(e, on, q3 * valid, left, b1 * 65536 + b2 * 256 + b3);
            lemma_both(e, on, q3 * valid, gt_0, 1);
        }
    }
}

/// Whatever the cells hold, the header in front of a transaction starts the next transaction, ends
/// in its row, and is valid only with as many bytes as its first one says, in the shortest form.
pub proof fn law_constraints_start_each_transaction(e: Env<Column>)
    requires
        circuit_rules(e),
        e.modulus > 0,
        e.cur(Column::QEnable) == 1,
        member_flag(e, RlpTxFieldTag::TypedTxHeader, 1),
    ensures
        same(e, e.cur(Column::TxId), e.prev(Column::TxId) + 1),
        same(e, e.cur(Column::TxType), RlpTxTypeTag::Tx1559Type.ordinal() as int),
        same(e, e.cur(Column::Complete), 1),
        e.cur(Column::Valid) == 1 ==> {
            let length = e.cur(Column::TxMemberLength);
            let gt_55 = e.cur(Column::IsLt(Comparison::VGt55));
            let gt_0 = e.cur(Column::IsLt(Comparison::VGt0));
            &&& has_type(e, RlpDecodeTypeTag::LongString1) ==> same(e, length, 2) && same(
                e,
                gt_55,
                1 - error_at(e, 1),
            )
            &&& has_type(e, RlpDecodeTypeTag::LongString2) ==> same(e, length, 3) && same(
                e,
                gt_0,
                1 - error_at(e, 1),
            )
            &&& has_type(e, RlpDecodeTypeTag::LongString3) ==> same(e, length, 4) && same(
                e,
                gt_0,
                1 - error_at(e, 1),
            )
        },
{
    let q = e.cur(Column::QTxMember(RlpTxFieldTag::TypedTxHeader.ordinal()));
    let on = q * e.cur(Column::QEnable);
    assert(on == 1);
    let valid = e.cur(Column::Valid);
    let length = e.cur(Column::TxMemberLength);
    let gt_55 = e.cur(Column::IsLt(Comparison::VGt55));
    let gt_0 = e.cur(Column::IsLt(Comparison::VGt0));
    lemma_on(e, on, e.cur(Column::TxId), e.prev(Column::TxId) + 1);
    lemma_on(e, on, e.cur(Column::TxType), RlpTxTypeTag::Tx1559Type.ordinal() as int);
    lemma_on(e, on, e.cur(Column::Complete), 1);
    if valid == 1 {
        let q1 = e.cur(Column::QRlpType(RlpDecodeTypeTag::LongString1.ordinal()));
        let q2 = e.cur(Column::QRlpType(RlpDecodeTypeTag::LongString2.ordinal()));
        let q3 = e.cur(Column::QRlpType(RlpDecodeTypeTag::LongString3.ordinal()));
        assert(q1 * valid == q1 && q2 * valid == q2 && q3 * valid == q3) by (nonlinear_arith)
            requires
                valid == 1,
        ;
        if q1 == 1 {
            lemma_both(e, on, q1 * valid, length, 2);
            lemma_both(e, on, q1 * valid, gt_55, 1 - error_at(e, 1));
        }
        if q2 == 1 {
            lemma_both(e, on, q2 * valid, length, 3);
            lemma_both(e, on, q2 * valid, gt_0, 1 - error_at(e, 1));
        }
        if q3 == 1 {
            lemma_both(e, on, q3 * valid, length, 4);
            lemma_both(e, on, q3 * valid, gt_0, 1 - error_at(e, 1));
        }
    }
}

/// Whatever the cells hold, the header of the list of fields of a transaction ends in its row, and
/// has as many bytes as its first one says, unless that one is flagged as wrong.
pub proof fn law_constraints_fix_the_header_of_fields(e: Env<Column>)
    requires
        circuit_rules(e),
        e.modulus > 0,
        e.cur(Column::QEnable) == 1,
        member_flag(e, RlpTxFieldTag::TxRlpHeader, 1),
    ensures
        same(e, e.cur(Column::TxType), RlpTxTypeTag::Tx1559Type.ordinal() as int),
        same(e, e.cur(Column::Complete), 1),
        error_at(e, 0) == 0 ==> same(e, e.cur(Column::TxMemberLength), byte_at(e, 0) - 0xf6),
{
    let q = e.cur(Column::QTxMember(RlpTxFieldTag::TxRlpHeader.ordinal()));
    let on = q * e.cur(Column::QEnable);
    assert(on == 1);
    lemma_on(e, on, e.cur(Column::TxType), RlpTxTypeTag::Tx1559Type.ordinal() as int);
    lemma_on(e, on, e.cur(Column::Complete), 1);
    if error_at(e, 0) == 0 {
        lemma_both(
            e,
            on,
            1 - error_at(e, 0),
            e.cur(Column::TxMemberLength),
            byte_at(e, 0) - 247 + 1,
        );
    }
}

/// Whatever the cells hold, the padding holds no byte, has nothing left in it or in front of it,
/// and keeps the combination.
pub proof fn law_constraints_keep_the_padding_empty(e: Env<Column>, i: usize)
    requires
        circuit_rules(e),
        e.modulus > 0,
        e.cur(Column::QEnable) == 1,
        member_flag(e, RlpTxFieldTag::Padding, 1),
        i < 33,
    ensures
        same(e, e.cur(Column::TxMember), RlpTxFieldTag::Padding.ordinal() as int),
        same(e, e.cur(Column::Complete), 1),
        same(e, e.cur(Column::RMult), 1),
        same(e, e.cur(Column::TxMemberLength), 0),
        same(e, e.cur(Column::RemainLength), 0),
        same(e, e.prev(Column::RemainLength), 0),
        same(e, e.cur(Column::AccRlcValue), e.prev(Column::AccRlcValue)),
        same(e, byte_at(e, i), 0),
{
    let q = e.cur(Column::QTxMember(RlpTxFieldTag::Padding.ordinal()));
    let on = q * e.cur(Column::QEnable);
    assert(on == 1);
    lemma_on(e, on, e.cur(Column::TxMember), RlpTxFieldTag::Padding.ordinal() as int);
    lemma_on(e, on, e.cur(Column::Complete), 1);
    lemma_on(e, on, e.cur(Column::RMult), 1);
    lemma_on(e, on, e.cur(Column::TxMemberLength), 0);
    lemma_on(e, on, e.cur(Column::RemainLength), 0);
    lemma_on(e, on, e.prev(Column::RemainLength), 0);
    lemma_on(e, on, e.cur(Column::AccRlcValue), e.prev(Column::AccRlcValue));
    lemma_on(e, on, e.cur(Column::Byte(i)), 0);
}

/// Whatever the cells hold, the last row is padding.
pub proof fn law_constraints_end_with_padding(e: Env<Column>)
    requires
        circuit_rules(e),
        e.modulus > 0,
        e.cur(Column::QEnable) == 1,
        e.cur(Column::QLast) == 1,
    ensures
        same(e, e.cur(Column::QTxMember(RlpTxFieldTag::Padding.ordinal())), 1),
{
    let on = e.cur(Column::QLast) * e.cur(Column::QEnable);
    assert(on == 1);
    lemma_on(e, on, e.cur(Column::QTxMember(RlpTxFieldTag::Padding.ordinal())), 1);
}

/// Whatever the cells hold, a wrong first byte makes its row invalid, and bytes run out only where
/// a field takes all that were left; in the last field of a transaction, that is less than a row.
pub proof fn law_constraints_justify_errors(e: Env<Column>)
    requires
        circuit_rules(e),
        e.modulus > 0,
        e.cur(Column::QEnable) == 1,
    ensures
        error_at(e, 0) == 1 ==> same(e, e.cur(Column::Valid), 0),
        error_at(e, 3) == 1 ==> same(
            e,
            e.prev(Column::RemainLength),
            e.cur(Column::TxMemberLength),
        ),
        error_at(e, 3) == 1 && member_flag(e, RlpTxFieldTag::SignS, 1) ==> same(
            e,
            e.cur(Column::IsLt(Comparison::RemainLengthLt33)),
            1,
        ),
{
    let q = e.cur(Column::QEnable);
    let header = error_at(e, 0);
    if header == 1 {
        let valid = e.cur(Column::Valid);
        assert(q * header == 1);
        assert(1 * (header - (1 - valid)) == valid - 0);
        lemma_mod_equivalence(valid, 0, e.modulus);
    }
    let eof = error_at(e, 3);
    if eof == 1 {
        let on = q * eof;
        assert(on == 1);
        lemma_on(e, on, e.prev(Column::RemainLength), e.cur(Column::TxMemberLength));
        let signs = e.cur(Column::QTxMember(RlpTxFieldTag::SignS.ordinal()));
        if signs == 1 {
            lemma_both(e, on, signs, e.cur(Column::IsLt(Comparison::RemainLengthLt33)), 1);
        }
    }
}

/// Whatever the cells hold, a length is flagged as wrong only where it is one byte of at most 55,
/// or starts with a zero.
pub proof fn law_constraints_justify_length_errors(e: Env<Column>, tag: RlpDecodeTypeTag)
    requires
        circuit_rules(e),
        e.modulus > 0,
        e.cur(Column::QEnable) == 1,
        error_at(e, 1) == 1,
        has_type(e, tag),
    ensures
        match tag {
            RlpDecodeTypeTag::LongString1 | RlpDecodeTypeTag::LongList1 => same(
                e,
                e.cur(Column::IsLt(Comparison::VGt55)),
                0,
            ),
            RlpDecodeTypeTag::LongString2
            | RlpDecodeTypeTag::LongString3
            | RlpDecodeTypeTag::LongList2
            | RlpDecodeTypeTag::LongList3 => same(e, e.cur(Column::IsLt(Comparison::VGt0)), 0),
            _ => true,
        },
{
    let q = |t: RlpDecodeTypeTag| e.cur(Column::QRlpType(t.ordinal()));
    let on = e.cur(Column::QEnable) * error_at(e, 1);
    assert(on == 1);
    let one = seq![q(RlpDecodeTypeTag::LongString1), q(RlpDecodeTypeTag::LongList1)];
    let more = seq![
        q(RlpDecodeTypeTag::LongString2),
        q(RlpDecodeTypeTag::LongString3),
        q(RlpDecodeTypeTag::LongList2),
        q(RlpDecodeTypeTag::LongList3),
    ];
    match tag {
        RlpDecodeTypeTag::LongString1 | RlpDecodeTypeTag::LongList1 => {
            let k: int = if tag == RlpDecodeTypeTag::LongString1 {
                0
            } else {
                1
            };
            lemma_any_set(one, k);
            lemma_both(e, on, any_of(one), e.cur(Column::IsLt(Comparison::VGt55)), 0);
        },
        RlpDecodeTypeTag::LongString2
        | RlpDecodeTypeTag::LongString3
        | RlpDecodeTypeTag::LongList2
        | RlpDecodeTypeTag::LongList3 => {
            let k: int = if tag == RlpDecodeTypeTag::LongString2 {
                0
            } else if tag == RlpDecodeTypeTag::LongString3 {
                1
            } else if tag == RlpDecodeTypeTag::LongList2 {
                2
            } else {
                3
            };
            lemma_any_set(more, k);
            lemma_both(e, on, any_of(more), e.cur(Column::IsLt(Comparison::VGt0)), 0);
        },
        _ => {},
    }
}

/// One of the flags is set.
proof fn lemma_any_set(flags: Seq<int>, k: int)
    requires
        0 <= k < flags.len(),
        flags[k] == 1,
    ensures
        any_of(flags) == 1,
    decreases flags.len(),
{
    let front = flags.drop_last();
    if k == flags.len() - 1 {
        assert(none_of(front) * (1 - flags.last()) == 0) by (nonlinear_arith)
            requires
                flags.last() == 1,
        ;
    } else {
        lemma_any_set(front, k);
        assert(none_of(front) == 0);
        assert(0 * (1 - flags.last()) == 0);
    }
}

/// Whatever the cells hold, a row that passes over the bytes behind an error takes as many as fit,
/// leaves over the rest, and stands behind an invalid row.
pub proof fn law_constraints_pass_over_the_rest(e: Env<Column>)
    requires
        circuit_rules(e),
        e.modulus > 0,
        e.cur(Column::QEnable) == 1,
        member_flag(e, RlpTxFieldTag::DecodeError, 1),
    ensures
        same(e, e.cur(Column::TxMember), RlpTxFieldTag::DecodeError.ordinal() as int),
        same(e, e.cur(Column::Complete), 1),
        e.cur(Column::IsLt(Comparison::RemainLengthGt33)) == 1 ==> same(
            e,
            e.cur(Column::TxMemberLength),
            33,
        ),
        e.cur(Column::IsLt(Comparison::RemainLengthGt33)) == 0 ==> same(
            e,
            e.cur(Column::TxMemberLength),
            e.prev(Column::RemainLength),
        ),
        same(
            e,
            e.cur(Column::RemainLength),
            e.prev(Column::RemainLength) - e.cur(Column::TxMemberLength),
        ),
        same(e, e.prev(Column::Valid), 0),
{
    let q = e.cur(Column::QTxMember(RlpTxFieldTag::DecodeError.ordinal()));
    let on = q * e.cur(Column::QEnable);
    assert(on == 1);
    let more = e.cur(Column::IsLt(Comparison::RemainLengthGt33));
    let length = e.cur(Column::TxMemberLength);
    lemma_on(e, on, e.cur(Column::TxMember), RlpTxFieldTag::DecodeError.ordinal() as int);
    lemma_on(e, on, e.cur(Column::Complete), 1);
    if more == 1 {
        lemma_both(e, on, more, length, 33);
    }
    if more == 0 {
        lemma_both(e, on, 1 - more, length, e.prev(Column::RemainLength));
    }
    lemma_on(e, on, e.cur(Column::RemainLength), e.prev(Column::RemainLength) - length);
    lemma_on(e, on, e.prev(Column::Valid), 0);
}

/// What the circuit asks of a row holds all that the laws on single constraints, comparisons and
/// lookups start from.
pub proof fn law_circuit_asks_for_all(e: Env<Column>, i: usize)
    requires
        circuit_rules(e),
        comparison_rules(e),
        circuit_lookups(e),
    ensures
        common_rule(e),
        last_row_rule(e),
        padding_rule(e),
        value_error_rule(e),
        v_gt_0_rule(e),
        v_lt_128_rule(e),
        i < 33 ==> looked_up(range_inputs(byte_at(e, i)), e),
        looked_up(decode_inputs(e), e),
        looked_up(switch_inputs(e), e),
        looked_up(r_mult_inputs(e), e),
        looked_up(r_mult_comp_inputs(e), e),
        diff_in_range(e, Comparison::VGt55, 1),
        diff_in_range(e, Comparison::VGt0, 1),
        diff_in_range(e, Comparison::VLt128, 1),
        diff_in_range(e, Comparison::RemainLengthGt33, 4),
        diff_in_range(e, Comparison::RemainLengthLt33, 4),
        diff_in_range(e, Comparison::RemainLengthGeLength, 4),
{
    if i < 33 {
        assert(looked_up(range_inputs(e.cur(Column::Byte(i))), e));
    }
}

/// Whatever the cells hold, the flags of a row are 0 or 1, and a valid row belongs to a field that
/// is no longer than the bytes that were left.
pub proof fn law_constraints_bind_the_flags(e: Env<Column>, i: usize)
    requires
        circuit_rules(e),
        e.modulus > 0,
        e.cur(Column::QEnable) == 1,
        e.cur(Column::QLast) == 0,
    ensures
        ({
            let bit_like = |x: int| same(e, x * (1 - x), 0);
            &&& bit_like(e.cur(Column::Complete))
            &&& bit_like(e.cur(Column::Valid))
            &&& i < 4 ==> bit_like(e.cur(Column::Error(i)))
            &&& i < 14 ==> bit_like(e.cur(Column::QRlpType(i)))
            &&& i < 19 ==> bit_like(e.cur(Column::QTxMember(i)))
        }),
        i < 14 && e.cur(Column::QRlpType(i)) == 1 ==> same(e, e.cur(Column::RlpType), i as int),
        i < 19 && e.cur(Column::QTxMember(i)) == 1 ==> same(e, e.cur(Column::TxMember), i as int),
        e.cur(Column::Valid) == 1 ==> same(
            e,
            e.cur(Column::IsLt(Comparison::RemainLengthGeLength)),
            1,
        ),
{
    let on = e.cur(Column::QEnable) * (1 - e.cur(Column::QLast));
    assert(on == 1);
    let flag = |x: int| x * (1 - x);
    lemma_on(e, on, flag(e.cur(Column::Complete)), 0);
    lemma_on(e, on, flag(e.cur(Column::Valid)), 0);
    if i < 4 {
        assert(e.boolean_if(on, e.cur(Column::Error(i))));
        lemma_on(e, on, flag(e.cur(Column::Error(i))), 0);
    }
    if i < 14 {
        let q = e.cur(Column::QRlpType(i));
        assert(e.boolean_if(on, q));
        lemma_on(e, on, flag(q), 0);
        if q == 1 {
            lemma_both(e, on, q, e.cur(Column::RlpType), i as int);
        }
    }
    if i < 19 {
        let q = e.cur(Column::QTxMember(i));
        assert(e.boolean_if(on, q));
        lemma_on(e, on, flag(q), 0);
        if q == 1 {
            lemma_both(e, on, q, e.cur(Column::TxMember), i as int);
        }
    }
    let valid = e.cur(Column::Valid);
    if valid == 1 {
        lemma_both(e, on, valid, e.cur(Column::IsLt(Comparison::RemainLengthGeLength)), 1);
    }
}

/// Whatever the other cells hold, each comparison of an enabled row comes out right: of the second
/// byte with 55, 0 and 128, and of the bytes that were left with a row and with the field.
pub proof fn law_comparisons_tell_the_order(e: Env<Column>, byte1: u8, left: u32, length: u32)
    requires
        comparison_rules(e),
        circuit_lookups(e),
        e.modulus > 0x2_0000_0000,
        no_zero_divisors(e.modulus),
        e.cur(Column::QEnable) == 1,
        byte_at(e, 1) == byte1,
        e.prev(Column::RemainLength) == left,
        e.cur(Column::TxMemberLength) == length,
    ensures
        has_type(e, RlpDecodeTypeTag::LongList1) ==> same(
            e,
            e.cur(Column::IsLt(Comparison::VGt55)),
            bit(byte1 > 55),
        ),
        has_type(e, RlpDecodeTypeTag::ShortStringValue) || has_type(e, RlpDecodeTypeTag::LongList2)
            || has_type(e, RlpDecodeTypeTag::LongList3) ==> same(
            e,
            e.cur(Column::IsLt(Comparison::VGt0)),
            bit(byte1 > 0),
        ),
        has_type(e, RlpDecodeTypeTag::ShortStringValue) ==> same(
            e,
            e.cur(Column::IsLt(Comparison::VLt128)),
            bit(byte1 < 128),
        ),
        e.cur(Column::Valid) == 0 ==> same(
            e,
            e.cur(Column::IsLt(Comparison::RemainLengthGt33)),
            bit(left > 33),
        ),
        e.cur(Column::Valid) == 0 ==> same(
            e,
            e.cur(Column::IsLt(Comparison::RemainLengthLt33)),
            bit(left < 33),
        ),
        same(
            e,
            e.cur(Column::IsLt(Comparison::RemainLengthGeLength)),
            bit(length <= left),
        ),
{
    let q = |t: RlpDecodeTypeTag| e.cur(Column::QRlpType(t.ordinal()));
    lemma_small_mod(0, e.modulus as nat);
    lemma_small_mod(1, e.modulus as nat);
    let list_1 = q(RlpDecodeTypeTag::LongList1);
    let integer = q(RlpDecodeTypeTag::ShortStringValue);
    let (list_2, list_3) = (q(RlpDecodeTypeTag::LongList2), q(RlpDecodeTypeTag::LongList3));
    let on = e.cur(Column::QEnable);
    assert(list_1 * on == list_1 && integer * on == integer) by (nonlinear_arith)
        requires
            on == 1,
    ;
    if list_1 == 1 {
        law_comparisons_are_right(e, Comparison::VGt55, 55, byte1 as int);
    }
    let types = seq![integer, list_2, list_3];
    if integer == 1 || list_2 == 1 || list_3 == 1 {
        let k: int = if integer == 1 {
            0
        } else if list_2 == 1 {
            1
        } else {
            2
        };
        lemma_any_set(types, k);
        assert(any_of(types) * on == 1);
        law_comparisons_are_right(e, Comparison::VGt0, 0, byte1 as int);
    }
    if integer == 1 {
        law_comparisons_are_right(e, Comparison::VLt128, byte1 as int, 128);
    }
    if e.cur(Column::Valid) == 0 {
        assert((1 - e.cur(Column::Valid)) * on == 1);
        law_comparisons_are_right(e, Comparison::RemainLengthGt33, 33, left as int);
        law_comparisons_are_right(e, Comparison::RemainLengthLt33, left as int, 33);
    }
    law_comparisons_are_right(
        e,
        Comparison::RemainLengthGeLength,
        length as int,
        left as int + 1,
    );
}

/// A row whose bytes are counted: a valid field, no header, that ends in it.
pub open spec fn is_counted(e: Env<Column>) -> bool {
    is_field(e) && e.cur(Column::Complete) == 1
}

/// What rows `a + 1` up to `b` of a table take: the bytes of those that are counted, and of the
/// others what they leave over less than the row above.
pub open spec fn taken(
    table: spec_fn(Column, int) -> int,
    challenge: spec_fn(Challenge) -> int,
    m: int,
    a: int,
    b: int,
) -> int
    decreases b - a,
{
    if b <= a {
        0
    } else {
        taken(table, challenge, m, a, b - 1) + if is_counted(env_at(table, challenge, m, b)) {
            table(Column::BytesInRow, b)
        } else {
            table(Column::RemainLength, b - 1) - table(Column::RemainLength, b)
        }
    }
}

/// Whatever the cells of a table hold, what its rows take adds up: what is left behind a row is
/// what was left behind an earlier one, less what the rows from there on take.
pub proof fn law_constraints_account_for_the_bytes(
    table: spec_fn(Column, int) -> int,
    challenge: spec_fn(Challenge) -> int,
    m: int,
    a: int,
    b: int,
)
    requires
        m > 0,
        a <= b,
        forall|i: int| a < i <= b ==> circuit_rules(#[trigger] env_at(table, challenge, m, i)),
    ensures
        table(Column::RemainLength, b) % m == (table(Column::RemainLength, a) - taken(
            table,
            challenge,
            m,
            a,
            b,
        )) % m,
    decreases b - a,
{
    if a < b {
        law_constraints_account_for_the_bytes(table, challenge, m, a, b - 1);
        let e = env_at(table, challenge, m, b);
        assert(circuit_rules(e));
        let (before, after) = (table(Column::RemainLength, b - 1), table(Column::RemainLength, b));
        let t = taken(table, challenge, m, a, b - 1);
        let whole = table(Column::RemainLength, a);
        lemma_mod_equivalence(before, whole - t, m);
        if is_counted(e) {
            law_constraints_count_the_bytes(e);
            let n = table(Column::BytesInRow, b);
            lemma_mod_equivalence(after, before - n, m);
            lemma_sum_of_multiples(before - (whole - t), after - (before - n), m);
            lemma_mod_equivalence(after, whole - (t + n), m);
        } else {
            lemma_mod_equivalence(after, whole - (t + (before - after)), m);
        }
    }
}

proof fn lemma_sum_of_multiples(x: int, y: int, m: int)
    requires
        m > 0,
        x % m == 0,
        y % m == 0,
    ensures
        (x + y) % m == 0,
{
    vstd::arithmetic::div_mod::lemma_add_mod_noop(x, y, m);
    lemma_small_mod(0, m as nat);
}

/// Whatever the cells of a table hold: from a valid first row to the padding, the rows take what
/// the header of the list announces.
pub proof fn law_constraints_take_what_is_announced(
    table: spec_fn(Column, int) -> int,
    challenge: spec_fn(Challenge) -> int,
    m: int,
    first: int,
    padding: int,
    announced: int,
)
    requires
        m > 0,
        first < padding,
        forall|i: int|
            first <= i <= padding ==> circuit_rules(#[trigger] env_at(table, challenge, m, i)),
        table(Column::QFirst, first) == 1,
        table(Column::Valid, first) == 1,
        table(Column::QEnable, padding) == 1,
        table(Column::QTxMember(RlpTxFieldTag::Padding.ordinal()), padding) == 1,
        ({
            let (b1, b2, b3) = (
                table(Column::Byte(1), first),
                table(Column::Byte(2), first),
                table(Column::Byte(3), first),
            );
            let q = |t: RlpDecodeTypeTag| table(Column::QRlpType(t.ordinal()), first) == 1;
            ||| q(RlpDecodeTypeTag::LongList1) && announced == b1
            ||| q(RlpDecodeTypeTag::LongList2) && announced == b1 * 0x100 + b2
            ||| q(RlpDecodeTypeTag::LongList3) && announced == b1 * 0x1_0000 + b2 * 0x100 + b3
        }),
    ensures
        taken(table, challenge, m, first, padding - 1) % m == announced % m,
{
    let head = env_at(table, challenge, m, first);
    let pad = env_at(table, challenge, m, padding);
    assert(circuit_rules(head) && circuit_rules(pad));
    law_constraints_start_with_the_list(head);
    law_constraints_keep_the_padding_empty(pad, 0);
    law_constraints_account_for_the_bytes(table, challenge, m, first, padding - 1);
    let t = taken(table, challenge, m, first, padding - 1);
    let left = table(Column::RemainLength, first);
    assert(head.cur(Column::RemainLength) == left);
    assert(left % m == announced % m);
    assert(pad.prev(Column::RemainLength) == table(Column::RemainLength, padding - 1));
    lemma_small_mod(0, m as nat);
    assert((left - t) % m == 0int % m);
    lemma_mod_equivalence(left, t, m);
}

} // verus!
