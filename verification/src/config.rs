//! The columns, gates and lookups of the decoder circuit.

use crate::expression::{
    any_of, eval_all, polynomial, total, vanishes, BaseConstraintBuilder, Challenge, Env,
    Expression, Gate,
};
use crate::rlp_decoder_tables::{in_fixed_table, RlpDecoderFixedTableTag};
use crate::row::MAX_BYTE_COLUMN_NUM;
use crate::tags::{
    RlpDecodeErrorType, RlpDecodeTypeTag, RlpTxFieldTag, RlpTxTypeTag, RLP_DECODE_ERROR_TYPE_NUM,
    RLP_DECODE_TYPE_NUM, TX1559_TX_FIELD_NUM,
};
use vstd::prelude::*;

verus! {

/// The comparisons that the circuit makes in every row.
#[derive(Debug, Clone, Copy, PartialEq, Eq, Structural)]
pub enum Comparison {
    /// 55 is less than the second byte
    VGt55,
    /// 0 is less than the second byte
    VGt0,
    /// the second byte is less than 128
    VLt128,
    /// a row is less than the bytes that were left
    RemainLengthGt33,
    /// the bytes that were left are less than a row
    RemainLengthLt33,
    /// the length of the field is not more than the bytes that were left
    RemainLengthGeLength,
}

/// The columns of the circuit.
#[derive(Debug, Clone, Copy, PartialEq, Eq, Structural)]
pub enum Column {
    TxId,
    TxType,
    TxMember,
    Complete,
    RlpType,
    /// flag for the decoding type at a position
    QRlpType(usize),
    /// the length of this rlp field
    TxMemberLength,
    BytesInRow,
    /// the challenge raised to the number of bytes in the row
    RMult,
    /// the bytes left behind the row, to be 0 at the end
    RemainLength,
    Value,
    AccRlcValue,
    Byte(usize),
    /// flag for the error at a position
    Error(usize),
    Valid,
    /// flag for the field at a position
    QTxMember(usize),
    QEnable,
    QFirst,
    QLast,
    /// divide factor for big endian rlc, r_mult_comp * r_mult = r ^ MAX_BYTE_COLUMN_NUM(33)
    RMultComp,
    /// quotient value for big endian rlc, rlc_quotient = rlc[0..MAX_BYTE_COLUMN_NUM] / r_mult_comp
    RlcQuotient,
    /// flag for the outcome of a comparison
    IsLt(Comparison),
    /// a byte of the difference behind a comparison
    Diff(Comparison, usize),
}

/// The flag of a decoding type.
pub open spec fn q_type(e: Env<Column>, tag: RlpDecodeTypeTag) -> int {
    e.cur(Column::QRlpType(tag.ordinal()))
}

/// The flag of a field.
pub open spec fn q_member(e: Env<Column>, tag: RlpTxFieldTag) -> int {
    e.cur(Column::QTxMember(tag.ordinal()))
}

/// The flag of an error.
pub open spec fn q_error(e: Env<Column>, error: RlpDecodeErrorType) -> int {
    e.cur(Column::Error(error.ordinal()))
}

/// Byte `i` of the row.
pub open spec fn byte(e: Env<Column>, i: usize) -> int {
    e.cur(Column::Byte(i))
}

/// The outcome of a comparison.
pub open spec fn is_lt(e: Env<Column>, comparison: Comparison) -> int {
    e.cur(Column::IsLt(comparison))
}

/// All the bytes of the row.
pub open spec fn byte_cells(e: Env<Column>) -> Seq<int> {
    Seq::new(MAX_BYTE_COLUMN_NUM as nat, |i: int| byte(e, i as usize))
}

/// The flags of all the errors.
pub open spec fn error_cells(e: Env<Column>) -> Seq<int> {
    Seq::new(RLP_DECODE_ERROR_TYPE_NUM as nat, |i: int| e.cur(Column::Error(i as usize)))
}

/// The flags of all the decoding types.
pub open spec fn type_cells(e: Env<Column>) -> Seq<int> {
    Seq::new(RLP_DECODE_TYPE_NUM as nat, |i: int| e.cur(Column::QRlpType(i as usize)))
}

/// The flags of all the fields.
pub open spec fn member_cells(e: Env<Column>) -> Seq<int> {
    Seq::new(TX1559_TX_FIELD_NUM as nat, |i: int| e.cur(Column::QTxMember(i as usize)))
}

/// The challenge that the bytes are combined with.
pub open spec fn keccak_input(e: Env<Column>) -> int {
    (e.challenge)(Challenge::KeccakInput)
}

fn type_enabled(tag: RlpDecodeTypeTag) -> (r: Expression<Column>)
    ensures
        forall|e: Env<Column>| #[trigger] r.eval(e) == q_type(e, tag),
{
    Expression::cur(Column::QRlpType(tag.ordinal()))
}

fn member_enabled(tag: RlpTxFieldTag) -> (r: Expression<Column>)
    ensures
        forall|e: Env<Column>| #[trigger] r.eval(e) == q_member(e, tag),
{
    Expression::cur(Column::QTxMember(tag.ordinal()))
}

fn error_flag(error: RlpDecodeErrorType) -> (r: Expression<Column>)
    ensures
        forall|e: Env<Column>| #[trigger] r.eval(e) == q_error(e, error),
{
    Expression::cur(Column::Error(usize::from(error)))
}

fn byte_cell(i: usize) -> (r: Expression<Column>)
    ensures
        forall|e: Env<Column>| #[trigger] r.eval(e) == byte(e, i),
{
    Expression::cur(Column::Byte(i))
}

fn lt_flag(comparison: Comparison) -> (r: Expression<Column>)
    ensures
        forall|e: Env<Column>| #[trigger] r.eval(e) == is_lt(e, comparison),
{
    Expression::cur(Column::IsLt(comparison))
}

/// The first `n` error flags are boolean.
pub open spec fn errors_boolean(e: Env<Column>, on: int, n: int) -> bool {
    forall|i: usize| i < n ==> e.boolean_if(on, #[trigger] e.cur(Column::Error(i)))
}

/// The first `n` type flags are boolean, and one that is set names the type of the row.
pub open spec fn types_bound(e: Env<Column>, on: int, n: int) -> bool {
    forall|i: usize|
        i < n ==> e.boolean_if(on, #[trigger] e.cur(Column::QRlpType(i))) && e.equal_if_both(
            on,
            e.cur(Column::QRlpType(i)),
            e.cur(Column::RlpType),
            i as int,
        )
}

/// The first `n` field flags are boolean, and one that is set names the field of the row.
pub open spec fn members_bound(e: Env<Column>, on: int, n: int) -> bool {
    forall|i: usize|
        i < n ==> e.boolean_if(on, #[trigger] e.cur(Column::QTxMember(i))) && e.equal_if_both(
            on,
            e.cur(Column::QTxMember(i)),
            e.cur(Column::TxMember),
            i as int,
        )
}

/// The first `n` bytes are zero.
pub open spec fn bytes_zero(e: Env<Column>, on: int, n: int) -> bool {
    forall|i: usize| i < n ==> e.equal_if(on, #[trigger] e.cur(Column::Byte(i)), 0)
}

/// What holds in every row: the flags are boolean, one decoding type and one field are set, the
/// combinations of the bytes continue those of the row before, an invalid row is followed by
/// invalid ones, an error makes its row invalid and nothing else does, and a valid field is no
/// longer than the bytes that were left.
pub open spec fn common_rule(e: Env<Column>) -> bool {
    let on = e.cur(Column::QEnable) * (1 - e.cur(Column::QLast));
    let valid = e.cur(Column::Valid);
    let valid_next = e.next(Column::Valid);
    let quotient = e.cur(Column::RlcQuotient);
    &&& e.boolean_if(on, e.cur(Column::Complete))
    &&& errors_boolean(e, on, RLP_DECODE_ERROR_TYPE_NUM as int)
    &&& e.boolean_if(on, valid)
    &&& types_bound(e, on, RLP_DECODE_TYPE_NUM as int)
    &&& e.equal_if(on, total(type_cells(e)), 1)
    &&& members_bound(e, on, TX1559_TX_FIELD_NUM as int)
    &&& e.equal_if(on, total(member_cells(e)), 1)
    &&& e.equal_if(
        on,
        quotient * e.cur(Column::RMultComp),
        polynomial(byte_cells(e), keccak_input(e)),
    )
    &&& e.equal_if(
        on,
        e.cur(Column::AccRlcValue),
        e.cur(Column::RMult) * e.prev(Column::AccRlcValue) + quotient,
    )
    &&& e.equal_if(on, valid * valid_next, valid_next)
    &&& e.equal_if_both(
        on,
        (1 - q_member(e, RlpTxFieldTag::DecodeError)) * (1 - q_member(e, RlpTxFieldTag::Padding)),
        any_of(error_cells(e)),
        1 - valid,
    )
    &&& e.equal_if_both(on, valid, is_lt(e, Comparison::RemainLengthGeLength), 1)
}

fn require_boolean_errors(cb: &mut BaseConstraintBuilder<Column>)
    ensures
        forall|on: int, e: Env<Column>| #[trigger]
            final(cb).hold_if(on, e) == (old(cb).hold_if(on, e) && errors_boolean(
                e,
                on,
                RLP_DECODE_ERROR_TYPE_NUM as int,
            )),
{
    let ghost base = *cb;
    let mut i: usize = 0;
    while i < RLP_DECODE_ERROR_TYPE_NUM
        invariant
            i <= RLP_DECODE_ERROR_TYPE_NUM,
            forall|on: int, e: Env<Column>| #[trigger]
                cb.hold_if(on, e) == (base.hold_if(on, e) && errors_boolean(e, on, i as int)),
        decreases RLP_DECODE_ERROR_TYPE_NUM - i,
    {
        cb.require_boolean("decode error is boolean", Expression::cur(Column::Error(i)));
        i = i + 1;
    }
}

fn bind_rlp_types(cb: &mut BaseConstraintBuilder<Column>)
    ensures
        forall|on: int, e: Env<Column>| #[trigger]
            final(cb).hold_if(on, e) == (old(cb).hold_if(on, e) && types_bound(
                e,
                on,
                RLP_DECODE_TYPE_NUM as int,
            ) && e.equal_if(on, total(type_cells(e)), 1)),
{
    let ghost base = *cb;
    let mut flags: Vec<Expression<Column>> = Vec::new();
    let mut i: usize = 0;
    while i < RLP_DECODE_TYPE_NUM
        invariant
            i <= RLP_DECODE_TYPE_NUM,
            flags@.len() == i,
            forall|j: int, e: Env<Column>|
                0 <= j < i ==> #[trigger] flags@[j].eval(e) == e.cur(Column::QRlpType(j as usize)),
            forall|on: int, e: Env<Column>| #[trigger]
                cb.hold_if(on, e) == (base.hold_if(on, e) && types_bound(e, on, i as int)),
        decreases RLP_DECODE_TYPE_NUM - i,
    {
        let flag = Expression::cur(Column::QRlpType(i));
        cb.require_boolean("q_rlp_types are bool", flag.duplicate());
        cb.require_equal_if(
            &flag,
            "rlp type check",
            Expression::cur(Column::RlpType),
            Expression::constant(i as u64),
        );
        flags.push(flag);
        i = i + 1;
    }
    assert forall|e: Env<Column>| #[trigger] eval_all(flags@, e) == type_cells(e) by {
        assert(eval_all(flags@, e) =~= type_cells(e));
    }
    cb.require_equal("1 rlp type only", Expression::sum(flags), Expression::constant(1));
}

fn bind_tx_members(cb: &mut BaseConstraintBuilder<Column>)
    ensures
        forall|on: int, e: Env<Column>| #[trigger]
            final(cb).hold_if(on, e) == (old(cb).hold_if(on, e) && members_bound(
                e,
                on,
                TX1559_TX_FIELD_NUM as int,
            ) && e.equal_if(on, total(member_cells(e)), 1)),
{
    let ghost base = *cb;
    let mut flags: Vec<Expression<Column>> = Vec::new();
    let mut i: usize = 0;
    while i < TX1559_TX_FIELD_NUM
        invariant
            i <= TX1559_TX_FIELD_NUM,
            flags@.len() == i,
            forall|j: int, e: Env<Column>|
                0 <= j < i ==> #[trigger] flags@[j].eval(e) == e.cur(
                    Column::QTxMember(j as usize),
                ),
            forall|on: int, e: Env<Column>| #[trigger]
                cb.hold_if(on, e) == (base.hold_if(on, e) && members_bound(e, on, i as int)),
        decreases TX1559_TX_FIELD_NUM - i,
    {
        let flag = Expression::cur(Column::QTxMember(i));
        cb.require_boolean("q_member are bool", flag.duplicate());
        cb.require_equal_if(
            &flag,
            "tag check",
            Expression::cur(Column::TxMember),
            Expression::constant(i as u64),
        );
        flags.push(flag);
        i = i + 1;
    }
    assert forall|e: Env<Column>| #[trigger] eval_all(flags@, e) == member_cells(e) by {
        assert(eval_all(flags@, e) =~= member_cells(e));
    }
    cb.require_equal("1 tx field only", Expression::sum(flags), Expression::constant(1));
}

/// All the bytes of the row, the last one first.
fn rev_byte_cells() -> (r: Vec<Expression<Column>>)
    ensures
        forall|e: Env<Column>| #[trigger] eval_all(r@.reverse(), e) == byte_cells(e),
{
    let mut cells: Vec<Expression<Column>> = Vec::new();
    let mut i: usize = MAX_BYTE_COLUMN_NUM;
    while i > 0
        invariant
            i <= MAX_BYTE_COLUMN_NUM,
            cells@.len() == MAX_BYTE_COLUMN_NUM - i,
            forall|j: int, e: Env<Column>|
                0 <= j < cells@.len() ==> #[trigger] cells@[j].eval(e) == byte(
                    e,
                    (MAX_BYTE_COLUMN_NUM - 1 - j) as usize,
                ),
        decreases i,
    {
        i = i - 1;
        cells.push(byte_cell(i));
    }
    assert forall|e: Env<Column>| #[trigger] eval_all(cells@.reverse(), e) == byte_cells(e) by {
        assert(eval_all(cells@.reverse(), e) =~= byte_cells(e));
    }
    cells
}

/// The flags of all the errors.
fn error_flags() -> (r: Vec<Expression<Column>>)
    ensures
        forall|e: Env<Column>| #[trigger] eval_all(r@, e) == error_cells(e),
{
    let mut flags: Vec<Expression<Column>> = Vec::new();
    let mut i: usize = 0;
    while i < RLP_DECODE_ERROR_TYPE_NUM
        invariant
            i <= RLP_DECODE_ERROR_TYPE_NUM,
            flags@.len() == i,
            forall|j: int, e: Env<Column>|
                0 <= j < i ==> #[trigger] flags@[j].eval(e) == e.cur(Column::Error(j as usize)),
        decreases RLP_DECODE_ERROR_TYPE_NUM - i,
    {
        flags.push(Expression::cur(Column::Error(i)));
        i = i + 1;
    }
    assert forall|e: Env<Column>| #[trigger] eval_all(flags@, e) == error_cells(e) by {
        assert(eval_all(flags@, e) =~= error_cells(e));
    }
    flags
}

fn common_gate() -> (g: Gate<Column>)
    ensures
        forall|e: Env<Column>| #[trigger] g.holds(e) == common_rule(e),
{
    let mut cb: BaseConstraintBuilder<Column> = BaseConstraintBuilder::new();
    // boolean constraints
    cb.require_boolean("field complete boolean", Expression::cur(Column::Complete));
    require_boolean_errors(&mut cb);
    cb.require_boolean("valid is boolean", Expression::cur(Column::Valid));
    // bind the rlp_type and rlp_type selector
    bind_rlp_types(&mut cb);
    // bind the q_field with the field tag
    bind_tx_members(&mut cb);

    let quotient = Expression::cur(Column::RlcQuotient);
    let cells = rev_byte_cells();
    cb.require_equal(
        "rlc_quotient = rlc[0..32]/r_mult_comp",
        quotient.duplicate().times(Expression::cur(Column::RMultComp)),
        Expression::rlc(&cells, Expression::challenge(Challenge::KeccakInput)),
    );
    cb.require_equal(
        "rlc = prev_rlc * r_mult + rlc[0..32]/r_mult_comp",
        Expression::cur(Column::AccRlcValue),
        Expression::cur(Column::RMult).times(Expression::prev(Column::AccRlcValue)).plus(quotient),
    );
    let valid = Expression::cur(Column::Valid);
    cb.require_equal(
        "valid should be consistent after invalid",
        valid.duplicate().times(Expression::next(Column::Valid)),
        Expression::next(Column::Valid),
    );
    // if not in error state and not in padding state, the valid comes from the error states
    let not_error_state = member_enabled(RlpTxFieldTag::DecodeError).not();
    let not_padding_state = member_enabled(RlpTxFieldTag::Padding).not();
    cb.require_equal_if(
        &not_error_state.times(not_padding_state),
        "if any(errors) then valid must false",
        Expression::or(error_flags()),
        valid.duplicate().not(),
    );
    cb.require_equal_if(
        &valid,
        "check if bytes run out",
        lt_flag(Comparison::RemainLengthGeLength),
        Expression::constant(1),
    );
    cb.gate(
        "common constraints for all rows",
        Expression::cur(Column::QEnable).times(Expression::cur(Column::QLast).not()),
    )
}

/// `a` and `b` are equal where `on` is set and the row has the decoding type `tag`.
pub open spec fn equal_for_type(
    e: Env<Column>,
    on: int,
    tag: RlpDecodeTypeTag,
    a: int,
    b: int,
) -> bool {
    e.equal_if_both(on, q_type(e, tag), a, b)
}

/// The length that follows the first byte, in the bytes from the second on.
pub open spec fn length_1(e: Env<Column>) -> int {
    byte(e, 1)
}

pub open spec fn length_2(e: Env<Column>) -> int {
    byte(e, 1) * 256 + byte(e, 2)
}

pub open spec fn length_3(e: Env<Column>) -> int {
    byte(e, 1) * 65536 + byte(e, 2) * 256 + byte(e, 3)
}

fn length_1_expr() -> (r: Expression<Column>)
    ensures
        forall|e: Env<Column>| #[trigger] r.eval(e) == length_1(e),
{
    byte_cell(1)
}

fn length_2_expr() -> (r: Expression<Column>)
    ensures
        forall|e: Env<Column>| #[trigger] r.eval(e) == length_2(e),
{
    byte_cell(1).scaled(256).plus(byte_cell(2))
}

fn length_3_expr() -> (r: Expression<Column>)
    ensures
        forall|e: Env<Column>| #[trigger] r.eval(e) == length_3(e),
{
    byte_cell(1).scaled(65536).plus(byte_cell(2).scaled(256)).plus(byte_cell(3))
}

/// A short item is as long as its first byte says, counted from `base`, with that byte itself.
pub open spec fn short_length(e: Env<Column>, base: int) -> int {
    byte(e, 0) - base + 1
}

fn short_length_expr(base: u64) -> (r: Expression<Column>)
    ensures
        forall|e: Env<Column>| #[trigger] r.eval(e) == short_length(e, base as int),
{
    byte_cell(0).minus(Expression::constant(base)).plus(Expression::constant(1))
}

/// The rows that `member_rule` is about: valid ones that are no headers.
pub open spec fn member_on(e: Env<Column>) -> int {
    e.cur(Column::QEnable) * e.cur(Column::Valid) * (1 - e.cur(Column::QFirst)) * (1 - q_member(
        e,
        RlpTxFieldTag::TxRlpHeader,
    )) * (1 - q_member(e, RlpTxFieldTag::TypedTxHeader))
}

/// The length of a field is the one that its first bytes announce.
pub open spec fn member_lengths(e: Env<Column>, on: int) -> bool {
    let length = e.cur(Column::TxMemberLength);
    let len_valid = 1 - q_error(e, RlpDecodeErrorType::LenOfLenError);
    let value_valid = 1 - q_error(e, RlpDecodeErrorType::ValueError);
    let gt_0 = is_lt(e, Comparison::VGt0);
    let gt_55 = is_lt(e, Comparison::VGt55);
    &&& equal_for_type(e, on, RlpDecodeTypeTag::DoNothing, length, 0)
    &&& equal_for_type(e, on, RlpDecodeTypeTag::SingleByte, length, 1)
    &&& equal_for_type(e, on, RlpDecodeTypeTag::NullValue, length, 1)
    &&& equal_for_type(
        e,
        on,
        RlpDecodeTypeTag::ShortStringValue,
        length,
        short_length(e, 0x80),
    )
    &&& equal_for_type(e, on, RlpDecodeTypeTag::ShortStringValue, gt_0, value_valid)
    &&& equal_for_type(
        e,
        on,
        RlpDecodeTypeTag::ShortStringBytes,
        length,
        short_length(e, 0x80),
    )
    &&& equal_for_type(e, on, RlpDecodeTypeTag::LongString1, length, length_1(e) + 2)
    &&& equal_for_type(e, on, RlpDecodeTypeTag::LongString1, gt_55, len_valid)
    &&& equal_for_type(e, on, RlpDecodeTypeTag::LongString2, length, length_2(e) + 3)
    &&& equal_for_type(e, on, RlpDecodeTypeTag::LongString2, gt_0, len_valid)
    &&& equal_for_type(e, on, RlpDecodeTypeTag::LongString3, length, length_3(e) + 4)
    &&& equal_for_type(e, on, RlpDecodeTypeTag::LongString3, gt_0, len_valid)
    &&& equal_for_type(e, on, RlpDecodeTypeTag::EmptyList, length, 1)
    &&& equal_for_type(e, on, RlpDecodeTypeTag::ShortList, length, short_length(e, 0xc0))
}

/// Only the data of a transaction goes on in further rows. A field that is complete ends in its
/// row, and one that is not fills it.
pub open spec fn member_rows(e: Env<Column>, on: int) -> bool {
    let length = e.cur(Column::TxMemberLength);
    let in_row = e.cur(Column::BytesInRow);
    let complete = e.cur(Column::Complete);
    &&& equal_for_type(
        e,
        on,
        RlpDecodeTypeTag::PartialRlp,
        length,
        e.prev(Column::TxMemberLength) - e.prev(Column::BytesInRow),
    )
    &&& equal_for_type(e, on, RlpDecodeTypeTag::PartialRlp, e.prev(Column::Complete), 0)
    &&& equal_for_type(
        e,
        on,
        RlpDecodeTypeTag::PartialRlp,
        e.cur(Column::TxMember),
        RlpTxFieldTag::Data.ordinal() as int,
    )
    &&& e.equal_if_both(on, complete, in_row, length)
    &&& e.equal_if_both(
        on,
        complete,
        e.cur(Column::RemainLength),
        e.prev(Column::RemainLength) - in_row,
    )
    &&& e.equal_if_both(on, 1 - complete, in_row, MAX_BYTE_COLUMN_NUM as int)
}

/// What holds in the valid rows that are no headers.
pub open spec fn member_rule(e: Env<Column>) -> bool {
    member_lengths(e, member_on(e)) && member_rows(e, member_on(e))
}

fn require_member_lengths(cb: &mut BaseConstraintBuilder<Column>)
    ensures
        forall|on: int, e: Env<Column>| #[trigger]
            final(cb).hold_if(on, e) == (old(cb).hold_if(on, e) && member_lengths(e, on)),
{
    let length = Expression::cur(Column::TxMemberLength);
    let len_valid = error_flag(RlpDecodeErrorType::LenOfLenError).not();
    let value_valid = error_flag(RlpDecodeErrorType::ValueError).not();
    let gt_0 = lt_flag(Comparison::VGt0);
    let gt_55 = lt_flag(Comparison::VGt55);
    // length with leading bytes
    cb.require_equal_if(
        &type_enabled(RlpDecodeTypeTag::DoNothing),
        "0 length",
        length.duplicate(),
        Expression::constant(0),
    );
    cb.require_equal_if(
        &type_enabled(RlpDecodeTypeTag::SingleByte),
        "single length",
        length.duplicate(),
        Expression::constant(1),
    );
    cb.require_equal_if(
        &type_enabled(RlpDecodeTypeTag::NullValue),
        "empty length",
        length.duplicate(),
        Expression::constant(1),
    );
    cb.require_equal_if(
        &type_enabled(RlpDecodeTypeTag::ShortStringValue),
        "ShortStringValue length",
        length.duplicate(),
        short_length_expr(0x80),
    );
    // 0x8100 is invalid for value, 0x8180 instead
    cb.require_equal_if(
        &type_enabled(RlpDecodeTypeTag::ShortStringValue),
        "v should be >0",
        gt_0.duplicate(),
        value_valid,
    );
    cb.require_equal_if(
        &type_enabled(RlpDecodeTypeTag::ShortStringBytes),
        "ShortString length",
        length.duplicate(),
        short_length_expr(0x80),
    );
    cb.require_equal_if(
        &type_enabled(RlpDecodeTypeTag::LongString1),
        "Long String 0xb8 length",
        length.duplicate(),
        length_1_expr().plus(Expression::constant(2)),
    );
    cb.require_equal_if(
        &type_enabled(RlpDecodeTypeTag::LongString1),
        "length of 0xb8 should be >55",
        gt_55,
        len_valid.duplicate(),
    );
    cb.require_equal_if(
        &type_enabled(RlpDecodeTypeTag::LongString2),
        "Long String 0xb9 length",
        length.duplicate(),
        length_2_expr().plus(Expression::constant(3)),
    );
    cb.require_equal_if(
        &type_enabled(RlpDecodeTypeTag::LongString2),
        "lenght 0 of 0xb9 should be >0",
        gt_0.duplicate(),
        len_valid.duplicate(),
    );
    cb.require_equal_if(
        &type_enabled(RlpDecodeTypeTag::LongString3),
        "Long String 0xba length",
        length.duplicate(),
        length_3_expr().plus(Expression::constant(4)),
    );
    cb.require_equal_if(
        &type_enabled(RlpDecodeTypeTag::LongString3),
        "length 0 of 0xba should be >0",
        gt_0,
        len_valid,
    );
    cb.require_equal_if(
        &type_enabled(RlpDecodeTypeTag::EmptyList),
        "empty list length",
        length.duplicate(),
        Expression::constant(1),
    );
    cb.require_equal_if(
        &type_enabled(RlpDecodeTypeTag::ShortList),
        "short length",
        length,
        short_length_expr(0xc0),
    );
}

fn require_member_rows(cb: &mut BaseConstraintBuilder<Column>)
    ensures
        forall|on: int, e: Env<Column>| #[trigger]
            final(cb).hold_if(on, e) == (old(cb).hold_if(on, e) && member_rows(e, on)),
{
    let partial = type_enabled(RlpDecodeTypeTag::PartialRlp);
    cb.require_equal_if(
        &partial,
        "length = prev_length - prev_bytes_in_row",
        Expression::cur(Column::TxMemberLength),
        Expression::prev(Column::TxMemberLength).minus(Expression::prev(Column::BytesInRow)),
    );
    cb.require_zero_if(&partial, "above row is incomplete", Expression::prev(Column::Complete));
    cb.require_equal_if(
        &partial,
        "only data has partial rlp",
        Expression::cur(Column::TxMember),
        Expression::constant(RlpTxFieldTag::Data.ordinal() as u64),
    );
    let complete = Expression::cur(Column::Complete);
    cb.require_equal_if(
        &complete,
        "complete = 1 => rlp_tag_length = bytes_in_row",
        Expression::cur(Column::BytesInRow),
        Expression::cur(Column::TxMemberLength),
    );
    cb.require_equal_if(
        &complete,
        "rlp_remain_length = rlp_remain_length.prev - length",
        Expression::cur(Column::RemainLength),
        Expression::prev(Column::RemainLength).minus(Expression::cur(Column::BytesInRow)),
    );
    cb.require_equal_if(
        &complete.not(),
        "!complete => MAX_BYTES_COL == bytes_in_row",
        Expression::cur(Column::BytesInRow),
        Expression::constant(MAX_BYTE_COLUMN_NUM as u64),
    );
}

fn member_gate() -> (g: Gate<Column>)
    ensures
        forall|e: Env<Column>| #[trigger] g.holds(e) == member_rule(e),
{
    let mut cb: BaseConstraintBuilder<Column> = BaseConstraintBuilder::new();
    require_member_lengths(&mut cb);
    require_member_rows(&mut cb);
    let q_tx_rlp_header = member_enabled(RlpTxFieldTag::TxRlpHeader);
    let q_typed_tx_header = member_enabled(RlpTxFieldTag::TypedTxHeader);
    let selector = Expression::cur(Column::QEnable).times(Expression::cur(Column::Valid)).times(
        Expression::cur(Column::QFirst).not(),
    ).times(q_tx_rlp_header.not()).times(q_typed_tx_header.not());
    cb.gate("tx members common constraints", selector)
}

/// What holds in the first row: it is the header of the whole list, which announces the length of
/// all that is behind it.
pub open spec fn first_row_rule(e: Env<Column>) -> bool {
    let on = e.cur(Column::QFirst);
    let valid = e.cur(Column::Valid);
    let remain = e.cur(Column::RemainLength);
    let list_1 = q_type(e, RlpDecodeTypeTag::LongList1) * valid;
    let list_2 = q_type(e, RlpDecodeTypeTag::LongList2) * valid;
    let list_3 = q_type(e, RlpDecodeTypeTag::LongList3) * valid;
    &&& e.equal_if(on, e.cur(Column::TxId), 0)
    &&& e.equal_if(on, e.cur(Column::TxType), RlpTxTypeTag::Tx1559Type.ordinal() as int)
    &&& e.equal_if(on, e.cur(Column::TxMember), RlpTxFieldTag::TxListRlpHeader.ordinal() as int)
    &&& e.equal_if(on, e.cur(Column::Complete), 1)
    &&& e.equal_if(on, e.prev(Column::AccRlcValue), 0)
    &&& e.equal_if_both(on, list_1, remain, length_1(e))
    &&& e.equal_if_both(on, list_1, is_lt(e, Comparison::VGt55), 1)
    &&& e.equal_if_both(on, list_2, remain, length_2(e))
    &&& e.equal_if_both(on, list_2, is_lt(e, Comparison::VGt0), 1)
    &&& e.equal_if_both(on, list_3, remain, length_3(e))
    &&& e.equal_if_both(on, list_3, is_lt(e, Comparison::VGt0), 1)
    &&& e.equal_if_both(on, valid, e.cur(Column::TxMemberLength), short_length(e, 247))
}

fn first_row_gate() -> (g: Gate<Column>)
    ensures
        forall|e: Env<Column>| #[trigger] g.holds(e) == first_row_rule(e),
{
    let mut cb: BaseConstraintBuilder<Column> = BaseConstraintBuilder::new();
    let valid = Expression::cur(Column::Valid);
    let remain = Expression::cur(Column::RemainLength);
    cb.require_zero("0 tx_id", Expression::cur(Column::TxId));
    cb.require_equal("1559 tx_type", Expression::cur(Column::TxType), Expression::constant(1));
    cb.require_zero("0 tx_tag", Expression::cur(Column::TxMember));
    cb.require_equal("field completed", Expression::cur(Column::Complete), Expression::constant(1));
    cb.require_zero("init acc rlc is 0", Expression::prev(Column::AccRlcValue));
    let list_1 = type_enabled(RlpDecodeTypeTag::LongList1).times(valid.duplicate());
    cb.require_equal_if(
        &list_1,
        "long length 1 byte after 0xf8",
        remain.duplicate(),
        length_1_expr(),
    );
    cb.require_equal_if(
        &list_1,
        "v should be >55",
        lt_flag(Comparison::VGt55),
        Expression::constant(1),
    );
    let list_2 = type_enabled(RlpDecodeTypeTag::LongList2).times(valid.duplicate());
    cb.require_equal_if(
        &list_2,
        "long length 2 bytes after f9",
        remain.duplicate(),
        length_2_expr(),
    );
    cb.require_equal_if(
        &list_2,
        "v should be >0",
        lt_flag(Comparison::VGt0),
        Expression::constant(1),
    );
    let list_3 = type_enabled(RlpDecodeTypeTag::LongList3).times(valid.duplicate());
    cb.require_equal_if(&list_3, "long length 3 bytes after fa", remain, length_3_expr());
    cb.require_equal_if(
        &list_3,
        "v should be >0",
        lt_flag(Comparison::VGt0),
        Expression::constant(1),
    );
    cb.require_equal_if(
        &valid,
        "rlp_tag_length = rlp_header length",
        Expression::cur(Column::TxMemberLength),
        short_length_expr(247),
    );
    cb.gate("txListHeader in first row", Expression::cur(Column::QFirst))
}

/// What holds in the row of the string that a transaction is wrapped in.
pub open spec fn typed_header_rule(e: Env<Column>) -> bool {
    let on = q_member(e, RlpTxFieldTag::TypedTxHeader) * e.cur(Column::QEnable);
    let valid = e.cur(Column::Valid);
    let length = e.cur(Column::TxMemberLength);
    let len_valid = 1 - q_error(e, RlpDecodeErrorType::LenOfLenError);
    let string_1 = q_type(e, RlpDecodeTypeTag::LongString1) * valid;
    let string_2 = q_type(e, RlpDecodeTypeTag::LongString2) * valid;
    let string_3 = q_type(e, RlpDecodeTypeTag::LongString3) * valid;
    &&& e.equal_if(on, e.cur(Column::TxId), e.prev(Column::TxId) + 1)
    &&& e.equal_if(on, e.cur(Column::TxType), RlpTxTypeTag::Tx1559Type.ordinal() as int)
    &&& e.equal_if(on, e.cur(Column::Complete), 1)
    &&& e.equal_if_both(on, string_1, length, 2)
    &&& e.equal_if_both(on, string_1, is_lt(e, Comparison::VGt55), len_valid)
    &&& e.equal_if_both(on, string_2, length, 3)
    &&& e.equal_if_both(on, string_2, is_lt(e, Comparison::VGt0), len_valid)
    &&& e.equal_if_both(on, string_3, length, 4)
    &&& e.equal_if_both(on, string_3, is_lt(e, Comparison::VGt0), len_valid)
}

fn typed_header_gate() -> (g: Gate<Column>)
    ensures
        forall|e: Env<Column>| #[trigger] g.holds(e) == typed_header_rule(e),
{
    let mut cb: BaseConstraintBuilder<Column> = BaseConstraintBuilder::new();
    let valid = Expression::cur(Column::Valid);
    let length = Expression::cur(Column::TxMemberLength);
    let len_valid = error_flag(RlpDecodeErrorType::LenOfLenError).not();
    cb.require_equal(
        "tx_id == tx_id_prev + 1",
        Expression::cur(Column::TxId),
        Expression::prev(Column::TxId).plus(Expression::constant(1)),
    );
    cb.require_equal(
        "1559 tx_type",
        Expression::cur(Column::TxType),
        Expression::constant(RlpTxTypeTag::Tx1559Type.ordinal() as u64),
    );
    cb.require_equal("field completed", Expression::cur(Column::Complete), Expression::constant(1));
    let string_1 = type_enabled(RlpDecodeTypeTag::LongString1).times(valid.duplicate());
    cb.require_equal_if(
        &string_1,
        "Long String 0xb8 length",
        length.duplicate(),
        Expression::constant(2),
    );
    cb.require_equal_if(
        &string_1,
        "length of 0xb8 should be >55",
        lt_flag(Comparison::VGt55),
        len_valid.duplicate(),
    );
    let string_2 = type_enabled(RlpDecodeTypeTag::LongString2).times(valid.duplicate());
    cb.require_equal_if(
        &string_2,
        "Long String 0xb9 length",
        length.duplicate(),
        Expression::constant(3),
    );
    cb.require_equal_if(
        &string_2,
        "lenght 0 of 0xb9 should be >0",
        lt_flag(Comparison::VGt0),
        len_valid.duplicate(),
    );
    let string_3 = type_enabled(RlpDecodeTypeTag::LongString3).times(valid);
    cb.require_equal_if(
        &string_3,
        "Long String 0xba length",
        length,
        Expression::constant(4),
    );
    cb.require_equal_if(
        &string_3,
        "length 0 of 0xba should be >0",
        lt_flag(Comparison::VGt0),
        len_valid,
    );
    cb.gate(
        "header of typed tx, long string type: b8/b9/ba",
        member_enabled(RlpTxFieldTag::TypedTxHeader).times(Expression::cur(Column::QEnable)),
    )
}

/// What holds in the row of the header of a transaction.
pub open spec fn tx_header_rule(e: Env<Column>) -> bool {
    let on = q_member(e, RlpTxFieldTag::TxRlpHeader) * e.cur(Column::QEnable);
    &&& e.equal_if(on, e.cur(Column::TxType), RlpTxTypeTag::Tx1559Type.ordinal() as int)
    &&& e.equal_if(on, e.cur(Column::Complete), 1)
    &&& e.equal_if_both(
        on,
        1 - q_error(e, RlpDecodeErrorType::HeaderDecError),
        e.cur(Column::TxMemberLength),
        short_length(e, 247),
    )
}

fn tx_header_gate() -> (g: Gate<Column>)
    ensures
        forall|e: Env<Column>| #[trigger] g.holds(e) == tx_header_rule(e),
{
    let mut cb: BaseConstraintBuilder<Column> = BaseConstraintBuilder::new();
    cb.require_equal(
        "1559 tx_type",
        Expression::cur(Column::TxType),
        Expression::constant(RlpTxTypeTag::Tx1559Type.ordinal() as u64),
    );
    cb.require_equal("field completed", Expression::cur(Column::Complete), Expression::constant(1));
    cb.require_equal_if(
        &error_flag(RlpDecodeErrorType::HeaderDecError).not(),
        "rlp_tag_length = rlp_header length",
        Expression::cur(Column::TxMemberLength),
        short_length_expr(247),
    );
    cb.gate(
        "rlp header of tx structure",
        member_enabled(RlpTxFieldTag::TxRlpHeader).times(Expression::cur(Column::QEnable)),
    )
}

/// What holds in the padding: nothing is left, and the combination of the bytes stays.
pub open spec fn padding_rule(e: Env<Column>) -> bool {
    let on = q_member(e, RlpTxFieldTag::Padding) * e.cur(Column::QEnable);
    &&& e.equal_if(on, e.cur(Column::TxMember), RlpTxFieldTag::Padding.ordinal() as int)
    &&& e.equal_if(on, e.cur(Column::Complete), 1)
    &&& e.equal_if(on, e.cur(Column::RMult), 1)
    &&& e.equal_if(on, e.cur(Column::TxMemberLength), 0)
    &&& e.equal_if(on, e.cur(Column::RemainLength), 0)
    &&& e.equal_if(on, e.prev(Column::RemainLength), 0)
    &&& e.equal_if(on, e.cur(Column::AccRlcValue), e.prev(Column::AccRlcValue))
    &&& bytes_zero(e, on, MAX_BYTE_COLUMN_NUM as int)
}

fn padding_gate() -> (g: Gate<Column>)
    ensures
        forall|e: Env<Column>| #[trigger] g.holds(e) == padding_rule(e),
{
    let mut cb: BaseConstraintBuilder<Column> = BaseConstraintBuilder::new();
    cb.require_equal(
        "tag",
        Expression::cur(Column::TxMember),
        Expression::constant(RlpTxFieldTag::Padding.ordinal() as u64),
    );
    cb.require_equal("field completed", Expression::cur(Column::Complete), Expression::constant(1));
    cb.require_equal(
        "padding has 1 r_mult",
        Expression::cur(Column::RMult),
        Expression::constant(1),
    );
    cb.require_zero("padding has no length", Expression::cur(Column::TxMemberLength));
    cb.require_zero("padding has no remain length", Expression::cur(Column::RemainLength));
    cb.require_zero(
        "last row above padding has no remain length",
        Expression::prev(Column::RemainLength),
    );
    cb.require_equal(
        "padding has fixed rlc",
        Expression::cur(Column::AccRlcValue),
        Expression::prev(Column::AccRlcValue),
    );
    let ghost base = cb;
    let mut i: usize = 0;
    while i < MAX_BYTE_COLUMN_NUM
        invariant
            i <= MAX_BYTE_COLUMN_NUM,
            forall|on: int, e: Env<Column>| #[trigger]
                cb.hold_if(on, e) == (base.hold_if(on, e) && bytes_zero(e, on, i as int)),
        decreases MAX_BYTE_COLUMN_NUM - i,
    {
        cb.require_zero("padding has no bytes", Expression::cur(Column::Byte(i)));
        i = i + 1;
    }
    cb.gate(
        "Padding",
        member_enabled(RlpTxFieldTag::Padding).times(Expression::cur(Column::QEnable)),
    )
}

/// The last row is padding.
pub open spec fn last_row_rule(e: Env<Column>) -> bool {
    e.equal_if(
        e.cur(Column::QLast) * e.cur(Column::QEnable),
        q_member(e, RlpTxFieldTag::Padding),
        1,
    )
}

fn last_row_gate() -> (g: Gate<Column>)
    ensures
        forall|e: Env<Column>| #[trigger] g.holds(e) == last_row_rule(e),
{
    let mut cb: BaseConstraintBuilder<Column> = BaseConstraintBuilder::new();
    cb.require_equal(
        "padding at last",
        member_enabled(RlpTxFieldTag::Padding),
        Expression::constant(1),
    );
    cb.gate(
        "end with padding",
        Expression::cur(Column::QLast).times(Expression::cur(Column::QEnable)),
    )
}

/// A wrong first byte makes its row invalid. Whether it is wrong is looked up.
pub open spec fn header_error_rule(e: Env<Column>) -> bool {
    let error = q_error(e, RlpDecodeErrorType::HeaderDecError);
    e.equal_if(e.cur(Column::QEnable) * error, error, 1 - e.cur(Column::Valid))
}

fn header_error_gate() -> (g: Gate<Column>)
    ensures
        forall|e: Env<Column>| #[trigger] g.holds(e) == header_error_rule(e),
{
    let mut cb: BaseConstraintBuilder<Column> = BaseConstraintBuilder::new();
    let error = error_flag(RlpDecodeErrorType::HeaderDecError);
    cb.require_equal(
        "header decode error",
        error.duplicate(),
        Expression::cur(Column::Valid).not(),
    );
    cb.gate("header decode error", Expression::cur(Column::QEnable).times(error))
}

/// The length of a long item is wrong only where it could be shorter.
pub open spec fn len_error_rule(e: Env<Column>) -> bool {
    let on = e.cur(Column::QEnable) * q_error(e, RlpDecodeErrorType::LenOfLenError);
    &&& e.equal_if_both(
        on,
        any_of(
            seq![
                q_type(e, RlpDecodeTypeTag::LongString1),
                q_type(e, RlpDecodeTypeTag::LongList1),
            ],
        ),
        is_lt(e, Comparison::VGt55),
        0,
    )
    &&& e.equal_if_both(
        on,
        any_of(
            seq![
                q_type(e, RlpDecodeTypeTag::LongString2),
                q_type(e, RlpDecodeTypeTag::LongString3),
                q_type(e, RlpDecodeTypeTag::LongList2),
                q_type(e, RlpDecodeTypeTag::LongList3),
            ],
        ),
        is_lt(e, Comparison::VGt0),
        0,
    )
}

fn len_error_gate() -> (g: Gate<Column>)
    ensures
        forall|e: Env<Column>| #[trigger] g.holds(e) == len_error_rule(e),
{
    let mut cb: BaseConstraintBuilder<Column> = BaseConstraintBuilder::new();
    // error if byte_cells_cur[1] < 55 for longlist1
    let mut one_byte: Vec<Expression<Column>> = Vec::new();
    one_byte.push(type_enabled(RlpDecodeTypeTag::LongString1));
    one_byte.push(type_enabled(RlpDecodeTypeTag::LongList1));
    assert forall|e: Env<Column>| #[trigger] eval_all(one_byte@, e) == seq![
        q_type(e, RlpDecodeTypeTag::LongString1),
        q_type(e, RlpDecodeTypeTag::LongList1),
    ] by {
        assert(eval_all(one_byte@, e) =~= seq![
            q_type(e, RlpDecodeTypeTag::LongString1),
            q_type(e, RlpDecodeTypeTag::LongList1),
        ]);
    }
    cb.require_zero_if(
        &Expression::or(one_byte),
        "error if v <= 55",
        lt_flag(Comparison::VGt55),
    );
    // error if byte[1] == 0 for longlist2 & 3
    let mut more_bytes: Vec<Expression<Column>> = Vec::new();
    more_bytes.push(type_enabled(RlpDecodeTypeTag::LongString2));
    more_bytes.push(type_enabled(RlpDecodeTypeTag::LongString3));
    more_bytes.push(type_enabled(RlpDecodeTypeTag::LongList2));
    more_bytes.push(type_enabled(RlpDecodeTypeTag::LongList3));
    assert forall|e: Env<Column>| #[trigger] eval_all(more_bytes@, e) == seq![
        q_type(e, RlpDecodeTypeTag::LongString2),
        q_type(e, RlpDecodeTypeTag::LongString3),
        q_type(e, RlpDecodeTypeTag::LongList2),
        q_type(e, RlpDecodeTypeTag::LongList3),
    ] by {
        assert(eval_all(more_bytes@, e) =~= seq![
            q_type(e, RlpDecodeTypeTag::LongString2),
            q_type(e, RlpDecodeTypeTag::LongString3),
            q_type(e, RlpDecodeTypeTag::LongList2),
            q_type(e, RlpDecodeTypeTag::LongList3),
        ]);
    }
    cb.require_zero_if(
        &Expression::or(more_bytes),
        "error if v == 0",
        lt_flag(Comparison::VGt0),
    );
    cb.gate(
        "len decode error",
        Expression::cur(Column::QEnable).times(error_flag(RlpDecodeErrorType::LenOfLenError)),
    )
}

/// The value of an integer is wrong only where it starts with a zero, or is a single byte that
/// stands for itself and has a header.
pub open spec fn value_error_rule(e: Env<Column>) -> bool {
    let on = e.cur(Column::QEnable) * q_error(e, RlpDecodeErrorType::ValueError);
    let integer = q_type(e, RlpDecodeTypeTag::ShortStringValue);
    let gt_0 = is_lt(e, Comparison::VGt0);
    let lt_128 = is_lt(e, Comparison::VLt128);
    &&& e.equal_if_both(on, integer, gt_0 * (byte(e, 0) - 0x81), 0)
    &&& e.equal_if_both(on, integer, gt_0 * (1 - lt_128), 0)
}

fn value_error_gate() -> (g: Gate<Column>)
    ensures
        forall|e: Env<Column>| #[trigger] g.holds(e) == value_error_rule(e),
{
    let mut cb: BaseConstraintBuilder<Column> = BaseConstraintBuilder::new();
    let integer = type_enabled(RlpDecodeTypeTag::ShortStringValue);
    cb.require_zero_if(
        &integer,
        "error if v == 0, or if the length is 1",
        lt_flag(Comparison::VGt0).times(byte_cell(0).minus(Expression::constant(0x81))),
    );
    cb.require_zero_if(
        &integer,
        "error if v == 0, or if v < 128",
        lt_flag(Comparison::VGt0).times(lt_flag(Comparison::VLt128).not()),
    );
    cb.gate(
        "val decode error",
        Expression::cur(Column::QEnable).times(error_flag(RlpDecodeErrorType::ValueError)),
    )
}

/// A field runs out of bytes only where it takes all that were left. In the last field of a
/// transaction, less than a row is left then.
pub open spec fn eof_error_rule(e: Env<Column>) -> bool {
    let on = e.cur(Column::QEnable) * q_error(e, RlpDecodeErrorType::RunOutOfDataError(0));
    &&& e.equal_if(on, e.prev(Column::RemainLength), e.cur(Column::TxMemberLength))
    &&& e.equal_if_both(
        on,
        q_member(e, RlpTxFieldTag::SignS),
        is_lt(e, Comparison::RemainLengthLt33),
        1,
    )
}

fn eof_error_gate() -> (g: Gate<Column>)
    ensures
        forall|e: Env<Column>| #[trigger] g.holds(e) == eof_error_rule(e),
{
    let mut cb: BaseConstraintBuilder<Column> = BaseConstraintBuilder::new();
    cb.require_equal(
        "remain == tx_member_len shows an eof error",
        Expression::prev(Column::RemainLength),
        Expression::cur(Column::TxMemberLength),
    );
    cb.require_equal_if(
        &member_enabled(RlpTxFieldTag::SignS),
        "remain < max_row_bytes in last field shows an eof error",
        lt_flag(Comparison::RemainLengthLt33),
        Expression::constant(1),
    );
    cb.gate(
        "eof decode error",
        Expression::cur(Column::QEnable).times(
            error_flag(RlpDecodeErrorType::RunOutOfDataError(0)),
        ),
    )
}

/// What holds in the rows that pass over the bytes behind an error: each takes as many as it can.
pub open spec fn decode_error_rule(e: Env<Column>) -> bool {
    let on = q_member(e, RlpTxFieldTag::DecodeError) * e.cur(Column::QEnable);
    let length = e.cur(Column::TxMemberLength);
    let prev_remain = e.prev(Column::RemainLength);
    let more_than_a_row = is_lt(e, Comparison::RemainLengthGt33);
    &&& e.equal_if(on, e.cur(Column::TxMember), RlpTxFieldTag::DecodeError.ordinal() as int)
    &&& e.equal_if(on, e.cur(Column::Complete), 1)
    &&& e.equal_if_both(on, more_than_a_row, length, MAX_BYTE_COLUMN_NUM as int)
    &&& e.equal_if_both(on, 1 - more_than_a_row, length, prev_remain)
    &&& e.equal_if(on, e.cur(Column::RemainLength), prev_remain - length)
    &&& e.equal_if(on, e.prev(Column::Valid), 0)
}

fn decode_error_gate() -> (g: Gate<Column>)
    ensures
        forall|e: Env<Column>| #[trigger] g.holds(e) == decode_error_rule(e),
{
    let mut cb: BaseConstraintBuilder<Column> = BaseConstraintBuilder::new();
    let length = Expression::cur(Column::TxMemberLength);
    let prev_remain = Expression::prev(Column::RemainLength);
    let more_than_a_row = lt_flag(Comparison::RemainLengthGt33);
    cb.require_equal(
        "tag",
        Expression::cur(Column::TxMember),
        Expression::constant(RlpTxFieldTag::DecodeError.ordinal() as u64),
    );
    cb.require_equal("field completed", Expression::cur(Column::Complete), Expression::constant(1));
    // if prev_remain > 33, then length = 33 else, length = prev_remain
    cb.require_equal_if(
        &more_than_a_row,
        "decode_error length = 33",
        length.duplicate(),
        Expression::constant(33),
    );
    cb.require_equal_if(
        &more_than_a_row.not(),
        "decode_error length = prev_remain",
        length.duplicate(),
        prev_remain.duplicate(),
    );
    // remain_length = prev_remain_length - length;
    cb.require_equal(
        "remain_length = prev_remain - length_cur",
        Expression::cur(Column::RemainLength),
        prev_remain.minus(length),
    );
    cb.require_zero("row above is not valid", Expression::prev(Column::Valid));
    cb.gate(
        "Decode Error",
        member_enabled(RlpTxFieldTag::DecodeError).times(Expression::cur(Column::QEnable)),
    )
}

/// How many bytes the difference behind a comparison takes.
pub open spec fn spec_diff_bytes(comparison: Comparison) -> usize {
    match comparison {
        Comparison::VGt55 | Comparison::VGt0 | Comparison::VLt128 => 1,
        _ => 4,
    }
}

#[verifier::when_used_as_spec(spec_diff_bytes)]
pub fn diff_bytes(comparison: Comparison) -> (r: usize)
    ensures
        r == diff_bytes(comparison),
{
    match comparison {
        Comparison::VGt55 | Comparison::VGt0 | Comparison::VLt128 => 1,
        _ => 4,
    }
}

/// One more than the largest difference behind a comparison.
pub open spec fn spec_diff_range(comparison: Comparison) -> u64 {
    match comparison {
        Comparison::VGt55 | Comparison::VGt0 | Comparison::VLt128 => 0x100,
        _ => 0x1_0000_0000,
    }
}

#[verifier::when_used_as_spec(spec_diff_range)]
pub fn diff_range(comparison: Comparison) -> (r: u64)
    ensures
        r == diff_range(comparison),
{
    match comparison {
        Comparison::VGt55 | Comparison::VGt0 | Comparison::VLt128 => 0x100,
        _ => 0x1_0000_0000,
    }
}

/// The bytes of the difference behind a comparison, the lowest one first.
pub open spec fn diff_cells(e: Env<Column>, comparison: Comparison) -> Seq<int> {
    Seq::new(diff_bytes(comparison) as nat, |i: int| e.cur(Column::Diff(comparison, i as usize)))
}

/// The comparison of `lhs` with `rhs` where `on` is set: the difference of the two, with the range
/// added when it is negative, has the given bytes.
pub open spec fn lt_rule(
    e: Env<Column>,
    comparison: Comparison,
    on: int,
    lhs: int,
    rhs: int,
) -> bool {
    let flag = is_lt(e, comparison);
    &&& e.equal_if(
        on,
        lhs - rhs - polynomial(diff_cells(e, comparison).reverse(), 256) + flag * diff_range(
            comparison,
        ),
        0,
    )
    &&& e.boolean_if(on, flag)
}

/// A comparison, with its gate.
#[derive(Debug)]
pub struct LtConfig {
    pub comparison: Comparison,
    pub gate: Gate<Column>,
}

/// The bytes of the difference behind a comparison, the lowest one first.
fn diff_exprs(comparison: Comparison) -> (r: Vec<Expression<Column>>)
    ensures
        forall|e: Env<Column>| #[trigger]
            eval_all(r@.reverse(), e) == diff_cells(e, comparison).reverse(),
{
    let n: usize = diff_bytes(comparison);
    let mut cells: Vec<Expression<Column>> = Vec::new();
    let mut i: usize = 0;
    while i < n
        invariant
            i <= n,
            n == diff_bytes(comparison),
            cells@.len() == i,
            forall|j: int, e: Env<Column>|
                0 <= j < i ==> #[trigger] cells@[j].eval(e) == e.cur(
                    Column::Diff(comparison, j as usize),
                ),
        decreases n - i,
    {
        cells.push(Expression::cur(Column::Diff(comparison, i)));
        i = i + 1;
    }
    assert forall|e: Env<Column>| #[trigger] eval_all(cells@.reverse(), e) == diff_cells(
        e,
        comparison,
    ).reverse() by {
        assert(eval_all(cells@.reverse(), e) =~= diff_cells(e, comparison).reverse());
    }
    cells
}

impl LtConfig {
    /// The comparison of `lhs` with `rhs` in the rows where `enabled` is set.
    fn configure(
        comparison: Comparison,
        enabled: Expression<Column>,
        lhs: Expression<Column>,
        rhs: Expression<Column>,
    ) -> (r: Self)
        ensures
            r.comparison == comparison,
            forall|e: Env<Column>| #[trigger]
                r.gate.holds(e) == lt_rule(
                    e,
                    comparison,
                    enabled.eval(e),
                    lhs.eval(e),
                    rhs.eval(e),
                ),
    {
        let mut cb: BaseConstraintBuilder<Column> = BaseConstraintBuilder::new();
        let diff = Expression::rlc(&diff_exprs(comparison), Expression::constant(256));
        cb.require_zero(
            "lhs - rhs = diff - lt * range",
            lhs.minus(rhs).minus(diff).plus(lt_flag(comparison).scaled(diff_range(comparison))),
        );
        cb.require_boolean("lt is boolean", lt_flag(comparison));
        LtConfig { comparison, gate: cb.gate("lt gate", enabled) }
    }
}

/// The second byte of a list with a length of one byte is compared with 55.
pub open spec fn v_gt_55_rule(e: Env<Column>) -> bool {
    lt_rule(
        e,
        Comparison::VGt55,
        q_type(e, RlpDecodeTypeTag::LongList1) * e.cur(Column::QEnable),
        55,
        byte(e, 1),
    )
}

/// The second byte of an integer, or of a list with a length of more bytes, is compared with 0.
pub open spec fn v_gt_0_rule(e: Env<Column>) -> bool {
    lt_rule(
        e,
        Comparison::VGt0,
        any_of(
            seq![
                q_type(e, RlpDecodeTypeTag::ShortStringValue),
                q_type(e, RlpDecodeTypeTag::LongList2),
                q_type(e, RlpDecodeTypeTag::LongList3),
            ],
        ) * e.cur(Column::QEnable),
        0,
        byte(e, 1),
    )
}

/// The second byte of an integer is compared with 128.
pub open spec fn v_lt_128_rule(e: Env<Column>) -> bool {
    lt_rule(
        e,
        Comparison::VLt128,
        q_type(e, RlpDecodeTypeTag::ShortStringValue) * e.cur(Column::QEnable),
        byte(e, 1),
        128,
    )
}

/// In an invalid row, the bytes that were left are compared with a row.
pub open spec fn remain_length_gt_33_rule(e: Env<Column>) -> bool {
    lt_rule(
        e,
        Comparison::RemainLengthGt33,
        (1 - e.cur(Column::Valid)) * e.cur(Column::QEnable),
        MAX_BYTE_COLUMN_NUM as int,
        e.prev(Column::RemainLength),
    )
}

/// In an invalid row, a row is compared with the bytes that were left.
pub open spec fn remain_length_lt_33_rule(e: Env<Column>) -> bool {
    lt_rule(
        e,
        Comparison::RemainLengthLt33,
        (1 - e.cur(Column::Valid)) * e.cur(Column::QEnable),
        e.prev(Column::RemainLength),
        MAX_BYTE_COLUMN_NUM as int,
    )
}

/// In every row, the length of the field is compared with the bytes that were left.
pub open spec fn remain_length_ge_length_rule(e: Env<Column>) -> bool {
    lt_rule(
        e,
        Comparison::RemainLengthGeLength,
        e.cur(Column::QEnable),
        e.cur(Column::TxMemberLength),
        e.prev(Column::RemainLength) + 1,
    )
}

fn v_gt_55() -> (r: LtConfig)
    ensures
        r.comparison == Comparison::VGt55,
        forall|e: Env<Column>| #[trigger] r.gate.holds(e) == v_gt_55_rule(e),
{
    LtConfig::configure(
        Comparison::VGt55,
        type_enabled(RlpDecodeTypeTag::LongList1).times(Expression::cur(Column::QEnable)),
        Expression::constant(55),
        byte_cell(1),
    )
}

fn v_gt_0() -> (r: LtConfig)
    ensures
        r.comparison == Comparison::VGt0,
        forall|e: Env<Column>| #[trigger] r.gate.holds(e) == v_gt_0_rule(e),
{
    let mut types: Vec<Expression<Column>> = Vec::new();
    types.push(type_enabled(RlpDecodeTypeTag::ShortStringValue));
    types.push(type_enabled(RlpDecodeTypeTag::LongList2));
    types.push(type_enabled(RlpDecodeTypeTag::LongList3));
    assert forall|e: Env<Column>| #[trigger] eval_all(types@, e) == seq![
        q_type(e, RlpDecodeTypeTag::ShortStringValue),
        q_type(e, RlpDecodeTypeTag::LongList2),
        q_type(e, RlpDecodeTypeTag::LongList3),
    ] by {
        assert(eval_all(types@, e) =~= seq![
            q_type(e, RlpDecodeTypeTag::ShortStringValue),
            q_type(e, RlpDecodeTypeTag::LongList2),
            q_type(e, RlpDecodeTypeTag::LongList3),
        ]);
    }
    LtConfig::configure(
        Comparison::VGt0,
        Expression::or(types).times(Expression::cur(Column::QEnable)),
        Expression::constant(0),
        byte_cell(1),
    )
}

fn v_lt_128() -> (r: LtConfig)
    ensures
        r.comparison == Comparison::VLt128,
        forall|e: Env<Column>| #[trigger] r.gate.holds(e) == v_lt_128_rule(e),
{
    LtConfig::configure(
        Comparison::VLt128,
        type_enabled(RlpDecodeTypeTag::ShortStringValue).times(Expression::cur(Column::QEnable)),
        byte_cell(1),
        Expression::constant(128),
    )
}

fn remain_length_gt_33() -> (r: LtConfig)
    ensures
        r.comparison == Comparison::RemainLengthGt33,
        forall|e: Env<Column>| #[trigger] r.gate.holds(e) == remain_length_gt_33_rule(e),
{
    LtConfig::configure(
        Comparison::RemainLengthGt33,
        Expression::cur(Column::Valid).not().times(Expression::cur(Column::QEnable)),
        Expression::constant(MAX_BYTE_COLUMN_NUM as u64),
        Expression::prev(Column::RemainLength),
    )
}

fn remain_length_lt_33() -> (r: LtConfig)
    ensures
        r.comparison == Comparison::RemainLengthLt33,
        forall|e: Env<Column>| #[trigger] r.gate.holds(e) == remain_length_lt_33_rule(e),
{
    LtConfig::configure(
        Comparison::RemainLengthLt33,
        Expression::cur(Column::Valid).not().times(Expression::cur(Column::QEnable)),
        Expression::prev(Column::RemainLength),
        Expression::constant(MAX_BYTE_COLUMN_NUM as u64),
    )
}

fn remain_length_ge_length() -> (r: LtConfig)
    ensures
        r.comparison == Comparison::RemainLengthGeLength,
        forall|e: Env<Column>| #[trigger] r.gate.holds(e) == remain_length_ge_length_rule(e),
{
    // less equal n == less than n+1
    LtConfig::configure(
        Comparison::RemainLengthGeLength,
        Expression::cur(Column::QEnable),
        Expression::cur(Column::TxMemberLength),
        Expression::prev(Column::RemainLength).plus(Expression::constant(1)),
    )
}

/// Expressions whose values have to stand side by side in a row of the fixed table, from its first
/// column on.
#[derive(Debug)]
pub struct Lookup {
    pub name: &'static str,
    pub inputs: Vec<Expression<Column>>,
}

/// The values stand side by side in a row of the fixed table.
pub open spec fn looked_up(values: Seq<int>, e: Env<Column>) -> bool {
    exists|row: Seq<int>| #[trigger]
        in_fixed_table(row, keccak_input(e), e.modulus) && matches_row(values, row, e.modulus)
}

/// The values are the front of `row`, as elements of a field of order `m`.
pub open spec fn matches_row(values: Seq<int>, row: Seq<int>, m: int) -> bool {
    forall|i: int| 0 <= i < values.len() ==> vanishes(#[trigger] values[i] - row[i], m)
}

impl Lookup {
    pub open spec fn holds(self, e: Env<Column>) -> bool {
        looked_up(eval_all(self.inputs@, e), e)
    }
}

/// A byte is looked up among the values of a byte.
pub open spec fn range_inputs(value: int) -> Seq<int> {
    seq![RlpDecoderFixedTableTag::Range256.ordinal() as int, value]
}

/// The first byte of a field behind a valid row is looked up, with whether it is flagged as wrong.
pub open spec fn decode_inputs(e: Env<Column>) -> Seq<int> {
    let on = e.cur(Column::QEnable) * (1 - q_type(e, RlpDecodeTypeTag::PartialRlp)) * e.prev(
        Column::Valid,
    );
    seq![
        on * RlpDecoderFixedTableTag::RlpDecoderTable.ordinal(),
        on * e.cur(Column::TxType),
        on * e.cur(Column::TxMember),
        on * byte(e, 0),
        on * (1 - q_error(e, RlpDecodeErrorType::HeaderDecError)),
    ]
}

/// A field that is complete is looked up with the one behind it.
pub open spec fn switch_inputs(e: Env<Column>) -> Seq<int> {
    let on = (1 - e.cur(Column::QLast)) * e.cur(Column::QEnable) * e.cur(Column::Complete);
    seq![
        on * RlpDecoderFixedTableTag::TxFieldSwitchTable.ordinal(),
        on * e.cur(Column::TxMember),
        on * e.next(Column::TxMember),
    ]
}

/// The power for the bytes of the row is looked up.
pub open spec fn r_mult_inputs(e: Env<Column>) -> Seq<int> {
    let on = e.cur(Column::QEnable);
    seq![
        on * RlpDecoderFixedTableTag::RMult.ordinal(),
        on * e.cur(Column::RMult),
        on * e.cur(Column::BytesInRow),
    ]
}

/// The power for the byte columns that are not used is looked up.
pub open spec fn r_mult_comp_inputs(e: Env<Column>) -> Seq<int> {
    let on = e.cur(Column::QEnable);
    seq![
        on * RlpDecoderFixedTableTag::RMult.ordinal(),
        on * e.cur(Column::RMultComp),
        on * (MAX_BYTE_COLUMN_NUM - e.cur(Column::BytesInRow)),
    ]
}

fn tag_expr(tag: RlpDecoderFixedTableTag) -> (r: Expression<Column>)
    ensures
        forall|e: Env<Column>| #[trigger] r.eval(e) == tag.ordinal(),
{
    Expression::constant(tag.ordinal())
}

fn range_lookup(name: &'static str, column: Column) -> (r: Lookup)
    ensures
        forall|e: Env<Column>| #[trigger] r.holds(e) == looked_up(range_inputs(e.cur(column)), e),
{
    let mut inputs: Vec<Expression<Column>> = Vec::new();
    inputs.push(tag_expr(RlpDecoderFixedTableTag::Range256));
    inputs.push(Expression::cur(column));
    let r = Lookup { name, inputs };
    assert forall|e: Env<Column>| #[trigger] r.holds(e) == looked_up(
        range_inputs(e.cur(column)),
        e,
    ) by {
        assert(eval_all(r.inputs@, e) =~= range_inputs(e.cur(column)));
    }
    r
}

fn decode_lookup() -> (r: Lookup)
    ensures
        forall|e: Env<Column>| #[trigger] r.holds(e) == looked_up(decode_inputs(e), e),
{
    let is_not_partial = type_enabled(RlpDecodeTypeTag::PartialRlp).not();
    let on = Expression::cur(Column::QEnable).times(is_not_partial).times(
        Expression::prev(Column::Valid),
    );
    let decodable = error_flag(RlpDecodeErrorType::HeaderDecError).not();
    let mut inputs: Vec<Expression<Column>> = Vec::new();
    inputs.push(on.duplicate().times(tag_expr(RlpDecoderFixedTableTag::RlpDecoderTable)));
    inputs.push(on.duplicate().times(Expression::cur(Column::TxType)));
    inputs.push(on.duplicate().times(Expression::cur(Column::TxMember)));
    inputs.push(on.duplicate().times(byte_cell(0)));
    inputs.push(on.times(decodable));
    let r = Lookup { name: "rlp decodable check", inputs };
    assert forall|e: Env<Column>| #[trigger] r.holds(e) == looked_up(decode_inputs(e), e) by {
        assert(eval_all(r.inputs@, e) =~= decode_inputs(e));
    }
    r
}

fn switch_lookup() -> (r: Lookup)
    ensures
        forall|e: Env<Column>| #[trigger] r.holds(e) == looked_up(switch_inputs(e), e),
{
    // state change happens only if current member is complete.
    let on = Expression::cur(Column::QLast).not().times(Expression::cur(Column::QEnable)).times(
        Expression::cur(Column::Complete),
    );
    let mut inputs: Vec<Expression<Column>> = Vec::new();
    inputs.push(on.duplicate().times(tag_expr(RlpDecoderFixedTableTag::TxFieldSwitchTable)));
    inputs.push(on.duplicate().times(Expression::cur(Column::TxMember)));
    inputs.push(on.times(Expression::next(Column::TxMember)));
    let r = Lookup { name: "rlp tx field transition", inputs };
    assert forall|e: Env<Column>| #[trigger] r.holds(e) == looked_up(switch_inputs(e), e) by {
        assert(eval_all(r.inputs@, e) =~= switch_inputs(e));
    }
    r
}

fn r_mult_lookup() -> (r: Lookup)
    ensures
        forall|e: Env<Column>| #[trigger] r.holds(e) == looked_up(r_mult_inputs(e), e),
{
    let on = Expression::cur(Column::QEnable);
    let mut inputs: Vec<Expression<Column>> = Vec::new();
    inputs.push(on.duplicate().times(tag_expr(RlpDecoderFixedTableTag::RMult)));
    inputs.push(on.duplicate().times(Expression::cur(Column::RMult)));
    inputs.push(on.times(Expression::cur(Column::BytesInRow)));
    let r = Lookup { name: "rlp r_mult check", inputs };
    assert forall|e: Env<Column>| #[trigger] r.holds(e) == looked_up(r_mult_inputs(e), e) by {
        assert(eval_all(r.inputs@, e) =~= r_mult_inputs(e));
    }
    r
}

fn r_mult_comp_lookup() -> (r: Lookup)
    ensures
        forall|e: Env<Column>| #[trigger] r.holds(e) == looked_up(r_mult_comp_inputs(e), e),
{
    let on = Expression::cur(Column::QEnable);
    let unused = Expression::constant(MAX_BYTE_COLUMN_NUM as u64).minus(
        Expression::cur(Column::BytesInRow),
    );
    let mut inputs: Vec<Expression<Column>> = Vec::new();
    inputs.push(on.duplicate().times(tag_expr(RlpDecoderFixedTableTag::RMult)));
    inputs.push(on.duplicate().times(Expression::cur(Column::RMultComp)));
    inputs.push(on.times(unused));
    let r = Lookup { name: "rlp r_mult_comp check", inputs };
    assert forall|e: Env<Column>| #[trigger] r.holds(e) == looked_up(r_mult_comp_inputs(e), e) by {
        assert(eval_all(r.inputs@, e) =~= r_mult_comp_inputs(e));
    }
    r
}

/// The lookups all hold.
pub open spec fn lookups_hold(lookups: Seq<Lookup>, e: Env<Column>) -> bool {
    forall|i: int| 0 <= i < lookups.len() ==> (#[trigger] lookups[i]).holds(e)
}

/// The gates all hold.
pub open spec fn gates_hold(gates: Seq<Gate<Column>>, e: Env<Column>) -> bool {
    forall|i: int| 0 <= i < gates.len() ==> (#[trigger] gates[i]).holds(e)
}

fn push_lookup(lookups: &mut Vec<Lookup>, lookup: Lookup)
    ensures
        forall|e: Env<Column>| #[trigger]
            lookups_hold(final(lookups)@, e) == (lookups_hold(old(lookups)@, e) && lookup.holds(e)),
{
    lookups.push(lookup);
    let ghost before = old(lookups)@;
    let ghost after = lookups@;
    assert forall|e: Env<Column>| #[trigger]
        lookups_hold(after, e) == (lookups_hold(before, e) && lookup.holds(e)) by {
        if lookups_hold(after, e) {
            assert(after[before.len() as int].holds(e));
            assert forall|i: int| 0 <= i < before.len() implies (#[trigger] before[i]).holds(e) by {
                assert(after[i].holds(e));
            }
        }
    }
}

fn push_gate(gates: &mut Vec<Gate<Column>>, gate: Gate<Column>)
    ensures
        forall|e: Env<Column>| #[trigger]
            gates_hold(final(gates)@, e) == (gates_hold(old(gates)@, e) && gate.holds(e)),
{
    gates.push(gate);
    let ghost before = old(gates)@;
    let ghost after = gates@;
    assert forall|e: Env<Column>| #[trigger]
        gates_hold(after, e) == (gates_hold(before, e) && gate.holds(e)) by {
        if gates_hold(after, e) {
            assert(after[before.len() as int].holds(e));
            assert forall|i: int| 0 <= i < before.len() implies (#[trigger] before[i]).holds(e) by {
                assert(after[i].holds(e));
            }
        }
    }
}

/// The first `n` bytes of the row are bytes.
pub open spec fn bytes_in_range(e: Env<Column>, n: int) -> bool {
    forall|i: usize| i < n ==> looked_up(range_inputs(#[trigger] e.cur(Column::Byte(i))), e)
}

/// The first `n` bytes of the difference behind a comparison are bytes.
pub open spec fn diff_in_range(e: Env<Column>, comparison: Comparison, n: int) -> bool {
    forall|i: usize|
        i < n ==> looked_up(range_inputs(#[trigger] e.cur(Column::Diff(comparison, i))), e)
}

/// All that the gates of the circuit say of a row.
pub open spec fn circuit_rules(e: Env<Column>) -> bool {
    &&& common_rule(e)
    &&& member_rule(e)
    &&& first_row_rule(e)
    &&& typed_header_rule(e)
    &&& tx_header_rule(e)
    &&& padding_rule(e)
    &&& last_row_rule(e)
    &&& header_error_rule(e)
    &&& len_error_rule(e)
    &&& value_error_rule(e)
    &&& eof_error_rule(e)
    &&& decode_error_rule(e)
}

/// All that the comparisons of the circuit say of a row.
pub open spec fn comparison_rules(e: Env<Column>) -> bool {
    &&& v_gt_55_rule(e)
    &&& v_gt_0_rule(e)
    &&& v_lt_128_rule(e)
    &&& remain_length_gt_33_rule(e)
    &&& remain_length_lt_33_rule(e)
    &&& remain_length_ge_length_rule(e)
}

/// All that the circuit looks up for a row.
pub open spec fn circuit_lookups(e: Env<Column>) -> bool {
    &&& bytes_in_range(e, MAX_BYTE_COLUMN_NUM as int)
    &&& looked_up(decode_inputs(e), e)
    &&& looked_up(switch_inputs(e), e)
    &&& looked_up(r_mult_inputs(e), e)
    &&& looked_up(r_mult_comp_inputs(e), e)
    &&& diff_in_range(e, Comparison::VGt55, 1)
    &&& diff_in_range(e, Comparison::VGt0, 1)
    &&& diff_in_range(e, Comparison::VLt128, 1)
    &&& diff_in_range(e, Comparison::RemainLengthGt33, 4)
    &&& diff_in_range(e, Comparison::RemainLengthLt33, 4)
    &&& diff_in_range(e, Comparison::RemainLengthGeLength, 4)
}

fn push_diff_lookups(lookups: &mut Vec<Lookup>, comparison: Comparison)
    ensures
        forall|e: Env<Column>| #[trigger]
            lookups_hold(final(lookups)@, e) == (lookups_hold(old(lookups)@, e) && diff_in_range(
                e,
                comparison,
                diff_bytes(comparison) as int,
            )),
{
    let ghost before = lookups@;
    let n: usize = diff_bytes(comparison);
    let mut i: usize = 0;
    while i < n
        invariant
            i <= n,
            forall|e: Env<Column>| #[trigger]
                lookups_hold(lookups@, e) == (lookups_hold(before, e) && diff_in_range(
                    e,
                    comparison,
                    i as int,
                )),
        decreases n - i,
    {
        push_lookup(lookups, range_lookup("diff byte range check", Column::Diff(comparison, i)));
        i = i + 1;
    }
}

/// Config for RlpDecoderCircuit
#[derive(Debug)]
pub struct RlpDecoderCircuitConfig {
    pub gates: Vec<Gate<Column>>,
    pub lookups: Vec<Lookup>,
    /// condition check for <=55
    pub v_gt_55: LtConfig,
    /// condition check for > 0
    pub v_gt_0: LtConfig,
    /// condition check for < 128
    pub v_lt_128: LtConfig,
    /// condition check for prev_remain_length > 33
    pub remain_length_gt_33: LtConfig,
    /// eof error check of last remain_length must < 33
    pub remain_length_lt_33: LtConfig,
    /// condition check for prev_remain_length >= cur_length
    pub remain_length_ge_length: LtConfig,
}

fn circuit_lookup_list() -> (lookups: Vec<Lookup>)
    ensures
        forall|e: Env<Column>| #[trigger] lookups_hold(lookups@, e) == circuit_lookups(e),
{
    let mut lookups: Vec<Lookup> = Vec::new();
    // bytes range check
    let mut i: usize = 0;
    while i < MAX_BYTE_COLUMN_NUM
        invariant
            i <= MAX_BYTE_COLUMN_NUM,
            forall|e: Env<Column>| #[trigger]
                lookups_hold(lookups@, e) == bytes_in_range(e, i as int),
        decreases MAX_BYTE_COLUMN_NUM - i,
    {
        push_lookup(&mut lookups, range_lookup("rlp byte range check", Column::Byte(i)));
        i = i + 1;
    }
    push_lookup(&mut lookups, decode_lookup());
    push_lookup(&mut lookups, switch_lookup());
    push_lookup(&mut lookups, r_mult_lookup());
    push_lookup(&mut lookups, r_mult_comp_lookup());
    push_diff_lookups(&mut lookups, Comparison::VGt55);
    push_diff_lookups(&mut lookups, Comparison::VGt0);
    push_diff_lookups(&mut lookups, Comparison::VLt128);
    push_diff_lookups(&mut lookups, Comparison::RemainLengthGt33);
    push_diff_lookups(&mut lookups, Comparison::RemainLengthLt33);
    push_diff_lookups(&mut lookups, Comparison::RemainLengthGeLength);
    lookups
}

fn circuit_gates() -> (gates: Vec<Gate<Column>>)
    ensures
        forall|e: Env<Column>| #[trigger] gates_hold(gates@, e) == circuit_rules(e),
{
    let mut gates: Vec<Gate<Column>> = Vec::new();
    push_gate(&mut gates, common_gate());
    push_gate(&mut gates, member_gate());
    push_gate(&mut gates, first_row_gate());
    push_gate(&mut gates, typed_header_gate());
    push_gate(&mut gates, tx_header_gate());
    push_gate(&mut gates, padding_gate());
    push_gate(&mut gates, last_row_gate());
    push_gate(&mut gates, header_error_gate());
    push_gate(&mut gates, len_error_gate());
    push_gate(&mut gates, value_error_gate());
    push_gate(&mut gates, eof_error_gate());
    push_gate(&mut gates, decode_error_gate());
    gates
}

impl RlpDecoderCircuitConfig {
    /// The gates of the comparisons hold.
    pub open spec fn comparisons_hold(self, e: Env<Column>) -> bool {
        &&& self.v_gt_55.gate.holds(e)
        &&& self.v_gt_0.gate.holds(e)
        &&& self.v_lt_128.gate.holds(e)
        &&& self.remain_length_gt_33.gate.holds(e)
        &&& self.remain_length_lt_33.gate.holds(e)
        &&& self.remain_length_ge_length.gate.holds(e)
    }

    /// Return a new RlpDecoderCircuitConfig
    pub fn new() -> (r: Self)
        ensures
            r.v_gt_55.comparison == Comparison::VGt55,
            r.v_gt_0.comparison == Comparison::VGt0,
            r.v_lt_128.comparison == Comparison::VLt128,
            r.remain_length_gt_33.comparison == Comparison::RemainLengthGt33,
            r.remain_length_lt_33.comparison == Comparison::RemainLengthLt33,
            r.remain_length_ge_length.comparison == Comparison::RemainLengthGeLength,
            forall|e: Env<Column>| #[trigger] gates_hold(r.gates@, e) == circuit_rules(e),
            forall|e: Env<Column>| #[trigger] r.comparisons_hold(e) == comparison_rules(e),
            forall|e: Env<Column>| #[trigger] lookups_hold(r.lookups@, e) == circuit_lookups(e),
    {
        RlpDecoderCircuitConfig {
            gates: circuit_gates(),
            lookups: circuit_lookup_list(),
            v_gt_55: v_gt_55(),
            v_gt_0: v_gt_0(),
            v_lt_128: v_lt_128(),
            remain_length_gt_33: remain_length_gt_33(),
            remain_length_lt_33: remain_length_lt_33(),
            remain_length_ge_length: remain_length_ge_length(),
        }
    }
}

} // verus!
