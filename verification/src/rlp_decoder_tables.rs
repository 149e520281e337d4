//! The rules by which the first byte of a transaction field is judged, and the fixed tables that
//! the decoder circuit looks them up in.

use crate::field::{pow_mod, Field};
use crate::row::MAX_BYTE_COLUMN_NUM;
use crate::state::successor;
use crate::tags::{tx_member_at, RlpTxFieldTag, RlpTxTypeTag};
use vstd::prelude::*;

verus! {

/// What a field may hold.
#[derive(Debug, Clone, Copy, PartialEq, Eq, Structural)]
pub enum RlpDecodeRule {
    /// no bytes at all
    Padding,
    /// the empty string
    Empty,
    /// the type byte of a dynamic fee transaction
    TxType1559,
    /// an unsigned integer of at most 8 bytes
    Uint64,
    /// an unsigned integer of at most 12 bytes
    Uint96,
    /// an unsigned integer of at most 32 bytes
    Uint256,
    /// a string of 20 bytes
    Address,
    /// a string whose length takes at most 3 bytes
    Bytes48K,
    /// the empty list
    EmptyList,
    /// the header of a string of more than 55 bytes
    LongBytes,
    /// the header of a list of more than 55 bytes
    LongList,
}

impl RlpDecodeRule {
    /// A field under this rule may start with `byte0`.
    pub open spec fn accepts(self, byte0: u8) -> bool {
        match self {
            RlpDecodeRule::Padding => byte0 == 0,
            RlpDecodeRule::Empty => byte0 == 0x80,
            RlpDecodeRule::TxType1559 => byte0 == 0x02,
            RlpDecodeRule::Uint64 => 1 <= byte0 <= 0x88,
            RlpDecodeRule::Uint96 => 1 <= byte0 <= 0x8c,
            RlpDecodeRule::Uint256 => 1 <= byte0 <= 0xa0,
            RlpDecodeRule::Address => byte0 == 0x94,
            RlpDecodeRule::Bytes48K => byte0 <= 0xba,
            RlpDecodeRule::EmptyList => byte0 == 0xc0,
            RlpDecodeRule::LongBytes => 0xb8 <= byte0 <= 0xba,
            RlpDecodeRule::LongList => 0xf8 <= byte0 <= 0xfa,
        }
    }

    /// The byte with the verdict on it.
    pub fn rule_check(&self, byte0: u8) -> (r: (u8, bool))
        ensures
            r.0 == byte0,
            r.1 == self.accepts(byte0),
    {
        let decodable = match self {
            RlpDecodeRule::Padding => byte0 == 0,
            RlpDecodeRule::Empty => byte0 == 0x80,
            RlpDecodeRule::TxType1559 => byte0 == 0x02,
            RlpDecodeRule::Uint64 => 1 <= byte0 && byte0 <= 0x88,
            RlpDecodeRule::Uint96 => 1 <= byte0 && byte0 <= 0x8c,
            RlpDecodeRule::Uint256 => 1 <= byte0 && byte0 <= 0xa0,
            RlpDecodeRule::Address => byte0 == 0x94,
            RlpDecodeRule::Bytes48K => byte0 <= 0xba,
            RlpDecodeRule::EmptyList => byte0 == 0xc0,
            RlpDecodeRule::LongBytes => 0xb8 <= byte0 && byte0 <= 0xba,
            RlpDecodeRule::LongList => 0xf8 <= byte0 && byte0 <= 0xfa,
        };
        (byte0, decodable)
    }
}

/// The rules for a field of a dynamic fee transaction, the usual one first.
pub open spec fn tx1559_field_rules(member: RlpTxFieldTag) -> Seq<RlpDecodeRule> {
    match member {
        RlpTxFieldTag::TxListRlpHeader => seq![RlpDecodeRule::LongList],
        RlpTxFieldTag::TypedTxHeader => seq![RlpDecodeRule::LongBytes],
        RlpTxFieldTag::TxType => seq![RlpDecodeRule::TxType1559],
        RlpTxFieldTag::TxRlpHeader => seq![RlpDecodeRule::LongList],
        RlpTxFieldTag::ChainID => seq![RlpDecodeRule::Uint96],
        RlpTxFieldTag::Nonce => seq![RlpDecodeRule::Uint96],
        RlpTxFieldTag::GasTipCap => seq![RlpDecodeRule::Uint96],
        RlpTxFieldTag::GasFeeCap => seq![RlpDecodeRule::Uint96],
        RlpTxFieldTag::Gas => seq![RlpDecodeRule::Uint96],
        RlpTxFieldTag::To => seq![RlpDecodeRule::Address, RlpDecodeRule::Empty],
        RlpTxFieldTag::Value => seq![RlpDecodeRule::Uint96],
        RlpTxFieldTag::Data => seq![RlpDecodeRule::Bytes48K],
        RlpTxFieldTag::AccessList => seq![RlpDecodeRule::EmptyList],
        RlpTxFieldTag::SignV => seq![RlpDecodeRule::Uint96],
        RlpTxFieldTag::SignR => seq![RlpDecodeRule::Uint256],
        RlpTxFieldTag::SignS => seq![RlpDecodeRule::Uint256],
        RlpTxFieldTag::DecodeError => seq![RlpDecodeRule::Padding],
        RlpTxFieldTag::Padding => seq![RlpDecodeRule::Padding],
        RlpTxFieldTag::GasPrice => seq![],
    }
}

/// The rules for a field of a transaction, by its type. Only dynamic fee transactions are decoded.
pub open spec fn field_rules(tx_type: RlpTxTypeTag, member: RlpTxFieldTag) -> Seq<RlpDecodeRule> {
    match tx_type {
        RlpTxTypeTag::TxLegacyType => seq![],
        RlpTxTypeTag::Tx1559Type => tx1559_field_rules(member),
    }
}

/// The decode rules of a field, in order of preference.
pub fn rlp_tx_field_decode_rules(tx_type: RlpTxTypeTag, member: RlpTxFieldTag) -> (r: Vec<
    RlpDecodeRule,
>)
    ensures
        r@ == field_rules(tx_type, member),
{
    let mut rules: Vec<RlpDecodeRule> = Vec::new();
    if tx_type == RlpTxTypeTag::Tx1559Type {
        match member {
            RlpTxFieldTag::TxListRlpHeader | RlpTxFieldTag::TxRlpHeader => rules.push(
                RlpDecodeRule::LongList,
            ),
            RlpTxFieldTag::TypedTxHeader => rules.push(RlpDecodeRule::LongBytes),
            RlpTxFieldTag::TxType => rules.push(RlpDecodeRule::TxType1559),
            RlpTxFieldTag::ChainID
            | RlpTxFieldTag::Nonce
            | RlpTxFieldTag::GasTipCap
            | RlpTxFieldTag::GasFeeCap
            | RlpTxFieldTag::Gas
            | RlpTxFieldTag::Value
            | RlpTxFieldTag::SignV => rules.push(RlpDecodeRule::Uint96),
            RlpTxFieldTag::SignR | RlpTxFieldTag::SignS => rules.push(RlpDecodeRule::Uint256),
            RlpTxFieldTag::To => {
                rules.push(RlpDecodeRule::Address);
                rules.push(RlpDecodeRule::Empty);
            },
            RlpTxFieldTag::Data => rules.push(RlpDecodeRule::Bytes48K),
            RlpTxFieldTag::AccessList => rules.push(RlpDecodeRule::EmptyList),
            RlpTxFieldTag::DecodeError | RlpTxFieldTag::Padding => rules.push(
                RlpDecodeRule::Padding,
            ),
            RlpTxFieldTag::GasPrice => {},
        }
    }
    proof {
        assert(rules@ =~= field_rules(tx_type, member));
    }
    rules
}

/// The parts of the fixed table.
#[derive(Debug, Clone, Copy, PartialEq, Eq, Structural)]
pub enum RlpDecoderFixedTableTag {
    /// for rows that look nothing up
    Disabled,
    /// which first bytes a field may have
    RlpDecoderTable,
    /// which field may follow another
    TxFieldSwitchTable,
    /// powers of the challenge
    RMult,
    /// the values of a byte
    Range256,
}

impl RlpDecoderFixedTableTag {
    /// The number that stands for the part in the first column.
    pub open spec fn spec_ordinal(self) -> u64 {
        match self {
            RlpDecoderFixedTableTag::Disabled => 0,
            RlpDecoderFixedTableTag::RlpDecoderTable => 1,
            RlpDecoderFixedTableTag::TxFieldSwitchTable => 2,
            RlpDecoderFixedTableTag::RMult => 3,
            RlpDecoderFixedTableTag::Range256 => 4,
        }
    }

    #[verifier::when_used_as_spec(spec_ordinal)]
    pub fn ordinal(self) -> (r: u64)
        ensures
            r == self.ordinal(),
    {
        match self {
            RlpDecoderFixedTableTag::Disabled => 0,
            RlpDecoderFixedTableTag::RlpDecoderTable => 1,
            RlpDecoderFixedTableTag::TxFieldSwitchTable => 2,
            RlpDecoderFixedTableTag::RMult => 3,
            RlpDecoderFixedTableTag::Range256 => 4,
        }
    }
}

/// A field of a dynamic fee transaction may start with `byte0` under one of its rules.
pub open spec fn decodable(member: RlpTxFieldTag, byte0: u8) -> bool {
    exists|i: int|
        0 <= i < tx1559_field_rules(member).len() && (
        #[trigger] tx1559_field_rules(member)[i]).accepts(byte0)
}

/// The fields that may follow `current`: the successors of a sound field, and an error. What is
/// passed over after an error, and the padding, go on up to the end.
pub open spec fn followers(current: RlpTxFieldTag) -> Seq<RlpTxFieldTag> {
    seq![
        successor(current, true),
        successor(current, false),
        match current {
            RlpTxFieldTag::DecodeError | RlpTxFieldTag::Padding => RlpTxFieldTag::Padding,
            _ => RlpTxFieldTag::DecodeError,
        },
    ]
}

/// A row of the fixed table. The columns that are not given are zero.
pub open spec fn table_row(a: int, b: int, c: int, d: int, e: int) -> Seq<int> {
    seq![a, b, c, d, e, 0]
}

/// `b` as a number.
pub open spec fn bit(b: bool) -> int {
    if b {
        1
    } else {
        0
    }
}

/// Row `i` of the part with the values of a byte.
pub open spec fn range_row(i: int) -> Seq<int> {
    table_row(RlpDecoderFixedTableTag::Range256.ordinal() as int, i, 0, 0, 0)
}

/// The row of the part with the first bytes for `member` and `byte0`.
pub open spec fn decode_row(member: RlpTxFieldTag, byte0: u8) -> Seq<int> {
    table_row(
        RlpDecoderFixedTableTag::RlpDecoderTable.ordinal() as int,
        RlpTxTypeTag::Tx1559Type.ordinal() as int,
        member.ordinal() as int,
        byte0 as int,
        bit(decodable(member, byte0)),
    )
}

/// The row of the part with the order of the fields for two of them.
pub open spec fn switch_row(current: RlpTxFieldTag, next: RlpTxFieldTag) -> Seq<int> {
    table_row(
        RlpDecoderFixedTableTag::TxFieldSwitchTable.ordinal() as int,
        current.ordinal() as int,
        next.ordinal() as int,
        0,
        0,
    )
}

/// The row of the part with the powers of the challenge `r` for the exponent `i`.
pub open spec fn r_mult_row(i: int, r: int, m: int) -> Seq<int> {
    table_row(
        RlpDecoderFixedTableTag::RMult.ordinal() as int,
        pow_mod(r, i as nat, m),
        i,
        0,
        0,
    )
}

/// The number of rows of the part with the values of a byte.
pub const RANGE_ROWS: usize = 256;

/// The number of rows of the part with the first bytes.
pub const DECODE_ROWS: usize = 4864;

/// The number of rows of the part with the order of the fields.
pub const SWITCH_ROWS: usize = 57;

/// The number of rows of the part with the powers.
pub const R_MULT_ROWS: usize = 34;

/// The number of rows of the fixed table.
pub const TABLE_ROWS: usize = 5212;

/// Row `k` of the fixed table for the challenge `r`: a row of zeros, and then the parts.
pub open spec fn fixed_row(k: int, r: int, m: int) -> Seq<int> {
    let range = k - 1;
    let decode = range - RANGE_ROWS;
    let switch = decode - DECODE_ROWS;
    let power = switch - SWITCH_ROWS;
    if range < 0 {
        table_row(RlpDecoderFixedTableTag::Disabled.ordinal() as int, 0, 0, 0, 0)
    } else if decode < 0 {
        range_row(range)
    } else if switch < 0 {
        decode_row(tx_member_at(decode / 256), (decode % 256) as u8)
    } else if power < 0 {
        switch_row(
            tx_member_at(switch / 3),
            followers(tx_member_at(switch / 3))[switch % 3],
        )
    } else {
        r_mult_row(power, r, m)
    }
}

/// `row` stands in the fixed table for the challenge `r`.
pub open spec fn in_fixed_table(row: Seq<int>, r: int, m: int) -> bool {
    exists|k: int| 0 <= k < TABLE_ROWS && row == #[trigger] fixed_row(k, r, m)
}

/// The row of zeros stands in the table.
pub proof fn lemma_zero_row(r: int, m: int)
    ensures
        in_fixed_table(table_row(0, 0, 0, 0, 0), r, m),
{
    assert(fixed_row(0, r, m) == table_row(0, 0, 0, 0, 0));
}

/// Every value of a byte stands in the table.
pub proof fn lemma_range_row(value: int, r: int, m: int)
    requires
        0 <= value < 256,
    ensures
        in_fixed_table(range_row(value), r, m),
{
    assert(fixed_row(1 + value, r, m) == range_row(value));
}

/// The verdict on every first byte of every field stands in the table.
pub proof fn lemma_decode_row(member: RlpTxFieldTag, byte0: u8, r: int, m: int)
    ensures
        in_fixed_table(decode_row(member, byte0), r, m),
{
    let i = member.ordinal() * 256 + byte0;
    assert(i / 256 == member.ordinal() && i % 256 == byte0);
    assert(tx_member_at(member.ordinal() as int) == member);
    assert(fixed_row(1 + RANGE_ROWS + i, r, m) == decode_row(member, byte0));
}

/// Every follower of every field stands in the table.
pub proof fn lemma_switch_row(current: RlpTxFieldTag, i: int, r: int, m: int)
    requires
        0 <= i < 3,
    ensures
        in_fixed_table(switch_row(current, followers(current)[i]), r, m),
{
    let j = current.ordinal() * 3 + i;
    assert(j / 3 == current.ordinal() && j % 3 == i);
    assert(tx_member_at(current.ordinal() as int) == current);
    assert(fixed_row(1 + RANGE_ROWS + DECODE_ROWS + j, r, m) == switch_row(
        current,
        followers(current)[i],
    ));
}

/// The powers up to the number of byte columns stand in the table.
pub proof fn lemma_r_mult_row(i: int, r: int, m: int)
    requires
        0 <= i <= MAX_BYTE_COLUMN_NUM,
    ensures
        in_fixed_table(r_mult_row(i, r, m), r, m),
{
    assert(fixed_row(1 + RANGE_ROWS + DECODE_ROWS + SWITCH_ROWS + i, r, m) == r_mult_row(i, r, m));
}

/// The fixed table, whose parts share six columns.
#[derive(Debug)]
pub struct RlpDecoderFixedTable6Columns {}

/// The cells of a row as integers.
pub open spec fn cell_values<F: Field>(cells: Seq<F>) -> Seq<int> {
    Seq::new(cells.len(), |i: int| cells[i].val())
}

/// A row of the table from its first five columns.
fn row_of<F: Field>(a: F, b: F, c: F, d: F, e: F) -> (r: Vec<F>)
    ensures
        cell_values(r@) == table_row(a.val(), b.val(), c.val(), d.val(), e.val()),
{
    let mut row: Vec<F> = Vec::new();
    row.push(a);
    row.push(b);
    row.push(c);
    row.push(d);
    row.push(e);
    row.push(F::zero());
    assert(cell_values(row@) =~= table_row(a.val(), b.val(), c.val(), d.val(), e.val()));
    row
}

/// The first byte is accepted by one of the rules of the field.
fn is_decodable(member: RlpTxFieldTag, byte0: u8) -> (r: bool)
    ensures
        r == decodable(member, byte0),
{
    let rules = rlp_tx_field_decode_rules(RlpTxTypeTag::Tx1559Type, member);
    let mut i: usize = 0;
    while i < rules.len()
        invariant
            i <= rules@.len(),
            rules@ == tx1559_field_rules(member),
            forall|j: int| 0 <= j < i ==> !(#[trigger] rules@[j]).accepts(byte0),
        decreases rules@.len() - i,
    {
        if rules[i].rule_check(byte0).1 {
            return true;
        }
        i = i + 1;
    }
    false
}

impl RlpDecoderFixedTable6Columns {
    /// The number of rows of the table.
    pub fn table_size() -> (r: usize)
        ensures
            r == TABLE_ROWS,
    {
        1 + RANGE_ROWS + DECODE_ROWS + SWITCH_ROWS + R_MULT_ROWS
    }

    /// Row `k` of the table for the challenge `randomness`.
    pub fn row<F: Field>(k: usize, randomness: F) -> (cells: Vec<F>)
        requires
            k < TABLE_ROWS,
        ensures
            cell_values(cells@) == fixed_row(k as int, randomness.val(), F::modulus()),
    {
        let zero = F::zero();
        if k < 1 {
            return row_of(zero, zero, zero, zero, zero);
        }
        let range: usize = k - 1;
        if range < RANGE_ROWS {
            let tag = F::from_u64(RlpDecoderFixedTableTag::Range256.ordinal());
            return row_of(tag, F::from_u64(range as u64), zero, zero, zero);
        }
        let decode: usize = range - RANGE_ROWS;
        if decode < DECODE_ROWS {
            let member = RlpTxFieldTag::from_ordinal(decode / 256);
            let byte0: u8 = (decode % 256) as u8;
            let verdict: u64 = if is_decodable(member, byte0) {
                1
            } else {
                0
            };
            return row_of(
                F::from_u64(RlpDecoderFixedTableTag::RlpDecoderTable.ordinal()),
                F::from_u64(RlpTxTypeTag::Tx1559Type.ordinal() as u64),
                F::from_u64(member.ordinal() as u64),
                F::from_u64(byte0 as u64),
                F::from_u64(verdict),
            );
        }
        let switch: usize = decode - DECODE_ROWS;
        if switch < SWITCH_ROWS {
            let current = RlpTxFieldTag::from_ordinal(switch / 3);
            let next = if switch % 3 == 0 {
                current.following(true)
            } else if switch % 3 == 1 {
                current.following(false)
            } else {
                match current {
                    RlpTxFieldTag::DecodeError | RlpTxFieldTag::Padding => RlpTxFieldTag::Padding,
                    _ => RlpTxFieldTag::DecodeError,
                }
            };
            return row_of(
                F::from_u64(RlpDecoderFixedTableTag::TxFieldSwitchTable.ordinal()),
                F::from_u64(current.ordinal() as u64),
                F::from_u64(next.ordinal() as u64),
                zero,
                zero,
            );
        }
        let power: usize = switch - SWITCH_ROWS;
        row_of(
            F::from_u64(RlpDecoderFixedTableTag::RMult.ordinal()),
            randomness.pow(power as u64),
            F::from_u64(power as u64),
            zero,
            zero,
        )
    }
}

} // verus!
