//! The cells of the decoder circuit, filled from its witness.

use crate::config::{
    diff_bytes, diff_range, Column, Comparison, RlpDecoderCircuitConfig,
};
use crate::expression::{Challenge, Env};
use crate::field::{le_byte, lemma_le_byte, Field};
use crate::rlp_decoder_tables::bit;
use crate::row::{rows, RlpDecoderCircuitConfigWitness, Row, MAX_BYTE_COLUMN_NUM};
use crate::tags::{RLP_DECODE_ERROR_TYPE_NUM, RLP_DECODE_TYPE_NUM, TX1559_TX_FIELD_NUM};
use vstd::arithmetic::div_mod::lemma_small_mod;
use vstd::prelude::*;

verus! {

/// The two sides of a comparison in a row behind `prev`.
pub open spec fn sides(comparison: Comparison, prev: Row, row: Row) -> (int, int) {
    let byte1 = if row.bytes.len() > 1 {
        row.bytes[1] as int
    } else {
        0
    };
    match comparison {
        Comparison::VGt55 => (55, byte1),
        Comparison::VGt0 => (0, byte1),
        Comparison::VLt128 => (byte1, 128),
        Comparison::RemainLengthGt33 => (MAX_BYTE_COLUMN_NUM as int, prev.rlp_remain_length),
        Comparison::RemainLengthLt33 => (prev.rlp_remain_length, MAX_BYTE_COLUMN_NUM as int),
        Comparison::RemainLengthGeLength => (
            row.rlp_tx_member_length,
            prev.rlp_remain_length + 1,
        ),
    }
}

/// The difference of the two sides, with the range added when it is negative.
pub open spec fn difference(comparison: Comparison, sides: (int, int), m: int) -> int {
    (sides.0 - sides.1 + bit(sides.0 < sides.1) * diff_range(comparison)) % m
}

/// The cell of a column in a row behind `prev`, in a field of order `m`.
pub open spec fn cell_value(prev: Row, row: Row, c: Column, m: int) -> int {
    match c {
        Column::TxId => row.tx_id,
        Column::TxType => row.tx_type.ordinal() as int,
        Column::TxMember => row.tx_member.ordinal() as int,
        Column::Complete => bit(row.complete),
        Column::RlpType => row.rlp_type.ordinal() as int,
        Column::QRlpType(i) => bit(i == row.rlp_type.ordinal()),
        Column::TxMemberLength => row.rlp_tx_member_length,
        Column::BytesInRow => row.rlp_bytes_in_row,
        Column::RMult => row.r_mult,
        Column::RemainLength => row.rlp_remain_length,
        Column::Value => row.value,
        Column::AccRlcValue => row.acc_rlc_value,
        Column::Byte(i) => if i < row.bytes.len() {
            row.bytes[i as int] as int
        } else {
            0
        },
        Column::Error(i) => bit(row.errors[i as int]),
        Column::Valid => bit(row.valid),
        Column::QTxMember(i) => bit(i == row.tx_member.ordinal()),
        Column::QEnable => bit(row.q_enable),
        Column::QFirst => bit(row.q_first),
        Column::QLast => bit(row.q_last),
        Column::RMultComp => row.r_mult_comp,
        Column::RlcQuotient => row.rlc_quotient,
        Column::IsLt(comparison) => {
            let s = sides(comparison, prev, row);
            bit(s.0 < s.1)
        },
        Column::Diff(comparison, i) => le_byte(
            difference(comparison, sides(comparison, prev, row), m),
            i as nat,
        ),
    }
}

/// The row that counts as the one before row `i`. The rows go round.
pub open spec fn row_before(rows: Seq<Row>, i: int) -> Row {
    if i == 0 {
        rows.last()
    } else {
        rows[i - 1]
    }
}

/// The cell of a column in row `i`. Outside the rows, the columns are zero.
pub open spec fn table_cell(rows: Seq<Row>, i: int, c: Column, m: int) -> int {
    if 0 <= i < rows.len() {
        cell_value(row_before(rows, i), rows[i], c, m)
    } else {
        0
    }
}

/// What the gates and lookups see from row `i`, with `r` for the challenges.
pub open spec fn row_env(rows: Seq<Row>, i: int, r: int, m: int) -> Env<Column> {
    Env {
        cell: |c: Column, offset: int| table_cell(rows, i + offset, c, m),
        challenge: |c: Challenge| r,
        modulus: m,
    }
}

/// The columns of a comparison.
pub open spec fn comparison_columns(comparison: Comparison) -> Seq<Column> {
    seq![Column::IsLt(comparison)] + Seq::new(
        diff_bytes(comparison) as nat,
        |i: int| Column::Diff(comparison, i as usize),
    )
}

/// The columns with the tags of a row.
pub open spec fn tag_columns() -> Seq<Column> {
    seq![Column::TxId, Column::TxType, Column::TxMember, Column::Complete, Column::RlpType]
}

/// The flags of the decoding types.
pub open spec fn type_columns() -> Seq<Column> {
    Seq::new(RLP_DECODE_TYPE_NUM as nat, |i: int| Column::QRlpType(i as usize))
}

/// The columns with the lengths and combinations of a row.
pub open spec fn length_columns() -> Seq<Column> {
    seq![
        Column::TxMemberLength,
        Column::BytesInRow,
        Column::RMult,
        Column::RemainLength,
        Column::Value,
        Column::AccRlcValue,
    ]
}

/// The byte columns.
pub open spec fn byte_columns() -> Seq<Column> {
    Seq::new(MAX_BYTE_COLUMN_NUM as nat, |i: int| Column::Byte(i as usize))
}

/// The flags of the errors.
pub open spec fn error_columns() -> Seq<Column> {
    Seq::new(RLP_DECODE_ERROR_TYPE_NUM as nat, |i: int| Column::Error(i as usize))
}

/// The flag of a valid row.
pub open spec fn valid_columns() -> Seq<Column> {
    seq![Column::Valid]
}

/// The flags of the fields.
pub open spec fn member_columns() -> Seq<Column> {
    Seq::new(TX1559_TX_FIELD_NUM as nat, |i: int| Column::QTxMember(i as usize))
}

/// The selectors and the columns of the quotient.
pub open spec fn selector_columns() -> Seq<Column> {
    seq![
        Column::QFirst,
        Column::QLast,
        Column::RMultComp,
        Column::RlcQuotient,
        Column::QEnable,
    ]
}

/// The columns that the witness for a row determines by itself.
pub open spec fn witness_columns() -> Seq<Column> {
    tag_columns() + type_columns() + length_columns() + byte_columns() + error_columns()
        + valid_columns() + member_columns() + selector_columns()
}

/// All the columns of the circuit, in the order in which they are filled.
pub open spec fn all_columns() -> Seq<Column> {
    comparison_columns(Comparison::VGt55) + comparison_columns(Comparison::VGt0)
        + comparison_columns(Comparison::VLt128) + comparison_columns(Comparison::RemainLengthGt33)
        + comparison_columns(Comparison::RemainLengthLt33) + comparison_columns(
        Comparison::RemainLengthGeLength,
    ) + witness_columns()
}

/// A cell with its value.
#[derive(Debug)]
pub struct AssignedCell<F: Field> {
    pub column: Column,
    pub value: F,
}

/// The cells fill `columns` of a row behind `prev`.
pub open spec fn fills<F: Field>(
    cells: Seq<AssignedCell<F>>,
    columns: Seq<Column>,
    prev: Row,
    row: Row,
) -> bool {
    &&& cells.len() == columns.len()
    &&& forall|i: int|
        0 <= i < cells.len() ==> (#[trigger] cells[i]).column == columns[i] && cells[i].value.val()
            == cell_value(prev, row, columns[i], F::modulus())
}

/// Fills one more column.
fn push_cell<F: Field>(
    cells: &mut Vec<AssignedCell<F>>,
    column: Column,
    value: F,
    Ghost(columns): Ghost<Seq<Column>>,
    Ghost(prev): Ghost<Row>,
    Ghost(row): Ghost<Row>,
)
    requires
        fills(old(cells)@, columns, prev, row),
        value.val() == cell_value(prev, row, column, F::modulus()),
    ensures
        fills(final(cells)@, columns.push(column), prev, row),
{
    cells.push(AssignedCell { column, value });
}

fn flag<F: Field>(b: bool) -> (r: F)
    ensures
        r.val() == bit(b),
{
    if b {
        F::one()
    } else {
        F::zero()
    }
}

/// Fills the columns of a comparison of `lhs` with `rhs`.
fn assign_comparison<F: Field>(
    cells: &mut Vec<AssignedCell<F>>,
    comparison: Comparison,
    lhs: F,
    rhs: F,
    less: bool,
    Ghost(columns): Ghost<Seq<Column>>,
    Ghost(prev): Ghost<Row>,
    Ghost(row): Ghost<Row>,
)
    requires
        fills(old(cells)@, columns, prev, row),
        lhs.val() == sides(comparison, prev, row).0,
        rhs.val() == sides(comparison, prev, row).1,
        less == (lhs.val() < rhs.val()),
    ensures
        fills(final(cells)@, columns + comparison_columns(comparison), prev, row),
{
    let lt: F = flag(less);
    let ghost s = sides(comparison, prev, row);
    let ghost m = F::modulus();
    push_cell(cells, Column::IsLt(comparison), lt, Ghost(columns), Ghost(prev), Ghost(row));
    let range: u64 = if less {
        diff_range(comparison)
    } else {
        0
    };
    let diff = lhs.sub(&rhs).add(&F::from_u64(range));
    proof {
        lhs.val_range();
        vstd::arithmetic::div_mod::lemma_add_mod_noop((s.0 - s.1) % m, range as int, m);
        vstd::arithmetic::div_mod::lemma_add_mod_noop(s.0 - s.1, range as int, m);
        vstd::arithmetic::div_mod::lemma_mod_twice(s.0 - s.1, m);
        assert(bit(less) * diff_range(comparison) == range) by {
            assert(1 * diff_range(comparison) == diff_range(comparison));
            assert(0 * diff_range(comparison) == 0);
        }
        assert(diff.val() == difference(comparison, s, m));
    }
    let repr = diff.to_repr();
    let n: usize = diff_bytes(comparison);
    let ghost mut filled = columns.push(Column::IsLt(comparison));
    let mut i: usize = 0;
    while i < n
        invariant
            i <= n,
            n == diff_bytes(comparison),
            s == sides(comparison, prev, row),
            m == F::modulus(),
            crate::field::le_value(repr@) == difference(comparison, s, m),
            filled == columns + comparison_columns(comparison).take(1 + i),
            fills(cells@, filled, prev, row),
        decreases n - i,
    {
        proof {
            lemma_le_byte(repr@, i as nat);
        }
        let value = F::from_u64(repr[i] as u64);
        push_cell(
            cells,
            Column::Diff(comparison, i),
            value,
            Ghost(filled),
            Ghost(prev),
            Ghost(row),
        );
        proof {
            filled = filled.push(Column::Diff(comparison, i));
            assert(filled =~= columns + comparison_columns(comparison).take(1 + i + 1));
        }
        i = i + 1;
    }
    assert(comparison_columns(comparison).take(1 + n) =~= comparison_columns(comparison));
}

/// Fills the columns with the tags of a row.
fn assign_tags<F: Field>(
    w: &RlpDecoderCircuitConfigWitness<F>,
    Ghost(prev): Ghost<Row>,
) -> (out: Vec<AssignedCell<F>>)
    ensures
        fills(out@, tag_columns(), prev, w@),
{
    let ghost row = w@;
    let ghost mut filled: Seq<Column> = seq![];
    let mut out: Vec<AssignedCell<F>> = Vec::new();
    push_cell(&mut out, Column::TxId, F::from_u64(w.tx_id), Ghost(filled), Ghost(prev), Ghost(row));
    proof {
        filled = filled.push(Column::TxId);
    }
    push_cell(
        &mut out,
        Column::TxType,
        F::from_u64(w.tx_type.ordinal() as u64),
        Ghost(filled),
        Ghost(prev),
        Ghost(row),
    );
    proof {
        filled = filled.push(Column::TxType);
    }
    push_cell(
        &mut out,
        Column::TxMember,
        F::from_u64(w.tx_member.ordinal() as u64),
        Ghost(filled),
        Ghost(prev),
        Ghost(row),
    );
    proof {
        filled = filled.push(Column::TxMember);
    }
    push_cell(&mut out, Column::Complete, flag(w.complete), Ghost(filled), Ghost(prev), Ghost(row));
    proof {
        filled = filled.push(Column::Complete);
    }
    push_cell(
        &mut out,
        Column::RlpType,
        F::from_u64(w.rlp_type.ordinal() as u64),
        Ghost(filled),
        Ghost(prev),
        Ghost(row),
    );
    proof {
        filled = filled.push(Column::RlpType);
    }
    assert(filled =~= tag_columns());
    out
}

/// Fills the flags of the decoding types.
fn assign_types<F: Field>(
    w: &RlpDecoderCircuitConfigWitness<F>,
    Ghost(prev): Ghost<Row>,
) -> (out: Vec<AssignedCell<F>>)
    ensures
        fills(out@, type_columns(), prev, w@),
{
    let ghost row = w@;
    let ghost mut filled: Seq<Column> = seq![];
    let mut out: Vec<AssignedCell<F>> = Vec::new();
    let mut i: usize = 0;
    let ghost front = filled;
    while i < RLP_DECODE_TYPE_NUM
        invariant
            i <= RLP_DECODE_TYPE_NUM,
            row == w@,
            filled == front + Seq::new(i as nat, |k: int| Column::QRlpType(k as usize)),
            fills(out@, filled, prev, row),
        decreases RLP_DECODE_TYPE_NUM - i,
    {
        let value: F = flag(i == w.rlp_type.ordinal());
        push_cell(&mut out, Column::QRlpType(i), value, Ghost(filled), Ghost(prev), Ghost(row));
        proof {
            filled = filled.push(Column::QRlpType(i));
            assert(filled =~= front + Seq::new(
                (i + 1) as nat,
                |k: int| Column::QRlpType(k as usize),
            ));
        }
        i = i + 1;
    }
    assert(filled =~= type_columns());
    out
}

/// Fills the columns with the lengths and combinations of a row.
fn assign_lengths<F: Field>(
    w: &RlpDecoderCircuitConfigWitness<F>,
    Ghost(prev): Ghost<Row>,
) -> (out: Vec<AssignedCell<F>>)
    ensures
        fills(out@, length_columns(), prev, w@),
{
    let ghost row = w@;
    let ghost mut filled: Seq<Column> = seq![];
    let mut out: Vec<AssignedCell<F>> = Vec::new();
    push_cell(
        &mut out,
        Column::TxMemberLength,
        F::from_u64(w.rlp_tx_member_length),
        Ghost(filled),
        Ghost(prev),
        Ghost(row),
    );
    proof {
        filled = filled.push(Column::TxMemberLength);
    }
    push_cell(
        &mut out,
        Column::BytesInRow,
        F::from_u64(w.rlp_bytes_in_row as u64),
        Ghost(filled),
        Ghost(prev),
        Ghost(row),
    );
    proof {
        filled = filled.push(Column::BytesInRow);
    }
    push_cell(&mut out, Column::RMult, w.r_mult, Ghost(filled), Ghost(prev), Ghost(row));
    proof {
        filled = filled.push(Column::RMult);
    }
    push_cell(
        &mut out,
        Column::RemainLength,
        F::from_u64(w.rlp_remain_length as u64),
        Ghost(filled),
        Ghost(prev),
        Ghost(row),
    );
    proof {
        filled = filled.push(Column::RemainLength);
    }
    push_cell(&mut out, Column::Value, w.value, Ghost(filled), Ghost(prev), Ghost(row));
    proof {
        filled = filled.push(Column::Value);
    }
    push_cell(
        &mut out,
        Column::AccRlcValue,
        w.acc_rlc_value,
        Ghost(filled),
        Ghost(prev),
        Ghost(row),
    );
    proof {
        filled = filled.push(Column::AccRlcValue);
    }
    assert(filled =~= length_columns());
    out
}

/// Fills the byte columns.
fn assign_bytes<F: Field>(
    w: &RlpDecoderCircuitConfigWitness<F>,
    Ghost(prev): Ghost<Row>,
) -> (out: Vec<AssignedCell<F>>)
    ensures
        fills(out@, byte_columns(), prev, w@),
{
    let ghost row = w@;
    let ghost mut filled: Seq<Column> = seq![];
    let mut out: Vec<AssignedCell<F>> = Vec::new();
    let mut i: usize = 0;
    let ghost front = filled;
    while i < MAX_BYTE_COLUMN_NUM
        invariant
            i <= MAX_BYTE_COLUMN_NUM,
            row == w@,
            filled == front + Seq::new(i as nat, |k: int| Column::Byte(k as usize)),
            fills(out@, filled, prev, row),
        decreases MAX_BYTE_COLUMN_NUM - i,
    {
        let value: F = if i < w.bytes.len() {
            F::from_u64(w.bytes[i] as u64)
        } else {
            F::zero()
        };
        push_cell(&mut out, Column::Byte(i), value, Ghost(filled), Ghost(prev), Ghost(row));
        proof {
            filled = filled.push(Column::Byte(i));
            assert(filled =~= front + Seq::new((i + 1) as nat, |k: int| Column::Byte(k as usize)));
        }
        i = i + 1;
    }
    assert(filled =~= byte_columns());
    out
}

/// Fills the flags of the errors.
fn assign_errors<F: Field>(
    w: &RlpDecoderCircuitConfigWitness<F>,
    Ghost(prev): Ghost<Row>,
) -> (out: Vec<AssignedCell<F>>)
    ensures
        fills(out@, error_columns(), prev, w@),
{
    let ghost row = w@;
    let ghost mut filled: Seq<Column> = seq![];
    let mut out: Vec<AssignedCell<F>> = Vec::new();
    let mut i: usize = 0;
    let ghost front = filled;
    while i < RLP_DECODE_ERROR_TYPE_NUM
        invariant
            i <= RLP_DECODE_ERROR_TYPE_NUM,
            row == w@,
            filled == front + Seq::new(i as nat, |k: int| Column::Error(k as usize)),
            fills(out@, filled, prev, row),
        decreases RLP_DECODE_ERROR_TYPE_NUM - i,
    {
        let value: F = flag(w.errors[i]);
        push_cell(&mut out, Column::Error(i), value, Ghost(filled), Ghost(prev), Ghost(row));
        proof {
            filled = filled.push(Column::Error(i));
            assert(filled =~= front + Seq::new((i + 1) as nat, |k: int| Column::Error(k as usize)));
        }
        i = i + 1;
    }
    assert(filled =~= error_columns());
    out
}

/// Fills the flag of a valid row.
fn assign_valid<F: Field>(
    w: &RlpDecoderCircuitConfigWitness<F>,
    Ghost(prev): Ghost<Row>,
) -> (out: Vec<AssignedCell<F>>)
    ensures
        fills(out@, valid_columns(), prev, w@),
{
    let ghost row = w@;
    let ghost mut filled: Seq<Column> = seq![];
    let mut out: Vec<AssignedCell<F>> = Vec::new();
    push_cell(&mut out, Column::Valid, flag(w.valid), Ghost(filled), Ghost(prev), Ghost(row));
    proof {
        filled = filled.push(Column::Valid);
    }
    assert(filled =~= valid_columns());
    out
}

/// Fills the flags of the fields.
fn assign_members<F: Field>(
    w: &RlpDecoderCircuitConfigWitness<F>,
    Ghost(prev): Ghost<Row>,
) -> (out: Vec<AssignedCell<F>>)
    ensures
        fills(out@, member_columns(), prev, w@),
{
    let ghost row = w@;
    let ghost mut filled: Seq<Column> = seq![];
    let mut out: Vec<AssignedCell<F>> = Vec::new();
    let mut i: usize = 0;
    let ghost front = filled;
    while i < TX1559_TX_FIELD_NUM
        invariant
            i <= TX1559_TX_FIELD_NUM,
            row == w@,
            filled == front + Seq::new(i as nat, |k: int| Column::QTxMember(k as usize)),
            fills(out@, filled, prev, row),
        decreases TX1559_TX_FIELD_NUM - i,
    {
        let value: F = flag(i == w.tx_member.ordinal());
        push_cell(&mut out, Column::QTxMember(i), value, Ghost(filled), Ghost(prev), Ghost(row));
        proof {
            filled = filled.push(Column::QTxMember(i));
            assert(filled =~= front + Seq::new(
                (i + 1) as nat,
                |k: int| Column::QTxMember(k as usize),
            ));
        }
        i = i + 1;
    }
    assert(filled =~= member_columns());
    out
}

/// Fills the selectors and the columns of the quotient.
fn assign_selectors<F: Field>(
    w: &RlpDecoderCircuitConfigWitness<F>,
    Ghost(prev): Ghost<Row>,
) -> (out: Vec<AssignedCell<F>>)
    ensures
        fills(out@, selector_columns(), prev, w@),
{
    let ghost row = w@;
    let ghost mut filled: Seq<Column> = seq![];
    let mut out: Vec<AssignedCell<F>> = Vec::new();
    push_cell(&mut out, Column::QFirst, flag(w.q_first), Ghost(filled), Ghost(prev), Ghost(row));
    proof {
        filled = filled.push(Column::QFirst);
    }
    push_cell(&mut out, Column::QLast, flag(w.q_last), Ghost(filled), Ghost(prev), Ghost(row));
    proof {
        filled = filled.push(Column::QLast);
    }
    push_cell(&mut out, Column::RMultComp, w.r_mult_comp, Ghost(filled), Ghost(prev), Ghost(row));
    proof {
        filled = filled.push(Column::RMultComp);
    }
    push_cell(
        &mut out,
        Column::RlcQuotient,
        w.rlc_quotient,
        Ghost(filled),
        Ghost(prev),
        Ghost(row),
    );
    proof {
        filled = filled.push(Column::RlcQuotient);
    }
    push_cell(&mut out, Column::QEnable, flag(w.q_enable), Ghost(filled), Ghost(prev), Ghost(row));
    proof {
        filled = filled.push(Column::QEnable);
    }
    assert(filled =~= selector_columns());
    out
}

/// Fills further columns.
fn append_cells<F: Field>(
    cells: &mut Vec<AssignedCell<F>>,
    more: Vec<AssignedCell<F>>,
    Ghost(columns): Ghost<Seq<Column>>,
    Ghost(more_columns): Ghost<Seq<Column>>,
    Ghost(prev): Ghost<Row>,
    Ghost(row): Ghost<Row>,
)
    requires
        fills(old(cells)@, columns, prev, row),
        fills(more@, more_columns, prev, row),
    ensures
        fills(final(cells)@, columns + more_columns, prev, row),
{
    let mut more = more;
    cells.append(&mut more);
}

impl RlpDecoderCircuitConfig {
    /// Fills the columns that the witness for a row determines by itself.
    pub fn assign_row<F: Field>(&self, w: &RlpDecoderCircuitConfigWitness<F>) -> (cells: Vec<
        AssignedCell<F>,
    >)
        ensures
            forall|prev: Row| #[trigger] fills(cells@, witness_columns(), prev, w@),
    {
        let ghost prev = w@;
        let ghost row = w@;
        let mut cells = assign_tags(w, Ghost(prev));
        let ghost mut filled = tag_columns();
        append_cells(
            &mut cells,
            assign_types(w, Ghost(prev)),
            Ghost(filled),
            Ghost(type_columns()),
            Ghost(prev),
            Ghost(row),
        );
        proof {
            filled = filled + type_columns();
        }
        append_cells(
            &mut cells,
            assign_lengths(w, Ghost(prev)),
            Ghost(filled),
            Ghost(length_columns()),
            Ghost(prev),
            Ghost(row),
        );
        proof {
            filled = filled + length_columns();
        }
        append_cells(
            &mut cells,
            assign_bytes(w, Ghost(prev)),
            Ghost(filled),
            Ghost(byte_columns()),
            Ghost(prev),
            Ghost(row),
        );
        proof {
            filled = filled + byte_columns();
        }
        append_cells(
            &mut cells,
            assign_errors(w, Ghost(prev)),
            Ghost(filled),
            Ghost(error_columns()),
            Ghost(prev),
            Ghost(row),
        );
        proof {
            filled = filled + error_columns();
        }
        append_cells(
            &mut cells,
            assign_valid(w, Ghost(prev)),
            Ghost(filled),
            Ghost(valid_columns()),
            Ghost(prev),
            Ghost(row),
        );
        proof {
            filled = filled + valid_columns();
        }
        append_cells(
            &mut cells,
            assign_members(w, Ghost(prev)),
            Ghost(filled),
            Ghost(member_columns()),
            Ghost(prev),
            Ghost(row),
        );
        proof {
            filled = filled + member_columns();
        }
        append_cells(
            &mut cells,
            assign_selectors(w, Ghost(prev)),
            Ghost(filled),
            Ghost(selector_columns()),
            Ghost(prev),
            Ghost(row),
        );
        proof {
            filled = filled + selector_columns();
        }
        assert(filled =~= witness_columns());
        assert forall|other: Row| #[trigger] fills(cells@, witness_columns(), other, w@) by {
            lemma_fills_any(cells@, prev, other, row);
        }
        cells
    }
}

/// The columns of the witness do not depend on the row before.
proof fn lemma_fills_any<F: Field>(
    cells: Seq<AssignedCell<F>>,
    prev: Row,
    other: Row,
    row: Row,
)
    requires
        fills(cells, witness_columns(), prev, row),
    ensures
        fills(cells, witness_columns(), other, row),
{
    let columns = witness_columns();
    assert forall|i: int| 0 <= i < cells.len() implies (#[trigger] cells[i]).column == columns[i]
        && cells[i].value.val() == cell_value(other, row, columns[i], F::modulus()) by {
        let c = columns[i];
        assert(!(c is IsLt) && !(c is Diff));
    }
}

/// Fills the columns of a row behind `prev_wit`.
fn assign_full_row<F: Field>(
    config: &RlpDecoderCircuitConfig,
    prev_wit: &RlpDecoderCircuitConfigWitness<F>,
    wit: &RlpDecoderCircuitConfigWitness<F>,
) -> (cells: Vec<AssignedCell<F>>)
    ensures
        fills(cells@, all_columns(), prev_wit@, wit@),
{
    let ghost (prev, row) = (prev_wit@, wit@);
    let mut cells: Vec<AssignedCell<F>> = Vec::new();
    let ghost mut filled: Seq<Column> = seq![];
    let leading_val: u64 = if wit.bytes.len() > 1 {
        wit.bytes[1] as u64
    } else {
        0
    };
    let leading: F = F::from_u64(leading_val);
    let remain_bytes: u64 = prev_wit.rlp_remain_length as u64;
    let remain: F = F::from_u64(remain_bytes);
    let max_row: u64 = MAX_BYTE_COLUMN_NUM as u64;
    let current_member_bytes: u64 = wit.rlp_tx_member_length;
    let remain_and_one = remain.add(&F::one());
    proof {
        remain.val_range();
        lemma_small_mod((remain_bytes + 1) as nat, F::modulus() as nat);
    }
    assign_comparison(
        &mut cells,
        Comparison::VGt55,
        F::from_u64(55),
        leading,
        55 < leading_val,
        Ghost(filled),
        Ghost(prev),
        Ghost(row),
    );
    proof {
        filled = filled + comparison_columns(Comparison::VGt55);
    }
    assign_comparison(
        &mut cells,
        Comparison::VGt0,
        F::zero(),
        leading,
        0 < leading_val,
        Ghost(filled),
        Ghost(prev),
        Ghost(row),
    );
    proof {
        filled = filled + comparison_columns(Comparison::VGt0);
    }
    assign_comparison(
        &mut cells,
        Comparison::VLt128,
        leading,
        F::from_u64(128),
        leading_val < 128,
        Ghost(filled),
        Ghost(prev),
        Ghost(row),
    );
    proof {
        filled = filled + comparison_columns(Comparison::VLt128);
    }
    assign_comparison(
        &mut cells,
        Comparison::RemainLengthGt33,
        F::from_u64(max_row),
        remain,
        max_row < remain_bytes,
        Ghost(filled),
        Ghost(prev),
        Ghost(row),
    );
    proof {
        filled = filled + comparison_columns(Comparison::RemainLengthGt33);
    }
    assign_comparison(
        &mut cells,
        Comparison::RemainLengthLt33,
        remain,
        F::from_u64(max_row),
        remain_bytes < max_row,
        Ghost(filled),
        Ghost(prev),
        Ghost(row),
    );
    proof {
        filled = filled + comparison_columns(Comparison::RemainLengthLt33);
    }
    assign_comparison(
        &mut cells,
        Comparison::RemainLengthGeLength,
        F::from_u64(current_member_bytes),
        remain_and_one,
        current_member_bytes <= remain_bytes,
        Ghost(filled),
        Ghost(prev),
        Ghost(row),
    );
    proof {
        filled = filled + comparison_columns(Comparison::RemainLengthGeLength);
    }
    append_cells(
        &mut cells,
        config.assign_row(wit),
        Ghost(filled),
        Ghost(witness_columns()),
        Ghost(prev),
        Ghost(row),
    );
    assert(filled + witness_columns() =~= all_columns());
    cells
}

impl RlpDecoderCircuitConfig {
    /// Fills all the columns of all the rows. The rows go round: the last one counts as the one
    /// before the first.
    pub fn assign_rows<F: Field>(
        &self,
        wits: &Vec<RlpDecoderCircuitConfigWitness<F>>,
    ) -> (table: Vec<Vec<AssignedCell<F>>>)
        requires
            wits@.len() > 0,
        ensures
            table@.len() == wits@.len(),
            forall|i: int|
                0 <= i < table@.len() ==> fills(
                    (#[trigger] table@[i])@,
                    all_columns(),
                    row_before(rows(wits@), i),
                    rows(wits@)[i],
                ),
    {
        let mut table: Vec<Vec<AssignedCell<F>>> = Vec::new();
        let mut i: usize = 0;
        while i < wits.len()
            invariant
                i <= wits@.len(),
                wits@.len() > 0,
                table@.len() == i,
                forall|k: int|
                    0 <= k < i ==> fills(
                        (#[trigger] table@[k])@,
                        all_columns(),
                        row_before(rows(wits@), k),
                        rows(wits@)[k],
                    ),
            decreases wits@.len() - i,
        {
            let before: usize = if i == 0 {
                wits.len() - 1
            } else {
                i - 1
            };
            let cells = assign_full_row(self, &wits[before], &wits[i]);
            assert(rows(wits@)[i as int] == wits@[i as int]@);
            assert(row_before(rows(wits@), i as int) == wits@[before as int]@);
            table.push(cells);
            i = i + 1;
        }
        table
    }
}

} // verus!
