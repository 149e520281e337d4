//! What the constraints of the decoder circuit force, whatever the cells hold.

use crate::accumulate::padded;
use crate::config::{
    byte, byte_cells, common_rule, decode_inputs, diff_bytes, diff_cells, diff_in_range,
    diff_range, error_cells, is_lt, keccak_input, last_row_rule, looked_up, lt_rule, matches_row,
    member_cells, padding_rule, q_error, q_member, q_type, r_mult_comp_inputs, r_mult_inputs,
    range_inputs, switch_inputs, type_cells, v_gt_0_rule, v_lt_128_rule, value_error_rule, Column,
    Comparison,
};
use crate::expression::{
    any_of, is_bit, lemma_polynomial, none_of, polynomial, total, vanishes, Challenge, Env,
};
use crate::field::{is_inverse, pow_mod};
use crate::rlc::{lemma_cancel, lemma_rlc_be_pad, lemma_rlc_be_range, rlc_be};
use crate::rlp_decoder_tables::{
    bit, decodable, decode_row, fixed_row, followers, in_fixed_table, r_mult_row, switch_row,
    RlpDecoderFixedTableTag, DECODE_ROWS, RANGE_ROWS, SWITCH_ROWS, TABLE_ROWS,
};
use crate::row::MAX_BYTE_COLUMN_NUM;
use crate::tags::{
    tx_member_at, RlpDecodeErrorType, RlpDecodeTypeTag, RlpTxFieldTag, RLP_DECODE_ERROR_TYPE_NUM,
    RLP_DECODE_TYPE_NUM, TX1559_TX_FIELD_NUM,
};
use vstd::arithmetic::div_mod::{
    lemma_add_mod_noop, lemma_mod_bound, lemma_mod_twice, lemma_mul_mod_noop_left,
    lemma_mul_mod_noop_right, lemma_small_mod, lemma_sub_mod_noop,
};
use vstd::prelude::*;

verus! {

/// What the constraints see of a table of cells from row `i`.
pub open spec fn env_at(
    table: spec_fn(Column, int) -> int,
    challenge: spec_fn(Challenge) -> int,
    m: int,
    i: int,
) -> Env<Column> {
    Env { cell: |c: Column, offset: int| table(c, i + offset), challenge, modulus: m }
}

/// The row is enabled, and not the last one.
pub open spec fn is_enabled(e: Env<Column>) -> bool {
    e.cur(Column::QEnable) == 1 && e.cur(Column::QLast) == 0
}

/// A product is zero only with one of its factors, as in a field.
#[verifier::opaque]
pub open spec fn no_zero_divisors(m: int) -> bool {
    forall|x: int, y: int|
        #![trigger vanishes(x, m), vanishes(y, m)]
        vanishes(x * y, m) ==> vanishes(x, m) || vanishes(y, m)
}

/// Sums and differences of zeros.
proof fn lemma_vanishing_sum(a: int, b: int, m: int)
    requires
        m > 0,
        vanishes(a, m),
        vanishes(b, m),
    ensures
        vanishes(a + b, m),
        vanishes(a - b, m),
{
    lemma_add_mod_noop(a, b, m);
    lemma_sub_mod_noop(a, b, m);
    lemma_small_mod(0, m as nat);
}

/// Products with a zero.
proof fn lemma_vanishing_product(a: int, b: int, m: int)
    requires
        m > 0,
        vanishes(a, m),
    ensures
        vanishes(a * b, m),
        vanishes(b * a, m),
{
    lemma_mul_mod_noop_left(a, b, m);
    lemma_small_mod(0, m as nat);
    assert(0 * b == 0);
    assert(b * a == a * b) by (nonlinear_arith);
}

/// A condition that holds can be dropped.
proof fn lemma_condition_met(c: int, x: int, m: int)
    requires
        m > 0,
        vanishes(c - 1, m),
        vanishes(c * x, m),
    ensures
        vanishes(x, m),
{
    lemma_vanishing_product(c - 1, x, m);
    lemma_vanishing_sum(c * x, (c - 1) * x, m);
    assert(c * x - (c - 1) * x == x) by (nonlinear_arith);
}

/// The selector of the constraints of an enabled row.
proof fn lemma_selected(e: Env<Column>, x: int)
    requires
        is_enabled(e),
        vanishes(e.cur(Column::QEnable) * (1 - e.cur(Column::QLast)) * x, e.modulus),
    ensures
        vanishes(x, e.modulus),
{
    let on = e.cur(Column::QEnable) * (1 - e.cur(Column::QLast));
    assert(on == 1);
    assert(on * x == x) by (nonlinear_arith)
        requires
            on == 1,
    ;
}

/// Whatever the cells hold, a row behind an invalid one is invalid.
pub proof fn law_constraints_keep_rows_invalid(
    table: spec_fn(Column, int) -> int,
    challenge: spec_fn(Challenge) -> int,
    m: int,
    a: int,
    b: int,
)
    requires
        m > 0,
        a <= b,
        forall|i: int|
            a <= i < b ==> common_rule(#[trigger] env_at(table, challenge, m, i)) && is_enabled(
                env_at(table, challenge, m, i),
            ),
        vanishes(table(Column::Valid, a), m),
    ensures
        vanishes(table(Column::Valid, b), m),
    decreases b - a,
{
    if a < b {
        law_constraints_keep_rows_invalid(table, challenge, m, a, b - 1);
        let e = env_at(table, challenge, m, b - 1);
        let (valid, next) = (e.cur(Column::Valid), e.next(Column::Valid));
        assert(common_rule(e));
        assert(valid == table(Column::Valid, b - 1));
        assert(next == table(Column::Valid, b));
        lemma_selected(e, valid * next - next);
        lemma_vanishing_product(valid, next, m);
        lemma_vanishing_sum(valid * next, valid * next - next, m);
    }
}

/// The flag that no error is set vanishes with an error, and is one without.
proof fn lemma_none_of(values: Seq<int>, m: int)
    requires
        m > 0,
    ensures
        (exists|i: int| 0 <= i < values.len() && vanishes(#[trigger] values[i] - 1, m))
            ==> vanishes(none_of(values), m),
        (forall|i: int| 0 <= i < values.len() ==> vanishes(#[trigger] values[i], m)) ==> vanishes(
            none_of(values) - 1,
            m,
        ),
    decreases values.len(),
{
    lemma_small_mod(0, m as nat);
    if values.len() > 0 {
        let front = values.drop_last();
        let (none, last) = (none_of(front), values.last());
        lemma_none_of(front, m);
        if exists|i: int| 0 <= i < values.len() && vanishes(#[trigger] values[i] - 1, m) {
            let i = choose|i: int| 0 <= i < values.len() && vanishes(#[trigger] values[i] - 1, m);
            if i == values.len() - 1 {
                lemma_vanishing_sum(0, last - 1, m);
                lemma_vanishing_product(1 - last, none, m);
            } else {
                assert(vanishes(front[i] - 1, m));
                lemma_vanishing_product(none, 1 - last, m);
            }
        }
        if forall|i: int| 0 <= i < values.len() ==> vanishes(#[trigger] values[i], m) {
            assert forall|i: int| 0 <= i < front.len() implies vanishes(#[trigger] front[i], m) by {
                assert(vanishes(values[i], m));
            }
            assert(vanishes(values[values.len() - 1], m));
            lemma_vanishing_product(last, none, m);
            lemma_vanishing_sum(none - 1, none * last, m);
            assert(none * (1 - last) - 1 == none - 1 - none * last) by (nonlinear_arith);
        }
    }
}

/// Whatever the cells hold, a row of a field is invalid with an error, and valid without.
pub proof fn law_constraints_tie_errors_to_validity(e: Env<Column>)
    requires
        e.modulus > 0,
        common_rule(e),
        is_enabled(e),
        vanishes(q_member(e, RlpTxFieldTag::DecodeError), e.modulus),
        vanishes(q_member(e, RlpTxFieldTag::Padding), e.modulus),
    ensures
        (exists|i: usize|
            i < RLP_DECODE_ERROR_TYPE_NUM && vanishes(
                #[trigger] e.cur(Column::Error(i)) - 1,
                e.modulus,
            )) ==> vanishes(e.cur(Column::Valid), e.modulus),
        (forall|i: usize|
            i < RLP_DECODE_ERROR_TYPE_NUM ==> vanishes(
                #[trigger] e.cur(Column::Error(i)),
                e.modulus,
            )) ==> vanishes(e.cur(Column::Valid) - 1, e.modulus),
{
    let m = e.modulus;
    let (d, p) = (
        q_member(e, RlpTxFieldTag::DecodeError),
        q_member(e, RlpTxFieldTag::Padding),
    );
    let (valid, errors) = (e.cur(Column::Valid), error_cells(e));
    let c = (1 - d) * (1 - p);
    let x = any_of(errors) - (1 - valid);
    lemma_selected(e, c * x);
    lemma_vanishing_product(d, p, m);
    lemma_vanishing_sum(d * p, d, m);
    lemma_vanishing_sum(d * p - d, p, m);
    assert(c - 1 == d * p - d - p) by (nonlinear_arith)
        requires
            c == (1 - d) * (1 - p),
    ;
    lemma_condition_met(c, x, m);
    assert(x == valid - none_of(errors));
    lemma_none_of(errors, m);
    if exists|i: usize|
        i < RLP_DECODE_ERROR_TYPE_NUM && vanishes(#[trigger] e.cur(Column::Error(i)) - 1, m) {
        let i = choose|i: usize|
            i < RLP_DECODE_ERROR_TYPE_NUM && vanishes(#[trigger] e.cur(Column::Error(i)) - 1, m);
        assert(vanishes(errors[i as int] - 1, m));
        lemma_vanishing_sum(x, none_of(errors), m);
    }
    if forall|i: usize|
        i < RLP_DECODE_ERROR_TYPE_NUM ==> vanishes(#[trigger] e.cur(Column::Error(i)), m) {
        assert forall|i: int| 0 <= i < errors.len() implies vanishes(#[trigger] errors[i], m) by {
            assert(vanishes(e.cur(Column::Error(i as usize)), m));
        }
        lemma_vanishing_sum(x, none_of(errors) - 1, m);
    }
}

/// Whatever the cells hold, the combination in a row is that of the row before, shifted by the
/// number of bytes in the row, and the combination of these bytes.
pub proof fn law_constraints_combine_the_bytes(e: Env<Column>, bytes: Seq<u8>)
    requires
        e.modulus > 1,
        common_rule(e),
        is_enabled(e),
        bytes.len() <= MAX_BYTE_COLUMN_NUM,
        forall|i: int|
            0 <= i < MAX_BYTE_COLUMN_NUM ==> #[trigger] byte_cells(e)[i] == padded(bytes)[i],
        e.cur(Column::RMult) % e.modulus == pow_mod(keccak_input(e), bytes.len(), e.modulus),
        e.cur(Column::RMultComp) % e.modulus == pow_mod(
            keccak_input(e),
            (MAX_BYTE_COLUMN_NUM - bytes.len()) as nat,
            e.modulus,
        ),
        exists|i: int| is_inverse(i, e.cur(Column::RMultComp), e.modulus),
    ensures
        e.cur(Column::AccRlcValue) % e.modulus == (e.prev(Column::AccRlcValue) * pow_mod(
            keccak_input(e),
            bytes.len(),
            e.modulus,
        ) + rlc_be(bytes, keccak_input(e), e.modulus)) % e.modulus,
        keccak_input(e) == (e.challenge)(Challenge::KeccakInput),
{
    let (m, r) = (e.modulus, keccak_input(e));
    let (quotient, comp) = (e.cur(Column::RlcQuotient), e.cur(Column::RMultComp));
    let whole = polynomial(byte_cells(e), r);
    let k = (MAX_BYTE_COLUMN_NUM - bytes.len()) as nat;
    let part = rlc_be(bytes, r, m);
    // the quotient is the combination of the bytes
    lemma_selected(e, quotient * comp - whole);
    lemma_equal_residues(quotient * comp, whole, m);
    lemma_polynomial(byte_cells(e), padded(bytes), r, m);
    assert(padded(bytes) =~= bytes + Seq::new(k, |i: int| 0u8));
    lemma_rlc_be_pad(bytes, k, r, m);
    lemma_mul_mod_noop_right(part, comp, m);
    lemma_mul_mod_noop_left(quotient, comp, m);
    lemma_rlc_be_range(bytes, r, m);
    lemma_mod_bound(quotient, m);
    lemma_cancel(quotient % m, part, comp, m);
    // and is added to what came before
    let (acc, before, mult) = (
        e.cur(Column::AccRlcValue),
        e.prev(Column::AccRlcValue),
        e.cur(Column::RMult),
    );
    lemma_selected(e, acc - (mult * before + quotient));
    lemma_equal_residues(acc, mult * before + quotient, m);
    let shift = pow_mod(r, bytes.len(), m);
    lemma_mul_mod_noop_left(mult, before, m);
    assert(shift * before == before * shift) by (nonlinear_arith);
    lemma_add_mod_noop(mult * before, quotient, m);
    lemma_add_mod_noop(before * shift, part, m);
    lemma_small_mod(part as nat, m as nat);
}

/// Numbers that are equal in the field have the same residue.
proof fn lemma_equal_residues(a: int, b: int, m: int)
    requires
        m > 0,
        vanishes(a - b, m),
    ensures
        a % m == b % m,
{
    lemma_add_mod_noop(a - b, b, m);
    lemma_mod_twice(b, m);
    assert((a - b) + b == a);
}

/// The residues of flags sum up to the residue of their sum, and their sum is at most their number.
proof fn lemma_total_residue(values: Seq<int>, m: int)
    requires
        m > values.len(),
        forall|i: int| 0 <= i < values.len() ==> is_bit(#[trigger] values[i] % m),
    ensures
        ({
            let bits = Seq::new(values.len(), |i: int| values[i] % m);
            &&& total(values) % m == total(bits)
            &&& 0 <= total(bits) <= values.len()
        }),
    decreases values.len(),
{
    let bits = Seq::new(values.len(), |i: int| values[i] % m);
    if values.len() == 0 {
        lemma_small_mod(0, m as nat);
    } else {
        let front = values.drop_last();
        assert forall|i: int| 0 <= i < front.len() implies is_bit(#[trigger] front[i] % m) by {
            assert(is_bit(values[i] % m));
        }
        lemma_total_residue(front, m);
        assert(bits.drop_last() =~= Seq::new(front.len(), |i: int| front[i] % m));
        assert(is_bit(values[values.len() - 1] % m));
        lemma_add_mod_noop(total(front), values.last(), m);
        lemma_small_mod(total(bits) as nat, m as nat);
    }
}

/// Flags that sum up to one: one of them is set, and no other.
proof fn lemma_one_set(bits: Seq<int>) -> (i: int)
    requires
        total(bits) == 1,
        forall|j: int| 0 <= j < bits.len() ==> is_bit(#[trigger] bits[j]),
    ensures
        0 <= i < bits.len(),
        bits[i] == 1,
        forall|j: int| 0 <= j < bits.len() && j != i ==> #[trigger] bits[j] == 0,
    decreases bits.len(),
{
    let front = bits.drop_last();
    assert(is_bit(bits[bits.len() - 1]));
    assert forall|j: int| 0 <= j < front.len() implies is_bit(#[trigger] front[j]) by {
        assert(is_bit(bits[j]));
    }
    if bits.last() == 1 {
        lemma_none_set(front);
        assert forall|j: int| 0 <= j < bits.len() && j != bits.len() - 1 implies #[trigger] bits[j]
            == 0 by {
            assert(front[j] == 0);
        }
        bits.len() - 1
    } else {
        let i = lemma_one_set(front);
        assert forall|j: int| 0 <= j < bits.len() && j != i implies #[trigger] bits[j] == 0 by {
            if j < front.len() {
                assert(front[j] == 0);
            }
        }
        i
    }
}

/// Flags that sum up to zero are not set.
proof fn lemma_none_set(bits: Seq<int>)
    requires
        total(bits) == 0,
        forall|j: int| 0 <= j < bits.len() ==> is_bit(#[trigger] bits[j]),
    ensures
        forall|j: int| 0 <= j < bits.len() ==> #[trigger] bits[j] == 0,
    decreases bits.len(),
{
    if bits.len() > 0 {
        let front = bits.drop_last();
        assert(is_bit(bits[bits.len() - 1]));
        assert forall|j: int| 0 <= j < front.len() implies is_bit(#[trigger] front[j]) by {
            assert(is_bit(bits[j]));
        }
        lemma_total_of_bits(front);
        lemma_none_set(front);
        assert forall|j: int| 0 <= j < bits.len() implies #[trigger] bits[j] == 0 by {
            if j < front.len() {
                assert(front[j] == 0);
            }
        }
    }
}

/// Flags do not sum up to less than zero.
proof fn lemma_total_of_bits(bits: Seq<int>)
    requires
        forall|j: int| 0 <= j < bits.len() ==> is_bit(#[trigger] bits[j]),
    ensures
        total(bits) >= 0,
    decreases bits.len(),
{
    if bits.len() > 0 {
        let front = bits.drop_last();
        assert(is_bit(bits[bits.len() - 1]));
        assert forall|j: int| 0 <= j < front.len() implies is_bit(#[trigger] front[j]) by {
            assert(is_bit(bits[j]));
        }
        lemma_total_of_bits(front);
    }
}

/// A cell with the constraint of a flag holds a bit.
proof fn lemma_flag(a: int, m: int)
    requires
        m > 1,
        no_zero_divisors(m),
        vanishes(a * (1 - a), m),
    ensures
        is_bit(a % m),
{
    reveal(no_zero_divisors);
    lemma_small_mod(1, m as nat);
    if !vanishes(a, m) {
        assert(vanishes(1 - a, m));
        lemma_equal_residues(1, a, m);
    }
}

/// Cells with the constraints of flags, whose sum is one: one is set, and no other.
proof fn lemma_one_flag(values: Seq<int>, m: int) -> (i: int)
    requires
        m > values.len(),
        m > 1,
        no_zero_divisors(m),
        forall|j: int|
            0 <= j < values.len() ==> vanishes(#[trigger] values[j] * (1 - values[j]), m),
        vanishes(total(values) - 1, m),
    ensures
        0 <= i < values.len(),
        values[i] % m == 1,
        forall|j: int| 0 <= j < values.len() && j != i ==> vanishes(#[trigger] values[j], m),
{
    assert forall|j: int| 0 <= j < values.len() implies is_bit(#[trigger] values[j] % m) by {
        assert(vanishes(values[j] * (1 - values[j]), m));
        lemma_flag(values[j], m);
    }
    let bits = Seq::new(values.len(), |j: int| values[j] % m);
    lemma_total_residue(values, m);
    lemma_equal_residues(total(values), 1, m);
    lemma_small_mod(1, m as nat);
    assert forall|j: int| 0 <= j < bits.len() implies is_bit(#[trigger] bits[j]) by {
        assert(is_bit(values[j] % m));
    }
    let i = lemma_one_set(bits);
    assert(bits[i] == 1);
    assert forall|j: int| 0 <= j < values.len() && j != i implies vanishes(
        #[trigger] values[j],
        m,
    ) by {
        assert(bits[j] == 0);
    }
    i
}

/// Flags of which one is set, and which name what they are set for: that one names the tag.
proof fn lemma_named(flags: Seq<int>, tag: int, m: int) -> (i: int)
    requires
        m > flags.len(),
        m > 1,
        no_zero_divisors(m),
        forall|j: int|
            0 <= j < flags.len() ==> vanishes(#[trigger] flags[j] * (1 - flags[j]), m) && vanishes(
                flags[j] * (tag - j),
                m,
            ),
        vanishes(total(flags) - 1, m),
    ensures
        0 <= i < flags.len(),
        flags[i] % m == 1,
        tag % m == i,
        forall|j: int| 0 <= j < flags.len() && j != i ==> vanishes(#[trigger] flags[j], m),
{
    let i = lemma_one_flag(flags, m);
    lemma_small_mod(1, m as nat);
    lemma_sub_mod_noop(flags[i], 1, m);
    lemma_small_mod(0, m as nat);
    assert(vanishes(flags[i] * (1 - flags[i]), m));
    lemma_condition_met(flags[i], tag - i, m);
    lemma_equal_residues(tag, i, m);
    lemma_small_mod(i as nat, m as nat);
    i
}

/// Whatever the cells hold, a row belongs to one field, which its tag names, and no other field is
/// set.
pub proof fn law_constraints_name_one_field(e: Env<Column>)
    requires
        e.modulus > TX1559_TX_FIELD_NUM,
        no_zero_divisors(e.modulus),
        common_rule(e),
        is_enabled(e),
    ensures
        exists|i: usize|
            i < TX1559_TX_FIELD_NUM && #[trigger] e.cur(Column::QTxMember(i)) % e.modulus == 1
                && e.cur(Column::TxMember) % e.modulus == i && forall|j: usize|
                j < TX1559_TX_FIELD_NUM && j != i ==> vanishes(
                    #[trigger] e.cur(Column::QTxMember(j)),
                    e.modulus,
                ),
{
    let m = e.modulus;
    let (flags, tag) = (member_cells(e), e.cur(Column::TxMember));
    assert forall|j: int| 0 <= j < flags.len() implies vanishes(
        #[trigger] flags[j] * (1 - flags[j]),
        m,
    ) && vanishes(flags[j] * (tag - j), m) by {
        let flag = e.cur(Column::QTxMember(j as usize));
        lemma_selected(e, flag * (1 - flag));
        lemma_selected(e, flag * (tag - j));
    }
    lemma_selected(e, total(flags) - 1);
    let i = lemma_named(flags, tag, m);
    let n = i as usize;
    assert(e.cur(Column::QTxMember(n)) == flags[i]);
    assert forall|j: usize| j < TX1559_TX_FIELD_NUM && j != n implies vanishes(
        #[trigger] e.cur(Column::QTxMember(j)),
        m,
    ) by {
        assert(vanishes(flags[j as int], m));
    }
}

/// Whatever the cells hold, a row has one decoding type, which its tag names, and no other type is
/// set.
pub proof fn law_constraints_name_one_type(e: Env<Column>)
    requires
        e.modulus > RLP_DECODE_TYPE_NUM,
        no_zero_divisors(e.modulus),
        common_rule(e),
        is_enabled(e),
    ensures
        exists|i: usize|
            i < RLP_DECODE_TYPE_NUM && #[trigger] e.cur(Column::QRlpType(i)) % e.modulus == 1
                && e.cur(Column::RlpType) % e.modulus == i && forall|j: usize|
                j < RLP_DECODE_TYPE_NUM && j != i ==> vanishes(
                    #[trigger] e.cur(Column::QRlpType(j)),
                    e.modulus,
                ),
{
    let m = e.modulus;
    let (flags, tag) = (type_cells(e), e.cur(Column::RlpType));
    assert forall|j: int| 0 <= j < flags.len() implies vanishes(
        #[trigger] flags[j] * (1 - flags[j]),
        m,
    ) && vanishes(flags[j] * (tag - j), m) by {
        let flag = e.cur(Column::QRlpType(j as usize));
        lemma_selected(e, flag * (1 - flag));
        lemma_selected(e, flag * (tag - j));
    }
    lemma_selected(e, total(flags) - 1);
    let i = lemma_named(flags, tag, m);
    let n = i as usize;
    assert(e.cur(Column::QRlpType(n)) == flags[i]);
    assert forall|j: usize| j < RLP_DECODE_TYPE_NUM && j != n implies vanishes(
        #[trigger] e.cur(Column::QRlpType(j)),
        m,
    ) by {
        assert(vanishes(flags[j as int], m));
    }
}

/// Whatever the cells hold, nothing is left at the last row, which is padding, and the combination
/// there is that of the row before.
pub proof fn law_constraints_leave_nothing(e: Env<Column>)
    requires
        e.modulus > 0,
        last_row_rule(e),
        padding_rule(e),
        e.cur(Column::QEnable) == 1,
        e.cur(Column::QLast) == 1,
    ensures
        vanishes(q_member(e, RlpTxFieldTag::Padding) - 1, e.modulus),
        vanishes(e.cur(Column::RemainLength), e.modulus),
        vanishes(e.prev(Column::RemainLength), e.modulus),
        e.cur(Column::AccRlcValue) % e.modulus == e.prev(Column::AccRlcValue) % e.modulus,
{
    let m = e.modulus;
    let q = q_member(e, RlpTxFieldTag::Padding);
    let on = q * e.cur(Column::QEnable);
    assert(on == q);
    assert(e.cur(Column::QLast) * e.cur(Column::QEnable) * (q - 1) == q - 1) by (nonlinear_arith)
        requires
            e.cur(Column::QEnable) == 1,
            e.cur(Column::QLast) == 1,
    ;
    lemma_condition_met(q, e.cur(Column::RemainLength) - 0, m);
    lemma_condition_met(q, e.prev(Column::RemainLength) - 0, m);
    lemma_condition_met(q, e.cur(Column::AccRlcValue) - e.prev(Column::AccRlcValue), m);
    lemma_equal_residues(e.cur(Column::AccRlcValue), e.prev(Column::AccRlcValue), m);
}

/// The row of the fixed table that values were looked up in, by the part that the first of them
/// names.
proof fn lemma_found(values: Seq<int>, e: Env<Column>, tag: RlpDecoderFixedTableTag) -> (k: int)
    requires
        e.modulus > TABLE_ROWS,
        looked_up(values, e),
        values.len() > 0,
        values[0] == tag.ordinal(),
    ensures
        0 <= k < TABLE_ROWS,
        matches_row(values, fixed_row(k, keccak_input(e), e.modulus), e.modulus),
        fixed_row(k, keccak_input(e), e.modulus)[0] == tag.ordinal(),
{
    let (r, m) = (keccak_input(e), e.modulus);
    let row = choose|row: Seq<int>| #[trigger]
        in_fixed_table(row, r, m) && matches_row(values, row, m);
    let k = choose|k: int| 0 <= k < TABLE_ROWS && row == #[trigger] fixed_row(k, r, m);
    assert(vanishes(values[0] - row[0], m));
    lemma_equal_residues(values[0], row[0], m);
    lemma_small_mod(values[0] as nat, m as nat);
    lemma_small_mod(row[0] as nat, m as nat);
    k
}

/// A value that was looked up has the residue of its place in the table.
proof fn lemma_found_value(values: Seq<int>, row: Seq<int>, m: int, i: int)
    requires
        m > 0,
        matches_row(values, row, m),
        0 <= i < values.len(),
    ensures
        values[i] % m == row[i] % m,
{
    assert(vanishes(values[i] - row[i], m));
    lemma_equal_residues(values[i], row[i], m);
}

/// Whatever a cell holds, it is a byte where it is looked up as one.
pub proof fn law_lookups_hold_bytes(e: Env<Column>, value: int)
    requires
        e.modulus > TABLE_ROWS,
        looked_up(range_inputs(value), e),
    ensures
        0 <= value % e.modulus < 256,
{
    let (r, m) = (keccak_input(e), e.modulus);
    let k = lemma_found(range_inputs(value), e, RlpDecoderFixedTableTag::Range256);
    lemma_found_value(range_inputs(value), fixed_row(k, r, m), m, 1);
    lemma_small_mod((k - 1) as nat, m as nat);
}

/// Whatever the cells hold, a field behind a valid row is flagged as having a wrong first byte
/// exactly when none of its rules accepts that byte.
pub proof fn law_lookups_judge_headers(e: Env<Column>)
    requires
        e.modulus > TABLE_ROWS,
        looked_up(decode_inputs(e), e),
        e.cur(Column::QEnable) == 1,
        q_type(e, RlpDecodeTypeTag::PartialRlp) == 0,
        e.prev(Column::Valid) == 1,
    ensures
        exists|member: RlpTxFieldTag, byte0: u8|
            e.cur(Column::TxMember) % e.modulus == member.ordinal() && byte(e, 0) % e.modulus
                == byte0 && (1 - q_error(e, RlpDecodeErrorType::HeaderDecError)) % e.modulus == bit(
                #[trigger] decodable(member, byte0),
            ),
{
    let (r, m) = (keccak_input(e), e.modulus);
    let values = decode_inputs(e);
    let (enable, partial, valid) = (
        e.cur(Column::QEnable),
        q_type(e, RlpDecodeTypeTag::PartialRlp),
        e.prev(Column::Valid),
    );
    let (tag, first) = (e.cur(Column::TxMember), byte(e, 0));
    let sound = 1 - q_error(e, RlpDecodeErrorType::HeaderDecError);
    let on = enable * (1 - partial) * valid;
    assert(on == 1) by (nonlinear_arith)
        requires
            enable == 1,
            partial == 0,
            valid == 1,
            on == enable * (1 - partial) * valid,
    ;
    assert(on * 1 == 1 && on * tag == tag && on * first == first && on * sound == sound)
        by (nonlinear_arith)
        requires
            on == 1,
    ;
    let k = lemma_found(values, e, RlpDecoderFixedTableTag::RlpDecoderTable);
    let row = fixed_row(k, r, m);
    let decode = k - 1 - RANGE_ROWS;
    let (member, byte0) = (tx_member_at(decode / 256), (decode % 256) as u8);
    assert(0 <= decode < DECODE_ROWS);
    assert(row == decode_row(member, byte0));
    lemma_found_value(values, row, m, 2);
    lemma_found_value(values, row, m, 3);
    lemma_found_value(values, row, m, 4);
    lemma_small_mod(member.ordinal() as nat, m as nat);
    lemma_small_mod(byte0 as nat, m as nat);
    lemma_small_mod(bit(decodable(member, byte0)) as nat, m as nat);
}

/// Whatever the cells hold, a field that is complete is followed by one that may follow it.
pub proof fn law_lookups_order_the_fields(e: Env<Column>)
    requires
        e.modulus > TABLE_ROWS,
        looked_up(switch_inputs(e), e),
        is_enabled(e),
        e.cur(Column::Complete) == 1,
    ensures
        exists|current: RlpTxFieldTag, i: int|
            0 <= i < 3 && e.cur(Column::TxMember) % e.modulus == current.ordinal() && e.next(
                Column::TxMember,
            ) % e.modulus == (#[trigger] followers(current)[i]).ordinal(),
{
    let (r, m) = (keccak_input(e), e.modulus);
    let values = switch_inputs(e);
    let (last, enable, complete) = (
        e.cur(Column::QLast),
        e.cur(Column::QEnable),
        e.cur(Column::Complete),
    );
    let (tag, follower) = (e.cur(Column::TxMember), e.next(Column::TxMember));
    let on = (1 - last) * enable * complete;
    assert(on == 1) by (nonlinear_arith)
        requires
            last == 0,
            enable == 1,
            complete == 1,
            on == (1 - last) * enable * complete,
    ;
    assert(on * 2 == 2 && on * tag == tag && on * follower == follower) by (nonlinear_arith)
        requires
            on == 1,
    ;
    let k = lemma_found(values, e, RlpDecoderFixedTableTag::TxFieldSwitchTable);
    let row = fixed_row(k, r, m);
    let switch = k - 1 - RANGE_ROWS - DECODE_ROWS;
    assert(0 <= switch < SWITCH_ROWS);
    let current = tx_member_at(switch / 3);
    let next = followers(current)[switch % 3];
    assert(row == switch_row(current, next));
    lemma_found_value(values, row, m, 1);
    lemma_found_value(values, row, m, 2);
    lemma_small_mod(current.ordinal() as nat, m as nat);
    lemma_small_mod(next.ordinal() as nat, m as nat);
}

/// Whatever the cells hold, the two powers in a row are those for the number of bytes in it.
pub proof fn law_lookups_fix_the_powers(e: Env<Column>)
    requires
        e.modulus > TABLE_ROWS,
        looked_up(r_mult_inputs(e), e),
        looked_up(r_mult_comp_inputs(e), e),
        e.cur(Column::QEnable) == 1,
    ensures
        ({
            let (r, m) = (keccak_input(e), e.modulus);
            let n = e.cur(Column::BytesInRow) % m;
            &&& 0 <= n <= MAX_BYTE_COLUMN_NUM
            &&& e.cur(Column::RMult) % m == pow_mod(r, n as nat, m)
            &&& e.cur(Column::RMultComp) % m == pow_mod(r, (MAX_BYTE_COLUMN_NUM - n) as nat, m)
        }),
{
    let (r, m) = (keccak_input(e), e.modulus);
    let in_row = e.cur(Column::BytesInRow);
    let base = 1 + RANGE_ROWS + DECODE_ROWS + SWITCH_ROWS;
    let (values, others) = (r_mult_inputs(e), r_mult_comp_inputs(e));
    let k = lemma_found(values, e, RlpDecoderFixedTableTag::RMult);
    let l = lemma_found(others, e, RlpDecoderFixedTableTag::RMult);
    let (n, rest) = (k - base, l - base);
    assert(fixed_row(k, r, m) == r_mult_row(n, r, m));
    assert(fixed_row(l, r, m) == r_mult_row(rest, r, m));
    lemma_found_value(values, fixed_row(k, r, m), m, 1);
    lemma_found_value(values, fixed_row(k, r, m), m, 2);
    lemma_found_value(others, fixed_row(l, r, m), m, 1);
    lemma_found_value(others, fixed_row(l, r, m), m, 2);
    lemma_small_mod(n as nat, m as nat);
    lemma_small_mod(rest as nat, m as nat);
    lemma_mod_twice(vstd::arithmetic::power::pow(r, n as nat), m);
    lemma_mod_twice(vstd::arithmetic::power::pow(r, rest as nat), m);
    lemma_sub_mod_noop(MAX_BYTE_COLUMN_NUM as int, in_row, m);
    lemma_small_mod(MAX_BYTE_COLUMN_NUM as nat, m as nat);
    lemma_small_mod((MAX_BYTE_COLUMN_NUM - n) as nat, m as nat);
}

/// The residues of numbers.
pub open spec fn residues(values: Seq<int>, m: int) -> Seq<int> {
    Seq::new(values.len(), |i: int| values[i] % m)
}

/// A polynomial may be taken of the residues of its coefficients.
proof fn lemma_polynomial_residues(values: Seq<int>, r: int, m: int)
    requires
        m > 0,
    ensures
        vanishes(polynomial(values, r) - polynomial(residues(values, m), r), m),
    decreases values.len(),
{
    lemma_small_mod(0, m as nat);
    if values.len() > 0 {
        let (front, last) = (values.drop_last(), values.last());
        lemma_polynomial_residues(front, r, m);
        assert(residues(values, m).drop_last() =~= residues(front, m));
        let (p, q) = (polynomial(front, r), polynomial(residues(front, m), r));
        lemma_vanishing_product(p - q, r, m);
        lemma_sub_mod_noop(last, last % m, m);
        lemma_mod_twice(last, m);
        assert(vanishes(last - last % m, m));
        lemma_vanishing_sum((p - q) * r, last - last % m, m);
        assert((p - q) * r + (last - last % m) == (p * r + last) - (q * r + last % m))
            by (nonlinear_arith);
    }
}

/// A number below the order that is zero in the field is zero.
proof fn lemma_small_zero(x: int, m: int)
    requires
        -m < x < m,
        vanishes(x, m),
    ensures
        x == 0,
{
    if x >= 0 {
        lemma_small_mod(x as nat, m as nat);
    } else {
        lemma_small_mod((x + m) as nat, m as nat);
        vstd::arithmetic::div_mod::lemma_mod_add_multiples_vanish(x, m);
    }
}

/// The number that the bytes of a difference make up.
proof fn lemma_difference(e: Env<Column>, comparison: Comparison) -> (d: int)
    requires
        e.modulus > TABLE_ROWS,
        diff_in_range(e, comparison, diff_bytes(comparison) as int),
    ensures
        0 <= d < diff_range(comparison),
        vanishes(polynomial(diff_cells(e, comparison).reverse(), 256) - d, e.modulus),
{
    let m = e.modulus;
    let values = diff_cells(e, comparison).reverse();
    let bytes = residues(values, m);
    lemma_polynomial_residues(values, 256, m);
    assert forall|i: int| 0 <= i < bytes.len() implies 0 <= #[trigger] bytes[i] < 256 by {
        let j = (values.len() - 1 - i) as usize;
        law_lookups_hold_bytes(e, e.cur(Column::Diff(comparison, j)));
    }
    reveal_with_fuel(polynomial, 5);
    if bytes.len() == 1 {
        assert(polynomial(bytes, 256) == bytes[0]);
    } else {
        assert(polynomial(bytes, 256) == ((bytes[0] * 256 + bytes[1]) * 256 + bytes[2]) * 256
            + bytes[3]);
    }
    polynomial(bytes, 256)
}

/// Whatever the cells hold, a comparison of numbers in its range comes out right.
pub proof fn law_comparisons_are_right(
    e: Env<Column>,
    comparison: Comparison,
    lhs: int,
    rhs: int,
)
    requires
        e.modulus > 2 * diff_range(comparison),
        e.modulus > TABLE_ROWS,
        no_zero_divisors(e.modulus),
        lt_rule(e, comparison, 1, lhs, rhs),
        diff_in_range(e, comparison, diff_bytes(comparison) as int),
        0 <= lhs < diff_range(comparison),
        0 <= rhs <= diff_range(comparison),
    ensures
        is_lt(e, comparison) % e.modulus == bit(lhs < rhs),
{
    let (m, range) = (e.modulus, diff_range(comparison) as int);
    let flag = is_lt(e, comparison);
    let p = polynomial(diff_cells(e, comparison).reverse(), 256);
    let d = lemma_difference(e, comparison);
    let f = flag % m;
    assert(1 * (flag * (1 - flag)) == flag * (1 - flag));
    lemma_flag(flag, m);
    lemma_sub_mod_noop(flag, f, m);
    lemma_mod_twice(flag, m);
    lemma_small_mod(0, m as nat);
    assert(vanishes(flag - f, m));
    lemma_vanishing_product(flag - f, range, m);
    let x = lhs - rhs - p + flag * range;
    assert(1 * (x - 0) == x);
    lemma_vanishing_sum(x, p - d, m);
    lemma_vanishing_sum(x + (p - d), (flag - f) * range, m);
    let y = lhs - rhs - d + f * range;
    assert(x + (p - d) - (flag - f) * range == y) by (nonlinear_arith)
        requires
            x == lhs - rhs - p + flag * range,
            y == lhs - rhs - d + f * range,
    ;
    assert(f * range == if f == 1 { range } else { 0 }) by (nonlinear_arith)
        requires
            f == 0 || f == 1,
    ;
    lemma_small_zero(y, m);
}

/// Whatever the other cells hold, an integer is flagged as having a wrong value only where it
/// starts with a zero, or is a single byte below 0x80 with a header.
pub proof fn law_constraints_justify_value_errors(e: Env<Column>, byte0: u8, byte1: u8)
    requires
        e.modulus > TABLE_ROWS,
        no_zero_divisors(e.modulus),
        value_error_rule(e),
        v_gt_0_rule(e),
        v_lt_128_rule(e),
        diff_in_range(e, Comparison::VGt0, 1),
        diff_in_range(e, Comparison::VLt128, 1),
        e.cur(Column::QEnable) == 1,
        q_type(e, RlpDecodeTypeTag::ShortStringValue) == 1,
        q_error(e, RlpDecodeErrorType::ValueError) == 1,
        byte(e, 0) == byte0,
        byte(e, 1) == byte1,
    ensures
        byte1 == 0 || (byte0 == 0x81 && byte1 < 0x80),
{
    let m = e.modulus;
    let (gt_0, lt_128) = (is_lt(e, Comparison::VGt0), is_lt(e, Comparison::VLt128));
    let integer = q_type(e, RlpDecodeTypeTag::ShortStringValue);
    let types = seq![
        integer,
        q_type(e, RlpDecodeTypeTag::LongList2),
        q_type(e, RlpDecodeTypeTag::LongList3),
    ];
    assert(any_of(types) == 1) by {
        reveal_with_fuel(none_of, 4);
        let front = types.drop_last();
        assert(front.drop_last() =~= seq![integer]);
        assert(seq![integer].drop_last() =~= seq![]);
        assert(none_of(seq![integer]) == 0);
        assert(0 * (1 - front.last()) == 0);
        assert(0 * (1 - types.last()) == 0);
    }
    law_comparisons_are_right(e, Comparison::VGt0, 0, byte1 as int);
    law_comparisons_are_right(e, Comparison::VLt128, byte1 as int, 128);
    let (x, y) = (gt_0 * (byte0 - 0x81), gt_0 * (1 - lt_128));
    assert(1 * (1 * (x - 0)) == x && 1 * (1 * (y - 0)) == y);
    if byte1 != 0 {
        assert(!vanishes(gt_0, m));
        assert(vanishes(byte0 - 0x81, m) && vanishes(1 - lt_128, m)) by {
            reveal(no_zero_divisors);
        }
        lemma_small_zero(byte0 - 0x81, m);
        lemma_equal_residues(1, lt_128, m);
        lemma_small_mod(1, m as nat);
    }
}

} // verus!
