//! The combinations of the bytes that run through the rows, and the padding at the end.

use crate::field::{is_inverse, pow_mod, Field};
use crate::rlc;
use crate::rlc::rlc_be;
use crate::row::{blank_row, rows, Row, RlpDecoderCircuitConfigWitness, MAX_BYTE_COLUMN_NUM};
use crate::tags::{RlpDecodeTypeTag, RlpTxFieldTag, RlpTxTypeTag};
use vstd::arithmetic::div_mod::{
    lemma_add_mod_noop, lemma_mod_twice, lemma_mul_mod_noop_left, lemma_mul_mod_noop_right,
    lemma_small_mod,
};
use vstd::prelude::*;

verus! {

/// The bytes of a row, filled up with zeros to all the byte columns.
pub open spec fn padded(bytes: Seq<u8>) -> Seq<u8> {
    Seq::new(
        MAX_BYTE_COLUMN_NUM as nat,
        |i: int|
            if i < bytes.len() {
                bytes[i]
            } else {
                0u8
            },
    )
}

/// `row` with the two combinations of its bytes set.
pub open spec fn with_rlc(row: Row, rlc_quotient: int, acc_rlc_value: int) -> Row {
    Row { rlc_quotient, acc_rlc_value, ..row }
}

/// The combination that runs into row `i`. It starts at zero behind the first row.
pub open spec fn running_rlc(fixed: Seq<Row>, i: int) -> int {
    if i <= 1 {
        0
    } else {
        fixed[i - 1].acc_rlc_value
    }
}

/// Row `i` got its combinations from the bytes in it and from the row before it: the quotient is
/// the combination of all the byte columns divided by `r_mult_comp`, and it is added to the
/// running combination shifted by `r_mult`.
pub open spec fn rlc_fixed(before: Seq<Row>, after: Seq<Row>, i: int, r: int, m: int) -> bool {
    let row = after[i];
    &&& row == with_rlc(before[i], row.rlc_quotient, row.acc_rlc_value)
    &&& 0 <= row.rlc_quotient < m
    &&& (row.rlc_quotient * row.r_mult_comp) % m == rlc_be(padded(row.bytes), r, m)
    &&& row.acc_rlc_value == (running_rlc(after, i) * row.r_mult + row.rlc_quotient) % m
    &&& exists|inverse: int| is_inverse(inverse, row.r_mult_comp, m)
}

/// All the byte columns of a row, the last one first.
fn padded_reversed(bytes: &Vec<u8>) -> (r: Vec<u8>)
    ensures
        r@ == padded(bytes@).reverse(),
{
    let mut out: Vec<u8> = Vec::new();
    let mut i: usize = MAX_BYTE_COLUMN_NUM;
    while i > 0
        invariant
            i <= MAX_BYTE_COLUMN_NUM,
            out@ =~= padded(bytes@).reverse().take(MAX_BYTE_COLUMN_NUM - i),
        decreases i,
    {
        i = i - 1;
        if i < bytes.len() {
            out.push(bytes[i]);
        } else {
            out.push(0);
        }
    }
    out
}

/// Fills in the combinations of the bytes, row by row. The first row is left as it is.
pub fn fixup_acc_rlc_new<F: Field>(
    witness: &mut Vec<RlpDecoderCircuitConfigWitness<F>>,
    randomness: F,
)
    requires
        forall|i: int|
            #![trigger old(witness)@[i]]
            1 <= i < old(witness)@.len() ==> old(witness)@[i].r_mult_comp.val() != 0,
    ensures
        final(witness)@.len() == old(witness)@.len(),
        old(witness)@.len() > 0 ==> rows(final(witness)@)[0] == rows(old(witness)@)[0],
        forall|i: int|
            1 <= i < final(witness)@.len() ==> #[trigger] rlc_fixed(
                rows(old(witness)@),
                rows(final(witness)@),
                i,
                randomness.val(),
                F::modulus(),
            ),
{
    let ghost before = rows(witness@);
    let ghost given = witness@;
    let ghost m = F::modulus();
    let ghost r = randomness.val();
    proof {
        randomness.val_range();
    }
    let mut prev_acc_rlc: F = F::zero();
    let mut i: usize = 1;
    let n = witness.len();
    while i < n
        invariant
            1 <= i,
            i <= n || i == 1,
            n == given.len(),
            n == witness@.len(),
            before == rows(given),
            m == F::modulus(),
            m > 1,
            r == randomness.val(),
            forall|j: int|
                #![trigger given[j]]
                1 <= j < given.len() ==> given[j].r_mult_comp.val() != 0,
            forall|j: int|
                #![trigger witness@[j]]
                0 <= j < n && (j < 1 || i <= j) ==> witness@[j] == given[j],
            prev_acc_rlc.val() == running_rlc(rows(witness@), i as int),
            forall|j: int|
                1 <= j < i && j < n ==> #[trigger] rlc_fixed(before, rows(witness@), j, r, m),
        decreases n - i,
    {
        let bytes = padded_reversed(&witness[i].bytes);
        assert(bytes@.reverse() =~= padded(witness@[i as int].bytes@));
        assert(witness@[i as int] == given[i as int]);
        let combined = rlc::value(&bytes, randomness);
        let inverse = witness[i].r_mult_comp.invert().unwrap();
        let rlc_quotient = combined.mul(&inverse);
        let acc_rlc_value = prev_acc_rlc.mul(&witness[i].r_mult).add(&rlc_quotient);
        let ghost prev_rows = rows(witness@);
        let ghost comp = witness@[i as int].r_mult_comp.val();
        proof {
            combined.val_range();
            rlc_quotient.val_range();
            let c = combined.val();
            let v = inverse.val();
            // (c * v % m) * comp == c * (v * comp) == c
            lemma_mul_mod_noop_left(c * v, comp, m);
            assert((c * v) * comp == c * (v * comp)) by (nonlinear_arith);
            lemma_mul_mod_noop_right(c, v * comp, m);
            assert(c * 1 == c);
            lemma_small_mod(c as nat, m as nat);
            assert((rlc_quotient.val() * comp) % m == c);
            let p = prev_acc_rlc.val() * witness@[i as int].r_mult.val();
            lemma_add_mod_noop(p % m, rlc_quotient.val(), m);
            lemma_add_mod_noop(p, rlc_quotient.val(), m);
            lemma_mod_twice(p, m);
            assert(is_inverse(v, comp, m));
        }
        witness[i].rlc_quotient = rlc_quotient;
        witness[i].acc_rlc_value = acc_rlc_value;
        prev_acc_rlc = acc_rlc_value;
        proof {
            let now = rows(witness@);
            assert(now =~= prev_rows.update(
                i as int,
                with_rlc(before[i as int], rlc_quotient.val(), acc_rlc_value.val()),
            ));
            assert(running_rlc(now, i as int) == running_rlc(prev_rows, i as int));
            assert(rlc_fixed(before, now, i as int, r, m));
            assert forall|j: int| 1 <= j < i implies #[trigger] rlc_fixed(before, now, j, r, m) by {
                assert(rlc_fixed(before, prev_rows, j, r, m));
                assert(now[j] == prev_rows[j]);
                assert(running_rlc(now, j) == running_rlc(prev_rows, j));
            }
        }
        i = i + 1;
    }
}

/// A padding row behind `last`.
pub open spec fn padding_row(last: Row, r: int, m: int, q_last: bool) -> Row {
    Row {
        tx_id: 0,
        tx_type: RlpTxTypeTag::Tx1559Type,
        tx_member: RlpTxFieldTag::Padding,
        complete: true,
        rlp_type: RlpDecodeTypeTag::DoNothing,
        rlp_tx_member_length: 0,
        rlp_bytes_in_row: 0,
        r_mult: 1,
        rlp_remain_length: 0,
        value: 0,
        acc_rlc_value: last.acc_rlc_value,
        bytes: padded(seq![]),
        errors: last.errors,
        valid: last.valid,
        q_enable: true,
        q_first: false,
        q_last,
        r_mult_comp: pow_mod(r, MAX_BYTE_COLUMN_NUM as nat, m),
        rlc_quotient: 0,
    }
}

/// `count` padding rows behind `last`, the last of them marked as such, and a blank row.
pub open spec fn padding_rows(last: Row, r: int, m: int, count: nat) -> Seq<Row> {
    Seq::new(count, |i: int| padding_row(last, r, m, i == count - 1)).push(blank_row())
}

/// Appends the padding and the blank row at the end.
pub fn complete_paddings_new<F: Field>(
    witness: &mut Vec<RlpDecoderCircuitConfigWitness<F>>,
    randomness: F,
    num_padding_to_last_row: usize,
)
    requires
        old(witness)@.len() > 0,
    ensures
        rows(final(witness)@) == rows(old(witness)@) + padding_rows(
            rows(old(witness)@).last(),
            randomness.val(),
            F::modulus(),
            num_padding_to_last_row as nat,
        ),
        forall|i: int|
            #![trigger final(witness)@[i]]
            0 <= i < old(witness)@.len() ==> final(witness)@[i] == old(witness)@[i],
{
    let ghost given = witness@;
    let ghost last = rows(given).last();
    let ghost m = F::modulus();
    let ghost r = randomness.val();
    let last_index: usize = witness.len() - 1;
    let acc_rlc_value = witness[last_index].acc_rlc_value;
    let errors = witness[last_index].errors;
    let valid = witness[last_index].valid;
    let r_mult_comp_padding = randomness.pow(MAX_BYTE_COLUMN_NUM as u64);
    let mut i: usize = 0;
    while i < num_padding_to_last_row
        invariant
            i <= num_padding_to_last_row,
            given.len() > 0,
            last == rows(given).last(),
            m == F::modulus(),
            r == randomness.val(),
            acc_rlc_value.val() == last.acc_rlc_value,
            errors@ == last.errors,
            valid == last.valid,
            r_mult_comp_padding.val() == pow_mod(r, MAX_BYTE_COLUMN_NUM as nat, m),
            witness@.len() == given.len() + i,
            forall|j: int|
                #![trigger witness@[j]]
                0 <= j < given.len() ==> witness@[j] == given[j],
            forall|j: int|
                #![trigger witness@[j]]
                given.len() <= j < witness@.len() ==> witness@[j]@ == padding_row(
                    last,
                    r,
                    m,
                    j - given.len() == num_padding_to_last_row - 1,
                ),
        decreases num_padding_to_last_row - i,
    {
        let empty: Vec<u8> = Vec::new();
        let bytes = padded_reversed(&empty);
        assert(bytes@ =~= padded(seq![]));
        let row = RlpDecoderCircuitConfigWitness {
            tx_id: 0,
            tx_type: RlpTxTypeTag::Tx1559Type,
            tx_member: RlpTxFieldTag::Padding,
            complete: true,
            rlp_type: RlpDecodeTypeTag::DoNothing,
            rlp_tx_member_length: 0,
            rlp_bytes_in_row: 0,
            r_mult: F::one(),
            rlp_remain_length: 0,
            value: F::zero(),
            acc_rlc_value,
            bytes,
            errors,
            valid,
            q_enable: true,
            q_first: false,
            q_last: i == num_padding_to_last_row - 1,
            r_mult_comp: r_mult_comp_padding,
            rlc_quotient: F::zero(),
        };
        assert(row@ =~= padding_row(last, r, m, i == num_padding_to_last_row - 1));
        witness.push(row);
        i = i + 1;
    }
    witness.push(RlpDecoderCircuitConfigWitness::default());
    assert(rows(witness@) =~= rows(given) + padding_rows(
        last,
        r,
        m,
        num_padding_to_last_row as nat,
    ));
}

} // verus!
