//! How the rows and cells of a witness are filled.

use crate::accumulate::{padding_rows, rlc_fixed};
use crate::assign::{cell_value, row_before, row_env};
use crate::circuit::{
    call_data_lengths, decoded_lengths, input_lengths, is_log2_ceil, is_tx_list,
    lemma_pow2_monotone, listed_strings, min_rows, transaction_input,
};
use crate::config::{Column, Comparison};
use crate::expression::Challenge;
use crate::field::{pow_mod, Field};
use crate::laws::{lemma_list_sites, lemma_site_row, list_sites};
use crate::rlc::{lemma_rlc_be_concat, rlc_be};
use crate::rlp_decoder_tables::bit;
use crate::row::{blank_row, no_errors, RlpDecoderCircuitConfigWitness, Row};
use crate::state::{finished, lemma_row_count, list_row_count, list_rows, NUM_BLINDING_ROWS};
use crate::tags::{tx_member_at, RlpDecodeTypeTag, RlpTxFieldTag, RlpTxTypeTag};
use crate::transaction::Transaction;
use crate::witness::Block;
use vstd::arithmetic::power2::pow2;
use vstd::prelude::*;

verus! {

/// Each cell of a row holds what the row says: its numbers, its bytes with zeros behind them, and
/// a flag for each decoding type, field and error.
pub proof fn law_cells_hold_the_row(prev: Row, row: Row, m: int, i: usize)
    ensures
        cell_value(prev, row, Column::TxId, m) == row.tx_id,
        cell_value(prev, row, Column::TxType, m) == row.tx_type.ordinal(),
        cell_value(prev, row, Column::TxMember, m) == row.tx_member.ordinal(),
        cell_value(prev, row, Column::Complete, m) == bit(row.complete),
        cell_value(prev, row, Column::RlpType, m) == row.rlp_type.ordinal(),
        cell_value(prev, row, Column::QRlpType(i), m) == 1 <==> cell_value(
            prev,
            row,
            Column::RlpType,
            m,
        ) == i,
        cell_value(prev, row, Column::QRlpType(i), m) == 0 || cell_value(
            prev,
            row,
            Column::QRlpType(i),
            m,
        ) == 1,
        cell_value(prev, row, Column::QTxMember(i), m) == 1 <==> cell_value(
            prev,
            row,
            Column::TxMember,
            m,
        ) == i,
        cell_value(prev, row, Column::QTxMember(i), m) == 0 || cell_value(
            prev,
            row,
            Column::QTxMember(i),
            m,
        ) == 1,
        cell_value(prev, row, Column::TxMemberLength, m) == row.rlp_tx_member_length,
        cell_value(prev, row, Column::BytesInRow, m) == row.rlp_bytes_in_row,
        cell_value(prev, row, Column::RMult, m) == row.r_mult,
        cell_value(prev, row, Column::RemainLength, m) == row.rlp_remain_length,
        cell_value(prev, row, Column::Value, m) == row.value,
        cell_value(prev, row, Column::AccRlcValue, m) == row.acc_rlc_value,
        i < row.bytes.len() ==> cell_value(prev, row, Column::Byte(i), m) == row.bytes[i as int],
        i >= row.bytes.len() ==> cell_value(prev, row, Column::Byte(i), m) == 0,
        i < 4 ==> cell_value(prev, row, Column::Error(i), m) == bit(row.errors[i as int]),
        cell_value(prev, row, Column::Valid, m) == bit(row.valid),
        cell_value(prev, row, Column::QEnable, m) == bit(row.q_enable),
        cell_value(prev, row, Column::QFirst, m) == bit(row.q_first),
        cell_value(prev, row, Column::QLast, m) == bit(row.q_last),
        cell_value(prev, row, Column::RMultComp, m) == row.r_mult_comp,
        cell_value(prev, row, Column::RlcQuotient, m) == row.rlc_quotient,
{
}

/// The flags of the comparisons tell whether the second byte is above 55, above 0 and below 128,
/// whether more or less than a row was left, and whether the field is no longer than what was left.
pub proof fn law_cells_tell_the_order(prev: Row, row: Row, m: int)
    ensures
        ({
            let byte1 = cell_value(prev, row, Column::Byte(1), m);
            let left = cell_value(blank_row(), prev, Column::RemainLength, m);
            let length = cell_value(prev, row, Column::TxMemberLength, m);
            let flag = |c: Comparison| cell_value(prev, row, Column::IsLt(c), m);
            &&& flag(Comparison::VGt55) == bit(byte1 > 55)
            &&& flag(Comparison::VGt0) == bit(byte1 > 0)
            &&& flag(Comparison::VLt128) == bit(byte1 < 128)
            &&& flag(Comparison::RemainLengthGt33) == bit(left > 33)
            &&& flag(Comparison::RemainLengthLt33) == bit(left < 33)
            &&& flag(Comparison::RemainLengthGeLength) == bit(length <= left)
        }),
{
}

/// Numbers that stand for decoding types, fields and types of transactions tell them apart.
pub proof fn law_numbers_tell_apart(
    a: RlpDecodeTypeTag,
    b: RlpDecodeTypeTag,
    f: RlpTxFieldTag,
    g: RlpTxFieldTag,
    s: RlpTxTypeTag,
    t: RlpTxTypeTag,
)
    ensures
        a.ordinal() == b.ordinal() <==> a == b,
        f.ordinal() == g.ordinal() <==> f == g,
        s.ordinal() == t.ordinal() <==> s == t,
{
}

/// The fields of all types of transactions, with the first one numbered 0.
pub open spec fn numbered_fields() -> Seq<RlpTxFieldTag> {
    seq![
        RlpTxFieldTag::TxListRlpHeader,
        RlpTxFieldTag::TxRlpHeader,
        RlpTxFieldTag::Nonce,
        RlpTxFieldTag::GasPrice,
        RlpTxFieldTag::Gas,
        RlpTxFieldTag::To,
        RlpTxFieldTag::Value,
        RlpTxFieldTag::Data,
        RlpTxFieldTag::SignV,
        RlpTxFieldTag::SignR,
        RlpTxFieldTag::SignS,
        RlpTxFieldTag::DecodeError,
        RlpTxFieldTag::Padding,
        RlpTxFieldTag::TypedTxHeader,
        RlpTxFieldTag::TxType,
        RlpTxFieldTag::ChainID,
        RlpTxFieldTag::GasTipCap,
        RlpTxFieldTag::GasFeeCap,
        RlpTxFieldTag::AccessList,
    ]
}

/// The decoding types, with the first one numbered 0: those of strings before those of lists, and
/// shorter headers before longer ones.
pub open spec fn numbered_types() -> Seq<RlpDecodeTypeTag> {
    seq![
        RlpDecodeTypeTag::DoNothing,
        RlpDecodeTypeTag::SingleByte,
        RlpDecodeTypeTag::NullValue,
        RlpDecodeTypeTag::ShortStringValue,
        RlpDecodeTypeTag::ShortStringBytes,
        RlpDecodeTypeTag::LongString1,
        RlpDecodeTypeTag::LongString2,
        RlpDecodeTypeTag::LongString3,
        RlpDecodeTypeTag::EmptyList,
        RlpDecodeTypeTag::ShortList,
        RlpDecodeTypeTag::LongList1,
        RlpDecodeTypeTag::LongList2,
        RlpDecodeTypeTag::LongList3,
        RlpDecodeTypeTag::PartialRlp,
    ]
}

/// A number gives back the field or the decoding type that it stands for.
pub proof fn law_numbers_are_given_back(i: int, f: RlpTxFieldTag, t: RlpDecodeTypeTag)
    ensures
        numbered_fields()[f.ordinal() as int] == f,
        numbered_types()[t.ordinal() as int] == t,
        0 <= i < 19 ==> numbered_fields()[i].ordinal() == i && tx_member_at(i)
            == numbered_fields()[i],
        0 <= i < 14 ==> numbered_types()[i].ordinal() == i,
{
}

/// Nothing is set in a row.
pub open spec fn is_blank(row: Row) -> bool {
    &&& row.tx_id == 0
    &&& row.tx_type == RlpTxTypeTag::TxLegacyType
    &&& row.tx_member == RlpTxFieldTag::TxListRlpHeader
    &&& !row.complete
    &&& row.rlp_type == RlpDecodeTypeTag::DoNothing
    &&& row.rlp_tx_member_length == 0
    &&& row.rlp_bytes_in_row == 0
    &&& row.r_mult == 0
    &&& row.rlp_remain_length == 0
    &&& row.value == 0
    &&& row.acc_rlc_value == 0
    &&& row.bytes.len() == 0
    &&& row.errors.len() == 4
    &&& !row.errors[0] && !row.errors[1] && !row.errors[2] && !row.errors[3]
    &&& !row.valid
    &&& !row.q_enable && !row.q_first && !row.q_last
    &&& row.r_mult_comp == 0
    &&& row.rlc_quotient == 0
}

/// A row says what its witness holds.
pub proof fn law_row_is_that_of_the_witness<F: Field>(w: RlpDecoderCircuitConfigWitness<F>)
    ensures
        w@.tx_id == w.tx_id,
        w@.tx_type == w.tx_type,
        w@.tx_member == w.tx_member,
        w@.complete == w.complete,
        w@.rlp_type == w.rlp_type,
        w@.rlp_tx_member_length == w.rlp_tx_member_length,
        w@.rlp_bytes_in_row == w.rlp_bytes_in_row,
        w@.r_mult == w.r_mult.val(),
        w@.rlp_remain_length == w.rlp_remain_length,
        w@.value == w.value.val(),
        w@.acc_rlc_value == w.acc_rlc_value.val(),
        w@.bytes == w.bytes@,
        w@.errors == w.errors@,
        w@.valid == w.valid,
        w@.q_enable == w.q_enable,
        w@.q_first == w.q_first,
        w@.q_last == w.q_last,
        w@.r_mult_comp == w.r_mult_comp.val(),
        w@.rlc_quotient == w.rlc_quotient.val(),
{
}

/// Filling in the combinations leaves all the rest of the decoded rows as it was.
pub proof fn law_combinations_leave_the_rest(
    before: Seq<Row>,
    after: Seq<Row>,
    r: int,
    m: int,
    k: int,
    i: int,
)
    requires
        finished(before, after, r, m, k),
        0 <= i < before.len(),
    ensures
        after[i].tx_id == before[i].tx_id,
        after[i].tx_type == before[i].tx_type,
        after[i].tx_member == before[i].tx_member,
        after[i].complete == before[i].complete,
        after[i].rlp_type == before[i].rlp_type,
        after[i].rlp_tx_member_length == before[i].rlp_tx_member_length,
        after[i].rlp_bytes_in_row == before[i].rlp_bytes_in_row,
        after[i].r_mult == before[i].r_mult,
        after[i].rlp_remain_length == before[i].rlp_remain_length,
        after[i].value == before[i].value,
        after[i].bytes == before[i].bytes,
        after[i].errors == before[i].errors,
        after[i].valid == before[i].valid,
        after[i].q_enable == before[i].q_enable,
        after[i].q_first == before[i].q_first,
        after[i].q_last == before[i].q_last,
        after[i].r_mult_comp == before[i].r_mult_comp,
        i == 0 ==> after[i].acc_rlc_value == before[i].acc_rlc_value,
        i == 0 ==> after[i].rlc_quotient == before[i].rlc_quotient,
{
    let fixed = after.take(before.len() as int);
    assert(fixed[i] == after[i]);
    if i > 0 {
        assert(rlc_fixed(before, fixed, i, r, m));
    }
}

/// The witness of a list: the first row holds its length and the combination of its digest and is
/// not enabled; of the others, but for the last, all are enabled, the second one is marked as the
/// first, and the last but one as the last. From the padding on there is nothing: no bytes, no
/// error, and the validity and the combination of the last row with bytes. The last row is blank.
pub proof fn law_witness_is_laid_out(
    bytes: Seq<u8>,
    digest: Seq<u8>,
    after: Seq<Row>,
    r: int,
    m: int,
    k: int,
    i: int,
)
    requires
        finished(list_rows(bytes, digest, r, m), after, r, m, k),
        k > list_row_count(bytes) + 1 + NUM_BLINDING_ROWS,
        1 <= i < after.len() - 1,
    ensures
        after.len() == k - 64,
        after[0].value == rlc_be(digest, r, m),
        after[0].rlp_remain_length == bytes.len(),
        after[0].bytes.len() == 0,
        is_blank((Row { value: 0, rlp_remain_length: 0, ..after[0] })),
        !after[0].q_enable && !after[0].q_first && !after[0].q_last,
        after[i].q_enable,
        after[i].q_first <==> i == 1,
        after[i].q_last <==> i == after.len() - 2,
        after[i].tx_type == RlpTxTypeTag::Tx1559Type,
        i >= list_row_count(bytes) ==> {
            let last = after[list_row_count(bytes) - 1];
            let row = after[i];
            &&& row.tx_member == RlpTxFieldTag::Padding
            &&& row.tx_id == 0
            &&& row.rlp_type == RlpDecodeTypeTag::DoNothing
            &&& row.value == 0
            &&& row.rlc_quotient == 0
            &&& row.r_mult == 1
            &&& row.r_mult_comp == pow_mod(r, 33, m)
            &&& row.bytes.len() == 33
            &&& forall|j: int| 0 <= j < row.bytes.len() ==> #[trigger] row.bytes[j] == 0
            &&& row.rlp_bytes_in_row == 0
            &&& row.rlp_tx_member_length == 0
            &&& row.rlp_remain_length == 0
            &&& row.errors == no_errors()
            &&& row.complete
            &&& row.valid == last.valid
            &&& row.acc_rlc_value == last.acc_rlc_value
        },
        is_blank(after.last()),
        after.last() == blank_row(),
{
    let before = list_rows(bytes, digest, r, m);
    let sites = list_sites(bytes);
    let p = list_row_count(bytes) as int;
    lemma_row_count(RlpTxFieldTag::TxListRlpHeader, 0, bytes, r, m, 0, 1);
    lemma_list_sites(bytes, digest, r, m);
    let fixed = after.take(p);
    let count = (k - p - 1 - NUM_BLINDING_ROWS) as nat;
    let pads = padding_rows(fixed.last(), r, m, count);
    assert(after == fixed + pads);
    assert(after[0] == before[0]);
    if i < p {
        assert(rlc_fixed(before, fixed, i, r, m));
        assert(fixed[i] == after[i]);
        let site = sites[i - 1];
        assert(site.is_laid_out());
        lemma_site_row(site, r, m);
        crate::acceptance::lemma_site_state(bytes, i - 1);
        if i == 1 {
            assert(site.state == RlpTxFieldTag::TxListRlpHeader);
            assert(site.step().consumed <= 4) by {
                reveal(crate::state::step);
            }
            crate::state::lemma_step_bounds(site.state, site.bytes, site.bytes.len() as int);
            assert(site.j == 0);
            assert(site.raw().len() == site.step().consumed);
            assert(site.ends_field());
        }
    } else {
        assert(after[i] == pads[i - p]);
        assert(fixed.last() == after[p - 1]);
        let site = sites[p - 2];
        assert(site == sites.last());
        assert(site.is_laid_out());
        lemma_site_row(site, r, m);
        assert(rlc_fixed(before, fixed, p - 1, r, m));
        assert(fixed[p - 1] == fixed.last());
        assert(before[p - 1] == site.row(r, m));
        assert(after[i].errors =~= no_errors()) by {
            reveal(crate::state::step);
        }
    }
}

/// The size of a circuit is the least power of two that holds its rows.
pub proof fn law_size_is_the_least_power(degree: nat, other: nat, rows: int)
    requires
        is_log2_ceil(degree, rows),
    ensures
        rows <= pow2(degree),
        rows <= pow2(other) ==> degree <= other,
{
    if other < degree {
        lemma_pow2_monotone(other, (degree - 1) as nat);
    }
}

/// A row is seen behind the row before it, and the first one behind the last: its cells are filled
/// from the two, and the constraints find the cells of both.
pub proof fn law_rows_are_seen_in_order(rows: Seq<Row>, i: int, c: Column, r: int, m: int)
    requires
        0 <= i < rows.len(),
    ensures
        i > 0 ==> row_before(rows, i) == rows[i - 1],
        i == 0 ==> row_before(rows, i) == rows.last(),
        row_env(rows, i, r, m).cur(c) == cell_value(row_before(rows, i), rows[i], c, m),
        i > 0 ==> row_env(rows, i, r, m).prev(c) == row_env(rows, i - 1, r, m).cur(c),
        i + 1 < rows.len() ==> row_env(rows, i, r, m).next(c) == row_env(rows, i + 1, r, m).cur(c),
        row_env(rows, i, r, m).modulus == m,
        (row_env(rows, i, r, m).challenge)(Challenge::KeccakInput) == r,
{
}

/// A transaction with data of `n` bytes adds the rows of its fields and of its data, and no
/// transactions take the rows around, the fixed table and the blinding rows.
pub proof fn law_each_transaction_adds_rows(lengths: Seq<nat>, n: nat)
    ensures
        min_rows(lengths.push(n)) == min_rows(lengths) + 20 + n / 33,
        min_rows(seq![]) == 2 + 5212 + 64,
{
    assert(lengths.push(n).drop_last() =~= lengths);
    assert((lengths.len() + 1) * 19 == lengths.len() * 19 + 19);
}

/// The lengths that the rows are counted for are those of the data of the transactions.
pub proof fn law_lengths_are_those_of_the_data(block: Block, txs: Seq<Transaction>, i: int)
    requires
        0 <= i,
    ensures
        call_data_lengths(block).len() == block.txs@.len(),
        i < block.txs@.len() ==> call_data_lengths(block)[i] == block.txs@[i].call_data@.len(),
        input_lengths(txs).len() == txs.len(),
        i < txs.len() ==> input_lengths(txs)[i] == txs[i].input@.len(),
{
}

/// A list is one of dynamic fee transactions exactly where its strings can be read, each of them
/// starts with the type 2, and each can be read as a transaction; the lengths are those of the data
/// that is read.
pub proof fn law_list_is_one_of_transactions(bytes: Seq<u8>)
    ensures
        is_tx_list(bytes) <==> listed_strings(bytes) is Some && forall|i: int|
            0 <= i < listed_strings(bytes)->0.len() ==> {
                let s = #[trigger] listed_strings(bytes)->0[i];
                s.len() > 0 && s[0] == 2 && transaction_input(s) is Some
            },
        is_tx_list(bytes) ==> {
            let (strings, lengths) = (
                listed_strings(bytes)->0,
                decoded_lengths(listed_strings(bytes)->0),
            );
            &&& lengths.len() == strings.len()
            &&& forall|i: int|
                0 <= i < strings.len() ==> #[trigger] lengths[i] == transaction_input(
                    strings[i],
                )->0.len()
        },
{
}

/// One byte of a combination counts as many powers of the challenge as bytes stand behind it, and
/// the combination of no bytes is zero.
pub proof fn law_combination_counts_powers(front: Seq<u8>, x: u8, back: Seq<u8>, r: int, m: int)
    requires
        m > 0,
    ensures
        rlc_be(front + seq![x] + back, r, m) == ((rlc_be(front, r, m) * r + x) * pow_mod(
            r,
            back.len(),
            m,
        ) + rlc_be(back, r, m)) % m,
        rlc_be(seq![], r, m) == 0,
        rlc_be(seq![x], r, m) == x as int % m,
{
    let head = front + seq![x];
    lemma_rlc_be_concat(head, back, r, m);
    assert(head.drop_last() =~= front);
    let (a, p, b) = (
        rlc_be(front, r, m) * r + x,
        pow_mod(r, back.len(), m),
        rlc_be(back, r, m),
    );
    assert(rlc_be(head, r, m) == a % m);
    vstd::arithmetic::div_mod::lemma_mul_mod_noop_left(a, p, m);
    vstd::arithmetic::div_mod::lemma_add_mod_noop((a % m) * p, b, m);
    vstd::arithmetic::div_mod::lemma_add_mod_noop(a * p, b, m);
    reveal_with_fuel(rlc_be, 2);
    assert(seq![x].drop_last() =~= seq![]);
    assert(0 * r == 0);
}

} // verus!
