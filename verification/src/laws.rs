//! What holds of every witness of the decoder.

use crate::accumulate::{padded, rlc_fixed, running_rlc};
use crate::field::pow_mod;
use crate::rlc::{lemma_cancel, lemma_rlc_be_concat, lemma_rlc_be_pad, lemma_rlc_be_range, rlc_be};
use crate::row::{no_errors, row_count, Row, MAX_BYTE_COLUMN_NUM};
use crate::state::{
    decode_rows, finished, lemma_row_count, lemma_step_bounds, list_row_count, list_rows,
    next_tx_id, state_rank, step, step_rows, NUM_BLINDING_ROWS,
};
use crate::tags::RlpTxFieldTag;
use crate::trace::{chained, decode_sites, lemma_sites, Site};
use vstd::prelude::*;

verus! {

/// The bytes of the rows, one row after the other.
pub open spec fn row_bytes(rows: Seq<Row>) -> Seq<u8>
    decreases rows.len(),
{
    if rows.len() == 0 {
        seq![]
    } else {
        row_bytes(rows.drop_last()) + rows.last().bytes
    }
}

/// How many bytes are left in front of a row.
pub open spec fn left_before(site: Site) -> int {
    site.bytes.len() - site.j * MAX_BYTE_COLUMN_NUM
}

/// The sites of the rows for a transaction list, in front of which stands the head row.
pub open spec fn list_sites(bytes: Seq<u8>) -> Seq<Site> {
    decode_sites(RlpTxFieldTag::TxListRlpHeader, 0, bytes)
}

/// The rows for a transaction list are those of its sites, behind the head row.
pub proof fn lemma_list_sites(bytes: Seq<u8>, digest: Seq<u8>, r: int, m: int)
    ensures
        list_rows(bytes, digest, r, m).len() == 1 + list_sites(bytes).len(),
        chained(list_sites(bytes), RlpTxFieldTag::TxListRlpHeader, 0, bytes),
        forall|i: int|
            1 <= i < list_rows(bytes, digest, r, m).len() ==> #[trigger] list_rows(
                bytes,
                digest,
                r,
                m,
            )[i] == list_sites(bytes)[i - 1].row(r, m),
{
    lemma_sites(RlpTxFieldTag::TxListRlpHeader, 0, bytes, r, m);
    let decoded = decode_rows(RlpTxFieldTag::TxListRlpHeader, 0, bytes, r, m);
    let whole = list_rows(bytes, digest, r, m);
    assert forall|i: int| 1 <= i < whole.len() implies #[trigger] whole[i] == list_sites(bytes)[i
        - 1].row(r, m) by {
        assert(whole[i] == decoded[i - 1]);
    }
}

/// The bytes of a row, the bytes behind it, and whether it is valid.
pub proof fn lemma_site_row(site: Site, r: int, m: int)
    requires
        site.is_laid_out(),
    ensures
        ({
            let row = site.row(r, m);
            let start = site.j * MAX_BYTE_COLUMN_NUM;
            let n = row.rlp_bytes_in_row;
            &&& 0 <= n <= MAX_BYTE_COLUMN_NUM
            &&& start + n <= site.bytes.len()
            &&& row.bytes.len() == n
            &&& row.bytes == site.bytes.subrange(start, start + n)
            &&& row.rlp_remain_length == left_before(site) - n
            &&& left_before(site.next()) == row.rlp_remain_length
            &&& site.next().bytes.skip(site.next().j * MAX_BYTE_COLUMN_NUM) == site.bytes.skip(
                start + n,
            )
            &&& row.complete == site.ends_field()
            &&& row.tx_member == site.state
            &&& row.valid == (!site.ends_field() || (site.state != RlpTxFieldTag::DecodeError
                && site.step().next != RlpTxFieldTag::DecodeError))
            &&& row.errors.len() == 4
            &&& site.state != RlpTxFieldTag::DecodeError ==> (row.valid <==> row.errors
                =~= no_errors())
            &&& site.state == RlpTxFieldTag::DecodeError ==> site.ends_field() && row.errors
                =~= no_errors()
        }),
{
    let len = site.bytes.len() as int;
    lemma_step_bounds(site.state, site.bytes, len);
    reveal(step);
    let raw = site.raw();
    let start = site.j * MAX_BYTE_COLUMN_NUM;
    assert(raw.len() == site.step().consumed);
    let row = site.row(r, m);
    let n = row.rlp_bytes_in_row;
    assert(start + n <= raw.len());
    assert(raw.subrange(start, start + n) =~= site.bytes.subrange(start, start + n));
    if site.ends_field() {
        assert(start + n == raw.len());
        assert(site.next().bytes.skip(0) =~= site.bytes.skip(start + n));
    } else {
        assert(n == MAX_BYTE_COLUMN_NUM);
    }
    if site.ends_field() && row.valid == false && site.state != RlpTxFieldTag::DecodeError {
        if site.step().mismatch {
            assert(row.errors[2]);
        } else {
            assert(site.step().error is Some);
            let e = site.step().error->0;
            assert(row.errors[e.ordinal() as int]);
        }
    }
}

/// Up to a row, the rows hold the bytes in front of it.
proof fn lemma_bytes_before(bytes: Seq<u8>, digest: Seq<u8>, r: int, m: int, i: int)
    requires
        0 <= i < list_sites(bytes).len(),
    ensures
        ({
            let site = list_sites(bytes)[i];
            let left = left_before(site);
            &&& 0 <= left <= bytes.len()
            &&& row_bytes(list_rows(bytes, digest, r, m).take(1 + i)) == bytes.take(
                bytes.len() - left,
            )
            &&& site.bytes.skip(site.j * MAX_BYTE_COLUMN_NUM) == bytes.skip(bytes.len() - left)
        }),
    decreases i,
{
    let sites = list_sites(bytes);
    let rows = list_rows(bytes, digest, r, m);
    lemma_list_sites(bytes, digest, r, m);
    if i == 0 {
        reveal_with_fuel(row_bytes, 2);
        assert(rows.take(1).last().bytes =~= seq![]);
        assert(row_bytes(rows.take(1)) =~= seq![]);
        assert(bytes.take(0) =~= seq![]);
        assert(bytes.skip(0) =~= bytes);
    } else {
        lemma_bytes_before(bytes, digest, r, m, i - 1);
        let before = sites[i - 1];
        let site = sites[i];
        assert(before.is_laid_out());
        assert(site == before.next());
        lemma_site_row(before, r, m);
        let row = before.row(r, m);
        assert(rows[i] == row);
        let start = before.j * MAX_BYTE_COLUMN_NUM;
        let n = row.rlp_bytes_in_row;
        let from = bytes.len() - left_before(before);
        assert(rows.take(1 + i).drop_last() =~= rows.take(i));
        assert(before.bytes.skip(start).take(n) =~= row.bytes);
        assert(bytes.skip(from).take(n) =~= bytes.subrange(from, from + n));
        assert(bytes.take(from) + bytes.subrange(from, from + n) =~= bytes.take(from + n));
        assert(before.bytes.skip(start).skip(n) =~= before.bytes.skip(start + n));
        assert(bytes.skip(from).skip(n) =~= bytes.skip(from + n));
    }
}

/// The rows for a transaction list hold its bytes in order, each of them once, and leave none
/// over.
pub proof fn law_rows_hold_the_bytes(bytes: Seq<u8>, digest: Seq<u8>, r: int, m: int)
    ensures
        row_bytes(list_rows(bytes, digest, r, m)) == bytes,
        list_rows(bytes, digest, r, m).last().rlp_remain_length == 0,
{
    let rows = list_rows(bytes, digest, r, m);
    let sites = list_sites(bytes);
    lemma_list_sites(bytes, digest, r, m);
    let i = sites.len() - 1;
    let site = sites[i];
    lemma_bytes_before(bytes, digest, r, m, i);
    assert(site.is_laid_out());
    lemma_site_row(site, r, m);
    lemma_step_bounds(site.state, site.bytes, site.bytes.len() as int);
    let row = site.row(r, m);
    assert(rows.last() == row);
    assert(rows.drop_last() =~= rows.take(1 + i));
    let start = site.j * MAX_BYTE_COLUMN_NUM;
    let n = row.rlp_bytes_in_row;
    let from = bytes.len() - left_before(site);
    assert(site.bytes.skip(start).take(n) =~= row.bytes);
    assert(bytes.skip(from).take(n) =~= bytes.subrange(from, from + n));
    assert(bytes.take(from) + bytes.subrange(from, from + n) =~= bytes);
}

/// Whether the last row is valid does not depend on the field.
pub proof fn lemma_last_valid(
    bytes: Seq<u8>,
    digest: Seq<u8>,
    r: int,
    m: int,
    other_r: int,
    other_m: int,
)
    ensures
        list_rows(bytes, digest, r, m).last().valid == decode_rows(
            RlpTxFieldTag::TxListRlpHeader,
            0,
            bytes,
            other_r,
            other_m,
        ).last().valid,
{
    lemma_list_sites(bytes, digest, r, m);
    lemma_list_sites(bytes, digest, other_r, other_m);
    let n = list_sites(bytes).len() as int;
    let site = list_sites(bytes)[n - 1];
    assert(site.is_laid_out());
    lemma_site_row(site, r, m);
    lemma_site_row(site, other_r, other_m);
    assert(list_rows(bytes, digest, r, m)[n] == site.row(r, m));
    assert(list_rows(bytes, digest, other_r, other_m)[n] == site.row(other_r, other_m));
}

/// Each row leaves over what the row before it did, less its own bytes.
pub proof fn law_remaining_length(bytes: Seq<u8>, digest: Seq<u8>, r: int, m: int, i: int)
    requires
        1 <= i < list_rows(bytes, digest, r, m).len(),
    ensures
        ({
            let rows = list_rows(bytes, digest, r, m);
            &&& rows[i].rlp_remain_length == rows[i - 1].rlp_remain_length - rows[i].bytes.len()
            &&& rows[i].bytes.len() == rows[i].rlp_bytes_in_row
            &&& rows[i].rlp_bytes_in_row <= MAX_BYTE_COLUMN_NUM
        }),
{
    lemma_list_sites(bytes, digest, r, m);
    let sites = list_sites(bytes);
    assert(sites[i - 1].is_laid_out());
    lemma_site_row(sites[i - 1], r, m);
    if i > 1 {
        assert(sites[i - 2].is_laid_out());
        assert(sites[i - 1] == sites[i - 2].next());
        lemma_site_row(sites[i - 2], r, m);
        assert(list_rows(bytes, digest, r, m)[i - 1] == sites[i - 2].row(r, m));
    }
}

/// A decoded row is valid exactly when no error is flagged in it and no error lies before it.
pub proof fn law_errors_make_invalid(bytes: Seq<u8>, digest: Seq<u8>, r: int, m: int, i: int)
    requires
        1 <= i < list_rows(bytes, digest, r, m).len(),
    ensures
        ({
            let row = list_rows(bytes, digest, r, m)[i];
            row.valid <==> row.tx_member != RlpTxFieldTag::DecodeError && row.errors == no_errors()
        }),
{
    lemma_list_sites(bytes, digest, r, m);
    let site = list_sites(bytes)[i - 1];
    assert(site.is_laid_out());
    lemma_site_row(site, r, m);
}

/// The row behind an invalid one is invalid.
proof fn lemma_invalid_next(bytes: Seq<u8>, digest: Seq<u8>, r: int, m: int, i: int)
    requires
        1 <= i < list_rows(bytes, digest, r, m).len() - 1,
        !list_rows(bytes, digest, r, m)[i].valid,
    ensures
        !list_rows(bytes, digest, r, m)[i + 1].valid,
        list_rows(bytes, digest, r, m)[i + 1].tx_member == RlpTxFieldTag::DecodeError,
{
    lemma_list_sites(bytes, digest, r, m);
    let sites = list_sites(bytes);
    assert(sites[i - 1].is_laid_out());
    assert(sites[i].is_laid_out());
    lemma_site_row(sites[i - 1], r, m);
    lemma_site_row(sites[i], r, m);
    assert(sites[i] == sites[i - 1].next());
    reveal(step);
    assert(list_rows(bytes, digest, r, m)[i + 1] == sites[i].row(r, m));
}

/// Once a row is invalid, all the decoded rows behind it are, and pass over the rest.
pub proof fn law_invalid_for_good(bytes: Seq<u8>, digest: Seq<u8>, r: int, m: int, i: int, j: int)
    requires
        1 <= i < j < list_rows(bytes, digest, r, m).len(),
        !list_rows(bytes, digest, r, m)[i].valid,
    ensures
        !list_rows(bytes, digest, r, m)[j].valid,
        list_rows(bytes, digest, r, m)[j].tx_member == RlpTxFieldTag::DecodeError,
    decreases j - i,
{
    if j == i + 1 {
        lemma_invalid_next(bytes, digest, r, m, i);
    } else {
        law_invalid_for_good(bytes, digest, r, m, i, j - 1);
        lemma_invalid_next(bytes, digest, r, m, j - 1);
    }
}

/// The transactions are numbered: a row has the number of the row before it, and the next one
/// where a transaction starts.
pub proof fn law_transactions_are_numbered(bytes: Seq<u8>, digest: Seq<u8>, r: int, m: int, i: int)
    requires
        1 <= i < list_rows(bytes, digest, r, m).len(),
    ensures
        ({
            let rows = list_rows(bytes, digest, r, m);
            rows[i].tx_id == if rows[i].tx_member == RlpTxFieldTag::TypedTxHeader
                && rows[i].rlp_type != crate::tags::RlpDecodeTypeTag::PartialRlp {
                rows[i - 1].tx_id + 1
            } else {
                rows[i - 1].tx_id
            }
        }),
{
    lemma_list_sites(bytes, digest, r, m);
    let sites = list_sites(bytes);
    let rows = list_rows(bytes, digest, r, m);
    assert(sites[i - 1].is_laid_out());
    assert(rows[i] == sites[i - 1].row(r, m));
    if i > 1 {
        assert(sites[i - 2].is_laid_out());
        assert(sites[i - 1] == sites[i - 2].next());
        assert(rows[i - 1] == sites[i - 2].row(r, m));
    }
}

/// From a state on, there are no more rows than bytes, but for those that tell of their end.
proof fn lemma_rows_bounded(state: RlpTxFieldTag, tx_id: int, bytes: Seq<u8>, r: int, m: int)
    ensures
        decode_rows(state, tx_id, bytes, r, m).len() <= bytes.len() + state_rank(state),
    decreases bytes.len(), state_rank(state),
{
    if state != RlpTxFieldTag::Padding {
        let len = bytes.len() as int;
        let s = step(state, bytes, len);
        lemma_step_bounds(state, bytes, len);
        assert(step_rows(state, tx_id, bytes, len, r, m).len() == row_count(s.consumed as nat)) by {
            reveal(step_rows);
        }
        assert(state == RlpTxFieldTag::DecodeError ==> state_rank(s.next) <= 1) by {
            reveal(step);
        }
        lemma_rows_bounded(s.next, next_tx_id(tx_id, s.next), bytes.skip(s.consumed), r, m);
    }
}

/// A transaction list takes at most one row for each byte, and three more.
pub proof fn law_rows_are_bounded(bytes: Seq<u8>)
    ensures
        list_row_count(bytes) <= bytes.len() + 3,
{
    lemma_rows_bounded(RlpTxFieldTag::TxListRlpHeader, 0, bytes, 0, 1);
}

/// The witness fills a circuit of `k` rows up to the blinding rows. Its last row but one is marked
/// as the last, is padding, and tells whether the list was accepted; the last one is blank.
pub proof fn law_witness_ends_in_padding(
    before: Seq<Row>,
    after: Seq<Row>,
    r: int,
    m: int,
    k: int,
)
    requires
        finished(before, after, r, m, k),
        k > before.len() + 1 + NUM_BLINDING_ROWS,
    ensures
        after.len() == k - NUM_BLINDING_ROWS,
        after[after.len() - 2].q_last,
        after[after.len() - 2].tx_member == RlpTxFieldTag::Padding,
        after[after.len() - 2].valid == before.last().valid,
        after[after.len() - 2].acc_rlc_value == after[before.len() - 1].acc_rlc_value,
        after.last() == crate::row::blank_row(),
{
    let n = before.len() as int;
    if n > 1 {
        assert(rlc_fixed(before, after.take(n), n - 1, r, m));
    }
}

/// The bytes of a row, filled up with zeros.
proof fn lemma_padded(bytes: Seq<u8>, r: int, m: int)
    requires
        m > 0,
        bytes.len() <= MAX_BYTE_COLUMN_NUM,
    ensures
        rlc_be(padded(bytes), r, m) == (rlc_be(bytes, r, m) * pow_mod(
            r,
            (MAX_BYTE_COLUMN_NUM - bytes.len()) as nat,
            m,
        )) % m,
{
    let k = (MAX_BYTE_COLUMN_NUM - bytes.len()) as nat;
    assert(padded(bytes) =~= bytes + Seq::new(k, |i: int| 0u8));
    lemma_rlc_be_pad(bytes, k, r, m);
}

/// The powers of a decoded row.
pub proof fn lemma_row_powers(bytes: Seq<u8>, digest: Seq<u8>, r: int, m: int, i: int)
    requires
        1 <= i < list_rows(bytes, digest, r, m).len(),
    ensures
        ({
            let row = list_rows(bytes, digest, r, m)[i];
            &&& row.r_mult == pow_mod(r, row.bytes.len(), m)
            &&& row.r_mult_comp == pow_mod(
                r,
                (MAX_BYTE_COLUMN_NUM - row.bytes.len()) as nat,
                m,
            )
        }),
{
    lemma_list_sites(bytes, digest, r, m);
    let site = list_sites(bytes)[i - 1];
    assert(site.is_laid_out());
    lemma_site_row(site, r, m);
}

/// The quotient in a row is the combination of its bytes.
pub proof fn law_quotient_combines_the_row(
    bytes: Seq<u8>,
    digest: Seq<u8>,
    after: Seq<Row>,
    r: int,
    m: int,
    k: int,
    i: int,
)
    requires
        m > 1,
        finished(list_rows(bytes, digest, r, m), after, r, m, k),
        1 <= i < list_rows(bytes, digest, r, m).len(),
    ensures
        after[i].rlc_quotient == rlc_be(list_rows(bytes, digest, r, m)[i].bytes, r, m),
{
    let before = list_rows(bytes, digest, r, m);
    let n = before.len() as int;
    let fixed = after.take(n);
    assert(rlc_fixed(before, fixed, i, r, m));
    assert(fixed[i] == after[i]);
    law_remaining_length(bytes, digest, r, m, i);
    lemma_row_powers(bytes, digest, r, m, i);
    lemma_padded(before[i].bytes, r, m);
    lemma_rlc_be_range(before[i].bytes, r, m);
    lemma_cancel(
        after[i].rlc_quotient,
        rlc_be(before[i].bytes, r, m),
        before[i].r_mult_comp,
        m,
    );
}

/// The combination that runs through the rows is that of all the bytes so far.
pub proof fn law_running_combination(
    bytes: Seq<u8>,
    digest: Seq<u8>,
    after: Seq<Row>,
    r: int,
    m: int,
    k: int,
    i: int,
)
    requires
        m > 1,
        finished(list_rows(bytes, digest, r, m), after, r, m, k),
        0 <= i < list_rows(bytes, digest, r, m).len(),
    ensures
        after[i].acc_rlc_value == rlc_be(
            row_bytes(list_rows(bytes, digest, r, m).take(i + 1)),
            r,
            m,
        ),
    decreases i,
{
    let before = list_rows(bytes, digest, r, m);
    let fixed = after.take(before.len() as int);
    assert(fixed[i] == after[i]);
    assert(before.take(i + 1).drop_last() =~= before.take(i));
    if i == 0 {
        reveal_with_fuel(row_bytes, 2);
        assert(row_bytes(before.take(1)) =~= seq![]);
    } else {
        law_running_combination(bytes, digest, after, r, m, k, i - 1);
        law_quotient_combines_the_row(bytes, digest, after, r, m, k, i);
        assert(rlc_fixed(before, fixed, i, r, m));
        assert(fixed[i - 1] == after[i - 1]);
        lemma_row_powers(bytes, digest, r, m, i);
        let front = row_bytes(before.take(i));
        lemma_rlc_be_concat(front, before[i].bytes, r, m);
        if i == 1 {
            assert(running_rlc(fixed, i) == 0);
            reveal_with_fuel(row_bytes, 2);
            assert(front =~= seq![]);
        }
    }
}

/// A finished witness holds the bytes that its rows held before.
proof fn lemma_finished_bytes(before: Seq<Row>, after: Seq<Row>, r: int, m: int, k: int, i: int)
    requires
        finished(before, after, r, m, k),
        before[0].bytes == Seq::<u8>::empty(),
        1 <= i <= before.len(),
    ensures
        row_bytes(after.subrange(1, i)) == row_bytes(before.take(i)),
    decreases i,
{
    assert(before.take(i).drop_last() =~= before.take(i - 1));
    if i == 1 {
        reveal_with_fuel(row_bytes, 2);
        assert(row_bytes(before.take(1)) =~= seq![]);
    } else {
        lemma_finished_bytes(before, after, r, m, k, i - 1);
        let fixed = after.take(before.len() as int);
        assert(rlc_fixed(before, fixed, i - 1, r, m));
        assert(fixed[i - 1] == after[i - 1]);
        assert(after.subrange(1, i).drop_last() =~= after.subrange(1, i - 1));
    }
}

/// The witness for a transaction list holds its bytes between the first row and the padding, which
/// starts where none is left.
pub proof fn law_witness_holds_the_bytes(
    bytes: Seq<u8>,
    digest: Seq<u8>,
    after: Seq<Row>,
    r: int,
    m: int,
    k: int,
)
    requires
        finished(list_rows(bytes, digest, r, m), after, r, m, k),
        k > list_row_count(bytes) + 1 + NUM_BLINDING_ROWS,
    ensures
        ({
            let p = list_row_count(bytes) as int;
            &&& 1 < p < after.len()
            &&& forall|i: int| 1 <= i < p ==> (#[trigger] after[i]).tx_member
                != RlpTxFieldTag::Padding
            &&& after[p].tx_member == RlpTxFieldTag::Padding
            &&& after[p - 1].rlp_remain_length == 0
            &&& row_bytes(after.subrange(1, p)) == bytes
        }),
{
    let before = list_rows(bytes, digest, r, m);
    let sites = list_sites(bytes);
    let p = list_row_count(bytes) as int;
    lemma_row_count(RlpTxFieldTag::TxListRlpHeader, 0, bytes, r, m, 0, 1);
    lemma_list_sites(bytes, digest, r, m);
    law_rows_hold_the_bytes(bytes, digest, r, m);
    lemma_finished_bytes(before, after, r, m, k, p);
    assert(before.take(p) =~= before);
    let fixed = after.take(p);
    assert forall|i: int| 1 <= i < p implies (#[trigger] after[i]).tx_member
        != RlpTxFieldTag::Padding by {
        assert(rlc_fixed(before, fixed, i, r, m));
        assert(fixed[i] == after[i]);
        assert(sites[i - 1].is_laid_out());
        lemma_site_row(sites[i - 1], r, m);
    }
    assert(rlc_fixed(before, fixed, p - 1, r, m));
    assert(fixed[p - 1] == after[p - 1]);
}

/// The witness ends in the combination of the whole list.
pub proof fn law_combination_of_the_list(
    bytes: Seq<u8>,
    digest: Seq<u8>,
    after: Seq<Row>,
    r: int,
    m: int,
    k: int,
)
    requires
        m > 1,
        finished(list_rows(bytes, digest, r, m), after, r, m, k),
        k > list_rows(bytes, digest, r, m).len() + 1 + NUM_BLINDING_ROWS,
    ensures
        after[after.len() - 2].acc_rlc_value == rlc_be(bytes, r, m),
{
    let before = list_rows(bytes, digest, r, m);
    law_witness_ends_in_padding(before, after, r, m, k);
    law_running_combination(bytes, digest, after, r, m, k, before.len() - 1);
    assert(before.take(before.len() as int) =~= before);
    law_rows_hold_the_bytes(bytes, digest, r, m);
}

} // verus!
