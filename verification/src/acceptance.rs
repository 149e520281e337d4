//! Which witnesses of the decoder satisfy its circuit.

use crate::accumulate::{padded, padding_row, padding_rows, rlc_fixed, running_rlc};
use crate::assign::{row_before, row_env};
use crate::completeness::{
    bounded, byte_at, combines, decode_error_fits, errors_show, first_row_fits,
    lemma_comparisons, lemma_disabled_rules, lemma_lookups, lemma_row_env, lemma_rules,
    lookups_fit, member_fits, padding_fits, row_fits, tx_header_fits, typed_header_fits, validity,
};
use crate::config::{circuit_lookups, circuit_rules, comparison_rules, Column};
use crate::decode::be_value;
use crate::laws::{
    law_invalid_for_good, law_rows_hold_the_bytes, law_witness_ends_in_padding, left_before,
    lemma_list_sites, lemma_site_row, list_sites,
};
use crate::rlp_decoder_tables::{decodable, followers, tx1559_field_rules};
use crate::row::{blank_row, header_byte, no_errors, rlp_type_of, Row, MAX_BYTE_COLUMN_NUM};
use crate::state::{finished, lemma_step_bounds, list_rows, step, NUM_BLINDING_ROWS};
use crate::tags::{RlpDecodeErrorType, RlpDecodeTypeTag, RlpTxFieldTag};
use crate::trace::Site;
use vstd::prelude::*;

verus! {

/// The error that ends the field `state` at the front of `bytes`, if there is one, shows in its
/// row the way the circuit checks it. These do not:
/// - a length of a transaction header that could be shorter and takes more than one byte, and a
///   transaction header that is cut off, as their rows are shorter than the header;
/// - bytes that run out in a field of more than one row, or in front of a field other than the
///   data.
pub open spec fn refusal_shows(state: RlpTxFieldTag, bytes: Seq<u8>) -> bool {
    match step(state, bytes, bytes.len() as int).error {
        None => true,
        Some(RlpDecodeErrorType::HeaderDecError) => true,
        Some(RlpDecodeErrorType::LenOfLenError) => state == RlpTxFieldTag::TxRlpHeader ==> bytes[0]
            == 0xf8,
        Some(RlpDecodeErrorType::ValueError) => true,
        Some(RlpDecodeErrorType::RunOutOfDataError(_)) => {
            &&& state != RlpTxFieldTag::TxRlpHeader
            &&& bytes.len() <= MAX_BYTE_COLUMN_NUM
            &&& bytes.len() == 0 ==> state == RlpTxFieldTag::Data
        },
    }
}

/// The value of one, two and three bytes.
proof fn lemma_be_values(bytes: Seq<u8>)
    requires
        bytes.len() <= 3,
    ensures
        bytes.len() == 1 ==> be_value(bytes) == bytes[0],
        bytes.len() == 2 ==> be_value(bytes) == bytes[0] * 256 + bytes[1],
        bytes.len() == 3 ==> be_value(bytes) == bytes[0] * 65536 + bytes[1] * 256 + bytes[2],
{
    reveal_with_fuel(be_value, 4);
}

/// A field of a transaction, with neither a header nor what is passed over.
pub open spec fn is_plain(state: RlpTxFieldTag) -> bool {
    match state {
        RlpTxFieldTag::TxListRlpHeader
        | RlpTxFieldTag::TxRlpHeader
        | RlpTxFieldTag::TypedTxHeader
        | RlpTxFieldTag::DecodeError
        | RlpTxFieldTag::Padding
        | RlpTxFieldTag::GasPrice => false,
        _ => true,
    }
}

/// The length of a field that is accepted, by its decoding type.
proof fn lemma_accepted_plain(state: RlpTxFieldTag, bytes: Seq<u8>)
    requires
        is_plain(state),
        step(state, bytes, bytes.len() as int).error is None,
    ensures
        bytes.len() > 0,
        ({
            let n = step(state, bytes, bytes.len() as int).consumed;
            &&& n > MAX_BYTE_COLUMN_NUM ==> state == RlpTxFieldTag::Data
            &&& match rlp_type_of(state, bytes[0]) {
                RlpDecodeTypeTag::SingleByte => n == 1,
                RlpDecodeTypeTag::NullValue => n == 1,
                RlpDecodeTypeTag::ShortStringValue => n == bytes[0] - 0x80 + 1 && bytes[1] > 0,
                RlpDecodeTypeTag::ShortStringBytes => n == bytes[0] - 0x80 + 1,
                RlpDecodeTypeTag::LongString1 => n == bytes[1] + 2 && bytes[1] > 55,
                RlpDecodeTypeTag::LongString2 => n == bytes[1] * 256 + bytes[2] + 3 && bytes[1]
                    > 0,
                RlpDecodeTypeTag::LongString3 => n == bytes[1] * 65536 + bytes[2] * 256 + bytes[3]
                    + 4 && bytes[1] > 0,
                RlpDecodeTypeTag::EmptyList => n == 1,
                _ => false,
            }
        }),
{
    reveal(step);
    if bytes.len() > 0 && state == RlpTxFieldTag::Data && 0xb8 <= bytes[0] <= 0xba && bytes.len()
        >= 1 + (bytes[0] - 0xb7) {
        let len = bytes.subrange(1, 1 + (bytes[0] - 0xb7));
        lemma_be_values(len);
    }
}

/// The length of a header that is accepted.
proof fn lemma_accepted_header(state: RlpTxFieldTag, bytes: Seq<u8>)
    requires
        state == RlpTxFieldTag::TxListRlpHeader || state == RlpTxFieldTag::TxRlpHeader || state
            == RlpTxFieldTag::TypedTxHeader,
        step(state, bytes, bytes.len() as int).error is None,
    ensures
        bytes.len() > 0,
        ({
            let n = step(state, bytes, bytes.len() as int).consumed;
            let base: int = if state == RlpTxFieldTag::TypedTxHeader {
                0xb7
            } else {
                0xf7
            };
            &&& base < bytes[0] <= base + 3
            &&& n == bytes[0] - base + 1
            &&& n <= bytes.len()
            &&& bytes[0] == base + 1 ==> bytes[1] > 55
            &&& bytes[0] > base + 1 ==> bytes[1] > 0
        }),
{
    reveal(step);
}

/// What is taken of a header that is not cut off.
proof fn lemma_refused_tx_header(bytes: Seq<u8>)
    requires
        refusal_shows(RlpTxFieldTag::TxRlpHeader, bytes),
    ensures
        ({
            let s = step(RlpTxFieldTag::TxRlpHeader, bytes, bytes.len() as int);
            &&& bytes.len() > 0
            &&& s.consumed <= 4
            &&& s.error == Some(RlpDecodeErrorType::HeaderDecError) || s.consumed == bytes[0]
                - 0xf7 + 1
        }),
{
    reveal(step);
}

/// The errors of a field show in the bytes that are taken of it.
proof fn lemma_refused(state: RlpTxFieldTag, bytes: Seq<u8>)
    requires
        state != RlpTxFieldTag::DecodeError,
        state != RlpTxFieldTag::Padding,
        state != RlpTxFieldTag::GasPrice,
    ensures
        ({
            let s = step(state, bytes, bytes.len() as int);
            let t = rlp_type_of(state, bytes[0]);
            match s.error {
                Some(RlpDecodeErrorType::LenOfLenError) => {
                    &&& s.consumed == 2
                    &&& bytes.len() >= 2
                    &&& t == RlpDecodeTypeTag::LongString1 || t == RlpDecodeTypeTag::LongList1
                        ==> bytes[1] <= 55
                    &&& t == RlpDecodeTypeTag::LongString2 || t == RlpDecodeTypeTag::LongString3
                        || t == RlpDecodeTypeTag::LongList2 || t == RlpDecodeTypeTag::LongList3
                        ==> bytes[1] == 0
                },
                Some(RlpDecodeErrorType::ValueError) => {
                    &&& t == RlpDecodeTypeTag::ShortStringValue ==> {
                        &&& s.consumed == 2
                        &&& bytes.len() >= 2
                        &&& bytes[0] == 0x81
                        &&& bytes[1] < 0x80
                    }
                    &&& 1 <= s.consumed <= 4
                    &&& bytes.len() > 0
                },
                Some(RlpDecodeErrorType::RunOutOfDataError(_)) => {
                    &&& s.consumed == bytes.len()
                    &&& state == RlpTxFieldTag::SignS ==> bytes.len() < MAX_BYTE_COLUMN_NUM
                },
                Some(RlpDecodeErrorType::HeaderDecError) => s.consumed == 1 && bytes.len() > 0,
                None => bytes.len() > 0,
            }
        }),
{
    reveal(step);
}

/// The first byte of a field is judged as in the fixed table.
proof fn lemma_first_byte(state: RlpTxFieldTag, bytes: Seq<u8>)
    requires
        state != RlpTxFieldTag::DecodeError,
        state != RlpTxFieldTag::Padding,
        state != RlpTxFieldTag::GasPrice,
        refusal_shows(state, bytes),
    ensures
        decodable(state, header_byte(bytes)) == (step(state, bytes, bytes.len() as int).error
            != Some(RlpDecodeErrorType::HeaderDecError)),
{
    reveal(step);
    let byte0 = header_byte(bytes);
    let rules = tx1559_field_rules(state);
    if rules.len() == 1 {
        assert(decodable(state, byte0) == rules[0].accepts(byte0)) by {
            if rules[0].accepts(byte0) {
                assert(rules[0].accepts(byte0));
            }
        }
    } else {
        assert(state == RlpTxFieldTag::To);
        assert(decodable(state, byte0) == (rules[0].accepts(byte0) || rules[1].accepts(byte0))) by {
            if rules[0].accepts(byte0) {
                assert(rules[0].accepts(byte0));
            }
            if rules[1].accepts(byte0) {
                assert(rules[1].accepts(byte0));
            }
        }
    }
}

/// What follows a field stands in the fixed table.
proof fn lemma_next_state(state: RlpTxFieldTag, bytes: Seq<u8>)
    requires
        state != RlpTxFieldTag::Padding,
    ensures
        followers(state).contains(step(state, bytes, bytes.len() as int).next),
{
    reveal(step);
    let next = step(state, bytes, bytes.len() as int).next;
    let f = followers(state);
    if next == f[0] {
    } else if next == f[1] {
    } else {
        assert(next == f[2]);
    }
}

/// A row of the witness with its combinations filled in, between its neighbours.
pub open spec fn placed(site: Site, prev: Row, row: Row, next: Row, r: int, m: int) -> bool {
    &&& site.is_laid_out()
    &&& site.state != RlpTxFieldTag::GasPrice
    &&& row == crate::accumulate::with_rlc(site.row(r, m), row.rlc_quotient, row.acc_rlc_value)
    &&& combines(prev, row, r, m)
    &&& bounded(prev)
    &&& prev.rlp_remain_length == left_before(site)
    &&& site.j > 0 ==> {
        let above = Site { j: site.j - 1, ..site }.row(r, m);
        &&& prev.rlp_tx_member_length == above.rlp_tx_member_length
        &&& prev.rlp_bytes_in_row == above.rlp_bytes_in_row
        &&& prev.complete == above.complete
    }
    &&& site.state == RlpTxFieldTag::DecodeError ==> !prev.valid
    &&& site.state == RlpTxFieldTag::TypedTxHeader && site.j == 0 ==> row.tx_id == prev.tx_id + 1
    &&& site.state == RlpTxFieldTag::TxListRlpHeader ==> prev.acc_rlc_value == 0 && !prev.valid
        && site.tx_id == 0
    &&& next.tx_member == site.next().state
    &&& next.valid ==> row.valid
}

/// A field of more than one row is the data of a transaction, and is accepted.
proof fn lemma_one_row(site: Site)
    requires
        site.is_laid_out(),
        site.state != RlpTxFieldTag::GasPrice,
        refusal_shows(site.state, site.bytes),
    ensures
        site.raw().len() == site.step().consumed,
        site.step().consumed <= site.bytes.len(),
        site.raw().len() > MAX_BYTE_COLUMN_NUM ==> {
            &&& site.state == RlpTxFieldTag::Data
            &&& site.step().error is None
            &&& !site.step().mismatch
        },
        site.raw().len() <= MAX_BYTE_COLUMN_NUM ==> site.ends_field() && site.j == 0,
        site.j > 0 ==> site.raw().len() > MAX_BYTE_COLUMN_NUM,
        !site.ends_field() ==> site.raw().len() > MAX_BYTE_COLUMN_NUM,
{
    let s = site.step();
    lemma_step_bounds(site.state, site.bytes, site.bytes.len() as int);
    if site.state == RlpTxFieldTag::DecodeError {
        reveal(step);
    } else {
        lemma_refused(site.state, site.bytes);
        if s.error is None {
            if is_plain(site.state) {
                lemma_accepted_plain(site.state, site.bytes);
            } else {
                lemma_accepted_header(site.state, site.bytes);
            }
        }
        assert(s.mismatch ==> site.state == RlpTxFieldTag::TxListRlpHeader) by {
            reveal(step);
        }
    }
}

/// The bytes of the first row of a field.
proof fn lemma_bytes_at(site: Site, row: Row, r: int, m: int)
    requires
        site.is_laid_out(),
        site.j == 0,
        row.bytes == site.row(r, m).bytes,
    ensures
        header_byte(site.raw()) == header_byte(site.bytes),
        forall|i: int|
            0 <= i < MAX_BYTE_COLUMN_NUM && i < site.step().consumed ==> #[trigger] byte_at(row, i)
                == site.bytes[i],
        forall|i: int| i >= site.step().consumed ==> #[trigger] byte_at(row, i) == 0,
        byte_at(row, 0) == header_byte(site.bytes),
{
    lemma_step_bounds(site.state, site.bytes, site.bytes.len() as int);
    lemma_site_row(site, r, m);
    let raw = site.raw();
    assert(raw.len() == site.step().consumed);
    let n = site.row(r, m).rlp_bytes_in_row;
    assert(row.bytes == site.bytes.subrange(0, n));
    assert(n == if site.ends_field() { raw.len() as int } else { MAX_BYTE_COLUMN_NUM as int });
    assert(raw.len() == 0 <==> site.bytes.len() == 0);
}

proof fn lemma_placed_validity(site: Site, prev: Row, row: Row, next: Row, r: int, m: int)
    requires
        placed(site, prev, row, next, r, m),
        refusal_shows(site.state, site.bytes),
        site.bytes.len() < 0x1_0000_0000,
    ensures
        bounded(row),
        validity(prev, row, next),
        row.q_enable,
        !row.q_last,
        lookups_fit(prev, row, next, r, m),
{
    lemma_site_row(site, r, m);
    lemma_one_row(site);
    lemma_next_state(site.state, site.bytes);
    if site.state != RlpTxFieldTag::DecodeError && site.j == 0 {
        lemma_first_byte(site.state, site.bytes);
        lemma_bytes_at(site, row, r, m);
        lemma_refused(site.state, site.bytes);
    }
}

proof fn lemma_placed_member(site: Site, prev: Row, row: Row, next: Row, r: int, m: int)
    requires
        placed(site, prev, row, next, r, m),
        refusal_shows(site.state, site.bytes),
        site.bytes.len() < 0x1_0000_0000,
    ensures
        member_fits(prev, row),
{
    lemma_site_row(site, r, m);
    lemma_one_row(site);
    if row.valid && is_plain(site.state) {
        assert(site.step().error is None) by {
            reveal(step);
        }
        lemma_accepted_plain(site.state, site.bytes);
        if site.j == 0 {
            lemma_bytes_at(site, row, r, m);
        }
    }
}

proof fn lemma_placed_first(site: Site, prev: Row, row: Row, next: Row, r: int, m: int)
    requires
        placed(site, prev, row, next, r, m),
        refusal_shows(site.state, site.bytes),
    ensures
        first_row_fits(prev, row),
{
    if row.q_first {
        lemma_site_row(site, r, m);
        lemma_one_row(site);
        lemma_bytes_at(site, row, r, m);
        if row.valid {
            let s = site.step();
            assert(s.error is None && !s.mismatch) by {
                reveal(step);
            }
            lemma_accepted_header(site.state, site.bytes);
            assert(be_value(site.bytes.subrange(1, s.consumed)) == site.bytes.len() - s.consumed)
                by {
                reveal(step);
            }
            lemma_be_values(site.bytes.subrange(1, s.consumed));
        }
    }
}

proof fn lemma_placed_headers(site: Site, prev: Row, row: Row, next: Row, r: int, m: int)
    requires
        placed(site, prev, row, next, r, m),
        refusal_shows(site.state, site.bytes),
    ensures
        typed_header_fits(prev, row),
        tx_header_fits(row),
{
    lemma_site_row(site, r, m);
    lemma_one_row(site);
    if site.state == RlpTxFieldTag::TypedTxHeader {
        lemma_bytes_at(site, row, r, m);
        if row.valid {
            assert(site.step().error is None) by {
                reveal(step);
            }
            lemma_accepted_header(site.state, site.bytes);
        }
    }
    if site.state == RlpTxFieldTag::TxRlpHeader {
        lemma_bytes_at(site, row, r, m);
        lemma_refused_tx_header(site.bytes);
    }
}

proof fn lemma_placed_errors(site: Site, prev: Row, row: Row, next: Row, r: int, m: int)
    requires
        placed(site, prev, row, next, r, m),
        refusal_shows(site.state, site.bytes),
    ensures
        errors_show(prev, row),
        decode_error_fits(prev, row),
        padding_fits(prev, row),
{
    lemma_site_row(site, r, m);
    lemma_one_row(site);
    if site.state == RlpTxFieldTag::DecodeError {
        reveal(step);
    } else if site.ends_field() && !row.valid {
        assert(site.j == 0);
        lemma_bytes_at(site, row, r, m);
        lemma_refused(site.state, site.bytes);
        if site.step().mismatch {
            reveal(step);
        }
    }
}

/// A decoded row, between its neighbours, fits.
proof fn lemma_placed_fits(site: Site, prev: Row, row: Row, next: Row, r: int, m: int)
    requires
        placed(site, prev, row, next, r, m),
        refusal_shows(site.state, site.bytes),
        site.bytes.len() < 0x1_0000_0000,
    ensures
        row_fits(prev, row, next, r, m),
{
    lemma_placed_validity(site, prev, row, next, r, m);
    lemma_placed_member(site, prev, row, next, r, m);
    lemma_placed_first(site, prev, row, next, r, m);
    lemma_placed_headers(site, prev, row, next, r, m);
    lemma_placed_errors(site, prev, row, next, r, m);
}

/// Every error that ends a field of the list shows in its row the way the circuit checks it.
pub open spec fn provable(bytes: Seq<u8>) -> bool {
    &&& 0 < bytes.len() < 0x1_0000_0000
    &&& forall|i: int|
        0 <= i < list_sites(bytes).len() ==> refusal_shows(
            (#[trigger] list_sites(bytes)[i]).state,
            list_sites(bytes)[i].bytes,
        )
}

/// Only the first row is the header of the whole list, and no row is for a gas price.
pub proof fn lemma_site_state(bytes: Seq<u8>, i: int)
    requires
        0 <= i < list_sites(bytes).len(),
    ensures
        list_sites(bytes)[i].bytes.len() <= bytes.len(),
        list_sites(bytes)[i].state != RlpTxFieldTag::GasPrice,
        list_sites(bytes)[i].state == RlpTxFieldTag::TxListRlpHeader ==> i == 0,
    decreases i,
{
    let sites = list_sites(bytes);
    lemma_list_sites(bytes, seq![], 0, 1);
    if i > 0 {
        lemma_site_state(bytes, i - 1);
        let before = sites[i - 1];
        assert(before.is_laid_out());
        assert(sites[i] == before.next());
        lemma_step_bounds(before.state, before.bytes, before.bytes.len() as int);
        if before.state == RlpTxFieldTag::TxListRlpHeader {
            assert(before.step().consumed <= 4) by {
                reveal(step);
            }
            assert(before.ends_field());
        }
    }
}

/// The rows of a finished witness up to the padding are placed.
proof fn lemma_placed(
    bytes: Seq<u8>,
    digest: Seq<u8>,
    after: Seq<Row>,
    r: int,
    m: int,
    k: int,
    i: int,
)
    requires
        m > 1,
        provable(bytes),
        finished(list_rows(bytes, digest, r, m), after, r, m, k),
        k > list_rows(bytes, digest, r, m).len() + 1 + NUM_BLINDING_ROWS,
        1 <= i < list_rows(bytes, digest, r, m).len(),
    ensures
        placed(list_sites(bytes)[i - 1], after[i - 1], after[i], after[i + 1], r, m),
{
    let before = list_rows(bytes, digest, r, m);
    let n = before.len() as int;
    let fixed = after.take(n);
    let sites = list_sites(bytes);
    let site = sites[i - 1];
    lemma_list_sites(bytes, digest, r, m);
    assert(site.is_laid_out());
    lemma_site_row(site, r, m);
    lemma_site_state(bytes, i - 1);
    assert(rlc_fixed(before, fixed, i, r, m));
    assert(fixed[i] == after[i]);
    assert(fixed[i - 1] == after[i - 1]);
    assert(before[i] == site.row(r, m));
    lemma_row_before(bytes, digest, after, r, m, k, i);
    if i < n - 1 {
        assert(rlc_fixed(before, fixed, i + 1, r, m));
        assert(fixed[i + 1] == after[i + 1]);
        assert(before[i + 1] == sites[i].row(r, m));
        assert(sites[i] == site.next());
        assert(sites[i].is_laid_out());
        lemma_site_row(sites[i], r, m);
        if !after[i].valid {
            reveal(step);
        }
    } else {
        assert(site == sites.last());
        let pads = padding_rows(fixed.last(), r, m, (k - n - 1 - NUM_BLINDING_ROWS) as nat);
        assert(after[i + 1] == pads[0]);
        assert(fixed.last() == after[i]);
    }
}

/// What a row has in front of it.
proof fn lemma_row_before(
    bytes: Seq<u8>,
    digest: Seq<u8>,
    after: Seq<Row>,
    r: int,
    m: int,
    k: int,
    i: int,
)
    requires
        m > 1,
        provable(bytes),
        finished(list_rows(bytes, digest, r, m), after, r, m, k),
        1 <= i < list_rows(bytes, digest, r, m).len(),
    ensures
        ({
            let site = list_sites(bytes)[i - 1];
            let prev = after[i - 1];
            let tx_id = site.row(r, m).tx_id;
            &&& bounded(prev)
            &&& prev.rlp_remain_length == left_before(site)
            &&& running_rlc(after.take(list_rows(bytes, digest, r, m).len() as int), i)
                == prev.acc_rlc_value
            &&& site.j > 0 ==> {
                let above = Site { j: site.j - 1, ..site }.row(r, m);
                &&& prev.rlp_tx_member_length == above.rlp_tx_member_length
                &&& prev.rlp_bytes_in_row == above.rlp_bytes_in_row
                &&& prev.complete == above.complete
            }
            &&& site.state == RlpTxFieldTag::DecodeError ==> !prev.valid
            &&& site.state == RlpTxFieldTag::TypedTxHeader && site.j == 0 ==> tx_id == prev.tx_id
                + 1
            &&& site.state == RlpTxFieldTag::TxListRlpHeader ==> prev.acc_rlc_value == 0
                && !prev.valid && site.tx_id == 0
        }),
{
    let before = list_rows(bytes, digest, r, m);
    let n = before.len() as int;
    let fixed = after.take(n);
    let sites = list_sites(bytes);
    let site = sites[i - 1];
    lemma_list_sites(bytes, digest, r, m);
    assert(fixed[i - 1] == after[i - 1]);
    assert(site.is_laid_out());
    if i == 1 {
        assert(after[0] == before[0]);
    } else {
        let above = sites[i - 2];
        assert(above.is_laid_out());
        assert(site == above.next());
        lemma_site_row(above, r, m);
        assert(rlc_fixed(before, fixed, i - 1, r, m));
        assert(before[i - 1] == above.row(r, m));
        lemma_site_state(bytes, i - 2);
        lemma_site_state(bytes, i - 1);
        lemma_one_row(above);
        lemma_one_row(site);
        assert(bounded(after[i - 1]));
        if site.j > 0 {
            assert(above == Site { j: site.j - 1, ..site });
        }
        if site.state == RlpTxFieldTag::DecodeError {
            assert(above.ends_field());
        }
    }
}

/// The combination of zeros is zero.
proof fn lemma_zero_combination(r: int, m: int)
    requires
        m > 0,
    ensures
        crate::rlc::rlc_be(padded(padded(seq![])), r, m) == 0,
{
    assert(padded(padded(seq![])) =~= Seq::new(MAX_BYTE_COLUMN_NUM as nat, |i: int| 0u8));
    crate::rlc::lemma_rlc_be_zeros(MAX_BYTE_COLUMN_NUM as nat, r, m);
}

/// The padding rows fit.
proof fn lemma_padding_fits(
    bytes: Seq<u8>,
    digest: Seq<u8>,
    after: Seq<Row>,
    r: int,
    m: int,
    k: int,
    i: int,
)
    requires
        m > 1,
        provable(bytes),
        finished(list_rows(bytes, digest, r, m), after, r, m, k),
        k > list_rows(bytes, digest, r, m).len() + 1 + NUM_BLINDING_ROWS,
        list_rows(bytes, digest, r, m).len() <= i < after.len() - 1,
    ensures
        row_fits(after[i - 1], after[i], after[i + 1], r, m),
{
    let before = list_rows(bytes, digest, r, m);
    let n = before.len() as int;
    let fixed = after.take(n);
    let sites = list_sites(bytes);
    lemma_list_sites(bytes, digest, r, m);
    let count = (k - n - 1 - NUM_BLINDING_ROWS) as nat;
    let pads = padding_rows(fixed.last(), r, m, count);
    let last = fixed.last();
    let (prev, row, next) = (after[i - 1], after[i], after[i + 1]);
    assert(last == after[n - 1]);
    assert(row == pads[i - n]);
    assert(row == padding_row(last, r, m, i - n == count - 1));
    assert(next == pads[i - n + 1]);
    let site = sites[n - 2];
    assert(site == sites.last());
    assert(site.is_laid_out());
    lemma_site_row(site, r, m);
    assert(rlc_fixed(before, fixed, n - 1, r, m));
    assert(fixed[n - 1] == last);
    assert(before[n - 1] == site.row(r, m));
    assert(last.errors =~= no_errors()) by {
        reveal(step);
    }
    law_rows_hold_the_bytes(bytes, digest, r, m);
    assert(last.rlp_remain_length == 0);
    assert(0 <= last.acc_rlc_value < m) by {
        vstd::arithmetic::div_mod::lemma_mod_bound(
            running_rlc(fixed, n - 1) * last.r_mult + last.rlc_quotient,
            m,
        );
    }
    if i == n {
        lemma_site_state(bytes, n - 2);
        lemma_one_row(site);
        assert(bounded(prev));
    } else {
        assert(prev == pads[i - n - 1]);
    }
    lemma_zero_combination(r, m);
    assert(combines(prev, row, r, m)) by {
        vstd::arithmetic::div_mod::lemma_small_mod(0, m as nat);
        assert(0 * row.r_mult_comp == 0);
        assert(last.acc_rlc_value * 1 == last.acc_rlc_value);
        vstd::arithmetic::div_mod::lemma_small_mod(last.acc_rlc_value as nat, m as nat);
    }
    assert(lookups_fit(prev, row, next, r, m)) by {
        assert(byte_at(row, 0) == 0);
        assert(tx1559_field_rules(RlpTxFieldTag::Padding)[0].accepts(0u8));
        assert(decodable(RlpTxFieldTag::Padding, 0u8));
        assert(followers(RlpTxFieldTag::Padding)[0] == RlpTxFieldTag::Padding);
        vstd::arithmetic::power::lemma_pow0(r);
        vstd::arithmetic::div_mod::lemma_small_mod(1, m as nat);
    }
}

/// All that the circuit asks of row `i` holds.
pub open spec fn row_satisfied(rows: Seq<Row>, i: int, r: int, m: int) -> bool {
    let e = row_env(rows, i, r, m);
    circuit_rules(e) && comparison_rules(e) && circuit_lookups(e)
}

/// The circuit accepts the witness for a list, be the list itself accepted or refused: every gate,
/// every comparison and every lookup holds in every row.
pub proof fn law_witness_satisfies_circuit(
    bytes: Seq<u8>,
    digest: Seq<u8>,
    after: Seq<Row>,
    r: int,
    m: int,
    k: int,
    i: int,
)
    requires
        m > 0x1_0000_0000,
        provable(bytes),
        finished(list_rows(bytes, digest, r, m), after, r, m, k),
        k > list_rows(bytes, digest, r, m).len() + 1 + NUM_BLINDING_ROWS,
        0 <= i < after.len(),
    ensures
        row_satisfied(after, i, r, m),
{
    let before = list_rows(bytes, digest, r, m);
    let n = before.len() as int;
    law_witness_ends_in_padding(before, after, r, m, k);
    let e = row_env(after, i, r, m);
    lemma_row_env(after, i, r, m);
    let (prev, row) = (row_before(after, i), after[i]);
    let next = if i == after.len() - 1 {
        blank_row()
    } else {
        after[i + 1]
    };
    lemma_list_sites(bytes, digest, r, m);
    if i == 0 || i == after.len() - 1 {
        assert(after[0] == before[0]);
        assert(e.cur(Column::QEnable) == 0 && e.cur(Column::QFirst) == 0);
        lemma_disabled_rules(e);
    } else {
        if i < n {
            let site = list_sites(bytes)[i - 1];
            lemma_placed(bytes, digest, after, r, m, k, i);
            lemma_site_state(bytes, i - 1);
            assert(refusal_shows(site.state, site.bytes));
            lemma_placed_fits(site, prev, row, next, r, m);
        } else {
            lemma_padding_fits(bytes, digest, after, r, m, k, i);
        }
        lemma_rules(e, prev, row, next, r, m);
    }
    lemma_comparisons(e, prev, row, next, r, m);
    lemma_lookups(e, prev, row, next, r, m);
}

/// A list that is accepted is provable.
proof fn lemma_accepted_provable(bytes: Seq<u8>, digest: Seq<u8>, r: int, m: int)
    requires
        0 < bytes.len() < 0x1_0000_0000,
        list_rows(bytes, digest, r, m).last().valid,
    ensures
        provable(bytes),
{
    let rows = list_rows(bytes, digest, r, m);
    let sites = list_sites(bytes);
    lemma_list_sites(bytes, digest, r, m);
    assert forall|i: int| 0 <= i < sites.len() implies refusal_shows(
        (#[trigger] sites[i]).state,
        sites[i].bytes,
    ) by {
        if sites[i].step().error is Some {
            lemma_error_reaches_end(bytes, digest, r, m, i);
        }
    }
}

/// An error makes the last row invalid.
proof fn lemma_error_reaches_end(bytes: Seq<u8>, digest: Seq<u8>, r: int, m: int, i: int)
    requires
        0 <= i < list_sites(bytes).len(),
        list_sites(bytes)[i].step().error is Some,
    ensures
        !list_rows(bytes, digest, r, m).last().valid,
    decreases list_sites(bytes).len() - i,
{
    let sites = list_sites(bytes);
    let rows = list_rows(bytes, digest, r, m);
    lemma_list_sites(bytes, digest, r, m);
    let site = sites[i];
    assert(site.is_laid_out());
    lemma_site_row(site, r, m);
    assert(rows[i + 1] == site.row(r, m));
    assert(site.step().next == RlpTxFieldTag::DecodeError) by {
        reveal(step);
    }
    if i == sites.len() - 1 {
        assert(site == sites.last());
    } else if site.ends_field() {
        law_invalid_for_good(bytes, digest, r, m, i + 1, rows.len() - 1);
    } else {
        assert(sites[i + 1] == site.next());
        lemma_error_reaches_end(bytes, digest, r, m, i + 1);
    }
}

/// The circuit accepts the witness for every list that is accepted.
pub proof fn law_accepted_list_satisfies_circuit(
    bytes: Seq<u8>,
    digest: Seq<u8>,
    after: Seq<Row>,
    r: int,
    m: int,
    k: int,
    i: int,
)
    requires
        m > 0x1_0000_0000,
        0 < bytes.len() < 0x1_0000_0000,
        list_rows(bytes, digest, r, m).last().valid,
        finished(list_rows(bytes, digest, r, m), after, r, m, k),
        k > list_rows(bytes, digest, r, m).len() + 1 + NUM_BLINDING_ROWS,
        0 <= i < after.len(),
    ensures
        row_satisfied(after, i, r, m),
{
    lemma_accepted_provable(bytes, digest, r, m);
    law_witness_satisfies_circuit(bytes, digest, after, r, m, k, i);
}

} // verus!
