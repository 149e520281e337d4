//! Decoding of a list of dynamic fee transactions, one field at a time.

use crate::rlp_decoder_tables::RlpDecodeRule;
use crate::row::error_fits;
use crate::tags::RlpDecodeErrorType;
use vstd::prelude::*;
use vstd::slice::slice_subrange;

verus! {

/// The value of a big endian sequence of bytes.
pub open spec fn be_value(bytes: Seq<u8>) -> int
    decreases bytes.len(),
{
    if bytes.len() == 0 {
        0
    } else {
        be_value(bytes.drop_last()) * 256 + bytes.last()
    }
}

/// A prefix has no greater value than the whole.
pub proof fn lemma_be_value_prefix(bytes: Seq<u8>, n: int)
    requires
        0 <= n <= bytes.len(),
    ensures
        0 <= be_value(bytes.take(n)) <= be_value(bytes),
    decreases bytes.len() - n, bytes.len(),
{
    if n == bytes.len() {
        assert(bytes.take(n) =~= bytes);
        if n > 0 {
            lemma_be_value_prefix(bytes.drop_last(), n - 1);
            assert(bytes.drop_last().take(n - 1) =~= bytes.drop_last());
        }
    } else {
        lemma_be_value_prefix(bytes.drop_last(), n);
        assert(bytes.drop_last().take(n) =~= bytes.take(n));
    }
}

/// At most three bytes hold a value below two to the 24th.
pub proof fn lemma_be_value_small(bytes: Seq<u8>)
    requires
        bytes.len() <= 3,
    ensures
        0 <= be_value(bytes) < 0x100_0000,
{
    reveal_with_fuel(be_value, 4);
}

/// The first `n` bytes, or all of them as the error when there are fewer.
pub fn read_nbytes(bytes: &[u8], n: usize) -> (r: Result<&[u8], &[u8]>)
    ensures
        n <= bytes@.len() ==> (r matches Ok(b) && b@ == bytes@.take(n as int)),
        n > bytes@.len() ==> (r matches Err(b) && b@ == bytes@),
{
    if n <= bytes.len() {
        Ok(slice_subrange(bytes, 0, n))
    } else {
        Err(bytes)
    }
}

/// The length that a big endian sequence of bytes announces.
pub fn rlp_bytes_len(bytes: &[u8]) -> (r: usize)
    requires
        be_value(bytes@) <= usize::MAX,
    ensures
        r == be_value(bytes@),
{
    let mut acc: usize = 0;
    let mut i: usize = 0;
    proof {
        assert(bytes@.take(0) =~= Seq::<u8>::empty());
    }
    while i < bytes.len()
        invariant
            i <= bytes@.len(),
            acc == be_value(bytes@.take(i as int)),
            be_value(bytes@) <= usize::MAX,
        decreases bytes@.len() - i,
    {
        proof {
            assert(bytes@.take(i + 1).drop_last() =~= bytes@.take(i as int));
            lemma_be_value_prefix(bytes@, i + 1);
        }
        acc = acc * 256 + bytes[i] as usize;
        i = i + 1;
    }
    proof {
        assert(bytes@.take(i as int) =~= bytes@);
    }
    acc
}

/// What becomes of a field: how many bytes it takes, and the error that ends it.
pub struct Outcome {
    pub consumed: int,
    pub error: Option<RlpDecodeErrorType>,
}

/// The first `n` bytes make up the field.
pub open spec fn accepted(n: int) -> Outcome {
    Outcome { consumed: n, error: None }
}

/// The first `n` bytes show that the field is wrong.
pub open spec fn refused(n: int, error: RlpDecodeErrorType) -> Outcome {
    Outcome { consumed: n, error: Some(error) }
}

/// `bytes` end before the `n` bytes that the field announces.
pub open spec fn ran_out(bytes: Seq<u8>, n: int) -> Outcome {
    refused(bytes.len() as int, RlpDecodeErrorType::RunOutOfDataError(n as usize))
}

/// The length in `len_of_len` bytes of a long item, which starts with `byte1`, could be shorter.
pub open spec fn overlong(len_of_len: int, byte1: u8) -> bool {
    if len_of_len == 1 {
        byte1 <= 55
    } else {
        byte1 == 0
    }
}

/// An unsigned integer. It has no leading zero, and one of a single byte below 0x80 stands for
/// itself, without a header.
pub open spec fn uint_outcome(bytes: Seq<u8>) -> Outcome {
    let len = bytes[0] - 0x80;
    if len <= 0 {
        accepted(1)
    } else if bytes.len() < 1 + len {
        ran_out(bytes, 1 + len)
    } else if len == 1 && bytes[1] < 0x80 {
        refused(2, RlpDecodeErrorType::ValueError)
    } else if len > 1 && bytes[1] == 0 {
        refused(2, RlpDecodeErrorType::LenOfLenError)
    } else {
        accepted(1 + len)
    }
}

/// A string of `len` bytes behind its one header byte.
pub open spec fn short_string_outcome(bytes: Seq<u8>, len: int) -> Outcome {
    if bytes.len() < 1 + len {
        ran_out(bytes, 1 + len)
    } else if len == 1 && bytes[1] < 0x80 {
        refused(2, RlpDecodeErrorType::ValueError)
    } else {
        accepted(1 + len)
    }
}

/// How many bytes follow the header of a long item whose length takes `len_of_len` bytes.
pub open spec fn payload_len(bytes: Seq<u8>, len_of_len: int) -> int {
    be_value(bytes.subrange(1, 1 + len_of_len))
}

/// Any string, with its payload.
pub open spec fn bytes_outcome(bytes: Seq<u8>) -> Outcome {
    if bytes[0] <= 0x80 {
        accepted(1)
    } else if bytes[0] <= 0xb7 {
        short_string_outcome(bytes, bytes[0] - 0x80)
    } else {
        let len_of_len = bytes[0] - 0xb7;
        let end = 1 + len_of_len + payload_len(bytes, len_of_len);
        if bytes.len() < 1 + len_of_len {
            ran_out(bytes, 1 + len_of_len)
        } else if overlong(len_of_len, bytes[1]) {
            refused(2, RlpDecodeErrorType::LenOfLenError)
        } else if bytes.len() < end {
            ran_out(bytes, end)
        } else {
            accepted(end)
        }
    }
}

/// The header of a long string. The payload must be there, and is not taken.
pub open spec fn long_bytes_outcome(bytes: Seq<u8>) -> Outcome {
    let len_of_len = bytes[0] - 0xb7;
    let end = 1 + len_of_len + payload_len(bytes, len_of_len);
    if bytes.len() < 1 + len_of_len {
        ran_out(bytes, 1 + len_of_len)
    } else if overlong(len_of_len, bytes[1]) {
        refused(2, RlpDecodeErrorType::LenOfLenError)
    } else if bytes.len() < end {
        ran_out(bytes, end)
    } else {
        accepted(1 + len_of_len)
    }
}

/// The header of a long list. The payload must be there, and is not taken.
pub open spec fn long_list_outcome(bytes: Seq<u8>) -> Outcome {
    let len_of_len = bytes[0] - 0xf7;
    let end = 1 + len_of_len + payload_len(bytes, len_of_len);
    if bytes.len() < 1 + len_of_len {
        ran_out(bytes, 1 + len_of_len)
    } else if overlong(len_of_len, bytes[1]) {
        refused(2, RlpDecodeErrorType::LenOfLenError)
    } else if bytes.len() < end {
        refused(1 + len_of_len, RlpDecodeErrorType::ValueError)
    } else {
        accepted(1 + len_of_len)
    }
}

/// What becomes of a field under `rule` at the front of `bytes`.
pub open spec fn field_outcome(rule: RlpDecodeRule, bytes: Seq<u8>) -> Outcome {
    if bytes.len() == 0 {
        ran_out(bytes, 1)
    } else if !rule.accepts(bytes[0]) {
        refused(1, RlpDecodeErrorType::HeaderDecError)
    } else {
        match rule {
            RlpDecodeRule::Padding
            | RlpDecodeRule::Empty
            | RlpDecodeRule::TxType1559
            | RlpDecodeRule::EmptyList => accepted(1),
            RlpDecodeRule::Uint64 | RlpDecodeRule::Uint96 | RlpDecodeRule::Uint256 => uint_outcome(
                bytes,
            ),
            RlpDecodeRule::Address => short_string_outcome(bytes, 20),
            RlpDecodeRule::Bytes48K => bytes_outcome(bytes),
            RlpDecodeRule::LongBytes => long_bytes_outcome(bytes),
            RlpDecodeRule::LongList => long_list_outcome(bytes),
        }
    }
}

/// A field takes no more bytes than there are, and at least one where there is one. Its error fits
/// the bytes that it took.
pub proof fn lemma_field_outcome(rule: RlpDecodeRule, bytes: Seq<u8>)
    ensures
        0 <= field_outcome(rule, bytes).consumed <= bytes.len(),
        bytes.len() > 0 ==> field_outcome(rule, bytes).consumed > 0,
        error_fits(
            bytes.take(field_outcome(rule, bytes).consumed),
            field_outcome(rule, bytes).error,
        ),
{
    if bytes.len() > 0 {
        if 0xb8 <= bytes[0] <= 0xba && bytes.len() >= 1 + (bytes[0] - 0xb7) {
            lemma_be_value_small(bytes.subrange(1, 1 + (bytes[0] - 0xb7)));
        }
        if 0xf8 <= bytes[0] <= 0xfa && bytes.len() >= 1 + (bytes[0] - 0xf7) {
            lemma_be_value_small(bytes.subrange(1, 1 + (bytes[0] - 0xf7)));
        }
    }
}

/// Decodes an unsigned integer behind an accepted first byte.
fn decode_uint(bytes: &[u8]) -> (r: (usize, Option<RlpDecodeErrorType>))
    requires
        0 < bytes@.len(),
        bytes@[0] <= 0xa0,
    ensures
        r.0 == uint_outcome(bytes@).consumed,
        r.1 == uint_outcome(bytes@).error,
{
    let head_byte0 = bytes[0];
    if head_byte0 <= 0x80 {
        return (1, None);
    }
    let len_of_val: usize = (head_byte0 - 0x80) as usize;
    match read_nbytes(slice_subrange(bytes, 1, bytes.len()), len_of_val) {
        Ok(val_bytes_read) => {
            let val_byte0 = val_bytes_read[0];
            if len_of_val == 1 && val_byte0 < 0x80 {
                (2, Some(RlpDecodeErrorType::ValueError))
            } else if len_of_val > 1 && val_byte0 == 0 {
                (2, Some(RlpDecodeErrorType::LenOfLenError))
            } else {
                (1 + val_bytes_read.len(), None)
            }
        },
        Err(val_bytes_read) => {
            (
                1 + val_bytes_read.len(),
                Some(RlpDecodeErrorType::RunOutOfDataError(1 + len_of_val)),
            )
        },
    }
}

/// Decodes a string of `len_of_val` bytes behind its first byte.
fn decode_short_string(bytes: &[u8], len_of_val: usize) -> (r: (usize, Option<RlpDecodeErrorType>))
    requires
        0 < bytes@.len(),
        0 < len_of_val < 56,
    ensures
        r.0 == short_string_outcome(bytes@, len_of_val as int).consumed,
        r.1 == short_string_outcome(bytes@, len_of_val as int).error,
{
    match read_nbytes(slice_subrange(bytes, 1, bytes.len()), len_of_val) {
        Ok(val_bytes_read) => {
            if len_of_val == 1 && val_bytes_read[0] < 0x80 {
                (2, Some(RlpDecodeErrorType::ValueError))
            } else {
                (1 + val_bytes_read.len(), None)
            }
        },
        Err(val_bytes_read) => {
            (
                1 + val_bytes_read.len(),
                Some(RlpDecodeErrorType::RunOutOfDataError(1 + len_of_val)),
            )
        },
    }
}

/// The header of a long item, as far as its length is concerned.
enum LongHeader {
    /// The length takes more bytes than there are.
    Cut,
    /// The length could be shorter.
    Overlong,
    /// The length of the payload.
    Len(usize),
}

/// Reads the length of a long item, which takes `len_of_len` bytes.
fn read_long_header(bytes: &[u8], len_of_len: usize) -> (r: LongHeader)
    requires
        0 < bytes@.len(),
        1 <= len_of_len <= 3,
    ensures
        match r {
            LongHeader::Cut => bytes@.len() < 1 + len_of_len,
            LongHeader::Overlong => bytes@.len() >= 1 + len_of_len && overlong(
                len_of_len as int,
                bytes@[1],
            ),
            LongHeader::Len(n) => bytes@.len() >= 1 + len_of_len && !overlong(
                len_of_len as int,
                bytes@[1],
            ) && n == payload_len(bytes@, len_of_len as int) && n < 0x100_0000,
        },
{
    match read_nbytes(slice_subrange(bytes, 1, bytes.len()), len_of_len) {
        Ok(len_bytes_read) => {
            let len_byte0 = len_bytes_read[0];
            if len_of_len == 1 && len_byte0 <= 55 {
                LongHeader::Overlong
            } else if len_of_len > 1 && len_byte0 == 0 {
                LongHeader::Overlong
            } else {
                proof {
                    assert(len_bytes_read@ =~= bytes@.subrange(1, 1 + len_of_len));
                    lemma_be_value_small(len_bytes_read@);
                }
                LongHeader::Len(rlp_bytes_len(len_bytes_read))
            }
        },
        Err(_) => LongHeader::Cut,
    }
}

/// Decodes any string behind an accepted first byte.
fn decode_bytes(bytes: &[u8]) -> (r: (usize, Option<RlpDecodeErrorType>))
    requires
        0 < bytes@.len(),
        bytes@[0] <= 0xba,
    ensures
        r.0 == bytes_outcome(bytes@).consumed,
        r.1 == bytes_outcome(bytes@).error,
{
    let head_byte0 = bytes[0];
    match head_byte0 {
        0..=0x80 => (1, None),
        0x81..=0xb7 => decode_short_string(bytes, (head_byte0 - 0x80) as usize),
        _ => {
            let len_of_len: usize = (head_byte0 - 0xb7) as usize;
            match read_long_header(bytes, len_of_len) {
                LongHeader::Cut => {
                    (bytes.len(), Some(RlpDecodeErrorType::RunOutOfDataError(1 + len_of_len)))
                },
                LongHeader::Overlong => (2, Some(RlpDecodeErrorType::LenOfLenError)),
                LongHeader::Len(val_bytes_len) => {
                    let offset: usize = 1 + len_of_len;
                    match read_nbytes(slice_subrange(bytes, offset, bytes.len()), val_bytes_len) {
                        Ok(val_bytes_read) => (offset + val_bytes_read.len(), None),
                        Err(_) => (
                            bytes.len(),
                            Some(RlpDecodeErrorType::RunOutOfDataError(offset + val_bytes_len)),
                        ),
                    }
                },
            }
        },
    }
}

/// Decodes the header of a long string behind an accepted first byte.
fn decode_long_bytes(bytes: &[u8]) -> (r: (usize, Option<RlpDecodeErrorType>))
    requires
        0 < bytes@.len(),
        0xb8 <= bytes@[0] <= 0xba,
    ensures
        r.0 == long_bytes_outcome(bytes@).consumed,
        r.1 == long_bytes_outcome(bytes@).error,
{
    let len_of_len: usize = (bytes[0] - 0xb7) as usize;
    match read_long_header(bytes, len_of_len) {
        LongHeader::Cut => {
            (bytes.len(), Some(RlpDecodeErrorType::RunOutOfDataError(1 + len_of_len)))
        },
        LongHeader::Overlong => (2, Some(RlpDecodeErrorType::LenOfLenError)),
        LongHeader::Len(val_bytes_len) => {
            let offset: usize = 1 + len_of_len;
            match read_nbytes(slice_subrange(bytes, offset, bytes.len()), val_bytes_len) {
                Ok(_) => (offset, None),
                Err(_) => (
                    bytes.len(),
                    Some(RlpDecodeErrorType::RunOutOfDataError(offset + val_bytes_len)),
                ),
            }
        },
    }
}

/// Decodes the header of a long list behind an accepted first byte.
fn decode_long_list(bytes: &[u8]) -> (r: (usize, Option<RlpDecodeErrorType>))
    requires
        0 < bytes@.len(),
        0xf8 <= bytes@[0] <= 0xfa,
    ensures
        r.0 == long_list_outcome(bytes@).consumed,
        r.1 == long_list_outcome(bytes@).error,
{
    let len_of_len: usize = (bytes[0] - 0xf7) as usize;
    match read_long_header(bytes, len_of_len) {
        LongHeader::Cut => {
            (bytes.len(), Some(RlpDecodeErrorType::RunOutOfDataError(1 + len_of_len)))
        },
        LongHeader::Overlong => (2, Some(RlpDecodeErrorType::LenOfLenError)),
        LongHeader::Len(val_bytes_len) => {
            let offset: usize = 1 + len_of_len;
            match read_nbytes(slice_subrange(bytes, offset, bytes.len()), val_bytes_len) {
                Ok(_) => (offset, None),
                Err(_) => (offset, Some(RlpDecodeErrorType::ValueError)),
            }
        },
    }
}

/// Decodes the field under `rule` at the front of `bytes`: how many bytes it takes, and its error.
pub fn decode_field(rule: &RlpDecodeRule, bytes: &[u8]) -> (r: (usize, Option<RlpDecodeErrorType>))
    ensures
        r.0 == field_outcome(*rule, bytes@).consumed,
        r.1 == field_outcome(*rule, bytes@).error,
{
    match read_nbytes(bytes, 1) {
        Ok(bytes_read_header) => {
            let (_, decodable) = rule.rule_check(bytes_read_header[0]);
            if !decodable {
                (1, Some(RlpDecodeErrorType::HeaderDecError))
            } else {
                match rule {
                    RlpDecodeRule::Padding
                    | RlpDecodeRule::Empty
                    | RlpDecodeRule::TxType1559
                    | RlpDecodeRule::EmptyList => (1, None),
                    RlpDecodeRule::Uint64
                    | RlpDecodeRule::Uint96
                    | RlpDecodeRule::Uint256 => decode_uint(bytes),
                    RlpDecodeRule::Address => decode_short_string(bytes, 20),
                    RlpDecodeRule::Bytes48K => decode_bytes(bytes),
                    RlpDecodeRule::LongBytes => decode_long_bytes(bytes),
                    RlpDecodeRule::LongList => decode_long_list(bytes),
                }
            }
        },
        Err(_) => (0, Some(RlpDecodeErrorType::RunOutOfDataError(1))),
    }
}

} // verus!
