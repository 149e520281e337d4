//! The decoder accepts the shortest encodings, and nothing else.

use crate::decode::{accepted, be_value, field_outcome};
use crate::reading::{body_size, head_size, is_list, item_size};
use crate::rlp_decoder_tables::{followers, RlpDecodeRule};
use crate::rlp_stream::{item_header, minimal_be, rlp_list, rlp_string};
use crate::round_trip::lemma_minimal_be;
use crate::row::rlp_type_of;
use crate::state::{state_rule, step};
use crate::tags::{RlpDecodeErrorType, RlpDecodeTypeTag, RlpTxFieldTag};
use vstd::prelude::*;

verus! {

/// The digits of a number of at most `n` bytes, without a zero in front.
pub open spec fn is_number(value: Seq<u8>, n: nat) -> bool {
    value.len() <= n && (value.len() > 0 ==> value[0] != 0)
}

/// What a string under `rule` may hold.
pub open spec fn may_hold(rule: RlpDecodeRule, value: Seq<u8>) -> bool {
    match rule {
        RlpDecodeRule::Empty => value.len() == 0,
        RlpDecodeRule::TxType1559 => value == seq![2u8],
        RlpDecodeRule::Uint64 => is_number(value, 8),
        RlpDecodeRule::Uint96 => is_number(value, 12),
        RlpDecodeRule::Uint256 => is_number(value, 32),
        RlpDecodeRule::Address => value.len() == 20,
        RlpDecodeRule::Bytes48K => value.len() < 0x100_0000,
        _ => false,
    }
}

/// The rule is one for a whole string.
pub open spec fn is_string_rule(rule: RlpDecodeRule) -> bool {
    match rule {
        RlpDecodeRule::Padding
        | RlpDecodeRule::EmptyList
        | RlpDecodeRule::LongBytes
        | RlpDecodeRule::LongList => false,
        _ => true,
    }
}

/// `bytes` start with the encoding of `value`.
pub open spec fn starts_with(bytes: Seq<u8>, value: Seq<u8>) -> bool {
    rlp_string(value).len() <= bytes.len() && bytes.take(rlp_string(value).len() as int)
        == rlp_string(value)
}

/// The digits without a zero in front are the shortest ones of their value.
pub proof fn lemma_shortest(digits: Seq<u8>)
    requires
        digits.len() > 0 ==> digits[0] != 0,
    ensures
        be_value(digits) >= 0,
        digits.len() > 0 ==> be_value(digits) > 0,
        minimal_be(be_value(digits) as nat) == digits,
    decreases digits.len(),
{
    if digits.len() == 0 {
        assert(minimal_be(0) =~= digits);
    } else {
        let front = digits.drop_last();
        lemma_shortest(front);
        let v = be_value(digits);
        assert(v == be_value(front) * 256 + digits.last());
        if front.len() == 0 {
            assert(digits.last() == digits[0]);
        }
        assert(v / 256 == be_value(front) && v % 256 == digits.last());
        assert(minimal_be(v as nat) == minimal_be((v / 256) as nat).push((v % 256) as u8));
        assert(front.push(digits.last()) =~= digits);
    }
}

/// The header of a long item, read from its bytes.
proof fn lemma_header_read(base: int, bytes: Seq<u8>, n: int)
    requires
        base == 0x80 || base == 0xc0,
        1 <= n <= 3,
        bytes.len() > n,
        bytes[0] == base + 55 + n,
        n == 1 ==> bytes[1] > 55,
        n > 1 ==> bytes[1] != 0,
    ensures
        ({
            let len = be_value(bytes.subrange(1, 1 + n));
            &&& 55 < len < 0x100_0000
            &&& item_header(base, len as nat) == bytes.take(1 + n)
        }),
{
    let digits = bytes.subrange(1, 1 + n);
    lemma_shortest(digits);
    let len = be_value(digits);
    crate::decode::lemma_be_value_small(digits);
    reveal_with_fuel(be_value, 4);
    assert(len > 55) by {
        if n == 1 {
            assert(digits.drop_last() =~= seq![]);
        } else if n == 2 {
            assert(digits.drop_last().drop_last() =~= seq![]);
            assert(len == digits[0] * 256 + digits[1]);
        } else {
            assert(digits.drop_last().drop_last().drop_last() =~= seq![]);
            assert(len == (digits[0] * 256 + digits[1]) * 256 + digits[2]);
        }
    }
    assert(item_header(base, len as nat) =~= bytes.take(1 + n));
}

/// The header of a long item, as it was written.
proof fn lemma_header_written(base: int, len: nat, bytes: Seq<u8>)
    requires
        base == 0x80 || base == 0xc0,
        55 < len < 0x100_0000,
        item_header(base, len).len() <= bytes.len(),
        bytes.take(item_header(base, len).len() as int) == item_header(base, len),
    ensures
        ({
            let n = item_header(base, len).len() - 1;
            &&& 1 <= n <= 3
            &&& bytes[0] == base + 55 + n
            &&& n == 1 ==> bytes[1] > 55
            &&& n > 1 ==> bytes[1] != 0
            &&& be_value(bytes.subrange(1, 1 + n)) == len
        }),
{
    lemma_minimal_be(len);
    let digits = minimal_be(len);
    let header = item_header(base, len);
    let n = header.len() - 1;
    assert(n == digits.len());
    assert(bytes.take(header.len() as int)[0] == header[0]);
    assert(bytes.take(header.len() as int)[1] == header[1]);
    assert(header[1] == digits[0]);
    assert(bytes.subrange(1, 1 + n) =~= digits) by {
        assert forall|i: int| 0 <= i < n implies #[trigger] bytes.subrange(1, 1 + n)[i]
            == digits[i] by {
            assert(bytes.take(header.len() as int)[1 + i] == header[1 + i]);
        }
    }
    if n == 1 {
        reveal_with_fuel(be_value, 2);
        assert(digits.drop_last() =~= seq![]);
        assert(be_value(digits) == digits[0]);
    }
}

/// What is accepted starts with the encoding of a value.
proof fn lemma_accepted_is_written(rule: RlpDecodeRule, bytes: Seq<u8>, n: int) -> (value: Seq<u8>)
    requires
        is_string_rule(rule),
        field_outcome(rule, bytes) == accepted(n),
    ensures
        may_hold(rule, value),
        starts_with(bytes, value),
        n == rlp_string(value).len(),
{
    let byte0 = bytes[0];
    if byte0 < 0x80 {
        let value = seq![byte0];
        assert(bytes.take(1) =~= rlp_string(value));
        value
    } else if byte0 <= 0xb7 {
        let value = bytes.subrange(1, 1 + (byte0 - 0x80));
        if byte0 == 0x80 {
            assert(value =~= seq![]);
        } else {
            assert(value[0] == bytes[1]);
        }
        assert(bytes.take(n) =~= rlp_string(value));
        value
    } else {
        let k = byte0 - 0xb7;
        lemma_header_read(0x80, bytes, k);
        let len = be_value(bytes.subrange(1, 1 + k));
        let value = bytes.subrange(1 + k, 1 + k + len);
        assert(bytes.take(n) =~= bytes.take(1 + k) + value);
        assert(bytes.take(n) =~= rlp_string(value));
        value
    }
}

/// What starts with the encoding of a value is accepted.
proof fn lemma_written_is_accepted(rule: RlpDecodeRule, bytes: Seq<u8>, value: Seq<u8>)
    requires
        is_string_rule(rule),
        may_hold(rule, value),
        starts_with(bytes, value),
    ensures
        field_outcome(rule, bytes) == accepted(rlp_string(value).len() as int),
{
    let s = rlp_string(value);
    let n = s.len() as int;
    assert(n > 0) by {
        if value.len() > 55 {
            lemma_minimal_be(value.len());
        }
    }
    assert(bytes.take(n)[0] == s[0]);
    if value.len() == 1 && value[0] < 0x80 {
        assert(bytes[0] == value[0]);
    } else if value.len() <= 55 {
        assert(bytes[0] == 0x80 + value.len());
        if value.len() > 0 {
            assert(bytes.take(n)[1] == s[1]);
            assert(bytes[1] == value[0]);
        }
    } else {
        let header = item_header(0x80, value.len());
        assert(bytes.take(header.len() as int) =~= header) by {
            assert forall|i: int| 0 <= i < header.len() implies #[trigger] bytes[i]
                == header[i] by {
                assert(bytes.take(n)[i] == s[i]);
            }
        }
        lemma_header_written(0x80, value.len(), bytes);
    }
}

/// A field is accepted exactly where it starts with the shortest encoding of a value that its rule
/// allows, and then takes that encoding.
pub proof fn law_accepted_is_the_shortest_encoding(rule: RlpDecodeRule, bytes: Seq<u8>, n: int)
    requires
        is_string_rule(rule),
    ensures
        field_outcome(rule, bytes) == accepted(n) <==> exists|value: Seq<u8>|
            may_hold(rule, value) && #[trigger] starts_with(bytes, value) && n == rlp_string(
                value,
            ).len(),
{
    if field_outcome(rule, bytes) == accepted(n) {
        let value = lemma_accepted_is_written(rule, bytes, n);
        assert(starts_with(bytes, value));
    }
    if exists|value: Seq<u8>|
        may_hold(rule, value) && #[trigger] starts_with(bytes, value) && n == rlp_string(
            value,
        ).len() {
        let value = choose|value: Seq<u8>|
            may_hold(rule, value) && #[trigger] starts_with(bytes, value) && n == rlp_string(
                value,
            ).len();
        lemma_written_is_accepted(rule, bytes, value);
    }
}

/// A long header for `len` bytes stands at the front of `bytes`, with these behind it.
pub open spec fn announces(bytes: Seq<u8>, base: int, len: nat) -> bool {
    let header = item_header(base, len);
    &&& 55 < len < 0x100_0000
    &&& header.len() + len <= bytes.len()
    &&& bytes.take(header.len() as int) == header
}

/// The header of a long string or list is accepted exactly where it is the shortest one for a
/// payload that is all there, and takes no more than itself. An empty list is its one byte.
pub proof fn law_accepted_header_is_the_shortest(rule: RlpDecodeRule, bytes: Seq<u8>, n: int)
    ensures
        rule == RlpDecodeRule::LongBytes ==> (field_outcome(rule, bytes) == accepted(n)
            <==> exists|len: nat| #[trigger]
            announces(bytes, 0x80, len) && n == item_header(0x80, len).len()),
        rule == RlpDecodeRule::LongList ==> (field_outcome(rule, bytes) == accepted(n)
            <==> exists|len: nat| #[trigger]
            announces(bytes, 0xc0, len) && n == item_header(0xc0, len).len()),
        rule == RlpDecodeRule::EmptyList ==> (field_outcome(rule, bytes) == accepted(n)
            <==> bytes.len() > 0 && bytes.take(1) == rlp_list(seq![]) && n == 1),
{
    if rule == RlpDecodeRule::LongBytes || rule == RlpDecodeRule::LongList {
        let base: int = if rule == RlpDecodeRule::LongBytes {
            0x80
        } else {
            0xc0
        };
        if field_outcome(rule, bytes) == accepted(n) {
            let k = bytes[0] - base - 55;
            lemma_header_read(base, bytes, k);
            let len = be_value(bytes.subrange(1, 1 + k)) as nat;
            assert(announces(bytes, base, len));
        }
        if exists|len: nat| #[trigger]
            announces(bytes, base, len) && n == item_header(base, len).len() {
            let len = choose|len: nat| #[trigger]
                announces(bytes, base, len) && n == item_header(base, len).len();
            lemma_header_written(base, len, bytes);
        }
    }
    if rule == RlpDecodeRule::EmptyList {
        assert(rlp_list(seq![]) =~= seq![0xc0u8]);
        if bytes.len() > 0 && bytes[0] == 0xc0 {
            assert(bytes.take(1) =~= rlp_list(seq![]));
        }
        if bytes.len() > 0 && bytes.take(1) == rlp_list(seq![]) {
            assert(bytes.take(1)[0] == 0xc0);
        }
    }
}

/// A first byte is refused exactly where no encoding of a value that the rule allows starts with
/// it.
pub proof fn law_first_byte_is_that_of_an_encoding(rule: RlpDecodeRule, byte0: u8)
    requires
        is_string_rule(rule),
    ensures
        rule.accepts(byte0) <==> exists|value: Seq<u8>| #[trigger]
            may_hold(rule, value) && rlp_string(value)[0] == byte0,
{
    if rule.accepts(byte0) {
        let value = if byte0 < 0x80 {
            seq![byte0]
        } else if byte0 <= 0xb7 {
            Seq::new((byte0 - 0x80) as nat, |i: int| 0xffu8)
        } else if byte0 == 0xb8 {
            Seq::new(0xff, |i: int| 0xffu8)
        } else if byte0 == 0xb9 {
            Seq::new(0xffff, |i: int| 0xffu8)
        } else {
            Seq::new(0xff_ffff, |i: int| 0xffu8)
        };
        if byte0 > 0xb7 {
            lemma_length_digits();
        }
        assert(may_hold(rule, value));
        assert(rlp_string(value)[0] == byte0);
    }
    if exists|value: Seq<u8>| #[trigger] may_hold(rule, value) && rlp_string(value)[0] == byte0 {
        let value = choose|value: Seq<u8>| #[trigger]
            may_hold(rule, value) && rlp_string(value)[0] == byte0;
        lemma_minimal_be(value.len());
        if value.len() > 55 {
            assert(rlp_string(value)[0] == 0xb7 + minimal_be(value.len()).len());
        }
    }
}

/// How many bytes some lengths take.
proof fn lemma_length_digits()
    ensures
        minimal_be(0xff).len() == 1,
        minimal_be(0xffff).len() == 2,
        minimal_be(0xff_ffff).len() == 3,
{
    reveal_with_fuel(minimal_be, 4);
    assert(0xffff_nat / 256 == 0xff);
    assert(0xff_ffff_nat / 256 == 0xffff);
    assert(0xff_nat / 256 == 0);
}

/// Once a field is decided, bytes behind it change nothing: neither that it is accepted, nor that
/// its first byte, its length or its value is wrong.
pub proof fn law_more_bytes_change_nothing(rule: RlpDecodeRule, bytes: Seq<u8>, more: Seq<u8>)
    requires
        !(field_outcome(rule, bytes).error matches Some(RlpDecodeErrorType::RunOutOfDataError(_))),
        rule == RlpDecodeRule::LongList ==> field_outcome(rule, bytes).error != Some(
            RlpDecodeErrorType::ValueError,
        ),
    ensures
        field_outcome(rule, bytes + more) == field_outcome(rule, bytes),
{
    let all = bytes + more;
    assert(all[0] == bytes[0]);
    if 0xb8 <= bytes[0] <= 0xba && bytes.len() > bytes[0] - 0xb7 {
        assert(all.subrange(1, 1 + (bytes[0] - 0xb7)) =~= bytes.subrange(
            1,
            1 + (bytes[0] - 0xb7),
        ));
    }
    if 0xf8 <= bytes[0] <= 0xfa && bytes.len() > bytes[0] - 0xf7 {
        assert(all.subrange(1, 1 + (bytes[0] - 0xf7)) =~= bytes.subrange(
            1,
            1 + (bytes[0] - 0xf7),
        ));
    }
}

/// The length in the header of a long item could be shorter, or an integer starts with a zero.
pub open spec fn is_overlong(bytes: Seq<u8>) -> bool {
    bytes[1] == 0 || (bytes[0] == 0xb8 || bytes[0] == 0xf8) && bytes[1] <= 55
}

/// What an error of a field tells: a wrong first byte is the one byte that is taken; bytes that run
/// out are all taken, and are fewer than the header needs or, behind it, than the field announces,
/// and the error tells that number; a wrong length has a zero in front, or is one byte of at most
/// 55; a wrong value is a single byte below 0x80 behind a header that it does not need, or the
/// payload that a list announces is not there.
pub proof fn law_errors_tell_what_is_wrong(rule: RlpDecodeRule, bytes: Seq<u8>)
    ensures
        ({
            let outcome = field_outcome(rule, bytes);
            match outcome.error {
                None => bytes.len() > 0 && rule.accepts(bytes[0]),
                Some(RlpDecodeErrorType::HeaderDecError) => {
                    &&& bytes.len() > 0
                    &&& !rule.accepts(bytes[0])
                    &&& outcome.consumed == 1
                },
                Some(RlpDecodeErrorType::RunOutOfDataError(n)) => {
                    &&& outcome.consumed == bytes.len()
                    &&& bytes.len() < n
                    &&& bytes.len() > 0 ==> rule.accepts(bytes[0])
                    &&& n == if bytes.len() == 0 {
                        1
                    } else if bytes.len() < head_size(bytes) {
                        head_size(bytes)
                    } else {
                        item_size(bytes)
                    }
                    &&& bytes.len() >= head_size(bytes) > 1 ==> !is_overlong(bytes)
                },
                Some(RlpDecodeErrorType::LenOfLenError) => {
                    &&& bytes.len() > 1
                    &&& outcome.consumed == 2
                    &&& is_overlong(bytes)
                    &&& bytes.len() >= head_size(bytes)
                    &&& head_size(bytes) == 1 ==> bytes.len() >= item_size(bytes)
                },
                Some(RlpDecodeErrorType::ValueError) => if rule == RlpDecodeRule::LongList {
                    &&& bytes.len() >= head_size(bytes)
                    &&& bytes.len() < item_size(bytes)
                    &&& !is_overlong(bytes)
                    &&& outcome.consumed == head_size(bytes)
                } else {
                    &&& bytes.len() > 1
                    &&& outcome.consumed == 2
                    &&& bytes.len() >= item_size(bytes)
                    &&& bytes[0] == 0x81
                    &&& bytes[1] < 0x80
                },
            }
        }),
        bytes.len() == 0 ==> field_outcome(rule, bytes).error is Some,
        bytes.len() > 0 && !rule.accepts(bytes[0]) ==> field_outcome(rule, bytes).error == Some(
            RlpDecodeErrorType::HeaderDecError,
        ),
{
    if bytes.len() > 0 {
        if 0xb8 <= bytes[0] <= 0xba && bytes.len() >= bytes[0] - 0xb6 {
            crate::decode::lemma_be_value_small(bytes.subrange(1, bytes[0] - 0xb6));
        }
        if 0xf8 <= bytes[0] <= 0xfa && bytes.len() >= bytes[0] - 0xf6 {
            crate::decode::lemma_be_value_small(bytes.subrange(1, bytes[0] - 0xf6));
        }
    }
}

/// The first bytes of headers of long strings and lists, of the empty list, and of what is passed
/// over.
pub proof fn law_first_byte_is_that_of_a_header(byte0: u8)
    ensures
        RlpDecodeRule::LongBytes.accepts(byte0) <==> exists|len: nat|
            55 < len < 0x100_0000 && #[trigger] item_header(0x80, len)[0] == byte0,
        RlpDecodeRule::LongList.accepts(byte0) <==> exists|len: nat|
            55 < len < 0x100_0000 && #[trigger] item_header(0xc0, len)[0] == byte0,
        RlpDecodeRule::EmptyList.accepts(byte0) <==> byte0 == rlp_list(seq![])[0],
        RlpDecodeRule::Padding.accepts(byte0) <==> byte0 == 0,
{
    lemma_length_digits();
    assert(rlp_list(seq![]) =~= seq![0xc0u8]);
    lemma_long_first_byte(0x80, byte0);
    lemma_long_first_byte(0xc0, byte0);
}

proof fn lemma_long_first_byte(base: int, byte0: u8)
    requires
        base == 0x80 || base == 0xc0,
    ensures
        base + 56 <= byte0 <= base + 58 <==> exists|len: nat|
            55 < len < 0x100_0000 && #[trigger] item_header(base, len)[0] == byte0,
{
    lemma_length_digits();
    if base + 56 <= byte0 <= base + 58 {
        let len: nat = if byte0 == base + 56 {
            0xff
        } else if byte0 == base + 57 {
            0xffff
        } else {
            0xff_ffff
        };
        assert(item_header(base, len)[0] == byte0);
    }
    if exists|len: nat| 55 < len < 0x100_0000 && #[trigger] item_header(base, len)[0] == byte0 {
        let len = choose|len: nat|
            55 < len < 0x100_0000 && #[trigger] item_header(base, len)[0] == byte0;
        lemma_minimal_be(len);
        assert(item_header(base, len)[0] == base + 55 + minimal_be(len).len());
    }
}

/// The fields of a list of transactions, in order. Behind the last of them comes the second again.
pub open spec fn field_order() -> Seq<RlpTxFieldTag> {
    seq![
        RlpTxFieldTag::TxListRlpHeader,
        RlpTxFieldTag::TypedTxHeader,
        RlpTxFieldTag::TxType,
        RlpTxFieldTag::TxRlpHeader,
        RlpTxFieldTag::ChainID,
        RlpTxFieldTag::Nonce,
        RlpTxFieldTag::GasTipCap,
        RlpTxFieldTag::GasFeeCap,
        RlpTxFieldTag::Gas,
        RlpTxFieldTag::To,
        RlpTxFieldTag::Value,
        RlpTxFieldTag::Data,
        RlpTxFieldTag::AccessList,
        RlpTxFieldTag::SignV,
        RlpTxFieldTag::SignR,
        RlpTxFieldTag::SignS,
    ]
}

/// What a field of a transaction may hold.
pub open spec fn field_may_hold(field: RlpTxFieldTag, value: Seq<u8>) -> bool {
    match field {
        RlpTxFieldTag::TxType => value == seq![2u8],
        RlpTxFieldTag::ChainID
        | RlpTxFieldTag::Nonce
        | RlpTxFieldTag::GasTipCap
        | RlpTxFieldTag::GasFeeCap
        | RlpTxFieldTag::Gas
        | RlpTxFieldTag::Value
        | RlpTxFieldTag::SignV => is_number(value, 12),
        RlpTxFieldTag::To => value.len() == 0 || value.len() == 20,
        RlpTxFieldTag::Data => value.len() < 0x100_0000,
        RlpTxFieldTag::SignR | RlpTxFieldTag::SignS => is_number(value, 32),
        _ => false,
    }
}

/// The field is a string.
pub open spec fn is_string_field(field: RlpTxFieldTag) -> bool {
    match field {
        RlpTxFieldTag::TxListRlpHeader
        | RlpTxFieldTag::TypedTxHeader
        | RlpTxFieldTag::TxRlpHeader
        | RlpTxFieldTag::AccessList
        | RlpTxFieldTag::GasPrice
        | RlpTxFieldTag::DecodeError
        | RlpTxFieldTag::Padding => false,
        _ => true,
    }
}

/// A step takes a field exactly where the shortest encoding of something that the field may hold
/// stands there, and then takes that encoding.
pub proof fn law_step_takes_the_field(
    field: RlpTxFieldTag,
    bytes: Seq<u8>,
    remain: int,
    value: Seq<u8>,
)
    requires
        is_string_field(field),
    ensures
        ({
            let s = step(field, bytes, remain);
            &&& field_may_hold(field, value) && starts_with(bytes, value) ==> s.error is None
                && s.consumed == rlp_string(value).len()
            &&& s.error is None ==> exists|v: Seq<u8>|
                field_may_hold(field, v) && #[trigger] starts_with(bytes, v) && s.consumed
                    == rlp_string(v).len()
        }),
{
    reveal(step);
    let rule = state_rule(field, bytes);
    let s = step(field, bytes, remain);
    if s.error is None {
        let v = lemma_accepted_is_written(rule, bytes, s.consumed);
        assert(starts_with(bytes, v));
    }
    if field_may_hold(field, value) && starts_with(bytes, value) {
        if field == RlpTxFieldTag::To {
            let w = rlp_string(value);
            assert(bytes.take(w.len() as int)[0] == w[0]);
        }
        lemma_written_is_accepted(rule, bytes, value);
    }
}

/// Where the first bytes of a header count from: that of a transaction is one of a string.
pub open spec fn header_base(field: RlpTxFieldTag) -> int {
    if field == RlpTxFieldTag::TypedTxHeader {
        0x80
    } else {
        0xc0
    }
}

/// A step takes the header of a transaction, of its fields or of the list exactly where it is the
/// shortest one for a payload that is all there; that of the list must announce all that is left.
pub proof fn law_step_takes_the_header(field: RlpTxFieldTag, bytes: Seq<u8>, len: nat)
    requires
        field == RlpTxFieldTag::TxListRlpHeader || field == RlpTxFieldTag::TypedTxHeader || field
            == RlpTxFieldTag::TxRlpHeader,
    ensures
        announces(bytes, header_base(field), len) ==> {
            let s = step(field, bytes, bytes.len() as int);
            &&& s.error is None
            &&& s.consumed == item_header(header_base(field), len).len()
            &&& s.mismatch <==> field == RlpTxFieldTag::TxListRlpHeader && s.consumed + len
                != bytes.len()
        },
        step(field, bytes, bytes.len() as int).error is None ==> exists|l: nat| #[trigger]
            announces(bytes, header_base(field), l) && step(
                field,
                bytes,
                bytes.len() as int,
            ).consumed == item_header(header_base(field), l).len(),
{
    reveal(step);
    let base = header_base(field);
    let rule = state_rule(field, bytes);
    let s = step(field, bytes, bytes.len() as int);
    if s.error is None {
        assert(field_outcome(rule, bytes) == accepted(s.consumed));
        law_accepted_header_is_the_shortest(rule, bytes, s.consumed);
        let l = if base == 0x80 {
            choose|l: nat| #[trigger]
                announces(bytes, 0x80, l) && s.consumed == item_header(0x80, l).len()
        } else {
            choose|l: nat| #[trigger]
                announces(bytes, 0xc0, l) && s.consumed == item_header(0xc0, l).len()
        };
        assert(announces(bytes, base, l) && s.consumed == item_header(base, l).len());
    }
    if announces(bytes, base, len) {
        let n = item_header(base, len).len() as int;
        law_accepted_header_is_the_shortest(rule, bytes, n);
        assert(field_outcome(rule, bytes) == accepted(n));
        lemma_header_written(base, len, bytes);
        assert(s.consumed == n);
        assert(be_value(bytes.subrange(1, n)) == len);
    }
}

/// A step goes to the next field, behind the last one to the next transaction or to the end, and
/// from an error to what is passed over, which goes on up to the end.
pub proof fn law_steps_go_through_the_fields(k: int, bytes: Seq<u8>, remain: int)
    requires
        0 <= k < 16,
    ensures
        ({
            let s = step(field_order()[k], bytes, remain);
            let sound = s.error is None && !s.mismatch;
            &&& sound && k < 15 ==> s.next == field_order()[k + 1]
            &&& sound && k == 15 && s.consumed < bytes.len() ==> s.next == field_order()[1]
            &&& sound && k == 15 && s.consumed == bytes.len() ==> s.next == RlpTxFieldTag::Padding
            &&& !sound ==> s.next == RlpTxFieldTag::DecodeError
        }),
        ({
            let s = step(RlpTxFieldTag::DecodeError, bytes, remain);
            &&& bytes.len() <= 33 ==> s.next == RlpTxFieldTag::Padding && s.consumed == bytes.len()
            &&& bytes.len() > 33 ==> s.next == RlpTxFieldTag::DecodeError && s.consumed == 33
        }),
{
    reveal(step);
    crate::state::lemma_step_bounds(field_order()[k], bytes, remain);
}

/// The table of fields that follow each other holds the order of the fields and the way to an
/// error, and nothing else.
pub proof fn law_followers_are_in_order(k: int, next: RlpTxFieldTag)
    requires
        0 <= k < 16,
    ensures
        followers(field_order()[k]).contains(next) <==> {
            ||| next == RlpTxFieldTag::DecodeError
            ||| k < 15 && next == field_order()[k + 1]
            ||| k == 15 && (next == field_order()[1] || next == RlpTxFieldTag::Padding)
        },
        followers(RlpTxFieldTag::DecodeError).contains(next) <==> next
            == RlpTxFieldTag::DecodeError || next == RlpTxFieldTag::Padding,
        followers(RlpTxFieldTag::Padding).contains(next) <==> next == RlpTxFieldTag::Padding,
{
    let f = followers(field_order()[k]);
    assert(f.contains(f[0]) && f.contains(f[1]) && f.contains(f[2]));
    let d = followers(RlpTxFieldTag::DecodeError);
    assert(d.contains(d[0]) && d.contains(d[2]));
    let p = followers(RlpTxFieldTag::Padding);
    assert(p.contains(p[0]));
}

/// The decoding type of a field tells how its first byte is read: as a string or as a list, and
/// with how many bytes of header.
pub proof fn law_type_tells_how_to_read(field: RlpTxFieldTag, bytes: Seq<u8>)
    requires
        bytes.len() > 0,
    ensures
        match rlp_type_of(field, bytes[0]) {
            RlpDecodeTypeTag::SingleByte => !is_list(bytes) && head_size(bytes) == 0,
            RlpDecodeTypeTag::NullValue => !is_list(bytes) && head_size(bytes) == 1 && body_size(
                bytes,
            ) == 0,
            RlpDecodeTypeTag::ShortStringValue => !is_list(bytes) && head_size(bytes) == 1 && 1
                <= body_size(bytes) <= 55 && field != RlpTxFieldTag::To && field
                != RlpTxFieldTag::Data,
            RlpDecodeTypeTag::ShortStringBytes => !is_list(bytes) && head_size(bytes) == 1 && 1
                <= body_size(bytes) <= 55 && (field == RlpTxFieldTag::To || field
                == RlpTxFieldTag::Data),
            RlpDecodeTypeTag::LongString1 => !is_list(bytes) && head_size(bytes) == 2,
            RlpDecodeTypeTag::LongString2 => !is_list(bytes) && head_size(bytes) == 3,
            RlpDecodeTypeTag::LongString3 => !is_list(bytes) && head_size(bytes) == 4,
            RlpDecodeTypeTag::EmptyList => is_list(bytes) && head_size(bytes) == 1 && body_size(
                bytes,
            ) == 0,
            RlpDecodeTypeTag::ShortList => is_list(bytes) && head_size(bytes) == 1 && 1
                <= body_size(bytes) <= 55,
            RlpDecodeTypeTag::LongList1 => is_list(bytes) && head_size(bytes) == 2,
            RlpDecodeTypeTag::LongList2 => is_list(bytes) && head_size(bytes) == 3,
            RlpDecodeTypeTag::LongList3 => is_list(bytes) && head_size(bytes) == 4,
            RlpDecodeTypeTag::DoNothing => head_size(bytes) > 4,
            RlpDecodeTypeTag::PartialRlp => false,
        },
{
}

} // verus!
