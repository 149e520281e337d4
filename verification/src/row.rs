//! The rows of the decoder circuit's witness.

use crate::decode::{bytes_outcome, uint_outcome};
use crate::field::{pow_mod, Field};
use crate::tags::{
    RlpDecodeErrorType, RlpDecodeTypeTag, RlpTxFieldTag, RlpTxTypeTag, RLP_DECODE_ERROR_TYPE_NUM,
};
use vstd::prelude::*;

verus! {

/// max byte column num which is used to store the rlp raw bytes
pub const MAX_BYTE_COLUMN_NUM: usize = 33;

/// Witness for RlpDecoderCircuit
#[derive(Clone, Debug, PartialEq, Eq)]
pub struct RlpDecoderCircuitConfigWitness<F: Field> {
    /// tx_id column
    pub tx_id: u64,
    /// tx_type column
    pub tx_type: RlpTxTypeTag,
    /// tag column
    pub tx_member: RlpTxFieldTag,
    /// complete column
    pub complete: bool,
    /// rlp types: [single, short, long, very_long, fixed(33)]
    pub rlp_type: RlpDecodeTypeTag,
    /// rlp_tag_length, the length of this rlp field
    pub rlp_tx_member_length: u64,
    /// remained rows, for n < 33 fields, it is n, for m > 33 fields, it is 33 and next row is
    /// partial, next_length = m - 33
    pub rlp_bytes_in_row: u8,
    /// r_mult column, (length, r_mult) => @fixed
    pub r_mult: F,
    /// remain_length
    pub rlp_remain_length: usize,
    /// value
    pub value: F,
    /// acc_rlc_value
    pub acc_rlc_value: F,
    /// bytes
    pub bytes: Vec<u8>,
    /// decode error types: [header, len_of_len, value, run_out_of_data]
    pub errors: [bool; RLP_DECODE_ERROR_TYPE_NUM],
    /// valid, 0 for invalid, 1 for valid, should be == decodable at the end of the circuit
    pub valid: bool,
    /// full chip enable
    pub q_enable: bool,
    /// the begining
    pub q_first: bool,
    /// the end
    pub q_last: bool,
    /// r_mult_comp
    pub r_mult_comp: F,
    /// rlc_quotient
    pub rlc_quotient: F,
}

/// A row of the witness, with its numbers as integers and its field elements as residues.
#[verifier::ext_equal]
pub struct Row {
    pub tx_id: int,
    pub tx_type: RlpTxTypeTag,
    pub tx_member: RlpTxFieldTag,
    pub complete: bool,
    pub rlp_type: RlpDecodeTypeTag,
    pub rlp_tx_member_length: int,
    pub rlp_bytes_in_row: int,
    pub r_mult: int,
    pub rlp_remain_length: int,
    pub value: int,
    pub acc_rlc_value: int,
    pub bytes: Seq<u8>,
    pub errors: Seq<bool>,
    pub valid: bool,
    pub q_enable: bool,
    pub q_first: bool,
    pub q_last: bool,
    pub r_mult_comp: int,
    pub rlc_quotient: int,
}

impl<F: Field> View for RlpDecoderCircuitConfigWitness<F> {
    type V = Row;

    open spec fn view(&self) -> Row {
        Row {
            tx_id: self.tx_id as int,
            tx_type: self.tx_type,
            tx_member: self.tx_member,
            complete: self.complete,
            rlp_type: self.rlp_type,
            rlp_tx_member_length: self.rlp_tx_member_length as int,
            rlp_bytes_in_row: self.rlp_bytes_in_row as int,
            r_mult: self.r_mult.val(),
            rlp_remain_length: self.rlp_remain_length as int,
            value: self.value.val(),
            acc_rlc_value: self.acc_rlc_value.val(),
            bytes: self.bytes@,
            errors: self.errors@,
            valid: self.valid,
            q_enable: self.q_enable,
            q_first: self.q_first,
            q_last: self.q_last,
            r_mult_comp: self.r_mult_comp.val(),
            rlc_quotient: self.rlc_quotient.val(),
        }
    }
}

/// The rows of a witness.
pub open spec fn rows<F: Field>(witness: Seq<RlpDecoderCircuitConfigWitness<F>>) -> Seq<Row> {
    witness.map_values(|w: RlpDecoderCircuitConfigWitness<F>| w@)
}

/// No error is flagged.
pub open spec fn no_errors() -> Seq<bool> {
    seq![false, false, false, false]
}

/// The row that is zero in every column.
pub open spec fn blank_row() -> Row {
    Row {
        tx_id: 0,
        tx_type: RlpTxTypeTag::TxLegacyType,
        tx_member: RlpTxFieldTag::TxListRlpHeader,
        complete: false,
        rlp_type: RlpDecodeTypeTag::DoNothing,
        rlp_tx_member_length: 0,
        rlp_bytes_in_row: 0,
        r_mult: 0,
        rlp_remain_length: 0,
        value: 0,
        acc_rlc_value: 0,
        bytes: seq![],
        errors: no_errors(),
        valid: false,
        q_enable: false,
        q_first: false,
        q_last: false,
        r_mult_comp: 0,
        rlc_quotient: 0,
    }
}

impl<F: Field> Default for RlpDecoderCircuitConfigWitness<F> {
    fn default() -> (r: Self)
        ensures
            r@ == blank_row(),
    {
        let bytes: Vec<u8> = Vec::new();
        let r = RlpDecoderCircuitConfigWitness {
            tx_id: 0,
            tx_type: RlpTxTypeTag::default(),
            tx_member: RlpTxFieldTag::default(),
            complete: false,
            rlp_type: RlpDecodeTypeTag::default(),
            rlp_tx_member_length: 0,
            rlp_bytes_in_row: 0,
            r_mult: F::zero(),
            rlp_remain_length: 0,
            value: F::zero(),
            acc_rlc_value: F::zero(),
            bytes,
            errors: [false, false, false, false],
            valid: false,
            q_enable: false,
            q_first: false,
            q_last: false,
            r_mult_comp: F::zero(),
            rlc_quotient: F::zero(),
        };
        assert(r@ =~= blank_row());
        r
    }
}

/// The first byte of a field, with zero for a field without bytes.
pub open spec fn header_byte(bytes: Seq<u8>) -> u8 {
    if bytes.len() > 0 {
        bytes[0]
    } else {
        0
    }
}

/// The byte after the first is there and is at least `least`.
pub open spec fn second_byte_at_least(bytes: Seq<u8>, least: int) -> bool {
    bytes.len() > 1 && bytes[1] >= least
}

/// The decoding type that the first byte of a field announces.
pub open spec fn rlp_type_of(member: RlpTxFieldTag, byte0: u8) -> RlpDecodeTypeTag {
    if byte0 <= 0x7f {
        RlpDecodeTypeTag::SingleByte
    } else if byte0 == 0x80 {
        RlpDecodeTypeTag::NullValue
    } else if byte0 <= 0xb7 {
        if member == RlpTxFieldTag::To || member == RlpTxFieldTag::Data {
            RlpDecodeTypeTag::ShortStringBytes
        } else {
            RlpDecodeTypeTag::ShortStringValue
        }
    } else if byte0 == 0xb8 {
        RlpDecodeTypeTag::LongString1
    } else if byte0 == 0xb9 {
        RlpDecodeTypeTag::LongString2
    } else if byte0 == 0xba {
        RlpDecodeTypeTag::LongString3
    } else if byte0 < 0xc0 {
        RlpDecodeTypeTag::DoNothing
    } else if byte0 == 0xc0 {
        RlpDecodeTypeTag::EmptyList
    } else if byte0 <= 0xf7 {
        RlpDecodeTypeTag::ShortList
    } else if byte0 == 0xf8 {
        RlpDecodeTypeTag::LongList1
    } else if byte0 == 0xf9 {
        RlpDecodeTypeTag::LongList2
    } else if byte0 == 0xfa {
        RlpDecodeTypeTag::LongList3
    } else {
        RlpDecodeTypeTag::DoNothing
    }
}

/// The decoding type of a field, and whether its header, its length and its value can be decoded.
pub fn generate_rlp_type_witness(tx_member: &RlpTxFieldTag, bytes: &[u8]) -> (r: (
    RlpDecodeTypeTag,
    bool,
    bool,
    bool,
))
    ensures
        r.0 == rlp_type_of(*tx_member, header_byte(bytes@)),
        r.1 == (header_byte(bytes@) != 0 && r.0 != RlpDecodeTypeTag::DoNothing),
        r.2 == match r.0 {
            RlpDecodeTypeTag::LongString1 => second_byte_at_least(bytes@, 0x80),
            RlpDecodeTypeTag::LongString2 | RlpDecodeTypeTag::LongString3 => second_byte_at_least(
                bytes@,
                1,
            ),
            _ => true,
        },
        r.3 == match r.0 {
            RlpDecodeTypeTag::ShortStringValue => second_byte_at_least(
                bytes@,
                if bytes@[0] == 0x81 {
                    0x80
                } else {
                    1
                },
            ),
            _ => true,
        },
        r.1 == (bytes@.len() > 0 && (0 < bytes@[0] <= 0xba || 0xc0 <= bytes@[0] <= 0xfa)),
        *tx_member != RlpTxFieldTag::To && *tx_member != RlpTxFieldTag::Data && bytes@.len() > 0
            && 0x81 <= bytes@[0] <= 0xa0 && bytes@.len() >= bytes@[0] - 0x7f ==> r.3 == (
        uint_outcome(bytes@).error is None),
        bytes@.len() > 0 && 0xb9 <= bytes@[0] <= 0xba && bytes@.len() >= bytes@[0] - 0xb6 ==> r.2
            == (bytes_outcome(bytes@).error != Some(
            RlpDecodeErrorType::LenOfLenError,
        )),
{
    let mut header_decodable = true;
    let mut len_decodable = true;
    let mut value_decodable = true;
    let header_byte: u8 = if bytes.len() > 0 {
        bytes[0]
    } else {
        0
    };
    let rlp_type = match header_byte {
        0x00 => {
            header_decodable = false;
            RlpDecodeTypeTag::SingleByte
        },
        0x01..=0x7f => RlpDecodeTypeTag::SingleByte,
        0x80 => RlpDecodeTypeTag::NullValue,
        0x81..=0xb7 => {
            if header_byte == 0x81 {
                value_decodable = bytes.len() > 1 && bytes[1] >= 0x80;
            } else {
                value_decodable = bytes.len() > 1 && bytes[1] > 0;
            }
            match tx_member {
                RlpTxFieldTag::To => {
                    value_decodable = true;
                    RlpDecodeTypeTag::ShortStringBytes
                },
                RlpTxFieldTag::Data => {
                    value_decodable = true;
                    RlpDecodeTypeTag::ShortStringBytes
                },
                _ => RlpDecodeTypeTag::ShortStringValue,
            }
        },
        0xb8 => {
            len_decodable = bytes.len() > 1 && bytes[1] >= 0x80;
            RlpDecodeTypeTag::LongString1
        },
        0xb9 => {
            len_decodable = bytes.len() > 1 && bytes[1] > 0;
            RlpDecodeTypeTag::LongString2
        },
        0xba => {
            len_decodable = bytes.len() > 1 && bytes[1] > 0;
            RlpDecodeTypeTag::LongString3
        },
        0xc0 => RlpDecodeTypeTag::EmptyList,
        0xc1..=0xf7 => RlpDecodeTypeTag::ShortList,
        0xf8 => RlpDecodeTypeTag::LongList1,
        0xf9 => RlpDecodeTypeTag::LongList2,
        0xfa => RlpDecodeTypeTag::LongList3,
        _ => {
            header_decodable = false;
            RlpDecodeTypeTag::DoNothing
        },
    };
    (rlp_type, header_decodable, len_decodable, value_decodable)
}

/// How many rows `len` bytes of a field take.
pub open spec fn row_count(len: nat) -> nat {
    if len == 0 {
        1
    } else {
        (len + MAX_BYTE_COLUMN_NUM - 1) as nat / MAX_BYTE_COLUMN_NUM as nat
    }
}

/// The flags of an error, or of none.
pub open spec fn error_flags(error: Option<RlpDecodeErrorType>) -> Seq<bool> {
    match error {
        Some(e) => no_errors().update(e.ordinal() as int, true),
        None => no_errors(),
    }
}

/// The length that a field should have had, given the bytes that were read for it.
pub open spec fn declared_length(raw: Seq<u8>, error: Option<RlpDecodeErrorType>) -> int {
    match error {
        Some(RlpDecodeErrorType::RunOutOfDataError(len)) => len as int,
        _ => raw.len() as int,
    }
}

/// Row `i` of a field that `raw` was read for, `remain` bytes being left before it.
///
/// A field of more than 33 bytes takes several rows, full but for the last. Only the last of them
/// is complete and carries the error. The combinations of the bytes are filled in later.
pub open spec fn field_row(
    tx_id: int,
    member: RlpTxFieldTag,
    raw: Seq<u8>,
    r: int,
    m: int,
    remain: int,
    error: Option<RlpDecodeErrorType>,
    i: int,
) -> Row {
    let start = i * MAX_BYTE_COLUMN_NUM;
    let last = i == row_count(raw.len()) - 1;
    let n = if last {
        raw.len() - start
    } else {
        MAX_BYTE_COLUMN_NUM as int
    };
    Row {
        tx_id,
        tx_type: RlpTxTypeTag::Tx1559Type,
        tx_member: member,
        complete: last,
        rlp_type: if i == 0 {
            rlp_type_of(member, header_byte(raw))
        } else {
            RlpDecodeTypeTag::PartialRlp
        },
        rlp_tx_member_length: if last {
            n
        } else {
            declared_length(raw, error) - start
        },
        rlp_bytes_in_row: n,
        r_mult: pow_mod(r, n as nat, m),
        rlp_remain_length: remain - start - n,
        value: 0,
        acc_rlc_value: 0,
        bytes: raw.subrange(start, start + n),
        errors: if last {
            error_flags(error)
        } else {
            no_errors()
        },
        valid: !last || (member != RlpTxFieldTag::DecodeError && error is None),
        q_enable: true,
        q_first: last && member == RlpTxFieldTag::TxListRlpHeader,
        q_last: false,
        r_mult_comp: pow_mod(r, (MAX_BYTE_COLUMN_NUM - n) as nat, m),
        rlc_quotient: 0,
    }
}

/// The rows of a field that `raw` was read for.
pub open spec fn field_rows(
    tx_id: int,
    member: RlpTxFieldTag,
    raw: Seq<u8>,
    r: int,
    m: int,
    remain: int,
    error: Option<RlpDecodeErrorType>,
) -> Seq<Row> {
    Seq::new(row_count(raw.len()), |i: int| field_row(tx_id, member, raw, r, m, remain, error, i))
}

/// The error can come with the bytes that were read: bytes that run out are fewer than announced,
/// and any other error lies within one row.
pub open spec fn error_fits(raw: Seq<u8>, error: Option<RlpDecodeErrorType>) -> bool {
    match error {
        None => true,
        Some(RlpDecodeErrorType::RunOutOfDataError(len)) => raw.len() < len,
        Some(_) => raw.len() <= MAX_BYTE_COLUMN_NUM,
    }
}

/// A copy of the bytes from `from` up to `to`.
pub fn copy_range(bytes: &[u8], from: usize, to: usize) -> (r: Vec<u8>)
    requires
        from <= to <= bytes@.len(),
    ensures
        r@ == bytes@.subrange(from as int, to as int),
{
    let mut out: Vec<u8> = Vec::new();
    let mut i: usize = from;
    while i < to
        invariant
            from <= i <= to <= bytes@.len(),
            out@ == bytes@.subrange(from as int, i as int),
        decreases to - i,
    {
        out.push(bytes[i]);
        i = i + 1;
    }
    out
}

/// The rows for the bytes that were read for a field.
pub fn generate_rlp_row_witness_new<F: Field>(
    tx_id: u64,
    tx_member: &RlpTxFieldTag,
    raw_bytes: &[u8],
    r: F,
    rlp_remain_length: usize,
    error_type: Option<RlpDecodeErrorType>,
) -> (witness: Vec<RlpDecoderCircuitConfigWitness<F>>)
    requires
        *tx_member != RlpTxFieldTag::Padding,
        raw_bytes@.len() <= rlp_remain_length,
        error_fits(raw_bytes@, error_type),
    ensures
        rows(witness@) == field_rows(
            tx_id as int,
            *tx_member,
            raw_bytes@,
            r.val(),
            F::modulus(),
            rlp_remain_length as int,
            error_type,
        ),
        forall|i: int|
            #![trigger witness@[i]]
            r.val() != 0 && 0 <= i < witness@.len() ==> witness@[i].r_mult_comp.val() != 0,
{
    let mut witness: Vec<RlpDecoderCircuitConfigWitness<F>> = Vec::new();
    let (mut rlp_type, _, _, _) = generate_rlp_type_witness(tx_member, raw_bytes);
    let mut rlp_tx_member_len: usize = raw_bytes.len();
    let mut rlp_bytes_remain_len: usize = raw_bytes.len();
    let mut prev_rlp_remain_length: usize = rlp_remain_length;

    let mut errors: [bool; RLP_DECODE_ERROR_TYPE_NUM] = [false, false, false, false];
    if let Some(error_idx) = error_type {
        let at: usize = usize::from(error_idx);
        errors[at] = true;
        if let RlpDecodeErrorType::RunOutOfDataError(decode_len) = error_idx {
            rlp_tx_member_len = decode_len;
        }
    }
    assert(errors@ =~= error_flags(error_type));
    let ghost (g_id, g_member, g_raw, g_r, g_m, g_remain) = (
        tx_id as int,
        *tx_member,
        raw_bytes@,
        r.val(),
        F::modulus(),
        rlp_remain_length as int,
    );
    let ghost n = row_count(g_raw.len());
    proof {
        r.val_range();
        assert(pow_mod(g_r, 0, g_m) == 1) by {
            vstd::arithmetic::power::lemma_pow0(g_r);
            vstd::arithmetic::div_mod::lemma_small_mod(1, g_m as nat);
        }
    }

    let mut tag_remain_length: usize = rlp_tx_member_len;
    let mut raw_bytes_offset: usize = 0;
    let ghost mut i: int = 0;
    while rlp_bytes_remain_len > MAX_BYTE_COLUMN_NUM
        invariant
            g_id == tx_id,
            g_member == *tx_member,
            g_raw == raw_bytes@,
            g_r == r.val(),
            g_m == F::modulus(),
            g_remain == rlp_remain_length,
            g_raw.len() <= g_remain,
            pow_mod(g_r, 0, g_m) == 1,
            n == row_count(g_raw.len()),
            error_fits(g_raw, error_type),
            rlp_tx_member_len == declared_length(g_raw, error_type),
            0 <= i < n,
            i == witness@.len(),
            raw_bytes_offset == 33 * i,
            rlp_bytes_remain_len == g_raw.len() - 33 * i,
            rlp_bytes_remain_len > 0 || i == 0,
            tag_remain_length == rlp_tx_member_len - 33 * i,
            prev_rlp_remain_length == g_remain - 33 * i,
            rlp_type == if i == 0 {
                rlp_type_of(g_member, header_byte(g_raw))
            } else {
                RlpDecodeTypeTag::PartialRlp
            },
            forall|j: int|
                #![trigger witness@[j]]
                0 <= j < i ==> witness@[j]@ == field_row(
                    g_id,
                    g_member,
                    g_raw,
                    g_r,
                    g_m,
                    g_remain,
                    error_type,
                    j,
                ),
            forall|j: int|
                #![trigger witness@[j]]
                g_r != 0 && 0 <= j < i ==> witness@[j].r_mult_comp.val() != 0,
        decreases rlp_bytes_remain_len,
    {
        let row = RlpDecoderCircuitConfigWitness {
            tx_id,
            tx_type: RlpTxTypeTag::Tx1559Type,
            tx_member: *tx_member,
            complete: false,
            rlp_type,
            rlp_tx_member_length: tag_remain_length as u64,
            rlp_bytes_in_row: MAX_BYTE_COLUMN_NUM as u8,
            r_mult: r.pow(MAX_BYTE_COLUMN_NUM as u64),
            rlp_remain_length: prev_rlp_remain_length - MAX_BYTE_COLUMN_NUM,
            value: F::zero(),
            acc_rlc_value: F::zero(),
            bytes: copy_range(
                raw_bytes,
                raw_bytes_offset,
                raw_bytes_offset + MAX_BYTE_COLUMN_NUM,
            ),
            errors: [false, false, false, false],
            valid: true,
            q_enable: true,
            q_first: false,
            q_last: false,
            r_mult_comp: F::one(),
            rlc_quotient: F::zero(),
        };
        assert(row.errors@ =~= no_errors());
        assert(row@ =~= field_row(g_id, g_member, g_raw, g_r, g_m, g_remain, error_type, i));
        witness.push(row);
        raw_bytes_offset = raw_bytes_offset + MAX_BYTE_COLUMN_NUM;
        tag_remain_length = tag_remain_length - MAX_BYTE_COLUMN_NUM;
        rlp_bytes_remain_len = rlp_bytes_remain_len - MAX_BYTE_COLUMN_NUM;
        prev_rlp_remain_length = prev_rlp_remain_length - MAX_BYTE_COLUMN_NUM;
        rlp_type = RlpDecodeTypeTag::PartialRlp;
        proof {
            i = i + 1;
        }
    }
    let valid = *tx_member != RlpTxFieldTag::DecodeError && error_type.is_none();
    let row = RlpDecoderCircuitConfigWitness {
        tx_id,
        tx_type: RlpTxTypeTag::Tx1559Type,
        tx_member: *tx_member,
        complete: true,
        rlp_type,
        rlp_tx_member_length: rlp_bytes_remain_len as u64,
        rlp_bytes_in_row: rlp_bytes_remain_len as u8,
        r_mult: r.pow(rlp_bytes_remain_len as u64),
        rlp_remain_length: prev_rlp_remain_length - rlp_bytes_remain_len,
        value: F::zero(),
        acc_rlc_value: F::zero(),
        bytes: copy_range(raw_bytes, raw_bytes_offset, raw_bytes.len()),
        errors,
        valid,
        q_enable: true,
        q_first: *tx_member == RlpTxFieldTag::TxListRlpHeader,
        q_last: false,
        r_mult_comp: r.pow((MAX_BYTE_COLUMN_NUM - rlp_bytes_remain_len) as u64),
        rlc_quotient: F::zero(),
    };
    assert(row@ =~= field_row(g_id, g_member, g_raw, g_r, g_m, g_remain, error_type, i));
    witness.push(row);
    proof {
        assert(rows(witness@) =~= field_rows(
            g_id,
            g_member,
            g_raw,
            g_r,
            g_m,
            g_remain,
            error_type,
        ));
    }
    witness
}

} // verus!
