//! The tags that label the rows of the decoder circuit.

use vstd::prelude::*;

verus! {

/// RlpDecodeTypeTag is used to index the flag of rlp decoding type
#[derive(Debug, Clone, Copy, PartialEq, Eq, PartialOrd, Ord, Structural)]
pub enum RlpDecodeTypeTag {
    /// Nothing for no rlp decoding
    DoNothing,
    /// SingleByte: 0x00 - 0x7f
    SingleByte,
    /// NullValue: 0x80
    NullValue,
    /// ShortString: 0x81~0xb7, value means bytes without leading 0
    ShortStringValue,
    /// ShortString: 0x81~0xb7, bytes contains leading 0
    ShortStringBytes,
    /// LongString: 0xb8
    LongString1,
    /// LongString: 0xb9
    LongString2,
    /// LongString: 0xba
    LongString3,
    /// EmptyList: 0xc0
    EmptyList,
    /// ShortList: 0xc1 ~ 0xf7
    ShortList,
    /// LongList1: 0xf8
    LongList1,
    /// LongList2: 0xf9, 0xFFFF upto (64K)
    LongList2,
    /// LongList3: 0xfa, 0xFFFFFF upto (16M)
    LongList3,
    /// PartialRlp: for those rlp that is not complete
    PartialRlp,
}

/// How many decoding types there are.
pub const RLP_DECODE_TYPE_NUM: usize = 14;

impl RlpDecodeTypeTag {
    /// The position of the tag among the decoding types.
    pub open spec fn spec_ordinal(self) -> usize {
        match self {
            RlpDecodeTypeTag::DoNothing => 0,
            RlpDecodeTypeTag::SingleByte => 1,
            RlpDecodeTypeTag::NullValue => 2,
            RlpDecodeTypeTag::ShortStringValue => 3,
            RlpDecodeTypeTag::ShortStringBytes => 4,
            RlpDecodeTypeTag::LongString1 => 5,
            RlpDecodeTypeTag::LongString2 => 6,
            RlpDecodeTypeTag::LongString3 => 7,
            RlpDecodeTypeTag::EmptyList => 8,
            RlpDecodeTypeTag::ShortList => 9,
            RlpDecodeTypeTag::LongList1 => 10,
            RlpDecodeTypeTag::LongList2 => 11,
            RlpDecodeTypeTag::LongList3 => 12,
            RlpDecodeTypeTag::PartialRlp => 13,
        }
    }

    #[verifier::when_used_as_spec(spec_ordinal)]
    pub fn ordinal(self) -> (r: usize)
        ensures
            r == self.ordinal(),
            r < RLP_DECODE_TYPE_NUM,
    {
        match self {
            RlpDecodeTypeTag::DoNothing => 0,
            RlpDecodeTypeTag::SingleByte => 1,
            RlpDecodeTypeTag::NullValue => 2,
            RlpDecodeTypeTag::ShortStringValue => 3,
            RlpDecodeTypeTag::ShortStringBytes => 4,
            RlpDecodeTypeTag::LongString1 => 5,
            RlpDecodeTypeTag::LongString2 => 6,
            RlpDecodeTypeTag::LongString3 => 7,
            RlpDecodeTypeTag::EmptyList => 8,
            RlpDecodeTypeTag::ShortList => 9,
            RlpDecodeTypeTag::LongList1 => 10,
            RlpDecodeTypeTag::LongList2 => 11,
            RlpDecodeTypeTag::LongList3 => 12,
            RlpDecodeTypeTag::PartialRlp => 13,
        }
    }
}

impl Default for RlpDecodeTypeTag {
    fn default() -> (r: Self)
        ensures
            r == RlpDecodeTypeTag::DoNothing,
    {
        RlpDecodeTypeTag::DoNothing
    }
}

impl<T, const N: usize> std::ops::Index<RlpDecodeTypeTag> for [T; N] {
    type Output = T;

    fn index(&self, index: RlpDecodeTypeTag) -> (r: &T)
        ensures
            *r == self@[index.ordinal() as int],
    {
        &self[index.ordinal()]
    }
}

impl<T, const N: usize> vstd::std_specs::core::IndexSpecImpl<RlpDecodeTypeTag> for [T; N] {
    open spec fn index_req(&self, index: &RlpDecodeTypeTag) -> bool {
        index.ordinal() < N
    }
}

impl<T> std::ops::Index<RlpDecodeTypeTag> for Vec<T> {
    type Output = T;

    fn index(&self, index: RlpDecodeTypeTag) -> (r: &T)
        ensures
            *r == self@[index.ordinal() as int],
    {
        &self[index.ordinal()]
    }
}

impl<T> vstd::std_specs::core::IndexSpecImpl<RlpDecodeTypeTag> for Vec<T> {
    open spec fn index_req(&self, index: &RlpDecodeTypeTag) -> bool {
        index.ordinal() < self@.len()
    }
}

/// index type of decode error
#[derive(Debug, Clone, Copy, PartialEq, Eq, PartialOrd, Ord, Structural)]
pub enum RlpDecodeErrorType {
    /// the first byte is invalid, for example 0x00 for byte or 0xBF for list
    HeaderDecError,
    /// the length of rlp is invalid, for example 0xB836 or 0xB900FF for string
    LenOfLenError,
    /// the value of rlp is invalid, for example 0x8100 or 0x8179 for string
    ValueError,
    /// the rlp is not complete, for example 0xF8<EOF> for list; holds the length that the item
    /// should have had
    RunOutOfDataError(usize),
}

/// How many kinds of decode error there are.
pub const RLP_DECODE_ERROR_TYPE_NUM: usize = 4;

impl RlpDecodeErrorType {
    /// The position of the error among the kinds of decode error.
    pub open spec fn ordinal(self) -> usize {
        match self {
            RlpDecodeErrorType::HeaderDecError => 0,
            RlpDecodeErrorType::LenOfLenError => 1,
            RlpDecodeErrorType::ValueError => 2,
            RlpDecodeErrorType::RunOutOfDataError(_) => 3,
        }
    }
}

impl From<RlpDecodeErrorType> for usize {
    fn from(rlp_decode_error: RlpDecodeErrorType) -> (r: usize) {
        match rlp_decode_error {
            RlpDecodeErrorType::HeaderDecError => 0,
            RlpDecodeErrorType::LenOfLenError => 1,
            RlpDecodeErrorType::ValueError => 2,
            RlpDecodeErrorType::RunOutOfDataError(_) => 3,
        }
    }
}

impl vstd::std_specs::convert::FromSpecImpl<RlpDecodeErrorType> for usize {
    open spec fn obeys_from_spec() -> bool {
        true
    }

    open spec fn from_spec(rlp_decode_error: RlpDecodeErrorType) -> usize {
        rlp_decode_error.ordinal()
    }
}

impl<T, const N: usize> std::ops::Index<RlpDecodeErrorType> for [T; N] {
    type Output = T;

    fn index(&self, index: RlpDecodeErrorType) -> (r: &T)
        ensures
            *r == self@[index.ordinal() as int],
    {
        &self[usize::from(index)]
    }
}

impl<T, const N: usize> vstd::std_specs::core::IndexSpecImpl<RlpDecodeErrorType> for [T; N] {
    open spec fn index_req(&self, index: &RlpDecodeErrorType) -> bool {
        index.ordinal() < N
    }
}

impl<T> std::ops::Index<RlpDecodeErrorType> for Vec<T> {
    type Output = T;

    fn index(&self, index: RlpDecodeErrorType) -> (r: &T)
        ensures
            *r == self@[index.ordinal() as int],
    {
        &self[usize::from(index)]
    }
}

impl<T> vstd::std_specs::core::IndexSpecImpl<RlpDecodeErrorType> for Vec<T> {
    open spec fn index_req(&self, index: &RlpDecodeErrorType) -> bool {
        index.ordinal() < self@.len()
    }
}

/// RlpTxFieldTag is used to tell the field of tx, used as state in the circuit
#[derive(Debug, Clone, Copy, PartialEq, Eq, PartialOrd, Ord, Structural)]
pub enum RlpTxFieldTag {
    /// for tx list rlp header
    TxListRlpHeader,
    /// for rlp header
    TxRlpHeader,
    /// for tx nonce
    Nonce,
    /// gas price
    GasPrice,
    /// Gas
    Gas,
    /// To
    To,
    /// Value
    Value,
    /// Data
    Data,
    /// SignV
    SignV,
    /// SignR
    SignR,
    /// SignS
    SignS,
    /// DecodeError
    DecodeError,
    /// Padding
    Padding,
    /// 1559 tx container, which is a long string starts with 0xb8/b9/ba
    TypedTxHeader,
    /// for 1559 typed tx
    TxType,
    /// ChainID
    ChainID,
    /// GasTipCap
    GasTipCap,
    /// GasFeeCap
    GasFeeCap,
    /// AccessList
    AccessList,
}

/// How many field tags there are.
pub const TX1559_TX_FIELD_NUM: usize = 19;

impl RlpTxFieldTag {
    /// The position of the tag among the field tags.
    pub open spec fn spec_ordinal(self) -> usize {
        match self {
            RlpTxFieldTag::TxListRlpHeader => 0,
            RlpTxFieldTag::TxRlpHeader => 1,
            RlpTxFieldTag::Nonce => 2,
            RlpTxFieldTag::GasPrice => 3,
            RlpTxFieldTag::Gas => 4,
            RlpTxFieldTag::To => 5,
            RlpTxFieldTag::Value => 6,
            RlpTxFieldTag::Data => 7,
            RlpTxFieldTag::SignV => 8,
            RlpTxFieldTag::SignR => 9,
            RlpTxFieldTag::SignS => 10,
            RlpTxFieldTag::DecodeError => 11,
            RlpTxFieldTag::Padding => 12,
            RlpTxFieldTag::TypedTxHeader => 13,
            RlpTxFieldTag::TxType => 14,
            RlpTxFieldTag::ChainID => 15,
            RlpTxFieldTag::GasTipCap => 16,
            RlpTxFieldTag::GasFeeCap => 17,
            RlpTxFieldTag::AccessList => 18,
        }
    }

    #[verifier::when_used_as_spec(spec_ordinal)]
    pub fn ordinal(self) -> (r: usize)
        ensures
            r == self.ordinal(),
            r < TX1559_TX_FIELD_NUM,
    {
        match self {
            RlpTxFieldTag::TxListRlpHeader => 0,
            RlpTxFieldTag::TxRlpHeader => 1,
            RlpTxFieldTag::Nonce => 2,
            RlpTxFieldTag::GasPrice => 3,
            RlpTxFieldTag::Gas => 4,
            RlpTxFieldTag::To => 5,
            RlpTxFieldTag::Value => 6,
            RlpTxFieldTag::Data => 7,
            RlpTxFieldTag::SignV => 8,
            RlpTxFieldTag::SignR => 9,
            RlpTxFieldTag::SignS => 10,
            RlpTxFieldTag::DecodeError => 11,
            RlpTxFieldTag::Padding => 12,
            RlpTxFieldTag::TypedTxHeader => 13,
            RlpTxFieldTag::TxType => 14,
            RlpTxFieldTag::ChainID => 15,
            RlpTxFieldTag::GasTipCap => 16,
            RlpTxFieldTag::GasFeeCap => 17,
            RlpTxFieldTag::AccessList => 18,
        }
    }
}

/// The field tag at position `i`.
pub open spec fn tx_member_at(i: int) -> RlpTxFieldTag {
    if i == 0 {
        RlpTxFieldTag::TxListRlpHeader
    } else if i == 1 {
        RlpTxFieldTag::TxRlpHeader
    } else if i == 2 {
        RlpTxFieldTag::Nonce
    } else if i == 3 {
        RlpTxFieldTag::GasPrice
    } else if i == 4 {
        RlpTxFieldTag::Gas
    } else if i == 5 {
        RlpTxFieldTag::To
    } else if i == 6 {
        RlpTxFieldTag::Value
    } else if i == 7 {
        RlpTxFieldTag::Data
    } else if i == 8 {
        RlpTxFieldTag::SignV
    } else if i == 9 {
        RlpTxFieldTag::SignR
    } else if i == 10 {
        RlpTxFieldTag::SignS
    } else if i == 11 {
        RlpTxFieldTag::DecodeError
    } else if i == 12 {
        RlpTxFieldTag::Padding
    } else if i == 13 {
        RlpTxFieldTag::TypedTxHeader
    } else if i == 14 {
        RlpTxFieldTag::TxType
    } else if i == 15 {
        RlpTxFieldTag::ChainID
    } else if i == 16 {
        RlpTxFieldTag::GasTipCap
    } else if i == 17 {
        RlpTxFieldTag::GasFeeCap
    } else {
        RlpTxFieldTag::AccessList
    }
}

impl RlpTxFieldTag {
    /// The field tag at position `i`.
    pub fn from_ordinal(i: usize) -> (r: RlpTxFieldTag)
        requires
            i < TX1559_TX_FIELD_NUM,
        ensures
            r == tx_member_at(i as int),
            r.ordinal() == i,
    {
        match i {
            0 => RlpTxFieldTag::TxListRlpHeader,
            1 => RlpTxFieldTag::TxRlpHeader,
            2 => RlpTxFieldTag::Nonce,
            3 => RlpTxFieldTag::GasPrice,
            4 => RlpTxFieldTag::Gas,
            5 => RlpTxFieldTag::To,
            6 => RlpTxFieldTag::Value,
            7 => RlpTxFieldTag::Data,
            8 => RlpTxFieldTag::SignV,
            9 => RlpTxFieldTag::SignR,
            10 => RlpTxFieldTag::SignS,
            11 => RlpTxFieldTag::DecodeError,
            12 => RlpTxFieldTag::Padding,
            13 => RlpTxFieldTag::TypedTxHeader,
            14 => RlpTxFieldTag::TxType,
            15 => RlpTxFieldTag::ChainID,
            16 => RlpTxFieldTag::GasTipCap,
            17 => RlpTxFieldTag::GasFeeCap,
            _ => RlpTxFieldTag::AccessList,
        }
    }
}

impl Default for RlpTxFieldTag {
    fn default() -> (r: Self)
        ensures
            r == RlpTxFieldTag::TxListRlpHeader,
    {
        RlpTxFieldTag::TxListRlpHeader
    }
}

impl<T, const N: usize> std::ops::Index<RlpTxFieldTag> for [T; N] {
    type Output = T;

    fn index(&self, index: RlpTxFieldTag) -> (r: &T)
        ensures
            *r == self@[index.ordinal() as int],
    {
        &self[index.ordinal()]
    }
}

impl<T, const N: usize> vstd::std_specs::core::IndexSpecImpl<RlpTxFieldTag> for [T; N] {
    open spec fn index_req(&self, index: &RlpTxFieldTag) -> bool {
        index.ordinal() < N
    }
}

impl<T> std::ops::Index<RlpTxFieldTag> for Vec<T> {
    type Output = T;

    fn index(&self, index: RlpTxFieldTag) -> (r: &T)
        ensures
            *r == self@[index.ordinal() as int],
    {
        &self[index.ordinal()]
    }
}

impl<T> vstd::std_specs::core::IndexSpecImpl<RlpTxFieldTag> for Vec<T> {
    open spec fn index_req(&self, index: &RlpTxFieldTag) -> bool {
        index.ordinal() < self@.len()
    }
}

/// RlpTxTypeTag is used to tell the type of tx
#[derive(Debug, Clone, Copy, PartialEq, Eq, PartialOrd, Ord, Structural)]
pub enum RlpTxTypeTag {
    /// legacy tx
    TxLegacyType,
    /// 1559 tx
    Tx1559Type,
}

impl RlpTxTypeTag {
    /// The position of the tag among the transaction types.
    pub open spec fn spec_ordinal(self) -> usize {
        match self {
            RlpTxTypeTag::TxLegacyType => 0,
            RlpTxTypeTag::Tx1559Type => 1,
        }
    }

    #[verifier::when_used_as_spec(spec_ordinal)]
    pub fn ordinal(self) -> (r: usize)
        ensures
            r == self.ordinal(),
            r < 2,
    {
        match self {
            RlpTxTypeTag::TxLegacyType => 0,
            RlpTxTypeTag::Tx1559Type => 1,
        }
    }
}

impl Default for RlpTxTypeTag {
    fn default() -> (r: Self)
        ensures
            r == RlpTxTypeTag::TxLegacyType,
    {
        RlpTxTypeTag::TxLegacyType
    }
}

} // verus!
