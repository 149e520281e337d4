//! The state machine that walks through the fields of the transactions and lays out their rows.

use crate::accumulate::{complete_paddings_new, fixup_acc_rlc_new, padding_rows, rlc_fixed};
use crate::decode::{
    be_value, decode_field, field_outcome, lemma_be_value_small, lemma_field_outcome, rlp_bytes_len,
};
use crate::field::Field;
use crate::keccak::{keccak256, keccak256_digest};
use crate::rlc;
use crate::rlc::rlc_be;
use crate::rlp_decoder_tables::{rlp_tx_field_decode_rules, tx1559_field_rules, RlpDecodeRule};
use crate::row::{
    blank_row, copy_range, field_rows, generate_rlp_row_witness_new, rows, Row,
    RlpDecoderCircuitConfigWitness, MAX_BYTE_COLUMN_NUM,
};
use crate::tags::{RlpDecodeErrorType, RlpTxFieldTag, RlpTxTypeTag};
use vstd::prelude::*;
use vstd::slice::slice_subrange;

verus! {

/// The rows at the end that are kept for blinding.
pub const NUM_BLINDING_ROWS: usize = 64;

/// The field that follows a sound one, by whether that one ends the bytes.
///
/// Behind the last field of a transaction comes the next transaction, or the end.
pub open spec fn successor(state: RlpTxFieldTag, ends: bool) -> RlpTxFieldTag {
    match state {
        RlpTxFieldTag::TxListRlpHeader => RlpTxFieldTag::TypedTxHeader,
        RlpTxFieldTag::TypedTxHeader => RlpTxFieldTag::TxType,
        RlpTxFieldTag::TxType => RlpTxFieldTag::TxRlpHeader,
        RlpTxFieldTag::TxRlpHeader => RlpTxFieldTag::ChainID,
        RlpTxFieldTag::ChainID => RlpTxFieldTag::Nonce,
        RlpTxFieldTag::Nonce => RlpTxFieldTag::GasTipCap,
        RlpTxFieldTag::GasTipCap => RlpTxFieldTag::GasFeeCap,
        RlpTxFieldTag::GasFeeCap => RlpTxFieldTag::Gas,
        RlpTxFieldTag::GasPrice => RlpTxFieldTag::Gas,
        RlpTxFieldTag::Gas => RlpTxFieldTag::To,
        RlpTxFieldTag::To => RlpTxFieldTag::Value,
        RlpTxFieldTag::Value => RlpTxFieldTag::Data,
        RlpTxFieldTag::Data => RlpTxFieldTag::AccessList,
        RlpTxFieldTag::AccessList => RlpTxFieldTag::SignV,
        RlpTxFieldTag::SignV => RlpTxFieldTag::SignR,
        RlpTxFieldTag::SignR => RlpTxFieldTag::SignS,
        RlpTxFieldTag::SignS => if ends {
            RlpTxFieldTag::Padding
        } else {
            RlpTxFieldTag::TypedTxHeader
        },
        RlpTxFieldTag::DecodeError => RlpTxFieldTag::DecodeError,
        RlpTxFieldTag::Padding => RlpTxFieldTag::Padding,
    }
}

/// The rule for the field `state` at the front of `bytes`. An address may be left empty.
pub open spec fn state_rule(state: RlpTxFieldTag, bytes: Seq<u8>) -> RlpDecodeRule {
    if state == RlpTxFieldTag::To && bytes.len() >= 1 && bytes[0] == 0x80 {
        RlpDecodeRule::Empty
    } else {
        tx1559_field_rules(state)[0]
    }
}

/// One step of the machine.
pub struct Step {
    /// The bytes that the step takes.
    pub consumed: int,
    /// The error that the field ends in.
    pub error: Option<RlpDecodeErrorType>,
    /// The header of the whole list announces another length than the bytes behind it have.
    pub mismatch: bool,
    /// The state after the step.
    pub next: RlpTxFieldTag,
}

/// The step from `state` at the front of `bytes`, when `remain` bytes are left.
///
/// After an error, the rest of the bytes is passed over, one row at a time.
#[verifier::opaque]
pub open spec fn step(state: RlpTxFieldTag, bytes: Seq<u8>, remain: int) -> Step {
    if state == RlpTxFieldTag::DecodeError {
        if bytes.len() <= MAX_BYTE_COLUMN_NUM {
            Step {
                consumed: bytes.len() as int,
                error: None,
                mismatch: false,
                next: RlpTxFieldTag::Padding,
            }
        } else {
            Step {
                consumed: MAX_BYTE_COLUMN_NUM as int,
                error: None,
                mismatch: false,
                next: RlpTxFieldTag::DecodeError,
            }
        }
    } else {
        let outcome = field_outcome(state_rule(state, bytes), bytes);
        let mismatch = state == RlpTxFieldTag::TxListRlpHeader && be_value(
            bytes.subrange(1, outcome.consumed),
        ) != remain - outcome.consumed;
        Step {
            consumed: outcome.consumed,
            error: outcome.error,
            mismatch,
            next: if outcome.error is Some || mismatch {
                RlpTxFieldTag::DecodeError
            } else {
                successor(state, outcome.consumed == bytes.len())
            },
        }
    }
}

/// `row`, marked as holding a wrong value.
pub open spec fn value_error(row: Row) -> Row {
    Row {
        errors: row.errors.update(RlpDecodeErrorType::ValueError.ordinal() as int, true),
        valid: false,
        ..row
    }
}

/// The rows that one step lays out.
#[verifier::opaque]
pub open spec fn step_rows(
    state: RlpTxFieldTag,
    tx_id: int,
    bytes: Seq<u8>,
    remain: int,
    r: int,
    m: int,
) -> Seq<Row> {
    let s = step(state, bytes, remain);
    let laid_out = field_rows(tx_id, state, bytes.take(s.consumed), r, m, remain, s.error);
    if s.mismatch {
        laid_out.update(laid_out.len() - 1, value_error(laid_out.last()))
    } else {
        laid_out
    }
}

/// A step takes no more bytes than there are, and at least one where there is one. The end comes
/// only behind all of them.
pub proof fn lemma_step_bounds(state: RlpTxFieldTag, bytes: Seq<u8>, remain: int)
    ensures
        0 <= step(state, bytes, remain).consumed <= bytes.len(),
        bytes.len() > 0 ==> step(state, bytes, remain).consumed > 0,
        bytes.len() == 0 ==> step(state, bytes, remain).next == if state
            == RlpTxFieldTag::DecodeError {
            RlpTxFieldTag::Padding
        } else {
            RlpTxFieldTag::DecodeError
        },
        step(state, bytes, remain).next != RlpTxFieldTag::TxListRlpHeader,
        step(state, bytes, remain).next != RlpTxFieldTag::GasPrice,
        state != RlpTxFieldTag::Padding && step(state, bytes, remain).next == RlpTxFieldTag::Padding
            ==> step(state, bytes, remain).consumed == bytes.len(),
{
    reveal(step);
    lemma_field_outcome(state_rule(state, bytes), bytes);
}

/// The divisors of the combinations are not zero from the second row on.
pub open spec fn divisible<F: Field>(witness: Seq<RlpDecoderCircuitConfigWitness<F>>) -> bool {
    forall|i: int|
        #![trigger witness[i]]
        1 <= i < witness.len() ==> witness[i].r_mult_comp.val() != 0
}

/// How far a state is from the end when no bytes are left.
pub open spec fn state_rank(state: RlpTxFieldTag) -> nat {
    match state {
        RlpTxFieldTag::Padding => 0,
        RlpTxFieldTag::DecodeError => 1,
        _ => 2,
    }
}

/// The number of the transaction that the rows after a step belong to.
pub open spec fn next_tx_id(tx_id: int, next: RlpTxFieldTag) -> int {
    if next == RlpTxFieldTag::TypedTxHeader {
        tx_id + 1
    } else {
        tx_id
    }
}

/// The rows for all of `bytes`, from `state` on up to the padding.
pub open spec fn decode_rows(
    state: RlpTxFieldTag,
    tx_id: int,
    bytes: Seq<u8>,
    r: int,
    m: int,
) -> Seq<Row>
    decreases bytes.len(), state_rank(state),
{
    if state == RlpTxFieldTag::Padding {
        seq![]
    } else {
        proof {
            lemma_step_bounds(state, bytes, bytes.len() as int);
        }
        let s = step(state, bytes, bytes.len() as int);
        step_rows(state, tx_id, bytes, bytes.len() as int, r, m) + decode_rows(
            s.next,
            next_tx_id(tx_id, s.next),
            bytes.skip(s.consumed),
            r,
            m,
        )
    }
}

/// `after` holds the rows of `before` with the combinations of their bytes filled in, then
/// padding up to the blinding rows of a circuit of `k` rows.
pub open spec fn finished(before: Seq<Row>, after: Seq<Row>, r: int, m: int, k: int) -> bool {
    let n = before.len() as int;
    let fixed = after.take(n);
    &&& after.len() >= n > 0
    &&& fixed[0] == before[0]
    &&& forall|i: int| 1 <= i < n ==> #[trigger] rlc_fixed(before, fixed, i, r, m)
    &&& after == fixed + padding_rows(fixed.last(), r, m, (k - n - 1 - NUM_BLINDING_ROWS) as nat)
}

impl RlpTxFieldTag {
    /// Decodes this field under `decode_rule` and lays out its rows. Returns the state to go on
    /// with, `next_state` unless the field is wrong, and the number of bytes taken.
    pub fn rlp_decode_field_check<F: Field>(
        &self,
        bytes: &[u8],
        tx_id: u64,
        r: F,
        decode_rule: &RlpDecodeRule,
        witness: &mut Vec<RlpDecoderCircuitConfigWitness<F>>,
        next_state: RlpTxFieldTag,
    ) -> (res: (RlpTxFieldTag, Option<usize>))
        requires
            *self != RlpTxFieldTag::Padding,
            bytes@.len() > 0 && decode_rule.accepts(bytes@[0]) ==> *decode_rule
                != RlpDecodeRule::Padding && *decode_rule != RlpDecodeRule::Uint64,
            old(witness)@.len() > 0,
            field_outcome(*decode_rule, bytes@).consumed
                <= old(witness)@.last().rlp_remain_length,
        ensures
            ({
                let outcome = field_outcome(*decode_rule, bytes@);
                &&& rows(final(witness)@) == rows(old(witness)@) + field_rows(
                    tx_id as int,
                    *self,
                    bytes@.take(outcome.consumed),
                    r.val(),
                    F::modulus(),
                    old(witness)@.last().rlp_remain_length as int,
                    outcome.error,
                )
                &&& res.0 == if outcome.error is Some {
                    RlpTxFieldTag::DecodeError
                } else {
                    next_state
                }
                &&& res.1 == Some(outcome.consumed as usize)
            }),
            divisible(old(witness)@) && r.val() != 0 ==> divisible(final(witness)@),
    {
        let rlp_remain_length: usize = witness[witness.len() - 1].rlp_remain_length;
        let (consumed, error) = decode_field(decode_rule, bytes);
        proof {
            lemma_field_outcome(*decode_rule, bytes@);
        }
        let mut laid_out = generate_rlp_row_witness_new(
            tx_id,
            self,
            slice_subrange(bytes, 0, consumed),
            r,
            rlp_remain_length,
            error,
        );
        witness.append(&mut laid_out);
        proof {
            assert(bytes@.subrange(0, consumed as int) =~= bytes@.take(consumed as int));
            assert(rows(witness@) =~= rows(old(witness)@) + field_rows(
                tx_id as int,
                *self,
                bytes@.take(consumed as int),
                r.val(),
                F::modulus(),
                rlp_remain_length as int,
                error,
            ));
        }
        match error {
            Some(_) => (RlpTxFieldTag::DecodeError, Some(consumed)),
            None => (next_state, Some(consumed)),
        }
    }
}

/// Holds the length in the header of the whole list, which fills the last row, against the bytes
/// that are left. Marks the row when they differ.
fn check_list_length<F: Field>(
    witness: &mut Vec<RlpDecoderCircuitConfigWitness<F>>,
) -> (valid: bool)
    requires
        old(witness)@.len() > 0,
        1 <= old(witness)@.last().rlp_bytes_in_row <= 4,
        old(witness)@.last().bytes@.len() == old(witness)@.last().rlp_bytes_in_row,
    ensures
        ({
            let before = rows(old(witness)@);
            let last = before.last();
            &&& valid == (be_value(last.bytes.skip(1)) == last.rlp_remain_length)
            &&& rows(final(witness)@) == if valid {
                before
            } else {
                before.update(before.len() - 1, value_error(last))
            }
        }),
        divisible(old(witness)@) ==> divisible(final(witness)@),
{
    let ghost before = rows(witness@);
    let last: usize = witness.len() - 1;
    assert(before.last() == witness@[last as int]@);
    let in_row: usize = witness[last].rlp_bytes_in_row as usize;
    let len_bytes = slice_subrange(witness[last].bytes.as_slice(), 1, in_row);
    proof {
        assert(len_bytes@ =~= before.last().bytes.skip(1));
        lemma_be_value_small(len_bytes@);
    }
    let valid = rlp_bytes_len(len_bytes) == witness[last].rlp_remain_length;
    if !valid {
        let at: usize = usize::from(RlpDecodeErrorType::ValueError);
        witness[last].errors[at] = true;
        witness[last].valid = false;
        assert(rows(witness@) =~= before.update(before.len() - 1, value_error(before.last())));
    }
    valid
}

impl RlpTxFieldTag {
    /// The state after this field when it is sound, by whether it ends the bytes.
    pub fn following(&self, ends: bool) -> (r: RlpTxFieldTag)
        ensures
            r == successor(*self, ends),
    {
        match self {
            RlpTxFieldTag::TxListRlpHeader => RlpTxFieldTag::TypedTxHeader,
            RlpTxFieldTag::TypedTxHeader => RlpTxFieldTag::TxType,
            RlpTxFieldTag::TxType => RlpTxFieldTag::TxRlpHeader,
            RlpTxFieldTag::TxRlpHeader => RlpTxFieldTag::ChainID,
            RlpTxFieldTag::ChainID => RlpTxFieldTag::Nonce,
            RlpTxFieldTag::Nonce => RlpTxFieldTag::GasTipCap,
            RlpTxFieldTag::GasTipCap => RlpTxFieldTag::GasFeeCap,
            RlpTxFieldTag::GasFeeCap => RlpTxFieldTag::Gas,
            RlpTxFieldTag::GasPrice => RlpTxFieldTag::Gas,
            RlpTxFieldTag::Gas => RlpTxFieldTag::To,
            RlpTxFieldTag::To => RlpTxFieldTag::Value,
            RlpTxFieldTag::Value => RlpTxFieldTag::Data,
            RlpTxFieldTag::Data => RlpTxFieldTag::AccessList,
            RlpTxFieldTag::AccessList => RlpTxFieldTag::SignV,
            RlpTxFieldTag::SignV => RlpTxFieldTag::SignR,
            RlpTxFieldTag::SignR => RlpTxFieldTag::SignS,
            RlpTxFieldTag::SignS => if ends {
                RlpTxFieldTag::Padding
            } else {
                RlpTxFieldTag::TypedTxHeader
            },
            RlpTxFieldTag::DecodeError => RlpTxFieldTag::DecodeError,
            RlpTxFieldTag::Padding => RlpTxFieldTag::Padding,
        }
    }

    /// Performs one step from this state: lays out the rows for the bytes that it takes, or
    /// finishes the witness for a circuit of `k` rows. Returns the state after the step and the
    /// number of bytes taken, which is `None` at the end.
    pub fn next<F: Field>(
        &self,
        k: usize,
        tx_id: u64,
        bytes: &[u8],
        r: F,
        witness: &mut Vec<RlpDecoderCircuitConfigWitness<F>>,
    ) -> (res: (RlpTxFieldTag, Option<usize>))
        requires
            *self != RlpTxFieldTag::GasPrice,
            *self == RlpTxFieldTag::TxListRlpHeader ==> bytes@.len() > 0,
            old(witness)@.len() > 0,
            *self == RlpTxFieldTag::Padding ==> k > old(witness)@.len() + 1 + NUM_BLINDING_ROWS
                && divisible(old(witness)@),
            *self != RlpTxFieldTag::Padding ==> step(
                *self,
                bytes@,
                old(witness)@.last().rlp_remain_length as int,
            ).consumed <= old(witness)@.last().rlp_remain_length,
        ensures
            *self == RlpTxFieldTag::Padding ==> {
                &&& res == (RlpTxFieldTag::Padding, None::<usize>)
                &&& finished(
                    rows(old(witness)@),
                    rows(final(witness)@),
                    r.val(),
                    F::modulus(),
                    k as int,
                )
            },
            *self != RlpTxFieldTag::Padding ==> ({
                let remain = old(witness)@.last().rlp_remain_length as int;
                let s = step(*self, bytes@, remain);
                &&& res == (s.next, Some(s.consumed as usize))
                &&& rows(final(witness)@) == rows(old(witness)@) + step_rows(
                    *self,
                    tx_id as int,
                    bytes@,
                    remain,
                    r.val(),
                    F::modulus(),
                )
                &&& divisible(old(witness)@) && r.val() != 0 ==> divisible(final(witness)@)
            }),
    {
        let ghost remain = witness@.last().rlp_remain_length as int;
        proof {
            reveal(step);
            reveal(step_rows);
        }
        match self {
            RlpTxFieldTag::Padding => {
                let witness_len = witness.len();
                fixup_acc_rlc_new(witness, r);
                let ghost fixed = rows(witness@);
                complete_paddings_new(witness, r, k - witness_len - 1 - NUM_BLINDING_ROWS);
                assert(rows(witness@).take(witness_len as int) =~= fixed);
                (RlpTxFieldTag::Padding, None)
            },
            RlpTxFieldTag::DecodeError => {
                let rest_bytes: usize = if bytes.len() < MAX_BYTE_COLUMN_NUM {
                    bytes.len()
                } else {
                    MAX_BYTE_COLUMN_NUM
                };
                let rlp_remain_length: usize = witness[witness.len() - 1].rlp_remain_length;
                let mut laid_out = generate_rlp_row_witness_new(
                    tx_id,
                    self,
                    slice_subrange(bytes, 0, rest_bytes),
                    r,
                    rlp_remain_length,
                    None,
                );
                witness.append(&mut laid_out);
                proof {
                    assert(bytes@.subrange(0, rest_bytes as int) =~= bytes@.take(
                        rest_bytes as int,
                    ));
                    assert(rows(witness@) =~= rows(old(witness)@) + step_rows(
                        *self,
                        tx_id as int,
                        bytes@,
                        remain,
                        r.val(),
                        F::modulus(),
                    ));
                }
                if rest_bytes == bytes.len() {
                    (RlpTxFieldTag::Padding, Some(rest_bytes))
                } else {
                    (RlpTxFieldTag::DecodeError, Some(rest_bytes))
                }
            },
            _ => {
                let decode_rules = rlp_tx_field_decode_rules(RlpTxTypeTag::Tx1559Type, *self);
                let mut decode_rule = decode_rules[0];
                if *self == RlpTxFieldTag::To && bytes.len() >= 1 && bytes[0] == 0x80 {
                    // empty to address
                    decode_rule = decode_rules[1];
                }
                let next_state = self.following(false);
                let res = self.rlp_decode_field_check(
                    bytes,
                    tx_id,
                    r,
                    &decode_rule,
                    witness,
                    next_state,
                );
                if *self != RlpTxFieldTag::TxListRlpHeader {
                    if res.0 == next_state && res.1 == Some(bytes.len()) {
                        // nothing follows this field
                        return (self.following(true), res.1);
                    }
                    return res;
                }
                let ghost outcome = field_outcome(RlpDecodeRule::LongList, bytes@);
                let ghost laid_out = field_rows(
                    tx_id as int,
                    *self,
                    bytes@.take(outcome.consumed),
                    r.val(),
                    F::modulus(),
                    remain,
                    outcome.error,
                );
                let ghost before = rows(old(witness)@);
                proof {
                    lemma_field_outcome(RlpDecodeRule::LongList, bytes@);
                    assert(laid_out.len() == 1);
                    assert(rows(witness@).last() == laid_out[0]);
                    assert(witness@.last()@ == laid_out[0]);
                    assert(laid_out[0].bytes.skip(1) =~= bytes@.subrange(1, outcome.consumed));
                }
                // this is the begining row: the header should announce the length of the whole
                // byte stream
                let valid = check_list_length(witness);
                proof {
                    assert((before + laid_out).update(
                        before.len() as int,
                        value_error(laid_out[0]),
                    ) =~= before + laid_out.update(0, value_error(laid_out[0])));
                }
                if valid {
                    res
                } else {
                    (RlpTxFieldTag::DecodeError, res.1)
                }
            },
        }
    }
}

/// The row in front of all others, which holds the length of the bytes and their digest.
pub open spec fn head_row(bytes: Seq<u8>, digest: Seq<u8>, r: int, m: int) -> Row {
    Row {
        rlp_remain_length: bytes.len() as int,
        value: rlc_be(digest, r, m),
        ..blank_row()
    }
}

/// The rows for a whole transaction list with the given digest, without its padding.
pub open spec fn list_rows(bytes: Seq<u8>, digest: Seq<u8>, r: int, m: int) -> Seq<Row> {
    seq![head_row(bytes, digest, r, m)] + decode_rows(
        RlpTxFieldTag::TxListRlpHeader,
        0,
        bytes,
        r,
        m,
    )
}

/// The last row of a step tells how many bytes are left after it.
pub proof fn lemma_step_rows(
    state: RlpTxFieldTag,
    tx_id: int,
    bytes: Seq<u8>,
    remain: int,
    r: int,
    m: int,
)
    ensures
        step_rows(state, tx_id, bytes, remain, r, m).len() > 0,
        step_rows(state, tx_id, bytes, remain, r, m).last().rlp_remain_length == remain - step(
            state,
            bytes,
            remain,
        ).consumed,
{
    reveal(step_rows);
    lemma_step_bounds(state, bytes, remain);
}

/// Lays out the rows for a transaction list with the given digest, up to the padding.
pub fn decode_tx_list<F: Field>(bytes: &[u8], digest: &Vec<u8>, r: F) -> (witness: Vec<
    RlpDecoderCircuitConfigWitness<F>,
>)
    requires
        bytes@.len() > 0,
    ensures
        rows(witness@) == list_rows(bytes@, digest@, r.val(), F::modulus()),
        r.val() != 0 ==> divisible(witness@),
{
    let ghost (rv, m) = (r.val(), F::modulus());
    // update the rlp bytes hash
    let mut head: RlpDecoderCircuitConfigWitness<F> = RlpDecoderCircuitConfigWitness::default();
    head.rlp_remain_length = bytes.len();
    head.value = rlc::combine(digest, r);
    let mut witness: Vec<RlpDecoderCircuitConfigWitness<F>> = Vec::new();
    witness.push(head);

    let mut tx_id: u64 = 0;
    let mut offset: usize = 0;
    let mut state = RlpTxFieldTag::TxListRlpHeader;
    proof {
        assert(bytes@.skip(0) =~= bytes@);
        assert(rows(witness@) =~= seq![head_row(bytes@, digest@, rv, m)]);
        assert(rows(witness@) + decode_rows(state, 0, bytes@, rv, m) =~= list_rows(
            bytes@,
            digest@,
            rv,
            m,
        ));
    }
    while state != RlpTxFieldTag::Padding
        invariant
            rv == r.val(),
            m == F::modulus(),
            bytes@.len() > 0,
            offset <= bytes@.len(),
            tx_id <= offset,
            witness@.len() > 0,
            witness@.last().rlp_remain_length == bytes@.len() - offset,
            state != RlpTxFieldTag::GasPrice,
            state == RlpTxFieldTag::TxListRlpHeader ==> offset == 0,
            rows(witness@) + decode_rows(state, tx_id as int, bytes@.skip(offset as int), rv, m)
                == list_rows(bytes@, digest@, rv, m),
            rv != 0 ==> divisible(witness@),
        decreases bytes@.len() - offset, state_rank(state),
    {
        let rest = slice_subrange(bytes, offset, bytes.len());
        let ghost before = rows(witness@);
        let ghost remain = rest@.len() as int;
        let ghost s = step(state, rest@, remain);
        let ghost laid_out = step_rows(state, tx_id as int, rest@, remain, rv, m);
        proof {
            assert(rest@ =~= bytes@.skip(offset as int));
            lemma_step_bounds(state, rest@, remain);
            lemma_step_rows(state, tx_id as int, rest@, remain, rv, m);
        }
        let (next_state, next_offset) = state.next(0, tx_id, rest, r, &mut witness);
        proof {
            assert(rows(witness@).last() == laid_out.last());
            assert(witness@.last()@ == rows(witness@).last());
            assert(bytes@.skip(offset as int).skip(s.consumed) =~= bytes@.skip(
                offset + s.consumed,
            ));
            let tail = decode_rows(
                s.next,
                next_tx_id(tx_id as int, s.next),
                bytes@.skip(offset + s.consumed),
                rv,
                m,
            );
            assert(before + (laid_out + tail) =~= (before + laid_out) + tail);
        }
        if next_state == RlpTxFieldTag::TypedTxHeader {
            tx_id = tx_id + 1;
        }
        match next_offset {
            Some(n) => {
                offset = offset + n;
            },
            None => {},
        }
        state = next_state;
    }
    proof {
        assert(rows(witness@) + seq![] =~= rows(witness@));
    }
    witness
}

/// How many rows a transaction list takes, with the one in front and without the padding.
pub open spec fn list_row_count(bytes: Seq<u8>) -> nat {
    1 + decode_rows(RlpTxFieldTag::TxListRlpHeader, 0, bytes, 0, 1).len()
}

/// The number of rows does not depend on the field.
pub proof fn lemma_row_count(
    state: RlpTxFieldTag,
    tx_id: int,
    bytes: Seq<u8>,
    r: int,
    m: int,
    other_r: int,
    other_m: int,
)
    ensures
        decode_rows(state, tx_id, bytes, r, m).len() == decode_rows(
            state,
            tx_id,
            bytes,
            other_r,
            other_m,
        ).len(),
    decreases bytes.len(), state_rank(state),
{
    if state != RlpTxFieldTag::Padding {
        let len = bytes.len() as int;
        let s = step(state, bytes, len);
        lemma_step_bounds(state, bytes, len);
        assert(step_rows(state, tx_id, bytes, len, r, m).len() == step_rows(
            state,
            tx_id,
            bytes,
            len,
            other_r,
            other_m,
        ).len()) by {
            reveal(step_rows);
        }
        lemma_row_count(
            s.next,
            next_tx_id(tx_id, s.next),
            bytes.skip(s.consumed),
            r,
            m,
            other_r,
            other_m,
        );
    }
}

/// The witness for a transaction list with the given digest in a circuit of `k` rows.
pub fn gen_witness_with_digest<F: Field>(
    bytes: &[u8],
    digest: &Vec<u8>,
    r: F,
    k: usize,
) -> (witness: Vec<RlpDecoderCircuitConfigWitness<F>>)
    requires
        bytes@.len() > 0,
        r.val() != 0,
        k > list_row_count(bytes@) + 1 + NUM_BLINDING_ROWS,
    ensures
        finished(
            list_rows(bytes@, digest@, r.val(), F::modulus()),
            rows(witness@),
            r.val(),
            F::modulus(),
            k as int,
        ),
        witness@.len() == k - NUM_BLINDING_ROWS,
{
    let mut witness = decode_tx_list(bytes, digest, r);
    proof {
        lemma_row_count(
            RlpTxFieldTag::TxListRlpHeader,
            0,
            bytes@,
            r.val(),
            F::modulus(),
            0,
            1,
        );
        assert(witness@.len() == rows(witness@).len());
    }
    let empty: Vec<u8> = Vec::new();
    let _ = RlpTxFieldTag::Padding.next(k, 0, empty.as_slice(), r, &mut witness);
    assert(witness@.len() == rows(witness@).len());
    witness
}

/// The witness for a transaction list in a circuit of `k` rows.
pub fn gen_rlp_decode_state_witness<F: Field>(bytes: &[u8], r: F, k: usize) -> (witness: Vec<
    RlpDecoderCircuitConfigWitness<F>,
>)
    requires
        bytes@.len() > 0,
        r.val() != 0,
        k > list_row_count(bytes@) + 1 + NUM_BLINDING_ROWS,
    ensures
        finished(
            list_rows(bytes@, keccak256_digest(bytes@), r.val(), F::modulus()),
            rows(witness@),
            r.val(),
            F::modulus(),
            k as int,
        ),
        witness@.len() == k - NUM_BLINDING_ROWS,
{
    let message = copy_range(bytes, 0, bytes.len());
    assert(message@ =~= bytes@);
    let hash = keccak256(&message);
    gen_witness_with_digest(bytes, &hash, r, k)
}

} // verus!
