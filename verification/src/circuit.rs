//! The decoder circuit: its size, and its witness and cells for a transaction list.

use crate::assign::{all_columns, fills, row_before, AssignedCell};
use crate::config::RlpDecoderCircuitConfig;
use crate::field::Field;
use crate::keccak::keccak256_digest;
use crate::laws::law_witness_ends_in_padding;
use crate::rlp_decoder_tables::{RlpDecoderFixedTable6Columns, TABLE_ROWS};
use crate::rlp_stream::{concat_all, rlp_list};
use crate::row::{copy_range, rows, RlpDecoderCircuitConfigWitness, MAX_BYTE_COLUMN_NUM};
use crate::state::{
    decode_rows, finished, gen_rlp_decode_state_witness, lemma_row_count, list_row_count, list_rows,
    NUM_BLINDING_ROWS,
};
use crate::tags::{RlpTxFieldTag, TX1559_TX_FIELD_NUM};
use crate::transaction::{encode_tx_list, legacy_rlp, signature_of, SignedTransaction, Transaction};
use crate::witness::Block;
use std::marker::PhantomData;
use vstd::arithmetic::power2::{lemma_pow2_unfold, pow2};
use vstd::prelude::*;

verus! {

/// The least exponent of a power of two that is not below `value`.
pub fn log2_ceil(value: usize) -> (r: u32)
    ensures
        value <= pow2(r as nat),
        r > 0 ==> pow2((r - 1) as nat) < value,
        r <= usize::BITS,
{
    if value <= 1 {
        proof {
            vstd::arithmetic::power2::lemma2_to64();
        }
        return 0;
    }
    let mut rest: usize = value - 1;
    let mut r: u32 = 0;
    proof {
        vstd::arithmetic::power2::lemma2_to64();
        assert(rest * 1 == rest && (rest + 1) * 1 == rest + 1);
    }
    while rest > 0
        invariant
            value > 1,
            rest * pow2(r as nat) <= value - 1 < (rest + 1) * pow2(r as nat),
            r > 0 ==> pow2((r - 1) as nat) < value,
            rest > 0 || r > 0,
            pow2(r as nat) > 0,
            r <= usize::BITS,
        decreases rest,
    {
        let half: usize = rest / 2;
        proof {
            let p = pow2(r as nat) as int;
            lemma_pow2_unfold((r + 1) as nat);
            vstd::arithmetic::power2::lemma_pow2_pos((r + 1) as nat);
            let q = pow2((r + 1) as nat) as int;
            assert(q == 2 * p);
            assert(half * q <= rest * p) by (nonlinear_arith)
                requires
                    q == 2 * p,
                    2 * half <= rest,
                    p > 0,
            ;
            assert((rest + 1) * p <= (half + 1) * q) by (nonlinear_arith)
                requires
                    q == 2 * p,
                    rest <= 2 * half + 1,
                    p > 0,
            ;
            assert(p <= rest * p) by (nonlinear_arith)
                requires
                    rest >= 1,
                    p > 0,
            ;
            if r >= usize::BITS {
                lemma_usize_bound(r as nat);
            }
        }
        rest = half;
        r = r + 1;
    }
    proof {
        let p = pow2(r as nat) as int;
        assert((rest + 1) * p == p) by (nonlinear_arith)
            requires
                rest == 0,
        ;
    }
    r
}

/// The powers of two from the width of a `usize` on exceed it.
proof fn lemma_usize_bound(e: nat)
    requires
        e >= usize::BITS,
    ensures
        pow2(e) > usize::MAX,
    decreases e,
{
    vstd::arithmetic::power2::lemma2_to64();
    if e > usize::BITS {
        lemma_usize_bound((e - 1) as nat);
        lemma_pow2_unfold(e);
    }
}

/// Two to the power of `degree`.
fn power_of_two(degree: usize) -> (r: usize)
    requires
        degree < usize::BITS,
    ensures
        r == pow2(degree as nat),
{
    proof {
        vstd::bits::lemma_usize_pow2_no_overflow(degree as nat);
        assert(1 * pow2(degree as nat) == pow2(degree as nat));
        vstd::bits::lemma_usize_shl_is_mul(1, degree as usize);
    }
    1 << degree
}

/// How many rows the data of transactions with these numbers of bytes take at most.
pub open spec fn data_rows(lengths: Seq<nat>) -> nat
    decreases lengths.len(),
{
    if lengths.len() == 0 {
        0
    } else {
        data_rows(lengths.drop_last()) + lengths.last() / MAX_BYTE_COLUMN_NUM as nat + 1
    }
}

/// The rows for transactions with data of these numbers of bytes: one for each field, those of the
/// data, two for the rows around, the fixed table and the blinding rows.
pub open spec fn min_rows(lengths: Seq<nat>) -> nat {
    lengths.len() * TX1559_TX_FIELD_NUM as nat + data_rows(lengths) + 2 + TABLE_ROWS as nat
        + NUM_BLINDING_ROWS as nat
}

/// The numbers of bytes of the data of transactions.
pub open spec fn input_lengths(txs: Seq<Transaction>) -> Seq<nat> {
    Seq::new(txs.len(), |i: int| txs[i].input@.len())
}

/// The rows of fewer transactions are no more.
proof fn lemma_data_rows_prefix(lengths: Seq<nat>, n: int)
    requires
        0 <= n <= lengths.len(),
    ensures
        data_rows(lengths.take(n)) <= data_rows(lengths),
    decreases lengths.len(),
{
    if n == lengths.len() {
        assert(lengths.take(n) =~= lengths);
    } else {
        lemma_data_rows_prefix(lengths.drop_last(), n);
        assert(lengths.drop_last().take(n) =~= lengths.take(n));
    }
}

/// The rows of the data up to a transaction, and with it.
proof fn lemma_data_rows_step(lengths: Seq<nat>, n: int)
    requires
        0 <= n < lengths.len(),
    ensures
        data_rows(lengths.take(n + 1)) == data_rows(lengths.take(n)) + lengths[n]
            / MAX_BYTE_COLUMN_NUM as nat + 1,
        data_rows(lengths.take(n + 1)) <= data_rows(lengths),
{
    assert(lengths.take(n + 1).drop_last() =~= lengths.take(n));
    lemma_data_rows_prefix(lengths, n + 1);
}

/// The numbers of bytes of the data of the transactions of a block.
pub open spec fn call_data_lengths(block: Block) -> Seq<nat> {
    Seq::new(block.txs@.len(), |i: int| block.txs@[i].call_data@.len())
}

/// The strings that are read one after the other from a list in the recursive length prefix
/// format, as far as its items can be read, if all of them are strings.
pub uninterp spec fn listed_strings(bytes: Seq<u8>) -> Option<Seq<Seq<u8>>>;

/// The data of an encoded transaction, if it is one.
pub uninterp spec fn transaction_input(bytes: Seq<u8>) -> Option<Seq<u8>>;

/// The bytes of some strings.
pub open spec fn strings_view(strings: Seq<Vec<u8>>) -> Seq<Seq<u8>> {
    Seq::new(strings.len(), |i: int| strings[i]@)
}

/// Calls `rlp::Rlp::as_list` for `Vec<u8>`: the strings that it reads from the bytes, or none where
/// it fails. That depends on the bytes alone; which strings they are is left to the name.
#[verifier::external_body]
fn decode_string_list(bytes: &Vec<u8>) -> (r: Option<Vec<Vec<u8>>>)
    ensures
        r is Some == listed_strings(bytes@) is Some,
        r matches Some(strings) ==> strings_view(strings@) == listed_strings(bytes@)->0,
{
    rlp::Rlp::new(bytes).as_list::<Vec<u8>>().ok()
}

/// Calls `rlp::decode` for `ethers_core::types::Transaction`: the data of the transaction that it
/// reads from the bytes, or none where it fails. That depends on the bytes alone; what the data is
/// is left to the name.
#[verifier::external_body]
fn decode_transaction_input(bytes: &Vec<u8>) -> (r: Option<Vec<u8>>)
    ensures
        r is Some == transaction_input(bytes@) is Some,
        r matches Some(input) ==> input@ == transaction_input(bytes@)->0,
{
    rlp::decode::<ethers_core::types::Transaction>(bytes).ok().map(|tx| tx.input.to_vec())
}

/// The bytes are the encoding of a dynamic fee transaction, behind its type.
pub open spec fn is_dynamic_fee_tx(bytes: Seq<u8>) -> bool {
    bytes.len() > 0 && bytes[0] == 2 && transaction_input(bytes) is Some
}

/// The bytes are a list of encoded dynamic fee transactions, as far as its items can be read.
pub open spec fn is_tx_list(bytes: Seq<u8>) -> bool {
    match listed_strings(bytes) {
        Some(strings) => forall|i: int|
            0 <= i < strings.len() ==> is_dynamic_fee_tx(#[trigger] strings[i]),
        None => false,
    }
}

/// The numbers of bytes of the data of encoded transactions.
pub open spec fn decoded_lengths(strings: Seq<Seq<u8>>) -> Seq<nat> {
    Seq::new(strings.len(), |i: int| transaction_input(strings[i])->0.len())
}

/// The numbers of bytes of the data of the transactions in a list of encoded dynamic fee
/// transactions, if the bytes are such a list.
pub fn tx_list_lengths(txlist_bytes: &Vec<u8>) -> (r: Option<Vec<usize>>)
    ensures
        r is Some <==> is_tx_list(txlist_bytes@),
        r matches Some(lengths) ==> Seq::new(lengths@.len(), |i: int| lengths@[i] as nat)
            == decoded_lengths(listed_strings(txlist_bytes@)->0),
{
    let typed_txs = match decode_string_list(txlist_bytes) {
        Some(strings) => strings,
        None => {
            return None;
        },
    };
    let ghost strings = strings_view(typed_txs@);
    let mut lengths: Vec<usize> = Vec::new();
    let mut i: usize = 0;
    while i < typed_txs.len()
        invariant
            i <= typed_txs@.len(),
            strings == strings_view(typed_txs@),
            listed_strings(txlist_bytes@) is Some,
            strings == listed_strings(txlist_bytes@)->0,
            lengths@.len() == i,
            forall|j: int| 0 <= j < i ==> is_dynamic_fee_tx(#[trigger] strings[j]),
            forall|j: int|
                0 <= j < i ==> #[trigger] lengths@[j] == transaction_input(strings[j])->0.len(),
        decreases typed_txs@.len() - i,
    {
        let typed_tx = &typed_txs[i];
        assert(strings[i as int] == typed_tx@);
        // skip the type byte
        if typed_tx.len() == 0 || typed_tx[0] != 0x02 {
            assert(!is_tx_list(txlist_bytes@)) by {
                assert(0 <= i < strings.len());
                assert(!is_dynamic_fee_tx(strings[i as int]));
            }
            return None;
        }
        match decode_transaction_input(typed_tx) {
            Some(input) => lengths.push(input.len()),
            None => {
                assert(!is_tx_list(txlist_bytes@)) by {
                    assert(!is_dynamic_fee_tx(strings[i as int]));
                }
                return None;
            },
        }
        i = i + 1;
    }
    proof {
        assert(Seq::new(lengths@.len(), |i: int| lengths@[i] as nat) =~= decoded_lengths(strings));
    }
    Some(lengths)
}

/// rlp decode Circuit for verifying transaction signatures
/// also using GOOD flag to indicate whether the circuit is for good or bad witness
#[derive(Debug)]
pub struct RlpDecoderCircuit<F: Field, const GOOD: bool> {
    /// input bytes
    pub bytes: Vec<u8>,
    /// Size of the circuit
    pub size: usize,
    /// phantom
    pub _marker: PhantomData<F>,
}

impl<F: Field, const GOOD: bool> Clone for RlpDecoderCircuit<F, GOOD> {
    fn clone(&self) -> (r: Self)
        ensures
            r.bytes@ == self.bytes@,
            r.size == self.size,
    {
        let bytes = copy_range(self.bytes.as_slice(), 0, self.bytes.len());
        assert(bytes@ =~= self.bytes@);
        RlpDecoderCircuit { bytes, size: self.size, _marker: PhantomData }
    }
}

impl<F: Field, const GOOD: bool> Default for RlpDecoderCircuit<F, GOOD> {
    fn default() -> (r: Self)
        ensures
            r.bytes@ == Seq::<u8>::empty(),
            r.size == 0,
    {
        RlpDecoderCircuit { bytes: Vec::new(), size: 0, _marker: PhantomData }
    }
}

/// The witness of a circuit, with the cells of each of its rows.
#[derive(Debug)]
pub struct Synthesized<F: Field> {
    pub witness: Vec<RlpDecoderCircuitConfigWitness<F>>,
    pub cells: Vec<Vec<AssignedCell<F>>>,
}

impl<F: Field, const GOOD: bool> RlpDecoderCircuit<F, GOOD> {
    /// Return a new RlpDecoderCircuit
    pub fn new(bytes: Vec<u8>, degree: usize) -> (r: Self)
        requires
            degree < usize::BITS,
        ensures
            r.bytes == bytes,
            r.size == pow2(degree as nat),
    {
        RlpDecoderCircuit { bytes, size: power_of_two(degree), _marker: PhantomData }
    }

    fn calc_min_num_rows(txs_len: usize, call_data_rows: usize) -> (r: usize)
        requires
            txs_len * TX1559_TX_FIELD_NUM + call_data_rows + 2 + TABLE_ROWS + NUM_BLINDING_ROWS
                <= usize::MAX,
        ensures
            r == txs_len * TX1559_TX_FIELD_NUM + call_data_rows + 2 + TABLE_ROWS
                + NUM_BLINDING_ROWS,
    {
        // add 2 for prev and next rotations.
        let constraint_size: usize = txs_len * TX1559_TX_FIELD_NUM + call_data_rows + 2;
        let tables_size = RlpDecoderFixedTable6Columns::table_size();
        constraint_size + tables_size + NUM_BLINDING_ROWS
    }

    /// Return the minimum number of rows required to prove an input of a
    /// particular size.
    pub fn min_num_rows(block: &Block) -> (r: (usize, usize))
        requires
            min_rows(call_data_lengths(*block)) <= usize::MAX,
        ensures
            r.0 == min_rows(call_data_lengths(*block)),
            r.1 == r.0,
    {
        let ghost lengths = call_data_lengths(*block);
        let mut call_data_rows: usize = 0;
        let mut i: usize = 0;
        proof {
            assert(lengths.take(0) =~= seq![]);
        }
        while i < block.txs.len()
            invariant
                i <= block.txs@.len(),
                lengths == call_data_lengths(*block),
                min_rows(lengths) <= usize::MAX,
                call_data_rows == data_rows(lengths.take(i as int)),
            decreases block.txs@.len() - i,
        {
            proof {
                lemma_data_rows_step(lengths, i as int);
            }
            call_data_rows = call_data_rows + block.txs[i].call_data.len() / MAX_BYTE_COLUMN_NUM
                + 1;
            i = i + 1;
        }
        assert(lengths.take(i as int) =~= lengths);
        let min_num_rows = Self::calc_min_num_rows(block.txs.len(), call_data_rows);
        (min_num_rows, min_num_rows)
    }

    /// Return the minimum number of rows required to prove an input of a
    /// particular size.
    pub fn min_num_rows_from_tx(txs: &Vec<Transaction>) -> (r: (usize, usize))
        requires
            min_rows(input_lengths(txs@)) <= usize::MAX,
        ensures
            r.0 == min_rows(input_lengths(txs@)),
            r.1 == r.0,
    {
        let ghost lengths = input_lengths(txs@);
        let mut call_data_rows: usize = 0;
        let mut i: usize = 0;
        proof {
            assert(lengths.take(0) =~= seq![]);
        }
        while i < txs.len()
            invariant
                i <= txs@.len(),
                lengths == input_lengths(txs@),
                min_rows(lengths) <= usize::MAX,
                call_data_rows == data_rows(lengths.take(i as int)),
            decreases txs@.len() - i,
        {
            proof {
                lemma_data_rows_step(lengths, i as int);
            }
            call_data_rows = call_data_rows + txs[i].input.len() / MAX_BYTE_COLUMN_NUM + 1;
            i = i + 1;
        }
        assert(lengths.take(i as int) =~= lengths);
        let min_num_rows = Self::calc_min_num_rows(txs.len(), call_data_rows);
        (min_num_rows, min_num_rows)
    }

    /// The minimum number of rows for data of these numbers of bytes, if it fits.
    pub fn min_num_rows_from_lengths(lengths: &Vec<usize>) -> (r: Option<(usize, usize)>)
        ensures
            ({
                let l = Seq::new(lengths@.len(), |i: int| lengths@[i] as nat);
                &&& r is Some <==> min_rows(l) <= usize::MAX
                &&& r matches Some(n) ==> n.0 == min_rows(l) && n.1 == n.0
            }),
    {
        let ghost l = Seq::new(lengths@.len(), |i: int| lengths@[i] as nat);
        let mut total: usize = 2 + TABLE_ROWS + NUM_BLINDING_ROWS;
        let mut i: usize = 0;
        proof {
            assert(l.take(0) =~= seq![]);
        }
        while i < lengths.len()
            invariant
                i <= lengths@.len(),
                l == Seq::new(lengths@.len(), |i: int| lengths@[i] as nat),
                total == i * TX1559_TX_FIELD_NUM + data_rows(l.take(i as int)) + 2 + TABLE_ROWS
                    + NUM_BLINDING_ROWS,
            decreases lengths@.len() - i,
        {
            proof {
                lemma_data_rows_step(l, i as int);
            }
            let more: usize = TX1559_TX_FIELD_NUM + lengths[i] / MAX_BYTE_COLUMN_NUM + 1;
            match total.checked_add(more) {
                Some(sum) => {
                    total = sum;
                },
                None => {
                    return None;
                },
            }
            i = i + 1;
        }
        assert(l.take(i as int) =~= l);
        Some((total, total))
    }

    /// Return the minimum number of rows required to prove an input of a
    /// particular size.
    /// Note: valid 1559 rlp encoded bytes only
    pub fn min_num_rows_from_valid_bytes(txlist_bytes: &Vec<u8>) -> (r: (usize, usize))
        requires
            is_tx_list(txlist_bytes@),
            min_rows(decoded_lengths(listed_strings(txlist_bytes@)->0)) <= usize::MAX,
        ensures
            r.0 == min_rows(decoded_lengths(listed_strings(txlist_bytes@)->0)),
            r.1 == r.0,
    {
        let lengths = tx_list_lengths(txlist_bytes).unwrap();
        Self::min_num_rows_from_lengths(&lengths).unwrap()
    }

    /// The minimum number of rows for a list of encoded dynamic fee transactions, if the bytes are
    /// such a list and the number fits.
    pub fn try_min_num_rows_from_bytes(txlist_bytes: &Vec<u8>) -> (r: Option<(usize, usize)>)
        ensures
            r is Some <==> is_tx_list(txlist_bytes@) && min_rows(
                decoded_lengths(listed_strings(txlist_bytes@)->0),
            ) <= usize::MAX,
            r matches Some(n) ==> n.0 == min_rows(
                decoded_lengths(listed_strings(txlist_bytes@)->0),
            ) && n.1 == n.0,
    {
        let lengths = match tx_list_lengths(txlist_bytes) {
            Some(lengths) => lengths,
            None => {
                return None;
            },
        };
        if Self::min_num_rows_from_lengths(&lengths).is_none() {
            return None;
        }
        Some(Self::min_num_rows_from_valid_bytes(txlist_bytes))
    }

    /// Return the minimum number of rows required to prove the block
    pub fn min_num_rows_block(block: &Block) -> (r: (usize, usize))
        requires
            min_rows(call_data_lengths(*block)) <= usize::MAX,
        ensures
            r.0 == min_rows(call_data_lengths(*block)),
            r.1 == r.0,
    {
        Self::min_num_rows(block)
    }

    /// empty instance now
    pub fn instance(&self) -> (r: Vec<Vec<F>>)
        ensures
            r@.len() == 1,
            r@[0]@ == Seq::<F>::empty(),
    {
        let column: Vec<F> = Vec::new();
        let mut columns: Vec<Vec<F>> = Vec::new();
        columns.push(column);
        columns
    }

    /// The rows of the circuit are enough, and its list is accepted as `GOOD` says.
    pub open spec fn is_consistent(&self) -> bool {
        &&& self.bytes@.len() > 0
        &&& self.size > list_row_count(self.bytes@) + 1 + NUM_BLINDING_ROWS
        &&& decode_rows(RlpTxFieldTag::TxListRlpHeader, 0, self.bytes@, 0, 1).last().valid == GOOD
    }

    /// Make the assignments to the RlpDecodeCircuit
    pub fn synthesize_sub(
        &self,
        config: &RlpDecoderCircuitConfig,
        randomness: F,
    ) -> (r: Synthesized<F>)
        requires
            self.is_consistent(),
            randomness.val() != 0,
        ensures
            finished(
                list_rows(
                    self.bytes@,
                    keccak256_digest(self.bytes@),
                    randomness.val(),
                    F::modulus(),
                ),
                rows(r.witness@),
                randomness.val(),
                F::modulus(),
                self.size as int,
            ),
            r.witness@.len() == self.size - NUM_BLINDING_ROWS,
            rows(r.witness@)[r.witness@.len() - 2].q_last,
            rows(r.witness@)[r.witness@.len() - 2].valid == GOOD,
            r.cells@.len() == r.witness@.len(),
            forall|i: int|
                0 <= i < r.cells@.len() ==> fills(
                    (#[trigger] r.cells@[i])@,
                    all_columns(),
                    row_before(rows(r.witness@), i),
                    rows(r.witness@)[i],
                ),
    {
        let witness = gen_rlp_decode_state_witness(self.bytes.as_slice(), randomness, self.size);
        proof {
            let (rv, m) = (randomness.val(), F::modulus());
            let before = list_rows(self.bytes@, keccak256_digest(self.bytes@), rv, m);
            lemma_row_count(RlpTxFieldTag::TxListRlpHeader, 0, self.bytes@, rv, m, 0, 1);
            law_witness_ends_in_padding(before, rows(witness@), rv, m, self.size as int);
            assert(rows(witness@).len() == witness@.len());
            crate::laws::lemma_last_valid(self.bytes@, keccak256_digest(self.bytes@), rv, m, 0, 1);
        }
        let cells = config.assign_rows(&witness);
        Synthesized { witness, cells }
    }

    /// The circuit for the transactions of a block.
    pub fn new_from_block(block: &Block) -> (r: Self)
        requires
            forall|i: int|
                0 <= i < block.transactions@.len() ==> (
                #[trigger] block.transactions@[i]).gas_price is Some,
            rlp_list(concat_all(block_encodings(block.transactions@))).len() <= u32::MAX,
            min_rows(call_data_lengths(*block)) <= pow2((usize::BITS - 1) as nat),
        ensures
            r.bytes@ == rlp_list(concat_all(block_encodings(block.transactions@))),
            exists|degree: nat|
                r.size == #[trigger] pow2(degree) && is_log2_ceil(
                    degree,
                    min_rows(call_data_lengths(*block)) as int,
                ),
    {
        let mut txs: Vec<SignedTransaction> = Vec::new();
        let mut i: usize = 0;
        while i < block.transactions.len()
            invariant
                i <= block.transactions@.len(),
                txs@.len() == i,
                forall|j: int|
                    0 <= j < block.transactions@.len() ==> (
                    #[trigger] block.transactions@[j]).gas_price is Some,
                forall|j: int|
                    0 <= j < i ==> (#[trigger] txs@[j]).tx@ == block.transactions@[j]@
                        && txs@[j].signature@ == signature_of(block.transactions@[j]@),
                forall|j: int| 0 <= j < i ==> (#[trigger] txs@[j]).tx.gas_price is Some,
            decreases block.transactions@.len() - i,
        {
            let tx = SignedTransaction::from(&block.transactions[i]);
            assert(tx.tx@.gas_price is Some) by {
                assert(block.transactions@[i as int].gas_price is Some);
            }
            txs.push(tx);
            i = i + 1;
        }
        proof {
            assert(crate::transaction::legacy_encodings(txs@) =~= block_encodings(
                block.transactions@,
            ));
            lemma_top_power();
        }
        let bytes = encode_tx_list(&txs);
        let degree = log2_ceil(Self::min_num_rows(block).0);
        proof {
            if degree >= usize::BITS {
                lemma_pow2_monotone((usize::BITS - 1) as nat, (degree - 1) as nat);
            }
            assert(is_log2_ceil(degree as nat, min_rows(call_data_lengths(*block)) as int));
        }
        RlpDecoderCircuit { bytes, size: power_of_two(degree as usize), _marker: PhantomData }
    }
}

/// The encodings of transactions with a gas price.
pub open spec fn block_encodings(txs: Seq<Transaction>) -> Seq<Seq<u8>> {
    Seq::new(txs.len(), |i: int| legacy_rlp(txs[i]@, signature_of(txs[i]@)))
}

/// `e` is the least exponent of a power of two that is not below `value`.
pub open spec fn is_log2_ceil(e: nat, value: int) -> bool {
    value <= pow2(e) && (e > 0 ==> pow2((e - 1) as nat) < value)
}

/// The largest power of two in a `usize`.
proof fn lemma_top_power()
    ensures
        pow2((usize::BITS - 1) as nat) <= usize::MAX,
{
    vstd::arithmetic::power2::lemma2_to64();
    vstd::arithmetic::power2::lemma2_to64_rest();
}

/// Powers of two do not decrease.
pub proof fn lemma_pow2_monotone(a: nat, b: nat)
    requires
        a <= b,
    ensures
        pow2(a) <= pow2(b),
{
    if a < b {
        vstd::arithmetic::power2::lemma_pow2_strictly_increases(a, b);
    }
}

} // verus!
