//! The public input circuit.

use crate::commitment::{
    encodes, holds_bytes, law_lookups_are_about_the_bytes, law_public_input_holds_the_instance,
};
use crate::decode::be_value;
use crate::expression::{
    eval_all, lemma_congruent, lemma_polynomial, polynomial, BaseConstraintBuilder, Challenge, Env,
    Expression, Gate,
};
use crate::field::Field;
use crate::keccak::{keccak256, keccak256_digest};
use crate::rlc;
use crate::rlc::rlc_be;
use crate::row::copy_range;
use crate::transaction::{copy_words, Address, Word};
use crate::witness::{Block, BlockContext, ProtocolInstance};
use std::marker::PhantomData;
use vstd::prelude::*;

verus! {

/// The position of the hash of the metadata among the fields.
pub const META_DATA: usize = 0;

/// The position of the hash of the parent block.
pub const PARENT_HASH: usize = 1;

/// The position of the hash of the block.
pub const BLOCK_HASH: usize = 2;

/// The position of the signal root.
pub const SIGNAL_ROOT: usize = 3;

/// The position of the graffiti.
pub const GRAFFITI: usize = 4;

/// The position of the address of the prover.
pub const PROVER: usize = 5;

/// How many fields there are.
pub const FIELD_NUM: usize = 6;

/// The number of bytes of a hash.
pub const DEFAULT_LEN: usize = 32;

/// The base in which the bytes of a number count.
pub const BYTE_POW_BASE: u64 = 256;

/// The rows that the cells are laid out in.
pub const CM_HEIGHT: usize = 20;

/// Calls `alloy_dyn_abi::DynSolValue::abi_encode` for `FixedBytes` of 32 bytes: the bytes
/// themselves.
#[verifier::external_body]
fn abi_encode_word(word: &Word) -> (r: Vec<u8>)
    ensures
        r@ == word@,
{
    alloy_dyn_abi::DynSolValue::FixedBytes(alloy_dyn_abi::Word::from(*word), 32).abi_encode()
}

/// An address as a word, with zeros in front.
pub open spec fn address_word(address: Seq<u8>) -> Seq<u8> {
    Seq::new(12, |i: int| 0u8) + address
}

/// `address` as a word.
fn to_word(address: &Address) -> (r: Word)
    ensures
        r@ == address_word(address@),
{
    let mut word: Word = [0u8; 32];
    let mut i: usize = 0;
    while i < 20
        invariant
            i <= 20,
            forall|j: int| 0 <= j < 12 ==> #[trigger] word@[j] == 0,
            forall|j: int| 12 <= j < 12 + i ==> #[trigger] word@[j] == address@[j - 12],
        decreases 20 - i,
    {
        word[12 + i] = address[i];
        i = i + 1;
    }
    assert(word@ =~= address_word(address@));
    word
}

/// The fields of the public input: those of the instance, and the prover.
pub open spec fn public_field(instance: ProtocolInstance, prover: Seq<u8>, idx: int) -> Seq<u8> {
    if idx == META_DATA {
        instance.meta_hash@
    } else if idx == PARENT_HASH {
        instance.parent_hash@
    } else if idx == BLOCK_HASH {
        instance.block_hash@
    } else if idx == SIGNAL_ROOT {
        instance.signal_root@
    } else if idx == GRAFFITI {
        instance.graffiti@
    } else {
        address_word(prover)
    }
}

/// The first `n` fields, one after the other.
pub open spec fn public_input(instance: ProtocolInstance, prover: Seq<u8>, n: nat) -> Seq<u8>
    decreases n,
{
    if n == 0 {
        seq![]
    } else {
        public_input(instance, prover, (n - 1) as nat) + public_field(instance, prover, n - 1)
    }
}

/// Public Inputs data known by the verifier
#[derive(Debug)]
pub struct PublicData<F: Field> {
    pub protocol_instance: ProtocolInstance,
    pub prover: Address,
    pub block_context: BlockContext,
    pub _phantom: PhantomData<F>,
}

/// The bytes as elements of the field.
pub open spec fn as_elements<F: Field>(bytes: Seq<u8>, elements: Seq<F>) -> bool {
    &&& elements.len() == bytes.len()
    &&& forall|i: int| 0 <= i < bytes.len() ==> (#[trigger] elements[i]).val() == bytes[i]
}

fn bytes_as_elements<F: Field>(bytes: &Vec<u8>) -> (r: Vec<F>)
    ensures
        as_elements(bytes@, r@),
{
    let mut out: Vec<F> = Vec::new();
    let mut i: usize = 0;
    while i < bytes.len()
        invariant
            i <= bytes@.len(),
            out@.len() == i,
            forall|j: int| 0 <= j < i ==> (#[trigger] out@[j]).val() == bytes@[j],
        decreases bytes@.len() - i,
    {
        out.push(F::from_u64(bytes[i] as u64));
        i = i + 1;
    }
    out
}

/// The two halves of a digest, as numbers.
pub open spec fn halves(digest: Seq<u8>, m: int) -> (int, int) {
    (
        rlc_be(digest.subrange(0, 16), BYTE_POW_BASE as int, m),
        rlc_be(digest.subrange(16, digest.len() as int), BYTE_POW_BASE as int, m),
    )
}

/// The two halves of a digest, as elements of the field.
pub fn hi_low<F: Field>(digest: &Vec<u8>) -> (r: [F; 2])
    requires
        digest@.len() >= 16,
    ensures
        r@[0].val() == halves(digest@, F::modulus()).0,
        r@[1].val() == halves(digest@, F::modulus()).1,
{
    let hi = copy_range(digest.as_slice(), 0, 16);
    let low = copy_range(digest.as_slice(), 16, digest.len());
    let base = F::from_u64(BYTE_POW_BASE);
    [rlc::combine(&hi, base), rlc::combine(&low, base)]
}

impl<F: Field> PublicData<F> {
    /// Field `idx`.
    pub open spec fn field_bytes(&self, idx: int) -> Seq<u8> {
        public_field(self.protocol_instance, self.prover@, idx)
    }

    /// All the fields, one after the other.
    pub open spec fn raw(&self) -> Seq<u8> {
        public_input(self.protocol_instance, self.prover@, FIELD_NUM as nat)
    }

    pub fn new(block: &Block, prover: Option<Address>) -> (r: Self)
        requires
            block.protocol_instance is Some,
        ensures
            r.protocol_instance == block.protocol_instance->0,
            r.prover@ == match prover {
                Some(address) => address@,
                None => Seq::new(20, |i: int| 0u8),
            },
            r.block_context.number == block.context.number,
            r.block_context.history_hashes@ == block.context.history_hashes@,
    {
        let no_one: Address = [0u8; 20];
        assert(no_one@ =~= Seq::new(20, |i: int| 0u8));
        PublicData {
            protocol_instance: block.protocol_instance.unwrap(),
            prover: match prover {
                Some(address) => address,
                None => no_one,
            },
            block_context: BlockContext {
                number: block.context.number,
                history_hashes: copy_words(&block.context.history_hashes),
            },
            _phantom: PhantomData,
        }
    }

    /// Returns the public inputs, encoded
    pub fn encode_raw(&self) -> (r: Vec<u8>)
        ensures
            r@ == self.raw(),
            encodes(r@, self.protocol_instance, self.prover@),
    {
        proof {
            law_public_input_holds_the_instance(self.protocol_instance, self.prover@);
        }
        let mut out: Vec<u8> = Vec::new();
        let mut idx: usize = 0;
        while idx < FIELD_NUM
            invariant
                idx <= FIELD_NUM,
                out@ == public_input(self.protocol_instance, self.prover@, idx as nat),
            decreases FIELD_NUM - idx,
        {
            let mut field = self.encode_field(idx);
            out.append(&mut field);
            idx = idx + 1;
        }
        out
    }

    pub fn encode_field(&self, idx: usize) -> (r: Vec<u8>)
        requires
            idx < FIELD_NUM,
        ensures
            r@ == self.field_bytes(idx as int),
            r@.len() == DEFAULT_LEN,
    {
        let word: Word = match idx {
            META_DATA => self.protocol_instance.meta_hash,
            PARENT_HASH => self.protocol_instance.parent_hash,
            BLOCK_HASH => self.protocol_instance.block_hash,
            SIGNAL_ROOT => self.protocol_instance.signal_root,
            GRAFFITI => self.protocol_instance.graffiti,
            _ => to_word(&self.prover),
        };
        abi_encode_word(&word)
    }

    pub fn total_acc(&self, r: F) -> (acc: F)
        ensures
            acc.val() == rlc_be(self.raw(), r.val(), F::modulus()),
    {
        rlc::combine(&self.encode_raw(), r)
    }

    pub fn assignment(&self, idx: usize) -> (r: Vec<F>)
        requires
            idx < FIELD_NUM,
        ensures
            as_elements(self.field_bytes(idx as int), r@),
            r@.len() == DEFAULT_LEN,
    {
        bytes_as_elements(&self.encode_field(idx))
    }

    pub fn assignment_acc(&self, idx: usize, r: F) -> (acc: F)
        requires
            idx < FIELD_NUM,
        ensures
            acc.val() == rlc_be(self.field_bytes(idx as int), r.val(), F::modulus()),
    {
        rlc::combine(&self.encode_field(idx), r)
    }

    pub fn keccak_hi_low(&self) -> (r: [F; 2])
        ensures
            r@[0].val() == halves(keccak256_digest(self.raw()), F::modulus()).0,
            r@[1].val() == halves(keccak256_digest(self.raw()), F::modulus()).1,
    {
        hi_low(&self.keccak())
    }

    pub fn keccak(&self) -> (r: Vec<u8>)
        ensures
            r@ == keccak256_digest(self.raw()),
            r@.len() == DEFAULT_LEN,
    {
        keccak256(&self.encode_raw())
    }

    pub fn keccak_assignment(&self) -> (r: Vec<F>)
        ensures
            as_elements(keccak256_digest(self.raw()), r@),
            r@.len() == DEFAULT_LEN,
    {
        bytes_as_elements(&self.keccak())
    }

    pub fn total_len(&self) -> (r: usize)
        ensures
            r == FIELD_NUM * DEFAULT_LEN,
            r == self.raw().len(),
    {
        let raw = self.encode_raw();
        proof {
            lemma_public_input_len(self.protocol_instance, self.prover@, FIELD_NUM as nat);
        }
        raw.len()
    }

    pub fn field_len(&self, idx: usize) -> (r: usize)
        requires
            idx < FIELD_NUM,
        ensures
            r == DEFAULT_LEN,
    {
        self.encode_field(idx).len()
    }
}

/// Each field takes 32 bytes.
pub proof fn lemma_public_input_len(instance: ProtocolInstance, prover: Seq<u8>, n: nat)
    requires
        prover.len() == 20,
        n <= FIELD_NUM,
    ensures
        public_input(instance, prover, n).len() == n * DEFAULT_LEN,
    decreases n,
{
    if n > 0 {
        lemma_public_input_len(instance, prover, (n - 1) as nat);
    }
}

impl<F: Field> Clone for PublicData<F> {
    fn clone(&self) -> (r: Self)
        ensures
            r.protocol_instance == self.protocol_instance,
            r.prover == self.prover,
            r.block_context.number == self.block_context.number,
            r.block_context.history_hashes@ == self.block_context.history_hashes@,
    {
        PublicData {
            protocol_instance: self.protocol_instance,
            prover: self.prover,
            block_context: BlockContext {
                number: self.block_context.number,
                history_hashes: copy_words(&self.block_context.history_hashes),
            },
            _phantom: PhantomData,
        }
    }
}

impl<F: Field> Default for PublicData<F> {
    fn default() -> (r: Self)
        ensures
            r.raw() == Seq::new((FIELD_NUM * DEFAULT_LEN) as nat, |i: int| 0u8),
            r.prover@ == Seq::new(20, |i: int| 0u8),
            r.block_context.number == 0,
            r.block_context.history_hashes@.len() == 1,
            r.block_context.history_hashes@[0]@ == Seq::new(32, |i: int| 0u8),
    {
        // has to have at least one history hash, block number must start with at least one
        let zero: Word = [0u8; 32];
        assert(zero@ =~= Seq::new(32, |i: int| 0u8));
        let mut history_hashes: Vec<Word> = Vec::new();
        history_hashes.push(zero);
        let r: PublicData<F> = PublicData {
            protocol_instance: ProtocolInstance::default(),
            prover: [0u8; 20],
            block_context: BlockContext { number: 0, history_hashes },
            _phantom: PhantomData,
        };
        proof {
            reveal_with_fuel(public_input, 7);
            assert(r.raw() =~= Seq::new((FIELD_NUM * DEFAULT_LEN) as nat, |i: int| 0u8));
        }
        r
    }
}

/// The kinds of cells of the circuit.
#[derive(Clone, Copy, Debug, PartialEq, Eq, PartialOrd, Ord, Hash, Structural)]
pub enum PiCellType {
    StoragePhase1,
    StoragePhase2,
    Byte,
}

/// The tables that the circuit looks values up in.
#[derive(Clone, Copy, Debug, PartialEq, Eq, Structural)]
pub enum Table {
    Keccak,
    Bytecode,
    Block,
}

impl PiCellType {
    /// How many columns there are for the cells of this kind.
    pub open spec fn spec_columns(self) -> usize {
        match self {
            PiCellType::Byte => 15,
            _ => 1,
        }
    }

    #[verifier::when_used_as_spec(spec_columns)]
    pub fn columns(self) -> (r: usize)
        ensures
            r == self.columns(),
    {
        match self {
            PiCellType::Byte => 15,
            _ => 1,
        }
    }

    /// The table that every cell of this kind is looked up in.
    pub fn lookup_table_type(&self) -> (r: Option<Table>)
        ensures
            r == if *self == PiCellType::Byte {
                Some(Table::Bytecode)
            } else {
                None
            },
    {
        match self {
            PiCellType::Byte => Some(Table::Bytecode),
            _ => None,
        }
    }

    /// The kind of the cells that hold bytes.
    pub fn byte_type() -> (r: Option<Self>)
        ensures
            r == Some(PiCellType::Byte),
    {
        Some(Self::Byte)
    }

    /// The kind of the cells for values of a phase.
    pub fn storage_for_phase(phase: u8) -> (r: Self)
        requires
            phase == 1 || phase == 2,
        ensures
            phase == 1 ==> r == PiCellType::StoragePhase1,
            phase == 2 ==> r == PiCellType::StoragePhase2,
    {
        match phase {
            1 => PiCellType::StoragePhase1,
            _ => PiCellType::StoragePhase2,
        }
    }
}

impl Default for PiCellType {
    fn default() -> (r: Self)
        ensures
            r == PiCellType::StoragePhase1,
    {
        Self::StoragePhase1
    }
}

/// A cell: its kind, its column among those of the kind, and its row.
#[derive(Clone, Copy, Debug, PartialEq, Eq, Structural)]
pub struct Cell {
    pub cell_type: PiCellType,
    pub column: usize,
    pub rotation: usize,
}

/// What the expressions of the circuit are about.
#[derive(Clone, Copy, Debug, PartialEq, Eq, Structural)]
pub enum PiColumn {
    QEnable,
    At(Cell),
}

/// Cell `n` of a kind. The cells fill one row after the other.
pub open spec fn nth_cell(cell_type: PiCellType, n: int) -> Cell {
    Cell {
        cell_type,
        column: (n % cell_type.columns() as int) as usize,
        rotation: (n / cell_type.columns() as int) as usize,
    }
}

/// The cells of a kind that fit.
pub open spec fn capacity(cell_type: PiCellType) -> int {
    cell_type.columns() * CM_HEIGHT
}

/// Hands out the cells.
#[derive(Debug)]
pub struct PiCellManager {
    pub phase1_used: usize,
    pub phase2_used: usize,
    pub bytes_used: usize,
}

impl PiCellManager {
    /// How many cells of a kind were handed out.
    pub open spec fn used(self, cell_type: PiCellType) -> int {
        match cell_type {
            PiCellType::StoragePhase1 => self.phase1_used as int,
            PiCellType::StoragePhase2 => self.phase2_used as int,
            PiCellType::Byte => self.bytes_used as int,
        }
    }

    pub fn new() -> (r: Self)
        ensures
            forall|t: PiCellType| #[trigger] r.used(t) == 0,
    {
        PiCellManager { phase1_used: 0, phase2_used: 0, bytes_used: 0 }
    }

    /// Hands out one cell of a kind.
    pub fn query_one(&mut self, cell_type: PiCellType) -> (r: Cell)
        requires
            old(self).used(cell_type) < capacity(cell_type),
        ensures
            r == nth_cell(cell_type, old(self).used(cell_type)),
            final(self).used(cell_type) == old(self).used(cell_type) + 1,
            forall|t: PiCellType|
                t != cell_type ==> #[trigger] final(self).used(t) == old(self).used(t),
    {
        let n: usize = match cell_type {
            PiCellType::StoragePhase1 => self.phase1_used,
            PiCellType::StoragePhase2 => self.phase2_used,
            PiCellType::Byte => self.bytes_used,
        };
        let columns: usize = cell_type.columns();
        match cell_type {
            PiCellType::StoragePhase1 => {
                self.phase1_used = n + 1;
            },
            PiCellType::StoragePhase2 => {
                self.phase2_used = n + 1;
            },
            PiCellType::Byte => {
                self.bytes_used = n + 1;
            },
        }
        Cell { cell_type, column: n % columns, rotation: n / columns }
    }

    /// Hands out `count` cells of a kind.
    pub fn query_cells_dyn(&mut self, cell_type: PiCellType, count: usize) -> (r: Vec<Cell>)
        requires
            old(self).used(cell_type) + count <= capacity(cell_type),
        ensures
            r@ == Seq::new(
                count as nat,
                |i: int| nth_cell(cell_type, old(self).used(cell_type) + i),
            ),
            final(self).used(cell_type) == old(self).used(cell_type) + count,
            forall|t: PiCellType|
                t != cell_type ==> #[trigger] final(self).used(t) == old(self).used(t),
    {
        let ghost start = self.used(cell_type);
        let mut cells: Vec<Cell> = Vec::new();
        let mut i: usize = 0;
        while i < count
            invariant
                i <= count,
                start == old(self).used(cell_type),
                start + count <= capacity(cell_type),
                self.used(cell_type) == start + i,
                forall|t: PiCellType|
                    t != cell_type ==> #[trigger] self.used(t) == old(self).used(t),
                cells@ =~= Seq::new(i as nat, |j: int| nth_cell(cell_type, start + j)),
            decreases count - i,
        {
            let cell = self.query_one(cell_type);
            cells.push(cell);
            i = i + 1;
        }
        cells
    }
}

/// The values of cells.
pub open spec fn cell_values(e: Env<PiColumn>, cells: Seq<Cell>) -> Seq<int> {
    Seq::new(cells.len(), |i: int| e.cur(PiColumn::At(cells[i])))
}

/// The bytes of a field of the public input, each in a cell of its own.
#[derive(Debug, Clone)]
pub struct FieldGadget {
    pub field: Vec<Cell>,
    pub len: usize,
}

impl Default for FieldGadget {
    fn default() -> (r: Self)
        ensures
            r.field@ == Seq::<Cell>::empty(),
            r.len == 0,
    {
        FieldGadget { field: Vec::new(), len: 0 }
    }
}

impl FieldGadget {
    /// The gadget has a cell for each byte.
    pub open spec fn wf(&self) -> bool {
        self.field@.len() == self.len
    }

    /// A gadget for `len` bytes.
    pub fn config(cm: &mut PiCellManager, len: usize) -> (r: Self)
        requires
            old(cm).used(PiCellType::Byte) + len <= capacity(PiCellType::Byte),
        ensures
            r.wf(),
            r.len == len,
            r.field@ == Seq::new(
                len as nat,
                |i: int| nth_cell(PiCellType::Byte, old(cm).used(PiCellType::Byte) + i),
            ),
            final(cm).used(PiCellType::Byte) == old(cm).used(PiCellType::Byte) + len,
            forall|t: PiCellType|
                t != PiCellType::Byte ==> #[trigger] final(cm).used(t) == old(cm).used(t),
    {
        FieldGadget { field: cm.query_cells_dyn(PiCellType::Byte, len), len }
    }

    /// The bytes from `from` up to `to`, the last one first.
    fn rev_bytes_expr(&self, from: usize, to: usize) -> (r: Vec<Expression<PiColumn>>)
        requires
            from <= to <= self.field@.len(),
        ensures
            forall|e: Env<PiColumn>| #[trigger]
                eval_all(r@.reverse(), e) == cell_values(
                    e,
                    self.field@.subrange(from as int, to as int),
                ),
    {
        let mut exprs: Vec<Expression<PiColumn>> = Vec::new();
        let mut i: usize = to;
        while i > from
            invariant
                from <= i <= to <= self.field@.len(),
                exprs@.len() == to - i,
                forall|j: int, e: Env<PiColumn>|
                    0 <= j < exprs@.len() ==> #[trigger] exprs@[j].eval(e) == e.cur(
                        PiColumn::At(self.field@[to - 1 - j]),
                    ),
            decreases i - from,
        {
            i = i - 1;
            exprs.push(Expression::cur(PiColumn::At(self.field[i])));
        }
        assert forall|e: Env<PiColumn>| #[trigger] eval_all(exprs@.reverse(), e) == cell_values(
            e,
            self.field@.subrange(from as int, to as int),
        ) by {
            assert(eval_all(exprs@.reverse(), e) =~= cell_values(
                e,
                self.field@.subrange(from as int, to as int),
            ));
        }
        exprs
    }

    /// The bytes.
    pub fn bytes_expr(&self) -> (r: Vec<Expression<PiColumn>>)
        ensures
            forall|e: Env<PiColumn>| #[trigger] eval_all(r@, e) == cell_values(e, self.field@),
    {
        let mut exprs: Vec<Expression<PiColumn>> = Vec::new();
        let mut i: usize = 0;
        while i < self.field.len()
            invariant
                i <= self.field@.len(),
                exprs@.len() == i,
                forall|j: int, e: Env<PiColumn>|
                    0 <= j < i ==> #[trigger] exprs@[j].eval(e) == e.cur(
                        PiColumn::At(self.field@[j]),
                    ),
            decreases self.field@.len() - i,
        {
            exprs.push(Expression::cur(PiColumn::At(self.field[i])));
            i = i + 1;
        }
        assert forall|e: Env<PiColumn>| #[trigger] eval_all(exprs@, e) == cell_values(
            e,
            self.field@,
        ) by {
            assert(eval_all(exprs@, e) =~= cell_values(e, self.field@));
        }
        exprs
    }

    /// The combination of the bytes, the first of them with the highest power of `r`.
    pub fn rlc_acc(&self, r: Expression<PiColumn>) -> (acc: Expression<PiColumn>)
        ensures
            forall|e: Env<PiColumn>| #[trigger]
                acc.eval(e) == polynomial(cell_values(e, self.field@), r.eval(e)),
    {
        assert(self.field@.subrange(0, self.field@.len() as int) =~= self.field@);
        Expression::rlc(&self.rev_bytes_expr(0, self.field.len()), r)
    }

    /// The two halves of the bytes, as numbers.
    pub fn hi_low_field(&self) -> (r: (Expression<PiColumn>, Expression<PiColumn>))
        requires
            self.wf(),
            self.len == 32,
        ensures
            forall|e: Env<PiColumn>| #[trigger]
                r.0.eval(e) == polynomial(
                    cell_values(e, self.field@.subrange(0, 16)),
                    BYTE_POW_BASE as int,
                ),
            forall|e: Env<PiColumn>| #[trigger]
                r.1.eval(e) == polynomial(
                    cell_values(e, self.field@.subrange(16, 32)),
                    BYTE_POW_BASE as int,
                ),
    {
        (
            Expression::rlc(&self.rev_bytes_expr(0, 16), Expression::constant(BYTE_POW_BASE)),
            Expression::rlc(&self.rev_bytes_expr(16, 32), Expression::constant(BYTE_POW_BASE)),
        )
    }

    /// The cells with their values.
    pub fn assign<F: Field>(&self, bytes: &Vec<F>) -> (r: Vec<PiAssigned<F>>)
        requires
            self.wf(),
            bytes@.len() == self.len,
        ensures
            r@.len() == self.len,
            forall|i: int|
                0 <= i < r@.len() ==> (#[trigger] r@[i]).column == PiColumn::At(self.field@[i])
                    && r@[i].value.val() == bytes@[i].val(),
    {
        let mut cells: Vec<PiAssigned<F>> = Vec::new();
        let mut i: usize = 0;
        while i < self.len
            invariant
                i <= self.len,
                self.wf(),
                bytes@.len() == self.len,
                cells@.len() == i,
                forall|j: int|
                    0 <= j < i ==> (#[trigger] cells@[j]).column == PiColumn::At(self.field@[j])
                        && cells@[j].value.val() == bytes@[j].val(),
            decreases self.len - i,
        {
            cells.push(PiAssigned { column: PiColumn::At(self.field[i]), value: bytes[i] });
            i = i + 1;
        }
        cells
    }
}

/// A cell with its value.
#[derive(Debug)]
pub struct PiAssigned<F: Field> {
    pub column: PiColumn,
    pub value: F,
}

/// The byte cells of the field at position `k`; those of the digest are behind all fields.
pub open spec fn field_cells(k: int) -> Seq<Cell> {
    Seq::new(
        DEFAULT_LEN as nat,
        |i: int| nth_cell(PiCellType::Byte, k * DEFAULT_LEN + i),
    )
}

/// The byte cells of the first `n` fields.
pub open spec fn cells_before(n: nat) -> Seq<Cell>
    decreases n,
{
    if n == 0 {
        seq![]
    } else {
        cells_before((n - 1) as nat) + field_cells(n - 1)
    }
}

/// The byte cells of the digest.
pub open spec fn digest_cells() -> Seq<Cell> {
    field_cells(FIELD_NUM as int)
}

/// The cells for the numbers of the parent block and of the block.
pub open spec fn parent_number_cell() -> Cell {
    nth_cell(PiCellType::StoragePhase1, 0)
}

pub open spec fn block_number_cell() -> Cell {
    nth_cell(PiCellType::StoragePhase1, 1)
}

/// The cells for the two halves of the digest.
pub open spec fn hi_cell() -> Cell {
    nth_cell(PiCellType::StoragePhase1, 2)
}

pub open spec fn lo_cell() -> Cell {
    nth_cell(PiCellType::StoragePhase1, 3)
}

/// The cells that are made public: each is tied to the row of the instance at its position.
pub open spec fn instance_cells() -> Seq<Cell> {
    seq![hi_cell(), lo_cell()]
}

/// The cells for the combinations of the two hashes.
pub open spec fn parent_rlc_cell() -> Cell {
    nth_cell(PiCellType::StoragePhase2, 0)
}

pub open spec fn block_rlc_cell() -> Cell {
    nth_cell(PiCellType::StoragePhase2, 1)
}

/// The cell for the combination of all the fields.
pub open spec fn total_acc_cell() -> Cell {
    nth_cell(PiCellType::StoragePhase2, 2)
}

/// The value of a cell.
pub open spec fn at(e: Env<PiColumn>, cell: Cell) -> int {
    e.cur(PiColumn::At(cell))
}

/// The challenge for the input of the hash function.
pub open spec fn keccak_challenge(e: Env<PiColumn>) -> int {
    (e.challenge)(Challenge::KeccakInput)
}

/// The challenge for the bytes of a word.
pub open spec fn word_challenge(e: Env<PiColumn>) -> int {
    (e.challenge)(Challenge::EvmWord)
}

/// What the circuit asks of its cells: the two hashes and all the fields are combined as the cells
/// for the combinations say, and the halves of the digest are those that its bytes make up.
pub open spec fn pi_rule(e: Env<PiColumn>) -> bool {
    let on = e.cur(PiColumn::QEnable);
    &&& e.equal_if(
        on,
        at(e, parent_rlc_cell()),
        polynomial(cell_values(e, field_cells(PARENT_HASH as int)), word_challenge(e)),
    )
    &&& e.equal_if(
        on,
        at(e, block_rlc_cell()),
        polynomial(cell_values(e, field_cells(BLOCK_HASH as int)), word_challenge(e)),
    )
    &&& e.equal_if(
        on,
        at(e, total_acc_cell()),
        polynomial(cell_values(e, cells_before(FIELD_NUM as nat)), keccak_challenge(e)),
    )
    &&& e.equal_if(
        on,
        at(e, hi_cell()),
        polynomial(cell_values(e, digest_cells().subrange(0, 16)), BYTE_POW_BASE as int),
    )
    &&& e.equal_if(
        on,
        at(e, lo_cell()),
        polynomial(cell_values(e, digest_cells().subrange(16, 32)), BYTE_POW_BASE as int),
    )
}

/// A hash is looked up in the table of blocks, by the tag of hashes and the number of its block.
pub open spec fn block_inputs(
    e: Env<PiColumn>,
    tag: u64,
    number_cell: Cell,
    rlc_cell: Cell,
) -> Seq<int> {
    let on = e.cur(PiColumn::QEnable);
    seq![on * tag, on * at(e, number_cell), on * at(e, rlc_cell)]
}

/// The combination of the fields is looked up in the table of hashes, with their length and the
/// combination of the digest.
pub open spec fn keccak_inputs(e: Env<PiColumn>) -> Seq<int> {
    let on = e.cur(PiColumn::QEnable);
    seq![
        on * 1,
        on * at(e, total_acc_cell()),
        on * (FIELD_NUM * DEFAULT_LEN),
        on * polynomial(cell_values(e, digest_cells()), word_challenge(e)),
    ]
}

/// A column of bytes is looked up in the table of bytes, in every row.
pub open spec fn byte_inputs(e: Env<PiColumn>, column: int) -> Seq<int> {
    seq![
        at(e, Cell { cell_type: PiCellType::Byte, column: column as usize, rotation: 0 }),
    ]
}

/// What is seen from `k` rows further down, where the selector is not set.
pub open spec fn rows_down(e: Env<PiColumn>, k: nat) -> Env<PiColumn> {
    Env {
        cell: |c: PiColumn, offset: int|
            match c {
                PiColumn::QEnable => if k == 0 {
                    (e.cell)(c, offset)
                } else {
                    0
                },
                PiColumn::At(cell) => (e.cell)(
                    PiColumn::At(Cell { rotation: (cell.rotation + k) as usize, ..cell }),
                    offset,
                ),
            },
        ..e
    }
}

/// Expressions whose values have to stand side by side in a row of a table. They are looked up in
/// every row, from which their cells count.
#[derive(Debug)]
pub struct PiLookup {
    pub table: Table,
    pub inputs: Vec<Expression<PiColumn>>,
}

/// The polynomial of two sequences of coefficients.
pub proof fn lemma_polynomial_concat(a: Seq<int>, b: Seq<int>, r: int)
    ensures
        polynomial(a + b, r) == polynomial(a, r) * vstd::arithmetic::power::pow(r, b.len())
            + polynomial(b, r),
    decreases b.len(),
{
    let p = polynomial(a, r);
    if b.len() == 0 {
        assert(a + b =~= a);
        vstd::arithmetic::power::lemma_pow0(r);
        assert(p * 1 == p);
    } else {
        let b0 = b.drop_last();
        lemma_polynomial_concat(a, b0, r);
        assert((a + b).drop_last() =~= a + b0);
        let q = vstd::arithmetic::power::pow(r, b0.len());
        let w = vstd::arithmetic::power::pow(r, b.len());
        assert(w == r * q) by {
            reveal(vstd::arithmetic::power::pow);
        }
        let y = polynomial(b0, r);
        assert((p * q + y) * r == p * (r * q) + y * r) by (nonlinear_arith);
    }
}

/// `r` raised to `n`.
fn power_expr(r: &Expression<PiColumn>, n: usize) -> (p: Expression<PiColumn>)
    ensures
        forall|e: Env<PiColumn>| #[trigger]
            p.eval(e) == vstd::arithmetic::power::pow(r.eval(e), n as nat),
{
    let mut acc: Expression<PiColumn> = Expression::constant(1);
    let mut i: usize = 0;
    proof {
        assert forall|e: Env<PiColumn>| #[trigger] acc.eval(e) == vstd::arithmetic::power::pow(
            r.eval(e),
            0,
        ) by {
            vstd::arithmetic::power::lemma_pow0(r.eval(e));
        }
    }
    while i < n
        invariant
            i <= n,
            forall|e: Env<PiColumn>| #[trigger]
                acc.eval(e) == vstd::arithmetic::power::pow(r.eval(e), i as nat),
        decreases n - i,
    {
        let ghost before = acc;
        acc = acc.times(r.duplicate());
        proof {
            assert forall|e: Env<PiColumn>| #[trigger] acc.eval(e) == vstd::arithmetic::power::pow(
                r.eval(e),
                (i + 1) as nat,
            ) by {
                assert(before.eval(e) == vstd::arithmetic::power::pow(r.eval(e), i as nat));
                let x = r.eval(e);
                let q = vstd::arithmetic::power::pow(x, i as nat);
                assert(q * x == x * q) by (nonlinear_arith);
                reveal(vstd::arithmetic::power::pow);
            }
        }
        i = i + 1;
    }
    acc
}

/// Goes on with the combination of the fields.
fn fold_gadget(
    acc: Expression<PiColumn>,
    gadget: &FieldGadget,
    Ghost(done): Ghost<Seq<Cell>>,
) -> (r: Expression<PiColumn>)
    requires
        gadget.wf(),
        forall|e: Env<PiColumn>| #[trigger]
            acc.eval(e) == polynomial(cell_values(e, done), keccak_challenge(e)),
    ensures
        forall|e: Env<PiColumn>| #[trigger]
            r.eval(e) == polynomial(cell_values(e, done + gadget.field@), keccak_challenge(e)),
{
    let keccak_r = Expression::challenge(Challenge::KeccakInput);
    let mult = power_expr(&keccak_r, gadget.len);
    let r = acc.times(mult).plus(gadget.rlc_acc(keccak_r.duplicate()));
    proof {
        assert forall|e: Env<PiColumn>| #[trigger] r.eval(e) == polynomial(
            cell_values(e, done + gadget.field@),
            keccak_challenge(e),
        ) by {
            let (a, b) = (cell_values(e, done), cell_values(e, gadget.field@));
            assert(acc.eval(e) == polynomial(a, keccak_challenge(e)));
            assert(cell_values(e, done + gadget.field@) =~= a + b);
            lemma_polynomial_concat(a, b, keccak_challenge(e));
        }
    }
    r
}

/// PiCircuitConfigArgs
pub struct TaikoPiCircuitConfigArgs<F: Field> {
    pub evidence: PublicData<F>,
    /// The tag of the hashes in the table of blocks.
    pub block_hash_tag: u64,
}

/// PiCircuitConfig
#[derive(Debug)]
pub struct TaikoPiCircuitConfig {
    pub meta_data: FieldGadget,
    pub parent_hash: (Cell, FieldGadget, Cell),
    pub block_hash: (Cell, FieldGadget, Cell),
    pub signal_root: FieldGadget,
    pub graffiti: FieldGadget,
    pub prover: FieldGadget,
    pub total_acc: Cell,
    pub keccak_bytes: FieldGadget,
    pub keccak_hi_lo: (Cell, Cell),
    pub gate: Gate<PiColumn>,
    pub lookups: Vec<PiLookup>,
}

impl TaikoPiCircuitConfig {
    /// Where the cells for bytes hold `bytes`: the hashes of the parent and of the block are looked
    /// up in the table of blocks, and the public input with its digest in the table of hashes.
    pub open spec fn looks_up_the_bytes(&self, e: Env<PiColumn>, bytes: Seq<u8>) -> bool {
        let (w, m) = (word_challenge(e), e.modulus);
        let parent = eval_all(self.lookups@[0].inputs@, e);
        let block = eval_all(self.lookups@[1].inputs@, e);
        let hash = eval_all(self.lookups@[2].inputs@, e);
        &&& parent[1] % m == at(e, parent_number_cell()) % m
        &&& parent[2] % m == rlc_be(bytes.subrange(32, 64), w, m) % m
        &&& block[1] % m == at(e, block_number_cell()) % m
        &&& block[2] % m == rlc_be(bytes.subrange(64, 96), w, m) % m
        &&& hash[1] % m == rlc_be(bytes.subrange(0, 192), keccak_challenge(e), m) % m
        &&& hash[2] % m == 192int % m
        &&& hash[3] % m == rlc_be(bytes.subrange(192, 224), w, m) % m
    }

    /// The gadgets and cells are laid out one behind the other.
    pub open spec fn wf(&self) -> bool {
        &&& self.meta_data.wf()
        &&& self.parent_hash.1.wf()
        &&& self.block_hash.1.wf()
        &&& self.signal_root.wf()
        &&& self.graffiti.wf()
        &&& self.prover.wf()
        &&& self.keccak_bytes.wf()
        &&& self.meta_data.field@ == field_cells(META_DATA as int)
        &&& self.parent_hash.1.field@ == field_cells(PARENT_HASH as int)
        &&& self.block_hash.1.field@ == field_cells(BLOCK_HASH as int)
        &&& self.signal_root.field@ == field_cells(SIGNAL_ROOT as int)
        &&& self.graffiti.field@ == field_cells(GRAFFITI as int)
        &&& self.prover.field@ == field_cells(PROVER as int)
        &&& self.keccak_bytes.field@ == digest_cells()
        &&& self.parent_hash.0 == parent_number_cell()
        &&& self.parent_hash.2 == parent_rlc_cell()
        &&& self.block_hash.0 == block_number_cell()
        &&& self.block_hash.2 == block_rlc_cell()
        &&& self.total_acc == total_acc_cell()
        &&& self.keccak_hi_lo.0 == hi_cell()
        &&& self.keccak_hi_lo.1 == lo_cell()
    }

    /// Return a new TaikoPiCircuitConfig
    pub fn new<F: Field>(args: &TaikoPiCircuitConfigArgs<F>) -> (r: Self)
        ensures
            r.wf(),
            forall|e: Env<PiColumn>| #[trigger] r.gate.holds(e) == pi_rule(e),
            r.lookups@.len() == 3 + PiCellType::Byte.columns(),
            r.lookups@[0].table == Table::Block,
            r.lookups@[1].table == Table::Block,
            r.lookups@[2].table == Table::Keccak,
            forall|e: Env<PiColumn>| #[trigger]
                eval_all(r.lookups@[0].inputs@, e) == block_inputs(
                    e,
                    args.block_hash_tag,
                    parent_number_cell(),
                    parent_rlc_cell(),
                ),
            forall|e: Env<PiColumn>| #[trigger]
                eval_all(r.lookups@[1].inputs@, e) == block_inputs(
                    e,
                    args.block_hash_tag,
                    block_number_cell(),
                    block_rlc_cell(),
                ),
            forall|e: Env<PiColumn>| #[trigger]
                eval_all(r.lookups@[2].inputs@, e) == keccak_inputs(e),
            forall|i: int|
                3 <= i < r.lookups@.len() ==> (#[trigger] r.lookups@[i]).table == Table::Bytecode,
            forall|i: int, e: Env<PiColumn>|
                3 <= i < r.lookups@.len() ==> #[trigger] eval_all(r.lookups@[i].inputs@, e)
                    == byte_inputs(e, i - 3),
            forall|e: Env<PiColumn>, bytes: Seq<u8>|
                e.modulus > 0 && e.cur(PiColumn::QEnable) == 1 && r.gate.holds(e)
                    && #[trigger] holds_bytes(e, bytes) ==> r.looks_up_the_bytes(e, bytes),
    {
        let evidence = &args.evidence;
        let mut cm = PiCellManager::new();
        let meta_data = FieldGadget::config(&mut cm, evidence.field_len(META_DATA));
        let parent_number = cm.query_one(PiCellType::StoragePhase1);
        let parent_field = FieldGadget::config(&mut cm, evidence.field_len(PARENT_HASH));
        let parent_rlc = cm.query_one(PiCellType::StoragePhase2);
        let block_number = cm.query_one(PiCellType::StoragePhase1);
        let block_field = FieldGadget::config(&mut cm, evidence.field_len(BLOCK_HASH));
        let block_rlc = cm.query_one(PiCellType::StoragePhase2);
        let signal_root = FieldGadget::config(&mut cm, evidence.field_len(SIGNAL_ROOT));
        let graffiti = FieldGadget::config(&mut cm, evidence.field_len(GRAFFITI));
        let prover = FieldGadget::config(&mut cm, evidence.field_len(PROVER));
        let total_acc = cm.query_one(PiCellType::StoragePhase2);
        let keccak_bytes = FieldGadget::config(&mut cm, DEFAULT_LEN);
        let hi = cm.query_one(PiCellType::StoragePhase1);
        let lo = cm.query_one(PiCellType::StoragePhase1);
        proof {
            assert(meta_data.field@ =~= field_cells(META_DATA as int));
            assert(parent_field.field@ =~= field_cells(PARENT_HASH as int));
            assert(block_field.field@ =~= field_cells(BLOCK_HASH as int));
            assert(signal_root.field@ =~= field_cells(SIGNAL_ROOT as int));
            assert(graffiti.field@ =~= field_cells(GRAFFITI as int));
            assert(prover.field@ =~= field_cells(PROVER as int));
            assert(keccak_bytes.field@ =~= digest_cells());
        }
        let parent_hash = (parent_number, parent_field, parent_rlc);
        let block_hash = (block_number, block_field, block_rlc);
        let gate = acc_gate(
            &parent_hash,
            &block_hash,
            &meta_data,
            &signal_root,
            &graffiti,
            &prover,
            total_acc,
            &keccak_bytes,
            (hi, lo),
        );
        let mut lookups: Vec<PiLookup> = Vec::new();
        lookups.push(block_lookup(args.block_hash_tag, parent_number, parent_rlc));
        lookups.push(block_lookup(args.block_hash_tag, block_number, block_rlc));
        lookups.push(keccak_lookup(total_acc, evidence.total_len(), &keccak_bytes));
        lookups.append(&mut byte_lookups());
        let config = TaikoPiCircuitConfig {
            meta_data,
            parent_hash,
            block_hash,
            signal_root,
            graffiti,
            prover,
            total_acc,
            keccak_bytes,
            keccak_hi_lo: (hi, lo),
            gate,
            lookups,
        };
        assert forall|e: Env<PiColumn>, bytes: Seq<u8>|
            e.modulus > 0 && e.cur(PiColumn::QEnable) == 1 && config.gate.holds(e)
                && #[trigger] holds_bytes(e, bytes) implies config.looks_up_the_bytes(e, bytes) by {
            law_lookups_are_about_the_bytes(e, bytes, args.block_hash_tag);
        }
        config
    }

    /// The cells that are made public, in the order of the rows of the instance.
    pub fn public_cells(&self) -> (r: Vec<Cell>)
        requires
            self.wf(),
        ensures
            r@ == instance_cells(),
    {
        let mut cells: Vec<Cell> = Vec::new();
        cells.push(self.keccak_hi_lo.0);
        cells.push(self.keccak_hi_lo.1);
        cells
    }
}

/// The lookups of the columns of bytes.
fn byte_lookups() -> (lookups: Vec<PiLookup>)
    ensures
        lookups@.len() == PiCellType::Byte.columns(),
        forall|c: int|
            0 <= c < lookups@.len() ==> (#[trigger] lookups@[c]).table == Table::Bytecode,
        forall|c: int, e: Env<PiColumn>|
            0 <= c < lookups@.len() ==> #[trigger] eval_all(lookups@[c].inputs@, e) == byte_inputs(
                e,
                c,
            ),
{
    let n: usize = PiCellType::Byte.columns();
    let mut lookups: Vec<PiLookup> = Vec::new();
    while lookups.len() < n
        invariant
            n == PiCellType::Byte.columns(),
            lookups@.len() <= n,
            forall|c: int|
                0 <= c < lookups@.len() ==> (#[trigger] lookups@[c]).table == Table::Bytecode,
            forall|c: int, e: Env<PiColumn>|
                0 <= c < lookups@.len() ==> #[trigger] eval_all(lookups@[c].inputs@, e)
                    == byte_inputs(e, c),
        decreases n - lookups@.len(),
    {
        lookups.push(byte_lookup(lookups.len()));
    }
    lookups
}

fn byte_lookup(column: usize) -> (r: PiLookup)
    ensures
        r.table == Table::Bytecode,
        forall|e: Env<PiColumn>| #[trigger]
            eval_all(r.inputs@, e) == byte_inputs(e, column as int),
{
    let cell = Cell { cell_type: PiCellType::Byte, column, rotation: 0 };
    let mut inputs: Vec<Expression<PiColumn>> = Vec::new();
    inputs.push(Expression::cur(PiColumn::At(cell)));
    assert forall|e: Env<PiColumn>| #[trigger] eval_all(inputs@, e) == byte_inputs(
        e,
        column as int,
    ) by {
        assert(eval_all(inputs@, e) =~= byte_inputs(e, column as int));
    }
    PiLookup { table: Table::Bytecode, inputs }
}

/// The constraints of the circuit.
fn acc_gate(
    parent_hash: &(Cell, FieldGadget, Cell),
    block_hash: &(Cell, FieldGadget, Cell),
    meta_data: &FieldGadget,
    signal_root: &FieldGadget,
    graffiti: &FieldGadget,
    prover: &FieldGadget,
    total_acc: Cell,
    keccak_bytes: &FieldGadget,
    keccak_hi_lo: (Cell, Cell),
) -> (gate: Gate<PiColumn>)
    requires
        parent_hash.1.wf() && parent_hash.1.field@ == field_cells(PARENT_HASH as int),
        block_hash.1.wf() && block_hash.1.field@ == field_cells(BLOCK_HASH as int),
        parent_hash.2 == parent_rlc_cell(),
        block_hash.2 == block_rlc_cell(),
        meta_data.wf() && meta_data.field@ == field_cells(META_DATA as int),
        signal_root.wf() && signal_root.field@ == field_cells(SIGNAL_ROOT as int),
        graffiti.wf() && graffiti.field@ == field_cells(GRAFFITI as int),
        prover.wf() && prover.field@ == field_cells(PROVER as int),
        total_acc == total_acc_cell(),
        keccak_bytes.wf() && keccak_bytes.field@ == digest_cells(),
        keccak_hi_lo == (hi_cell(), lo_cell()),
    ensures
        forall|e: Env<PiColumn>| #[trigger] gate.holds(e) == pi_rule(e),
{
    let mut cb: BaseConstraintBuilder<PiColumn> = BaseConstraintBuilder::new();
    cb.require_equal(
        "parent hash rlc",
        Expression::cur(PiColumn::At(parent_hash.2)),
        parent_hash.1.rlc_acc(Expression::challenge(Challenge::EvmWord)),
    );
    cb.require_equal(
        "block hash rlc",
        Expression::cur(PiColumn::At(block_hash.2)),
        block_hash.1.rlc_acc(Expression::challenge(Challenge::EvmWord)),
    );
    let start: Expression<PiColumn> = Expression::constant(0);
    let ghost none: Seq<Cell> = seq![];
    proof {
        assert forall|e: Env<PiColumn>| #[trigger] start.eval(e) == polynomial(
            cell_values(e, none),
            keccak_challenge(e),
        ) by {
            assert(cell_values(e, none).len() == 0);
        }
        reveal_with_fuel(cells_before, 7);
        assert(cells_before(FIELD_NUM as nat) =~= none + field_cells(0) + field_cells(1)
            + field_cells(2) + field_cells(3) + field_cells(4) + field_cells(5));
    }
    let acc = fold_gadget(start, meta_data, Ghost(none));
    let ghost done = none + meta_data.field@;
    let acc = fold_gadget(acc, &parent_hash.1, Ghost(done));
    let ghost done = done + parent_hash.1.field@;
    let acc = fold_gadget(acc, &block_hash.1, Ghost(done));
    let ghost done = done + block_hash.1.field@;
    let acc = fold_gadget(acc, signal_root, Ghost(done));
    let ghost done = done + signal_root.field@;
    let acc = fold_gadget(acc, graffiti, Ghost(done));
    let ghost done = done + graffiti.field@;
    let acc = fold_gadget(acc, prover, Ghost(done));
    cb.require_equal("total acc", Expression::cur(PiColumn::At(total_acc)), acc);
    let (hi, lo) = keccak_bytes.hi_low_field();
    cb.require_equal("keccak hi", Expression::cur(PiColumn::At(keccak_hi_lo.0)), hi);
    cb.require_equal("keccak lo", Expression::cur(PiColumn::At(keccak_hi_lo.1)), lo);
    cb.gate("PI acc constraints", Expression::cur(PiColumn::QEnable))
}

fn block_lookup(tag: u64, number_cell: Cell, rlc_cell: Cell) -> (r: PiLookup)
    ensures
        r.table == Table::Block,
        forall|e: Env<PiColumn>| #[trigger]
            eval_all(r.inputs@, e) == block_inputs(e, tag, number_cell, rlc_cell),
{
    let on = Expression::cur(PiColumn::QEnable);
    let mut inputs: Vec<Expression<PiColumn>> = Vec::new();
    inputs.push(on.duplicate().times(Expression::constant(tag)));
    inputs.push(on.duplicate().times(Expression::cur(PiColumn::At(number_cell))));
    inputs.push(on.times(Expression::cur(PiColumn::At(rlc_cell))));
    assert forall|e: Env<PiColumn>| #[trigger] eval_all(inputs@, e) == block_inputs(
        e,
        tag,
        number_cell,
        rlc_cell,
    ) by {
        assert(eval_all(inputs@, e) =~= block_inputs(e, tag, number_cell, rlc_cell));
    }
    PiLookup { table: Table::Block, inputs }
}

fn keccak_lookup(total_acc: Cell, total_len: usize, keccak_bytes: &FieldGadget) -> (r: PiLookup)
    requires
        total_acc == total_acc_cell(),
        total_len == FIELD_NUM * DEFAULT_LEN,
        keccak_bytes.field@ == digest_cells(),
    ensures
        r.table == Table::Keccak,
        forall|e: Env<PiColumn>| #[trigger] eval_all(r.inputs@, e) == keccak_inputs(e),
{
    let on = Expression::cur(PiColumn::QEnable);
    let mut inputs: Vec<Expression<PiColumn>> = Vec::new();
    inputs.push(on.duplicate().times(Expression::constant(1)));
    inputs.push(on.duplicate().times(Expression::cur(PiColumn::At(total_acc))));
    inputs.push(on.duplicate().times(Expression::constant(total_len as u64)));
    inputs.push(
        on.times(keccak_bytes.rlc_acc(Expression::challenge(Challenge::EvmWord))),
    );
    assert forall|e: Env<PiColumn>| #[trigger] eval_all(inputs@, e) == keccak_inputs(e) by {
        assert(eval_all(inputs@, e) =~= keccak_inputs(e));
    }
    PiLookup { table: Table::Keccak, inputs }
}

/// The value of a cell for the public input `raw` with the given digest, of a block with the given
/// number.
pub open spec fn pi_cell_value(
    raw: Seq<u8>,
    digest: Seq<u8>,
    number: int,
    keccak_r: int,
    evm_word: int,
    m: int,
    c: PiColumn,
) -> int {
    match c {
        PiColumn::QEnable => 1,
        PiColumn::At(cell) => {
            let n = cell.rotation * cell.cell_type.columns() + cell.column;
            match cell.cell_type {
                PiCellType::Byte => if n < raw.len() {
                    raw[n] as int
                } else {
                    digest[n - raw.len()] as int
                },
                PiCellType::StoragePhase1 => if n == 0 {
                    number - 1
                } else if n == 1 {
                    number
                } else if n == 2 {
                    halves(digest, m).0
                } else {
                    halves(digest, m).1
                },
                PiCellType::StoragePhase2 => if n == 0 {
                    rlc_be(raw.subrange(32, 64), evm_word, m)
                } else if n == 1 {
                    rlc_be(raw.subrange(64, 96), evm_word, m)
                } else {
                    rlc_be(raw, keccak_r, m)
                },
            }
        },
    }
}

/// A field within the public input.
proof fn lemma_field_within(instance: ProtocolInstance, prover: Seq<u8>, k: int, n: nat)
    requires
        prover.len() == 20,
        0 <= k < n <= FIELD_NUM,
    ensures
        public_input(instance, prover, n).len() == n * DEFAULT_LEN,
        public_input(instance, prover, n).subrange(32 * k, 32 * k + 32) == public_field(
            instance,
            prover,
            k,
        ),
    decreases n,
{
    lemma_public_input_len(instance, prover, n);
    lemma_public_input_len(instance, prover, (n - 1) as nat);
    let front = public_input(instance, prover, (n - 1) as nat);
    let whole = public_input(instance, prover, n);
    if k == n - 1 {
        assert(whole.subrange(32 * k, 32 * k + 32) =~= public_field(instance, prover, k));
    } else {
        lemma_field_within(instance, prover, k, (n - 1) as nat);
        assert(whole.subrange(32 * k, 32 * k + 32) =~= front.subrange(32 * k, 32 * k + 32));
    }
}

/// The cells hold the values of the public input.
pub open spec fn pi_filled<F: Field>(
    cells: Seq<PiAssigned<F>>,
    evidence: PublicData<F>,
    digest: Seq<u8>,
    keccak_r: int,
    evm_word: int,
) -> bool {
    forall|i: int|
        0 <= i < cells.len() ==> (#[trigger] cells[i]).value.val() == pi_cell_value(
            evidence.raw(),
            digest,
            evidence.block_context.number as int,
            keccak_r,
            evm_word,
            F::modulus(),
            cells[i].column,
        )
}

/// The columns of cells.
pub open spec fn columns_of<F: Field>(cells: Seq<PiAssigned<F>>) -> Seq<PiColumn> {
    Seq::new(cells.len(), |i: int| cells[i].column)
}

/// The columns for cells.
pub open spec fn columns_for(cells: Seq<Cell>) -> Seq<PiColumn> {
    Seq::new(cells.len(), |i: int| PiColumn::At(cells[i]))
}

/// The columns that are filled, in order.
pub open spec fn pi_columns() -> Seq<PiColumn> {
    seq![
        PiColumn::QEnable,
        PiColumn::At(parent_number_cell()),
        PiColumn::At(parent_rlc_cell()),
        PiColumn::At(block_number_cell()),
        PiColumn::At(block_rlc_cell()),
    ] + columns_for(field_cells(0)) + columns_for(field_cells(1)) + columns_for(field_cells(2))
        + columns_for(field_cells(3)) + columns_for(field_cells(4)) + columns_for(field_cells(5))
        + columns_for(digest_cells()) + seq![
        PiColumn::At(total_acc_cell()),
        PiColumn::At(hi_cell()),
        PiColumn::At(lo_cell()),
    ]
}

/// Fills the cells of one more gadget.
fn append_gadget<F: Field>(
    cells: &mut Vec<PiAssigned<F>>,
    gadget: &FieldGadget,
    bytes: &Vec<F>,
    evidence: &PublicData<F>,
    k: usize,
    Ghost(digest): Ghost<Seq<u8>>,
    Ghost(keccak_r): Ghost<int>,
    Ghost(evm_word): Ghost<int>,
)
    requires
        k <= FIELD_NUM,
        gadget.wf(),
        gadget.field@ == field_cells(k as int),
        digest.len() == DEFAULT_LEN,
        as_elements(
            if k < FIELD_NUM {
                evidence.field_bytes(k as int)
            } else {
                digest
            },
            bytes@,
        ),
        bytes@.len() == DEFAULT_LEN,
        pi_filled(old(cells)@, *evidence, digest, keccak_r, evm_word),
    ensures
        pi_filled(final(cells)@, *evidence, digest, keccak_r, evm_word),
        columns_of(final(cells)@) == columns_of(old(cells)@) + columns_for(field_cells(k as int)),
{
    let mut more = gadget.assign(bytes);
    proof {
        lemma_public_input_len(evidence.protocol_instance, evidence.prover@, FIELD_NUM as nat);
        if k < FIELD_NUM {
            lemma_field_within(
                evidence.protocol_instance,
                evidence.prover@,
                k as int,
                FIELD_NUM as nat,
            );
        }
        let raw = evidence.raw();
        assert forall|i: int| 0 <= i < more@.len() implies (#[trigger] more@[i]).value.val()
            == pi_cell_value(
            raw,
            digest,
            evidence.block_context.number as int,
            keccak_r,
            evm_word,
            F::modulus(),
            more@[i].column,
        ) by {
            let n = k * DEFAULT_LEN + i;
            assert(more@[i].column == PiColumn::At(nth_cell(PiCellType::Byte, n)));
            assert((n / 15) * 15 + n % 15 == n);
            assert(bytes@[i].val() == if k < FIELD_NUM {
                evidence.field_bytes(k as int)[i]
            } else {
                digest[i]
            });
            if k < FIELD_NUM {
                assert(raw.subrange(32 * k, 32 * k + 32)[i] == raw[n]);
            }
        }
    }
    let ghost added = more@;
    cells.append(&mut more);
    assert(columns_of(cells@) =~= columns_of(old(cells)@) + columns_for(field_cells(k as int)));
}

impl TaikoPiCircuitConfig {
    /// The cells with their values, for a public input with the given digest.
    pub fn assign_with_digest<F: Field>(
        &self,
        evidence: &PublicData<F>,
        digest: &Vec<u8>,
        keccak_r: F,
        evm_word: F,
    ) -> (cells: Vec<PiAssigned<F>>)
        requires
            self.wf(),
            evidence.block_context.number >= 1,
            digest@.len() == DEFAULT_LEN,
        ensures
            columns_of(cells@) == pi_columns(),
            pi_filled(cells@, *evidence, digest@, keccak_r.val(), evm_word.val()),
    {
        let number: u64 = evidence.block_context.number;
        let halves_of_digest: [F; 2] = hi_low(digest);
        let ghost raw = evidence.raw();
        let ghost (kr, ew) = (keccak_r.val(), evm_word.val());
        proof {
            let (instance, prover) = (evidence.protocol_instance, evidence.prover@);
            lemma_field_within(instance, prover, PARENT_HASH as int, FIELD_NUM as nat);
            lemma_field_within(instance, prover, BLOCK_HASH as int, FIELD_NUM as nat);
        }
        let mut cells: Vec<PiAssigned<F>> = Vec::new();
        cells.push(PiAssigned { column: PiColumn::QEnable, value: F::one() });
        cells.push(
            PiAssigned {
                column: PiColumn::At(self.parent_hash.0),
                value: F::from_u64(number - 1),
            },
        );
        cells.push(
            PiAssigned {
                column: PiColumn::At(self.parent_hash.2),
                value: evidence.assignment_acc(PARENT_HASH, evm_word),
            },
        );
        cells.push(
            PiAssigned {
                column: PiColumn::At(self.block_hash.0),
                value: F::from_u64(number),
            },
        );
        cells.push(
            PiAssigned {
                column: PiColumn::At(self.block_hash.2),
                value: evidence.assignment_acc(BLOCK_HASH, evm_word),
            },
        );
        assert(columns_of(cells@) =~= seq![
            PiColumn::QEnable,
            PiColumn::At(parent_number_cell()),
            PiColumn::At(parent_rlc_cell()),
            PiColumn::At(block_number_cell()),
            PiColumn::At(block_rlc_cell()),
        ]);
        append_gadget(
            &mut cells,
            &self.meta_data,
            &evidence.assignment(META_DATA),
            evidence,
            META_DATA,
            Ghost(digest@),
            Ghost(kr),
            Ghost(ew),
        );
        append_gadget(
            &mut cells,
            &self.parent_hash.1,
            &evidence.assignment(PARENT_HASH),
            evidence,
            PARENT_HASH,
            Ghost(digest@),
            Ghost(kr),
            Ghost(ew),
        );
        append_gadget(
            &mut cells,
            &self.block_hash.1,
            &evidence.assignment(BLOCK_HASH),
            evidence,
            BLOCK_HASH,
            Ghost(digest@),
            Ghost(kr),
            Ghost(ew),
        );
        append_gadget(
            &mut cells,
            &self.signal_root,
            &evidence.assignment(SIGNAL_ROOT),
            evidence,
            SIGNAL_ROOT,
            Ghost(digest@),
            Ghost(kr),
            Ghost(ew),
        );
        append_gadget(
            &mut cells,
            &self.graffiti,
            &evidence.assignment(GRAFFITI),
            evidence,
            GRAFFITI,
            Ghost(digest@),
            Ghost(kr),
            Ghost(ew),
        );
        append_gadget(
            &mut cells,
            &self.prover,
            &evidence.assignment(PROVER),
            evidence,
            PROVER,
            Ghost(digest@),
            Ghost(kr),
            Ghost(ew),
        );
        append_gadget(
            &mut cells,
            &self.keccak_bytes,
            &bytes_as_elements(digest),
            evidence,
            FIELD_NUM,
            Ghost(digest@),
            Ghost(kr),
            Ghost(ew),
        );
        let ghost front = columns_of(cells@);
        cells.push(
            PiAssigned {
                column: PiColumn::At(self.total_acc),
                value: evidence.total_acc(keccak_r),
            },
        );
        cells.push(
            PiAssigned {
                column: PiColumn::At(self.keccak_hi_lo.0),
                value: halves_of_digest[0],
            },
        );
        cells.push(
            PiAssigned {
                column: PiColumn::At(self.keccak_hi_lo.1),
                value: halves_of_digest[1],
            },
        );
        assert(columns_of(cells@) =~= front + seq![
            PiColumn::At(total_acc_cell()),
            PiColumn::At(hi_cell()),
            PiColumn::At(lo_cell()),
        ]);
        cells
    }

    /// The cells with their values.
    pub fn assign<F: Field>(
        &self,
        evidence: &PublicData<F>,
        keccak_r: F,
        evm_word: F,
    ) -> (cells: Vec<PiAssigned<F>>)
        requires
            self.wf(),
            evidence.block_context.number >= 1,
        ensures
            columns_of(cells@) == pi_columns(),
            pi_filled(
                cells@,
                *evidence,
                keccak256_digest(evidence.raw()),
                keccak_r.val(),
                evm_word.val(),
            ),
    {
        self.assign_with_digest(evidence, &evidence.keccak(), keccak_r, evm_word)
    }
}

/// What the constraints and the lookups see of the cells.
pub open spec fn pi_env(
    raw: Seq<u8>,
    digest: Seq<u8>,
    number: int,
    keccak_r: int,
    evm_word: int,
    m: int,
) -> Env<PiColumn> {
    Env {
        cell: |c: PiColumn, offset: int|
            pi_cell_value(raw, digest, number, keccak_r, evm_word, m, c),
        challenge: |c: Challenge|
            if c == Challenge::KeccakInput {
                keccak_r
            } else {
                evm_word
            },
        modulus: m,
    }
}

/// The byte cells of the first `n` fields hold the front of the public input.
pub proof fn lemma_front_cells(e: Env<PiColumn>, raw: Seq<u8>, n: nat)
    requires
        raw.len() == FIELD_NUM * DEFAULT_LEN,
        n <= FIELD_NUM,
        forall|k: int|
            0 <= k < raw.len() ==> #[trigger] at(e, nth_cell(PiCellType::Byte, k)) == raw[k],
    ensures
        cells_before(n).len() == n * DEFAULT_LEN,
        forall|i: int|
            0 <= i < n * DEFAULT_LEN ==> #[trigger] cell_values(e, cells_before(n))[i] == raw[i],
    decreases n,
{
    if n > 0 {
        let front = cells_before((n - 1) as nat);
        lemma_front_cells(e, raw, (n - 1) as nat);
        assert forall|i: int| 0 <= i < n * DEFAULT_LEN implies #[trigger] cell_values(
            e,
            cells_before(n),
        )[i] == raw[i] by {
            if i < front.len() {
                assert(cell_values(e, front)[i] == raw[i]);
            } else {
                let k = (n - 1) * DEFAULT_LEN + (i - front.len());
                assert(cells_before(n)[i] == nth_cell(PiCellType::Byte, k));
                assert(at(e, nth_cell(PiCellType::Byte, k)) == raw[k]);
            }
        }
    }
}

/// A polynomial of cells that hold bytes equals a cell that holds the combination of the bytes.
proof fn lemma_cell_combines(
    e: Env<PiColumn>,
    on: int,
    cell: int,
    values: Seq<int>,
    bytes: Seq<u8>,
    r: int,
)
    requires
        e.modulus > 1,
        values.len() == bytes.len(),
        forall|i: int| 0 <= i < values.len() ==> #[trigger] values[i] == bytes[i],
        cell == rlc_be(bytes, r, e.modulus),
    ensures
        e.equal_if(on, cell, polynomial(values, r)),
{
    crate::rlc::lemma_rlc_be_range(bytes, r, e.modulus);
    vstd::arithmetic::div_mod::lemma_small_mod(cell as nat, e.modulus as nat);
    lemma_polynomial(values, bytes, r, e.modulus);
    lemma_congruent(e, on, cell, polynomial(values, r));
}

/// The byte cells hold the public input, and behind it the digest.
pub proof fn lemma_byte_cells(
    raw: Seq<u8>,
    digest: Seq<u8>,
    number: int,
    keccak_r: int,
    evm_word: int,
    m: int,
)
    requires
        raw.len() == FIELD_NUM * DEFAULT_LEN,
        digest.len() == DEFAULT_LEN,
    ensures
        ({
            let e = pi_env(raw, digest, number, keccak_r, evm_word, m);
            &&& forall|k: int|
                0 <= k < raw.len() ==> #[trigger] at(e, nth_cell(PiCellType::Byte, k)) == raw[k]
            &&& forall|k: int|
                raw.len() <= k < raw.len() + digest.len() ==> #[trigger] at(
                    e,
                    nth_cell(PiCellType::Byte, k),
                ) == digest[k - raw.len()]
        }),
{
    let e = pi_env(raw, digest, number, keccak_r, evm_word, m);
    assert forall|k: int| 0 <= k < raw.len() + digest.len() implies (#[trigger] nth_cell(
        PiCellType::Byte,
        k,
    )).rotation * 15 + nth_cell(PiCellType::Byte, k).column == k by {
        assert((k / 15) * 15 + k % 15 == k);
    }
    assert forall|k: int| 0 <= k < raw.len() implies #[trigger] at(
        e,
        nth_cell(PiCellType::Byte, k),
    ) == raw[k] by {
        let c = nth_cell(PiCellType::Byte, k);
        assert(c.rotation * 15 + c.column == k);
    }
    assert forall|k: int| raw.len() <= k < raw.len() + digest.len() implies #[trigger] at(
        e,
        nth_cell(PiCellType::Byte, k),
    ) == digest[k - raw.len()] by {
        let c = nth_cell(PiCellType::Byte, k);
        assert(c.rotation * 15 + c.column == k);
    }
}

/// The circuit accepts the cells of every public input and digest.
pub proof fn law_public_input_satisfies_gate(
    raw: Seq<u8>,
    digest: Seq<u8>,
    number: int,
    keccak_r: int,
    evm_word: int,
    m: int,
)
    requires
        m > 1,
        raw.len() == FIELD_NUM * DEFAULT_LEN,
        digest.len() == DEFAULT_LEN,
    ensures
        pi_rule(pi_env(raw, digest, number, keccak_r, evm_word, m)),
{
    let e = pi_env(raw, digest, number, keccak_r, evm_word, m);
    let on = e.cur(PiColumn::QEnable);
    lemma_byte_cells(raw, digest, number, keccak_r, evm_word, m);
    lemma_front_cells(e, raw, FIELD_NUM as nat);
    let parent = cell_values(e, field_cells(PARENT_HASH as int));
    assert forall|i: int| 0 <= i < 32 implies #[trigger] parent[i] == raw.subrange(32, 64)[i] by {
        assert(at(e, nth_cell(PiCellType::Byte, 32 + i)) == raw[32 + i]);
    }
    lemma_cell_combines(
        e,
        on,
        at(e, parent_rlc_cell()),
        parent,
        raw.subrange(32, 64),
        evm_word,
    );
    let block = cell_values(e, field_cells(BLOCK_HASH as int));
    assert forall|i: int| 0 <= i < 32 implies #[trigger] block[i] == raw.subrange(64, 96)[i] by {
        assert(at(e, nth_cell(PiCellType::Byte, 64 + i)) == raw[64 + i]);
    }
    lemma_cell_combines(
        e,
        on,
        at(e, block_rlc_cell()),
        block,
        raw.subrange(64, 96),
        evm_word,
    );
    lemma_cell_combines(
        e,
        on,
        at(e, total_acc_cell()),
        cell_values(e, cells_before(FIELD_NUM as nat)),
        raw,
        keccak_r,
    );
    let hi = cell_values(e, digest_cells().subrange(0, 16));
    assert forall|i: int| 0 <= i < 16 implies #[trigger] hi[i] == digest.subrange(0, 16)[i] by {
        assert(at(e, nth_cell(PiCellType::Byte, 192 + i)) == digest[i]);
    }
    lemma_cell_combines(e, on, at(e, hi_cell()), hi, digest.subrange(0, 16), 256);
    let lo = cell_values(e, digest_cells().subrange(16, 32));
    assert forall|i: int| 0 <= i < 16 implies #[trigger] lo[i] == digest.subrange(16, 32)[i] by {
        assert(at(e, nth_cell(PiCellType::Byte, 208 + i)) == digest[16 + i]);
    }
    lemma_cell_combines(e, on, at(e, lo_cell()), lo, digest.subrange(16, 32), 256);
}

/// The cells of every public input and digest are found in the table of bytes.
pub proof fn law_public_input_is_made_of_bytes(
    raw: Seq<u8>,
    digest: Seq<u8>,
    number: int,
    keccak_r: int,
    evm_word: int,
    m: int,
    n: int,
)
    requires
        raw.len() == FIELD_NUM * DEFAULT_LEN,
        digest.len() == DEFAULT_LEN,
        0 <= n < raw.len() + digest.len(),
    ensures
        ({
            let e = pi_env(raw, digest, number, keccak_r, evm_word, m);
            0 <= at(e, nth_cell(PiCellType::Byte, n)) < 256
        }),
{
    lemma_byte_cells(raw, digest, number, keccak_r, evm_word, m);
}

/// What the circuit looks up in the table of hashes is the row for the public input: the
/// combination of its bytes, its length, and the combination of its digest.
pub proof fn law_public_input_is_looked_up(
    raw: Seq<u8>,
    digest: Seq<u8>,
    number: int,
    keccak_r: int,
    evm_word: int,
    m: int,
)
    requires
        m > 1,
        raw.len() == FIELD_NUM * DEFAULT_LEN,
        digest.len() == DEFAULT_LEN,
    ensures
        ({
            let inputs = keccak_inputs(pi_env(raw, digest, number, keccak_r, evm_word, m));
            &&& inputs[0] == 1
            &&& inputs[1] == rlc_be(raw, keccak_r, m)
            &&& inputs[2] == raw.len()
            &&& inputs[3] % m == rlc_be(digest, evm_word, m)
        }),
{
    let e = pi_env(raw, digest, number, keccak_r, evm_word, m);
    lemma_byte_cells(raw, digest, number, keccak_r, evm_word, m);
    let values = cell_values(e, digest_cells());
    assert forall|i: int| 0 <= i < 32 implies #[trigger] values[i] == digest[i] by {
        assert(at(e, nth_cell(PiCellType::Byte, 192 + i)) == digest[i]);
    }
    lemma_polynomial(values, digest, evm_word, m);
    let (on, acc, p) = (
        e.cur(PiColumn::QEnable),
        at(e, total_acc_cell()),
        polynomial(values, evm_word),
    );
    assert(on * 1 == 1 && on * acc == acc && on * 192 == 192 && on * p == p) by (nonlinear_arith)
        requires
            on == 1,
    ;
    assert(PiCellType::StoragePhase2.columns() == 1);
    assert(2int / 1int == 2 && 2int % 1int == 0);
    assert(total_acc_cell().rotation == 2 && total_acc_cell().column == 0);
}

/// Every cell for bytes is looked up as one, in the row that it lies in.
pub proof fn law_every_byte_cell_is_looked_up(e: Env<PiColumn>, n: int)
    requires
        0 <= n < capacity(PiCellType::Byte),
    ensures
        ({
            let width = PiCellType::Byte.columns() as int;
            byte_inputs(rows_down(e, (n / width) as nat), n % width) == seq![
                at(e, nth_cell(PiCellType::Byte, n)),
            ]
        }),
{
}

/// The cells that are made public hold the two halves of the digest.
pub proof fn law_public_cells_hold_the_halves(
    raw: Seq<u8>,
    digest: Seq<u8>,
    number: int,
    keccak_r: int,
    evm_word: int,
    m: int,
)
    ensures
        ({
            let e = pi_env(raw, digest, number, keccak_r, evm_word, m);
            &&& at(e, instance_cells()[0]) == halves(digest, m).0
            &&& at(e, instance_cells()[1]) == halves(digest, m).1
        }),
{
    assert(PiCellType::StoragePhase1.columns() == 1);
    assert(hi_cell().rotation == 2 && hi_cell().column == 0);
    assert(lo_cell().rotation == 3 && lo_cell().column == 0);
}

/// In a field that is large enough, bytes as the digits of a number combine to its value.
pub proof fn lemma_number(bytes: Seq<u8>, m: int)
    requires
        vstd::arithmetic::power::pow(256, bytes.len()) <= m,
    ensures
        rlc_be(bytes, 256, m) == be_value(bytes),
        0 <= be_value(bytes) < vstd::arithmetic::power::pow(256, bytes.len()),
    decreases bytes.len(),
{
    reveal(vstd::arithmetic::power::pow);
    if bytes.len() > 0 {
        let front = bytes.drop_last();
        let (p, q) = (
            vstd::arithmetic::power::pow(256, front.len()),
            vstd::arithmetic::power::pow(256, bytes.len()),
        );
        assert(q == 256 * p);
        vstd::arithmetic::power::lemma_pow_positive(256, front.len());
        lemma_number(front, m);
        vstd::arithmetic::div_mod::lemma_small_mod(be_value(bytes) as nat, m as nat);
    }
}

/// Bytes of one length with one value are the same.
pub proof fn lemma_number_is_unique(a: Seq<u8>, b: Seq<u8>)
    requires
        a.len() == b.len(),
        be_value(a) == be_value(b),
    ensures
        a == b,
    decreases a.len(),
{
    if a.len() > 0 {
        assert(a.last() == b.last() && be_value(a.drop_last()) == be_value(b.drop_last()));
        lemma_number_is_unique(a.drop_last(), b.drop_last());
        assert(a =~= a.drop_last().push(a.last()));
        assert(b =~= b.drop_last().push(b.last()));
    } else {
        assert(a =~= b);
    }
}

/// The two public numbers determine the digest, in a field that holds every number of 16 bytes.
pub proof fn law_halves_determine_the_digest(a: Seq<u8>, b: Seq<u8>, m: int)
    requires
        a.len() == DEFAULT_LEN,
        b.len() == DEFAULT_LEN,
        m >= vstd::arithmetic::power::pow(256, 16),
        halves(a, m) == halves(b, m),
    ensures
        a == b,
{
    lemma_number(a.subrange(0, 16), m);
    lemma_number(b.subrange(0, 16), m);
    lemma_number(a.subrange(16, 32), m);
    lemma_number(b.subrange(16, 32), m);
    lemma_number_is_unique(a.subrange(0, 16), b.subrange(0, 16));
    lemma_number_is_unique(a.subrange(16, 32), b.subrange(16, 32));
    assert(a =~= a.subrange(0, 16) + a.subrange(16, 32));
    assert(b =~= b.subrange(0, 16) + b.subrange(16, 32));
}

/// Public Inputs Circuit
#[derive(Debug)]
pub struct TaikoPiCircuit<F: Field> {
    /// PublicInputs data known by the verifier
    pub evidence: PublicData<F>,
}

impl<F: Field> TaikoPiCircuit<F> {
    /// Creates a new TaikoPiCircuit
    pub fn new(evidence: PublicData<F>) -> (r: Self)
        ensures
            r.evidence == evidence,
    {
        Self { evidence }
    }

    pub fn unusable_rows() -> (r: usize)
        ensures
            r == CM_HEIGHT + 3,
    {
        // No column queried at more than 3 distinct rotations, so returns 6 as
        // minimum unusable rows.
        CM_HEIGHT + 3
    }

    pub fn min_num_rows_block(block: &Block) -> (r: (usize, usize))
        requires
            block.protocol_instance is Some,
        ensures
            r == (0usize, (FIELD_NUM * DEFAULT_LEN) as usize),
    {
        let data: PublicData<F> = PublicData::new(block, None);
        (0, data.total_len())
    }

    pub fn new_from_block(block: &Block) -> (r: Self)
        requires
            block.protocol_instance is Some,
        ensures
            r.evidence.protocol_instance == block.protocol_instance->0,
            r.evidence.prover@ == Seq::new(20, |i: int| 0u8),
            r.evidence.block_context.number == block.context.number,
            r.evidence.block_context.history_hashes@ == block.context.history_hashes@,
    {
        TaikoPiCircuit::new(PublicData::new(block, None))
    }

    /// Compute the public inputs for this circuit.
    pub fn instance(&self) -> (r: Vec<Vec<F>>)
        ensures
            r@.len() == 1,
            r@[0]@.len() == 2,
            r@[0]@[0].val() == halves(keccak256_digest(self.evidence.raw()), F::modulus()).0,
            r@[0]@[1].val() == halves(keccak256_digest(self.evidence.raw()), F::modulus()).1,
    {
        let hi_lo = self.evidence.keccak_hi_low();
        let mut column: Vec<F> = Vec::new();
        column.push(hi_lo[0]);
        column.push(hi_lo[1]);
        let mut columns: Vec<Vec<F>> = Vec::new();
        columns.push(column);
        columns
    }

    /// Make the assignments to the PiCircuit
    pub fn synthesize_sub(
        &self,
        config: &TaikoPiCircuitConfig,
        keccak_r: F,
        evm_word: F,
    ) -> (cells: Vec<PiAssigned<F>>)
        requires
            config.wf(),
            self.evidence.block_context.number >= 1,
        ensures
            columns_of(cells@) == pi_columns(),
            pi_filled(
                cells@,
                self.evidence,
                keccak256_digest(self.evidence.raw()),
                keccak_r.val(),
                evm_word.val(),
            ),
    {
        config.assign(&self.evidence, keccak_r, evm_word)
    }
}

impl<F: Field> Clone for TaikoPiCircuit<F> {
    fn clone(&self) -> (r: Self)
        ensures
            r.evidence.protocol_instance == self.evidence.protocol_instance,
            r.evidence.prover == self.evidence.prover,
            r.evidence.block_context.number == self.evidence.block_context.number,
            r.evidence.block_context.history_hashes@
                == self.evidence.block_context.history_hashes@,
    {
        TaikoPiCircuit { evidence: self.evidence.clone() }
    }
}

impl<F: Field> Default for TaikoPiCircuit<F> {
    fn default() -> (r: Self)
        ensures
            r.evidence.raw() == Seq::new((FIELD_NUM * DEFAULT_LEN) as nat, |i: int| 0u8),
            r.evidence.prover@ == Seq::new(20, |i: int| 0u8),
            r.evidence.block_context.number == 0,
            r.evidence.block_context.history_hashes@.len() == 1,
            r.evidence.block_context.history_hashes@[0]@ == Seq::new(32, |i: int| 0u8),
    {
        TaikoPiCircuit { evidence: PublicData::default() }
    }
}

} // verus!
