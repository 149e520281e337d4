//! What the public input circuit commits to.

use crate::decode::be_value;
use crate::expression::{lemma_polynomial, polynomial, Challenge, Env};
use crate::rlc::{lemma_rlc_be_range, rlc_be};
use crate::taiko_pi_circuit::{
    at, block_inputs, block_number_cell, block_rlc_cell, cell_values, cells_before, columns_for,
    digest_cells, field_cells, halves, hi_cell, keccak_challenge, keccak_inputs, lemma_byte_cells,
    lemma_front_cells, lemma_number, lo_cell, nth_cell, parent_number_cell, parent_rlc_cell,
    pi_columns, pi_env, pi_rule, public_field, public_input, total_acc_cell, word_challenge,
    PiCellType, PiColumn, BLOCK_HASH, FIELD_NUM, PARENT_HASH,
};
use crate::witness::ProtocolInstance;
use vstd::arithmetic::power::pow;
use vstd::prelude::*;

verus! {

/// `bytes` are the six fields, byte by byte: the hash of the metadata, the hash of the parent, the
/// hash of the block, the signal root, the graffiti, and the prover behind twelve zeros.
pub open spec fn encodes(bytes: Seq<u8>, instance: ProtocolInstance, prover: Seq<u8>) -> bool {
    &&& bytes.len() == 192
    &&& forall|k: int|
        #![trigger instance.meta_hash@[k]]
        0 <= k < 32 ==> bytes[k] == instance.meta_hash@[k]
    &&& forall|k: int|
        #![trigger instance.parent_hash@[k]]
        0 <= k < 32 ==> bytes[32 + k] == instance.parent_hash@[k]
    &&& forall|k: int|
        #![trigger instance.block_hash@[k]]
        0 <= k < 32 ==> bytes[64 + k] == instance.block_hash@[k]
    &&& forall|k: int|
        #![trigger instance.signal_root@[k]]
        0 <= k < 32 ==> bytes[96 + k] == instance.signal_root@[k]
    &&& forall|k: int|
        #![trigger instance.graffiti@[k]]
        0 <= k < 32 ==> bytes[128 + k] == instance.graffiti@[k]
    &&& forall|k: int| 160 <= k < 172 ==> #[trigger] bytes[k] == 0
    &&& forall|k: int| #![trigger prover[k]] 0 <= k < 20 ==> bytes[172 + k] == prover[k]
}

/// The encoded public input holds every byte of the instance and of the prover, at its place.
pub proof fn law_public_input_holds_the_instance(instance: ProtocolInstance, prover: Seq<u8>)
    requires
        prover.len() == 20,
    ensures
        encodes(public_input(instance, prover, FIELD_NUM as nat), instance, prover),
{
    reveal_with_fuel(public_input, 7);
    let f = |i: int| public_field(instance, prover, i);
    let bytes = f(0) + f(1) + f(2) + f(3) + f(4) + f(5);
    assert(public_input(instance, prover, FIELD_NUM as nat) =~= bytes);
}

/// Two instances with one encoding are the same, and so are their provers.
pub proof fn law_public_input_is_injective(
    a: ProtocolInstance,
    a_prover: Seq<u8>,
    b: ProtocolInstance,
    b_prover: Seq<u8>,
)
    requires
        a_prover.len() == 20,
        b_prover.len() == 20,
        public_input(a, a_prover, FIELD_NUM as nat) == public_input(b, b_prover, FIELD_NUM as nat),
    ensures
        a.meta_hash@ == b.meta_hash@,
        a.parent_hash@ == b.parent_hash@,
        a.block_hash@ == b.block_hash@,
        a.signal_root@ == b.signal_root@,
        a.graffiti@ == b.graffiti@,
        a_prover == b_prover,
{
    law_public_input_holds_the_instance(a, a_prover);
    law_public_input_holds_the_instance(b, b_prover);
    assert(a.meta_hash@ =~= b.meta_hash@);
    assert(a.parent_hash@ =~= b.parent_hash@);
    assert(a.block_hash@ =~= b.block_hash@);
    assert(a.signal_root@ =~= b.signal_root@);
    assert(a.graffiti@ =~= b.graffiti@);
    assert(a_prover =~= b_prover);
}

/// The value of bytes that follow each other.
pub proof fn lemma_value_of_two(a: Seq<u8>, b: Seq<u8>)
    ensures
        be_value(a + b) == be_value(a) * pow(256, b.len()) + be_value(b),
    decreases b.len(),
{
    reveal(pow);
    if b.len() == 0 {
        assert(a + b =~= a);
    } else {
        lemma_value_of_two(a, b.drop_last());
        assert((a + b).drop_last() =~= a + b.drop_last());
        let (x, p, q) = (be_value(a), pow(256, b.drop_last().len()), pow(256, b.len()));
        assert(q == 256 * p);
        assert((x * p) * 256 == x * q) by (nonlinear_arith)
            requires
                q == 256 * p,
        ;
    }
}

/// The two public numbers make up the digest: the first one counts 2^128 times as much.
pub proof fn law_halves_make_up_the_digest(digest: Seq<u8>, m: int)
    requires
        digest.len() == 32,
        m >= pow(256, 16),
    ensures
        halves(digest, m).0 * pow(256, 16) + halves(digest, m).1 == be_value(digest),
        0 <= halves(digest, m).0 < pow(256, 16),
        0 <= halves(digest, m).1 < pow(256, 16),
{
    let (a, b) = (digest.subrange(0, 16), digest.subrange(16, 32));
    assert(a + b =~= digest);
    lemma_value_of_two(a, b);
    lemma_number(a, m);
    lemma_number(b, m);
}

/// The cells for bytes hold `bytes`, one after the other.
pub open spec fn holds_bytes(e: Env<PiColumn>, bytes: Seq<u8>) -> bool {
    &&& bytes.len() == 224
    &&& forall|n: int|
        0 <= n < 224 ==> #[trigger] at(e, nth_cell(PiCellType::Byte, n)) == bytes[n]
}

/// What a gate asks in an enabled row.
proof fn lemma_enabled(e: Env<PiColumn>, a: int, b: int)
    requires
        e.modulus > 0,
        e.cur(PiColumn::QEnable) == 1,
        e.equal_if(e.cur(PiColumn::QEnable), a, b),
    ensures
        a % e.modulus == b % e.modulus,
{
    assert(1 * (a - b) == a - b);
    vstd::arithmetic::div_mod::lemma_mod_equivalence(a, b, e.modulus);
}

/// A cell that holds the combination of cells with bytes.
proof fn lemma_combined(
    e: Env<PiColumn>,
    cell: int,
    values: Seq<int>,
    bytes: Seq<u8>,
    r: int,
)
    requires
        e.modulus > 0,
        e.cur(PiColumn::QEnable) == 1,
        e.equal_if(e.cur(PiColumn::QEnable), cell, polynomial(values, r)),
        values.len() == bytes.len(),
        forall|i: int| 0 <= i < values.len() ==> #[trigger] values[i] == bytes[i],
    ensures
        cell % e.modulus == rlc_be(bytes, r, e.modulus),
{
    lemma_enabled(e, cell, polynomial(values, r));
    lemma_polynomial(values, bytes, r, e.modulus);
}

/// Whatever the cells hold, where those for bytes hold `bytes`: the cells for the combinations hold
/// those of the hash of the parent, of the hash of the block and of the whole public input, and the
/// two public cells hold the numbers that the halves of the digest make up.
pub proof fn law_constraints_commit_to_the_bytes(e: Env<PiColumn>, bytes: Seq<u8>)
    requires
        e.modulus > 0,
        e.cur(PiColumn::QEnable) == 1,
        pi_rule(e),
        holds_bytes(e, bytes),
    ensures
        ({
            let m = e.modulus;
            let (hash, digest) = (bytes.subrange(0, 192), bytes.subrange(192, 224));
            let (parent, block) = (bytes.subrange(32, 64), bytes.subrange(64, 96));
            &&& at(e, parent_rlc_cell()) % m == rlc_be(parent, word_challenge(e), m)
            &&& at(e, block_rlc_cell()) % m == rlc_be(block, word_challenge(e), m)
            &&& at(e, total_acc_cell()) % m == rlc_be(hash, keccak_challenge(e), m)
            &&& at(e, hi_cell()) % m == rlc_be(digest.subrange(0, 16), 256, m)
            &&& at(e, lo_cell()) % m == rlc_be(digest.subrange(16, 32), 256, m)
        }),
        word_challenge(e) == (e.challenge)(Challenge::EvmWord),
        keccak_challenge(e) == (e.challenge)(Challenge::KeccakInput),
{
    let digest = bytes.subrange(192, 224);
    let parent = cell_values(e, field_cells(PARENT_HASH as int));
    assert forall|i: int| 0 <= i < 32 implies #[trigger] parent[i] == bytes.subrange(32, 64)[i] by {
        assert(at(e, nth_cell(PiCellType::Byte, 32 + i)) == bytes[32 + i]);
    }
    lemma_combined(
        e,
        at(e, parent_rlc_cell()),
        parent,
        bytes.subrange(32, 64),
        word_challenge(e),
    );
    let block = cell_values(e, field_cells(BLOCK_HASH as int));
    assert forall|i: int| 0 <= i < 32 implies #[trigger] block[i] == bytes.subrange(64, 96)[i] by {
        assert(at(e, nth_cell(PiCellType::Byte, 64 + i)) == bytes[64 + i]);
    }
    lemma_combined(e, at(e, block_rlc_cell()), block, bytes.subrange(64, 96), word_challenge(e));
    let hash = bytes.subrange(0, 192);
    assert forall|k: int| 0 <= k < hash.len() implies #[trigger] at(
        e,
        nth_cell(PiCellType::Byte, k),
    ) == hash[k] by {}
    lemma_front_cells(e, hash, FIELD_NUM as nat);
    lemma_combined(
        e,
        at(e, total_acc_cell()),
        cell_values(e, cells_before(FIELD_NUM as nat)),
        hash,
        keccak_challenge(e),
    );
    let hi = cell_values(e, digest_cells().subrange(0, 16));
    assert forall|i: int| 0 <= i < 16 implies #[trigger] hi[i] == digest.subrange(0, 16)[i] by {
        assert(at(e, nth_cell(PiCellType::Byte, 192 + i)) == bytes[192 + i]);
    }
    lemma_combined(e, at(e, hi_cell()), hi, digest.subrange(0, 16), 256);
    let lo = cell_values(e, digest_cells().subrange(16, 32));
    assert forall|i: int| 0 <= i < 16 implies #[trigger] lo[i] == digest.subrange(16, 32)[i] by {
        assert(at(e, nth_cell(PiCellType::Byte, 208 + i)) == bytes[208 + i]);
    }
    lemma_combined(e, at(e, lo_cell()), lo, digest.subrange(16, 32), 256);
}

/// The values of a row that is looked up, as elements of the field.
pub open spec fn looks_up(inputs: Seq<int>, row: Seq<int>, m: int) -> bool {
    &&& inputs.len() == row.len()
    &&& forall|i: int| 0 <= i < row.len() ==> #[trigger] inputs[i] % m == row[i] % m
}

/// Whatever the cells hold, where those for bytes hold `bytes`: what is looked up for the parent
/// and for the block are the tag, their numbers and the combinations of their hashes, and what is
/// looked up as a digest are the combination of the public input, its length and that of the
/// digest.
pub proof fn law_lookups_are_about_the_bytes(e: Env<PiColumn>, bytes: Seq<u8>, tag: u64)
    requires
        e.modulus > 0,
        e.cur(PiColumn::QEnable) == 1,
        pi_rule(e),
        holds_bytes(e, bytes),
    ensures
        looks_up(
            block_inputs(e, tag, parent_number_cell(), parent_rlc_cell()),
            seq![
                tag as int,
                at(e, parent_number_cell()),
                rlc_be(bytes.subrange(32, 64), word_challenge(e), e.modulus),
            ],
            e.modulus,
        ),
        looks_up(
            block_inputs(e, tag, block_number_cell(), block_rlc_cell()),
            seq![
                tag as int,
                at(e, block_number_cell()),
                rlc_be(bytes.subrange(64, 96), word_challenge(e), e.modulus),
            ],
            e.modulus,
        ),
        looks_up(
            keccak_inputs(e),
            seq![
                1int,
                rlc_be(bytes.subrange(0, 192), keccak_challenge(e), e.modulus),
                192int,
                rlc_be(bytes.subrange(192, 224), word_challenge(e), e.modulus),
            ],
            e.modulus,
        ),
{
    let (m, w) = (e.modulus, word_challenge(e));
    law_constraints_commit_to_the_bytes(e, bytes);
    let (parent, block) = (bytes.subrange(32, 64), bytes.subrange(64, 96));
    let (hash, digest) = (bytes.subrange(0, 192), bytes.subrange(192, 224));
    lemma_rlc_be_range(parent, w, m);
    lemma_rlc_be_range(block, w, m);
    lemma_rlc_be_range(hash, keccak_challenge(e), m);
    lemma_rlc_be_range(digest, w, m);
    vstd::arithmetic::div_mod::lemma_small_mod(rlc_be(parent, w, m) as nat, m as nat);
    vstd::arithmetic::div_mod::lemma_small_mod(rlc_be(block, w, m) as nat, m as nat);
    vstd::arithmetic::div_mod::lemma_small_mod(
        rlc_be(hash, keccak_challenge(e), m) as nat,
        m as nat,
    );
    vstd::arithmetic::div_mod::lemma_small_mod(rlc_be(digest, w, m) as nat, m as nat);
    let values = cell_values(e, digest_cells());
    assert forall|i: int| 0 <= i < 32 implies #[trigger] values[i] == digest[i] by {
        assert(at(e, nth_cell(PiCellType::Byte, 192 + i)) == bytes[192 + i]);
    }
    lemma_polynomial(values, digest, w, m);
    let on = e.cur(PiColumn::QEnable);
    assert(forall|x: int| #[trigger] (on * x) == x) by {
        assert(forall|x: int| #[trigger] (1 * x) == x);
    }
    let p = polynomial(values, w);
    assert(on * p == p);
    assert(on * tag == tag);
    assert(on * 192 == 192 && on * 1 == 1);
    assert(on * at(e, parent_rlc_cell()) == at(e, parent_rlc_cell()));
    assert(on * at(e, block_rlc_cell()) == at(e, block_rlc_cell()));
    assert(on * at(e, total_acc_cell()) == at(e, total_acc_cell()));
    assert(on * at(e, parent_number_cell()) == at(e, parent_number_cell()));
    assert(on * at(e, block_number_cell()) == at(e, block_number_cell()));
}

/// Two assignments with the same bytes for the hash of the block look up the same hash for it, and
/// two with the same bytes for the hash of the parent look up the same hash for that.
pub proof fn law_same_hash_is_looked_up(
    e: Env<PiColumn>,
    bytes: Seq<u8>,
    other: Env<PiColumn>,
    other_bytes: Seq<u8>,
    tag: u64,
)
    requires
        e.modulus > 0,
        e.modulus == other.modulus,
        word_challenge(e) == word_challenge(other),
        e.cur(PiColumn::QEnable) == 1,
        other.cur(PiColumn::QEnable) == 1,
        pi_rule(e),
        pi_rule(other),
        holds_bytes(e, bytes),
        holds_bytes(other, other_bytes),
    ensures
        bytes.subrange(64, 96) == other_bytes.subrange(64, 96) ==> block_inputs(
            e,
            tag,
            block_number_cell(),
            block_rlc_cell(),
        )[2] % e.modulus == block_inputs(other, tag, block_number_cell(), block_rlc_cell())[2]
            % e.modulus,
        bytes.subrange(32, 64) == other_bytes.subrange(32, 64) ==> block_inputs(
            e,
            tag,
            parent_number_cell(),
            parent_rlc_cell(),
        )[2] % e.modulus == block_inputs(other, tag, parent_number_cell(), parent_rlc_cell())[2]
            % e.modulus,
{
    law_lookups_are_about_the_bytes(e, bytes, tag);
    law_lookups_are_about_the_bytes(other, other_bytes, tag);
}

/// The cells that are filled hold the public input and, behind it, its digest; the numbers of the
/// two blocks are those of the block and of the one before it.
pub proof fn law_filled_cells_hold_the_public_input(
    raw: Seq<u8>,
    digest: Seq<u8>,
    number: int,
    keccak_r: int,
    evm_word: int,
    m: int,
)
    requires
        raw.len() == 192,
        digest.len() == 32,
    ensures
        ({
            let e = pi_env(raw, digest, number, keccak_r, evm_word, m);
            &&& e.cur(PiColumn::QEnable) == 1
            &&& e.modulus == m
            &&& keccak_challenge(e) == keccak_r
            &&& word_challenge(e) == evm_word
            &&& holds_bytes(e, raw + digest)
            &&& at(e, block_number_cell()) == number
            &&& at(e, parent_number_cell()) == number - 1
        }),
{
    let e = pi_env(raw, digest, number, keccak_r, evm_word, m);
    lemma_byte_cells(raw, digest, number, keccak_r, evm_word, m);
    assert(PiCellType::StoragePhase1.columns() == 1);
    assert(parent_number_cell().rotation == 0 && parent_number_cell().column == 0);
    assert(block_number_cell().rotation == 1 && block_number_cell().column == 0);
}

/// No two things share a cell: the bytes fill one row of fifteen after the other, so that those at
/// different places lie in different cells, and so do the two numbers, the two halves and the three
/// combinations.
pub proof fn law_cells_are_distinct(i: int, j: int)
    requires
        0 <= i < j < 224,
    ensures
        nth_cell(PiCellType::Byte, i) != nth_cell(PiCellType::Byte, j),
        nth_cell(PiCellType::Byte, i).cell_type == PiCellType::Byte,
        nth_cell(PiCellType::Byte, i).column < 15,
        15 * nth_cell(PiCellType::Byte, i).rotation + nth_cell(PiCellType::Byte, i).column == i,
        nth_cell(PiCellType::Byte, j).column < 15,
        15 * nth_cell(PiCellType::Byte, j).rotation + nth_cell(PiCellType::Byte, j).column == j,
        parent_number_cell() != block_number_cell(),
        parent_number_cell() != hi_cell(),
        parent_number_cell() != lo_cell(),
        block_number_cell() != hi_cell(),
        block_number_cell() != lo_cell(),
        hi_cell() != lo_cell(),
        parent_rlc_cell() != block_rlc_cell(),
        parent_rlc_cell() != total_acc_cell(),
        block_rlc_cell() != total_acc_cell(),
        parent_number_cell().cell_type == PiCellType::StoragePhase1,
        block_number_cell().cell_type == PiCellType::StoragePhase1,
        hi_cell().cell_type == PiCellType::StoragePhase1,
        lo_cell().cell_type == PiCellType::StoragePhase1,
        parent_rlc_cell().cell_type == PiCellType::StoragePhase2,
        block_rlc_cell().cell_type == PiCellType::StoragePhase2,
        total_acc_cell().cell_type == PiCellType::StoragePhase2,
{
    let (a, b) = (nth_cell(PiCellType::Byte, i), nth_cell(PiCellType::Byte, j));
    assert(PiCellType::Byte.columns() == 15);
    assert(a.rotation == i / 15 && a.column == i % 15);
    assert(b.rotation == j / 15 && b.column == j % 15);
}

/// Every cell that the constraints read is filled: those of the bytes, of the two numbers, of the
/// two halves and of the three combinations, and the flag that enables the row.
pub proof fn law_every_cell_is_filled(n: int)
    requires
        0 <= n < 224,
    ensures
        pi_columns().contains(PiColumn::QEnable),
        pi_columns().contains(PiColumn::At(nth_cell(PiCellType::Byte, n))),
        pi_columns().contains(PiColumn::At(parent_number_cell())),
        pi_columns().contains(PiColumn::At(block_number_cell())),
        pi_columns().contains(PiColumn::At(parent_rlc_cell())),
        pi_columns().contains(PiColumn::At(block_rlc_cell())),
        pi_columns().contains(PiColumn::At(total_acc_cell())),
        pi_columns().contains(PiColumn::At(hi_cell())),
        pi_columns().contains(PiColumn::At(lo_cell())),
{
    let all = pi_columns();
    assert(all.len() == 5 + 224 + 3);
    assert(all[0] == PiColumn::QEnable);
    assert(all[1] == PiColumn::At(parent_number_cell()));
    assert(all[2] == PiColumn::At(parent_rlc_cell()));
    assert(all[3] == PiColumn::At(block_number_cell()));
    assert(all[4] == PiColumn::At(block_rlc_cell()));
    assert(all[5 + n] == PiColumn::At(nth_cell(PiCellType::Byte, n))) by {
        let (k, i) = (n / 32, n % 32);
        assert(n == k * 32 + i);
        assert(columns_for(field_cells(k))[i] == PiColumn::At(nth_cell(PiCellType::Byte, n)));
    }
    assert(all[229] == PiColumn::At(total_acc_cell()));
    assert(all[230] == PiColumn::At(hi_cell()));
    assert(all[231] == PiColumn::At(lo_cell()));
}

} // verus!
