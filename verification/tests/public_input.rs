use halo2curves::bn256::Fr as Scalar;
use rlp_circuits::expression::{Challenge, Expression};
use rlp_circuits::field::{Field, Fr};
use rlp_circuits::rlc;
use rlp_circuits::taiko_pi_circuit::{
    hi_low, Cell, FieldGadget, PiAssigned, PiCellManager, PiCellType, PiColumn, PublicData,
    Table, TaikoPiCircuit, TaikoPiCircuitConfig, TaikoPiCircuitConfigArgs, BLOCK_HASH, FIELD_NUM,
    GRAFFITI, META_DATA, PARENT_HASH, PROVER, SIGNAL_ROOT,
};
use rlp_circuits::transaction::Address;
use rlp_circuits::witness::{Block, BlockContext, ProtocolInstance};

const PROVER_ADDRESS: Address = [0x66; 20];

fn block() -> Block {
    Block {
        txs: vec![],
        transactions: vec![],
        context: BlockContext { number: 0x1234, history_hashes: vec![[8u8; 32], [9u8; 32]] },
        protocol_instance: Some(ProtocolInstance {
            meta_hash: [0x11; 32],
            parent_hash: [0x22; 32],
            block_hash: [0x33; 32],
            signal_root: [0x44; 32],
            graffiti: [0x55; 32],
        }),
    }
}

fn evidence() -> PublicData<Fr> {
    PublicData::new(&block(), Some(PROVER_ADDRESS))
}

fn raw() -> Vec<u8> {
    let mut raw = Vec::new();
    for b in [0x11u8, 0x22, 0x33, 0x44, 0x55] {
        raw.extend([b; 32]);
    }
    raw.extend([0u8; 12]);
    raw.extend(PROVER_ADDRESS);
    raw
}

fn config() -> TaikoPiCircuitConfig {
    TaikoPiCircuitConfig::new(&TaikoPiCircuitConfigArgs {
        evidence: evidence(),
        block_hash_tag: 9,
    })
}

fn scalar(value: &Fr) -> Scalar {
    Scalar::from_bytes(&value.to_bytes()).unwrap()
}

const KECCAK_R: u64 = 11;
const EVM_WORD: u64 = 13;

fn eval(expr: &Expression<PiColumn>, cells: &[PiAssigned<Fr>]) -> Scalar {
    match expr {
        Expression::Constant(v) => Scalar::from(*v),
        Expression::Challenge(Challenge::KeccakInput) => Scalar::from(KECCAK_R),
        Expression::Challenge(Challenge::EvmWord) => Scalar::from(EVM_WORD),
        Expression::Query(column, _) => {
            scalar(&cells.iter().find(|c| c.column == *column).unwrap().value)
        }
        Expression::Negated(a) => -eval(a, cells),
        Expression::Sum(a, b) => eval(a, cells) + eval(b, cells),
        Expression::Product(a, b) => eval(a, cells) * eval(b, cells),
    }
}

fn assigned(config: &TaikoPiCircuitConfig) -> Vec<PiAssigned<Fr>> {
    config.assign(&evidence(), Fr::from_u64(KECCAK_R), Fr::from_u64(EVM_WORD))
}

#[test]
fn fields_are_encoded() {
    let data = evidence();
    assert_eq!(data.encode_field(META_DATA), vec![0x11; 32]);
    assert_eq!(data.encode_field(PARENT_HASH), vec![0x22; 32]);
    assert_eq!(data.encode_field(BLOCK_HASH), vec![0x33; 32]);
    assert_eq!(data.encode_field(SIGNAL_ROOT), vec![0x44; 32]);
    assert_eq!(data.encode_field(GRAFFITI), vec![0x55; 32]);
    assert_eq!(data.encode_field(PROVER), [vec![0; 12], vec![0x66; 20]].concat());
    assert_eq!(data.encode_raw(), raw());
    assert_eq!(data.total_len(), 192);
    assert_eq!(data.field_len(PROVER), 32);
    let elements: Vec<Fr> = data.assignment(PROVER);
    assert_eq!((elements[11], elements[12]), (Fr::zero(), Fr::from_u64(0x66)));
}

#[test]
fn fields_are_combined() {
    let (data, r) = (evidence(), Fr::from_u64(7));
    assert_eq!(data.total_acc(r), rlc::combine(&raw(), r));
    assert_eq!(data.assignment_acc(BLOCK_HASH, r), rlc::combine(&vec![0x33; 32], r));
}

#[test]
fn digest_is_split() {
    let digest = ethers_core::utils::keccak256(raw()).to_vec();
    let data = evidence();
    assert_eq!(data.keccak(), digest);
    assert_eq!(data.keccak_assignment()[31], Fr::from_u64(digest[31] as u64));
    let [hi, lo] = data.keccak_hi_low();
    let mut number = |half: &[u8]| {
        let mut bytes = [0u8; 32];
        for (i, b) in half.iter().rev().enumerate() {
            bytes[i] = *b;
        }
        bytes
    };
    assert_eq!(hi.to_bytes(), number(&digest[..16]));
    assert_eq!(lo.to_bytes(), number(&digest[16..]));
    let circuit = TaikoPiCircuit::new(data);
    assert_eq!(circuit.instance(), vec![vec![hi, lo]]);
    let halves: [Fr; 2] = hi_low(&[vec![0; 15], vec![1], vec![0; 14], vec![2, 3]].concat());
    assert_eq!(halves, [Fr::one(), Fr::from_u64(0x0203)]);
}

#[test]
fn defaults() {
    let data: PublicData<Fr> = PublicData::default();
    assert_eq!(data.encode_raw(), vec![0; 192]);
    assert_eq!(data.block_context.history_hashes, vec![[0u8; 32]]);
    assert_eq!(data.block_context.number, 0);
    let evidence = TaikoPiCircuit::<Fr>::default().evidence;
    assert_eq!(evidence.encode_raw(), vec![0; 192]);
    assert_eq!(evidence.prover, [0u8; 20]);
    assert_eq!(evidence.block_context.number, 0);
    assert_eq!(evidence.block_context.history_hashes, vec![[0u8; 32]]);
    assert_eq!(PiCellType::default(), PiCellType::StoragePhase1);
    assert_eq!(FieldGadget::default().len, 0);
    assert_eq!(TaikoPiCircuit::<Fr>::unusable_rows(), 23);
    assert_eq!(TaikoPiCircuit::<Fr>::min_num_rows_block(&block()), (0, 192));
}

#[test]
fn circuit_of_a_block() {
    let circuit: TaikoPiCircuit<Fr> = TaikoPiCircuit::new_from_block(&block());
    assert_eq!(circuit.evidence.prover, [0u8; 20]);
    assert_eq!(circuit.evidence.block_context.number, 0x1234);
    assert_eq!(circuit.evidence.block_context.history_hashes, vec![[8u8; 32], [9u8; 32]]);
    assert_eq!(circuit.clone().evidence.encode_raw()[..160], raw()[..160]);
}

#[test]
fn cell_types() {
    assert_eq!(PiCellType::Byte.lookup_table_type(), Some(Table::Bytecode));
    assert_eq!(PiCellType::StoragePhase1.lookup_table_type(), None);
    assert_eq!(PiCellType::byte_type(), Some(PiCellType::Byte));
    assert_eq!(PiCellType::storage_for_phase(1), PiCellType::StoragePhase1);
    assert_eq!(PiCellType::storage_for_phase(2), PiCellType::StoragePhase2);
}

#[test]
fn cells_are_handed_out() {
    let mut cm = PiCellManager::new();
    let gadget = FieldGadget::config(&mut cm, 17);
    assert_eq!(gadget.len, 17);
    let cell = |column: usize, rotation: usize| Cell {
        cell_type: PiCellType::Byte,
        column,
        rotation,
    };
    assert_eq!(gadget.field[0], cell(0, 0));
    assert_eq!(gadget.field[14], cell(14, 0));
    assert_eq!(gadget.field[16], cell(1, 1));
    assert_eq!(cm.query_one(PiCellType::Byte), cell(2, 1));
    assert_eq!(cm.query_one(PiCellType::StoragePhase2).rotation, 0);
    assert_eq!(cm.query_one(PiCellType::StoragePhase2).rotation, 1);
}

#[test]
fn gadgets_combine_their_cells() {
    let mut cm = PiCellManager::new();
    let gadget = FieldGadget::config(&mut cm, 32);
    let bytes: Vec<Fr> = (0..32).map(|i| Fr::from_u64(i)).collect();
    let cells = gadget.assign(&bytes);
    let exprs = gadget.bytes_expr();
    assert_eq!(eval(&exprs[5], &cells), Scalar::from(5));
    let expected = (0..32u64).fold(Scalar::zero(), |acc, b| {
        acc * Scalar::from(KECCAK_R) + Scalar::from(b)
    });
    let combined = gadget.rlc_acc(Expression::challenge(Challenge::KeccakInput));
    assert_eq!(eval(&combined, &cells), expected);
    let (hi, lo) = gadget.hi_low_field();
    let halves: [Fr; 2] = hi_low(&(0..32).collect());
    assert_eq!(eval(&hi, &cells), scalar(&halves[0]));
    assert_eq!(eval(&lo, &cells), scalar(&halves[1]));
}

#[test]
fn assigned_cells_satisfy_the_constraints() {
    let config = config();
    let cells = assigned(&config);
    assert_eq!(config.gate.constraints.len(), 5);
    for c in config.gate.constraints.iter() {
        assert_eq!(eval(&c.expr, &cells), Scalar::zero(), "{}", c.name);
    }
    // a byte of the graffiti that is not the one that was combined
    let mut wrong = assigned(&config);
    let column = PiColumn::At(config.graffiti.field[3]);
    for cell in wrong.iter_mut() {
        if cell.column == column {
            cell.value = Fr::zero();
        }
    }
    let failed: Vec<&str> = config
        .gate
        .constraints
        .iter()
        .filter(|c| eval(&c.expr, &wrong) != Scalar::zero())
        .map(|c| c.name)
        .collect();
    assert_eq!(failed, ["total acc"]);
}

#[test]
fn public_input_is_looked_up() {
    let config = config();
    let cells = assigned(&config);
    let inputs = |i: usize| -> Vec<Scalar> {
        config.lookups[i].inputs.iter().map(|e| eval(e, &cells)).collect()
    };
    let word = Fr::from_u64(EVM_WORD);
    let hash = |b: u8| scalar(&rlc::combine(&vec![b; 32], word));
    assert_eq!(config.lookups.len(), 18);
    assert_eq!(config.lookups[0].table, Table::Block);
    assert_eq!(inputs(0), vec![Scalar::from(9), Scalar::from(0x1233), hash(0x22)]);
    assert_eq!(inputs(1), vec![Scalar::from(9), Scalar::from(0x1234), hash(0x33)]);
    assert_eq!(config.lookups[2].table, Table::Keccak);
    for column in 0..15 {
        assert_eq!(config.lookups[3 + column].table, Table::Bytecode);
        assert_eq!(inputs(3 + column), vec![Scalar::from(raw()[column] as u64)]);
    }
    let digest = ethers_core::utils::keccak256(raw()).to_vec();
    assert_eq!(
        inputs(2),
        vec![
            Scalar::one(),
            scalar(&rlc::combine(&raw(), Fr::from_u64(KECCAK_R))),
            Scalar::from(192),
            scalar(&rlc::combine(&digest, word)),
        ],
    );
}

#[test]
fn public_cells_hold_the_instance() {
    let config = config();
    let circuit = TaikoPiCircuit::new(evidence());
    let cells =
        circuit.synthesize_sub(&config, Fr::from_u64(KECCAK_R), Fr::from_u64(EVM_WORD));
    let n = cells.len();
    assert_eq!(n, 5 + 32 * (FIELD_NUM + 1) + 3);
    assert_eq!(cells[n - 2].column, PiColumn::At(config.keccak_hi_lo.0));
    assert_eq!(cells[n - 1].column, PiColumn::At(config.keccak_hi_lo.1));
    let public = config.public_cells();
    assert_eq!(public, vec![config.keccak_hi_lo.0, config.keccak_hi_lo.1]);
    for (row, cell) in public.iter().enumerate() {
        let tied = cells.iter().find(|c| c.column == PiColumn::At(*cell)).unwrap();
        assert_eq!(circuit.instance()[0][row], tied.value);
    }
    assert_eq!(circuit.instance(), vec![vec![cells[n - 2].value, cells[n - 1].value]]);
    // the digest is read back from the two public numbers
    let (hi, lo) = (cells[n - 2].value.to_bytes(), cells[n - 1].value.to_bytes());
    let digest: Vec<u8> = hi[..16].iter().rev().chain(lo[..16].iter().rev()).copied().collect();
    assert_eq!(digest, ethers_core::utils::keccak256(raw()).to_vec());
}

#[test]
fn given_digest_is_assigned() {
    let config = config();
    let digest: Vec<u8> = (0..32).collect();
    let (r, word) = (Fr::from_u64(KECCAK_R), Fr::from_u64(EVM_WORD));
    let cells = config.assign_with_digest(&evidence(), &digest, r, word);
    let at = |cell: Cell| cells.iter().find(|c| c.column == PiColumn::At(cell)).unwrap().value;
    assert_eq!(at(config.keccak_bytes.field[31]), Fr::from_u64(31));
    assert_eq!(at(config.parent_hash.0), Fr::from_u64(0x1233));
    assert_eq!(at(config.block_hash.0), Fr::from_u64(0x1234));
    assert_eq!(at(config.total_acc), rlc::combine(&raw(), r));
    for c in config.gate.constraints.iter() {
        assert_eq!(eval(&c.expr, &cells), Scalar::zero(), "{}", c.name);
    }
}
