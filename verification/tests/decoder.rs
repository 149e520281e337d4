use halo2curves::bn256::Fr as Scalar;
use rlp_circuits::assign::AssignedCell;
use rlp_circuits::circuit::{log2_ceil, RlpDecoderCircuit};
use rlp_circuits::config::{Column, Comparison, RlpDecoderCircuitConfig};
use rlp_circuits::expression::{Expression, Rotation};
use rlp_circuits::field::{Field, Fr};
use rlp_circuits::rlp_decoder_tables::RlpDecoderFixedTable6Columns;
use rlp_circuits::row::RlpDecoderCircuitConfigWitness;
use rlp_circuits::state::gen_rlp_decode_state_witness;
use rlp_circuits::tags::{RlpDecodeErrorType, RlpTxFieldTag};
use rlp_circuits::transaction::{
    encode_byte_strings, encode_tx_list, word_from_u64, MockTransaction,
    SignedDynamicFeeTransaction, SignedTransaction, Transaction, Word,
};
use std::collections::{HashMap, HashSet};

type Witness = Vec<RlpDecoderCircuitConfigWitness<Fr>>;

/// An expression over the positions of the columns in a row.
enum Compiled {
    Constant(Scalar),
    Cell(usize, Rotation),
    Negated(Box<Compiled>),
    Sum(Box<Compiled>, Box<Compiled>),
    Product(Box<Compiled>, Box<Compiled>),
}

fn compile(expr: &Expression<Column>, columns: &[Column], r: Scalar) -> Compiled {
    match expr {
        Expression::Constant(v) => Compiled::Constant(Scalar::from(*v)),
        Expression::Challenge(_) => Compiled::Constant(r),
        Expression::Query(column, rotation) => {
            Compiled::Cell(columns.iter().position(|c| c == column).unwrap(), *rotation)
        }
        Expression::Negated(a) => Compiled::Negated(Box::new(compile(a, columns, r))),
        Expression::Sum(a, b) => {
            Compiled::Sum(Box::new(compile(a, columns, r)), Box::new(compile(b, columns, r)))
        }
        Expression::Product(a, b) => {
            Compiled::Product(Box::new(compile(a, columns, r)), Box::new(compile(b, columns, r)))
        }
    }
}

/// The value of an expression in row `i`.
fn eval(expr: &Compiled, rows: &[Vec<Scalar>], i: usize) -> Scalar {
    match expr {
        Compiled::Constant(v) => *v,
        Compiled::Cell(column, Rotation::Prev) => rows[i - 1][*column],
        Compiled::Cell(column, Rotation::Cur) => rows[i][*column],
        Compiled::Cell(column, Rotation::Next) => rows[i + 1][*column],
        Compiled::Negated(a) => -eval(a, rows, i),
        Compiled::Sum(a, b) => eval(a, rows, i) + eval(b, rows, i),
        Compiled::Product(a, b) => {
            let x = eval(a, rows, i);
            if x == Scalar::zero() {
                x
            } else {
                x * eval(b, rows, i)
            }
        }
    }
}

fn scalar(value: &Fr) -> Scalar {
    Scalar::from_bytes(&value.to_bytes()).unwrap()
}

/// What does not hold in the rows from 1 up to `upto` of a witness.
fn failures(witness: &Witness, upto: usize, r: Fr) -> Vec<String> {
    let part: Witness = witness[..upto + 1].to_vec();
    failures_in(&RlpDecoderCircuitConfig::new().assign_rows(&part), r)
}

/// What does not hold in the rows between the first and the last one.
fn failures_in(cells: &[Vec<AssignedCell<Fr>>], r: Fr) -> Vec<String> {
    let config = RlpDecoderCircuitConfig::new();
    let upto = cells.len() - 1;
    let columns: Vec<Column> = cells[0].iter().map(|c| c.column).collect();
    let rows: Vec<Vec<Scalar>> =
        cells.iter().map(|row| row.iter().map(|c| scalar(&c.value)).collect()).collect();
    let mut fronts: HashMap<usize, HashSet<Vec<[u8; 32]>>> = HashMap::new();
    for k in 0..RlpDecoderFixedTable6Columns::table_size() {
        let row: Vec<[u8; 32]> =
            RlpDecoderFixedTable6Columns::row(k, r).iter().map(|c| c.to_bytes()).collect();
        for n in [2usize, 3, 5] {
            fronts.entry(n).or_default().insert(row[..n].to_vec());
        }
    }
    let lts = [
        &config.v_gt_55,
        &config.v_gt_0,
        &config.v_lt_128,
        &config.remain_length_gt_33,
        &config.remain_length_lt_33,
        &config.remain_length_ge_length,
    ];
    let mut failed = Vec::new();
    for gate in config.gates.iter().chain(lts.iter().map(|lt| &lt.gate)) {
        for c in gate.constraints.iter() {
            let expr = compile(&c.expr, &columns, scalar(&r));
            for i in 1..upto {
                if eval(&expr, &rows, i) != Scalar::zero() {
                    failed.push(format!("row {}: {}: {}", i, gate.name, c.name));
                }
            }
        }
    }
    for lookup in config.lookups.iter() {
        let inputs: Vec<Compiled> =
            lookup.inputs.iter().map(|e| compile(e, &columns, scalar(&r))).collect();
        for i in 1..upto {
            let values: Vec<[u8; 32]> =
                inputs.iter().map(|e| eval(e, &rows, i).to_bytes()).collect();
            if !fronts[&values.len()].contains(&values) {
                failed.push(format!("row {}: {}", i, lookup.name));
            }
        }
    }
    failed
}

/// How many rows of a witness come before the padding.
fn decoded_rows(witness: &Witness) -> usize {
    witness.iter().position(|w| w.tx_member == RlpTxFieldTag::Padding).unwrap()
}

/// What does not hold in the witness for `bytes` in a circuit of two to the `k` rows.
fn run_rlp_circuit(bytes: &[u8], k: usize, good: bool) -> Vec<String> {
    let r = Fr::from_u64(11);
    let witness = gen_rlp_decode_state_witness(bytes, r, 1 << k);
    assert_eq!(witness[witness.len() - 2].q_last, true);
    assert_eq!(witness[witness.len() - 2].valid, good);
    let n = decoded_rows(&witness);
    let mut failed = failures(&witness, n + 2, r);
    // the last rows of the padding
    let tail: Witness = witness[witness.len() - 4..].to_vec();
    failed.extend(failures(&tail, 3, r));
    failed
}

fn run_bad_rlp_circuit(bytes: &[u8], k: usize) -> Vec<String> {
    run_rlp_circuit(bytes, k, false)
}

fn run_good_rlp_circuit(bytes: &[u8], k: usize) -> Vec<String> {
    run_rlp_circuit(bytes, k, true)
}

fn ok() -> Vec<String> {
    Vec::new()
}

fn word(hex_digits: &str) -> Word {
    let bytes = hex::decode(hex_digits).unwrap();
    let mut word = [0u8; 32];
    word[32 - bytes.len()..].copy_from_slice(&bytes);
    word
}

/// A signed transaction that creates a contract.
fn mock_tx(input: Vec<u8>) -> MockTransaction {
    MockTransaction {
        hash: Some([0u8; 32]),
        nonce: 0,
        gas_price: word_from_u64(1),
        gas: word_from_u64(1_000_000),
        to: None,
        value: word_from_u64(0),
        input,
        v: Some(0x0a98),
        r: Some(word("b05805737618f6ac1ef211c02575f2fa82026fa1742caf192e2cffcd4161adca")),
        s: Some(word("53fbe3d9957dffafca84c419fdd1cead150834c5de9f3215c66327123c0a0541")),
        chain_id: word_from_u64(1338),
        max_fee_per_gas: word_from_u64(0),
        max_priority_fee_per_gas: word_from_u64(0),
    }
}

/// A signed transaction with a recipient and a value.
fn correct_mock_tx() -> MockTransaction {
    MockTransaction {
        nonce: 0x103,
        gas_price: word_from_u64(0x4d2),
        to: Some([0x5a; 20]),
        value: word_from_u64(0x3e8),
        ..mock_tx(b"hello".to_vec())
    }
}

fn prepare_legacy_txlist_rlp_bytes(txs_num: usize) -> Vec<u8> {
    let txs: Vec<SignedTransaction> =
        (0..txs_num).map(|_| SignedTransaction::from_mock(correct_mock_tx())).collect();
    encode_tx_list(&txs)
}

fn prepare_eip1559_txlist_rlp_bytes(txs_num: usize) -> Vec<u8> {
    // note: rlp(txs) = rlp([rlp(rlp(tx1) as bytes), rlp(rlp(tx2) as bytes)]
    let tx_byte_array: Vec<Vec<u8>> = (0..txs_num)
        .map(|_| SignedDynamicFeeTransaction::from_mock(correct_mock_tx()).encode())
        .collect();
    encode_byte_strings(&tx_byte_array)
}

fn const_1559_hex() -> String {
    String::from("f865")
        + "b863"
        + "02"
        + "f860"
        + "01"
        + "80"
        + "02"
        + "01"
        + "64"
        + "940000000000000000000000000000000000000000"
        + "64"
        + "80"
        + "c0"
        + "80"
        + "a01c758784e91d3e616d6d4b70a6dac27a00512a76c96dc258a9ad48cdada0267d"
        + "a01343bbb9dc377773f13519dbdb71051ee90d52080c2bc77f5f808118dff5341a"
}

#[test]
fn gen_1559_witness() {
    let rlp_bytes = hex::decode(const_1559_hex()).unwrap();

    let k = 12;
    let witness = gen_rlp_decode_state_witness(&rlp_bytes, Fr::one(), 1 << k);

    assert_eq!(witness[1].tx_member, RlpTxFieldTag::TxListRlpHeader);
    assert_eq!(witness[2].tx_member, RlpTxFieldTag::TypedTxHeader);
    assert_eq!(witness[3].tx_member, RlpTxFieldTag::TxType);
    assert_eq!(witness[4].tx_member, RlpTxFieldTag::TxRlpHeader);
    assert_eq!(witness[5].tx_member, RlpTxFieldTag::ChainID);
    assert_eq!(witness[6].tx_member, RlpTxFieldTag::Nonce);
    assert_eq!(witness[7].tx_member, RlpTxFieldTag::GasTipCap);
    assert_eq!(witness[8].tx_member, RlpTxFieldTag::GasFeeCap);
    assert_eq!(witness[9].tx_member, RlpTxFieldTag::Gas);
    assert_eq!(witness[10].tx_member, RlpTxFieldTag::To);
    assert_eq!(witness[11].tx_member, RlpTxFieldTag::Value);
    assert_eq!(witness[12].tx_member, RlpTxFieldTag::Data);
    assert_eq!(witness[13].tx_member, RlpTxFieldTag::AccessList);
    assert_eq!(witness[14].tx_member, RlpTxFieldTag::SignV);
    assert_eq!(witness[15].tx_member, RlpTxFieldTag::SignR);
    assert_eq!(witness[16].tx_member, RlpTxFieldTag::SignS);
}

#[test]
fn test_min_rows() {
    let rlp_bytes = hex::decode(const_1559_hex()).unwrap();
    let k = log2_ceil(RlpDecoderCircuit::<Fr, true>::min_num_rows_from_valid_bytes(&rlp_bytes).0);
    assert_eq!(k, 13);
}

#[test]
fn test_const_tx() {
    let rlp_bytes = hex::decode(const_1559_hex()).unwrap();

    let k = 13;
    assert_eq!(run_good_rlp_circuit(&rlp_bytes, k), ok());
}

#[test]
fn test_mock_txlist() {
    let rlp_bytes = prepare_eip1559_txlist_rlp_bytes(3);

    let k = 13;
    assert_eq!(run_good_rlp_circuit(&rlp_bytes, k), ok());
}

/// What does not hold in the circuit for dynamic fee transactions, of the fewest rows.
fn run_dynamic_fee_txs(txs: Vec<MockTransaction>) -> Vec<String> {
    let strings: Vec<Vec<u8>> = txs
        .into_iter()
        .map(|tx| MockTransaction { v: Some(1), ..tx })
        .map(|tx| SignedDynamicFeeTransaction::from_mock(tx).encode())
        .collect();
    let rlp_bytes = encode_byte_strings(&strings);
    let size = RlpDecoderCircuit::<Fr, true>::min_num_rows_from_valid_bytes(&rlp_bytes).0;
    run_good_rlp_circuit(&rlp_bytes, log2_ceil(size) as usize)
}

#[test]
fn dynamic_fee_circuit_1tx() {
    assert_eq!(run_dynamic_fee_txs(vec![correct_mock_tx()]), ok());
}

#[test]
fn dynamic_fee_circuit_2tx() {
    let other = MockTransaction { nonce: 0x104, ..correct_mock_tx() };
    assert_eq!(run_dynamic_fee_txs(vec![correct_mock_tx(), other]), ok());
}

#[test]
fn dynamic_fee_circuit_1tx_non_to() {
    assert_eq!(run_dynamic_fee_txs(vec![mock_tx(vec![])]), ok());
}

#[test]
fn dynamic_fee_circuit_with_various_input() {
    let inputs: [Vec<u8>; 4] = [
        b"0".to_vec(),
        b"1".to_vec(),
        (0..55).map(|v| v % 255).collect(),
        (0..65536).map(|v| v as u8).collect(),
    ];
    for input in inputs {
        assert_eq!(run_dynamic_fee_txs(vec![mock_tx(input)]), ok());
    }
}

#[test]
fn dynamic_fee_circuit_with_long_inputs() {
    let input: Vec<u8> = (0..65536 * 2).map(|v| v as u8).collect();
    assert_eq!(run_dynamic_fee_txs(vec![mock_tx(input.clone()), mock_tx(input)]), ok());
}

#[test]
fn test_decode() {
    let tx = SignedTransaction::from_mock(correct_mock_tx());
    let rlp_tx = tx.encode();
    println!("{:?}", hex::encode(&rlp_tx));

    let txs = vec![tx.clone(), SignedTransaction::from_mock(mock_tx(vec![]))];
    let rlp_txs = encode_tx_list(&txs);
    println!("{:?}", hex::encode(&rlp_txs));

    let dec_txs =
        rlp::Rlp::new(&rlp_txs).as_list::<ethers_core::types::Transaction>().unwrap();
    assert_eq!(dec_txs.len(), 2);
    assert_eq!(dec_txs[0].nonce.as_u64(), 0x103);
    assert_eq!(dec_txs[0].input.to_vec(), b"hello".to_vec());
    assert_eq!(dec_txs[0].v.as_u64(), 0x0a98);
    assert_eq!(dec_txs[0].to.unwrap().0, [0x5a; 20]);
    assert_eq!(dec_txs[1].gas.as_u64(), 1_000_000);
    assert!(dec_txs[1].to.is_none());
}

#[test]
fn test_encode() {
    let tx = SignedTransaction::from_mock(MockTransaction {
        to: Some([0x5a; 20]),
        nonce: 0x106,
        value: word_from_u64(0x3e8),
        gas_price: word_from_u64(0x4d2),
        ..mock_tx(b"hellohellohellohellohellohellohellohellohellohellohellohello".to_vec())
    });
    let rlp_tx = tx.encode();
    assert_eq!(
        hex::encode(&rlp_tx),
        String::from("f8a5")
            + "820106"
            + "8204d2"
            + "830f4240"
            + "945a5a5a5a5a5a5a5a5a5a5a5a5a5a5a5a5a5a5a5a"
            + "8203e8"
            + "b83c"
            + "68656c6c6f68656c6c6f68656c6c6f68656c6c6f68656c6c6f68656c6c6f"
            + "68656c6c6f68656c6c6f68656c6c6f68656c6c6f68656c6c6f68656c6c6f"
            + "820a98"
            + "a0b05805737618f6ac1ef211c02575f2fa82026fa1742caf192e2cffcd4161adca"
            + "a053fbe3d9957dffafca84c419fdd1cead150834c5de9f3215c66327123c0a0541"
    );
}

#[test]
fn test_correct_witness_generation_empty_list() {
    let rlp_bytes = prepare_legacy_txlist_rlp_bytes(0);
    let randomness = Fr::from_u64(100);
    let k = 128;

    let witness = gen_rlp_decode_state_witness::<Fr>(&rlp_bytes, randomness, k);
    assert_eq!(rlp_bytes, vec![0xc0]);
    assert_eq!(witness.len(), 64);
    assert_eq!(witness[1].valid, false);
}

#[test]
fn test_correct_witness_generation_1tx() {
    let rlp_bytes = prepare_legacy_txlist_rlp_bytes(1);
    let randomness = Fr::from_u64(100);
    let k = 128;

    let witness = gen_rlp_decode_state_witness::<Fr>(&rlp_bytes, randomness, k);
    assert_eq!(witness.len(), 64);
}

#[test]
fn test_correct_witness_generation_11tx() {
    let rlp_bytes = prepare_legacy_txlist_rlp_bytes(11);
    let randomness = Fr::from_u64(100);
    let k = 256;

    let witness = gen_rlp_decode_state_witness::<Fr>(&rlp_bytes, randomness, k as usize);
    assert_eq!(witness.len(), 192);
}

#[test]
fn test_correct_witness_generation_big_data() {
    let tx = SignedTransaction::from_mock(mock_tx((0..55).map(|v| v as u8).collect::<Vec<u8>>()));
    let rlp_bytes = encode_tx_list(&vec![tx]);
    let randomness = Fr::from_u64(100);
    let k = 256;

    let witness = gen_rlp_decode_state_witness::<Fr>(&rlp_bytes, randomness, k as usize);
    assert_eq!(witness.len(), 192);
}

#[test]
fn test_keccak() {
    let tx = SignedTransaction::from_mock(correct_mock_tx());
    let rlp_txs = encode_tx_list(&vec![tx]);
    let r = Fr::from_u64(11);
    // update the rlp bytes hash
    let hash = ethers_core::utils::keccak256(&rlp_txs);

    let rlc = hash
        .iter()
        .fold(Fr::zero(), |acc, b| acc.mul(&r).add(&Fr::from_u64(*b as u64)));
    let witness = gen_rlp_decode_state_witness::<Fr>(&rlp_txs, r, 128);
    assert_eq!(witness[0].value, rlc);
    assert_eq!(witness[0].rlp_remain_length, rlp_txs.len());
}

#[test]
fn test_wrong_witness_generation_eof_in_txlist_header() {
    let tx =
        SignedTransaction::from_mock(mock_tx((0..30000).map(|v| v as u8).collect::<Vec<u8>>()));
    let rlp_bytes = encode_tx_list(&vec![tx]);
    let randomness = Fr::from_u64(100);
    let k = 4096;

    let trimmed_bytes = &rlp_bytes[0..rlp_bytes.len() - 500];
    let witness = gen_rlp_decode_state_witness::<Fr>(trimmed_bytes, randomness, k as usize);
    assert_eq!(witness[1].valid, false);
}

#[test]
fn test_wrong_witness_generation_eof_in_tx_header() {
    let tx =
        SignedTransaction::from_mock(mock_tx((0..30000).map(|v| v as u8).collect::<Vec<u8>>()));
    let randomness = Fr::from_u64(100);
    let k = 4096;

    let mut rlp_bytes = encode_tx_list(&vec![tx]);
    rlp_bytes[3] = 0xFF;
    let witness = gen_rlp_decode_state_witness::<Fr>(&rlp_bytes, randomness, k as usize);
    assert_eq!(witness[2].valid, false);
}

#[test]
fn invalid_rlp_eof_in_data() {
    let signed =
        SignedTransaction::from_mock(mock_tx((0..65536).map(|v| v as u8).collect::<Vec<u8>>()));
    let txs: Vec<Transaction> = vec![signed.tx.clone()];
    let rlp_bytes = encode_tx_list(&vec![SignedTransaction::from(&txs[0])]);
    assert_eq!(rlp_bytes.len(), 16 + 4 + 65536 + 3 + 33 + 33);

    let trimmed_size = rlp_bytes.len() - 33 - 33 - 3 - 1500;
    let trimmed_rlp_bytes = &rlp_bytes[..trimmed_size];

    let size = RlpDecoderCircuit::<Fr, false>::min_num_rows_from_tx(&txs).0;
    let witness = gen_rlp_decode_state_witness(trimmed_rlp_bytes, Fr::one(), size);
    assert_eq!(witness[1].valid, false);

    let k = log2_ceil(size) as usize;
    assert_eq!(run_bad_rlp_circuit(trimmed_rlp_bytes, k), ok());
}

#[test]
fn fuzz_regression_1() {
    let rlp_bytes = vec![0xba];

    let k = 12;
    let witness = gen_rlp_decode_state_witness(&rlp_bytes, Fr::one(), 1 << k);
    assert_eq!(witness[1].valid, false);

    // what is refused is proved by the circuit for a bad witness
    assert_eq!(run_bad_rlp_circuit(&rlp_bytes, k), ok());
}

#[test]
fn fuzz_regression_2() {
    let rlp_bytes = vec![0, 178];
    let k = 12;
    let witness = gen_rlp_decode_state_witness(&rlp_bytes, Fr::one(), 1 << k);
    assert_eq!(witness[1].valid, false);

    // what is refused is proved by the circuit for a bad witness
    assert_eq!(run_bad_rlp_circuit(&rlp_bytes, k), ok());
}

fn const_tx_hex() -> String {
    String::from("f852")
        + "f850"
        + "80"
        + "01"
        + "830f4240"
        + "80"
        + "80"
        + "823031"
        + "820a98"
        + "a0b05805737618f6ac1ef211c02575f2fa82026fa1742caf192e2cffcd4161adca"
        + "a053fbe3d9957dffafca84c419fdd1cead150834c5de9f3215c66327123c0a0541"
}

/// A transaction without a type is refused at its first byte, whatever its fields hold.
#[test]
fn untyped_list_is_refused() {
    let k = 12;
    let changes: [&[(usize, u8)]; 5] =
        [&[], &[(4, 0x00)], &[(5, 0x00)], &[(10, 0x00)], &[(12, 0x81), (13, 0x02)]];
    for change in changes {
        let mut rlp_bytes = hex::decode(const_tx_hex()).unwrap();
        for (i, b) in change {
            rlp_bytes[*i] = *b;
        }
        let witness = gen_rlp_decode_state_witness(&rlp_bytes, Fr::one(), 1 << k);
        assert_eq!(witness[1].valid, true);
        assert_eq!(witness[2].tx_member, RlpTxFieldTag::TypedTxHeader);
        assert_eq!(witness[2].errors, [true, false, false, false]);
        assert_eq!(witness[3].valid, false);
        assert_eq!(witness[witness.len() - 2].valid, false);
        assert_eq!(run_bad_rlp_circuit(&rlp_bytes, k), ok());
    }
}

#[test]
fn invalid_rlp_wrong_list_header_header() {
    let mut rlp_bytes = hex::decode(const_tx_hex()).unwrap();
    rlp_bytes[0] = 0xc0;

    let k = 12;
    let witness = gen_rlp_decode_state_witness(&rlp_bytes, Fr::one(), 1 << k);
    assert_eq!(witness[1].valid, false);
    assert_eq!(witness[witness.len() - 2].valid, false);

    assert_eq!(run_bad_rlp_circuit(&rlp_bytes, k), ok());
}

#[test]
fn invalid_rlp_wrong_list_header_0_len() {
    let mut rlp_bytes = hex::decode(const_tx_hex()).unwrap();
    rlp_bytes[1] = 0x00;

    let k = 12;
    let witness = gen_rlp_decode_state_witness(&rlp_bytes, Fr::one(), 1 << k);
    assert_eq!(witness[1].valid, false);
    assert_eq!(witness[witness.len() - 2].valid, false);

    assert_eq!(run_bad_rlp_circuit(&rlp_bytes, k), ok());
}

// rlp.exceptions.DecodingError: RLP string ends with 1 superfluous bytes
#[test]
fn invalid_rlp_wrong_list_header_short_len() {
    let mut rlp_bytes = hex::decode(const_tx_hex()).unwrap();
    rlp_bytes[1] = 0x49;

    let k = 12;
    let witness = gen_rlp_decode_state_witness(&rlp_bytes, Fr::one(), 1 << k);
    assert_eq!(witness[1].valid, false);
    assert_eq!(witness[witness.len() - 2].valid, false);

    assert_eq!(run_bad_rlp_circuit(&rlp_bytes, k), ok());
}

#[test]
fn invalid_rlp_wrong_tx_header_header() {
    let mut rlp_bytes = hex::decode(&const_tx_hex()).unwrap();
    rlp_bytes[2] = 0xf5;

    let k = 12;
    let witness = gen_rlp_decode_state_witness(&rlp_bytes, Fr::one(), 1 << k);
    assert_eq!(witness[1].valid, true);
    assert_eq!(witness[2].valid, false);
    assert_eq!(witness[witness.len() - 2].valid, false);

    assert_eq!(run_bad_rlp_circuit(&rlp_bytes, k), ok());
}

#[test]
fn invalid_rlp_wrong_tx_header_0_len() {
    let mut rlp_bytes = hex::decode(&const_tx_hex()).unwrap();
    rlp_bytes[3] = 0x00;

    let k = 12;
    let witness = gen_rlp_decode_state_witness(&rlp_bytes, Fr::one(), 1 << k);
    assert_eq!(witness[witness.len() - 2].valid, false);

    assert_eq!(run_bad_rlp_circuit(&rlp_bytes, k), ok());
}

#[test]
fn invalid_rlp_wrong_tx_header_small_len() {
    let mut rlp_bytes = hex::decode(&const_tx_hex()).unwrap();
    rlp_bytes[3] = 0x3c;

    let k = 12;
    assert_eq!(run_bad_rlp_circuit(&rlp_bytes, k), ok());
}

#[test]
fn invalid_rlp_wrong_tx_header_big_len() {
    let mut rlp_bytes = hex::decode(&const_tx_hex()).unwrap();
    rlp_bytes[3] = 0xff;

    let k = 12;
    let witness = gen_rlp_decode_state_witness(&rlp_bytes, Fr::one(), 1 << k);
    assert_eq!(witness[witness.len() - 2].valid, false);

    assert_eq!(run_bad_rlp_circuit(&rlp_bytes, k), ok());
}

#[test]
fn dynamic_fee_tx_with_wrong_nonce() {
    let mut rlp_bytes = hex::decode(&const_1559_hex()).unwrap();
    rlp_bytes[8] = 0x00;

    let k = 12;
    let witness = gen_rlp_decode_state_witness(&rlp_bytes, Fr::one(), 1 << k);
    assert_eq!(witness[5].valid, true);
    assert_eq!(witness[6].valid, false);
    assert_eq!(witness[witness.len() - 2].valid, false);

    assert_eq!(run_bad_rlp_circuit(&rlp_bytes, k), ok());
}

#[test]
fn dynamic_fee_tx_with_wrong_gas() {
    let mut rlp_bytes = hex::decode(&const_1559_hex()).unwrap();
    rlp_bytes[11] = 0x00;

    let k = 12;
    let witness = gen_rlp_decode_state_witness(&rlp_bytes, Fr::one(), 1 << k);
    assert_eq!(witness[8].valid, true);
    assert_eq!(witness[9].valid, false);
    assert_eq!(witness[witness.len() - 2].valid, false);

    assert_eq!(run_bad_rlp_circuit(&rlp_bytes, k), ok());
}

#[test]
fn dynamic_fee_tx_with_wrong_to() {
    let mut rlp_bytes = hex::decode(&const_1559_hex()).unwrap();
    rlp_bytes[12] = 0x00;

    let k = 12;
    let witness = gen_rlp_decode_state_witness(&rlp_bytes, Fr::one(), 1 << k);
    assert_eq!(witness[9].valid, true);
    assert_eq!(witness[10].valid, false);
    assert_eq!(witness[witness.len() - 2].valid, false);

    assert_eq!(run_bad_rlp_circuit(&rlp_bytes, k), ok());
}

#[test]
fn dynamic_fee_tx_with_wrong_data() {
    let mut rlp_bytes = hex::decode(&const_1559_hex()).unwrap();
    rlp_bytes[34] = 0x81;
    rlp_bytes[35] = 0x02;

    let k = 12;
    let witness = gen_rlp_decode_state_witness(&rlp_bytes, Fr::one(), 1 << k);
    assert_eq!(witness[11].valid, true);
    assert_eq!(witness[12].valid, false);
    assert_eq!(witness[witness.len() - 2].valid, false);

    assert_eq!(run_bad_rlp_circuit(&rlp_bytes, k), ok());
}

/// The list of one transaction with the given nonce and the given last field.
fn const_1559_with(nonce: &[u8], sign_s: &[u8]) -> Vec<u8> {
    let bytes = hex::decode(const_1559_hex()).unwrap();
    let fields = [&bytes[7..8], nonce, &bytes[9..70], sign_s].concat();
    let tx = [[0x02, 0xf8, fields.len() as u8].as_slice(), &fields].concat();
    let list = [[0xb8, tx.len() as u8].as_slice(), &tx].concat();
    [[0xf8, list.len() as u8].as_slice(), &list].concat()
}

#[test]
fn one_byte_nonces_are_judged() {
    let sign_s = &hex::decode(const_1559_hex()).unwrap()[70..];
    assert_eq!(const_1559_with(&[0x80], sign_s), hex::decode(const_1559_hex()).unwrap());
    let k = 12;
    for nonce in [[0x81, 0x00], [0x81, 0x01], [0x81, 0x79], [0x81, 0x7f]] {
        let rlp_bytes = const_1559_with(&nonce, sign_s);
        let witness = gen_rlp_decode_state_witness(&rlp_bytes, Fr::one(), 1 << k);
        assert_eq!(witness[5].valid, true);
        assert_eq!(witness[6].valid, false);
        assert_eq!(witness[6].errors, [false, false, true, false]);
        assert_eq!(run_bad_rlp_circuit(&rlp_bytes, k), ok());
    }
    let nonces: [&[u8]; 4] = [&[0x01], &[0x7f], &[0x81, 0x80], &[0x81, 0xff]];
    for nonce in nonces {
        assert_eq!(run_good_rlp_circuit(&const_1559_with(nonce, sign_s), k), ok());
    }
}

#[test]
fn last_field_may_be_short() {
    let k = 12;
    let fields: [&[u8]; 4] = [&[0x80], &[0x05], &[0x81, 0x80], &[0x9f; 32]];
    for sign_s in fields {
        let rlp_bytes = const_1559_with(&[0x80], sign_s);
        let witness = gen_rlp_decode_state_witness(&rlp_bytes, Fr::one(), 1 << k);
        assert_eq!(witness[16].tx_member, RlpTxFieldTag::SignS);
        assert_eq!(witness[16].bytes, sign_s);
        assert_eq!(witness[16].rlp_remain_length, 0);
        assert_eq!(witness[17].tx_member, RlpTxFieldTag::Padding);
        assert_eq!(run_good_rlp_circuit(&rlp_bytes, k), ok());
    }
    // bytes behind the last field are not passed over
    let longer = [vec![0x01], vec![0x02; 32]].concat();
    let rlp_bytes = const_1559_with(&[0x80], &longer);
    let witness = gen_rlp_decode_state_witness(&rlp_bytes, Fr::one(), 1 << k);
    assert_eq!(witness[16].rlp_remain_length, 32);
    assert_eq!(witness[17].tx_member, RlpTxFieldTag::TypedTxHeader);
    assert_eq!(witness[17].valid, false);
    assert_eq!(run_bad_rlp_circuit(&rlp_bytes, k), ok());
}

#[test]
fn last_field_may_run_out() {
    let k = 12;
    let full = [vec![0xa0], vec![0x02; 31]].concat();
    let fields: [&[u8]; 3] = [&[0x81], &[0xa0, 0x01, 0x02], &full];
    for sign_s in fields {
        let rlp_bytes = const_1559_with(&[0x80], sign_s);
        let witness = gen_rlp_decode_state_witness(&rlp_bytes, Fr::one(), 1 << k);
        assert_eq!(witness[15].valid, true);
        assert_eq!(witness[16].tx_member, RlpTxFieldTag::SignS);
        assert_eq!(witness[16].errors, [false, false, false, true]);
        assert_eq!(run_bad_rlp_circuit(&rlp_bytes, k), ok());
    }
    // a field that is complete has not run out
    let sign_s = [vec![0xa0], vec![0x02; 32]].concat();
    let error = Column::Error(usize::from(RlpDecodeErrorType::RunOutOfDataError(0)));
    let failed = tampered(
        &const_1559_with(&[0x80], &sign_s),
        &[(16, Column::Valid, 0), (16, error, 1)],
    );
    let name = "row 16: eof decode error: remain < max_row_bytes in last field shows an eof error";
    assert!(fails(&failed, name));
}

#[test]
fn sound_integer_is_not_a_value_error() {
    let sign_s = &hex::decode(const_1559_hex()).unwrap()[70..];
    let flagged = |nonce: &[u8]| {
        let error = Column::Error(usize::from(RlpDecodeErrorType::ValueError));
        tampered(&const_1559_with(nonce, sign_s), &[(6, Column::Valid, 0), (6, error, 1)])
    };
    let gate = "row 6: val decode error: error if v == 0, or if";
    assert!(fails(&flagged(&[0x81, 0x80]), &format!("{} v < 128", gate)));
    assert!(fails(&flagged(&[0x82, 0x01, 0x02]), &format!("{} the length is 1", gate)));
}

#[test]
fn invalid_rlp_not_enough_length() {
    let rlp_bytes = hex::decode(&const_tx_hex()).unwrap();
    let trimmed_rlp_bytes = &rlp_bytes[..1];

    let k = 12;
    assert_eq!(run_bad_rlp_circuit(trimmed_rlp_bytes, k), ok());
}

/// What does not hold in the rows of `bytes` when cells hold other values.
fn tampered(bytes: &[u8], changes: &[(usize, Column, u64)]) -> Vec<String> {
    let r = Fr::from_u64(11);
    let witness = gen_rlp_decode_state_witness(bytes, r, 128);
    let mut cells = RlpDecoderCircuitConfig::new().assign_rows(&witness);
    for (i, column, value) in changes {
        for cell in cells[*i].iter_mut() {
            if cell.column == *column {
                cell.value = Fr::from_u64(*value);
            }
        }
    }
    failures_in(&cells, r)
}

fn fails(failed: &[String], name: &str) -> bool {
    failed.iter().any(|f| f == name)
}

#[test]
fn rows_stay_invalid() {
    let failed = tampered(&[0, 178], &[(2, Column::Valid, 1)]);
    let rule = "row 1: common constraints for all rows: valid should be consistent after invalid";
    assert!(fails(&failed, rule));
    assert_eq!(tampered(&[0, 178], &[]), ok());
}

#[test]
fn errors_go_with_validity() {
    let rlp_bytes = hex::decode(const_1559_hex()).unwrap();
    let rule = "row 6: common constraints for all rows: if any(errors) then valid must false";
    assert!(fails(&tampered(&rlp_bytes, &[(6, Column::Error(1), 1)]), rule));
    assert!(fails(&tampered(&rlp_bytes, &[(6, Column::Valid, 0)]), rule));
}

#[test]
fn combinations_are_checked() {
    let rlp_bytes = hex::decode(const_1559_hex()).unwrap();
    let failed = tampered(&rlp_bytes, &[(6, Column::AccRlcValue, 7)]);
    let rule = "rlc = prev_rlc * r_mult + rlc[0..32]/r_mult_comp";
    assert!(fails(&failed, &format!("row 6: common constraints for all rows: {}", rule)));
    assert!(fails(&failed, &format!("row 7: common constraints for all rows: {}", rule)));
    let failed = tampered(&rlp_bytes, &[(6, Column::RMult, 5), (6, Column::RMultComp, 5)]);
    assert!(fails(&failed, "row 6: rlp r_mult check"));
    assert!(fails(&failed, "row 6: rlp r_mult_comp check"));
}

#[test]
fn one_field_and_one_type_are_named() {
    let rlp_bytes = hex::decode(const_1559_hex()).unwrap();
    let failed = tampered(&rlp_bytes, &[(6, Column::QTxMember(5), 1)]);
    assert!(fails(&failed, "row 6: common constraints for all rows: 1 tx field only"));
    assert!(fails(&failed, "row 6: common constraints for all rows: tag check"));
    let failed = tampered(&rlp_bytes, &[(6, Column::QRlpType(3), 1)]);
    assert!(fails(&failed, "row 6: common constraints for all rows: 1 rlp type only"));
    assert!(fails(&failed, "row 6: common constraints for all rows: rlp type check"));
    let failed = tampered(&rlp_bytes, &[(6, Column::QTxMember(2), 2)]);
    assert!(fails(&failed, "row 6: common constraints for all rows: q_member are bool"));
}

#[test]
fn padding_comes_last() {
    let rlp_bytes = hex::decode(const_1559_hex()).unwrap();
    let failed = tampered(&rlp_bytes, &[(62, Column::QTxMember(12), 0)]);
    assert!(fails(&failed, "row 62: end with padding: padding at last"));
    let failed = tampered(&rlp_bytes, &[(62, Column::RemainLength, 1)]);
    assert!(fails(&failed, "row 62: Padding: padding has no remain length"));
}

#[test]
fn bytes_and_headers_are_looked_up() {
    let rlp_bytes = hex::decode(const_1559_hex()).unwrap();
    let failed = tampered(&rlp_bytes, &[(6, Column::Byte(7), 300)]);
    assert!(fails(&failed, "row 6: rlp byte range check"));
    let failed = tampered(&rlp_bytes, &[(6, Column::Byte(0), 0xc0)]);
    assert!(fails(&failed, "row 6: rlp decodable check"));
    assert!(!fails(&failed, "row 6: rlp byte range check"));
    let failed = tampered(&rlp_bytes, &[(6, Column::Error(0), 1)]);
    assert!(fails(&failed, "row 6: rlp decodable check"));
}

#[test]
fn fields_are_in_order() {
    let rlp_bytes = hex::decode(const_1559_hex()).unwrap();
    let failed = tampered(&rlp_bytes, &[(7, Column::TxMember, 9)]);
    assert!(fails(&failed, "row 6: rlp tx field transition"));
    assert!(fails(&failed, "row 7: rlp tx field transition"));
    assert!(!fails(&failed, "row 5: rlp tx field transition"));
}

#[test]
fn comparisons_are_checked() {
    let config = RlpDecoderCircuitConfig::new();
    assert_eq!(config.v_gt_55.comparison, Comparison::VGt55);
    assert_eq!(config.v_gt_0.comparison, Comparison::VGt0);
    assert_eq!(config.v_lt_128.comparison, Comparison::VLt128);
    assert_eq!(config.remain_length_gt_33.comparison, Comparison::RemainLengthGt33);
    assert_eq!(config.remain_length_lt_33.comparison, Comparison::RemainLengthLt33);
    assert_eq!(config.remain_length_ge_length.comparison, Comparison::RemainLengthGeLength);
    let rlp_bytes = hex::decode(const_1559_hex()).unwrap();
    let column = Column::IsLt(Comparison::RemainLengthGeLength);
    let failed = tampered(&rlp_bytes, &[(6, column, 0)]);
    assert!(fails(&failed, "row 6: lt gate: lhs - rhs = diff - lt * range"));
    let column = Column::Diff(Comparison::RemainLengthGeLength, 3);
    let failed = tampered(&rlp_bytes, &[(6, column, 256)]);
    assert!(failed.iter().any(|f| f.starts_with("row 6: ") && f.contains("range")));
}

#[test]
fn test_devnet_txlist() {
    let rlp_bytes = hex::decode("f925feb9037802f9037483028c5d0f84b2d05e0084b2d05e00830a8be494cda789373261b53558e4369a8bd949e7b9da\
699880b9030411b804ab00000000000000000000000052b9f47c7668fbea2231c7ebdd44bda9bd4aee18000000000000\
000000000000000000000000000000000000000000000000006038363531343900000000000000000000000000000000\
000000000000000000000000000000000000000000000000000000000000000000000000000000000264e15916340000\
0000000000000000000018e34fc44a321180e55766b0234897ed3c573e34000000000000000000000000000000000000\
000000000000000000000000014000000000000000000000000000000000000000000000000000000000000001800000\
0000000000000000000000000000000000000000000000000000000001c0000000000000000000000000000000000000\
000000000000000000000000022000000000000000000000000018e34fc44a321180e55766b0234897ed3c573e340000\
0000000000000000000018e34fc44a321180e55766b0234897ed3c573e34000000000000000000000000000000000000\
000000000000000000000000000000000000000000000000000000000000000000000000000000000000000000000000\
0000000000000000000018e34fc44a321180e55766b0234897ed3c573e34000000000000000000000000000000000000\
000000000000000000000000000a416c696461647579656e000000000000000000000000000000000000000000000000\
000000000000000000000000000000000000000000000000000000000003484247000000000000000000000000000000\
000000000000000000000000000000000000000000000000000000000000000000000000000000000000000000376970\
66733a2f2f516d51506f48515847625875743546576261427464534a724a4c3933626b76424d516f584e7274706e734b\
34614d2f3000000000000000000000000000000000000000000000000000000000000000000000000000000000010000\
000000000000000000007f24eb18ca58a3d487707bf246ce41035d3a818f000000000000000000000000000000000000\
00000000000000000000c080a0a92d0bd3494d562a6a11d63b1f30ce9412b2755ceb50871fad68cdca90cfd377a01a02\
41caecf973355f4cc706fbdcdf1aabcc98b6d41ff5b75e0ac40690a62402b9017802f9017483028c5d0c847735940084\
773594018301be9a94501f63210ae6d7eeb50dae74da5ae407515ee24680b9010438ed17390000000000000000000000\
000000000000000000000000000de0b6b3a764000000000000000000000000000000000000000000000000000011bada\
f4b4c3c0f500000000000000000000000000000000000000000000000000000000000000a00000000000000000000000\
00bbed33164d8eabb0a7705857b22b41034026c36b000000000000000000000000000000000000000000000000000000\
0064c39c4b00000000000000000000000000000000000000000000000000000000000000020000000000000000000000\
006302744962a0578e814c675b40909e64d9966b0d000000000000000000000000a4505bb7aa37c2b68cfbc92105d101\
00220748ebc080a02889dd398be9d49a859965bee70415fc144c9325add55201f4dde2b001327844a07dbfddcc936c42\
e51153654dccad0c050c70201d0746b16873f0a9d6f4651c50b8b502f8b283028c5d018459682f008459682f0182b4e8\
94a4505bb7aa37c2b68cfbc92105d10100220748eb80b844095ea7b3000000000000000000000000501f63210ae6d7ee\
b50dae74da5ae407515ee2460000000000000000000000000000000000000000000000022b1c8c1227a00000c080a037\
6aec53b6adee9adff0eb309391edb0448af6d921869c9eb9970a9ca8342616a04bd75c0703ce2dde341262ba837a7e7e\
887cebd03d4db73082748a4e66556fc6b9015e02f9015a83028c5d3f8459682f008459682f0183021eec94501f63210a\
e6d7eeb50dae74da5ae407515ee246872386f26fc10000b8e47ff36ab500000000000000000000000000000000000000\
0000000002aa5e163518112ee70000000000000000000000000000000000000000000000000000000000000080000000\
000000000000000000902e7256a6121b3b4b7c5affee93672e0a726cff00000000000000000000000000000000000000\
00000000000000000064c39c3d0000000000000000000000000000000000000000000000000000000000000002000000\
0000000000000000001017f42d1d3e7d490ea3cc4c95591c339ba71ac50000000000000000000000006302744962a057\
8e814c675b40909e64d9966b0dc080a0c0d2ac6a6080e4078d751b975e8977caac275fa0e8d4c691058c8e53a2f91f94\
a06773542748da53097dc0297e05ad98109daa04943b081ed477ca76c14b281faeb8b502f8b283028c5d1b8459682f00\
8459682f01827ecf947b1a3117b2b9be3a3c31e5a097c7f890199666ac80b844095ea7b3000000000000000000000000\
501f63210ae6d7eeb50dae74da5ae407515ee24600000000000000000000000000000000000000000000000000000000\
00155cc0c080a0d75df8b2cd2054fcc38459373928e189f9588466f531d360a27d275e3a55f18da060e4d1b185c7a854\
cb54e1794b7234048cf84ec99e29a1a6b4a4db951da2e177b8b502f8b283028c5d808459682f008459682f0182b41c94\
6302744962a0578e814c675b40909e64d9966b0d80b844095ea7b3000000000000000000000000100077770000000000\
0000000000000000000002000000000000000000000000000000000000000000000000d02ab486cedc0000c001a02beb\
a5f757c6e02469400b62051ff4aec4db6684889107d2cb085b8e2015280ea020e7503629c2ef65a030a262b0dc3e0a2f\
b9ebeb22a045800d0cf6c497e832aeb9019f02f9019b83028c5d078459682f008459682f0183040ab794100077770000\
00000000000000000000000000028703e8715ad6b160b90124ee1490b200000000000000000000000000000000000000\
00000000000000000000aa36a7000000000000000000000000a593b6f881ad3d366db4dbfeccafd97b8d0db841000000\
000000000000000000a4505bb7aa37c2b68cfbc92105d10100220748eb00000000000000000000000000000000000000\
00000000008ac7230489e8000000000000000000000000000000000000000000000000000000000000002fe9a0000000\
0000000000000000000000000000000000000000000003e8715ad6b160000000000000000000000000a593b6f881ad3d\
366db4dbfeccafd97b8d0db8410000000000000000000000000000000000000000000000000000000000000100000000\
0000000000000000000000000000000000000000000000000000000000c001a03192f2691ea58e0fc7956ff04153a7f4\
158c344862735002df221cd0594ad52da01c258f81b52448d3158621a694f0db55d22b5409438b9e5fc2ea4ff39e1713\
87b9019f02f9019b83028c5d038459682f008459682f0183040ac3941000777700000000000000000000000000000002\
8703e8715a938de0b90124ee1490b20000000000000000000000000000000000000000000000000000000000aa36a700\
0000000000000000000000235e1ecaf69428a0d721e88a287a97a4f2033c2e000000000000000000000000a4505bb7aa\
37c2b68cfbc92105d10100220748eb000000000000000000000000000000000000000000000001a055690d9db8000000\
000000000000000000000000000000000000000000000000000000002fe9a00000000000000000000000000000000000\
000000000000000003e8715a938de0000000000000000000000000235e1ecaf69428a0d721e88a287a97a4f2033c2e00\
000000000000000000000000000000000000000000000000000000000001000000000000000000000000000000000000\
000000000000000000000000000000c080a012a00d2f9e5cd827949d007e606761a4a10892a227ff82f4835a41625554\
4155a0167c886f230ddfc3fc52fec1d0e481ee67966bf4a405091364f55a524e1a2382b9015f02f9015b83028c5d1384\
59682f008459682f018301f15a94501f63210ae6d7eeb50dae74da5ae407515ee2468801bfed178d480000b8e47ff36a\
b500000000000000000000000000000000000000000000001a577b4ae1ecf8f400000000000000000000000000000000\
00000000000000000000000000000000800000000000000000000000002441e072fb1b0b32b18713ed7f3513ac0cbc5b\
7d0000000000000000000000000000000000000000000000000000000064c39c4e000000000000000000000000000000\
00000000000000000000000000000000020000000000000000000000001017f42d1d3e7d490ea3cc4c95591c339ba71a\
c5000000000000000000000000a4505bb7aa37c2b68cfbc92105d10100220748ebc001a0504977ec6af4e0a1299b7df2\
84c4aa13bd3d9c454ed1321ca7ebd1c8a0fe3a8aa03bb7d41093d07a6a04a161f3f7a755e330ac96bec5f9d17a4ba538\
808d69d20cb9029a02f9029683028c5d82f23f8459682f008459682f028302ecc2944e7c942d51d977459108ba497fdc\
71ae0fc54a0080b90224f3840f600000000000000000000000000000000000000000000000000000000000012a990000\
000000000000000000000000000000000000000000000000000000000040000000000000000000000000000000000000\
00000000000000000000000001c00000000000000000000000000000000000000000000000000000000000000020df8f\
2b88820c2757e8b715fa4877cde03c92d03895ea2f339886e3ebcd30a5320e2977b23de014afa3175d5c25604ce9e3bf\
9ed113531dbc98e3c79c10514dc39ae62eb4857aa775fac01a973012bf0a85b1bf05117878076f06e081bfa6549880b9\
fc56d8c89c6a173310c01f25dd9548fb3a1a4633bca566073b642a6831d0000000000000000000000000000000000000\
000000000000000000000000000000000000000000000000000000000000000000000000000000000000000000010000\
00000000000000000000000000000000000000000000000000000003f722000000000000000000000000000000000000\
00000000000000000000001e5e7b000000000000000000000000000000000000000000000000000000000000001c0000\
000000000000000000000000000000000000000000000000000000000140000000000000000000000000000000000000\
0000000000000000000000000040c6ada7907c6c0ce4c3e15d85a42f9549432cefb7021ea39db09d4e3595c5d8282980\
bfeb6d6e5bf9a4f821aa62771809fe0f269ca0489bade86fa8b853dd675ac080a05679384a6c8de7837d73394872c470\
1b5feb2decc508dd1ddede51aee151f79da050b81eb0b6bb489eb7a9290df0d9e3b17bf759f86b89f461539946885277\
f135b9027f02f9027b83028c5d808459682f008459682f01830214e29410007777000000000000000000000000000000\
0487b4d54778b76fc0b9020496e178520000000000000000000000000000000000000000000000000000000000000020\
00000000000000000000000000000000000000000000000000000000000000010000000000000000000000005bc9ad36\
deccbd0f079375d998227f95a8086bbd0000000000000000000000000000000000000000000000000000000000028c5d\
0000000000000000000000000000000000000000000000000000000000aa36a70000000000000000000000005bc9ad36\
deccbd0f079375d998227f95a8086bbd0000000000000000000000005bc9ad36deccbd0f079375d998227f95a8086bbd\
0000000000000000000000005bc9ad36deccbd0f079375d998227f95a8086bbd00000000000000000000000000000000\
000000000000000000b1a2bc2ec500000000000000000000000000000000000000000000000000000000000000000000\
0000000000000000000000000000000000000000000000000003328b49f26fc000000000000000000000000000000000\
000000000000000000000000000222e000000000000000000000000000000000000000000000000000000000000001a0\
00000000000000000000000000000000000000000000000000000000000001c000000000000000000000000000000000\
000000000000000000000000000000000000000000000000000000000000000000000000000000000000000000000000\
c001a01ca5999c62ad9922ed976c76daec95158b69a2fdc288f91e8375bf0be2d5d234a03487748ab3d94428c1b52711\
c2aecc0d71311319a3564bffdb54e17430b45098b901b802f901b483028c5d0a8459682f008459682f0183040d5e9450\
1f63210ae6d7eeb50dae74da5ae407515ee24680b90144ded9382a000000000000000000000000a4505bb7aa37c2b68c\
fbc92105d10100220748eb000000000000000000000000000000000000000000000000007a091b538174520000000000\
000000000000000000000000000000000000002277cd5834d2d3ba000000000000000000000000000000000000000000\
000000000245585fdf8eb3000000000000000000000000b640437d5d94f97a373e065289170f092c098a130000000000\
000000000000000000000000000000000000000000000064c39c3f000000000000000000000000000000000000000000\
0000000000000000000000000000000000000000000000000000000000000000000000000000000000001b7f539499be\
2202ae10161e74780dc5deab62216fe3355fe4cd27c46f4b8839e618aae0b5cfe7dac2c8886d55f3cddfb44eb282061e\
256ad61e804d83a4067876c080a0ae4e04512f1f840d323f5ce8f749762e81e388e9b85747ba97387b0d27c4320da070\
4f7556b815dd42c0cd646ca234a5cb5d00d48d6ddcc5810f04864c4ffea541b90f7b02f90f7783028c5d830120f58459\
682f008459682f028310c8e0944e7c942d51d977459108ba497fdc71ae0fc54a0080b90f04ef16e84500000000000000\
000000000000000000000000000000000000000000000000400000000000000000000000000000000000000000000000\
00000000000000012000000000000000000000000000000000000000000000000000000000000000c04e801c6b70ea36\
389de5fc9a74db2324a391a2be55c33e413edcd8753f767d760000000000000000000000001000777700000000000000\
00000000000000000100000000000000000000000000000000000000000000000000000000004c4b4000000000000000\
000000000000000000000000000000000000000000000000000000000000000000000000000000000000000000000000\
000000000000000da1000000000000000000000000000000000000000000000000000000000000000000000000000000\
00000000000000000000000000000000000000000000000da1f90d9eb90d9b02f90d9783028c5e830187828459682f00\
8459682f02830868cc94100077770000000000000000000000000000000480b90d24fee99b2200000000000000000000\
000000000000000000000000000000000000000000400000000000000000000000000000000000000000000000000000\
0000000003e0000000000000000000000000000000000000000000000000000000000002112900000000000000000000\
0000d90d8e85d0472ebc61267ecbba544252b71974520000000000000000000000000000000000000000000000000000\
000000028c5d0000000000000000000000000000000000000000000000000000000000028c5e00000000000000000000\
0000655324aede1cab4c65d2240e9d5302847262f0e00000000000000000000000001000777700000000000000000000\
000000000002000000000000000000000000655324aede1cab4c65d2240e9d5302847262f0e000000000000000000000\
000000000000000000000000000000000000000000000000000000000000000000000000000000000000000000000000\
000000000000000000000000000000000000000000000000000000000000001085267e63ed6000000000000000000000\
000000000000000000000000000000000000000222e00000000000000000000000000000000000000000000000000000\
0000000001a0000000000000000000000000000000000000000000000000000000000000038000000000000000000000\
000000000000000000000000000000000000000001a40c6fab8200000000000000000000000000000000000000000000\
00000000000000000080000000000000000000000000655324aede1cab4c65d2240e9d5302847262f0e0000000000000\
000000000000655324aede1cab4c65d2240e9d5302847262f0e000000000000000000000000000000000000000000000\
0000a688906bd8b000000000000000000000000000000000000000000000000000000000000000028c5d000000000000\
000000000000a4505bb7aa37c2b68cfbc92105d10100220748eb00000000000000000000000000000000000000000000\
0000000000000000001200000000000000000000000000000000000000000000000000000000000000a0000000000000\
00000000000000000000000000000000000000000000000000e000000000000000000000000000000000000000000000\
00000000000000000005484f525345000000000000000000000000000000000000000000000000000000000000000000\
0000000000000000000000000000000000000000000000000020486f72736520546f6b656e2862726964676564f09f8c\
883131313535313131290000000000000000000000000000000000000000000000000000000000000000000000000000\
000000000000000000000000000000000000000000000000000000000000000000000000000000000000000000000000\
000000000920000000000000000000000000000000000000000000000000000000000000002000000000000000000000\
000000000000000000000000000000000000000d33980000000000000000000000000000000000000000000000000000\
0000000000400000000000000000000000000000000000000000000000000000000000000896f90893b90214f90211a0\
fe2ddfdbb89768dc65a17beca4a8bf243616465d4cedacf17dbf494f2f8b1795a0f341b4bc87ad6e515c6cdaf581941a\
6b2987ca9f2b1784e65362c28744549187a0ca9131bcc32f56c6f566a90153b98d093e390f51cd403a6729097d604ca7\
6169a02521ce439c1075fcadeb96e3289fd8d91dfdba4523f4c5638d1472438ec1ff65a0116ecc0ff7e51bbe5116bf33\
f825f1594ece44a4c17fcf41165fc6f7fb24e75ca0e2b638fc10d4127d38e95ea0adec66f4e0db8cbe47879cf6410eaa\
e5e5176fb2a07e749de6a6a9ac00c9a0142315a2950d673baacedcee58abd02058969923aaaba0687b834ea8cd110c8c\
c1aa425eeb6a1840781f8cd21824ad5592fca3e310fcefa0a26d7b944a851b3f0649b3276dfd32ad5f13f6d8424fde10\
4accc6e98e092427a0230ceb2a903223aa20ec7aa1574b7c82100cbc8d5473be08c7298b0a437d8663a0d8ea8e278846\
3e76e937d5c28a88d223653525d082fa30a4c3613fc441b9ddeca0ef15ce91449669256f66aba758a5705653c1530b70\
1e65b6b4c2682f0d917736a0d684ab94e6396e83919cc0740a1fce74f87b76c6ced6a601300123cb746f566aa04717d3\
30b2761d964ab812e4be3c9662fbef3829e01af802e50f59272aadb016a0cd2b5af93b1da28fab2221bf14cef160b68c\
729dacb73c96a6fae09942880c9ca0b1bf8212ec0073ee68973ea9a3a2ef8292635dd185bd85751fa735047c2f12ac80\
b90214f90211a02e04f6ccffe812778d73e5edd71ec6e88d66799e21e4e1cf289c00e0593d9e75a0a4c6b5403d08831a\
48777904e0bd582b5eb2fd435e86b404a340648f1c07c8eda03a5a83f8390ce834355c9b909ebf3a168059c7c718e04e\
3db06164bd87d3c805a05880a05ed90a4e915b6dfffe045ef86640956633a1ea772ea654329800b93d6da0ac11d1143c\
0849a36326131d58f6e9e4905ed9d6bb71eab538a420602dd74db0a09a7d706ca89e455ea0e84b5f6d364734b8211532\
ef019d3f6f0c3ad3f8b22145a06f803b054de3776ad08b56aa77acc0b12fd22ae10d05707c3e21c1b27ef56ee6a08cfa\
3a3cd41e437d07e5f5929cd37136ffb5b6fb619037eee6f51ba2db9dd55fa03b0cfd396f0f63ea6fbe14cb96ea78d6a5\
fb32dd113fd00b55f3946cd91efd44a0a6183b5acaa9b645821c3d4659bcbc0650ee8c858877ba7dda3975e33a71381c\
a00a83a5309e5608d40d5b1decf52c64f40b4d78d2239ef73bc80de3986edc4b85a02c635079b09c53837e650a2301f1\
cb790b9c18eff452e1da51e1392b7a29a459a00fd704736227de56d67f89fd976f456952b0597a178338b7b63147b402\
af28a8a06dfa61f6e1617220334f9bcbd8074fc29b06d4a87695bc0c56472695284c70aea034859735c1845a89c12713\
2524a6c87e76fb4330914fbea3725cafb362679590a0a64f419ae11448888a260b8e784dd50be2ad0312c12b852ef25d\
4a33aa990a5780b90214f90211a0a377ec5382bab2fac4d111df2bf1c6c9eb08b5b85dfb4c127da19256a7121888a01f\
e0ce5dd1994cff2bdba8d2c72cb0d6ae62a6f1c0a0e214abb8ecc622aa96dca0a46cdc4aa0d8563f8a731f2960b4b8f3\
d15ce509b3c69a183f3ca83f1f2eaf16a017733ec82abc6e6725689ba978197e844f4beb5f5111c58dc7fc261a19d372\
26a018e23422c7369c8257307bc1c5cd4cc4750e66ad4f3394e505609b5ee934cb1aa0d70cd0626a071fc0a8dd7432f9\
60d26d2bbfe0e7375c7165f64dc69ab108bdcea00e392492b63488377f37d5ce5fbcf466ded6f027b98d0eea1cd531b9\
4b215c54a036cf806a9d1039c4fbb25dac891c44df00f7f1042fe7c015b0d67aae961d07c1a0980554a1bc124152c9f8\
1eef48c484857350171217b1be604c5bfd85e0538785a0fe2ba95684cf0dec25d8b4d2994c48376fd9626da16f8ef45d\
512bb00542b288a0c81cf9cd3f3af4b249cb1771755201f47a2bf7b89ba40ae242e43ffd3d76c548a070291612e276a9\
7b27ff6d24e2ff5bd69137af8e06909571dfed236265162586a046d88b3eaaf7ff63619c9c8cd8823366909e45edf169\
4c6821afcc58bdc80282a05ff7516db9003c9aeeb1d00d86578219e0397f3a8c9234971ce2c4b1dc1beb26a099cd4772\
34d68d481d77860882424ac0cce6527f217b2e76cf53859bbbbb2e4fa0f1319b7a1c633fef2d0d26c4248bdbd4af5e0c\
995229e658fc746e5cc55db21c80b901d4f901d1a0ca80012db94e7b452a3bb15c35c4491854b4c2074d33ebd5d080ec\
71182769aaa07a430a12837a081c5d52434c1f0cf91978e98101411d8e19c73709292b45e042a0b748cd978e2f53b0f2\
e750c0eae8825fbc4860112859cc42d9d9f659d1083639a02744191d9f7dc309cf36f4e3cd6c3be953f9b13c92ad6ec7\
5d6a26416a9a1abaa02c4f5e7a29ca1938c916758b9e909184a0f945a04225ecf3a83a3a2e586475e180a00f7658c01f\
ef807877f24d9337c1a203856f107781b430b63556a63eab71726d80a01ea759492bc734da8c70fa99298dc5908b3446\
c3efa1df221bc1abede6430edca068c79aba7675f232086d29c84342328d2b15ac2e30e7390e0fe180e4da0299f6a05c\
39eaf868599fcd5ff6873670011b269c8689b17bdab850648a74f38792b9a7a0b0ce0e662264a44c3f19b2bed5ecbf91\
196a5b3095edd528925d486747c0c9e5a08cb4791d7de705890b9497c444580d35e681ab48962dd4519f0b383ddf5fc0\
a4a060fc07089c78acec1515410e184cea9153e2560f40afbba68788f62495d112c9a0c4541857e446e2dbebc1837490\
c7dad570bba5eef1a6f5093e49a124142e737fa009f59f7eb9505a47ba4dabdb341d94919b001301761ebb0800e46fab\
470a53ca80b853f85180a06d6a06ecbb914f2888061bed0d0992d4575af95792e1554f6eb37bd6aee90f2980a09128bf\
ac2b326505597a28ec267f4d9444c8cc191c5c45be660cb7c5843eaea180808080808080808080808080a1e09e3357da\
c59283c9442a8577f0e657317fc5c56b12af720342a260e43a3caa0100000000000000000000c080a07c761a0e7fe2f2\
99c3f940c6e41e180c323363a85981ca4b8ead42cacc81e13ca03df8a82ff1d30272822e2437169bf80b8e2a0396958f\
df1fb973078876f1df8900000000000000000000000000000000000000000000000000000000000000c001a016786a0d\
f08c5e3e77b6a30a890c018e5b9e96f02cee01b70ab954490a80ebefa04e76da9a823e00ef9590b231353ef4abbc33f8\
4c2e99d47db58f2fa3da3da636b9028102f9027d83028c5d268459682f008459682f01830214ee941000777700000000\
0000000000000000000000048904e1036db4237a9120b9020496e1785200000000000000000000000000000000000000\
000000000000000000000000200000000000000000000000000000000000000000000000000000000000000001000000\
00000000000000000088888a9a780355dcb8b534768d1c25da19b8b88800000000000000000000000000000000000000\
00000000000000000000028c5d0000000000000000000000000000000000000000000000000000000000aa36a7000000\
00000000000000000088888a9a780355dcb8b534768d1c25da19b8b88800000000000000000000000088888a9a780355\
dcb8b534768d1c25da19b8b88800000000000000000000000088888a9a780355dcb8b534768d1c25da19b8b888000000\
000000000000000000000000000000000000000004e1003b28d928000000000000000000000000000000000000000000\
000000000000000000000000000000000000000000000000000000000000000000000000000003328b4a529120000000\
00000000000000000000000000000000000000000000000000000222e000000000000000000000000000000000000000\
000000000000000000000001a000000000000000000000000000000000000000000000000000000000000001c0000000\
000000000000000000000000000000000000000000000000000000000000000000000000000000000000000000000000\
00000000000000000000000000c001a0676ec5a0f9bc6efdec4f448b97e0ce27d8e0d3a25a7d16c0934be0bd8f61f394\
a0678399eda7932e7541899d8dd4a493ae62190d24a59759e7baf2b3b88091f663")
    .unwrap();

    let k = 15;
    assert_eq!(run_good_rlp_circuit(&rlp_bytes, k), ok());
}
