use rlp_circuits::circuit::RlpDecoderCircuit;
use rlp_circuits::config::{Column, RlpDecoderCircuitConfig};
use rlp_circuits::field::{Field, Fr};
use rlp_circuits::rlc;
use rlp_circuits::row::RlpDecoderCircuitConfigWitness;
use rlp_circuits::state::{decode_tx_list, gen_rlp_decode_state_witness, gen_witness_with_digest};
use rlp_circuits::tags::{RlpDecodeTypeTag, RlpTxFieldTag};
use rlp_circuits::transaction::{
    encode_byte_strings, word_from_u64, MockTransaction, SignedDynamicFeeTransaction, Word,
};

type Witness = Vec<RlpDecoderCircuitConfigWitness<Fr>>;

fn word(hex_digits: &str) -> Word {
    let bytes = hex::decode(hex_digits).unwrap();
    let mut word = [0u8; 32];
    word[32 - bytes.len()..].copy_from_slice(&bytes);
    word
}

fn encoded_tx(input: Vec<u8>) -> Vec<u8> {
    SignedDynamicFeeTransaction::from_mock(MockTransaction {
        hash: Some([0u8; 32]),
        nonce: 0x1234,
        gas_price: word_from_u64(1),
        gas: word_from_u64(1_000_000),
        to: Some([0x94; 20]),
        value: word("ffffffffffffffffffffffff"),
        input,
        v: Some(1),
        r: Some(word("b05805737618f6ac1ef211c02575f2fa82026fa1742caf192e2cffcd4161adca")),
        s: Some(word("53fbe3d9957dffafca84c419fdd1cead150834c5de9f3215c66327123c0a0541")),
        chain_id: word_from_u64(167001),
        max_fee_per_gas: word_from_u64(2_000_000_000),
        max_priority_fee_per_gas: word_from_u64(0),
    })
    .encode()
}

fn two_txs() -> Vec<u8> {
    encode_byte_strings(&vec![encoded_tx(vec![9; 200]), encoded_tx(vec![0; 1])])
}

/// Lists that are accepted, and lists that are refused at one place or another.
fn lists() -> Vec<Vec<u8>> {
    let good = two_txs();
    let mut wrong_type = good.clone();
    wrong_type[6] = 3;
    let mut wrong_nonce = good.clone();
    let at = good.windows(3).position(|w| w == [0x82, 0x12, 0x34]).unwrap();
    wrong_nonce[at + 1] = 0;
    vec![
        good.clone(),
        wrong_type,
        wrong_nonce,
        good[..100].to_vec(),
        good[..1].to_vec(),
        vec![0xc0],
        vec![0; 70],
    ]
}

fn decoded(witness: &Witness) -> usize {
    witness.iter().position(|w| w.tx_member == RlpTxFieldTag::Padding).unwrap()
}

#[test]
fn rows_hold_the_bytes() {
    for bytes in lists() {
        let witness = gen_rlp_decode_state_witness(&bytes, Fr::from_u64(11), 512);
        let n = decoded(&witness);
        let all: Vec<u8> = witness[1..n].iter().flat_map(|w| w.bytes.clone()).collect();
        assert_eq!(all, bytes);
        assert_eq!(witness[n - 1].rlp_remain_length, 0);
        assert!(n <= bytes.len() + 3);
    }
}

#[test]
fn remaining_lengths_count_down() {
    for bytes in lists() {
        let witness = gen_rlp_decode_state_witness(&bytes, Fr::from_u64(11), 512);
        assert_eq!(witness[0].rlp_remain_length, bytes.len());
        for i in 1..decoded(&witness) {
            let left = witness[i - 1].rlp_remain_length - witness[i].bytes.len();
            assert_eq!(witness[i].rlp_remain_length, left);
            assert_eq!(witness[i].rlp_bytes_in_row as usize, witness[i].bytes.len());
        }
    }
}

#[test]
fn invalid_rows_stay_invalid() {
    let mut accepted = Vec::new();
    for bytes in lists() {
        let witness = gen_rlp_decode_state_witness(&bytes, Fr::from_u64(11), 512);
        let n = decoded(&witness);
        let first = (1..n).find(|i| !witness[*i].valid).unwrap_or(n);
        assert!(witness[1..first].iter().all(|w| w.valid && w.errors == [false; 4]));
        if first < n {
            assert!(witness[first].errors.contains(&true));
            assert!(witness[first + 1..n]
                .iter()
                .all(|w| !w.valid && w.tx_member == RlpTxFieldTag::DecodeError));
        }
        accepted.push(first == n);
    }
    assert_eq!(accepted, [true, false, false, false, false, false, false]);
}

#[test]
fn transactions_are_numbered() {
    let witness = gen_rlp_decode_state_witness(&two_txs(), Fr::from_u64(11), 512);
    let n = decoded(&witness);
    let mut id = 0;
    for w in &witness[1..n] {
        if w.tx_member == RlpTxFieldTag::TypedTxHeader {
            id += 1;
        }
        assert_eq!(w.tx_id, id);
    }
    assert_eq!(id, 2);
}

#[test]
fn witnesses_end_in_padding() {
    for bytes in lists() {
        let witness = gen_rlp_decode_state_witness(&bytes, Fr::from_u64(11), 512);
        assert_eq!(witness.len(), 512 - 64);
        let (n, last) = (decoded(&witness), witness.len() - 1);
        assert!(witness[last - 1].q_last);
        assert_eq!(witness[last - 1].valid, witness[n - 1].valid);
        assert_eq!(witness[last - 1].acc_rlc_value, witness[n - 1].acc_rlc_value);
        assert_eq!(witness[last], RlpDecoderCircuitConfigWitness::default());
        assert!(witness[1].q_first);
        assert_eq!(witness.iter().filter(|w| w.q_first).count(), 1);
        assert_eq!(witness.iter().filter(|w| w.q_last).count(), 1);
    }
}

#[test]
fn combinations_run_through_the_rows() {
    let r = Fr::from_u64(11);
    for bytes in lists() {
        let witness = gen_rlp_decode_state_witness(&bytes, r, 512);
        let n = decoded(&witness);
        let mut so_far: Vec<u8> = Vec::new();
        for w in &witness[1..n] {
            so_far.extend(&w.bytes);
            assert_eq!(w.rlc_quotient, rlc::combine(&w.bytes, r));
            assert_eq!(w.acc_rlc_value, rlc::combine(&so_far, r));
        }
        assert_eq!(witness[n - 1].acc_rlc_value, rlc::combine(&bytes, r));
    }
}

#[test]
fn digest_stands_in_the_first_row() {
    let (bytes, r) = (two_txs(), Fr::from_u64(11));
    let digest = ethers_core::utils::keccak256(&bytes).to_vec();
    let witness = gen_rlp_decode_state_witness(&bytes, r, 512);
    assert_eq!(witness[0].value, rlc::combine(&digest, r));
    assert_eq!(gen_witness_with_digest(&bytes, &digest, r, 512), witness);
    let other = gen_witness_with_digest(&bytes, &vec![1, 2], r, 512);
    assert_eq!(other[0].value, Fr::from_u64(13));
    assert_eq!(other[1..], witness[1..]);
    assert_eq!(decode_tx_list(&bytes, &digest, r).len(), decoded(&witness));
}

#[test]
fn errors_are_told_apart() {
    let (good, r) = (two_txs(), Fr::from_u64(11));
    let nonce = good.windows(3).position(|w| w == [0x82, 0x12, 0x34]).unwrap();
    let errors_in = |bytes: &[u8], member: RlpTxFieldTag| {
        let witness = gen_rlp_decode_state_witness(bytes, r, 512);
        let w = witness.iter().find(|w| w.tx_member == member && w.tx_id == 1).unwrap();
        assert!(!w.valid);
        w.errors
    };
    let with = |changes: &[(usize, u8)]| {
        let mut bytes = good.clone();
        for (i, b) in changes {
            bytes[*i] = *b;
        }
        bytes
    };
    let member = RlpTxFieldTag::Nonce;
    assert_eq!(errors_in(&with(&[(nonce, 0)]), member), [true, false, false, false]);
    assert_eq!(errors_in(&with(&[(nonce + 1, 0)]), member), [false, true, false, false]);
    assert_eq!(
        errors_in(&with(&[(nonce, 0x81), (nonce + 1, 0x79)]), member),
        [false, false, true, false],
    );
    // one transaction whose last field is a byte short
    let mut short = encoded_tx(vec![]);
    short.pop();
    short[2] -= 1;
    let short = encode_byte_strings(&vec![short]);
    assert_eq!(errors_in(&short, RlpTxFieldTag::SignS), [false, false, false, true]);
}

#[test]
fn encoded_fields_are_given_back() {
    let bytes = two_txs();
    let witness = gen_rlp_decode_state_witness(&bytes, Fr::from_u64(11), 512);
    let field = |id: u64, member: RlpTxFieldTag| -> Vec<u8> {
        witness
            .iter()
            .filter(|w| w.tx_id == id && w.tx_member == member && w.q_enable)
            .flat_map(|w| w.bytes.clone())
            .collect()
    };
    assert_eq!(field(0, RlpTxFieldTag::TxListRlpHeader), bytes[..3].to_vec());
    assert_eq!(field(1, RlpTxFieldTag::TypedTxHeader), bytes[3..6].to_vec());
    assert_eq!(field(1, RlpTxFieldTag::TxType), vec![2]);
    assert_eq!(field(1, RlpTxFieldTag::TxRlpHeader), bytes[7..10].to_vec());
    assert_eq!(field(1, RlpTxFieldTag::ChainID), vec![0x83, 0x02, 0x8c, 0x59]);
    assert_eq!(field(1, RlpTxFieldTag::Nonce), vec![0x82, 0x12, 0x34]);
    assert_eq!(field(1, RlpTxFieldTag::GasTipCap), vec![0x80]);
    assert_eq!(field(1, RlpTxFieldTag::GasFeeCap), vec![0x84, 0x77, 0x35, 0x94, 0x00]);
    assert_eq!(field(1, RlpTxFieldTag::Gas), vec![0x83, 0x0f, 0x42, 0x40]);
    assert_eq!(field(1, RlpTxFieldTag::To), vec![0x94; 21]);
    assert_eq!(field(1, RlpTxFieldTag::Value), [vec![0x8c], vec![0xff; 12]].concat());
    assert_eq!(field(1, RlpTxFieldTag::Data), [vec![0xb8, 200], vec![9; 200]].concat());
    assert_eq!(field(1, RlpTxFieldTag::AccessList), vec![0xc0]);
    assert_eq!(field(1, RlpTxFieldTag::SignV), vec![1]);
    assert_eq!(field(1, RlpTxFieldTag::SignR)[..3], [0xa0, 0xb0, 0x58]);
    assert_eq!(field(1, RlpTxFieldTag::SignS)[..3], [0xa0, 0x53, 0xfb]);
    assert_eq!(field(2, RlpTxFieldTag::Data), vec![0]);
    // 15 fields in each transaction, with 7 rows for the data of the first
    assert_eq!(decoded(&witness), 2 + 14 + 7 + 14 + 1);
}

#[test]
fn fewest_rows_are_enough() {
    let bytes = two_txs();
    let size = RlpDecoderCircuit::<Fr, true>::min_num_rows_from_valid_bytes(&bytes).0;
    let witness = gen_rlp_decode_state_witness(&bytes, Fr::from_u64(11), size);
    assert!(witness[witness.len() - 2].valid);
}

#[test]
fn circuit_is_filled() {
    let circuit = RlpDecoderCircuit::<Fr, true>::new(two_txs(), 9);
    let config = RlpDecoderCircuitConfig::new();
    let filled = circuit.synthesize_sub(&config, Fr::from_u64(11));
    assert_eq!(filled.cells.len(), filled.witness.len());
    let value = |i: usize, column: Column| {
        filled.cells[i].iter().find(|c| c.column == column).unwrap().value
    };
    // the header of the list, f9 and two bytes of its length
    assert_eq!(value(1, Column::Byte(0)), Fr::from_u64(0xf9));
    assert_eq!(value(1, Column::BytesInRow), Fr::from_u64(3));
    assert_eq!(value(1, Column::RMult), Fr::from_u64(1331));
    assert_eq!(value(1, Column::QFirst), Fr::one());
    assert_eq!(value(1, Column::Valid), Fr::one());
    assert_eq!(
        value(1, Column::QRlpType(RlpDecodeTypeTag::LongList2.ordinal())),
        Fr::one(),
    );
    assert_eq!(value(1, Column::QTxMember(0)), Fr::one());
    assert_eq!(value(1, Column::QTxMember(1)), Fr::zero());
    assert_eq!(value(2, Column::TxId), Fr::one());
    assert_eq!(value(0, Column::QEnable), Fr::zero());
    let columns: Vec<Column> = filled.cells[0].iter().map(|c| c.column).collect();
    for (i, w) in filled.witness.iter().enumerate().take(3).skip(1) {
        let row: Vec<Column> = config.assign_row(w).iter().map(|c| c.column).collect();
        assert!(row.iter().all(|c| columns.contains(c)));
        assert_eq!(value(i, Column::RemainLength), Fr::from_u64(w.rlp_remain_length as u64));
    }
}
