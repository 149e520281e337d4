use rlp_circuits::circuit::{log2_ceil, tx_list_lengths, RlpDecoderCircuit};
use rlp_circuits::field::Fr;
use rlp_circuits::transaction::{
    copy_words, encode_byte_strings, encode_tx_list, word_from_u64, AccessListItem,
    MockTransaction, SignedDynamicFeeTransaction, SignedTransaction, Transaction, Word,
};
use rlp_circuits::witness::{Block, BlockContext, BlockTransaction};

type Circuit = RlpDecoderCircuit<Fr, true>;

fn word(hex_digits: &str) -> Word {
    let bytes = hex::decode(hex_digits).unwrap();
    let mut word = [0u8; 32];
    word[32 - bytes.len()..].copy_from_slice(&bytes);
    word
}

fn mock_tx() -> MockTransaction {
    MockTransaction {
        hash: Some([7u8; 32]),
        nonce: 0,
        gas_price: word_from_u64(1),
        gas: word_from_u64(1_000_000),
        to: None,
        value: word_from_u64(0),
        input: vec![0x30, 0x31],
        v: Some(0x0a98),
        r: Some(word("b05805737618f6ac1ef211c02575f2fa82026fa1742caf192e2cffcd4161adca")),
        s: Some(word("53fbe3d9957dffafca84c419fdd1cead150834c5de9f3215c66327123c0a0541")),
        chain_id: word_from_u64(1),
        max_fee_per_gas: word_from_u64(1),
        max_priority_fee_per_gas: word_from_u64(2),
    }
}

fn mock_1559_tx() -> MockTransaction {
    MockTransaction {
        gas: word_from_u64(100),
        to: Some([0u8; 20]),
        value: word_from_u64(100),
        input: vec![],
        v: Some(0),
        r: Some(word("1c758784e91d3e616d6d4b70a6dac27a00512a76c96dc258a9ad48cdada0267d")),
        s: Some(word("1343bbb9dc377773f13519dbdb71051ee90d52080c2bc77f5f808118dff5341a")),
        ..mock_tx()
    }
}

/// The list of one transaction with a recipient, a gas price and data.
const LEGACY_LIST: &str = "f852f8508001830f42408080823031820a98\
a0b05805737618f6ac1ef211c02575f2fa82026fa1742caf192e2cffcd4161adca\
a053fbe3d9957dffafca84c419fdd1cead150834c5de9f3215c66327123c0a0541";

/// The list of one dynamic fee transaction.
const DYNAMIC_FEE_LIST: &str = "f865b86302f860018002016494\
00000000000000000000000000000000000000006480c080\
a01c758784e91d3e616d6d4b70a6dac27a00512a76c96dc258a9ad48cdada0267d\
a01343bbb9dc377773f13519dbdb71051ee90d52080c2bc77f5f808118dff5341a";

fn tx_with_input(len: usize) -> Transaction {
    SignedTransaction::from_mock(MockTransaction { input: vec![1; len], ..mock_tx() }).tx
}

fn block_with_data(lengths: &[usize]) -> Block {
    Block {
        txs: lengths.iter().map(|n| BlockTransaction { call_data: vec![0; *n] }).collect(),
        transactions: vec![SignedTransaction::from_mock(mock_tx()).tx],
        context: BlockContext { number: 1, history_hashes: vec![] },
        protocol_instance: None,
    }
}

#[test]
fn legacy_list_is_encoded() {
    let tx = SignedTransaction::from_mock(mock_tx());
    assert_eq!(hex::encode(encode_tx_list(&vec![tx.clone()])), LEGACY_LIST);
    assert_eq!(hex::encode(tx.encode()), &LEGACY_LIST[4..]);
    assert_eq!(hex::encode(encode_tx_list(&vec![])), "c0");
}

#[test]
fn dynamic_fee_list_is_encoded() {
    let tx = SignedDynamicFeeTransaction::from_mock(mock_1559_tx());
    assert_eq!(hex::encode(encode_byte_strings(&vec![tx.encode()])), DYNAMIC_FEE_LIST);
    assert_eq!(hex::encode(tx.encode()), &DYNAMIC_FEE_LIST[8..]);
}

#[test]
fn access_list_is_encoded() {
    let mut tx = SignedDynamicFeeTransaction::from_mock(mock_1559_tx());
    let item = AccessListItem { address: [0x11; 20], storage_keys: vec![[0x22; 32]] };
    tx.tx.access_list = Some(vec![item]);
    let encoded = hex::encode(tx.encode());
    let list = String::from("f838f794") + &"11".repeat(20) + "e1a0" + &"22".repeat(32);
    assert!(encoded.starts_with("02f899"));
    assert!(encoded.contains(&(String::from("6480") + &list + "80a0")));

    let bare = AccessListItem { address: [0x11; 20], storage_keys: vec![] };
    tx.tx.access_list = Some(vec![bare]);
    let list = String::from("d7d694") + &"11".repeat(20) + "c0";
    assert!(hex::encode(tx.encode()).contains(&(String::from("6480") + &list + "80a0")));
}

#[test]
fn encodings_are_read_back() {
    let tx = SignedDynamicFeeTransaction::from_mock(MockTransaction {
        nonce: 0x1234,
        input: (0..300).map(|i| i as u8).collect(),
        ..mock_1559_tx()
    });
    let decoded: ethers_core::types::Transaction = rlp::decode(&tx.encode()).unwrap();
    assert_eq!(decoded.nonce.as_u64(), 0x1234);
    assert_eq!(decoded.input.to_vec(), tx.tx.input);
    assert_eq!(decoded.max_priority_fee_per_gas.unwrap().as_u64(), 2);
    assert_eq!(decoded.max_fee_per_gas.unwrap().as_u64(), 1);
    assert_eq!(decoded.chain_id.unwrap().as_u64(), 1);
    let mut s = [0u8; 32];
    decoded.s.to_big_endian(&mut s);
    assert_eq!(s, tx.signature.s);
}

#[test]
fn signature_is_taken_over() {
    let signed = SignedTransaction::from_mock(mock_tx());
    let again = SignedTransaction::from(&signed.tx);
    assert_eq!(again.signature.v, 0x0a98);
    assert_eq!(again.signature.r, signed.tx.r);
    assert_eq!(again.signature.s, signed.tx.s);
    assert_eq!(again.tx.hash, [7u8; 32]);
    assert_eq!(again.encode(), signed.encode());
    let dynamic = SignedDynamicFeeTransaction::from(
        &SignedDynamicFeeTransaction::from_mock(mock_1559_tx()).tx,
    );
    assert_eq!(dynamic.signature.v, 0);
    assert_eq!(hex::encode(dynamic.encode()), &DYNAMIC_FEE_LIST[8..]);
}

#[test]
fn words_are_big_endian() {
    assert_eq!(word_from_u64(0x0102), word("0102"));
    assert_eq!(word_from_u64(u64::MAX), word("ffffffffffffffff"));
    assert_eq!(copy_words(&vec![[1u8; 32], [2u8; 32]]), vec![[1u8; 32], [2u8; 32]]);
}

#[test]
fn append_within_an_open_list() {
    let tx = SignedTransaction::from_mock(mock_tx());
    let mut stream = rlp::RlpStream::new();
    stream.begin_list(1);
    tx.rlp_append(&mut stream);
    assert_eq!(hex::encode(stream.out()), LEGACY_LIST);
}

#[test]
fn rows_for_data() {
    // 19 rows for the fields, one for each 33 bytes of data and one more; 5212 rows of the table,
    // 64 blinding rows, and 2 around
    assert_eq!(Circuit::min_num_rows_from_tx(&vec![]), (5278, 5278));
    assert_eq!(Circuit::min_num_rows_from_tx(&vec![tx_with_input(0)]), (5298, 5298));
    assert_eq!(Circuit::min_num_rows_from_tx(&vec![tx_with_input(32)]), (5298, 5298));
    assert_eq!(Circuit::min_num_rows_from_tx(&vec![tx_with_input(33)]), (5299, 5299));
    assert_eq!(
        Circuit::min_num_rows_from_tx(&vec![tx_with_input(33), tx_with_input(66)]),
        (5278 + 2 * 19 + 2 + 3, 5278 + 2 * 19 + 2 + 3),
    );
    assert_eq!(Circuit::min_num_rows(&block_with_data(&[33, 66])), (5321, 5321));
    assert_eq!(Circuit::min_num_rows_block(&block_with_data(&[0])), (5298, 5298));
}

#[test]
fn rows_for_encoded_lists() {
    let list = hex::decode(DYNAMIC_FEE_LIST).unwrap();
    assert_eq!(Circuit::min_num_rows_from_valid_bytes(&list), (5298, 5298));
    assert_eq!(Circuit::try_min_num_rows_from_bytes(&list), Some((5298, 5298)));
    assert_eq!(tx_list_lengths(&list), Some(vec![0]));

    let txs: Vec<Vec<u8>> = [100usize, 5]
        .iter()
        .map(|n| {
            SignedDynamicFeeTransaction::from_mock(MockTransaction {
                input: vec![9; *n],
                ..mock_1559_tx()
            })
            .encode()
        })
        .collect();
    let list = encode_byte_strings(&txs);
    assert_eq!(tx_list_lengths(&list), Some(vec![100, 5]));
    assert_eq!(Circuit::min_num_rows_from_valid_bytes(&list).0, 5278 + 2 * 19 + 4 + 1);

    // transactions without a type, of another type, and ones that cannot be read
    assert_eq!(tx_list_lengths(&hex::decode(LEGACY_LIST).unwrap()), None);
    assert_eq!(tx_list_lengths(&encode_byte_strings(&vec![vec![1, 0xc0]])), None);
    assert_eq!(tx_list_lengths(&encode_byte_strings(&vec![vec![]])), None);
    assert_eq!(tx_list_lengths(&encode_byte_strings(&vec![vec![2, 0xc0]])), None);
    assert_eq!(Circuit::try_min_num_rows_from_bytes(&hex::decode(LEGACY_LIST).unwrap()), None);
    assert_eq!(Circuit::try_min_num_rows_from_bytes(&vec![0xc0]), Some((5278, 5278)));
}

#[test]
fn rows_that_do_not_fit() {
    assert_eq!(Circuit::min_num_rows_from_lengths(&vec![33]), Some((5299, 5299)));
    assert_eq!(Circuit::min_num_rows_from_lengths(&vec![usize::MAX; 33]), None);
}

#[test]
fn exponents() {
    assert_eq!(log2_ceil(0), 0);
    assert_eq!(log2_ceil(1), 0);
    assert_eq!(log2_ceil(2), 1);
    assert_eq!(log2_ceil(3), 2);
    assert_eq!(log2_ceil(4), 2);
    assert_eq!(log2_ceil(5298), 13);
    assert_eq!(log2_ceil(8193), 14);
    assert_eq!(log2_ceil(usize::MAX), usize::BITS);
}

#[test]
fn circuit_for_a_block() {
    let circuit = Circuit::new_from_block(&block_with_data(&[2]));
    assert_eq!(hex::encode(&circuit.bytes), LEGACY_LIST);
    assert_eq!(circuit.size, 8192);
    let copy = circuit.clone();
    assert_eq!((copy.bytes, copy.size), (circuit.bytes, 8192));
    let empty = Circuit::default();
    assert_eq!((empty.bytes.len(), empty.size), (0, 0));
    let circuit = Circuit::new(vec![1, 2], 5);
    assert_eq!((circuit.bytes.clone(), circuit.size), (vec![1, 2], 32));
    assert_eq!(circuit.instance(), vec![Vec::<Fr>::new()]);
}
