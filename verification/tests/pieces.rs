use rlp_circuits::accumulate::{complete_paddings_new, fixup_acc_rlc_new};
use rlp_circuits::decode::{decode_field, read_nbytes, rlp_bytes_len};
use rlp_circuits::expression::{BaseConstraintBuilder, Expression};
use rlp_circuits::field::{Field, Fr};
use rlp_circuits::rlc;
use rlp_circuits::rlp_decoder_tables::{
    rlp_tx_field_decode_rules, RlpDecodeRule, RlpDecoderFixedTable6Columns,
    RlpDecoderFixedTableTag,
};
use rlp_circuits::row::{
    generate_rlp_row_witness_new, generate_rlp_type_witness, RlpDecoderCircuitConfigWitness,
};
use rlp_circuits::tags::{RlpDecodeErrorType, RlpDecodeTypeTag, RlpTxFieldTag, RlpTxTypeTag};

fn fr(v: u64) -> Fr {
    Fr::from_u64(v)
}

#[test]
fn field_operations() {
    let mut five = [0u8; 32];
    five[0] = 5;
    assert_eq!(fr(5).to_bytes(), five);
    assert_eq!(fr(5).to_repr(), five);
    assert_eq!(fr(u64::MAX).to_bytes()[..9], [255, 255, 255, 255, 255, 255, 255, 255, 0]);
    assert_eq!(fr(3).add(&fr(5)), fr(8));
    assert_eq!(fr(3).sub(&fr(5)).add(&fr(2)), fr(0));
    assert_eq!(fr(3).mul(&fr(5)), fr(15));
    assert_eq!(fr(3).pow(4), fr(81));
    assert_eq!(fr(0).pow(0), Fr::one());
    assert_eq!(fr(7).invert().unwrap().mul(&fr(7)), Fr::one());
    assert!(fr(7).invert().unwrap() != fr(7));
    assert_eq!(Fr::zero().invert(), None);
    // one less than the order
    assert_eq!(
        hex::encode(Fr::zero().sub(&Fr::one()).to_bytes()),
        "000000f093f5e1439170b97948e833285d588181b64550b829a031e1724e6430",
    );
}

#[test]
fn combinations_of_bytes() {
    assert_eq!(rlc::value(&vec![1, 2, 3], fr(10)), fr(321));
    assert_eq!(rlc::combine(&vec![1, 2, 3], fr(10)), fr(123));
    assert_eq!(rlc::combine(&vec![], fr(10)), fr(0));
}

#[test]
fn tags_have_their_positions() {
    assert_eq!(RlpDecodeTypeTag::default(), RlpDecodeTypeTag::DoNothing);
    assert_eq!(RlpDecodeTypeTag::DoNothing.ordinal(), 0);
    assert_eq!(RlpDecodeTypeTag::LongString1.ordinal(), 5);
    assert_eq!(RlpDecodeTypeTag::PartialRlp.ordinal(), 13);
    assert_eq!(RlpTxFieldTag::default(), RlpTxFieldTag::TxListRlpHeader);
    assert_eq!(RlpTxFieldTag::Padding.ordinal(), 12);
    assert_eq!(RlpTxFieldTag::AccessList.ordinal(), 18);
    for i in 0..19 {
        assert_eq!(RlpTxFieldTag::from_ordinal(i).ordinal(), i);
    }
    assert_eq!(RlpTxTypeTag::default(), RlpTxTypeTag::TxLegacyType);
    assert_eq!(RlpTxTypeTag::Tx1559Type.ordinal(), 1);
    assert_eq!(usize::from(RlpDecodeErrorType::HeaderDecError), 0);
    assert_eq!(usize::from(RlpDecodeErrorType::LenOfLenError), 1);
    assert_eq!(usize::from(RlpDecodeErrorType::ValueError), 2);
    assert_eq!(usize::from(RlpDecodeErrorType::RunOutOfDataError(9)), 3);
}

#[test]
fn tags_are_indices() {
    let numbers: [usize; 20] = std::array::from_fn(|i| i * 10);
    let list: Vec<usize> = numbers.to_vec();
    assert_eq!(numbers[RlpDecodeTypeTag::NullValue], 20);
    assert_eq!(list[RlpDecodeTypeTag::PartialRlp], 130);
    assert_eq!(numbers[RlpDecodeErrorType::ValueError], 20);
    assert_eq!(list[RlpDecodeErrorType::RunOutOfDataError(0)], 30);
    assert_eq!(numbers[RlpTxFieldTag::Data], 70);
    assert_eq!(list[RlpTxFieldTag::AccessList], 180);
}

#[test]
fn types_of_headers() {
    let of = |member: RlpTxFieldTag, bytes: &[u8]| generate_rlp_type_witness(&member, bytes);
    let nonce = RlpTxFieldTag::Nonce;
    assert_eq!(of(nonce, &[]), (RlpDecodeTypeTag::SingleByte, false, true, true));
    assert_eq!(of(nonce, &[0]), (RlpDecodeTypeTag::SingleByte, false, true, true));
    assert_eq!(of(nonce, &[0x7f]), (RlpDecodeTypeTag::SingleByte, true, true, true));
    assert_eq!(of(nonce, &[0x80]), (RlpDecodeTypeTag::NullValue, true, true, true));
    assert_eq!(of(nonce, &[0x81, 0x7f]), (RlpDecodeTypeTag::ShortStringValue, true, true, false));
    assert_eq!(of(nonce, &[0x81, 0x80]), (RlpDecodeTypeTag::ShortStringValue, true, true, true));
    assert_eq!(of(nonce, &[0x82, 0]), (RlpDecodeTypeTag::ShortStringValue, true, true, false));
    assert_eq!(of(nonce, &[0x82, 1]), (RlpDecodeTypeTag::ShortStringValue, true, true, true));
    assert_eq!(of(nonce, &[0xb7]), (RlpDecodeTypeTag::ShortStringValue, true, true, false));
    assert_eq!(
        of(RlpTxFieldTag::To, &[0x81, 0]),
        (RlpDecodeTypeTag::ShortStringBytes, true, true, true),
    );
    assert_eq!(
        of(RlpTxFieldTag::Data, &[0x82, 0]),
        (RlpDecodeTypeTag::ShortStringBytes, true, true, true),
    );
    assert_eq!(of(nonce, &[0xb8, 0x7f]), (RlpDecodeTypeTag::LongString1, true, false, true));
    assert_eq!(of(nonce, &[0xb8, 0x80]), (RlpDecodeTypeTag::LongString1, true, true, true));
    assert_eq!(of(nonce, &[0xb9, 0]), (RlpDecodeTypeTag::LongString2, true, false, true));
    assert_eq!(of(nonce, &[0xba, 1]), (RlpDecodeTypeTag::LongString3, true, true, true));
    assert_eq!(of(nonce, &[0xbb]), (RlpDecodeTypeTag::DoNothing, false, true, true));
    assert_eq!(of(nonce, &[0xc0]), (RlpDecodeTypeTag::EmptyList, true, true, true));
    assert_eq!(of(nonce, &[0xf7]), (RlpDecodeTypeTag::ShortList, true, true, true));
    assert_eq!(of(nonce, &[0xf8]), (RlpDecodeTypeTag::LongList1, true, true, true));
    assert_eq!(of(nonce, &[0xf9]), (RlpDecodeTypeTag::LongList2, true, true, true));
    assert_eq!(of(nonce, &[0xfa]), (RlpDecodeTypeTag::LongList3, true, true, true));
    assert_eq!(of(nonce, &[0xfb]), (RlpDecodeTypeTag::DoNothing, false, true, true));
}

#[test]
fn bytes_are_read() {
    assert_eq!(read_nbytes(&[1, 2, 3], 2), Ok(&[1u8, 2][..]));
    assert_eq!(read_nbytes(&[1, 2, 3], 3), Ok(&[1u8, 2, 3][..]));
    assert_eq!(read_nbytes(&[1, 2, 3], 4), Err(&[1u8, 2, 3][..]));
    assert_eq!(rlp_bytes_len(&[]), 0);
    assert_eq!(rlp_bytes_len(&[1, 2]), 258);
    assert_eq!(rlp_bytes_len(&[1, 0, 0]), 65536);
}

#[test]
fn rules_of_fields() {
    let rules =
        |member: RlpTxFieldTag| rlp_tx_field_decode_rules(RlpTxTypeTag::Tx1559Type, member);
    assert_eq!(rules(RlpTxFieldTag::TxListRlpHeader), vec![RlpDecodeRule::LongList]);
    assert_eq!(rules(RlpTxFieldTag::TypedTxHeader), vec![RlpDecodeRule::LongBytes]);
    assert_eq!(rules(RlpTxFieldTag::To), vec![RlpDecodeRule::Address, RlpDecodeRule::Empty]);
    assert_eq!(rules(RlpTxFieldTag::Value), vec![RlpDecodeRule::Uint96]);
    assert_eq!(rules(RlpTxFieldTag::SignS), vec![RlpDecodeRule::Uint256]);
    assert_eq!(RlpDecodeRule::TxType1559.rule_check(2), (2, true));
    assert_eq!(RlpDecodeRule::TxType1559.rule_check(3), (3, false));
    assert_eq!(RlpDecodeRule::Uint96.rule_check(0), (0, false));
    assert_eq!(RlpDecodeRule::Uint96.rule_check(0x8c), (0x8c, true));
    assert_eq!(RlpDecodeRule::Uint96.rule_check(0x8d), (0x8d, false));
    assert_eq!(RlpDecodeRule::LongList.rule_check(0xf7), (0xf7, false));
    assert_eq!(RlpDecodeRule::LongList.rule_check(0xfa), (0xfa, true));
}

#[test]
fn fields_are_decoded() {
    let header = Some(RlpDecodeErrorType::HeaderDecError);
    let length = Some(RlpDecodeErrorType::LenOfLenError);
    let value = Some(RlpDecodeErrorType::ValueError);
    let run_out = |n: usize| Some(RlpDecodeErrorType::RunOutOfDataError(n));

    let uint = RlpDecodeRule::Uint96;
    assert_eq!(decode_field(&uint, &[]), (0, run_out(1)));
    assert_eq!(decode_field(&uint, &[0]), (1, header));
    assert_eq!(decode_field(&uint, &[0x80, 9]), (1, None));
    assert_eq!(decode_field(&uint, &[0x81, 0x00]), (2, value));
    assert_eq!(decode_field(&uint, &[0x81, 0x79]), (2, value));
    assert_eq!(decode_field(&uint, &[0x81, 0x80]), (2, None));
    assert_eq!(decode_field(&uint, &[0x82, 0, 1]), (2, length));
    assert_eq!(decode_field(&uint, &[0x83, 1, 2]), (3, run_out(4)));
    assert_eq!(decode_field(&RlpDecodeRule::Uint256, &[0x81, 0x7f]), (2, value));
    assert_eq!(decode_field(&RlpDecodeRule::Uint256, &[0x81, 0x80]), (2, None));

    let address = RlpDecodeRule::Address;
    assert_eq!(decode_field(&address, &[0x94; 30]), (21, None));
    assert_eq!(decode_field(&address, &[0x94; 20]), (20, run_out(21)));
    assert_eq!(decode_field(&address, &[0x93; 20]), (1, header));
    assert_eq!(decode_field(&RlpDecodeRule::Empty, &[0x80]), (1, None));

    let bytes = RlpDecodeRule::Bytes48K;
    assert_eq!(decode_field(&bytes, &[0]), (1, None));
    assert_eq!(decode_field(&bytes, &[0x81, 0x02]), (2, value));
    assert_eq!(decode_field(&bytes, &[0x82, 0, 0]), (3, None));
    assert_eq!(decode_field(&bytes, &[0xb8, 55]), (2, length));
    assert_eq!(decode_field(&bytes, &[0xb8, 56]), (2, run_out(58)));
    assert_eq!(decode_field(&bytes, &[0xb9, 0, 1]), (2, length));
    assert_eq!(decode_field(&bytes, &[0xb9, 1]), (2, run_out(3)));
    assert_eq!(decode_field(&bytes, &[[0xb8, 56].as_slice(), &[7; 60]].concat()), (58, None));

    let long_bytes = RlpDecodeRule::LongBytes;
    assert_eq!(decode_field(&long_bytes, &[[0xb8, 56].as_slice(), &[7; 56]].concat()), (2, None));
    assert_eq!(decode_field(&long_bytes, &[0xb8]), (1, run_out(2)));
    assert_eq!(decode_field(&long_bytes, &[0xba, 1, 2]), (3, run_out(4)));
    assert_eq!(decode_field(&long_bytes, &[0xb8, 56, 1, 1]), (4, run_out(58)));

    let long_list = RlpDecodeRule::LongList;
    assert_eq!(decode_field(&long_list, &[[0xf8, 56].as_slice(), &[7; 56]].concat()), (2, None));
    assert_eq!(decode_field(&long_list, &[0xf8, 56, 1]), (2, value));
    assert_eq!(decode_field(&long_list, &[0xf8, 55]), (2, length));
    assert_eq!(decode_field(&long_list, &[0xfa, 1]), (2, run_out(4)));
    assert_eq!(decode_field(&RlpDecodeRule::EmptyList, &[0xc0]), (1, None));
}

#[test]
fn table_rows() {
    let row = |k: usize| RlpDecoderFixedTable6Columns::row(k, fr(3));
    let row_of = |v: [u64; 5]| {
        v.iter().chain(&[0]).map(|x| fr(*x)).collect::<Vec<Fr>>()
    };
    assert_eq!(RlpDecoderFixedTable6Columns::table_size(), 5212);
    let rows: Vec<Vec<Fr>> = (0..5212).map(row).collect();
    let range = RlpDecoderFixedTableTag::Range256.ordinal();
    let decode = RlpDecoderFixedTableTag::RlpDecoderTable.ordinal();
    let switch = RlpDecoderFixedTableTag::TxFieldSwitchTable.ordinal();
    let r_mult = RlpDecoderFixedTableTag::RMult.ordinal();
    assert!(rows.contains(&row_of([range, 255, 0, 0, 0])));
    assert!(!rows.contains(&row_of([range, 256, 0, 0, 0])));
    let nonce = RlpTxFieldTag::Nonce.ordinal() as u64;
    let tip = RlpTxFieldTag::GasTipCap.ordinal() as u64;
    let error = RlpTxFieldTag::DecodeError.ordinal() as u64;
    assert!(rows.contains(&row_of([decode, 1, nonce, 0x80, 1])));
    assert!(!rows.contains(&row_of([decode, 1, nonce, 0x80, 0])));
    assert!(rows.contains(&row_of([decode, 1, nonce, 0xc0, 0])));
    assert!(rows.contains(&row_of([switch, nonce, tip, 0, 0])));
    assert!(rows.contains(&row_of([switch, nonce, error, 0, 0])));
    assert!(!rows.contains(&row_of([switch, nonce, nonce, 0, 0])));
    assert!(rows.contains(&row_of([r_mult, 81, 4, 0, 0])));
    assert!(!rows.contains(&row_of([r_mult, 81, 5, 0, 0])));
}

#[test]
fn rows_of_a_field() {
    let data: Vec<u8> = [vec![0xb8, 68], vec![5; 68]].concat();
    let rows =
        generate_rlp_row_witness_new::<Fr>(3, &RlpTxFieldTag::Data, &data, fr(2), 100, None);
    assert_eq!(rows.len(), 3);
    assert_eq!(rows[0].rlp_type, RlpDecodeTypeTag::LongString1);
    assert_eq!(rows[1].rlp_type, RlpDecodeTypeTag::PartialRlp);
    assert_eq!(rows.iter().map(|w| w.complete).collect::<Vec<bool>>(), [false, false, true]);
    assert_eq!(rows.iter().map(|w| w.rlp_tx_member_length).collect::<Vec<u64>>(), [70, 37, 4]);
    assert_eq!(rows.iter().map(|w| w.rlp_bytes_in_row).collect::<Vec<u8>>(), [33, 33, 4]);
    assert_eq!(rows.iter().map(|w| w.rlp_remain_length).collect::<Vec<usize>>(), [67, 34, 30]);
    assert_eq!(rows[2].r_mult, fr(16));
    assert_eq!(rows[2].r_mult_comp, fr(1 << 29));
    assert_eq!(rows[0].r_mult_comp, Fr::one());
    assert!(rows.iter().all(|w| w.valid && w.q_enable && !w.q_first && w.tx_id == 3));

    let error = Some(RlpDecodeErrorType::RunOutOfDataError(9));
    let rows =
        generate_rlp_row_witness_new::<Fr>(1, &RlpTxFieldTag::Nonce, &[0x88, 1], fr(2), 2, error);
    assert_eq!(rows.len(), 1);
    assert_eq!(rows[0].errors, [false, false, false, true]);
    assert!(!rows[0].valid);
    assert_eq!(rows[0].rlp_tx_member_length, 2);

    let rows =
        generate_rlp_row_witness_new::<Fr>(0, &RlpTxFieldTag::DecodeError, &[], fr(2), 0, None);
    assert_eq!(rows.len(), 1);
    assert!(!rows[0].valid);
    assert_eq!(rows[0].errors, [false; 4]);
}

#[test]
fn blank_rows() {
    let row: RlpDecoderCircuitConfigWitness<Fr> = RlpDecoderCircuitConfigWitness::default();
    assert_eq!(row.tx_member, RlpTxFieldTag::TxListRlpHeader);
    assert_eq!(row.rlp_type, RlpDecodeTypeTag::DoNothing);
    assert_eq!(row.bytes, Vec::<u8>::new());
    assert_eq!((row.complete, row.valid, row.q_enable), (false, false, false));
    assert_eq!(row.clone(), row);
}

#[test]
fn combinations_and_padding() {
    let r = fr(2);
    let mut witness = vec![RlpDecoderCircuitConfigWitness::default()];
    let nonce = RlpTxFieldTag::Nonce;
    witness.append(&mut generate_rlp_row_witness_new(1, &nonce, &[0x82, 1, 2], r, 4, None));
    witness.append(&mut generate_rlp_row_witness_new(1, &nonce, &[7], r, 1, None));
    fixup_acc_rlc_new(&mut witness, r);
    // 0x82 * 4 + 1 * 2 + 2, then that times 2 and 7
    assert_eq!(witness[1].rlc_quotient, fr(524));
    assert_eq!(witness[1].acc_rlc_value, fr(524));
    assert_eq!(witness[2].rlc_quotient, fr(7));
    assert_eq!(witness[2].acc_rlc_value, fr(1055));

    complete_paddings_new(&mut witness, r, 3);
    assert_eq!(witness.len(), 7);
    let marks: Vec<bool> = witness[3..].iter().map(|w| w.q_last).collect();
    assert_eq!(marks, [false, false, true, false]);
    assert!(witness[3..6].iter().all(|w| w.acc_rlc_value == fr(1055) && w.valid));
    assert!(witness[3..6].iter().all(|w| w.tx_member == RlpTxFieldTag::Padding));
    assert_eq!(witness[3].bytes, vec![0u8; 33]);
    assert_eq!(witness[3].r_mult_comp, fr(1 << 33));
    assert_eq!(witness[6], RlpDecoderCircuitConfigWitness::default());
}

#[test]
fn constraints_are_collected() {
    let mut cb: BaseConstraintBuilder<u8> = BaseConstraintBuilder::new();
    cb.require_zero("zero", Expression::cur(1));
    cb.require_equal("equal", Expression::cur(1), Expression::prev(2));
    cb.require_boolean("boolean", Expression::next(3));
    cb.require_equal_if(&Expression::cur(4), "if", Expression::cur(1), Expression::constant(5));
    let gate = cb.gate("all", Expression::cur(9));
    assert_eq!(gate.name, "all");
    let names: Vec<&str> = gate.constraints.iter().map(|c| c.name).collect();
    assert_eq!(names, ["zero", "equal", "boolean", "if"]);
}
