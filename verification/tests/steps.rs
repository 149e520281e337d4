use rlp_circuits::field::{Field, Fr};
use rlp_circuits::rlp_decoder_tables::RlpDecodeRule;
use rlp_circuits::row::RlpDecoderCircuitConfigWitness;
use rlp_circuits::tags::RlpTxFieldTag;

type Witness = Vec<RlpDecoderCircuitConfigWitness<Fr>>;

/// A witness of one row that leaves `remain` bytes over.
fn start(remain: usize) -> Witness {
    let mut row: RlpDecoderCircuitConfigWitness<Fr> = RlpDecoderCircuitConfigWitness::default();
    row.rlp_remain_length = remain;
    vec![row]
}

/// The state, the bytes taken and the rows of one field.
fn check(
    state: RlpTxFieldTag,
    bytes: &[u8],
    rule: RlpDecodeRule,
    next: RlpTxFieldTag,
    remain: usize,
) -> (RlpTxFieldTag, Option<usize>, Witness) {
    let mut witness = start(remain);
    let (after, taken) =
        state.rlp_decode_field_check(bytes, 1, Fr::from_u64(11), &rule, &mut witness, next);
    (after, taken, witness[1..].to_vec())
}

/// The state, the bytes taken and the rows of one step.
fn step(
    state: RlpTxFieldTag,
    bytes: &[u8],
    remain: usize,
) -> (RlpTxFieldTag, Option<usize>, Witness) {
    let mut witness = start(remain);
    let (after, taken) = state.next(0, 1, bytes, Fr::from_u64(11), &mut witness);
    (after, taken, witness[1..].to_vec())
}

fn all_rules() -> Vec<RlpDecodeRule> {
    vec![
        RlpDecodeRule::Padding,
        RlpDecodeRule::Empty,
        RlpDecodeRule::TxType1559,
        RlpDecodeRule::Uint64,
        RlpDecodeRule::Uint96,
        RlpDecodeRule::Uint256,
        RlpDecodeRule::Address,
        RlpDecodeRule::Bytes48K,
        RlpDecodeRule::LongBytes,
        RlpDecodeRule::EmptyList,
        RlpDecodeRule::LongList,
    ]
}

#[test]
fn scalar_128_is_accepted() {
    let (next, taken, rows) = check(
        RlpTxFieldTag::SignR,
        &[0x81, 0x80],
        RlpDecodeRule::Uint256,
        RlpTxFieldTag::SignS,
        2,
    );
    assert_eq!((next, taken), (RlpTxFieldTag::SignS, Some(2)));
    assert_eq!(rows.len(), 1);
    assert_eq!(rows[0].bytes, [0x81, 0x80]);
    assert!(rows[0].valid);
    assert_eq!(rows[0].errors, [false; 4]);
    // a byte below needs no header
    let (next, _, rows) = step(RlpTxFieldTag::SignR, &[0x81, 0x7f], 2);
    assert_eq!(next, RlpTxFieldTag::DecodeError);
    assert_eq!(rows[0].errors, [false, false, true, false]);
}

#[test]
fn end_comes_behind_all_bytes() {
    let mut bytes = vec![0x01];
    bytes.extend(vec![0x02; 32]);
    let (next, taken, rows) = step(RlpTxFieldTag::SignS, &bytes, 33);
    assert_eq!((next, taken), (RlpTxFieldTag::TypedTxHeader, Some(1)));
    assert!(rows[0].valid);
    assert_eq!(rows[0].rlp_remain_length, 32);

    let full = [vec![0xa0], vec![0x02; 32]].concat();
    for last in [vec![0x01], vec![0x80], vec![0x82, 0x12, 0x34], full] {
        let n = last.len();
        let (next, taken, rows) = step(RlpTxFieldTag::SignS, &last, n);
        assert_eq!((next, taken), (RlpTxFieldTag::Padding, Some(n)));
        assert_eq!(rows[0].rlp_remain_length, 0);
        let longer = [last, vec![0x01]].concat();
        let (next, taken, _) = step(RlpTxFieldTag::SignS, &longer, n + 1);
        assert_eq!((next, taken), (RlpTxFieldTag::TypedTxHeader, Some(n)));
    }
    // the fields in front of the last one go on though nothing is left
    let (next, _, _) = step(RlpTxFieldTag::SignR, &[0x01], 1);
    assert_eq!(next, RlpTxFieldTag::SignS);
}

#[test]
fn cut_header_runs_out() {
    let (next, taken, rows) = step(RlpTxFieldTag::TypedTxHeader, &[0xb8], 1);
    assert_eq!((next, taken), (RlpTxFieldTag::DecodeError, Some(1)));
    assert_eq!(rows.len(), 1);
    assert!(!rows[0].valid);
    assert_eq!(rows[0].errors, [false, false, false, true]);
    let (next, taken, rows) = step(RlpTxFieldTag::TypedTxHeader, &[0xba, 1, 2], 3);
    assert_eq!((next, taken), (RlpTxFieldTag::DecodeError, Some(3)));
    assert_eq!(rows[0].errors, [false, false, false, true]);
}

#[test]
fn refused_first_byte_takes_one_byte() {
    for rule in all_rules() {
        // no rule accepts it
        let bytes = [0xff, 1, 2, 3];
        let (next, taken, rows) =
            check(RlpTxFieldTag::Gas, &bytes, rule, RlpTxFieldTag::To, 1);
        assert_eq!((next, taken), (RlpTxFieldTag::DecodeError, Some(1)));
        assert_eq!(rows.len(), 1);
        assert_eq!(rows[0].bytes, [0xff]);
        assert_eq!(rows[0].errors, [true, false, false, false]);
        assert!(!rows[0].valid);
        assert_eq!(rows[0].rlp_remain_length, 0);
    }
}

#[test]
fn no_byte_at_all_runs_out() {
    for rule in all_rules() {
        let (next, taken, rows) = check(RlpTxFieldTag::Gas, &[], rule, RlpTxFieldTag::To, 7);
        assert_eq!((next, taken), (RlpTxFieldTag::DecodeError, Some(0)));
        assert_eq!(rows.len(), 1);
        assert!(rows[0].bytes.is_empty());
        assert_eq!(rows[0].rlp_bytes_in_row, 0);
        assert_eq!(rows[0].errors, [false, false, false, true]);
        assert!(!rows[0].valid);
        assert_eq!(rows[0].rlp_remain_length, 7);
    }
}
