use plugin_boundary::marshal::{encode, decode, MarshalError};
use plugin_boundary::value::Value;

fn enc_bytes(v: &Value) -> Vec<u8> {
    encode(v)
}

fn assert_round_trip(v: &Value) {
    let wire = encode(v);
    let back = decode(&wire).expect("decoding an encoding must succeed");
    assert_eq!(enc_bytes(&back), wire, "re-encoding the decoded value must give the same bytes");
}

#[test]
fn round_trip_integers() {
    for v in [0i64, 1, -1, 7, 42, -42, 1000, i64::MAX, i64::MIN, i64::MAX - 1, i64::MIN + 1] {
        assert_round_trip(&Value::Int(v));
    }
}

#[test]
fn round_trip_booleans() {
    assert_round_trip(&Value::Bool(true));
    assert_round_trip(&Value::Bool(false));
}

#[test]
fn round_trip_texts() {
    assert_round_trip(&Value::Text(Vec::new()));
    assert_round_trip(&Value::Text(b"hello".to_vec()));
    assert_round_trip(&Value::Text(b"12:34;tf".to_vec()));
    assert_round_trip(&Value::Text(vec![0u8, 255u8, 10u8]));
}

#[test]
fn round_trip_lists_and_records() {
    assert_round_trip(&Value::List(Vec::new()));
    assert_round_trip(&Value::List(vec![
        Value::Int(1),
        Value::Bool(false),
        Value::Text(b"x".to_vec()),
    ]));
    assert_round_trip(&Value::Record(vec![
        (b"success".to_vec(), Value::Bool(true)),
        (b"count".to_vec(), Value::Int(-3)),
    ]));
    assert_round_trip(&Value::List(vec![
        Value::Record(vec![(b"inner".to_vec(), Value::List(vec![Value::Int(9)]))]),
        Value::Text(Vec::new()),
    ]));
}

#[test]
fn encoding_is_exact() {
    assert_eq!(encode(&Value::Int(42)), b"i42;".to_vec());
    assert_eq!(encode(&Value::Int(-7)), b"i-7;".to_vec());
    assert_eq!(encode(&Value::Int(0)), b"i0;".to_vec());
    assert_eq!(encode(&Value::Bool(true)), b"t".to_vec());
    assert_eq!(encode(&Value::Bool(false)), b"f".to_vec());
    assert_eq!(encode(&Value::Text(b"hi".to_vec())), b"s2:hi".to_vec());
    assert_eq!(
        encode(&Value::List(vec![Value::Int(1), Value::Bool(true)])),
        b"l2:i1;t".to_vec()
    );
    assert_eq!(
        encode(&Value::Record(vec![(b"ok".to_vec(), Value::Bool(false))])),
        b"r1:s2:okf".to_vec()
    );
}

#[test]
fn decode_rejects_empty_input() {
    assert!(matches!(decode(&Vec::new()), Err(MarshalError::Truncated)));
}

#[test]
fn decode_rejects_unknown_tag() {
    assert!(matches!(decode(&b"x".to_vec()), Err(MarshalError::BadSyntax)));
}

#[test]
fn decode_rejects_missing_digits() {
    assert!(matches!(decode(&b"i;".to_vec()), Err(MarshalError::BadSyntax)));
    assert!(matches!(decode(&b"s:ab".to_vec()), Err(MarshalError::BadSyntax)));
}

#[test]
fn decode_rejects_leading_zero() {
    assert!(decode(&b"i042;".to_vec()).is_err());
}

#[test]
fn decode_rejects_truncated_text() {
    assert!(matches!(decode(&b"s5:ab".to_vec()), Err(MarshalError::Truncated)));
}

#[test]
fn decode_rejects_trailing_bytes() {
    assert!(matches!(decode(&b"i1;i2;".to_vec()), Err(MarshalError::TrailingBytes)));
}

#[test]
fn decode_rejects_out_of_range_integer() {
    assert!(matches!(
        decode(&b"i9223372036854775808;".to_vec()),
        Err(MarshalError::IntOutOfRange)
    ));
    assert!(matches!(
        decode(&b"i99999999999999999999999999;".to_vec()),
        Err(MarshalError::IntOutOfRange)
    ));
    let min = decode(&b"i-9223372036854775808;".to_vec()).expect("the least integer fits");
    assert!(matches!(min, Value::Int(i64::MIN)));
}

#[test]
fn decode_rejects_truncated_list() {
    assert!(decode(&b"l3:i1;".to_vec()).is_err());
    assert!(decode(&b"r1:s2:ok".to_vec()).is_err());
}

#[test]
fn decode_accepts_nested_structures() {
    let v = decode(&b"l2:r1:s1:ai5;f".to_vec()).expect("well-formed input");
    match v {
        Value::List(items) => {
            assert_eq!(items.len(), 2);
            assert!(matches!(items[1], Value::Bool(false)));
            match &items[0] {
                Value::Record(fields) => {
                    assert_eq!(fields.len(), 1);
                    assert_eq!(fields[0].0, b"a".to_vec());
                    assert!(matches!(fields[0].1, Value::Int(5)));
                },
                _ => panic!("expected a record"),
            }
        },
        _ => panic!("expected a list"),
    }
}
