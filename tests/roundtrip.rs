use field_codec::{decode_field, encode_field, Field, Value};

fn field(key: &str, value: Value) -> Field {
    Field { key: key.to_string(), value }
}

#[test]
fn int_roundtrip() {
    let f = Field { key: "age".into(), value: Value::Int32(42) };
    let enc = encode_field(&f);
    let dec = decode_field(&enc).unwrap();
    assert_eq!(f, dec);
}

#[test]
fn string_roundtrip() {
    let f = Field { key: "name".into(), value: Value::String("Rust".into()) };
    let enc = encode_field(&f);
    let dec = decode_field(&enc).unwrap();
    assert_eq!(f, dec);
}

#[test]
fn int_record_has_exact_bytes() {
    let f = field("age", Value::Int32(42));
    let enc = encode_field(&f);
    assert_eq!(enc, vec![1, 0, 0, 0, 3, b'a', b'g', b'e', 0, 0, 0, 4, 0, 0, 0, 42]);
    assert_eq!(decode_field(&enc), Some(f));
}

#[test]
fn negative_int_is_twos_complement() {
    let f = field("n", Value::Int32(-2));
    let enc = encode_field(&f);
    assert_eq!(&enc[6..], &[0, 0, 0, 4, 0xff, 0xff, 0xff, 0xfe]);
    assert_eq!(decode_field(&enc), Some(f));
}

#[test]
fn extreme_ints_roundtrip() {
    for n in [i32::MIN, -1, 0, 1, i32::MAX] {
        let f = field("k", Value::Int32(n));
        assert_eq!(decode_field(&encode_field(&f)), Some(f));
    }
}

#[test]
fn nested_message_roundtrip() {
    let inner = field("x", Value::Bool(true));
    let f = field("", Value::Message(vec![inner]));
    let enc = encode_field(&f);
    let dec = decode_field(&enc).unwrap();
    assert_eq!(dec.key, "");
    match &dec.value {
        Value::Message(fs) => {
            assert_eq!(fs.len(), 1);
            assert_eq!(fs[0], field("x", Value::Bool(true)));
        }
        other => panic!("expected a message, got {:?}", other),
    }
    assert_eq!(dec, f);
}

#[test]
fn message_payload_is_concatenated_records() {
    let a = field("a", Value::Bool(false));
    let b = field("b", Value::Int32(7));
    let ea = encode_field(&a);
    let eb = encode_field(&b);
    let f = field("m", Value::Message(vec![a, b]));
    let enc = encode_field(&f);
    let body_len = (ea.len() + eb.len()) as u32;
    let mut expected = vec![6, 0, 0, 0, 1, b'm'];
    expected.extend_from_slice(&body_len.to_be_bytes());
    expected.extend_from_slice(&ea);
    expected.extend_from_slice(&eb);
    assert_eq!(enc, expected);
    assert_eq!(decode_field(&enc), Some(f));
}

#[test]
fn deep_and_mixed_message_roundtrip() {
    let leaf = field("leaf", Value::Bytes(vec![0, 255, 7]));
    let mid = field("mid", Value::Message(vec![leaf, field("s", Value::String("héllo".into()))]));
    let f = field("top", Value::Message(vec![mid, field("e", Value::Message(vec![]))]));
    assert_eq!(decode_field(&encode_field(&f)), Some(f));
}

#[test]
fn float_bits_roundtrip() {
    let bits = 1.5f32.to_bits();
    let f = field("pi", Value::Float32(bits));
    let enc = encode_field(&f);
    assert_eq!(enc[0], 2);
    assert_eq!(&enc[7..], &[0, 0, 0, 4, 0x3f, 0xc0, 0, 0]);
    let dec = decode_field(&enc).unwrap();
    assert_eq!(dec, f);
    match dec.value {
        Value::Float32(b) => assert_eq!(f32::from_bits(b), 1.5f32),
        other => panic!("expected a float, got {:?}", other),
    }
}

#[test]
fn empty_values_roundtrip() {
    for v in [Value::String(String::new()), Value::Bytes(vec![]), Value::Message(vec![])] {
        let f = field("", v);
        let enc = encode_field(&f);
        assert_eq!(enc.len(), 9);
        assert_eq!(decode_field(&enc), Some(f));
    }
}

#[test]
fn key_length_counts_bytes_not_chars() {
    let f = field("ключ", Value::Bool(false));
    let enc = encode_field(&f);
    assert_eq!(&enc[1..5], &[0, 0, 0, 8]);
    assert_eq!(decode_field(&enc), Some(f));
}
