use field_codec::{decode_field, encode_field, Field, Value};

fn field(key: &str, value: Value) -> Field {
    Field { key: key.to_string(), value }
}

fn record(code: u8, key: &[u8], body: &[u8]) -> Vec<u8> {
    let mut out = vec![code];
    out.extend_from_slice(&(key.len() as u32).to_be_bytes());
    out.extend_from_slice(key);
    out.extend_from_slice(&(body.len() as u32).to_be_bytes());
    out.extend_from_slice(body);
    out
}

#[test]
fn trailing_bytes_are_ignored() {
    let f = field("name", Value::String("Rust".into()));
    let mut enc = encode_field(&f);
    enc.extend_from_slice(&[9, 9, 0xff, 0, 1]);
    assert_eq!(decode_field(&enc), Some(f));
}

#[test]
fn every_proper_prefix_fails() {
    let f = field(
        "m",
        Value::Message(vec![field("x", Value::Bool(true)), field("y", Value::Bytes(vec![1, 2]))]),
    );
    let enc = encode_field(&f);
    for p in 0..enc.len() {
        assert_eq!(decode_field(&enc[..p]), None, "prefix of length {}", p);
    }
    assert_eq!(decode_field(&enc), Some(f));
}

#[test]
fn empty_input_fails() {
    assert_eq!(decode_field(&[]), None);
}

#[test]
fn invalid_utf8_string_fails() {
    assert_eq!(decode_field(&record(4, b"s", &[0xff])), None);
    assert_eq!(decode_field(&record(4, b"", &[0xff])), None);
}

#[test]
fn invalid_utf8_bytes_value_is_kept() {
    let dec = decode_field(&record(5, b"b", &[0xff])).unwrap();
    assert_eq!(dec, field("b", Value::Bytes(vec![0xff])));
}

#[test]
fn invalid_utf8_key_fails() {
    assert_eq!(decode_field(&record(3, &[0xc3], &[1])), None);
}

#[test]
fn unknown_type_code_fails() {
    assert_eq!(decode_field(&record(9, b"k", &[0, 0, 0, 1])), None);
    assert_eq!(decode_field(&record(0, b"k", &[0, 0, 0, 1])), None);
    assert_eq!(decode_field(&record(7, b"k", &[])), None);
}

#[test]
fn fixed_width_mismatch_fails() {
    assert_eq!(decode_field(&record(1, b"i", &[0, 0, 1])), None);
    assert_eq!(decode_field(&record(1, b"i", &[0, 0, 0, 0, 1])), None);
    assert_eq!(decode_field(&record(2, b"f", &[0, 0, 0])), None);
    assert_eq!(decode_field(&record(3, b"b", &[])), None);
    assert_eq!(decode_field(&record(3, b"b", &[1, 1])), None);
}

#[test]
fn any_nonzero_bool_byte_is_true() {
    assert_eq!(decode_field(&record(3, b"b", &[7])), Some(field("b", Value::Bool(true))));
    assert_eq!(decode_field(&record(3, b"b", &[0])), Some(field("b", Value::Bool(false))));
}

#[test]
fn length_past_end_fails() {
    let mut bytes = record(5, b"k", &[1, 2, 3]);
    bytes[9] = 4;
    assert_eq!(decode_field(&bytes), None);
    let mut bytes = record(5, b"k", &[1, 2, 3]);
    bytes[4] = 200;
    assert_eq!(decode_field(&bytes), None);
}

#[test]
fn bad_nested_record_fails_whole_message() {
    let good = record(3, b"x", &[1]);
    let bad = record(9, b"y", &[1]);
    let mut body = good.clone();
    body.extend_from_slice(&bad);
    assert_eq!(decode_field(&record(6, b"m", &body)), None);
    let mut body = good.clone();
    body.extend_from_slice(&[3, 0]);
    assert_eq!(decode_field(&record(6, b"m", &body)), None);
    assert_eq!(
        decode_field(&record(6, b"m", &good)),
        Some(field("m", Value::Message(vec![field("x", Value::Bool(true))])))
    );
}

#[test]
fn reencoded_length_matches_consumed_bytes() {
    let mut bytes = record(3, b"b", &[7]);
    let consumed = bytes.len();
    bytes.extend_from_slice(&[1, 2, 3]);
    let dec = decode_field(&bytes).unwrap();
    let again = encode_field(&dec);
    assert_eq!(again.len(), consumed);
    assert_eq!(again, record(3, b"b", &[1]));
}
