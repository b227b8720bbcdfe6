//! What holds of the encoder and the decoder together.
use vstd::prelude::*;
use vstd::utf8::*;
use crate::bytes::lemma_read_be32;
use crate::format::{
    be32, code_of, encode_all, encode_record, frame, parse_all, parse_field, parse_value,
    payload_of, record_len, wf_all, wf_field, MAX_LEN, CODE_MESSAGE, CODE_STRING,
};
use crate::types::{FieldModel, ValueModel};

verus! {

broadcast use encode_utf8_valid_utf8, encode_utf8_decode_utf8, decode_utf8_encode_utf8;

/// A record is self-delimiting: decoding the record of a well-formed field,
/// with any bytes after it, gives the field back and takes exactly the
/// record's bytes.
pub proof fn lemma_self_delimiting(f: FieldModel, rest: Seq<u8>)
    requires
        wf_field(f),
    ensures
        parse_field(encode_record(f) + rest) == Some(f),
        record_len(encode_record(f) + rest) == encode_record(f).len(),
    decreases f,
{
    let key = encode_utf8(f.key);
    let body = payload_of(f.value);
    let k = key.len() as int;
    let v = body.len() as int;
    let b = encode_record(f) + rest;
    assert(b.subrange(1, 5) =~= be32(k as u32));
    lemma_read_be32(k as u32);
    assert(b.subrange(5 + k, 9 + k) =~= be32(v as u32));
    lemma_read_be32(v as u32);
    assert(b.subrange(5, 5 + k) =~= key);
    assert(b.subrange(9 + k, 9 + k + v) =~= body);
    assert(frame(b) == Some((code_of(f.value), key, body)));
    lemma_parse_payload(f.value);
}

/// The payload of a value decodes, under that value's type byte, to the value.
proof fn lemma_parse_payload(v: ValueModel)
    requires
        payload_of(v).len() <= MAX_LEN,
        v matches ValueModel::Message(fs) ==> wf_all(fs),
    ensures
        parse_value(code_of(v), payload_of(v)) == Some(v),
    decreases v,
{
    match v {
        ValueModel::Int32(i) => {
            lemma_read_be32(i as u32);
            assert((i as u32) as i32 == i) by (bit_vector);
        },
        ValueModel::Float32(bits) => {
            lemma_read_be32(bits);
        },
        ValueModel::Message(fs) => {
            lemma_parse_all_encode_all(fs);
        },
        _ => {},
    }
}

/// The records of a well-formed list of fields decode to that list.
pub proof fn lemma_parse_all_encode_all(fs: Seq<FieldModel>)
    requires
        wf_all(fs),
    ensures
        parse_all(encode_all(fs)) == Some(fs),
    decreases fs,
{
    if fs.len() == 0 {
        assert(fs =~= Seq::<FieldModel>::empty());
    } else {
        let rest = encode_all(fs.skip(1));
        let b = encode_record(fs[0]) + rest;
        lemma_self_delimiting(fs[0], rest);
        lemma_parse_all_encode_all(fs.skip(1));
        assert(b.skip(record_len(b)) =~= rest);
        assert(seq![fs[0]] + fs.skip(1) =~= fs);
    }
}

/// Decoding the record of a well-formed field gives the field back.
pub proof fn lemma_round_trip(f: FieldModel)
    requires
        wf_field(f),
    ensures
        parse_field(encode_record(f)) == Some(f),
{
    lemma_self_delimiting(f, Seq::empty());
    assert(encode_record(f) + Seq::empty() =~= encode_record(f));
}

/// Every proper prefix of a well-formed field's record fails to decode.
pub proof fn lemma_truncation_fails(f: FieldModel, p: int)
    requires
        wf_field(f),
        0 <= p < encode_record(f).len(),
    ensures
        parse_field(encode_record(f).take(p)) is None,
{
    let key = encode_utf8(f.key);
    let body = payload_of(f.value);
    let k = key.len() as int;
    let b = encode_record(f).take(p);
    if p >= 5 {
        assert(b.subrange(1, 5) =~= be32(k as u32));
        lemma_read_be32(k as u32);
        if p >= 9 + k {
            assert(b.subrange(5 + k, 9 + k) =~= be32(body.len() as u32));
            lemma_read_be32(body.len() as u32);
        }
    }
    assert(frame(b) is None);
}

/// A string record whose payload is the single byte 0xff, which is not
/// UTF-8, fails to decode, whatever its key and whatever follows it.
pub proof fn lemma_invalid_utf8_string(key: Seq<u8>, rest: Seq<u8>)
    requires
        key.len() <= MAX_LEN,
    ensures
        parse_field(
            seq![CODE_STRING] + be32(key.len() as u32) + key + be32(1) + seq![0xffu8] + rest,
        ) is None,
{
    let k = key.len() as int;
    let body = seq![0xffu8];
    let b = seq![CODE_STRING] + be32(k as u32) + key + be32(1) + body + rest;
    assert(b.subrange(1, 5) =~= be32(k as u32));
    lemma_read_be32(k as u32);
    assert(b.subrange(5 + k, 9 + k) =~= be32(1));
    lemma_read_be32(1);
    assert(b.subrange(5, 5 + k) =~= key);
    assert(b.subrange(9 + k, 10 + k) =~= body);
    assert(frame(b) == Some((CODE_STRING, key, body)));
    assert(!valid_first_scalar(body));
    assert(!valid_utf8(body));
}

/// A record whose type byte names no value kind fails to decode, whatever
/// the rest of it holds.
pub proof fn lemma_unknown_code(b: Seq<u8>)
    requires
        b.len() > 0,
        b[0] == 0 || b[0] > CODE_MESSAGE,
    ensures
        parse_field(b) is None,
{
}

/// A decoded field is well formed, and its own record is exactly as long as
/// the bytes that the decoder took for it.
pub proof fn lemma_decoded_len(b: Seq<u8>)
    requires
        parse_field(b) is Some,
    ensures
        wf_field(parse_field(b)->0),
        encode_record(parse_field(b)->0).len() == record_len(b),
    decreases b.len(), 0nat,
{
    let (code, key, body) = frame(b)->0;
    let f = parse_field(b)->0;
    if code == CODE_MESSAGE {
        lemma_decoded_all_len(body);
    }
    assert(encode_utf8(f.key) == key);
    assert(payload_of(f.value).len() == body.len());
}

/// The fields that a run of records decodes to are well formed, and their
/// records take exactly the bytes of the run.
pub proof fn lemma_decoded_all_len(b: Seq<u8>)
    requires
        parse_all(b) is Some,
    ensures
        wf_all(parse_all(b)->0),
        encode_all(parse_all(b)->0).len() == b.len(),
    decreases b.len(), 1nat,
{
    if b.len() > 0 {
        let (_, key, body) = frame(b)->0;
        let n = 9 + key.len() + body.len() as int;
        let fs = parse_all(b)->0;
        lemma_decoded_len(b);
        lemma_decoded_all_len(b.skip(n));
        assert(fs.skip(1) =~= parse_all(b.skip(n))->0);
    }
}

} // verus!
