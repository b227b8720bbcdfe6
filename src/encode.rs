//! The encoder: a field to the bytes of its record.
use vstd::prelude::*;
use crate::bytes::{append_bytes, push_be32};
use crate::format::{
    encode_all, encode_record, lemma_encode_all_push, lemma_fields_model, payload_of, CODE_BOOL,
    CODE_BYTES, CODE_FLOAT32, CODE_INT32, CODE_MESSAGE, CODE_STRING,
};
use crate::types::{field_model, fields_model, Field, FieldModel, Value};

verus! {

broadcast use vstd::std_specs::vec::group_vec_axioms;

/// The record of one field: type byte, key length, key, payload length and
/// payload, where a message's payload is the records of its fields in order.
/// A length past `u32::MAX` is written modulo 2^32; the decoder gives back
/// exactly the fields whose lengths all fit (`wf_field`).
pub fn encode_field(field: &Field) -> (r: Vec<u8>)
    ensures
        r@ == encode_record(field@),
    decreases field,
{
    let mut out: Vec<u8> = Vec::new();
    let code: u8 = match &field.value {
        Value::Int32(_) => CODE_INT32,
        Value::Float32(_) => CODE_FLOAT32,
        Value::Bool(_) => CODE_BOOL,
        Value::String(_) => CODE_STRING,
        Value::Bytes(_) => CODE_BYTES,
        Value::Message(_) => CODE_MESSAGE,
    };
    out.push(code);
    let key = field.key.as_str().as_bytes();
    push_be32(&mut out, key.len() as u32);
    append_bytes(&mut out, key);
    let body = encode_value(&field.value);
    push_be32(&mut out, body.len() as u32);
    append_bytes(&mut out, body.as_slice());
    assert(out@ =~= encode_record(field@));
    out
}

/// The payload bytes of a value.
fn encode_value(v: &Value) -> (r: Vec<u8>)
    ensures
        r@ == payload_of(v@),
    decreases v,
{
    let mut out: Vec<u8> = Vec::new();
    match v {
        Value::Int32(i) => push_be32(&mut out, *i as u32),
        Value::Float32(bits) => push_be32(&mut out, *bits),
        Value::Bool(b) => out.push(if *b { 1u8 } else { 0u8 }),
        Value::String(s) => append_bytes(&mut out, s.as_str().as_bytes()),
        Value::Bytes(b) => append_bytes(&mut out, b.as_slice()),
        Value::Message(fs) => {
            out = encode_fields(fs);
        },
    }
    assert(out@ =~= payload_of(v@));
    out
}

/// The records of `fields`, one after another.
fn encode_fields(fields: &Vec<Field>) -> (r: Vec<u8>)
    ensures
        r@ == encode_all(fields_model(fields@)),
    decreases fields,
{
    let ghost fs = fields_model(fields@);
    proof {
        lemma_fields_model(fields@);
    }
    let mut out: Vec<u8> = Vec::new();
    let mut i: usize = 0;
    assert(fs.take(0) =~= Seq::<FieldModel>::empty());
    while i < fields.len()
        invariant
            i <= fields@.len(),
            fs.len() == fields@.len(),
            fs == fields_model(fields@),
            forall|j: int| 0 <= j < fs.len() ==> #[trigger] fs[j] == field_model(fields@[j]),
            out@ == encode_all(fs.take(i as int)),
        decreases fields@.len() - i,
    {
        let rec = encode_field(&fields[i]);
        proof {
            lemma_encode_all_push(fs.take(i as int), fs[i as int]);
            assert(fs.take(i as int).push(fs[i as int]) =~= fs.take(i + 1));
        }
        append_bytes(&mut out, rec.as_slice());
        i += 1;
    }
    assert(fs.take(i as int) =~= fs);
    out
}

} // verus!
