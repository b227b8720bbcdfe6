//! The wire format, stated over the models.
//!
//! A record is: one type byte, a big-endian `u32` key length, the key's UTF-8
//! bytes, a big-endian `u32` payload length, then the payload.
use vstd::prelude::*;
use vstd::utf8::*;
use crate::types::{FieldModel, ValueModel};

verus! {

/// The largest length a record's length fields can hold.
pub const MAX_LEN: u64 = 0xffff_ffff;

pub const CODE_INT32: u8 = 1;
pub const CODE_FLOAT32: u8 = 2;
pub const CODE_BOOL: u8 = 3;
pub const CODE_STRING: u8 = 4;
pub const CODE_BYTES: u8 = 5;
pub const CODE_MESSAGE: u8 = 6;

/// The four big-endian bytes of `n`.
pub open spec fn be32(n: u32) -> Seq<u8> {
    seq![
        (n / 0x100_0000) as u8,
        (n / 0x1_0000 % 0x100) as u8,
        (n / 0x100 % 0x100) as u8,
        (n % 0x100) as u8,
    ]
}

/// The number whose big-endian bytes start `b`.
pub open spec fn read_be32(b: Seq<u8>) -> u32
    recommends
        b.len() >= 4,
{
    (b[0] as int * 0x100_0000 + b[1] as int * 0x1_0000 + b[2] as int * 0x100 + b[3] as int) as u32
}

/// The type byte of a value's kind.
pub open spec fn code_of(v: ValueModel) -> u8 {
    match v {
        ValueModel::Int32(_) => CODE_INT32,
        ValueModel::Float32(_) => CODE_FLOAT32,
        ValueModel::Bool(_) => CODE_BOOL,
        ValueModel::Str(_) => CODE_STRING,
        ValueModel::Bytes(_) => CODE_BYTES,
        ValueModel::Message(_) => CODE_MESSAGE,
    }
}

/// The payload bytes of a value.
pub open spec fn payload_of(v: ValueModel) -> Seq<u8>
    decreases v,
{
    match v {
        ValueModel::Int32(i) => be32(i as u32),
        ValueModel::Float32(bits) => be32(bits),
        ValueModel::Bool(b) => seq![if b { 1u8 } else { 0u8 }],
        ValueModel::Str(s) => encode_utf8(s),
        ValueModel::Bytes(b) => b,
        ValueModel::Message(fs) => encode_all(fs),
    }
}

/// The record that encodes one field.
pub open spec fn encode_record(f: FieldModel) -> Seq<u8>
    decreases f,
{
    let key = encode_utf8(f.key);
    let body = payload_of(f.value);
    seq![code_of(f.value)] + be32(key.len() as u32) + key + be32(body.len() as u32) + body
}

/// The records of a list of fields, one after another.
pub open spec fn encode_all(fs: Seq<FieldModel>) -> Seq<u8>
    decreases fs,
{
    if fs.len() == 0 {
        Seq::empty()
    } else {
        encode_record(fs[0]) + encode_all(fs.skip(1))
    }
}

/// Every length that the field's records write fits in a length field.
pub open spec fn wf_field(f: FieldModel) -> bool
    decreases f,
{
    &&& encode_utf8(f.key).len() <= MAX_LEN
    &&& payload_of(f.value).len() <= MAX_LEN
    &&& match f.value {
        ValueModel::Message(fs) => wf_all(fs),
        _ => true,
    }
}

pub open spec fn wf_all(fs: Seq<FieldModel>) -> bool
    decreases fs,
{
    fs.len() > 0 ==> wf_field(fs[0]) && wf_all(fs.skip(1))
}

/// The parts of the record at the front of `b`: type byte, key bytes and
/// payload, when `b` holds the whole record.
pub open spec fn frame(b: Seq<u8>) -> Option<(u8, Seq<u8>, Seq<u8>)> {
    if b.len() < 5 {
        None
    } else {
        let k = read_be32(b.subrange(1, 5)) as int;
        if b.len() < 9 + k {
            None
        } else {
            let v = read_be32(b.subrange(5 + k, 9 + k)) as int;
            if b.len() < 9 + k + v {
                None
            } else {
                Some((b[0], b.subrange(5, 5 + k), b.subrange(9 + k, 9 + k + v)))
            }
        }
    }
}

/// How many bytes the record at the front of `b` takes.
pub open spec fn record_len(b: Seq<u8>) -> int {
    match frame(b) {
        Some((_, key, body)) => 9 + key.len() + body.len() as int,
        None => 0,
    }
}

/// The field that the record at the front of `b` holds, if it is well formed;
/// bytes after the record are not read.
pub open spec fn parse_field(b: Seq<u8>) -> Option<FieldModel>
    decreases b.len(), 0nat,
{
    match frame(b) {
        None => None,
        Some((code, key, body)) => {
            if !valid_utf8(key) {
                None
            } else {
                match parse_value(code, body) {
                    Some(v) => Some(FieldModel { key: decode_utf8(key), value: v }),
                    None => None,
                }
            }
        },
    }
}

/// The value that a payload of the given type holds, if any.
pub open spec fn parse_value(code: u8, body: Seq<u8>) -> Option<ValueModel>
    decreases body.len(), 2nat,
{
    if code == CODE_INT32 {
        if body.len() == 4 { Some(ValueModel::Int32(read_be32(body) as i32)) } else { None }
    } else if code == CODE_FLOAT32 {
        if body.len() == 4 { Some(ValueModel::Float32(read_be32(body))) } else { None }
    } else if code == CODE_BOOL {
        if body.len() == 1 { Some(ValueModel::Bool(body[0] != 0)) } else { None }
    } else if code == CODE_STRING {
        if valid_utf8(body) { Some(ValueModel::Str(decode_utf8(body))) } else { None }
    } else if code == CODE_BYTES {
        Some(ValueModel::Bytes(body))
    } else if code == CODE_MESSAGE {
        match parse_all(body) {
            Some(fs) => Some(ValueModel::Message(fs)),
            None => None,
        }
    } else {
        None
    }
}

/// The fields of a payload that is a run of whole records, if every one of
/// them is well formed.
pub open spec fn parse_all(b: Seq<u8>) -> Option<Seq<FieldModel>>
    decreases b.len(), 1nat,
{
    if b.len() == 0 {
        Some(Seq::empty())
    } else {
        match frame(b) {
            None => None,
            Some((_, key, body)) => match parse_field(b) {
                None => None,
                Some(f) => match parse_all(b.skip(9 + key.len() + body.len() as int)) {
                    Some(rest) => Some(seq![f] + rest),
                    None => None,
                },
            },
        }
    }
}

} // verus!

verus! {

/// The models of a list of fields line up one for one with the fields.
pub proof fn lemma_fields_model(s: Seq<crate::types::Field>)
    ensures
        crate::types::fields_model(s).len() == s.len(),
        forall|i: int|
            0 <= i < s.len() ==> #[trigger] crate::types::fields_model(s)[i]
                == crate::types::field_model(s[i]),
    decreases s.len(),
{
    if s.len() > 0 {
        lemma_fields_model(s.skip(1));
        assert forall|i: int| 0 <= i < s.len() implies #[trigger] crate::types::fields_model(s)[i]
            == crate::types::field_model(s[i]) by {
            if i > 0 {
                assert(s.skip(1)[i - 1] == s[i]);
            }
        }
    }
}

/// Encoding a list with one more field appends that field's record.
pub proof fn lemma_encode_all_push(fs: Seq<FieldModel>, f: FieldModel)
    ensures
        encode_all(fs.push(f)) == encode_all(fs) + encode_record(f),
    decreases fs.len(),
{
    if fs.len() == 0 {
        assert(fs.push(f).skip(1) =~= Seq::<FieldModel>::empty());
        assert(fs.push(f)[0] == f);
        assert(encode_all(Seq::<FieldModel>::empty()) =~= Seq::<u8>::empty());
        assert(encode_all(fs.push(f)) =~= encode_record(f));
        assert(encode_all(fs) =~= Seq::<u8>::empty());
    } else {
        assert(fs.push(f).skip(1) =~= fs.skip(1).push(f));
        lemma_encode_all_push(fs.skip(1), f);
        assert(encode_all(fs.push(f)) =~= encode_all(fs) + encode_record(f));
    }
}

} // verus!
