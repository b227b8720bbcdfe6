//! The decoder: the bytes of a record back to a field.
use vstd::prelude::*;
use crate::bytes::{copy_range, get_be32, string_from_utf8};
use crate::format::{
    frame, parse_all, parse_field, parse_value, record_len, CODE_BOOL, CODE_BYTES,
    CODE_FLOAT32, CODE_INT32, CODE_MESSAGE, CODE_STRING,
};
use crate::types::{field_model, fields_model, lemma_fields_model_push, Field, FieldModel, Value};

verus! {

/// Decodes the one record at the front of `data`; bytes after it are not
/// read. Gives `None` when the record is cut short, a length field runs past
/// the end, the key or a string payload is not UTF-8, the type byte is
/// unknown, a fixed-width payload has the wrong length, or a message payload
/// is not a run of well-formed records.
pub fn decode_field(data: &[u8]) -> (r: Option<Field>)
    ensures
        match r {
            Some(f) => parse_field(data@) == Some(f@),
            None => parse_field(data@) is None,
        },
{
    assert(data@.subrange(0, data@.len() as int) =~= data@);
    match decode_record(data, 0, data.len()) {
        Some((f, _)) => Some(f),
        None => None,
    }
}

/// Decodes the record at the front of `data[start..end]`, with the number of
/// bytes it takes.
pub fn decode_record(data: &[u8], start: usize, end: usize) -> (r: Option<(Field, usize)>)
    requires
        start <= end <= data@.len(),
    ensures
        match r {
            Some((f, n)) => {
                &&& parse_field(data@.subrange(start as int, end as int)) == Some(f@)
                &&& n == record_len(data@.subrange(start as int, end as int))
            },
            None => parse_field(data@.subrange(start as int, end as int)) is None,
        },
    decreases end - start, 0nat,
{
    let ghost b = data@.subrange(start as int, end as int);
    if end - start < 5 {
        return None;
    }
    assert(b.subrange(1, 5) =~= data@.subrange(start + 1, start + 5));
    let k = get_be32(data, start + 1) as usize;
    if end - start - 5 < k || end - start - 5 - k < 4 {
        return None;
    }
    let key_start = start + 5;
    let key_end = key_start + k;
    assert(b.subrange(5 + k, 9 + k) =~= data@.subrange(key_end as int, key_end + 4));
    let v = get_be32(data, key_end) as usize;
    if end - key_end - 4 < v {
        return None;
    }
    let body_start = key_end + 4;
    let body_end = body_start + v;
    let ghost key_seq = b.subrange(5, 5 + k);
    let ghost body = b.subrange(9 + k, 9 + k + v);
    assert(key_seq =~= data@.subrange(key_start as int, key_end as int));
    assert(body =~= data@.subrange(body_start as int, body_end as int));
    assert(frame(b) == Some((data[start as int], key_seq, body)));
    let key = match string_from_utf8(copy_range(data, key_start, key_end)) {
        Some(s) => s,
        None => return None,
    };
    let code = data[start];
    let value = if code == CODE_INT32 || code == CODE_FLOAT32 {
        if v != 4 {
            return None;
        }
        let n = get_be32(data, body_start);
        if code == CODE_INT32 {
            Value::Int32(n as i32)
        } else {
            Value::Float32(n)
        }
    } else if code == CODE_BOOL {
        if v != 1 {
            return None;
        }
        Value::Bool(data[body_start] != 0)
    } else if code == CODE_STRING {
        match string_from_utf8(copy_range(data, body_start, body_end)) {
            Some(s) => Value::String(s),
            None => return None,
        }
    } else if code == CODE_BYTES {
        Value::Bytes(copy_range(data, body_start, body_end))
    } else if code == CODE_MESSAGE {
        match decode_fields(data, body_start, body_end) {
            Some(fs) => Value::Message(fs),
            None => return None,
        }
    } else {
        return None;
    };
    assert(parse_value(code, body) == Some(value@));
    let f = Field { key, value };
    Some((f, body_end - start))
}

/// Decodes `data[start..end]` as a run of whole records, failing if any of
/// them fails.
fn decode_fields(data: &[u8], start: usize, end: usize) -> (r: Option<Vec<Field>>)
    requires
        start <= end <= data@.len(),
    ensures
        match r {
            Some(fs) => parse_all(data@.subrange(start as int, end as int)) == Some(
                fields_model(fs@),
            ),
            None => parse_all(data@.subrange(start as int, end as int)) is None,
        },
    decreases end - start, 1nat,
{
    let mut acc: Vec<Field> = Vec::new();
    let mut pos: usize = start;
    assert(fields_model(acc@) =~= Seq::<FieldModel>::empty());
    assert(data@.subrange(start as int, end as int) =~= data@.subrange(pos as int, end as int));
    while pos < end
        invariant
            start <= pos <= end <= data@.len(),
            parse_all(data@.subrange(start as int, end as int)) is Some <==> parse_all(
                data@.subrange(pos as int, end as int),
            ) is Some,
            parse_all(data@.subrange(pos as int, end as int)) matches Some(rest) ==> parse_all(
                data@.subrange(start as int, end as int),
            ) == Some(fields_model(acc@) + rest),
        decreases end - pos,
    {
        let ghost b = data@.subrange(pos as int, end as int);
        match decode_record(data, pos, end) {
            Some((f, n)) => {
                proof {
                    assert(b.skip(n as int) =~= data@.subrange(pos + n, end as int));
                    lemma_fields_model_push(acc@, f);
                    let m = field_model(f);
                    assert(fields_model(acc@).push(m) + Seq::empty() =~= fields_model(acc@)
                        + seq![m] + Seq::empty());
                    if let Some(rest) = parse_all(data@.subrange(pos + n, end as int)) {
                        assert(fields_model(acc@) + (seq![m] + rest) =~= fields_model(
                            acc@.push(f),
                        ) + rest);
                    }
                }
                acc.push(f);
                pos = pos + n;
            },
            None => {
                return None;
            },
        }
    }
    assert(fields_model(acc@) + Seq::empty() =~= fields_model(acc@));
    Some(acc)
}

} // verus!
