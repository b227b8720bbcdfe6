use vstd::prelude::*;

verus! {

/// The value kinds a field can carry.
///
/// `Float32` holds the IEEE-754 bit pattern of a 32-bit float
/// (what `f32::to_bits` gives and `f32::from_bits` takes back).
#[derive(Debug, PartialEq, Eq)]
pub enum Value {
    Int32(i32),
    Float32(u32),
    Bool(bool),
    String(String),
    Bytes(Vec<u8>),
    Message(Vec<Field>),
}

/// A key together with its value.
#[derive(Debug, PartialEq, Eq)]
pub struct Field {
    pub key: String,
    pub value: Value,
}

/// The mathematical content of a `Value`.
pub enum ValueModel {
    Int32(i32),
    Float32(u32),
    Bool(bool),
    Str(Seq<char>),
    Bytes(Seq<u8>),
    Message(Seq<FieldModel>),
}

/// The mathematical content of a `Field`.
pub struct FieldModel {
    pub key: Seq<char>,
    pub value: ValueModel,
}

pub open spec fn value_model(v: Value) -> ValueModel
    decreases v,
{
    match v {
        Value::Int32(i) => ValueModel::Int32(i),
        Value::Float32(bits) => ValueModel::Float32(bits),
        Value::Bool(b) => ValueModel::Bool(b),
        Value::String(s) => ValueModel::Str(s@),
        Value::Bytes(b) => ValueModel::Bytes(b@),
        Value::Message(fs) => ValueModel::Message(fields_model(fs@)),
    }
}

pub open spec fn field_model(f: Field) -> FieldModel
    decreases f,
{
    FieldModel { key: f.key@, value: value_model(f.value) }
}

pub open spec fn fields_model(fs: Seq<Field>) -> Seq<FieldModel>
    decreases fs,
{
    if fs.len() == 0 {
        Seq::empty()
    } else {
        seq![field_model(fs[0])] + fields_model(fs.skip(1))
    }
}

impl View for Value {
    type V = ValueModel;

    open spec fn view(&self) -> ValueModel {
        value_model(*self)
    }
}

impl View for Field {
    type V = FieldModel;

    open spec fn view(&self) -> FieldModel {
        field_model(*self)
    }
}

} // verus!

verus! {

/// The model of a list with one more field has that field's model at its end.
pub proof fn lemma_fields_model_push(s: Seq<Field>, f: Field)
    ensures
        fields_model(s.push(f)) == fields_model(s).push(field_model(f)),
    decreases s.len(),
{
    if s.len() == 0 {
        assert(s.push(f).skip(1) =~= Seq::<Field>::empty());
        assert(s.push(f)[0] == f);
        assert(fields_model(Seq::<Field>::empty()) =~= Seq::<FieldModel>::empty());
        assert(fields_model(s.push(f)) =~= fields_model(s).push(field_model(f)));
    } else {
        assert(s.push(f).skip(1) =~= s.skip(1).push(f));
        lemma_fields_model_push(s.skip(1), f);
        assert(fields_model(s.push(f)) =~= fields_model(s).push(field_model(f)));
    }
}

} // verus!
