//! The wire-protocol value model: a tagged union covering every variant the
//! remote management API can send or receive, together with its mathematical
//! model used in contracts.

use vstd::prelude::*;

verus! {

broadcast use {vstd::seq::group_seq_axioms, vstd::std_specs::vec::group_vec_axioms};

/// A wire-protocol value.
///
/// Each value exclusively owns its children, so a `Value` is always a finite
/// tree.  A `Float64` carries the IEEE-754 bit pattern of the double, so that
/// finiteness can be decided by integer arithmetic alone; a `DateTime`
/// carries the human-readable rendering of the timestamp, which is all this
/// library ever reads of it.  A `Struct` keeps its fields as an ordered list
/// of `(name, value)` pairs, preserving insertion order; the wire protocol
/// keeps field names unique.
pub enum Value {
    Bool(bool),
    Int32(i32),
    Int64(i64),
    /// IEEE-754 binary64 bit pattern.
    Float64(u64),
    Str(String),
    /// The rendered form of a wire timestamp.
    DateTime(String),
    /// A binary blob.
    Binary(Vec<u8>),
    /// An ordered sequence of values.
    Array(Vec<Value>),
    /// An ordered field map.
    Struct(Vec<(String, Value)>),
    Null,
}

/// The mathematical model of a [`Value`]: the same tree over `Seq` instead
/// of `Vec` and `Seq<char>` instead of `String`.
pub enum ValueModel {
    Bool(bool),
    Int32(i32),
    Int64(i64),
    Float64(u64),
    Str(Seq<char>),
    DateTime(Seq<char>),
    Binary(Seq<u8>),
    Array(Seq<ValueModel>),
    Struct(Seq<(Seq<char>, ValueModel)>),
    Null,
}

impl Value {
    /// The mathematical model of this value.
    pub open spec fn model(self) -> ValueModel
        decreases self,
    {
        match self {
            Value::Bool(b) => ValueModel::Bool(b),
            Value::Int32(i) => ValueModel::Int32(i),
            Value::Int64(i) => ValueModel::Int64(i),
            Value::Float64(bits) => ValueModel::Float64(bits),
            Value::Str(s) => ValueModel::Str(s@),
            Value::DateTime(s) => ValueModel::DateTime(s@),
            Value::Binary(bytes) => ValueModel::Binary(bytes@),
            Value::Array(items) => ValueModel::Array(seq_model(items@)),
            Value::Struct(fields) => ValueModel::Struct(fields_model(fields@)),
            Value::Null => ValueModel::Null,
        }
    }
}

/// Well-formedness of a wire value: every structured record in the tree
/// has pairwise distinct field names, the invariant the wire protocol
/// guarantees of its field maps.
pub open spec fn wf_model(v: ValueModel) -> bool
    decreases v,
{
    match v {
        ValueModel::Array(items) => forall|i: int|
            0 <= i < items.len() ==> wf_model(#[trigger] items[i]),
        ValueModel::Struct(fields) => {
            &&& forall|i: int, j: int|
                0 <= i < j < fields.len() ==> (#[trigger] fields[i].0) != (#[trigger] fields[j].0)
            &&& forall|i: int| 0 <= i < fields.len() ==> wf_model((#[trigger] fields[i]).1)
        },
        _ => true,
    }
}

/// The elementwise model of a sequence of values.
pub open spec fn seq_model(items: Seq<Value>) -> Seq<ValueModel>
    decreases items,
{
    if items.len() == 0 {
        Seq::empty()
    } else {
        seq_model(items.subrange(0, items.len() - 1)).push(items[items.len() - 1].model())
    }
}

/// The elementwise model of a field list: each name's characters paired
/// with the model of its value.
pub open spec fn fields_model(fields: Seq<(String, Value)>) -> Seq<(Seq<char>, ValueModel)>
    decreases fields,
{
    if fields.len() == 0 {
        Seq::empty()
    } else {
        fields_model(fields.subrange(0, fields.len() - 1)).push(
            (fields[fields.len() - 1].0@, fields[fields.len() - 1].1.model()),
        )
    }
}

/// The model of a sequence of values is the sequence of their models.
pub proof fn lemma_seq_model_elems(items: Seq<Value>)
    ensures
        seq_model(items).len() == items.len(),
        forall|i: int| 0 <= i < items.len() ==> #[trigger] seq_model(items)[i] == items[i].model(),
    decreases items.len(),
{
    if items.len() > 0 {
        let init = items.subrange(0, items.len() - 1);
        lemma_seq_model_elems(init);
        assert forall|i: int| 0 <= i < items.len() implies #[trigger] seq_model(items)[i]
            == items[i].model() by {
            if i < items.len() - 1 {
                assert(seq_model(items)[i] == seq_model(init)[i]);
                assert(init[i] == items[i]);
            }
        }
    }
}

/// The model of a field list is the list of modelled fields.
pub proof fn lemma_fields_model_elems(fields: Seq<(String, Value)>)
    ensures
        fields_model(fields).len() == fields.len(),
        forall|i: int|
            0 <= i < fields.len() ==> #[trigger] fields_model(fields)[i] == (
            fields[i].0@,
            fields[i].1.model(),
            ),
    decreases fields.len(),
{
    if fields.len() > 0 {
        let init = fields.subrange(0, fields.len() - 1);
        lemma_fields_model_elems(init);
        assert forall|i: int| 0 <= i < fields.len() implies #[trigger] fields_model(fields)[i] == (
        fields[i].0@,
        fields[i].1.model(),
        ) by {
            if i < fields.len() - 1 {
                assert(fields_model(fields)[i] == fields_model(init)[i]);
                assert(init[i] == fields[i]);
            }
        }
    }
}

} // verus!
