//! The structural JSON converter: a recursive, structure-preserving mapping
//! from a wire [`Value`] tree to a JSON document.
//!
//! Every variant converts totally except a non-finite `Float64`, which is
//! the one defined failure ([`ErrorKind::UnrepresentableNumber`]); arrays
//! and structs convert elementwise, preserving order, count and field
//! names.

use vstd::prelude::*;

use crate::error::ErrorKind;
use crate::value::{Value, ValueModel, seq_model, fields_model};
use crate::value::{lemma_seq_model_elems, lemma_fields_model_elems};

verus! {

broadcast use {vstd::seq::group_seq_axioms, vstd::std_specs::vec::group_vec_axioms};

/// A JSON value.
///
/// A JSON number is an IEEE-754 double.  Here it is carried in one of two
/// exact forms: `NumInt` holds the integer a wire integer converts from,
/// and `NumBits` holds the bit pattern of a finite double.  The rendering
/// edge turns both into the double the document shows; for integers of
/// magnitude beyond 2^53 that final step is lossy, a documented ceiling of
/// the format itself.
pub enum JsonValue {
    Null,
    Bool(bool),
    /// A number produced from a wire integer, held exactly.
    NumInt(i64),
    /// A number produced from a wire double: its IEEE-754 bit pattern,
    /// always finite.
    NumBits(u64),
    Str(String),
    Array(Vec<JsonValue>),
    /// Insertion-ordered field map.
    Object(Vec<(String, JsonValue)>),
}

/// The mathematical model of a [`JsonValue`].
pub enum JsonModel {
    Null,
    Bool(bool),
    NumInt(i64),
    NumBits(u64),
    Str(Seq<char>),
    Array(Seq<JsonModel>),
    Object(Seq<(Seq<char>, JsonModel)>),
}

impl JsonValue {
    /// The mathematical model of this JSON value.
    pub open spec fn model(self) -> JsonModel
        decreases self,
    {
        match self {
            JsonValue::Null => JsonModel::Null,
            JsonValue::Bool(b) => JsonModel::Bool(b),
            JsonValue::NumInt(i) => JsonModel::NumInt(i),
            JsonValue::NumBits(bits) => JsonModel::NumBits(bits),
            JsonValue::Str(s) => JsonModel::Str(s@),
            JsonValue::Array(items) => JsonModel::Array(json_seq_model(items@)),
            JsonValue::Object(fields) => JsonModel::Object(json_fields_model(fields@)),
        }
    }
}

/// The elementwise model of a sequence of JSON values.
pub open spec fn json_seq_model(items: Seq<JsonValue>) -> Seq<JsonModel>
    decreases items,
{
    if items.len() == 0 {
        Seq::empty()
    } else {
        json_seq_model(items.subrange(0, items.len() - 1)).push(items[items.len() - 1].model())
    }
}

/// The elementwise model of a JSON object's field list.
pub open spec fn json_fields_model(fields: Seq<(String, JsonValue)>) -> Seq<
    (Seq<char>, JsonModel),
>
    decreases fields,
{
    if fields.len() == 0 {
        Seq::empty()
    } else {
        json_fields_model(fields.subrange(0, fields.len() - 1)).push(
            (fields[fields.len() - 1].0@, fields[fields.len() - 1].1.model()),
        )
    }
}

/// Whether an IEEE-754 binary64 bit pattern is a finite number, that is,
/// neither NaN nor an infinity: its exponent field is not all ones.
pub open spec fn f64_bits_finite(bits: u64) -> bool {
    (bits >> 52) & 0x7ff != 0x7ff
}

/// Decides [`f64_bits_finite`].
pub fn is_finite_bits(bits: u64) -> (r: bool)
    ensures
        r == f64_bits_finite(bits),
{
    (bits >> 52) & 0x7ff != 0x7ff
}

/// What `base64::encode` returns for the given bytes: the standard-alphabet,
/// padded base64 rendering.
pub uninterp spec fn base64_of(bytes: Seq<u8>) -> Seq<char>;

/// Relies on `base64::encode`: encodes the bytes with the standard base64
/// alphabet, padded; the result is a function of the bytes alone, and the
/// empty input encodes to the empty string.
#[verifier::external_body]
fn base64_encode(bytes: &Vec<u8>) -> (r: String)
    ensures
        r@ == base64_of(bytes@),
        bytes@.len() == 0 ==> r@.len() == 0,
{
    base64::encode(bytes)
}

/// The canonical JSON reading of a wire value: `Some` of the document,
/// or `None` when a non-finite double makes the value unrepresentable.
pub open spec fn json_of(v: ValueModel) -> Option<JsonModel>
    decreases v,
{
    match v {
        ValueModel::Bool(b) => Some(JsonModel::Bool(b)),
        ValueModel::Int32(i) => Some(JsonModel::NumInt(i as i64)),
        ValueModel::Int64(i) => Some(JsonModel::NumInt(i)),
        ValueModel::Float64(bits) => if f64_bits_finite(bits) {
            Some(JsonModel::NumBits(bits))
        } else {
            None
        },
        ValueModel::Str(s) => Some(JsonModel::Str(s)),
        ValueModel::DateTime(s) => Some(JsonModel::Str(s)),
        ValueModel::Binary(bytes) => Some(JsonModel::Str(base64_of(bytes))),
        ValueModel::Array(items) => match json_of_seq(items) {
            Some(converted) => Some(JsonModel::Array(converted)),
            None => None,
        },
        ValueModel::Struct(fields) => match json_of_fields(fields) {
            Some(converted) => Some(JsonModel::Object(converted)),
            None => None,
        },
        ValueModel::Null => Some(JsonModel::Null),
    }
}

/// Converts a sequence of wire values elementwise; `None` as soon as any
/// element is unrepresentable.
pub open spec fn json_of_seq(items: Seq<ValueModel>) -> Option<Seq<JsonModel>>
    decreases items,
{
    if items.len() == 0 {
        Some(Seq::empty())
    } else {
        match (json_of_seq(items.subrange(0, items.len() - 1)), json_of(items[items.len() - 1])) {
            (Some(init), Some(last)) => Some(init.push(last)),
            _ => None,
        }
    }
}

/// Converts a field list elementwise, keeping each field's name; `None` as
/// soon as any field's value is unrepresentable.
pub open spec fn json_of_fields(fields: Seq<(Seq<char>, ValueModel)>) -> Option<
    Seq<(Seq<char>, JsonModel)>,
>
    decreases fields,
{
    if fields.len() == 0 {
        Some(Seq::empty())
    } else {
        match (
            json_of_fields(fields.subrange(0, fields.len() - 1)),
            json_of(fields[fields.len() - 1].1),
        ) {
            (Some(init), Some(last)) => Some(init.push((fields[fields.len() - 1].0, last))),
            _ => None,
        }
    }
}

/// An element sequence converts exactly when every element converts, and
/// then it converts elementwise, preserving order and count.
pub proof fn lemma_json_of_seq_elems(items: Seq<ValueModel>)
    ensures
        json_of_seq(items) is Some <==> (forall|i: int|
            0 <= i < items.len() ==> json_of(#[trigger] items[i]) is Some),
        json_of_seq(items) is Some ==> json_of_seq(items)->0.len() == items.len(),
        json_of_seq(items) is Some ==> forall|i: int|
            0 <= i < items.len() ==> #[trigger] json_of_seq(items)->0[i] == json_of(items[i])->0,
    decreases items.len(),
{
    if items.len() > 0 {
        let init = items.subrange(0, items.len() - 1);
        let lastv = items[items.len() - 1];
        lemma_json_of_seq_elems(init);
        if json_of_seq(items) is Some {
            assert forall|i: int| 0 <= i < items.len() implies json_of(
                #[trigger] items[i],
            ) is Some by {
                if i < items.len() - 1 {
                    assert(json_of(init[i]) is Some);
                    assert(init[i] == items[i]);
                }
            }
            let r = json_of_seq(items)->0;
            let ri = json_of_seq(init)->0;
            assert(r == ri.push(json_of(lastv)->0));
            assert forall|i: int| 0 <= i < items.len() implies #[trigger] r[i] == json_of(
                items[i],
            )->0 by {
                if i < items.len() - 1 {
                    assert(r[i] == ri[i]);
                    assert(ri[i] == json_of(init[i])->0);
                    assert(init[i] == items[i]);
                }
            }
        } else {
            if json_of(lastv) is Some {
                assert(json_of_seq(init) is None);
                let w = choose|i: int| !(0 <= i < init.len() ==> json_of(#[trigger] init[i]) is Some);
                assert(init[w] == items[w]);
                assert(!(json_of(items[w]) is Some));
            } else {
                assert(!(json_of(items[items.len() - 1]) is Some));
            }
        }
    }
}

/// A field list converts exactly when every field's value converts, and
/// then it converts elementwise, preserving order, count and names.
pub proof fn lemma_json_of_fields_elems(fields: Seq<(Seq<char>, ValueModel)>)
    ensures
        json_of_fields(fields) is Some <==> (forall|i: int|
            0 <= i < fields.len() ==> json_of(#[trigger] fields[i].1) is Some),
        json_of_fields(fields) is Some ==> json_of_fields(fields)->0.len() == fields.len(),
        json_of_fields(fields) is Some ==> forall|i: int|
            0 <= i < fields.len() ==> #[trigger] json_of_fields(fields)->0[i] == (
            fields[i].0,
            json_of(fields[i].1)->0,
            ),
    decreases fields.len(),
{
    if fields.len() > 0 {
        let init = fields.subrange(0, fields.len() - 1);
        let lastf = fields[fields.len() - 1];
        lemma_json_of_fields_elems(init);
        if json_of_fields(fields) is Some {
            assert forall|i: int| 0 <= i < fields.len() implies json_of(
                #[trigger] fields[i].1,
            ) is Some by {
                if i < fields.len() - 1 {
                    assert(json_of(init[i].1) is Some);
                    assert(init[i] == fields[i]);
                }
            }
            let r = json_of_fields(fields)->0;
            let ri = json_of_fields(init)->0;
            assert(r == ri.push((lastf.0, json_of(lastf.1)->0)));
            assert forall|i: int| 0 <= i < fields.len() implies #[trigger] r[i] == (
            fields[i].0,
            json_of(fields[i].1)->0,
            ) by {
                if i < fields.len() - 1 {
                    assert(r[i] == ri[i]);
                    assert(ri[i] == (init[i].0, json_of(init[i].1)->0));
                    assert(init[i] == fields[i]);
                }
            }
        } else {
            if json_of(lastf.1) is Some {
                assert(json_of_fields(init) is None);
                let w = choose|i: int|
                    !(0 <= i < init.len() ==> json_of(#[trigger] init[i].1) is Some);
                assert(init[w] == fields[w]);
                assert(!(json_of(fields[w].1) is Some));
            } else {
                assert(!(json_of(fields[fields.len() - 1].1) is Some));
            }
        }
    }
}

/// The converter is structure-preserving: a representable array converts
/// elementwise, keeping its element count and order, and a representable
/// struct keeps its field count and its field names in order, converting
/// each field's value in place — so converting the whole equals converting
/// the children.
pub proof fn lemma_to_json_structure(v: ValueModel)
    requires
        json_of(v) is Some,
    ensures
        v is Array ==> {
            let inn = v->Array_0;
            let outp = json_of(v)->0;
            &&& outp is Array
            &&& outp->Array_0.len() == inn.len()
            &&& forall|i: int|
                0 <= i < inn.len() ==> Some(#[trigger] outp->Array_0[i]) == json_of(inn[i])
        },
        v is Struct ==> {
            let inn = v->Struct_0;
            let outp = json_of(v)->0;
            &&& outp is Object
            &&& outp->Object_0.len() == inn.len()
            &&& forall|i: int|
                0 <= i < inn.len() ==> #[trigger] outp->Object_0[i] == (
                inn[i].0,
                json_of(inn[i].1)->0,
                )
        },
{
    if v is Array {
        lemma_json_of_seq_elems(v->Array_0);
    }
    if v is Struct {
        lemma_json_of_fields_elems(v->Struct_0);
    }
}

/// A double is representable exactly when its bits are finite, and then
/// the JSON number carries those bits unchanged; NaN and the infinities
/// are the only unrepresentable doubles.
pub proof fn lemma_double_conversion(bits: u64)
    ensures
        f64_bits_finite(bits) ==> json_of(ValueModel::Float64(bits)) == Some(
            JsonModel::NumBits(bits),
        ),
        !f64_bits_finite(bits) ==> json_of(ValueModel::Float64(bits)) is None,
{
}

/// Converts a wire value into a JSON value.
///
/// Succeeds with the canonical reading [`json_of`] on every input whose
/// doubles are all finite; fails with `UnrepresentableNumber` — the one
/// defined failure — exactly when some double in the tree is NaN or
/// infinite.
#[verifier::loop_isolation(false)]
pub fn to_json(v: &Value) -> (r: Result<JsonValue, ErrorKind>)
    ensures
        match r {
            Ok(j) => json_of(v.model()) == Some(j.model()),
            Err(e) => json_of(v.model()) is None && e == ErrorKind::UnrepresentableNumber,
        },
    decreases *v,
{
    match v {
        Value::Bool(b) => Ok(JsonValue::Bool(*b)),
        Value::Int32(i) => Ok(JsonValue::NumInt(*i as i64)),
        Value::Int64(i) => Ok(JsonValue::NumInt(*i)),
        Value::Float64(bits) => {
            if is_finite_bits(*bits) {
                Ok(JsonValue::NumBits(*bits))
            } else {
                Err(ErrorKind::UnrepresentableNumber)
            }
        },
        Value::Str(s) => Ok(JsonValue::Str(s.clone())),
        Value::DateTime(s) => Ok(JsonValue::Str(s.clone())),
        Value::Binary(bytes) => Ok(JsonValue::Str(base64_encode(bytes))),
        Value::Array(items) => {
            let ghost m = seq_model(items@);
            proof {
                lemma_seq_model_elems(items@);
            }
            let mut out: Vec<JsonValue> = Vec::new();
            let mut j: usize = 0;
            while j < items.len()
                invariant
                    0 <= j <= items@.len(),
                    json_of_seq(m.take(j as int)) == Some(json_seq_model(out@)),
                decreases items@.len() - j,
            {
                match to_json(&items[j]) {
                    Ok(jv) => {
                        let ghost prev = out@;
                        let ghost jm = jv.model();
                        out.push(jv);
                        proof {
                            assert(out@.subrange(0, out@.len() - 1) =~= prev);
                            assert(json_seq_model(out@) == json_seq_model(prev).push(jm));
                            let pre = m.take(j + 1);
                            assert(pre.subrange(0, pre.len() - 1) =~= m.take(j as int));
                            assert(pre[pre.len() - 1] == m[j as int]);
                            assert(m[j as int] == items@[j as int].model());
                        }
                    },
                    Err(e) => {
                        proof {
                            assert(m[j as int] == items@[j as int].model());
                            assert(!(json_of(m[j as int]) is Some));
                            lemma_json_of_seq_elems(m);
                        }
                        return Err(e);
                    },
                }
                j += 1;
            }
            proof {
                assert(m.take(items@.len() as int) =~= m);
            }
            Ok(JsonValue::Array(out))
        },
        Value::Struct(fields) => {
            let ghost m = fields_model(fields@);
            proof {
                lemma_fields_model_elems(fields@);
            }
            let mut out: Vec<(String, JsonValue)> = Vec::new();
            let mut j: usize = 0;
            while j < fields.len()
                invariant
                    0 <= j <= fields@.len(),
                    json_of_fields(m.take(j as int)) == Some(json_fields_model(out@)),
                decreases fields@.len() - j,
            {
                match to_json(&fields[j].1) {
                    Ok(jv) => {
                        let name = fields[j].0.clone();
                        let ghost prev = out@;
                        let ghost fm = (name@, jv.model());
                        out.push((name, jv));
                        proof {
                            assert(out@.subrange(0, out@.len() - 1) =~= prev);
                            assert(json_fields_model(out@) == json_fields_model(prev).push(fm));
                            let pre = m.take(j + 1);
                            assert(pre.subrange(0, pre.len() - 1) =~= m.take(j as int));
                            assert(pre[pre.len() - 1] == m[j as int]);
                            assert(m[j as int] == (fields@[j as int].0@, fields@[j as int].1.model()));
                        }
                    },
                    Err(e) => {
                        proof {
                            assert(m[j as int] == (fields@[j as int].0@, fields@[j as int].1.model()));
                            assert(!(json_of(m[j as int].1) is Some));
                            lemma_json_of_fields_elems(m);
                        }
                        return Err(e);
                    },
                }
                j += 1;
            }
            proof {
                assert(m.take(fields@.len() as int) =~= m);
            }
            Ok(JsonValue::Object(out))
        },
        Value::Null => Ok(JsonValue::Null),
    }
}

} // verus!
