//! The response-field extractor: pulls a named field out of a structured
//! wire response, and the session token out of a login response.

use vstd::prelude::*;

use crate::error::ErrorKind;
use crate::infer::str_eq;
use crate::value::{Value, ValueModel, fields_model, lemma_fields_model_elems, wf_model};

verus! {

broadcast use {vstd::seq::group_seq_axioms, vstd::std_specs::vec::group_vec_axioms};

/// The first value bound to `name` in a field list, if any.
pub open spec fn lookup(fields: Seq<(Seq<char>, ValueModel)>, name: Seq<char>) -> Option<
    ValueModel,
>
    decreases fields,
{
    if fields.len() == 0 {
        None
    } else if fields[0].0 == name {
        Some(fields[0].1)
    } else {
        lookup(fields.subrange(1, fields.len() as int), name)
    }
}

/// What extracting `name` from a response must yield: the named field of a
/// structured record, `MalformedResponse` when the response is not a
/// record, `MissingField` when the record lacks the name.
pub open spec fn extracted(v: ValueModel, name: Seq<char>) -> Result<ValueModel, ErrorKind> {
    match v {
        ValueModel::Struct(fields) => match lookup(fields, name) {
            Some(x) => Ok(x),
            None => Err(ErrorKind::MissingField),
        },
        _ => Err(ErrorKind::MalformedResponse),
    }
}

/// Skipping fields that do not match the name leaves the lookup unchanged.
proof fn lemma_lookup_skip(fields: Seq<(Seq<char>, ValueModel)>, name: Seq<char>, n: int)
    requires
        0 <= n <= fields.len(),
        forall|j: int| 0 <= j < n ==> (#[trigger] fields[j].0) != name,
    ensures
        lookup(fields, name) == lookup(fields.subrange(n, fields.len() as int), name),
    decreases n,
{
    if n > 0 {
        assert(fields[0].0 != name);
        let rest = fields.subrange(1, fields.len() as int);
        assert(lookup(fields, name) == lookup(rest, name));
        assert forall|j: int| 0 <= j < n - 1 implies (#[trigger] rest[j].0) != name by {
            assert(rest[j].0 == fields[j + 1].0);
        }
        lemma_lookup_skip(rest, name, n - 1);
        assert(rest.subrange(n - 1, rest.len() as int) =~= fields.subrange(
            n,
            fields.len() as int,
        ));
    } else {
        assert(fields.subrange(0, fields.len() as int) =~= fields);
    }
}

/// In a field list with pairwise distinct names, the lookup finds exactly
/// the one binding of the name.
proof fn lemma_lookup_unique(fields: Seq<(Seq<char>, ValueModel)>, name: Seq<char>, i: int)
    requires
        forall|p: int, q: int|
            0 <= p < q < fields.len() ==> (#[trigger] fields[p].0) != (#[trigger] fields[q].0),
        0 <= i < fields.len(),
        fields[i].0 == name,
    ensures
        lookup(fields, name) == Some(fields[i].1),
    decreases fields.len(),
{
    if i > 0 {
        assert(fields[0].0 != name);
        let rest = fields.subrange(1, fields.len() as int);
        assert forall|p: int, q: int| 0 <= p < q < rest.len() implies (#[trigger] rest[p].0) != (
        #[trigger] rest[q].0) by {
            assert(rest[p] == fields[p + 1]);
            assert(rest[q] == fields[q + 1]);
        }
        assert(rest[i - 1] == fields[i]);
        lemma_lookup_unique(rest, name, i - 1);
    }
}

/// Extraction from a well-formed record is exact: whenever some field of
/// the record bears the name, the extraction succeeds with that one
/// field's value.
pub proof fn lemma_extract_unique(v: ValueModel, name: Seq<char>, i: int)
    requires
        wf_model(v),
        v is Struct,
        0 <= i < v->Struct_0.len(),
        v->Struct_0[i].0 == name,
    ensures
        extracted(v, name) == Ok::<ValueModel, ErrorKind>(v->Struct_0[i].1),
{
    lemma_lookup_unique(v->Struct_0, name, i);
}

/// Extracts the field called `field` from a structured response.
///
/// Returns the field's value exactly when the response is a `Struct` that
/// contains the name; fails with `MalformedResponse` when the response is
/// any other variant, and with `MissingField` when the name is absent —
/// the reading [`extracted`] captures all three cases.
#[verifier::loop_isolation(false)]
pub fn extract_field<'a>(response: &'a Value, field: &str) -> (r: Result<&'a Value, ErrorKind>)
    ensures
        match r {
            Ok(v) => extracted(response.model(), field@) == Ok::<ValueModel, ErrorKind>(v.model()),
            Err(e) => extracted(response.model(), field@) == Err::<ValueModel, ErrorKind>(e),
        },
{
    match response {
        Value::Struct(fields) => {
            let ghost m = fields_model(fields@);
            proof {
                lemma_fields_model_elems(fields@);
            }
            let mut i: usize = 0;
            while i < fields.len()
                invariant
                    0 <= i <= fields@.len(),
                    forall|j: int| 0 <= j < i ==> (#[trigger] m[j].0) != field@,
                decreases fields@.len() - i,
            {
                if str_eq(fields[i].0.as_str(), field) {
                    proof {
                        lemma_lookup_skip(m, field@, i as int);
                        let rest = m.subrange(i as int, m.len() as int);
                        assert(rest[0] == m[i as int]);
                        assert(lookup(rest, field@) == Some(m[i as int].1));
                    }
                    return Ok(&fields[i].1);
                }
                i += 1;
            }
            proof {
                lemma_lookup_skip(m, field@, m.len() as int);
                assert(m.subrange(m.len() as int, m.len() as int) =~= Seq::<(
                    Seq<char>,
                    ValueModel,
                )>::empty());
            }
            Err(ErrorKind::MissingField)
        },
        _ => Err(ErrorKind::MalformedResponse),
    }
}

/// What extracting the session token from a login response must yield: the
/// characters of the `"Value"` field when it is a string, and otherwise the
/// extraction error, or `UnexpectedType` when the field is some other
/// variant.
pub open spec fn session_of(v: ValueModel) -> Result<Seq<char>, ErrorKind> {
    match extracted(v, "Value"@) {
        Ok(ValueModel::Str(s)) => Ok(s),
        Ok(_) => Err(ErrorKind::UnexpectedType),
        Err(e) => Err(e),
    }
}

/// Pulls the session token out of a login response: the `"Value"` field,
/// which must be a string.
pub fn extract_session(response: &Value) -> (r: Result<String, ErrorKind>)
    ensures
        match r {
            Ok(s) => session_of(response.model()) == Ok::<Seq<char>, ErrorKind>(s@),
            Err(e) => session_of(response.model()) == Err::<Seq<char>, ErrorKind>(e),
        },
{
    match extract_field(response, "Value") {
        Ok(Value::Str(s)) => Ok(s.clone()),
        Ok(_) => Err(ErrorKind::UnexpectedType),
        Err(e) => Err(e),
    }
}

} // verus!
