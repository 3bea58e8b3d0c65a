//! The call orchestrator's decisions, as pure functions.
//!
//! One invocation walks a strictly linear session: a login call yields the
//! session token, the target call runs with the token prepended to the
//! user's arguments and its payload becomes the JSON document, and a
//! best-effort logout releases the token.  The RPC channel itself is
//! outside this library: the caller performs each [`Call`] in this order —
//! logout only ever after a successful login, the target call only after
//! the token is extracted — and feeds every response back in.  Any failure
//! before the document is produced is fatal to the invocation; only a
//! logout failure is discarded.

use vstd::prelude::*;
use vstd::string::StringExecFns;

use crate::error::ErrorKind;
use crate::extract::{extract_field, extracted, extract_session, session_of};
use crate::json::{to_json, json_of, JsonValue, JsonModel};
use crate::value::{Value, ValueModel};

verus! {

broadcast use {vstd::seq::group_seq_axioms, vstd::std_specs::vec::group_vec_axioms};

/// One request for the RPC channel: a method name and its ordered
/// arguments.
pub struct Call {
    pub method: String,
    pub args: Vec<Value>,
}

/// The login request: `session.login_with_password` with the username and
/// password as its two positional arguments.
pub fn login_call(user: &str, pass: &str) -> (c: Call)
    ensures
        c.method@ == "session.login_with_password"@,
        c.args@.len() == 2,
        c.args@[0].model() == ValueModel::Str(user@),
        c.args@[1].model() == ValueModel::Str(pass@),
{
    let mut args: Vec<Value> = Vec::new();
    args.push(Value::Str(user.to_owned()));
    args.push(Value::Str(pass.to_owned()));
    Call { method: "session.login_with_password".to_owned(), args }
}

/// The target request: `<class>.<method>`, with the session token
/// prepended to the caller-supplied arguments, which keep their order.
pub fn target_call(class: &str, method: &str, session: &str, args: Vec<Value>) -> (c: Call)
    ensures
        c.method@ == class@ + "."@ + method@,
        c.args@.len() == args@.len() + 1,
        c.args@[0].model() == ValueModel::Str(session@),
        forall|i: int| 0 <= i < args@.len() ==> c.args@[i + 1] == args@[i],
{
    let mut name = class.to_owned();
    name.append(".");
    name.append(method);
    let mut full = args;
    full.insert(0, Value::Str(session.to_owned()));
    Call { method: name, args: full }
}

/// The logout request: `session.logout` with the session token as its sole
/// argument.
pub fn logout_call(session: &str) -> (c: Call)
    ensures
        c.method@ == "session.logout"@,
        c.args@.len() == 1,
        c.args@[0].model() == ValueModel::Str(session@),
{
    let mut args: Vec<Value> = Vec::new();
    args.push(Value::Str(session.to_owned()));
    Call { method: "session.logout".to_owned(), args }
}

/// What handling a login response must yield: the session token, by
/// [`session_of`], from a response the channel delivered, and the
/// channel's own failure otherwise.
pub open spec fn login_outcome(response: Result<ValueModel, ErrorKind>) -> Result<
    Seq<char>,
    ErrorKind,
> {
    match response {
        Ok(v) => session_of(v),
        Err(e) => Err(e),
    }
}

/// Handles the login response: the channel's failure is fatal, and a
/// delivered response must carry the session token in its `"Value"` field.
pub fn handle_login(response: &Result<Value, ErrorKind>) -> (r: Result<String, ErrorKind>)
    ensures
        match r {
            Ok(s) => login_outcome(result_model(*response)) == Ok::<Seq<char>, ErrorKind>(s@),
            Err(e) => login_outcome(result_model(*response)) == Err::<Seq<char>, ErrorKind>(e),
        },
{
    match response {
        Ok(v) => extract_session(v),
        Err(e) => Err(*e),
    }
}

/// The model of a channel response.
pub open spec fn result_model(response: Result<Value, ErrorKind>) -> Result<
    ValueModel,
    ErrorKind,
> {
    match response {
        Ok(v) => Ok(v.model()),
        Err(e) => Err(e),
    }
}

/// What handling a target response must yield: the JSON reading of the
/// response's `"Value"` payload, or the first error on the way there —
/// the channel's, the extraction's, or the converter's.
pub open spec fn target_outcome(response: Result<ValueModel, ErrorKind>) -> Result<
    JsonModel,
    ErrorKind,
> {
    match response {
        Ok(v) => match extracted(v, "Value"@) {
            Ok(payload) => match json_of(payload) {
                Some(j) => Ok(j),
                None => Err(ErrorKind::UnrepresentableNumber),
            },
            Err(e) => Err(e),
        },
        Err(e) => Err(e),
    }
}

/// Handles the target response: extracts the `"Value"` payload and
/// converts it to the JSON document the invocation emits.
pub fn handle_target(response: &Result<Value, ErrorKind>) -> (r: Result<JsonValue, ErrorKind>)
    ensures
        match r {
            Ok(j) => target_outcome(result_model(*response)) == Ok::<JsonModel, ErrorKind>(
                j.model(),
            ),
            Err(e) => target_outcome(result_model(*response)) == Err::<JsonModel, ErrorKind>(e),
        },
{
    match response {
        Ok(v) => match extract_field(v, "Value") {
            Ok(payload) => match to_json(payload) {
                Ok(j) => Ok(j),
                Err(e) => Err(e),
            },
            Err(e) => Err(e),
        },
        Err(e) => Err(*e),
    }
}

} // verus!
