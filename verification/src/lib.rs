//! A verified value-mapping core for a small XML-RPC management client.
//!
//! The library models the wire protocol's dynamically typed values as the
//! [`value::Value`] tree, infers typed call arguments from raw command-line
//! tokens, converts response trees into JSON documents, and drives the
//! three-step session lifecycle (login, target call, logout) as a pure
//! state machine whose transport is supplied by the caller.

pub mod error;
pub mod extract;
pub mod infer;
pub mod json;
pub mod orchestrate;
pub mod value;
