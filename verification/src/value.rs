//! Plain values and per-request errors passed between the transport
//! collaborator, the executor, and user-supplied resolvers.

use vstd::prelude::*;

verus! {

/// A pre-decoded request or response value. The serialization collaborator
/// turns raw bytes into values of this shape before the executor sees them.
#[derive(Debug, PartialEq)]
pub enum Value {
    Null,
    Bool(bool),
    Int(i64),
    Text(String),
}

impl Value {
    /// An identical copy of the value.
    pub fn duplicate(&self) -> (r: Value)
        ensures
            r == *self,
    {
        match self {
            Value::Null => Value::Null,
            Value::Bool(b) => Value::Bool(*b),
            Value::Int(i) => Value::Int(*i),
            Value::Text(s) => Value::Text(s.clone()),
        }
    }
}

/// Failure of the serialization collaborator to decode a request payload.
#[derive(Debug)]
pub struct DecodeError {
    pub message: String,
}

/// Failure reported by a user-supplied resolver.
#[derive(Debug)]
pub struct ResolverError {
    pub message: String,
}

} // verus!
