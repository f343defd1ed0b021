use vstd::prelude::*;
use crate::error::{BridgeError, HostError};

verus! {

/// A transportable reference to a closure that the host thread keeps alive.
#[derive(Debug, Clone, Copy, PartialEq, Eq, Structural)]
pub struct ClosureHandle {
    pub slot: usize,
}

/// The shape of the answer that a request expects.
#[derive(Debug, Clone, Copy, PartialEq, Eq, Structural)]
pub enum ReturnKind {
    Value,
    Text,
}

/// One callback request, by the shape of the closure it calls.
#[derive(Debug, Clone)]
pub enum Request<V> {
    /// value -> value
    ValueToValue { closure: ClosureHandle, arg: V },
    /// (value, index) -> string
    ValueAndIndexToString { closure: ClosureHandle, arg: V, index: u64 },
    /// index -> string, as used by a column name generator
    IndexToString { closure: ClosureHandle, index: u64 },
}

/// The answer to one request.
#[derive(Debug, Clone)]
pub enum Response<V> {
    Value(V),
    Text(String),
    Failed(HostError),
}

impl<V> Request<V> {
    pub open spec fn return_kind_spec(&self) -> ReturnKind {
        match self {
            Request::ValueToValue { .. } => ReturnKind::Value,
            _ => ReturnKind::Text,
        }
    }

    pub open spec fn closure_spec(&self) -> ClosureHandle {
        match self {
            Request::ValueToValue { closure, .. } => *closure,
            Request::ValueAndIndexToString { closure, .. } => *closure,
            Request::IndexToString { closure, .. } => *closure,
        }
    }

    /// The shape of answer this request expects.
    pub fn return_kind(&self) -> (k: ReturnKind)
        ensures
            k == self.return_kind_spec(),
    {
        match self {
            Request::ValueToValue { .. } => ReturnKind::Value,
            _ => ReturnKind::Text,
        }
    }

    /// The closure this request calls.
    pub fn closure(&self) -> (c: ClosureHandle)
        ensures
            c == self.closure_spec(),
    {
        match self {
            Request::ValueToValue { closure, .. } => *closure,
            Request::ValueAndIndexToString { closure, .. } => *closure,
            Request::IndexToString { closure, .. } => *closure,
        }
    }
}

impl<V> Response<V> {
    /// Whether this response may answer a request that expects `kind`: a
    /// failure answers any request, a value or a text only its own kind.
    pub open spec fn fits(&self, kind: ReturnKind) -> bool {
        match self {
            Response::Value(_) => kind == ReturnKind::Value,
            Response::Text(_) => kind == ReturnKind::Text,
            Response::Failed(_) => true,
        }
    }

    pub open spec fn value_result(self) -> Result<V, BridgeError> {
        match self {
            Response::Value(v) => Ok(v),
            Response::Failed(e) => Err(BridgeError::Host(e)),
            Response::Text(_) => Err(BridgeError::ProtocolViolation),
        }
    }

    pub open spec fn text_result(self) -> Result<String, BridgeError> {
        match self {
            Response::Text(s) => Ok(s),
            Response::Failed(e) => Err(BridgeError::Host(e)),
            Response::Value(_) => Err(BridgeError::ProtocolViolation),
        }
    }

    /// The value of a response to a value request. A host failure becomes
    /// `Host`; a text where a value was expected is a protocol violation.
    pub fn unwrap_value(self) -> (r: Result<V, BridgeError>)
        ensures
            r == self.value_result(),
    {
        match self {
            Response::Value(v) => Ok(v),
            Response::Failed(e) => Err(BridgeError::Host(e)),
            Response::Text(_) => Err(BridgeError::ProtocolViolation),
        }
    }

    /// The text of a response to a text request, as `unwrap_value` does for values.
    pub fn unwrap_text(self) -> (r: Result<String, BridgeError>)
        ensures
            r == self.text_result(),
    {
        match self {
            Response::Text(s) => Ok(s),
            Response::Failed(e) => Err(BridgeError::Host(e)),
            Response::Value(_) => Err(BridgeError::ProtocolViolation),
        }
    }
}

} // verus!
