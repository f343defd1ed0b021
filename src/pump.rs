use vstd::prelude::*;
use crate::envelope::{Response, ReturnKind};
use crate::error::HostError;

verus! {

/// What running a host closure on the host thread gave back, before it is
/// checked against the shape that the request expects.
#[derive(Debug, Clone)]
pub enum HostOutcome<V> {
    /// The closure returned a columnar value.
    Value(V),
    /// The closure returned a string.
    Text(String),
    /// The closure raised, with the host's message.
    Raised(String),
    /// The closure returned something that is neither a value nor a string.
    Other,
}

/// The response that the host pump owes for `outcome` to a request that
/// expects `kind`. A raise is kept as a failure of that one request; a result
/// of the wrong shape is a failure too, never a protocol violation.
pub open spec fn respond_spec<V>(kind: ReturnKind, outcome: HostOutcome<V>) -> Response<V> {
    match outcome {
        HostOutcome::Value(v) => if kind == ReturnKind::Value {
            Response::Value(v)
        } else {
            Response::Failed(HostError::UnexpectedShape)
        },
        HostOutcome::Text(s) => if kind == ReturnKind::Text {
            Response::Text(s)
        } else {
            Response::Failed(HostError::UnexpectedShape)
        },
        HostOutcome::Raised(m) => Response::Failed(HostError::Raised(m)),
        HostOutcome::Other => Response::Failed(HostError::UnexpectedShape),
    }
}

/// Packages what a host closure gave back into the response for its request.
pub fn respond<V>(kind: ReturnKind, outcome: HostOutcome<V>) -> (r: Response<V>)
    ensures
        r == respond_spec(kind, outcome),
        r.fits(kind),
{
    match outcome {
        HostOutcome::Value(v) => if kind == ReturnKind::Value {
            Response::Value(v)
        } else {
            Response::Failed(HostError::UnexpectedShape)
        },
        HostOutcome::Text(s) => if kind == ReturnKind::Text {
            Response::Text(s)
        } else {
            Response::Failed(HostError::UnexpectedShape)
        },
        HostOutcome::Raised(m) => Response::Failed(HostError::Raised(m)),
        HostOutcome::Other => Response::Failed(HostError::UnexpectedShape),
    }
}

/// Whatever a host closure does, the pump's response has the shape that the
/// request expects, or is a failure: a tag mismatch can never come from it.
pub proof fn lemma_response_fits<V>(kind: ReturnKind, outcome: HostOutcome<V>)
    ensures
        respond_spec(kind, outcome).fits(kind),
        respond_spec(kind, outcome) is Failed <==> !(outcome matches HostOutcome::Value(_)
            && kind == ReturnKind::Value) && !(outcome matches HostOutcome::Text(_) && kind
            == ReturnKind::Text),
{
}

} // verus!
