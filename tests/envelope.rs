use rpolars_bridge::envelope::{ClosureHandle, Request, Response, ReturnKind};
use rpolars_bridge::error::{BridgeError, HostError};
use rpolars_bridge::pump::{respond, HostOutcome};

fn h(slot: usize) -> ClosureHandle {
    ClosureHandle { slot }
}

#[test]
fn return_kind_follows_variant() {
    let a: Request<Vec<i64>> = Request::ValueToValue { closure: h(0), arg: vec![1] };
    let b: Request<Vec<i64>> = Request::ValueAndIndexToString { closure: h(1), arg: vec![1], index: 3 };
    let c: Request<Vec<i64>> = Request::IndexToString { closure: h(2), index: 4 };
    assert_eq!(a.return_kind(), ReturnKind::Value);
    assert_eq!(b.return_kind(), ReturnKind::Text);
    assert_eq!(c.return_kind(), ReturnKind::Text);
    assert_eq!(a.closure(), h(0));
    assert_eq!(b.closure(), h(1));
    assert_eq!(c.closure(), h(2));
}

#[test]
fn unwrap_value_arms() {
    assert_eq!(Response::Value(vec![1i64, 2]).unwrap_value(), Ok(vec![1, 2]));
    assert_eq!(
        Response::<Vec<i64>>::Text("x".to_string()).unwrap_value(),
        Err(BridgeError::ProtocolViolation)
    );
    assert_eq!(
        Response::<Vec<i64>>::Failed(HostError::UnexpectedShape).unwrap_value(),
        Err(BridgeError::Host(HostError::UnexpectedShape))
    );
}

#[test]
fn unwrap_text_arms() {
    assert_eq!(Response::<Vec<i64>>::Text("a_b".to_string()).unwrap_text(), Ok("a_b".to_string()));
    assert_eq!(Response::Value(vec![1i64]).unwrap_text(), Err(BridgeError::ProtocolViolation));
    assert_eq!(
        Response::<Vec<i64>>::Failed(HostError::Raised("boom".to_string())).unwrap_text(),
        Err(BridgeError::Host(HostError::Raised("boom".to_string())))
    );
}

#[test]
fn respond_keeps_matching_shapes() {
    assert!(matches!(respond(ReturnKind::Value, HostOutcome::Value(vec![7i64])), Response::Value(v) if v == vec![7]));
    assert!(matches!(respond::<Vec<i64>>(ReturnKind::Text, HostOutcome::Text("n".to_string())), Response::Text(s) if s == "n"));
}

#[test]
fn respond_turns_wrong_shapes_into_failures() {
    assert!(matches!(
        respond(ReturnKind::Text, HostOutcome::Value(vec![7i64])),
        Response::Failed(HostError::UnexpectedShape)
    ));
    assert!(matches!(
        respond::<Vec<i64>>(ReturnKind::Value, HostOutcome::Text("n".to_string())),
        Response::Failed(HostError::UnexpectedShape)
    ));
    assert!(matches!(
        respond::<Vec<i64>>(ReturnKind::Value, HostOutcome::Other),
        Response::Failed(HostError::UnexpectedShape)
    ));
}

#[test]
fn respond_keeps_raise_message() {
    for kind in [ReturnKind::Value, ReturnKind::Text] {
        assert!(matches!(
            respond::<Vec<i64>>(kind, HostOutcome::Raised("bad".to_string())),
            Response::Failed(HostError::Raised(m)) if m == "bad"
        ));
    }
}
