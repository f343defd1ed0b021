use rpolars_bridge::envelope::{ClosureHandle, Request, Response};
use rpolars_bridge::error::{BridgeError, HostError};
use rpolars_bridge::pump::HostOutcome;
use rpolars_bridge::session::Session;

const HOST: u64 = 999;

fn double(v: &[i64]) -> Vec<i64> {
    v.iter().map(|x| x * 2).collect()
}

fn value_request(v: Vec<i64>) -> Request<Vec<i64>> {
    Request::ValueToValue { closure: ClosureHandle { slot: 0 }, arg: v }
}

fn value_of(r: Result<Option<Response<Vec<i64>>>, BridgeError>) -> Vec<i64> {
    match r {
        Ok(Some(Response::Value(v))) => v,
        other => panic!("expected a value, got {:?}", other),
    }
}

#[test]
fn register_is_idempotent_per_thread() {
    let mut s: Session<Vec<i64>> = Session::new(HOST);
    assert_eq!(s.register(10), Ok(0));
    assert_eq!(s.register(11), Ok(1));
    assert_eq!(s.register(10), Ok(0));
    assert_eq!(s.endpoints.len(), 2);
}

#[test]
fn endpoint_belongs_to_its_thread() {
    let mut s: Session<Vec<i64>> = Session::new(HOST);
    let ep = s.register(10).unwrap();
    assert_eq!(s.send(ep, 11, value_request(vec![1])), Err(BridgeError::ProtocolViolation));
    assert_eq!(s.send(5, 10, value_request(vec![1])), Err(BridgeError::ProtocolViolation));
    assert_eq!(s.send(ep, 10, value_request(vec![1])), Ok(()));
    assert_eq!(s.try_recv(ep, 11).unwrap_err(), BridgeError::ProtocolViolation);
}

#[test]
fn send_and_recv_alternate() {
    let mut s: Session<Vec<i64>> = Session::new(HOST);
    let ep = s.register(1).unwrap();
    assert_eq!(s.try_recv(ep, 1).unwrap_err(), BridgeError::ProtocolViolation);
    s.send(ep, 1, value_request(vec![1])).unwrap();
    assert_eq!(s.send(ep, 1, value_request(vec![2])), Err(BridgeError::ProtocolViolation));
    assert!(matches!(s.try_recv(ep, 1), Ok(None)));
    let req = s.take(ep).unwrap();
    assert!(matches!(req, Request::ValueToValue { arg, .. } if arg == vec![1]));
    assert!(s.take(ep).is_none());
    assert!(matches!(s.try_recv(ep, 1), Ok(None)));
    s.serve(ep, HostOutcome::Value(vec![2])).unwrap();
    assert_eq!(s.serve(ep, HostOutcome::Value(vec![2])), Err(BridgeError::ProtocolViolation));
    assert_eq!(value_of(s.try_recv(ep, 1)), vec![2]);
    assert_eq!(s.try_recv(ep, 1).unwrap_err(), BridgeError::ProtocolViolation);
    s.send(ep, 1, value_request(vec![3])).unwrap();
}

#[test]
fn serve_without_request_is_refused() {
    let mut s: Session<Vec<i64>> = Session::new(HOST);
    let ep = s.register(1).unwrap();
    assert_eq!(s.serve(ep, HostOutcome::Value(vec![1])), Err(BridgeError::ProtocolViolation));
    assert_eq!(s.serve(9, HostOutcome::Value(vec![1])), Err(BridgeError::ProtocolViolation));
    s.send(ep, 1, value_request(vec![1])).unwrap();
    assert_eq!(s.serve(ep, HostOutcome::Value(vec![1])), Err(BridgeError::ProtocolViolation));
}

#[test]
fn pump_serves_in_arrival_order() {
    let mut s: Session<Vec<i64>> = Session::new(HOST);
    let a = s.register(1).unwrap();
    let b = s.register(2).unwrap();
    let c = s.register(3).unwrap();
    assert_eq!(s.next_pending(), None);
    s.send(c, 3, value_request(vec![3])).unwrap();
    s.send(a, 1, value_request(vec![1])).unwrap();
    s.send(b, 2, value_request(vec![2])).unwrap();
    assert_eq!(s.next_pending(), Some(c));
    s.take(c).unwrap();
    assert_eq!(s.next_pending(), Some(a));
    s.take(a).unwrap();
    assert_eq!(s.next_pending(), Some(b));
    s.take(b).unwrap();
    assert_eq!(s.next_pending(), None);
}

#[test]
fn concurrent_exchanges_each_get_their_own_answer() {
    let mut s: Session<Vec<i64>> = Session::new(HOST);
    let n: u64 = 6;
    let eps: Vec<usize> = (0..n).map(|t| s.register(100 + t).unwrap()).collect();
    for (i, ep) in eps.iter().enumerate().rev() {
        s.send(*ep, 100 + i as u64, value_request(vec![i as i64, 10])).unwrap();
    }
    while let Some(ep) = s.next_pending() {
        let arg = match s.take(ep).unwrap() {
            Request::ValueToValue { arg, .. } => arg,
            _ => unreachable!(),
        };
        s.serve(ep, HostOutcome::Value(double(&arg))).unwrap();
    }
    for (i, ep) in eps.iter().enumerate() {
        assert_eq!(value_of(s.try_recv(*ep, 100 + i as u64)), double(&[i as i64, 10]));
    }
}

#[test]
fn raising_closure_fails_only_its_request() {
    let mut s: Session<Vec<i64>> = Session::new(HOST);
    let eps: Vec<usize> = (1..=3).map(|t| s.register(t).unwrap()).collect();
    for (i, ep) in eps.iter().enumerate() {
        s.send(*ep, i as u64 + 1, value_request(vec![i as i64 + 1])).unwrap();
    }
    while let Some(ep) = s.next_pending() {
        let arg = match s.take(ep).unwrap() {
            Request::ValueToValue { arg, .. } => arg,
            _ => unreachable!(),
        };
        let outcome = if ep == eps[1] {
            HostOutcome::Raised("always fails".to_string())
        } else {
            HostOutcome::Value(double(&arg))
        };
        s.serve(ep, outcome).unwrap();
    }
    assert_eq!(value_of(s.try_recv(eps[0], 1)), vec![2]);
    assert!(matches!(
        s.try_recv(eps[1], 2),
        Ok(Some(Response::Failed(HostError::Raised(m)))) if m == "always fails"
    ));
    assert_eq!(value_of(s.try_recv(eps[2], 3)), vec![6]);
}

#[test]
fn wrong_shape_from_host_is_a_failure_not_a_mismatch() {
    let mut s: Session<Vec<i64>> = Session::new(HOST);
    let ep = s.register(1).unwrap();
    s.send(ep, 1, Request::IndexToString { closure: ClosureHandle { slot: 0 }, index: 2 }).unwrap();
    s.take(ep).unwrap();
    s.serve(ep, HostOutcome::Value(vec![1])).unwrap();
    assert!(matches!(s.try_recv(ep, 1), Ok(Some(Response::Failed(HostError::UnexpectedShape)))));
}

#[test]
fn name_generator_exchange() {
    let mut s: Session<Vec<i64>> = Session::new(HOST);
    let ep = s.register(4).unwrap();
    s.send(ep, 4, Request::IndexToString { closure: ClosureHandle { slot: 0 }, index: 2 }).unwrap();
    let index = match s.take(ep).unwrap() {
        Request::IndexToString { index, .. } => index,
        _ => unreachable!(),
    };
    s.serve(ep, HostOutcome::Text(format!("field_{}", index))).unwrap();
    let name = s.try_recv(ep, 4).unwrap().unwrap().unwrap_text();
    assert_eq!(name, Ok("field_2".to_string()));
}

#[test]
fn close_releases_every_outstanding_request() {
    let mut s: Session<Vec<i64>> = Session::new(HOST);
    let eps: Vec<usize> = (1..=4).map(|t| s.register(t).unwrap()).collect();
    for (i, ep) in eps.iter().enumerate() {
        s.send(*ep, i as u64 + 1, value_request(vec![1])).unwrap();
    }
    s.take(eps[0]).unwrap();
    s.take(eps[1]).unwrap();
    s.serve(eps[1], HostOutcome::Value(vec![5])).unwrap();
    s.close();
    assert!(!s.is_open());
    for (i, ep) in eps.iter().enumerate() {
        assert_eq!(s.try_recv(*ep, i as u64 + 1).unwrap_err(), BridgeError::ChannelClosed);
    }
    assert_eq!(s.serve(eps[0], HostOutcome::Value(vec![1])), Err(BridgeError::ChannelClosed));
    assert_eq!(s.send(eps[2], 3, value_request(vec![1])), Err(BridgeError::ChannelClosed));
    assert_eq!(s.register(9), Err(BridgeError::ChannelClosed));
    assert_eq!(s.next_pending(), None);
}

#[test]
fn arrival_counter_exhausted() {
    let mut s: Session<Vec<i64>> = Session::new(HOST);
    let ep = s.register(1).unwrap();
    s.next_arrival = u64::MAX;
    assert_eq!(s.send(ep, 1, value_request(vec![1])), Err(BridgeError::QueueFull));
    assert!(matches!(s.try_recv(ep, 1).unwrap_err(), BridgeError::ProtocolViolation));
}

#[test]
fn host_thread_cannot_register() {
    let mut s: Session<Vec<i64>> = Session::new(HOST);
    assert_eq!(s.register(HOST), Err(BridgeError::ProtocolViolation));
    assert_eq!(s.endpoints.len(), 0);
    assert_eq!(s.register(1), Ok(0));
}
