use rpolars_bridge::closure::{CaptureScope, ClosureTable};
use rpolars_bridge::envelope::{ClosureHandle, Request};
use rpolars_bridge::error::BridgeError;

#[test]
fn serialize_refuses_stack_captures() {
    let mut t: ClosureTable<String> = ClosureTable::new();
    let r = t.serialize("f".to_string(), &vec![CaptureScope::Global, CaptureScope::CallStack]);
    assert_eq!(r, Err(BridgeError::NotSerializable));
    assert_eq!(t.slots.len(), 0);
}

#[test]
fn serialize_hands_out_fresh_slots() {
    let mut t: ClosureTable<String> = ClosureTable::new();
    assert_eq!(t.serialize("f".to_string(), &vec![]), Ok(ClosureHandle { slot: 0 }));
    assert_eq!(
        t.serialize("g".to_string(), &vec![CaptureScope::Heap, CaptureScope::Global]),
        Ok(ClosureHandle { slot: 1 })
    );
    assert_eq!(t.lookup(ClosureHandle { slot: 1 }), Some(&"g".to_string()));
    assert_eq!(t.lookup(ClosureHandle { slot: 2 }), None);
}

#[test]
fn handle_survives_its_reference() {
    let mut t: ClosureTable<Box<dyn Fn(i64) -> i64>> = ClosureTable::new();
    let offset = 40;
    let handle = {
        let f: Box<dyn Fn(i64) -> i64> = Box::new(move |x| x + offset);
        t.serialize(f, &vec![CaptureScope::Heap]).unwrap()
    };
    let other = t.serialize(Box::new(|x| x), &vec![]).unwrap();
    t.release(other);
    // a copy of the handle, as another thread would carry it in a request
    let request: Request<i64> = Request::ValueToValue { closure: handle, arg: 2 };
    let f = t.lookup(request.closure()).unwrap();
    assert_eq!(f(2), 42);
    assert!(t.lookup(other).is_none());
}

#[test]
fn release_frees_only_its_slot() {
    let mut t: ClosureTable<u8> = ClosureTable::new();
    let a = t.serialize(1, &vec![]).unwrap();
    let b = t.serialize(2, &vec![]).unwrap();
    t.release(a);
    t.release(ClosureHandle { slot: 7 });
    assert_eq!(t.lookup(a), None);
    assert_eq!(t.lookup(b), Some(&2));
    assert_eq!(t.serialize(3, &vec![]), Ok(ClosureHandle { slot: 2 }));
}
