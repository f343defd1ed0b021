use vstd::prelude::*;
use crate::envelope::ClosureHandle;
use crate::error::BridgeError;

verus! {

/// Where a value that a closure captures lives.
#[derive(Debug, Clone, Copy, PartialEq, Eq, Structural)]
pub enum CaptureScope {
    /// A global or package binding of the host.
    Global,
    /// A value the host keeps alive as long as something refers to it.
    Heap,
    /// A value that lives only as long as the call that made the closure.
    CallStack,
}

/// A closure may be handed to other threads only if nothing it captures
/// dies with the call that made it.
pub open spec fn serializable(captures: Seq<CaptureScope>) -> bool {
    forall|i: int| 0 <= i < captures.len() ==> #[trigger] captures[i] != CaptureScope::CallStack
}

/// The host thread's table of closures that were made transportable. A
/// handle names a slot; a slot stays filled until its handle is released, and
/// is never reused, so a handle stays valid after the reference that made it
/// is gone, from whatever thread it is used.
#[derive(Debug)]
pub struct ClosureTable<C> {
    pub slots: Vec<Option<C>>,
}

impl<C> View for ClosureTable<C> {
    type V = Seq<Option<C>>;

    open spec fn view(&self) -> Seq<Option<C>> {
        self.slots@
    }
}

/// The table after serializing `closure`, and the result of doing so.
pub open spec fn serialize_spec<C>(t: Seq<Option<C>>, closure: C, captures: Seq<CaptureScope>) -> (
    Seq<Option<C>>,
    Result<ClosureHandle, BridgeError>,
) {
    if serializable(captures) {
        (t.push(Some(closure)), Ok(ClosureHandle { slot: t.len() as usize }))
    } else {
        (t, Err(BridgeError::NotSerializable))
    }
}

pub open spec fn release_spec<C>(t: Seq<Option<C>>, handle: ClosureHandle) -> Seq<Option<C>> {
    if handle.slot < t.len() {
        t.update(handle.slot as int, None)
    } else {
        t
    }
}

pub open spec fn lookup_spec<C>(t: Seq<Option<C>>, handle: ClosureHandle) -> Option<C> {
    if handle.slot < t.len() {
        t[handle.slot as int]
    } else {
        None
    }
}

impl<C> ClosureTable<C> {
    pub fn new() -> (t: ClosureTable<C>)
        ensures
            t@.len() == 0,
    {
        ClosureTable { slots: Vec::new() }
    }

    /// Makes `closure` transportable, given where each value it captures
    /// lives. Fails with `NotSerializable` if one lives on the call stack.
    pub fn serialize(&mut self, closure: C, captures: &Vec<CaptureScope>) -> (r: Result<ClosureHandle, BridgeError>)
        ensures
            (final(self)@, r) == serialize_spec(old(self)@, closure, captures@),
    {
        let mut i: usize = 0;
        while i < captures.len()
            invariant
                i <= captures.len(),
                forall|j: int| 0 <= j < i ==> #[trigger] captures@[j] != CaptureScope::CallStack,
            decreases captures.len() - i,
        {
            if captures[i] == CaptureScope::CallStack {
                return Err(BridgeError::NotSerializable);
            }
            i = i + 1;
        }
        let slot = self.slots.len();
        self.slots.push(Some(closure));
        Ok(ClosureHandle { slot })
    }

    /// The closure that `handle` names, while it is held.
    pub fn lookup(&self, handle: ClosureHandle) -> (r: Option<&C>)
        ensures
            r is Some <==> lookup_spec(self@, handle) is Some,
            r matches Some(c) ==> lookup_spec(self@, handle) == Some(*c),
    {
        if handle.slot < self.slots.len() {
            match &self.slots[handle.slot] {
                Some(c) => Some(c),
                None => None,
            }
        } else {
            None
        }
    }

    /// Lets the host drop the closure that `handle` names.
    pub fn release(&mut self, handle: ClosureHandle)
        ensures
            final(self)@ == release_spec(old(self)@, handle),
    {
        if handle.slot < self.slots.len() {
            self.slots.set(handle.slot, None);
        }
    }
}

/// One change to a closure table.
pub enum TableEvent<C> {
    Serialize(C, Seq<CaptureScope>),
    Release(ClosureHandle),
}

pub open spec fn table_step<C>(t: Seq<Option<C>>, event: TableEvent<C>) -> Seq<Option<C>> {
    match event {
        TableEvent::Serialize(closure, captures) => serialize_spec(t, closure, captures).0,
        TableEvent::Release(handle) => release_spec(t, handle),
    }
}

pub open spec fn table_run<C>(t: Seq<Option<C>>, events: Seq<TableEvent<C>>) -> Seq<Option<C>>
    decreases events.len(),
{
    if events.len() == 0 {
        t
    } else {
        table_run(table_step(t, events[0]), events.drop_first())
    }
}

/// A serialized closure outlives the reference it was made from: once
/// `serialize` hands out a handle, the closure stays reachable through it,
/// whatever else is serialized or released, until that handle is released.
pub proof fn lemma_handle_outlives_reference<C>(
    t: Seq<Option<C>>,
    closure: C,
    captures: Seq<CaptureScope>,
    events: Seq<TableEvent<C>>,
)
    requires
        t.len() < usize::MAX,
        serializable(captures),
        forall|i: int| 0 <= i < events.len() ==> #[trigger] events[i] != TableEvent::<C>::Release(
            ClosureHandle { slot: t.len() as usize },
        ),
    ensures
        ({
            let (t1, r) = serialize_spec(t, closure, captures);
            &&& r == Ok::<ClosureHandle, BridgeError>(ClosureHandle { slot: t.len() as usize })
            &&& lookup_spec(table_run(t1, events), r->Ok_0) == Some(closure)
        }),
{
    let t1 = serialize_spec(t, closure, captures).0;
    lemma_slot_kept(t1, t.len() as usize, closure, events);
}

proof fn lemma_slot_kept<C>(t: Seq<Option<C>>, slot: usize, closure: C, events: Seq<TableEvent<C>>)
    requires
        slot < t.len(),
        t[slot as int] == Some(closure),
        forall|i: int| 0 <= i < events.len() ==> #[trigger] events[i] != TableEvent::<C>::Release(
            ClosureHandle { slot },
        ),
    ensures
        slot < table_run(t, events).len(),
        table_run(t, events)[slot as int] == Some(closure),
    decreases events.len(),
{
    if events.len() > 0 {
        let rest = events.drop_first();
        assert(events[0] != TableEvent::<C>::Release(ClosureHandle { slot }));
        assert forall|i: int| 0 <= i < rest.len() implies #[trigger] rest[i] != TableEvent::<C>::Release(
            ClosureHandle { slot },
        ) by {
            assert(rest[i] == events[i + 1]);
        }
        lemma_slot_kept(table_step(t, events[0]), slot, closure, rest);
    }
}

} // verus!
