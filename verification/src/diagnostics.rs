//! Bounded, structured diagnostics events kept in memory.

use std::collections::VecDeque;
use std::time::SystemTime;

use vstd::prelude::*;

verus! {

/// `std::time::SystemTime`, carried through as an opaque timestamp.
#[verifier::external_type_specification]
#[verifier::external_body]
pub struct ExSystemTime(SystemTime);

/// The severity assigned to a diagnostics event.
#[derive(Clone, Copy, Debug, PartialEq, Eq, Structural)]
pub enum DiagnosticLevel {
    Info,
    Warning,
    Error,
}

/// Bounded, structured metadata about an application event.
#[derive(Clone, Copy, Debug, PartialEq, Eq)]
pub struct DiagnosticEvent {
    pub timestamp: SystemTime,
    pub level: DiagnosticLevel,
    pub component: &'static str,
    pub event: &'static str,
    pub error_code: Option<&'static str>,
}

/// The newest `capacity` events of `history`, oldest first.
pub open spec fn retained(history: Seq<DiagnosticEvent>, capacity: nat) -> Seq<DiagnosticEvent> {
    if history.len() <= capacity {
        history
    } else {
        history.subrange(history.len() - capacity, history.len() as int)
    }
}

/// What a recorder holding `events` holds after recording `event`.
pub open spec fn after_record(
    events: Seq<DiagnosticEvent>,
    capacity: nat,
    event: DiagnosticEvent,
) -> Seq<DiagnosticEvent> {
    retained(events.push(event), capacity)
}

/// An in-memory, per-instance bounded recorder for diagnostic events.
#[derive(Debug)]
pub struct DiagnosticsRecorder {
    events: VecDeque<DiagnosticEvent>,
    capacity: usize,
}

impl View for DiagnosticsRecorder {
    type V = Seq<DiagnosticEvent>;

    /// The retained events, oldest first.
    closed spec fn view(&self) -> Seq<DiagnosticEvent> {
        self.events@
    }
}

impl DiagnosticsRecorder {
    #[verifier::type_invariant]
    closed spec fn inv(self) -> bool {
        self.events@.len() <= self.capacity
    }

    /// The most events the recorder keeps.
    pub closed spec fn capacity(&self) -> nat {
        self.capacity as nat
    }

    pub fn new(capacity: usize) -> (recorder: DiagnosticsRecorder)
        ensures
            recorder@ == Seq::<DiagnosticEvent>::empty(),
            recorder.capacity() == capacity,
    {
        DiagnosticsRecorder { events: VecDeque::with_capacity(capacity), capacity }
    }

    /// Appends `event`, first evicting the oldest events so that at most `capacity` remain; a
    /// recorder of capacity zero keeps nothing.
    pub fn record(&mut self, event: DiagnosticEvent)
        ensures
            final(self).capacity() == old(self).capacity(),
            final(self)@ == after_record(old(self)@, old(self).capacity(), event),
            final(self)@.len() <= final(self).capacity(),
    {
        proof {
            use_type_invariant(&*self);
        }
        if self.capacity == 0 {
            assert(after_record(self@, 0, event) =~= Seq::<DiagnosticEvent>::empty());
            return;
        }
        let ghost before = self.events@;
        let mut events: VecDeque<DiagnosticEvent> = VecDeque::new();
        std::mem::swap(&mut events, &mut self.events);
        while events.len() >= self.capacity
            invariant
                self.capacity > 0,
                events@.len() <= self.capacity,
                before.len() <= self.capacity,
                events@ == before.subrange(before.len() - events@.len(), before.len() as int),
                events@.len() == before.len() || (before.len() == self.capacity && events@.len()
                    == self.capacity - 1),
            decreases events@.len(),
        {
            events.pop_front();
            assert(events@ =~= before.subrange(before.len() - events@.len(), before.len() as int));
        }
        events.push_back(event);
        assert(events@ =~= after_record(before, self.capacity as nat, event));
        self.events = events;
    }

    /// The retained events, oldest first.
    pub fn events(&self) -> (events: Vec<DiagnosticEvent>)
        ensures
            events@ == self@,
    {
        let mut events: Vec<DiagnosticEvent> = Vec::new();
        let mut i: usize = 0;
        while i < self.events.len()
            invariant
                0 <= i <= self.events@.len(),
                events@ == self.events@.subrange(0, i as int),
            decreases self.events@.len() - i,
        {
            events.push(self.events[i]);
            i = i + 1;
            assert(events@ =~= self.events@.subrange(0, i as int));
        }
        assert(events@ =~= self.events@);
        events
    }

    pub fn len(&self) -> (length: usize)
        ensures
            length == self@.len(),
            length <= self.capacity(),
    {
        proof {
            use_type_invariant(self);
        }
        self.events.len()
    }

    pub fn is_empty(&self) -> (empty: bool)
        ensures
            empty == (self@.len() == 0),
    {
        self.events.len() == 0
    }
}

/// A recorder that has kept the newest `capacity` events of `history` keeps the newest
/// `capacity` events of `history` followed by `event` once `event` is recorded: whatever has
/// been recorded, the recorder holds exactly the newest `capacity` events, oldest first.
pub proof fn lemma_record_keeps_newest(
    history: Seq<DiagnosticEvent>,
    capacity: nat,
    event: DiagnosticEvent,
)
    ensures
        after_record(retained(history, capacity), capacity, event) == retained(
            history.push(event),
            capacity,
        ),
        retained(history, capacity).len() <= capacity,
{
    let h = history.push(event);
    if history.len() < capacity {
    } else if capacity == 0 {
        assert(retained(h, 0) =~= Seq::<DiagnosticEvent>::empty());
        assert(retained(retained(history, 0).push(event), 0) =~= Seq::<DiagnosticEvent>::empty());
    } else {
        let r = retained(history, capacity);
        assert(r.len() == capacity);
        assert(retained(r.push(event), capacity) =~= retained(h, capacity));
    }
}

} // verus!
