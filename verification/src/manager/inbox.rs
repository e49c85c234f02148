//! Events on their way to callers that ask for one kind or for any.

use std::collections::VecDeque;

use vstd::prelude::*;

use crate::types::{HandyKeysEvent, HotkeyEvent, TapAloneEvent, TapPatternEvent};

verus! {

/// The most events that are kept for later.
pub const EVENT_BUFFER_LIMIT: usize = 1024;

/// A kind of event that callers can ask for.
#[derive(Debug, Clone, Copy, PartialEq, Eq, Structural)]
pub enum EventKind {
    Hotkey,
    TapPattern,
    TapAlone,
}

impl EventKind {
    /// Whether an event is of the kind.
    pub open spec fn covers(self, event: HandyKeysEvent) -> bool {
        match self {
            EventKind::Hotkey => event is Hotkey,
            EventKind::TapPattern => event is TapPattern,
            EventKind::TapAlone => event is TapAlone,
        }
    }

    fn check(&self, event: &HandyKeysEvent) -> (r: bool)
        ensures
            r <==> self.covers(*event),
    {
        match self {
            EventKind::Hotkey => matches!(event, HandyKeysEvent::Hotkey(_)),
            EventKind::TapPattern => matches!(event, HandyKeysEvent::TapPattern(_)),
            EventKind::TapAlone => matches!(event, HandyKeysEvent::TapAlone(_)),
        }
    }

    /// The place of the first event of the kind: behind the last event if there is none.
    pub open spec fn first_in(self, events: Seq<HandyKeysEvent>) -> nat
        decreases events.len(),
    {
        if events.len() == 0 || self.covers(events[0]) {
            0
        } else {
            self.first_in(events.drop_first()) + 1
        }
    }

    /// The first event of the kind is the only one of the kind up to its place.
    pub proof fn lemma_first_in(self, events: Seq<HandyKeysEvent>)
        ensures
            self.first_in(events) <= events.len(),
            forall|i: int| 0 <= i < self.first_in(events) ==> !self.covers(#[trigger] events[i]),
            self.first_in(events) < events.len() ==> self.covers(
                events[self.first_in(events) as int],
            ),
        decreases events.len(),
    {
        if events.len() > 0 && !self.covers(events[0]) {
            let rest = events.drop_first();
            self.lemma_first_in(rest);
            assert forall|i: int| 0 <= i < self.first_in(events) implies !self.covers(
                #[trigger] events[i],
            ) by {
                if i > 0 {
                    assert(rest[i - 1] == events[i]);
                }
            }
        }
    }

    /// A place with an event of the kind and none before it is the first.
    pub proof fn lemma_is_first(self, events: Seq<HandyKeysEvent>, i: int)
        requires
            0 <= i <= events.len(),
            forall|j: int| 0 <= j < i ==> !self.covers(#[trigger] events[j]),
            i < events.len() ==> self.covers(events[i]),
        ensures
            self.first_in(events) == i,
    {
        self.lemma_first_in(events);
        let first = self.first_in(events) as int;
        if first < i {
            assert(!self.covers(events[first]));
        }
        if i < first {
            assert(!self.covers(events[i]));
        }
    }
}

/// The latest events, as many as are kept.
pub open spec fn latest(events: Seq<HandyKeysEvent>) -> Seq<HandyKeysEvent> {
    if events.len() <= EVENT_BUFFER_LIMIT {
        events
    } else {
        events.skip(events.len() - EVENT_BUFFER_LIMIT)
    }
}

/// Events that have been sent but not received, and those that were passed over
/// by callers that asked for another kind.
pub struct EventInbox {
    /// The events that nobody has looked at.
    pub incoming: VecDeque<HandyKeysEvent>,
    /// The events that were passed over.
    pub event_buffer: VecDeque<HandyKeysEvent>,
}

impl EventInbox {
    /// No more events are kept for later than the limit.
    pub open spec fn inv(self) -> bool {
        self.event_buffer@.len() <= EVENT_BUFFER_LIMIT
    }

    /// Nothing sent.
    pub fn new() -> (r: EventInbox)
        ensures
            r.inv(),
            r.incoming@ == Seq::<HandyKeysEvent>::empty(),
            r.event_buffer@ == Seq::<HandyKeysEvent>::empty(),
    {
        EventInbox { incoming: VecDeque::new(), event_buffer: VecDeque::new() }
    }

    /// Takes in an event that has been sent.
    pub fn deliver(&mut self, event: HandyKeysEvent)
        ensures
            final(self).incoming@ == old(self).incoming@.push(event),
            final(self).event_buffer == old(self).event_buffer,
    {
        self.incoming.push_back(event);
    }

    /// Keeps an event for later; the oldest gives way if there is no room.
    pub fn buffer_event(&mut self, event: HandyKeysEvent)
        requires
            old(self).inv(),
        ensures
            final(self).inv(),
            final(self).event_buffer@ == latest(old(self).event_buffer@.push(event)),
            final(self).incoming == old(self).incoming,
    {
        if self.event_buffer.len() >= EVENT_BUFFER_LIMIT {
            self.event_buffer.pop_front();
        }
        self.event_buffer.push_back(event);
        assert(self.event_buffer@ =~= latest(old(self).event_buffer@.push(event)));
    }

    /// Takes out the oldest event that was passed over.
    pub fn pop_buffered_event(&mut self) -> (r: Option<HandyKeysEvent>)
        requires
            old(self).inv(),
        ensures
            final(self).inv(),
            final(self).incoming == old(self).incoming,
            match r {
                Some(event) => old(self).event_buffer@.len() > 0 && event == old(
                    self,
                ).event_buffer@[0] && final(self).event_buffer@ == old(
                    self,
                ).event_buffer@.drop_first(),
                None => old(self).event_buffer@.len() == 0 && final(self).event_buffer@ == old(
                    self,
                ).event_buffer@,
            },
    {
        self.event_buffer.pop_front()
    }

    /// Takes out the oldest event of a kind that was passed over.
    pub fn pop_buffered_matching(&mut self, kind: EventKind) -> (r: Option<HandyKeysEvent>)
        requires
            old(self).inv(),
        ensures
            final(self).inv(),
            final(self).incoming == old(self).incoming,
            ({
                let buffer = old(self).event_buffer@;
                let first = kind.first_in(buffer);
                if first < buffer.len() {
                    &&& r == Some(buffer[first as int])
                    &&& kind.covers(buffer[first as int])
                    &&& final(self).event_buffer@ == buffer.remove(first as int)
                } else {
                    r is None && final(self).event_buffer@ == buffer
                }
            }),
    {
        let mut i: usize = 0;
        while i < self.event_buffer.len()
            invariant
                *self == *old(self),
                self.inv(),
                i <= self.event_buffer@.len(),
                forall|j: int| 0 <= j < i ==> !kind.covers(#[trigger] self.event_buffer@[j]),
            decreases self.event_buffer@.len() - i,
        {
            if kind.check(&self.event_buffer[i]) {
                proof {
                    kind.lemma_is_first(self.event_buffer@, i as int);
                }
                return self.event_buffer.remove(i);
            }
            i = i + 1;
        }
        proof {
            kind.lemma_is_first(self.event_buffer@, i as int);
        }
        None
    }

    /// What asking for an event of a kind gives and leaves behind: the oldest
    /// that was passed over, or else the first that is coming in. Those that
    /// come in before it are kept for later.
    pub open spec fn receives(
        self,
        kind: EventKind,
        r: Option<HandyKeysEvent>,
        next: EventInbox,
    ) -> bool {
        let in_buffer = kind.first_in(self.event_buffer@);
        let ahead = kind.first_in(self.incoming@);
        if in_buffer < self.event_buffer@.len() {
            &&& r == Some(self.event_buffer@[in_buffer as int])
            &&& next.event_buffer@ == self.event_buffer@.remove(in_buffer as int)
            &&& next.incoming@ == self.incoming@
        } else if ahead < self.incoming@.len() {
            &&& r == Some(self.incoming@[ahead as int])
            &&& next.event_buffer@ == latest(self.event_buffer@ + self.incoming@.take(ahead as int))
            &&& next.incoming@ == self.incoming@.skip(ahead as int + 1)
        } else {
            &&& r is None
            &&& next.event_buffer@ == latest(self.event_buffer@ + self.incoming@)
            &&& next.incoming@ == Seq::<HandyKeysEvent>::empty()
        }
    }

    fn try_recv_kind(&mut self, kind: EventKind) -> (r: Option<HandyKeysEvent>)
        requires
            old(self).inv(),
        ensures
            final(self).inv(),
            old(self).receives(kind, r, *final(self)),
            r matches Some(event) ==> kind.covers(event),
    {
        if let Some(event) = self.pop_buffered_matching(kind) {
            return Some(event);
        }
        let ghost buffer = old(self).event_buffer@;
        let ghost sent = old(self).incoming@;
        let ghost mut passed: int = 0;
        assert(self.event_buffer@ =~= latest(buffer + sent.take(0)));
        assert(self.incoming@ =~= sent.skip(0));
        loop
            invariant
                self.inv(),
                buffer == old(self).event_buffer@,
                sent == old(self).incoming@,
                buffer.len() <= EVENT_BUFFER_LIMIT,
                kind.first_in(buffer) >= buffer.len(),
                0 <= passed <= sent.len(),
                self.incoming@ == sent.skip(passed),
                self.event_buffer@ == latest(buffer + sent.take(passed)),
                forall|j: int| 0 <= j < passed ==> !kind.covers(#[trigger] sent[j]),
            decreases sent.len() - passed,
        {
            match self.incoming.pop_front() {
                Some(event) => {
                    assert(event == sent[passed]);
                    assert(self.incoming@ =~= sent.skip(passed + 1));
                    if kind.check(&event) {
                        proof {
                            kind.lemma_is_first(sent, passed);
                        }
                        return Some(event);
                    }
                    self.buffer_event(event);
                    proof {
                        assert((buffer + sent.take(passed)).push(event) =~= buffer + sent.take(
                            passed + 1,
                        ));
                        assert(latest(latest(buffer + sent.take(passed)).push(event)) =~= latest(
                            (buffer + sent.take(passed)).push(event),
                        ));
                        passed = passed + 1;
                    }
                },
                None => {
                    proof {
                        kind.lemma_is_first(sent, passed);
                        assert(sent.take(passed) =~= sent);
                        assert(self.incoming@ =~= Seq::<HandyKeysEvent>::empty());
                    }
                    return None;
                },
            }
        }
    }

    /// Takes out an event about a hotkey.
    pub fn try_recv(&mut self) -> (r: Option<HotkeyEvent>)
        requires
            old(self).inv(),
        ensures
            final(self).inv(),
            match r {
                Some(event) => old(self).receives(
                    EventKind::Hotkey,
                    Some(HandyKeysEvent::Hotkey(event)),
                    *final(self),
                ),
                None => old(self).receives(EventKind::Hotkey, None, *final(self)),
            },
    {
        match self.try_recv_kind(EventKind::Hotkey) {
            Some(HandyKeysEvent::Hotkey(event)) => Some(event),
            _ => None,
        }
    }

    /// Takes out an event about a tap pattern.
    pub fn try_recv_tap_pattern(&mut self) -> (r: Option<TapPatternEvent>)
        requires
            old(self).inv(),
        ensures
            final(self).inv(),
            match r {
                Some(event) => old(self).receives(
                    EventKind::TapPattern,
                    Some(HandyKeysEvent::TapPattern(event)),
                    *final(self),
                ),
                None => old(self).receives(EventKind::TapPattern, None, *final(self)),
            },
    {
        match self.try_recv_kind(EventKind::TapPattern) {
            Some(HandyKeysEvent::TapPattern(event)) => Some(event),
            _ => None,
        }
    }

    /// Takes out an event about a tap-alone trigger.
    pub fn try_recv_tap_alone(&mut self) -> (r: Option<TapAloneEvent>)
        requires
            old(self).inv(),
        ensures
            final(self).inv(),
            match r {
                Some(event) => old(self).receives(
                    EventKind::TapAlone,
                    Some(HandyKeysEvent::TapAlone(event)),
                    *final(self),
                ),
                None => old(self).receives(EventKind::TapAlone, None, *final(self)),
            },
    {
        match self.try_recv_kind(EventKind::TapAlone) {
            Some(HandyKeysEvent::TapAlone(event)) => Some(event),
            _ => None,
        }
    }

    /// What asking for any event gives and leaves behind: the oldest that was
    /// passed over, or else the first that is coming in.
    pub open spec fn receives_any(self, r: Option<HandyKeysEvent>, next: EventInbox) -> bool {
        if self.event_buffer@.len() > 0 {
            &&& r == Some(self.event_buffer@[0])
            &&& next.event_buffer@ == self.event_buffer@.drop_first()
            &&& next.incoming@ == self.incoming@
        } else if self.incoming@.len() > 0 {
            &&& r == Some(self.incoming@[0])
            &&& next.event_buffer@ == self.event_buffer@
            &&& next.incoming@ == self.incoming@.drop_first()
        } else {
            &&& r is None
            &&& next.event_buffer@ == self.event_buffer@
            &&& next.incoming@ == self.incoming@
        }
    }

    /// Takes out the oldest event of any kind.
    pub fn try_recv_event(&mut self) -> (r: Option<HandyKeysEvent>)
        requires
            old(self).inv(),
        ensures
            final(self).inv(),
            old(self).receives_any(r, *final(self)),
    {
        if let Some(event) = self.pop_buffered_event() {
            return Some(event);
        }
        self.incoming.pop_front()
    }
}

} // verus!
