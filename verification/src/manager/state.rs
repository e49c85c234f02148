//! Registered hotkeys and taps, and what key events do to them.

use std::collections::{HashMap, HashSet};

use vstd::prelude::*;

use crate::error::Error;
use crate::tap_alone::TapAloneRecognizer;
use crate::tap_pattern::TapPatternRecognizer;
use crate::time::{Duration, Instant};
use crate::types::{
    HandyKeysEvent, Hotkey, HotkeyEvent, HotkeyId, HotkeyState, KeyEvent, TapAloneEvent, TapAloneId,
    TapPatternEvent,
};

verus! {

broadcast use vstd::std_specs::hash::group_hash_axioms;

/// The longest wait for a key event, in milliseconds.
pub const RECV_TIMEOUT_MILLIS: u64 = 100;

/// The longest wait for a key event, in nanoseconds.
pub const RECV_TIMEOUT_NANOS: u128 = 100_000_000;

/// What the manager and the event loop share.
pub struct ManagerState {
    pub hotkeys: HashMap<u32, Hotkey>,
    pub next_id: u32,
    /// The hotkeys that are down.
    pub pressed_hotkeys: HashSet<u32>,
    pub tap_patterns: TapPatternRecognizer,
    pub tap_alones: TapAloneRecognizer,
}

/// What one key event gave rise to, by kind.
pub struct ProcessedEvents {
    pub tap_alone_events: Vec<TapAloneEvent>,
    pub hotkey_events: Vec<HotkeyEvent>,
    pub tap_events: Vec<TapPatternEvent>,
}

/// Whether a key event presses a hotkey: its key, with the modifiers it asks for.
pub open spec fn strikes(event: KeyEvent, hotkey: Hotkey) -> bool {
    hotkey.modifiers.met_by(event.modifiers) && hotkey.key == event.key
}

/// Whether a key event releases a hotkey: its key goes up, or the modifiers
/// change to what it does not ask for.
pub open spec fn lets_go(event: KeyEvent, hotkey: Hotkey) -> bool {
    match event.key {
        Some(_) => hotkey.key == event.key,
        None => !hotkey.modifiers.met_by(event.modifiers),
    }
}

/// Whether a key event changes a hotkey that is up or down. One that reports
/// mouse activity changes none.
pub open spec fn moves(event: KeyEvent, hotkey: Hotkey, pressed: bool) -> bool {
    &&& event.activity is None
    &&& pressed != event.is_key_down
    &&& if event.is_key_down {
        strikes(event, hotkey)
    } else {
        lets_go(event, hotkey)
    }
}

impl ManagerState {
    /// The recognizers are in states that they can reach.
    pub open spec fn inv(self) -> bool {
        self.tap_patterns.inv() && self.tap_alones.inv()
    }

    /// Every registered id is below the next one, and no hotkey is registered twice.
    pub open spec fn registry_wf(self) -> bool {
        &&& forall|id: u32| #[trigger] self.hotkeys@.contains_key(id) ==> id < self.next_id
        &&& forall|a: u32, b: u32| #[trigger]
            self.hotkeys@.contains_key(a) && #[trigger] self.hotkeys@.contains_key(b)
                && self.hotkeys@[a] == self.hotkeys@[b] ==> a == b
    }

    /// Whether an event changes the hotkey of an id.
    pub open spec fn changes(self, event: KeyEvent, id: u32) -> bool {
        self.hotkeys@.contains_key(id) && moves(
            event,
            self.hotkeys@[id],
            self.pressed_hotkeys@.contains(id),
        )
    }

    /// Whether `events` tell of each hotkey that an event changes, once, in any order.
    pub open spec fn tells(self, event: KeyEvent, events: Seq<HotkeyEvent>) -> bool {
        &&& forall|i: int|
            0 <= i < events.len() ==> self.changes(event, (#[trigger] events[i]).id.0)
                && events[i].state == (if event.is_key_down {
                HotkeyState::Pressed
            } else {
                HotkeyState::Released
            })
        &&& forall|i: int, j: int|
            0 <= i < j < events.len() ==> (#[trigger] events[i]).id != (#[trigger] events[j]).id
        &&& forall|id: u32| #[trigger]
            self.changes(event, id) ==> exists|i: int|
                0 <= i < events.len() && (#[trigger] events[i]).id.0 == id
    }

    /// The hotkeys that are down after an event.
    pub open spec fn pressed_after(self, event: KeyEvent) -> Set<u32> {
        Set::new(
            |id: u32|
                if self.changes(event, id) {
                    event.is_key_down
                } else {
                    self.pressed_hotkeys@.contains(id)
                },
        )
    }

    /// Nothing registered and nothing held.
    pub fn new() -> (r: ManagerState)
        ensures
            r.inv(),
            r.registry_wf(),
            r.hotkeys@ == Map::<u32, Hotkey>::empty(),
            r.next_id == 0,
            r.pressed_hotkeys@ == Set::<u32>::empty(),
            r.tap_patterns@ == crate::tap_pattern::TapPatternModel::initial(),
            r.tap_alones@ == crate::tap_alone::TapAloneModel::initial(),
    {
        ManagerState {
            hotkeys: HashMap::new(),
            next_id: 0,
            pressed_hotkeys: HashSet::new(),
            tap_patterns: TapPatternRecognizer::new(),
            tap_alones: TapAloneRecognizer::new(),
        }
    }

    /// The hotkeys that an event changes.
    fn changed(&self, event: &KeyEvent) -> (r: Vec<u32>)
        ensures
            r@.no_duplicates(),
            forall|id: u32| #[trigger] r@.contains(id) <==> self.changes(*event, id),
    {
        let mut ids: Vec<u32> = Vec::new();
        let ghost mut places: Seq<int> = Seq::empty();
        for (id, hotkey) in it: self.hotkeys.iter()
            invariant
                it.seq() == vstd::std_specs::iter::IteratorSpec::remaining(
                    &vstd::std_specs::hash::spec_hash_map_iter(&self.hotkeys),
                ),
                it.seq().no_duplicates(),
                places.len() == ids@.len(),
                forall|k: int|
                    #![trigger ids@[k]]
                    #![trigger places[k]]
                    0 <= k < ids@.len() ==> self.changes(*event, ids@[k]) && 0 <= places[k]
                        < it.index() && *it.seq()[places[k]].0 == ids@[k],
                forall|k: int, l: int|
                    0 <= k < l < ids@.len() ==> #[trigger] places[k] < #[trigger] places[l],
                forall|i: int|
                    0 <= i < it.index() && self.changes(*event, *(#[trigger] it.seq()[i]).0)
                        ==> exists|k: int| 0 <= k < places.len() && #[trigger] places[k] == i,
        {
            let down = self.pressed_hotkeys.contains(id);
            let moved = if event.activity.is_some() {
                false
            } else if event.is_key_down {
                hotkey.modifiers.matches(event.modifiers) && hotkey.key == event.key && !down
            } else {
                down && ((event.key.is_some() && hotkey.key == event.key) || (event.key.is_none()
                    && !hotkey.modifiers.matches(event.modifiers)))
            };
            let ghost was = places;
            if moved {
                ids.push(*id);
                proof {
                    places = places.push(it.index());
                    assert(places[was.len() as int] == it.index());
                }
            }
            proof {
                assert forall|i: int|
                    0 <= i <= it.index() && self.changes(
                        *event,
                        *(#[trigger] it.seq()[i]).0,
                    ) implies exists|k: int| 0 <= k < places.len() && #[trigger] places[k] == i by {
                    if i < it.index() {
                        let k = choose|k: int| 0 <= k < was.len() && #[trigger] was[k] == i;
                        assert(places[k] == i);
                    }
                }
            }
        }
        proof {
            let pairs = vstd::std_specs::iter::IteratorSpec::remaining(
                &vstd::std_specs::hash::spec_hash_map_iter(&self.hotkeys),
            );
            assert forall|k: int, l: int| 0 <= k < ids@.len() && 0 <= l < ids@.len() && k
                != l implies ids@[k] != ids@[l] by {
                assert(pairs[places[k]] != pairs[places[l]]);
            }
            assert forall|id: u32| #[trigger] self.changes(*event, id) implies ids@.contains(
                id,
            ) by {
                let pair = (&id, &self.hotkeys@[id]);
                assert(pairs.contains(pair));
                let i = choose|i: int| 0 <= i < pairs.len() && pairs[i] == pair;
                let k = choose|k: int| 0 <= k < places.len() && #[trigger] places[k] == i;
                assert(ids@[k] == id);
            }
        }
        ids
    }

    /// Takes in a key event, and tells which hotkeys it presses or releases.
    pub fn process_event(&mut self, event: &KeyEvent) -> (r: Vec<HotkeyEvent>)
        ensures
            old(self).tells(*event, r@),
            final(self).pressed_hotkeys@ == old(self).pressed_after(*event),
            *final(self) == (ManagerState {
                pressed_hotkeys: final(self).pressed_hotkeys,
                ..*old(self)
            }),
    {
        let ids = self.changed(event);
        let mut told: Vec<HotkeyEvent> = Vec::new();
        let mut i: usize = 0;
        while i < ids.len()
            invariant
                i <= ids@.len(),
                ids@.no_duplicates(),
                forall|id: u32| #[trigger] ids@.contains(id) <==> old(self).changes(*event, id),
                told@.len() == i,
                forall|k: int|
                    0 <= k < i ==> (#[trigger] told@[k]).id.0 == ids@[k] && told@[k].state == (
                    if event.is_key_down {
                        HotkeyState::Pressed
                    } else {
                        HotkeyState::Released
                    }),
                *self == (ManagerState { pressed_hotkeys: self.pressed_hotkeys, ..*old(self) }),
                forall|id: u32| #[trigger]
                    self.pressed_hotkeys@.contains(id) <==> (if exists|k: int|
                        0 <= k < i && #[trigger] ids@[k] == id {
                        event.is_key_down
                    } else {
                        old(self).pressed_hotkeys@.contains(id)
                    }),
            decreases ids@.len() - i,
        {
            let id = ids[i];
            if event.is_key_down {
                self.pressed_hotkeys.insert(id);
                told.push(HotkeyEvent { id: HotkeyId(id), state: HotkeyState::Pressed });
            } else {
                self.pressed_hotkeys.remove(&id);
                told.push(HotkeyEvent { id: HotkeyId(id), state: HotkeyState::Released });
            }
            i = i + 1;
        }
        proof {
            assert forall|id: u32| #[trigger] old(self).changes(*event, id) implies exists|k: int|
                0 <= k < ids@.len() && #[trigger] ids@[k] == id && told@[k].id.0 == id by {
                assert(ids@.contains(id));
            }
            assert forall|k: int| 0 <= k < ids@.len() implies old(self).changes(
                *event,
                #[trigger] ids@[k],
            ) by {
                assert(ids@.contains(ids@[k]));
            }
            assert(self.pressed_hotkeys@ =~= old(self).pressed_after(*event));
            assert forall|id: u32| #[trigger] old(self).changes(*event, id) implies exists|i: int|
                0 <= i < told@.len() && (#[trigger] told@[i]).id.0 == id by {
                let k = choose|k: int|
                    0 <= k < ids@.len() && #[trigger] ids@[k] == id && told@[k].id.0 == id;
                assert(told@[k].id.0 == id);
            }
        }
        told
    }

    /// Whether a hotkey is registered.
    pub open spec fn registered(self, hotkey: Hotkey) -> bool {
        exists|id: u32| #[trigger]
            self.hotkeys@.contains_key(id) && self.hotkeys@[id] == hotkey
    }

    /// What registering a hotkey gives and leads to: the next id, unless the hotkey is
    /// registered already.
    pub open spec fn registers(
        self,
        hotkey: Hotkey,
        r: Result<HotkeyId, Error>,
        next: ManagerState,
    ) -> bool {
        match r {
            Ok(id) => {
                &&& !self.registered(hotkey)
                &&& id.0 == self.next_id
                &&& next.hotkeys@ == self.hotkeys@.insert(id.0, hotkey)
                &&& next.next_id == self.next_id + 1
                &&& next == (ManagerState { hotkeys: next.hotkeys, next_id: next.next_id, ..self })
            },
            Err(e) => {
                &&& next == self
                &&& e matches Error::HotkeyAlreadyRegistered(why)
                &&& exists|id: u32| #[trigger]
                    self.hotkeys@.contains_key(id) && self.hotkeys@[id] == hotkey && why@
                        == hotkey.shown() + " (id: "@ + HotkeyId(id).shown() + ")"@
            },
        }
    }

    /// What taking back the registration of an id gives and leads to.
    pub open spec fn unregisters(
        self,
        id: HotkeyId,
        r: Result<Hotkey, Error>,
        next: ManagerState,
    ) -> bool {
        match r {
            Ok(hotkey) => {
                &&& self.hotkeys@.contains_key(id.0)
                &&& self.hotkeys@[id.0] == hotkey
                &&& next.hotkeys@ == self.hotkeys@.remove(id.0)
                &&& next == (ManagerState { hotkeys: next.hotkeys, ..self })
            },
            Err(e) => {
                &&& !self.hotkeys@.contains_key(id.0)
                &&& e == Error::HotkeyNotFound(id)
                &&& next == self
            },
        }
    }

    /// Registers a hotkey under the next id.
    pub fn register(&mut self, hotkey: Hotkey) -> (r: Result<HotkeyId, Error>)
        requires
            old(self).registry_wf(),
            old(self).registered(hotkey) || old(self).next_id < u32::MAX,
        ensures
            final(self).registry_wf(),
            old(self).registers(hotkey, r, *final(self)),
    {
        if let Some(id) = self.id_of(hotkey) {
            let mut why = hotkey.show();
            why.append(" (id: ");
            why.append(id.show().as_str());
            why.append(")");
            return Err(Error::HotkeyAlreadyRegistered(why));
        }
        let id = HotkeyId(self.next_id);
        self.next_id = self.next_id + 1;
        self.hotkeys.insert(id.0, hotkey);
        Ok(id)
    }

    /// The id under which a hotkey is registered.
    pub fn id_of(&self, hotkey: Hotkey) -> (r: Option<HotkeyId>)
        ensures
            match r {
                Some(id) => self.hotkeys@.contains_key(id.0) && self.hotkeys@[id.0] == hotkey,
                None => !self.registered(hotkey),
            },
    {
        for (id, existing) in it: self.hotkeys.iter()
            invariant
                it.seq() == vstd::std_specs::iter::IteratorSpec::remaining(
                    &vstd::std_specs::hash::spec_hash_map_iter(&self.hotkeys),
                ),
                forall|i: int| 0 <= i < it.index() ==> *(#[trigger] it.seq()[i]).1 != hotkey,
        {
            if *existing == hotkey {
                return Some(HotkeyId(*id));
            }
        }
        None
    }

    /// Takes back the registration of an id, and says what was registered.
    pub fn unregister(&mut self, id: HotkeyId) -> (r: Result<Hotkey, Error>)
        requires
            old(self).registry_wf(),
        ensures
            final(self).registry_wf(),
            old(self).unregisters(id, r, *final(self)),
    {
        if !self.hotkeys.contains_key(&id.0) {
            return Err(Error::HotkeyNotFound(id));
        }
        match self.hotkeys.remove(&id.0) {
            Some(hotkey) => Ok(hotkey),
            None => Err(Error::HotkeyNotFound(id)),
        }
    }

    /// The hotkey registered under an id.
    pub fn get_hotkey(&self, id: HotkeyId) -> (r: Option<Hotkey>)
        ensures
            match r {
                Some(hotkey) => self.hotkeys@.contains_key(id.0) && hotkey == self.hotkeys@[id.0],
                None => !self.hotkeys@.contains_key(id.0),
            },
    {
        match self.hotkeys.get(&id.0) {
            Some(hotkey) => Some(*hotkey),
            None => None,
        }
    }

    /// Takes in a key event: the taps that are due fire first, then come the
    /// hotkeys that it presses or releases, then the tap pattern that it completes.
    pub fn process_all_events(&mut self, event: &KeyEvent, now: Instant) -> (r: ProcessedEvents)
        requires
            old(self).inv(),
            old(self).tap_alones@.deadline_fits(*event, now),
        ensures
            final(self).inv(),
            old(self).gives(*event, now, r),
            old(self).becomes(*event, now, *final(self)),
    {
        let tap_alone_events = self.tap_alones.process_event_at(event, now);
        let ghost mid = *self;
        let hotkey_events = self.process_event(event);
        let tap_events = self.tap_patterns.process_event_at(event, now);
        proof {
            assert(forall|id: u32|
                #![trigger mid.changes(*event, id)]
                #![trigger old(self).changes(*event, id)]
                mid.changes(*event, id) <==> old(self).changes(*event, id));
            assert(mid.pressed_after(*event) =~= old(self).pressed_after(*event));
        }
        ProcessedEvents { tap_alone_events, hotkey_events, tap_events }
    }

    /// Whether `events` are what a key event gives rise to.
    pub open spec fn gives(self, event: KeyEvent, now: Instant, events: ProcessedEvents) -> bool {
        &&& self.tap_alones@.fires(now, events.tap_alone_events@)
        &&& self.tells(event, events.hotkey_events@)
        &&& events.tap_events@ == self.tap_patterns@.emitted(event, now)
    }

    /// Whether `next` is the state after a key event.
    pub open spec fn becomes(self, event: KeyEvent, now: Instant, next: ManagerState) -> bool {
        &&& next.hotkeys == self.hotkeys
        &&& next.next_id == self.next_id
        &&& next.pressed_hotkeys@ == self.pressed_after(event)
        &&& next.tap_patterns@ == self.tap_patterns@.after(event, now)
        &&& next.tap_alones@ == self.tap_alones@.drained(now).after(event, now)
    }

    /// Whether a time is the longest that the event loop may wait: up to the
    /// next deadline, and no longer than its limit.
    pub open spec fn waits(self, now: Instant, nanos: u128) -> bool {
        &&& nanos <= RECV_TIMEOUT_NANOS
        &&& forall|id: TapAloneId| #[trigger]
            self.tap_alones@.pending(id) ==> nanos <= self.tap_alones@.deadline(id).nanos_since(now)
        &&& nanos == RECV_TIMEOUT_NANOS || exists|id: TapAloneId| #[trigger]
            self.tap_alones@.pending(id) && nanos == self.tap_alones@.deadline(id).nanos_since(now)
    }

    /// What the event loop does before it waits: it fires the taps that are
    /// due, and then waits for no longer than the time returned.
    pub fn before_wait(&mut self, now: Instant) -> (r: (Vec<HandyKeysEvent>, Duration))
        requires
            old(self).inv(),
        ensures
            final(self).inv(),
            old(self).drains(now, r.0@, *final(self)),
            final(self).waits(now, r.1.nanos),
    {
        let events = drain_expired_tap_alones(self, now);
        let timeout = recv_timeout_for_state(self, now);
        (events, timeout)
    }

    /// Whether `events` are the taps that are due, in order, and `next` is the
    /// state once they have fired.
    pub open spec fn drains(
        self,
        now: Instant,
        events: Seq<HandyKeysEvent>,
        next: ManagerState,
    ) -> bool {
        &&& exists|fired: Seq<TapAloneEvent>|
            #![trigger queued_taps(fired)]
            self.tap_alones@.fires(now, fired) && events == queued_taps(fired)
        &&& next.tap_alones@ == self.tap_alones@.drained(now)
        &&& next == (ManagerState { tap_alones: next.tap_alones, ..self })
    }

    /// Whether `r` is what the event loop sends when a wait is over, or nothing if
    /// it is to stop, and `next` is the state after it.
    pub open spec fn replies(
        self,
        reply: ListenerReply,
        now: Instant,
        r: Option<Vec<HandyKeysEvent>>,
        next: ManagerState,
    ) -> bool {
        match reply {
            ListenerReply::Event(event) => {
                &&& r matches Some(events)
                &&& exists|given: ProcessedEvents|
                    #![trigger queued(given)]
                    self.gives(event, now, given) && events@ == queued(given)
                &&& self.becomes(event, now, next)
            },
            ListenerReply::Timeout => {
                &&& r matches Some(events)
                &&& self.drains(now, events@, next)
            },
            ListenerReply::Closed => r is None && next == self,
        }
    }

    /// What the event loop does when a wait is over: the events to send, or
    /// nothing if it is to stop.
    pub fn after_wait(&mut self, reply: ListenerReply, now: Instant) -> (r: Option<
        Vec<HandyKeysEvent>,
    >)
        requires
            old(self).inv(),
            reply matches ListenerReply::Event(event) ==> old(self).tap_alones@.deadline_fits(
                event,
                now,
            ),
        ensures
            final(self).inv(),
            old(self).replies(reply, now, r, *final(self)),
    {
        match reply {
            ListenerReply::Event(event) => {
                let given = self.process_all_events(&event, now);
                Some(queue_processed_events(given))
            },
            ListenerReply::Timeout => Some(drain_expired_tap_alones(self, now)),
            ListenerReply::Closed => None,
        }
    }
}

/// What came of a wait for a key event.
#[derive(Debug, Clone, Copy)]
pub enum ListenerReply {
    /// A key event.
    Event(KeyEvent),
    /// None in time.
    Timeout,
    /// No more will come.
    Closed,
}

/// Tap-alone events as they are sent.
pub open spec fn queued_taps(events: Seq<TapAloneEvent>) -> Seq<HandyKeysEvent> {
    events.map_values(|event: TapAloneEvent| HandyKeysEvent::TapAlone(event))
}

/// The events of one key event as they are sent: taps alone come first, because
/// they were due before it, then hotkeys, then tap patterns.
pub open spec fn queued(events: ProcessedEvents) -> Seq<HandyKeysEvent> {
    queued_taps(events.tap_alone_events@) + events.hotkey_events@.map_values(
        |event: HotkeyEvent| HandyKeysEvent::Hotkey(event),
    ) + events.tap_events@.map_values(|event: TapPatternEvent| HandyKeysEvent::TapPattern(event))
}

/// Puts tap-alone events in the order in which they are sent.
pub fn queue_tap_alone_events(events: Vec<TapAloneEvent>) -> (r: Vec<HandyKeysEvent>)
    ensures
        r@ == queued_taps(events@),
{
    let mut queue: Vec<HandyKeysEvent> = Vec::new();
    let mut i: usize = 0;
    while i < events.len()
        invariant
            i <= events@.len(),
            queue@ == queued_taps(events@.take(i as int)),
        decreases events@.len() - i,
    {
        queue.push(HandyKeysEvent::TapAlone(events[i]));
        i = i + 1;
        assert(queue@ =~= queued_taps(events@.take(i as int)));
    }
    assert(events@.take(i as int) =~= events@);
    queue
}

/// Puts the events of one key event in the order in which they are sent.
pub fn queue_processed_events(events: ProcessedEvents) -> (r: Vec<HandyKeysEvent>)
    ensures
        r@ == queued(events),
{
    let ghost taps = queued_taps(events.tap_alone_events@);
    let hotkeys = events.hotkey_events;
    let patterns = events.tap_events;
    let ghost hotkeys_sent = hotkeys@.map_values(|event: HotkeyEvent| HandyKeysEvent::Hotkey(event));
    let ghost patterns_sent = patterns@.map_values(
        |event: TapPatternEvent| HandyKeysEvent::TapPattern(event),
    );
    let mut queue = queue_tap_alone_events(events.tap_alone_events);
    let mut i: usize = 0;
    assert(queue@ =~= taps + hotkeys_sent.take(0));
    while i < hotkeys.len()
        invariant
            i <= hotkeys@.len(),
            hotkeys_sent == hotkeys@.map_values(
                |event: HotkeyEvent| HandyKeysEvent::Hotkey(event),
            ),
            queue@ == taps + hotkeys_sent.take(i as int),
        decreases hotkeys@.len() - i,
    {
        queue.push(HandyKeysEvent::Hotkey(hotkeys[i]));
        i = i + 1;
        assert(queue@ =~= taps + hotkeys_sent.take(i as int));
    }
    i = 0;
    assert(queue@ =~= taps + hotkeys_sent + patterns_sent.take(0));
    while i < patterns.len()
        invariant
            i <= patterns@.len(),
            patterns_sent == patterns@.map_values(
                |event: TapPatternEvent| HandyKeysEvent::TapPattern(event),
            ),
            queue@ == taps + hotkeys_sent + patterns_sent.take(i as int),
        decreases patterns@.len() - i,
    {
        queue.push(HandyKeysEvent::TapPattern(patterns[i]));
        i = i + 1;
        assert(queue@ =~= taps + hotkeys_sent + patterns_sent.take(i as int));
    }
    assert(queue@ =~= taps + hotkeys_sent + patterns_sent);
    queue
}

/// Fires the taps that are due.
pub fn drain_expired_tap_alones(state: &mut ManagerState, now: Instant) -> (r: Vec<HandyKeysEvent>)
    requires
        old(state).inv(),
    ensures
        final(state).inv(),
        old(state).drains(now, r@, *final(state)),
{
    let fired = state.tap_alones.drain_expired_at(now);
    queue_tap_alone_events(fired)
}

/// The longest wait for a key event: up to the next deadline of a tap.
pub fn recv_timeout_for_state(state: &ManagerState, now: Instant) -> (r: Duration)
    requires
        state.inv(),
    ensures
        state.waits(now, r.nanos),
{
    let limit = Duration::from_millis(RECV_TIMEOUT_MILLIS);
    match state.tap_alones.next_deadline_at() {
        Some(deadline) => {
            let left = deadline.saturating_duration_since(now);
            if left.nanos < limit.nanos {
                left
            } else {
                limit
            }
        },
        None => limit,
    }
}

} // verus!
