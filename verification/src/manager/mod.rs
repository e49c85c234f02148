//! Platform-agnostic hotkey manager.

use vstd::prelude::*;

use crate::error::Error;
use crate::time::{Duration, Instant};
use crate::types::{
    HandyKeysEvent, Hotkey, HotkeyEvent, HotkeyId, TapAlone, TapAloneEvent, TapAloneId, TapPattern,
    TapPatternEvent, TapPatternId,
};

pub mod blocking;
pub mod effects;
pub mod event_loop;
pub mod inbox;
pub mod laws;
pub mod state;

pub use blocking::BlockingHotkeys;
pub use inbox::{EventInbox, EventKind, EVENT_BUFFER_LIMIT};
pub use state::{ListenerReply, ManagerState, ProcessedEvents};

verus! {

broadcast use vstd::std_specs::hash::group_hash_axioms;

/// Holds what is registered, filters key events against it, and keeps the
/// resulting events until they are received.
///
/// Registered hotkeys are blocked from reaching other applications if the
/// manager was made to block.
pub struct HotkeyManager {
    pub state: ManagerState,
    pub inbox: EventInbox,
    /// The hotkeys to block.
    pub blocking_hotkeys: Option<BlockingHotkeys>,
}

impl HotkeyManager {
    /// What every manager that these methods made satisfies. The hotkeys that
    /// are blocked are those that are registered.
    pub open spec fn inv(self) -> bool {
        &&& self.state.inv()
        &&& self.state.registry_wf()
        &&& self.inbox.inv()
        &&& self.blocking_hotkeys matches Some(blocking) ==> blocking.wf() && forall|hotkey: Hotkey|
            #[trigger] blocking@.contains(hotkey) <==> self.state.registered(hotkey)
    }

    /// Nothing registered, sent or held.
    pub open spec fn idle(self) -> bool {
        &&& self.state.hotkeys@ == Map::<u32, Hotkey>::empty()
        &&& self.state.next_id == 0
        &&& self.state.pressed_hotkeys@ == Set::<u32>::empty()
        &&& self.state.tap_patterns@ == crate::tap_pattern::TapPatternModel::initial()
        &&& self.state.tap_alones@ == crate::tap_alone::TapAloneModel::initial()
        &&& self.inbox.incoming@ == Seq::<HandyKeysEvent>::empty()
        &&& self.inbox.event_buffer@ == Seq::<HandyKeysEvent>::empty()
    }

    /// A manager that blocks nothing.
    pub fn new() -> (r: HotkeyManager)
        ensures
            r.inv(),
            r.idle(),
            r.blocking_hotkeys is None,
    {
        HotkeyManager {
            state: ManagerState::new(),
            inbox: EventInbox::new(),
            blocking_hotkeys: None,
        }
    }

    /// A manager that blocks the registered hotkeys.
    pub fn new_with_blocking() -> (r: HotkeyManager)
        ensures
            r.inv(),
            r.idle(),
            r.blocking_hotkeys matches Some(blocking) && blocking@ == Set::<Hotkey>::empty(),
    {
        HotkeyManager {
            state: ManagerState::new(),
            inbox: EventInbox::new(),
            blocking_hotkeys: Some(BlockingHotkeys::new()),
        }
    }

    /// Registers a hotkey, blocks it if the manager blocks, and returns its unique id.
    pub fn register(&mut self, hotkey: Hotkey) -> (r: Result<HotkeyId, Error>)
        requires
            old(self).inv(),
            old(self).state.registered(hotkey) || old(self).state.next_id < u32::MAX,
        ensures
            final(self).inv(),
            old(self).state.registers(hotkey, r, final(self).state),
            final(self).inbox == old(self).inbox,
            match old(self).blocking_hotkeys {
                Some(before) if r is Ok => final(self).blocking_hotkeys matches Some(after)
                    && after@ == before@.insert(hotkey),
                _ => final(self).blocking_hotkeys == old(self).blocking_hotkeys,
            },
    {
        let id = match self.state.register(hotkey) {
            Ok(id) => id,
            Err(e) => return Err(e),
        };
        if let Some(mut blocking) = self.blocking_hotkeys.take() {
            blocking.insert(hotkey);
            self.blocking_hotkeys = Some(blocking);
        }
        proof {
            let before = old(self).state;
            assert forall|other: Hotkey| self.state.registered(other) <==> before.registered(other)
                || other == hotkey by {
                if before.registered(other) {
                    let at = choose|at: u32| #[trigger]
                        before.hotkeys@.contains_key(at) && before.hotkeys@[at] == other;
                    assert(self.state.hotkeys@.contains_key(at));
                }
                assert(self.state.hotkeys@.contains_key(id.0));
            }
        }
        Ok(id)
    }

    /// Takes back the registration of a hotkey, and its blocking.
    pub fn unregister(&mut self, id: HotkeyId) -> (r: Result<(), Error>)
        requires
            old(self).inv(),
        ensures
            final(self).inv(),
            match r {
                Ok(_) => old(self).state.unregisters(
                    id,
                    Ok(old(self).state.hotkeys@[id.0]),
                    final(self).state,
                ),
                Err(e) => old(self).state.unregisters(id, Err(e), final(self).state),
            },
            final(self).inbox == old(self).inbox,
            match old(self).blocking_hotkeys {
                Some(before) if r is Ok => final(self).blocking_hotkeys matches Some(after)
                    && after@ == before@.remove(old(self).state.hotkeys@[id.0]),
                _ => final(self).blocking_hotkeys == old(self).blocking_hotkeys,
            },
    {
        let hotkey = match self.state.unregister(id) {
            Ok(hotkey) => hotkey,
            Err(e) => return Err(e),
        };
        if let Some(mut blocking) = self.blocking_hotkeys.take() {
            blocking.remove(hotkey);
            self.blocking_hotkeys = Some(blocking);
        }
        proof {
            let before = old(self).state;
            assert forall|other: Hotkey| self.state.registered(other) <==> before.registered(other)
                && other != hotkey by {
                if before.registered(other) && other != hotkey {
                    let at = choose|at: u32| #[trigger]
                        before.hotkeys@.contains_key(at) && before.hotkeys@[at] == other;
                    assert(self.state.hotkeys@.contains_key(at));
                }
                if self.state.registered(other) {
                    let at = choose|at: u32| #[trigger]
                        self.state.hotkeys@.contains_key(at) && self.state.hotkeys@[at] == other;
                    assert(before.hotkeys@.contains_key(at));
                    assert(before.hotkeys@.contains_key(id.0));
                }
            }
        }
        Ok(())
    }

    /// The hotkey registered under an id.
    pub fn get_hotkey(&self, id: HotkeyId) -> (r: Option<Hotkey>)
        ensures
            match r {
                Some(hotkey) => self.state.hotkeys@.contains_key(id.0) && hotkey
                    == self.state.hotkeys@[id.0],
                None => !self.state.hotkeys@.contains_key(id.0),
            },
    {
        self.state.get_hotkey(id)
    }

    /// Whether a hotkey is to be kept from other applications.
    pub fn is_blocked(&self, hotkey: Hotkey) -> (r: bool)
        ensures
            r <==> (self.blocking_hotkeys matches Some(blocking) && blocking@.contains(hotkey)),
    {
        match &self.blocking_hotkeys {
            Some(blocking) => blocking.contains(hotkey),
            None => false,
        }
    }

    /// The number of registered hotkeys.
    pub fn hotkey_count(&self) -> (r: usize)
        ensures
            r == self.state.hotkeys@.len(),
    {
        self.state.hotkeys.len()
    }

    /// Registers a tap pattern and returns its unique id.
    pub fn register_tap_pattern(&mut self, pattern: TapPattern) -> (r: Result<TapPatternId, Error>)
        requires
            old(self).inv(),
        ensures
            final(self).inv(),
            old(self).state.tap_patterns@.registers(pattern, r, final(self).state.tap_patterns@),
            *final(self) == (HotkeyManager {
                state: ManagerState { tap_patterns: final(self).state.tap_patterns, ..old(self).state },
                ..*old(self)
            }),
    {
        let r = self.state.tap_patterns.register(pattern);
        proof {
            self.lemma_same_hotkeys(*old(self));
        }
        r
    }

    /// Takes back the registration of a tap pattern.
    pub fn unregister_tap_pattern(&mut self, id: TapPatternId) -> (r: Result<(), Error>)
        requires
            old(self).inv(),
        ensures
            final(self).inv(),
            old(self).state.tap_patterns@.unregisters(id, r, final(self).state.tap_patterns@),
            *final(self) == (HotkeyManager {
                state: ManagerState { tap_patterns: final(self).state.tap_patterns, ..old(self).state },
                ..*old(self)
            }),
    {
        let r = self.state.tap_patterns.unregister(id);
        proof {
            self.lemma_same_hotkeys(*old(self));
        }
        r
    }

    /// The tap pattern registered under an id.
    pub fn get_tap_pattern(&self, id: TapPatternId) -> (r: Option<TapPattern>)
        requires
            self.inv(),
        ensures
            r == self.state.tap_patterns@.pattern(id),
    {
        self.state.tap_patterns.get(id)
    }

    /// The number of registered tap patterns.
    pub fn tap_pattern_count(&self) -> (r: usize)
        ensures
            r == self.state.tap_patterns@.patterns.len(),
    {
        self.state.tap_patterns.count()
    }

    /// Registers a tap-alone trigger and returns its unique id.
    pub fn register_tap_alone(&mut self, pattern: TapAlone) -> (r: Result<TapAloneId, Error>)
        requires
            old(self).inv(),
        ensures
            final(self).inv(),
            old(self).state.tap_alones@.registers(pattern, r, final(self).state.tap_alones@),
            *final(self) == (HotkeyManager {
                state: ManagerState { tap_alones: final(self).state.tap_alones, ..old(self).state },
                ..*old(self)
            }),
    {
        let r = self.state.tap_alones.register(pattern);
        proof {
            self.lemma_same_hotkeys(*old(self));
        }
        r
    }

    /// Takes back the registration of a tap-alone trigger.
    pub fn unregister_tap_alone(&mut self, id: TapAloneId) -> (r: Result<(), Error>)
        requires
            old(self).inv(),
        ensures
            final(self).inv(),
            old(self).state.tap_alones@.unregisters(id, r, final(self).state.tap_alones@),
            *final(self) == (HotkeyManager {
                state: ManagerState { tap_alones: final(self).state.tap_alones, ..old(self).state },
                ..*old(self)
            }),
    {
        let r = self.state.tap_alones.unregister(id);
        proof {
            self.lemma_same_hotkeys(*old(self));
        }
        r
    }

    /// The tap-alone trigger registered under an id.
    pub fn get_tap_alone(&self, id: TapAloneId) -> (r: Option<TapAlone>)
        requires
            self.inv(),
        ensures
            r == self.state.tap_alones@.pattern(id),
    {
        self.state.tap_alones.get(id)
    }

    /// The number of registered tap-alone triggers.
    pub fn tap_alone_count(&self) -> (r: usize)
        ensures
            r == self.state.tap_alones@.patterns.len(),
    {
        self.state.tap_alones.count()
    }

    /// The blocked hotkeys are still the registered ones where neither has changed.
    proof fn lemma_same_hotkeys(self, before: HotkeyManager)
        requires
            before.inv(),
            self.state.hotkeys == before.state.hotkeys,
            self.state.next_id == before.state.next_id,
            self.blocking_hotkeys == before.blocking_hotkeys,
            self.state.inv(),
            self.inbox.inv(),
        ensures
            self.inv(),
    {
        assert forall|hotkey: Hotkey| #[trigger] self.state.registered(hotkey)
            <==> before.state.registered(hotkey) by {
            if self.state.registered(hotkey) {
                let at = choose|at: u32| #[trigger]
                    self.state.hotkeys@.contains_key(at) && self.state.hotkeys@[at] == hotkey;
                assert(before.state.hotkeys@.contains_key(at));
            }
            if before.state.registered(hotkey) {
                let at = choose|at: u32| #[trigger]
                    before.state.hotkeys@.contains_key(at) && before.state.hotkeys@[at] == hotkey;
                assert(self.state.hotkeys@.contains_key(at));
            }
        }
    }

    /// What the event loop does before it waits for a key event: it sends the
    /// events, and then waits for no longer than the time returned.
    pub fn before_wait(&mut self, now: Instant) -> (r: (Vec<HandyKeysEvent>, Duration))
        requires
            old(self).inv(),
        ensures
            final(self).inv(),
            old(self).state.drains(now, r.0@, final(self).state),
            final(self).state.waits(now, r.1.nanos),
            final(self).inbox == old(self).inbox,
            final(self).blocking_hotkeys == old(self).blocking_hotkeys,
    {
        let r = self.state.before_wait(now);
        proof {
            self.lemma_same_hotkeys(*old(self));
        }
        r
    }

    /// What the event loop does when the wait is over: it sends the events, or
    /// stops if there is nothing.
    pub fn after_wait(&mut self, reply: ListenerReply, now: Instant) -> (r: Option<
        Vec<HandyKeysEvent>,
    >)
        requires
            old(self).inv(),
            reply matches ListenerReply::Event(event) ==> old(
                self,
            ).state.tap_alones@.deadline_fits(event, now),
        ensures
            final(self).inv(),
            old(self).state.replies(reply, now, r, final(self).state),
            final(self).inbox == old(self).inbox,
            final(self).blocking_hotkeys == old(self).blocking_hotkeys,
    {
        let r = self.state.after_wait(reply, now);
        proof {
            self.lemma_same_hotkeys(*old(self));
        }
        r
    }

    /// Takes in an event that has been sent, for callers to receive.
    pub fn deliver(&mut self, event: HandyKeysEvent)
        requires
            old(self).inv(),
        ensures
            final(self).inv(),
            final(self).inbox.incoming@ == old(self).inbox.incoming@.push(event),
            final(self).inbox.event_buffer == old(self).inbox.event_buffer,
            final(self).state == old(self).state,
            final(self).blocking_hotkeys == old(self).blocking_hotkeys,
    {
        self.inbox.deliver(event);
    }

    /// Receives an event about a hotkey, if there is one. Other events that it
    /// passes over are kept, in order and up to a limit, for other callers.
    pub fn try_recv(&mut self) -> (r: Option<HotkeyEvent>)
        requires
            old(self).inv(),
        ensures
            final(self).inv(),
            match r {
                Some(event) => old(self).inbox.receives(
                    EventKind::Hotkey,
                    Some(HandyKeysEvent::Hotkey(event)),
                    final(self).inbox,
                ),
                None => old(self).inbox.receives(EventKind::Hotkey, None, final(self).inbox),
            },
            final(self).state == old(self).state,
            final(self).blocking_hotkeys == old(self).blocking_hotkeys,
    {
        self.inbox.try_recv()
    }

    /// Receives an event about a tap pattern, if there is one. Other events that it
    /// passes over are kept, in order and up to a limit, for other callers.
    pub fn try_recv_tap_pattern(&mut self) -> (r: Option<TapPatternEvent>)
        requires
            old(self).inv(),
        ensures
            final(self).inv(),
            match r {
                Some(event) => old(self).inbox.receives(
                    EventKind::TapPattern,
                    Some(HandyKeysEvent::TapPattern(event)),
                    final(self).inbox,
                ),
                None => old(self).inbox.receives(EventKind::TapPattern, None, final(self).inbox),
            },
            final(self).state == old(self).state,
            final(self).blocking_hotkeys == old(self).blocking_hotkeys,
    {
        self.inbox.try_recv_tap_pattern()
    }

    /// Receives an event about a tap-alone trigger, if there is one. Other events that it
    /// passes over are kept, in order and up to a limit, for other callers.
    pub fn try_recv_tap_alone(&mut self) -> (r: Option<TapAloneEvent>)
        requires
            old(self).inv(),
        ensures
            final(self).inv(),
            match r {
                Some(event) => old(self).inbox.receives(
                    EventKind::TapAlone,
                    Some(HandyKeysEvent::TapAlone(event)),
                    final(self).inbox,
                ),
                None => old(self).inbox.receives(EventKind::TapAlone, None, final(self).inbox),
            },
            final(self).state == old(self).state,
            final(self).blocking_hotkeys == old(self).blocking_hotkeys,
    {
        self.inbox.try_recv_tap_alone()
    }

    /// Receives an event of any kind, if there is one. Those that were passed over come first.
    pub fn try_recv_event(&mut self) -> (r: Option<HandyKeysEvent>)
        requires
            old(self).inv(),
        ensures
            final(self).inv(),
            old(self).inbox.receives_any(r, final(self).inbox),
            final(self).state == old(self).state,
            final(self).blocking_hotkeys == old(self).blocking_hotkeys,
    {
        self.inbox.try_recv_event()
    }
}

} // verus!
