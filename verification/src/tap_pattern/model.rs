//! The tap-pattern recognizer as a state machine.

use vstd::prelude::*;

use crate::error::Error;
use crate::time::Instant;
use crate::types::{KeyEvent, TapPattern, TapPatternEvent, TapPatternId, TriggerKey};

verus! {

/// Taps of one trigger that have not completed a pattern yet.
#[derive(Debug, Clone, Copy)]
pub struct ActiveTapSequence {
    pub trigger: TriggerKey,
    pub count: u8,
    pub last_tap_at: Instant,
}

/// Whether the pattern under an id has a trigger.
pub open spec fn serves(patterns: Map<u32, TapPattern>, id: u32, trigger: TriggerKey) -> bool {
    patterns.contains_key(id) && patterns[id].trigger == trigger
}

/// What a tap-pattern recognizer knows.
pub struct TapPatternModel {
    pub patterns: Map<u32, TapPattern>,
    pub next_id: u32,
    /// The triggers that are down.
    pub held: Set<TriggerKey>,
    /// The taps that the next one may follow.
    pub active: Option<ActiveTapSequence>,
}

impl TapPatternModel {
    /// Nothing registered and nothing held.
    pub open spec fn initial() -> TapPatternModel {
        TapPatternModel { patterns: Map::empty(), next_id: 1, held: Set::empty(), active: None }
    }

    /// What holds in every state that a recognizer reaches.
    pub open spec fn wf(self) -> bool {
        self.triggers_differ() && self.ids_below_next()
    }

    /// Every registered pattern has a trigger of its own.
    pub open spec fn triggers_differ(self) -> bool {
        forall|a: u32, b: u32| #[trigger]
            self.patterns.contains_key(a) && #[trigger] self.patterns.contains_key(b)
                && self.patterns[a].trigger == self.patterns[b].trigger ==> a == b
    }

    /// The next id is above every registered one, until ids run out.
    pub open spec fn ids_below_next(self) -> bool {
        &&& self.next_id >= 1
        &&& forall|id: u32| #[trigger]
            self.patterns.contains_key(id) ==> id < self.next_id || self.next_id == u32::MAX
    }

    /// Whether a pattern is registered for a trigger.
    pub open spec fn registered(self, trigger: TriggerKey) -> bool {
        exists|id: u32| serves(self.patterns, id, trigger)
    }

    /// The id of the pattern registered for a trigger.
    pub open spec fn id_for(self, trigger: TriggerKey) -> u32
        recommends
            self.registered(trigger),
    {
        choose|id: u32| serves(self.patterns, id, trigger)
    }

    /// The pattern registered for a trigger.
    pub open spec fn pattern_for(self, trigger: TriggerKey) -> TapPattern
        recommends
            self.registered(trigger),
    {
        self.patterns[self.id_for(trigger)]
    }

    /// The trigger that an event presses: one that goes down and was not down before.
    pub open spec fn press(self, event: KeyEvent) -> Option<TriggerKey> {
        match TriggerKey::of_event(event) {
            Some(trigger) => if event.is_key_down && !self.held.contains(trigger) {
                Some(trigger)
            } else {
                None
            },
            None => None,
        }
    }

    /// Whether a press now follows the taps before it: they are of the same
    /// trigger, and the last was no longer ago than the pattern allows.
    pub open spec fn follows(self, trigger: TriggerKey, now: Instant) -> bool {
        match self.active {
            Some(active) => active.trigger == trigger && active.last_tap_at.nanos <= now.nanos
                && now.nanos - active.last_tap_at.nanos <= self.pattern_for(trigger).timeout.nanos,
            None => false,
        }
    }

    /// The number of taps that a press now makes.
    pub open spec fn taps(self, trigger: TriggerKey, now: Instant) -> u8 {
        if !self.follows(trigger, now) {
            1
        } else if self.active->0.count == u8::MAX {
            u8::MAX
        } else {
            (self.active->0.count + 1) as u8
        }
    }

    /// Whether a press now completes its pattern.
    pub open spec fn completes(self, trigger: TriggerKey, now: Instant) -> bool {
        self.registered(trigger) && self.taps(trigger, now) >= self.pattern_for(trigger).tap_count
    }

    /// The events that an event gives rise to.
    pub open spec fn emitted(self, event: KeyEvent, now: Instant) -> Seq<TapPatternEvent> {
        match self.press(event) {
            Some(trigger) => if self.completes(trigger, now) {
                seq![
                    TapPatternEvent {
                        id: TapPatternId(self.id_for(trigger)),
                        tap_count: self.taps(trigger, now),
                        is_key_down: true,
                    },
                ]
            } else {
                Seq::empty()
            },
            None => Seq::empty(),
        }
    }

    /// The triggers that are down after an event.
    pub open spec fn held_after(self, event: KeyEvent) -> Set<TriggerKey> {
        match TriggerKey::of_event(event) {
            Some(trigger) => if event.is_key_down {
                self.held.insert(trigger)
            } else {
                self.held.remove(trigger)
            },
            None => self.held,
        }
    }

    /// The taps under way after an event. A press of a registered trigger counts
    /// as a tap and ends the taps of any other; one that completes its pattern
    /// leaves none; a press of another trigger interrupts.
    pub open spec fn active_after(self, event: KeyEvent, now: Instant) -> Option<
        ActiveTapSequence,
    > {
        match self.press(event) {
            None => self.active,
            Some(trigger) => if self.completes(trigger, now) {
                None
            } else if self.registered(trigger) {
                Some(
                    ActiveTapSequence {
                        trigger,
                        count: self.taps(trigger, now),
                        last_tap_at: now,
                    },
                )
            } else if self.active matches Some(active) && active.trigger != trigger {
                None
            } else {
                self.active
            },
        }
    }

    /// What an event does.
    pub open spec fn after(self, event: KeyEvent, now: Instant) -> TapPatternModel {
        TapPatternModel {
            held: self.held_after(event),
            active: self.active_after(event, now),
            ..self
        }
    }

    /// The next id after `id` has been used up.
    pub open spec fn id_after(id: u32) -> u32 {
        if id == u32::MAX {
            id
        } else {
            (id + 1) as u32
        }
    }

    /// The state with a pattern registered under an id.
    pub open spec fn with_pattern(self, id: u32, pattern: TapPattern) -> TapPatternModel {
        TapPatternModel {
            patterns: self.patterns.insert(id, pattern),
            next_id: if self.next_id > TapPatternModel::id_after(id) {
                self.next_id
            } else {
                TapPatternModel::id_after(id)
            },
            ..self
        }
    }

    /// The state without the pattern of an id.
    pub open spec fn without_pattern(self, id: u32) -> TapPatternModel {
        TapPatternModel { patterns: self.patterns.remove(id), ..self }
    }

    /// What registering a pattern under an id gives and leads to: the id and the
    /// trigger have to be free.
    pub open spec fn registers_as(
        self,
        id: TapPatternId,
        pattern: TapPattern,
        r: Result<(), Error>,
        next: TapPatternModel,
    ) -> bool {
        if self.patterns.contains_key(id.0) {
            &&& r matches Err(Error::TapPatternAlreadyRegistered(why))
            &&& why@ == "id "@ + id.shown()
            &&& next == self
        } else if self.registered(pattern.trigger) {
            &&& r matches Err(Error::TapPatternAlreadyRegistered(why))
            &&& why@ == "trigger "@ + pattern.trigger.shown()
            &&& next == self
        } else {
            &&& r is Ok
            &&& next == self.with_pattern(id.0, pattern)
        }
    }

    /// What registering a pattern under the next id gives and leads to. The id is
    /// used up even if the trigger is taken.
    pub open spec fn registers(
        self,
        pattern: TapPattern,
        r: Result<TapPatternId, Error>,
        next: TapPatternModel,
    ) -> bool {
        let id = TapPatternId(self.next_id);
        let moved_on = TapPatternModel { next_id: TapPatternModel::id_after(id.0), ..self };
        if self.patterns.contains_key(id.0) {
            &&& r matches Err(Error::TapPatternAlreadyRegistered(why))
            &&& why@ == "id "@ + id.shown()
            &&& next == moved_on
        } else if self.registered(pattern.trigger) {
            &&& r matches Err(Error::TapPatternAlreadyRegistered(why))
            &&& why@ == "trigger "@ + pattern.trigger.shown()
            &&& next == moved_on
        } else {
            &&& r == Ok::<TapPatternId, Error>(id)
            &&& next == self.with_pattern(id.0, pattern)
        }
    }

    /// What taking back the registration of an id gives and leads to.
    pub open spec fn unregisters(
        self,
        id: TapPatternId,
        r: Result<(), Error>,
        next: TapPatternModel,
    ) -> bool {
        if self.patterns.contains_key(id.0) {
            &&& r is Ok
            &&& next == self.without_pattern(id.0)
        } else {
            &&& r == Err::<(), Error>(Error::TapPatternNotFound(id))
            &&& next == self
        }
    }

    /// The pattern registered under an id.
    pub open spec fn pattern(self, id: TapPatternId) -> Option<TapPattern> {
        if self.patterns.contains_key(id.0) {
            Some(self.patterns[id.0])
        } else {
            None
        }
    }
}

} // verus!
