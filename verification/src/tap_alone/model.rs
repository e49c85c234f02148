//! The tap-alone recognizer as a state machine with one phase per trigger.

use vstd::prelude::*;

use crate::error::Error;
use crate::time::Instant;
use crate::types::modifiers::ALL_BITS;
use crate::types::{KeyEvent, Modifiers, TapAlone, TapAloneEvent, TapAloneId, TriggerKey};

verus! {

/// Where a trigger that is not idle stands.
pub enum Phase {
    /// It is down, and its release means nothing.
    Held,
    /// It is down, and its release may complete a tap.
    Pressed { id: TapAloneId, pattern: TapAlone, started_at: Instant, interrupted: bool },
    /// It is down for the second time of a double tap, and its release means nothing.
    Suppressed,
    /// It is up after a tap that fires at the deadline unless a second press comes first.
    Pending { id: TapAloneId, emit_at: Instant },
}

impl Phase {
    /// Whether the trigger is down.
    pub open spec fn down(self) -> bool {
        !(self is Pending)
    }

    /// The phase once something else has happened: a press that is under way is no longer alone.
    pub open spec fn disturbed(self) -> Phase {
        match self {
            Phase::Pressed { id, pattern, started_at, interrupted } => Phase::Pressed {
                id,
                pattern,
                started_at,
                interrupted: true,
            },
            _ => self,
        }
    }

    /// Whether a tap's deadline has come.
    pub open spec fn expired(self, now: Instant) -> bool {
        self matches Phase::Pending { emit_at, .. } && emit_at.nanos <= now.nanos
    }

    /// Whether a release completes a tap: the press was not interrupted, no
    /// other modifier is held, and it was shorter than its limit.
    pub open spec fn completes(self, chorded: bool, now: Instant) -> bool {
        self matches Phase::Pressed { pattern, started_at, interrupted, .. } && !interrupted
            && !chorded && now.nanos_since(started_at) < pattern.max_press_duration.nanos
    }
}

/// Whether an event is a mouse button going down or the wheel turning.
pub open spec fn interruption(event: KeyEvent) -> bool {
    event.activity matches Some(activity) && (activity is MouseButtonDown
        || activity is ScrollWheel)
}

/// Whether modifiers other than the trigger itself are held.
pub open spec fn chorded(modifiers: Modifiers, trigger: TriggerKey) -> bool {
    match trigger {
        TriggerKey::Key(_) => !modifiers.is_empty(),
        TriggerKey::Modifier(own) => modifiers.bits & (!own.bits & ALL_BITS) != 0,
    }
}

/// Whether the pattern under an id has a trigger.
pub open spec fn serves(patterns: Map<u32, TapAlone>, id: u32, trigger: TriggerKey) -> bool {
    patterns.contains_key(id) && patterns[id].trigger == trigger
}

/// What a tap-alone recognizer knows. A trigger without a phase is idle.
pub struct TapAloneModel {
    pub patterns: Map<u32, TapAlone>,
    pub next_id: u32,
    pub phases: Map<TriggerKey, Phase>,
}

impl TapAloneModel {
    /// Nothing registered and every trigger idle.
    pub open spec fn initial() -> TapAloneModel {
        TapAloneModel { patterns: Map::empty(), next_id: 1, phases: Map::empty() }
    }

    /// What holds in every state that a recognizer reaches.
    pub open spec fn wf(self) -> bool {
        &&& self.triggers_differ()
        &&& self.ids_below_next()
        &&& forall|trigger: TriggerKey| #[trigger]
            self.phases.contains_key(trigger) ==> self.phase_wf(trigger)
    }

    /// Every registered pattern has a trigger of its own.
    pub open spec fn triggers_differ(self) -> bool {
        forall|a: u32, b: u32| #[trigger]
            self.patterns.contains_key(a) && #[trigger] self.patterns.contains_key(b)
                && self.patterns[a].trigger == self.patterns[b].trigger ==> a == b
    }

    /// The next id is above every registered one, until ids run out.
    pub open spec fn ids_below_next(self) -> bool {
        &&& self.next_id >= 1
        &&& forall|id: u32| #[trigger]
            self.patterns.contains_key(id) ==> id < self.next_id || self.next_id == u32::MAX
    }

    /// A press or tap that is under way belongs to the pattern registered for its trigger.
    pub open spec fn phase_wf(self, trigger: TriggerKey) -> bool {
        match self.phases[trigger] {
            Phase::Pressed { id, pattern, .. } => self.patterns.contains_key(id.0)
                && self.patterns[id.0] == pattern && pattern.trigger == trigger,
            Phase::Pending { id, .. } => self.patterns.contains_key(id.0)
                && self.patterns[id.0].trigger == trigger,
            Phase::Suppressed => self.registered(trigger),
            Phase::Held => true,
        }
    }

    /// Whether a pattern is registered for a trigger.
    pub open spec fn registered(self, trigger: TriggerKey) -> bool {
        exists|id: u32| serves(self.patterns, id, trigger)
    }

    /// The id of the pattern registered for a trigger.
    pub open spec fn id_for(self, trigger: TriggerKey) -> u32
        recommends
            self.registered(trigger),
    {
        choose|id: u32| serves(self.patterns, id, trigger)
    }

    /// The phase of a trigger, if it is not idle.
    pub open spec fn phase(self, trigger: TriggerKey) -> Option<Phase> {
        if self.phases.contains_key(trigger) {
            Some(self.phases[trigger])
        } else {
            None
        }
    }

    /// Whether a trigger other than the given one is down.
    pub open spec fn other_down(self, trigger: TriggerKey) -> bool {
        exists|other: TriggerKey| #[trigger]
            self.phases.contains_key(other) && other != trigger && self.phases[other].down()
    }

    /// The phase of a trigger after it goes down.
    pub open spec fn phase_after_down(
        self,
        trigger: TriggerKey,
        chorded: bool,
        now: Instant,
    ) -> Phase {
        match self.phase(trigger) {
            None => if self.registered(trigger) {
                Phase::Pressed {
                    id: TapAloneId(self.id_for(trigger)),
                    pattern: self.patterns[self.id_for(trigger)],
                    started_at: now,
                    interrupted: self.other_down(trigger) || chorded,
                }
            } else {
                Phase::Held
            },
            Some(Phase::Pressed { id, pattern, started_at, interrupted }) => Phase::Pressed {
                id,
                pattern,
                started_at,
                interrupted: interrupted || chorded,
            },
            Some(Phase::Pending { .. }) => Phase::Suppressed,
            Some(phase) => phase,
        }
    }

    /// The phase of a trigger after it goes up.
    pub open spec fn phase_after_up(
        self,
        trigger: TriggerKey,
        chorded: bool,
        now: Instant,
    ) -> Option<Phase> {
        match self.phase(trigger) {
            Some(Phase::Pressed { id, pattern, started_at, interrupted }) => if self.phases[trigger].completes(
                chorded,
                now,
            ) {
                Some(Phase::Pending { id, emit_at: now.plus(pattern.double_tap_suppression) })
            } else {
                None
            },
            Some(Phase::Pending { id, emit_at }) => Some(Phase::Pending { id, emit_at }),
            _ => None,
        }
    }

    /// One trigger takes a new phase, and the others are disturbed.
    pub open spec fn with_phase(self, trigger: TriggerKey, phase: Option<Phase>) -> TapAloneModel {
        TapAloneModel {
            phases: Map::new(
                |t: TriggerKey|
                    if t == trigger {
                        phase is Some
                    } else {
                        self.phases.contains_key(t)
                    },
                |t: TriggerKey|
                    if t == trigger {
                        phase->0
                    } else {
                        self.phases[t].disturbed()
                    },
            ),
            ..self
        }
    }

    /// Every trigger is disturbed.
    pub open spec fn all_disturbed(self) -> TapAloneModel {
        TapAloneModel {
            phases: Map::new(
                |t: TriggerKey| self.phases.contains_key(t),
                |t: TriggerKey| self.phases[t].disturbed(),
            ),
            ..self
        }
    }

    /// What an event does, once the taps that are due have fired.
    pub open spec fn after(self, event: KeyEvent, now: Instant) -> TapAloneModel {
        if interruption(event) {
            self.all_disturbed()
        } else {
            match TriggerKey::of_event(event) {
                None => self,
                Some(trigger) => {
                    let chorded = chorded(event.modifiers, trigger);
                    if event.is_key_down {
                        self.with_phase(trigger, Some(self.phase_after_down(trigger, chorded, now)))
                    } else {
                        self.with_phase(trigger, self.phase_after_up(trigger, chorded, now))
                    }
                },
            }
        }
    }

    /// Whether the deadline of a tap that an event completes can be represented.
    pub open spec fn deadline_fits(self, event: KeyEvent, now: Instant) -> bool {
        match TriggerKey::of_event(event) {
            Some(trigger) => !interruption(event) && !event.is_key_down && self.phases.contains_key(
                trigger,
            ) && self.phases[trigger].completes(chorded(event.modifiers, trigger), now) ==> now.nanos
                + self.phases[trigger]->pattern.double_tap_suppression.nanos <= u128::MAX,
            None => true,
        }
    }

    /// Whether a registered pattern has a tap that is due.
    pub open spec fn due(self, id: TapAloneId, now: Instant) -> bool {
        self.pending(id) && self.deadline(id).nanos <= now.nanos
    }

    /// Whether a registered pattern has a tap that waits for its deadline.
    pub open spec fn pending(self, id: TapAloneId) -> bool {
        &&& self.patterns.contains_key(id.0)
        &&& self.phase(self.patterns[id.0].trigger) matches Some(Phase::Pending { id: waiting, .. })
        &&& waiting == id
    }

    /// When a pattern's tap fires.
    pub open spec fn deadline(self, id: TapAloneId) -> Instant
        recommends
            self.pending(id),
    {
        self.phases[self.patterns[id.0].trigger]->emit_at
    }

    /// Taps fire in the order of their deadlines, and of their ids where those are equal.
    pub open spec fn fires_before(self, a: TapAloneId, b: TapAloneId) -> bool {
        ||| self.deadline(a).nanos < self.deadline(b).nanos
        ||| self.deadline(a).nanos == self.deadline(b).nanos && a.0 < b.0
    }

    /// Whether `events` are the taps that are due, in order.
    pub open spec fn fires(self, now: Instant, events: Seq<TapAloneEvent>) -> bool {
        &&& forall|i: int| 0 <= i < events.len() ==> self.due((#[trigger] events[i]).id, now)
        &&& forall|id: TapAloneId| #[trigger]
            self.due(id, now) ==> exists|i: int|
                0 <= i < events.len() && (#[trigger] events[i]).id == id
        &&& forall|i: int, j: int|
            0 <= i < j < events.len() ==> self.fires_before(
                (#[trigger] events[i]).id,
                (#[trigger] events[j]).id,
            )
    }

    /// The state once the taps that are due have fired.
    pub open spec fn drained(self, now: Instant) -> TapAloneModel {
        TapAloneModel {
            phases: Map::new(
                |t: TriggerKey| self.phases.contains_key(t) && !self.phases[t].expired(now),
                |t: TriggerKey| self.phases[t],
            ),
            ..self
        }
    }

    /// An event leads from a state that a recognizer reaches to another.
    pub proof fn lemma_after_wf(self, event: KeyEvent, now: Instant)
        requires
            self.wf(),
        ensures
            self.after(event, now).wf(),
    {
        let next = self.after(event, now);
        assert forall|t: TriggerKey| #[trigger] next.phases.contains_key(t) implies next.phase_wf(
            t,
        ) by {
            if self.phases.contains_key(t) {
                assert(self.phase_wf(t));
                if let Phase::Pending { id, .. } = self.phases[t] {
                    assert(serves(self.patterns, id.0, t));
                }
            }
            if self.registered(t) {
                assert(serves(self.patterns, self.id_for(t), t));
            }
        }
    }

    /// The next id after `id` has been used up.
    pub open spec fn id_after(id: u32) -> u32 {
        if id == u32::MAX {
            id
        } else {
            (id + 1) as u32
        }
    }

    /// The state with a pattern registered under an id.
    pub open spec fn with_pattern(self, id: u32, pattern: TapAlone) -> TapAloneModel {
        TapAloneModel {
            patterns: self.patterns.insert(id, pattern),
            next_id: if self.next_id > TapAloneModel::id_after(id) {
                self.next_id
            } else {
                TapAloneModel::id_after(id)
            },
            phases: self.phases,
        }
    }

    /// The state without the pattern of an id. What was under way for its
    /// trigger is forgotten, but that it is down.
    pub open spec fn without_pattern(self, id: u32) -> TapAloneModel {
        let trigger = self.patterns[id].trigger;
        TapAloneModel {
            patterns: self.patterns.remove(id),
            phases: if !self.phases.contains_key(trigger) {
                self.phases
            } else if self.phases[trigger].down() {
                self.phases.insert(trigger, Phase::Held)
            } else {
                self.phases.remove(trigger)
            },
            ..self
        }
    }

    /// What registering a pattern under an id gives and leads to: the id and the
    /// trigger have to be free.
    pub open spec fn registers_as(
        self,
        id: TapAloneId,
        pattern: TapAlone,
        r: Result<(), Error>,
        next: TapAloneModel,
    ) -> bool {
        if self.patterns.contains_key(id.0) {
            &&& r matches Err(Error::TapAloneAlreadyRegistered(why))
            &&& why@ == "id "@ + id.shown()
            &&& next == self
        } else if self.registered(pattern.trigger) {
            &&& r matches Err(Error::TapAloneAlreadyRegistered(why))
            &&& why@ == "trigger "@ + pattern.trigger.shown()
            &&& next == self
        } else {
            &&& r is Ok
            &&& next == self.with_pattern(id.0, pattern)
        }
    }

    /// What registering a pattern under the next id gives and leads to. The id is
    /// used up even if the trigger is taken.
    pub open spec fn registers(
        self,
        pattern: TapAlone,
        r: Result<TapAloneId, Error>,
        next: TapAloneModel,
    ) -> bool {
        let id = TapAloneId(self.next_id);
        let moved_on = TapAloneModel { next_id: TapAloneModel::id_after(id.0), ..self };
        if self.patterns.contains_key(id.0) {
            &&& r matches Err(Error::TapAloneAlreadyRegistered(why))
            &&& why@ == "id "@ + id.shown()
            &&& next == moved_on
        } else if self.registered(pattern.trigger) {
            &&& r matches Err(Error::TapAloneAlreadyRegistered(why))
            &&& why@ == "trigger "@ + pattern.trigger.shown()
            &&& next == moved_on
        } else {
            &&& r == Ok::<TapAloneId, Error>(id)
            &&& next == self.with_pattern(id.0, pattern)
        }
    }

    /// What taking back the registration of an id gives and leads to.
    pub open spec fn unregisters(
        self,
        id: TapAloneId,
        r: Result<(), Error>,
        next: TapAloneModel,
    ) -> bool {
        if self.patterns.contains_key(id.0) {
            &&& r is Ok
            &&& next == self.without_pattern(id.0)
        } else {
            &&& r == Err::<(), Error>(Error::TapAloneNotFound(id))
            &&& next == self
        }
    }

    /// The pattern registered under an id.
    pub open spec fn pattern(self, id: TapAloneId) -> Option<TapAlone> {
        if self.patterns.contains_key(id.0) {
            Some(self.patterns[id.0])
        } else {
            None
        }
    }
}

} // verus!
