//! Pure tap-alone recognizer.

use std::collections::HashMap;

use vstd::prelude::*;

use crate::error::Error;
use crate::time::Instant;
use crate::triggers::{TriggerMap, TriggerSet};
use crate::types::trigger_key::trigger_from_event;
use crate::types::{
    InputActivity, KeyEvent, Modifiers, TapAlone, TapAloneEvent, TapAloneId, TriggerKey,
};

pub mod history;
pub mod laws;
pub mod model;

pub use model::{Phase, TapAloneModel};

verus! {

broadcast use vstd::std_specs::hash::group_hash_axioms;

#[derive(Debug, Clone, Copy)]
struct ActivePress {
    id: TapAloneId,
    pattern: TapAlone,
    started_at: Instant,
    interrupted: bool,
}

#[derive(Debug, Clone, Copy)]
struct PendingRelease {
    id: TapAloneId,
    emit_at: Instant,
}

/// Recognizes short, uninterrupted single taps from raw key events.
#[derive(Debug)]
pub struct TapAloneRecognizer {
    patterns: HashMap<u32, TapAlone>,
    next_id: u32,
    held_triggers: TriggerSet,
    active_presses: TriggerMap<ActivePress>,
    pending_releases: TriggerMap<PendingRelease>,
    suppressed_until_release: TriggerSet,
}

impl View for TapAloneRecognizer {
    type V = TapAloneModel;

    closed spec fn view(&self) -> TapAloneModel {
        TapAloneModel {
            patterns: self.patterns@,
            next_id: self.next_id,
            phases: Map::new(
                |t: TriggerKey|
                    self.held_triggers@.contains(t) || self.pending_releases@.contains_key(t),
                |t: TriggerKey| self.phase_of(t),
            ),
        }
    }
}

impl Default for TapAloneRecognizer {
    /// No pattern registered and nothing held.
    fn default() -> (r: TapAloneRecognizer)
        ensures
            r.inv(),
            r@ == TapAloneModel::initial(),
    {
        let r = TapAloneRecognizer {
            patterns: HashMap::new(),
            next_id: 1,
            held_triggers: TriggerSet::new(),
            active_presses: TriggerMap::new(),
            pending_releases: TriggerMap::new(),
            suppressed_until_release: TriggerSet::new(),
        };
        assert(r@.phases =~= Map::<TriggerKey, Phase>::empty());
        r
    }
}

impl TapAloneRecognizer {
    spec fn phase_of(self, trigger: TriggerKey) -> Phase {
        if self.pending_releases@.contains_key(trigger) {
            let pending = self.pending_releases@[trigger];
            Phase::Pending { id: pending.id, emit_at: pending.emit_at }
        } else if self.active_presses@.contains_key(trigger) {
            let active = self.active_presses@[trigger];
            Phase::Pressed {
                id: active.id,
                pattern: active.pattern,
                started_at: active.started_at,
                interrupted: active.interrupted,
            }
        } else if self.suppressed_until_release@.contains(trigger) {
            Phase::Suppressed
        } else {
            Phase::Held
        }
    }

    /// A trigger is in at most one of the collections that tell phases apart.
    spec fn phases_apart(self) -> bool {
        &&& forall|t: TriggerKey| #[trigger]
            self.active_presses@.contains_key(t) ==> self.held_triggers@.contains(t)
                && !self.suppressed_until_release@.contains(t)
        &&& forall|t: TriggerKey| #[trigger]
            self.suppressed_until_release@.contains(t) ==> self.held_triggers@.contains(t)
        &&& forall|t: TriggerKey| #[trigger]
            self.pending_releases@.contains_key(t) ==> !self.held_triggers@.contains(t)
    }

    spec fn lists_wf(self) -> bool {
        &&& self.held_triggers.wf()
        &&& self.active_presses.wf()
        &&& self.pending_releases.wf()
        &&& self.suppressed_until_release.wf()
    }

    /// What every recognizer that these methods made satisfies.
    pub closed spec fn inv(self) -> bool {
        &&& self.lists_wf()
        &&& self.phases_apart()
        &&& self@.wf()
    }

    /// A recognizer is in a state that recognizers reach, with finitely many patterns.
    pub proof fn lemma_inv(self)
        requires
            self.inv(),
        ensures
            self@.wf(),
            self@.patterns.dom().finite(),
    {
    }

    /// No pattern registered and nothing held.
    pub fn new() -> (r: TapAloneRecognizer)
        ensures
            r.inv(),
            r@ == TapAloneModel::initial(),
    {
        TapAloneRecognizer::default()
    }

    fn pattern_for_trigger(&self, trigger: TriggerKey) -> (r: Option<(TapAloneId, TapAlone)>)
        requires
            self.inv(),
        ensures
            match r {
                Some((id, pattern)) => self@.registered(trigger) && id.0 == self@.id_for(trigger)
                    && pattern == self@.patterns[id.0],
                None => !self@.registered(trigger),
            },
    {
        for (id, pattern) in it: self.patterns.iter()
            invariant
                self.inv(),
                it.seq() == vstd::std_specs::iter::IteratorSpec::remaining(
                    &vstd::std_specs::hash::spec_hash_map_iter(&self.patterns),
                ),
                forall|i: int|
                    0 <= i < it.index() ==> (#[trigger] it.seq()[i]).1.trigger != trigger,
        {
            if pattern.trigger == trigger {
                assert(model::serves(self@.patterns, *id, trigger));
                return Some((TapAloneId(*id), *pattern));
            }
        }
        None
    }

    /// Registers a pattern under the next free id.
    pub fn register(&mut self, pattern: TapAlone) -> (r: Result<TapAloneId, Error>)
        requires
            old(self).inv(),
        ensures
            final(self).inv(),
            old(self)@.registers(pattern, r, final(self)@),
    {
        let id = TapAloneId::from_u32(self.next_id);
        if self.next_id < u32::MAX {
            self.next_id = self.next_id + 1;
        }
        proof {
            assert(self@.phases =~= old(self)@.phases);
            assert forall|trigger: TriggerKey| #[trigger]
                self@.phases.contains_key(trigger) implies self@.phase_wf(trigger) by {
                assert(old(self)@.phase_wf(trigger));
            }
        }
        match self.register_with_id(id, pattern) {
            Ok(_) => Ok(id),
            Err(e) => Err(e),
        }
    }

    /// Registers a pattern under an id of the caller's choice.
    pub fn register_with_id(&mut self, id: TapAloneId, pattern: TapAlone) -> (r: Result<(), Error>)
        requires
            old(self).inv(),
        ensures
            final(self).inv(),
            old(self)@.registers_as(id, pattern, r, final(self)@),
    {
        if self.patterns.contains_key(&id.0) {
            let mut why = "id ".to_string();
            why.append(id.show().as_str());
            return Err(Error::TapAloneAlreadyRegistered(why));
        }
        if self.pattern_for_trigger(pattern.trigger).is_some() {
            let mut why = "trigger ".to_string();
            why.append(pattern.trigger.show().as_str());
            return Err(Error::TapAloneAlreadyRegistered(why));
        }
        let following: u32 = if id.0 < u32::MAX {
            id.0 + 1
        } else {
            id.0
        };
        if self.next_id < following {
            self.next_id = following;
        }
        self.patterns.insert(id.0, pattern);
        proof {
            assert(self@.phases =~= old(self)@.phases);
            laws::registering_keeps_states_reachable(old(self)@, id, pattern);
        }
        Ok(())
    }

    /// Takes back the registration of an id, with what was under way for its trigger.
    pub fn unregister(&mut self, id: TapAloneId) -> (r: Result<(), Error>)
        requires
            old(self).inv(),
        ensures
            final(self).inv(),
            old(self)@.unregisters(id, r, final(self)@),
    {
        let pattern = match self.patterns.remove(&id.0) {
            Some(pattern) => pattern,
            None => {
                assert(self@.patterns =~= old(self)@.patterns);
                assert(self@.phases =~= old(self)@.phases);
                return Err(Error::TapAloneNotFound(id));
            },
        };
        self.active_presses.remove(pattern.trigger);
        self.pending_releases.remove(pattern.trigger);
        self.suppressed_until_release.remove(pattern.trigger);
        proof {
            assert(self@.phases =~= old(self)@.without_pattern(id.0).phases);
            assert forall|trigger: TriggerKey| #[trigger]
                self@.phases.contains_key(trigger) implies self@.phase_wf(trigger) by {
                assert(old(self)@.phase_wf(trigger));
                if trigger != pattern.trigger && old(self)@.registered(trigger) {
                    assert(model::serves(self@.patterns, old(self)@.id_for(trigger), trigger));
                }
            }
        }
        Ok(())
    }

    /// The pattern registered under an id.
    pub fn get(&self, id: TapAloneId) -> (r: Option<TapAlone>)
        requires
            self.inv(),
        ensures
            r == self@.pattern(id),
    {
        match self.patterns.get(&id.0) {
            Some(pattern) => Some(*pattern),
            None => None,
        }
    }

    /// The number of registered patterns.
    pub fn count(&self) -> (r: usize)
        ensures
            r == self@.patterns.len(),
    {
        self.patterns.len()
    }

    /// The deadline that comes first among the taps that wait for one.
    pub fn next_deadline_at(&self) -> (r: Option<Instant>)
        requires
            self.inv(),
        ensures
            match r {
                Some(deadline) => {
                    &&& exists|id: TapAloneId| #[trigger]
                        self@.pending(id) && self@.deadline(id) == deadline
                    &&& forall|id: TapAloneId| #[trigger]
                        self@.pending(id) ==> deadline.nanos <= self@.deadline(id).nanos
                },
                None => forall|id: TapAloneId| !#[trigger] self@.pending(id),
            },
    {
        proof {
            self.pending_releases.lemma_places();
        }
        let mut best: Option<Instant> = None;
        let mut i: usize = 0;
        while i < self.pending_releases.len()
            invariant
                self.inv(),
                i <= self.pending_releases.size(),
                match best {
                    Some(deadline) => {
                        &&& exists|id: TapAloneId| #[trigger]
                            self@.pending(id) && self@.deadline(id) == deadline
                        &&& forall|j: int|
                            0 <= j < i ==> deadline.nanos
                                <= self.pending_releases@[#[trigger] self.pending_releases.trigger_at(
                                j,
                            )].emit_at.nanos
                    },
                    None => i == 0,
                },
            decreases self.pending_releases.size() - i,
        {
            let (trigger, pending) = self.pending_releases.entry(i);
            proof {
                self.lemma_pending(trigger);
            }
            let sooner = match best {
                Some(deadline) => pending.emit_at.nanos < deadline.nanos,
                None => true,
            };
            if sooner {
                best = Some(pending.emit_at);
            }
            i = i + 1;
        }
        proof {
            assert forall|id: TapAloneId| #[trigger] self@.pending(id) implies best matches Some(
                deadline,
            ) && deadline.nanos <= self@.deadline(id).nanos by {
                let trigger = self@.patterns[id.0].trigger;
                assert(self.pending_releases@.contains_key(trigger));
                let j = choose|j: int|
                    0 <= j < self.pending_releases.size() && #[trigger] self.pending_releases.trigger_at(
                        j,
                    ) == trigger;
                assert(self.pending_releases.trigger_at(j) == trigger);
            }
        }
        best
    }

    /// A pending release is the pending tap of its pattern.
    proof fn lemma_pending(self, trigger: TriggerKey)
        requires
            self.inv(),
            self.pending_releases@.contains_key(trigger),
        ensures
            self@.pending(self.pending_releases@[trigger].id),
            self@.deadline(self.pending_releases@[trigger].id)
                == self.pending_releases@[trigger].emit_at,
            self@.patterns[self.pending_releases@[trigger].id.0].trigger == trigger,
    {
        assert(self@.phases.contains_key(trigger));
        assert(self@.phase_wf(trigger));
    }

    /// The pending release that fires first among those that are due.
    fn first_due(&self, now: Instant) -> (r: Option<(TriggerKey, PendingRelease)>)
        requires
            self.inv(),
        ensures
            match r {
                Some((trigger, pending)) => {
                    &&& self.pending_releases@.contains_key(trigger)
                    &&& self.pending_releases@[trigger] == pending
                    &&& pending.emit_at.nanos <= now.nanos
                    &&& forall|t: TriggerKey| #[trigger]
                        self.pending_releases@.contains_key(t) && t != trigger
                            && self.pending_releases@[t].emit_at.nanos <= now.nanos
                            ==> self@.fires_before(pending.id, self.pending_releases@[t].id)
                },
                None => forall|t: TriggerKey| #[trigger]
                    self.pending_releases@.contains_key(t) ==> now.nanos
                        < self.pending_releases@[t].emit_at.nanos,
            },
    {
        proof {
            self.pending_releases.lemma_places();
        }
        let mut best: Option<(TriggerKey, PendingRelease)> = None;
        let mut i: usize = 0;
        while i < self.pending_releases.len()
            invariant
                self.inv(),
                i <= self.pending_releases.size(),
                match best {
                    Some((trigger, pending)) => {
                        &&& self.pending_releases@.contains_key(trigger)
                        &&& self.pending_releases@[trigger] == pending
                        &&& pending.emit_at.nanos <= now.nanos
                        &&& forall|j: int|
                            #![trigger self.pending_releases.trigger_at(j)]
                            0 <= j < i ==> {
                                let t = self.pending_releases.trigger_at(j);
                                let other = self.pending_releases@[t];
                                t != trigger && other.emit_at.nanos <= now.nanos
                                    ==> self@.fires_before(pending.id, other.id)
                            }
                    },
                    None => forall|j: int|
                        0 <= j < i ==> now.nanos < self.pending_releases@[#[trigger] self.pending_releases.trigger_at(
                            j,
                        )].emit_at.nanos,
                },
            decreases self.pending_releases.size() - i,
        {
            let (trigger, pending) = self.pending_releases.entry(i);
            if pending.emit_at.nanos <= now.nanos {
                let sooner = match best {
                    Some((_, other)) => pending.emit_at.nanos < other.emit_at.nanos
                        || pending.emit_at.nanos == other.emit_at.nanos && pending.id.0 < other.id.0,
                    None => true,
                };
                proof {
                    assert forall|t: TriggerKey| #[trigger]
                        self.pending_releases@.contains_key(t) implies self@.deadline(
                        self.pending_releases@[t].id,
                    ) == self.pending_releases@[t].emit_at
                        && self@.patterns[self.pending_releases@[t].id.0].trigger == t by {
                        self.lemma_pending(t);
                    }
                }
                if sooner {
                    best = Some((trigger, pending));
                }
            }
            i = i + 1;
        }
        best
    }

    /// Fires the taps that are due, in the order of their deadlines.
    pub fn drain_expired_at(&mut self, now: Instant) -> (r: Vec<TapAloneEvent>)
        requires
            old(self).inv(),
        ensures
            final(self).inv(),
            old(self)@.fires(now, r@),
            final(self)@ == old(self)@.drained(now),
    {
        let mut fired: Vec<TapAloneEvent> = Vec::new();
        loop
            invariant
                old(self).inv(),
                self.inv(),
                self.patterns == old(self).patterns,
                self.next_id == old(self).next_id,
                self.held_triggers == old(self).held_triggers,
                self.active_presses == old(self).active_presses,
                self.suppressed_until_release == old(self).suppressed_until_release,
                forall|t: TriggerKey| #[trigger]
                    self.pending_releases@.contains_key(t) ==> old(
                        self,
                    ).pending_releases@.contains_key(t) && self.pending_releases@[t] == old(
                        self,
                    ).pending_releases@[t],
                forall|t: TriggerKey| #[trigger]
                    old(self).pending_releases@.contains_key(t)
                        && !self.pending_releases@.contains_key(t) ==> old(
                        self,
                    ).pending_releases@[t].emit_at.nanos <= now.nanos && exists|i: int|
                        0 <= i < fired@.len() && (#[trigger] fired@[i]).id == old(
                            self,
                        ).pending_releases@[t].id,
                forall|i: int|
                    0 <= i < fired@.len() ==> old(self)@.due((#[trigger] fired@[i]).id, now),
                forall|i: int, t: TriggerKey|
                    0 <= i < fired@.len() && #[trigger] self.pending_releases@.contains_key(t)
                        && self.pending_releases@[t].emit_at.nanos <= now.nanos ==> old(
                        self,
                    )@.fires_before((#[trigger] fired@[i]).id, self.pending_releases@[t].id),
                forall|i: int, j: int|
                    0 <= i < j < fired@.len() ==> old(self)@.fires_before(
                        (#[trigger] fired@[i]).id,
                        (#[trigger] fired@[j]).id,
                    ),
            ensures
                forall|t: TriggerKey| #[trigger]
                    self.pending_releases@.contains_key(t) ==> now.nanos
                        < self.pending_releases@[t].emit_at.nanos,
            decreases self.pending_releases.size(),
        {
            let (trigger, pending) = match self.first_due(now) {
                Some(found) => found,
                None => break,
            };
            let ghost before = *self;
            let ghost was = fired@;
            self.pending_releases.remove(trigger);
            fired.push(TapAloneEvent { id: pending.id });
            proof {
                self.lemma_fired(before, trigger);
                old(self).lemma_pending(trigger);
                assert forall|t: TriggerKey| #[trigger]
                    old(self).pending_releases@.contains_key(t)
                        && !self.pending_releases@.contains_key(t) implies old(
                    self,
                ).pending_releases@[t].emit_at.nanos <= now.nanos && exists|i: int|
                    0 <= i < fired@.len() && (#[trigger] fired@[i]).id == old(
                        self,
                    ).pending_releases@[t].id by {
                    if t == trigger {
                        assert(fired@[fired@.len() - 1].id == pending.id);
                    } else {
                        assert(!before.pending_releases@.contains_key(t));
                        let i = choose|i: int|
                            0 <= i < was.len() && (#[trigger] was[i]).id == old(
                                self,
                            ).pending_releases@[t].id;
                        assert(fired@[i] == was[i]);
                    }
                }
                assert forall|t: TriggerKey| #[trigger]
                    self.pending_releases@.contains_key(t)
                        && self.pending_releases@[t].emit_at.nanos <= now.nanos implies old(
                    self,
                )@.fires_before(pending.id, self.pending_releases@[t].id) by {
                    before.lemma_pending(t);
                    before.lemma_pending(trigger);
                    old(self).lemma_pending(t);
                }
            }
        }
        proof {
            assert(self@.phases =~= old(self)@.drained(now).phases);
            assert forall|id: TapAloneId| #[trigger] old(self)@.due(id, now) implies exists|i: int|
                0 <= i < fired@.len() && (#[trigger] fired@[i]).id == id by {
                let trigger = old(self)@.patterns[id.0].trigger;
                assert(old(self).pending_releases@.contains_key(trigger));
            }
        }
        fired
    }

    /// Firing a tap leaves the invariant intact.
    proof fn lemma_fired(self, before: Self, trigger: TriggerKey)
        requires
            before.inv(),
            self == (TapAloneRecognizer { pending_releases: self.pending_releases, ..before }),
            self.pending_releases.wf(),
            self.pending_releases@ == before.pending_releases@.remove(trigger),
        ensures
            self.inv(),
    {
        assert forall|t: TriggerKey| #[trigger] self@.phases.contains_key(t) implies self@.phase_wf(
            t,
        ) by {
            assert(before@.phases.contains_key(t));
            assert(before@.phase_wf(t));
            assert(self@.phases[t] == before@.phases[t] || self@.phases[t] is Held
                || t == trigger);
        }
    }

    /// Marks the presses under way as interrupted, except that of the spared trigger.
    fn interrupt_active(&mut self, spared: Option<TriggerKey>)
        requires
            old(self).lists_wf(),
        ensures
            final(self).lists_wf(),
            *final(self) == (TapAloneRecognizer {
                active_presses: final(self).active_presses,
                ..*old(self)
            }),
            final(self).active_presses@.dom() == old(self).active_presses@.dom(),
            forall|t: TriggerKey| #[trigger]
                old(self).active_presses@.contains_key(t) ==> final(self).active_presses@[t] == (
                if spared == Some(t) {
                    old(self).active_presses@[t]
                } else {
                    ActivePress { interrupted: true, ..old(self).active_presses@[t] }
                }),
    {
        let mut i: usize = 0;
        let ghost before = self.active_presses;
        proof {
            before.lemma_places();
        }
        while i < self.active_presses.len()
            invariant
                old(self).lists_wf(),
                self.lists_wf(),
                before == old(self).active_presses,
                *self == (TapAloneRecognizer {
                    active_presses: self.active_presses,
                    ..*old(self)
                }),
                i <= self.active_presses.size(),
                self.active_presses.size() == before.size(),
                self.active_presses@.dom() == before@.dom(),
                forall|j: int|
                    0 <= j < before.size() ==> self.active_presses.trigger_at(j)
                        == #[trigger] before.trigger_at(j),
                forall|j: int|
                    0 <= j < before.size() ==> before@.contains_key(#[trigger] before.trigger_at(j)),
                forall|j: int, k: int|
                    0 <= j < k < before.size() ==> #[trigger] before.trigger_at(j)
                        != #[trigger] before.trigger_at(k),
                forall|j: int|
                    #![trigger before.trigger_at(j)]
                    0 <= j < before.size() ==> {
                        let t = before.trigger_at(j);
                        self.active_presses@[t] == (if j >= i || spared == Some(t) {
                            before@[t]
                        } else {
                            ActivePress { interrupted: true, ..before@[t] }
                        })
                    },
            decreases before.size() - i,
        {
            let (trigger, active) = self.active_presses.entry(i);
            let spare = match spared {
                Some(t) => t == trigger,
                None => false,
            };
            assert(before.trigger_at(i as int) == trigger);
            if !spare {
                self.active_presses.insert(trigger, ActivePress { interrupted: true, ..active });
                assert(self.active_presses@.dom() =~= before@.dom());
            }
            i = i + 1;
        }
    }

    fn interrupt_active_except(&mut self, trigger: TriggerKey)
        requires
            old(self).inv(),
        ensures
            final(self).lists_wf(),
            final(self).phases_apart(),
            *final(self) == (TapAloneRecognizer {
                active_presses: final(self).active_presses,
                ..*old(self)
            }),
            final(self).active_presses@.dom() == old(self).active_presses@.dom(),
            forall|t: TriggerKey| #[trigger]
                old(self).active_presses@.contains_key(t) ==> final(self).active_presses@[t] == (
                if t == trigger {
                    old(self).active_presses@[t]
                } else {
                    ActivePress { interrupted: true, ..old(self).active_presses@[t] }
                }),
    {
        self.interrupt_active(Some(trigger));
    }

    fn interrupt_all_active(&mut self)
        requires
            old(self).inv(),
        ensures
            final(self).inv(),
            final(self)@ == old(self)@.all_disturbed(),
    {
        self.interrupt_active(None);
        proof {
            assert(self@.phases =~= old(self)@.all_disturbed().phases);
            assert forall|t: TriggerKey| #[trigger]
                self@.phases.contains_key(t) implies self@.phase_wf(t) by {
                assert(old(self)@.phase_wf(t));
            }
        }
    }

    /// Whether an event can be taken in: if it completes a tap, the tap's
    /// deadline has to be representable.
    pub fn can_process_at(&self, event: &KeyEvent, now: Instant) -> (r: bool)
        requires
            self.inv(),
        ensures
            r <==> self@.deadline_fits(*event, now),
    {
        let trigger = match trigger_from_event(event) {
            Some(trigger) => trigger,
            None => return true,
        };
        if is_interruption_activity(event) || event.is_key_down {
            return true;
        }
        let active = match self.active_presses.get(trigger) {
            Some(active) => active,
            None => return true,
        };
        assert(self@.phases.contains_key(trigger));
        let chorded = modifier_snapshot_interrupts(event.modifiers, trigger);
        let press_duration = now.saturating_duration_since(active.started_at);
        active.interrupted || chorded || press_duration.nanos
            >= active.pattern.max_press_duration.nanos
            || active.pattern.double_tap_suppression.nanos <= u128::MAX - now.nanos
    }

    /// Takes in an event. The taps that are due by now fire first.
    pub fn process_event_at(&mut self, event: &KeyEvent, now: Instant) -> (r: Vec<TapAloneEvent>)
        requires
            old(self).inv(),
            old(self)@.deadline_fits(*event, now),
        ensures
            final(self).inv(),
            old(self)@.fires(now, r@),
            final(self)@ == old(self)@.drained(now).after(*event, now),
    {
        let fired = self.drain_expired_at(now);
        self.take_in(event, now);
        fired
    }

    /// Takes in an event that no tap is due before.
    fn take_in(&mut self, event: &KeyEvent, now: Instant)
        requires
            old(self).inv(),
            old(self)@.deadline_fits(*event, now),
        ensures
            final(self).inv(),
            final(self)@ == old(self)@.after(*event, now),
    {
        proof {
            self@.lemma_after_wf(*event, now);
        }
        if is_interruption_activity(event) {
            self.interrupt_all_active();
            return;
        }
        let trigger = match trigger_from_event(event) {
            Some(trigger) => trigger,
            None => return,
        };
        let chorded = modifier_snapshot_interrupts(event.modifiers, trigger);
        let other_held = self.held_triggers.contains_other(trigger);
        proof {
            self.lemma_other_down(trigger);
        }
        let found = self.pattern_for_trigger(trigger);
        self.interrupt_active_except(trigger);
        if event.is_key_down {
            if self.held_triggers.contains(trigger) {
                if chorded {
                    if let Some(active) = self.active_presses.get(trigger) {
                        self.active_presses.insert(
                            trigger,
                            ActivePress { interrupted: true, ..active },
                        );
                    }
                }
                assert(self@.phases =~= old(self)@.after(*event, now).phases);
                return;
            }
            if self.pending_releases.remove(trigger).is_some() {
                self.suppressed_until_release.insert(trigger);
                self.held_triggers.insert(trigger);
                assert(self@.phases =~= old(self)@.after(*event, now).phases);
                return;
            }
            self.held_triggers.insert(trigger);
            if let Some((id, pattern)) = found {
                self.active_presses.insert(
                    trigger,
                    ActivePress { id, pattern, started_at: now, interrupted: other_held || chorded },
                );
            }
            assert(self@.phases =~= old(self)@.after(*event, now).phases);
            return;
        }
        self.held_triggers.remove(trigger);
        if self.suppressed_until_release.remove(trigger) {
            assert(self@.phases =~= old(self)@.after(*event, now).phases);
            return;
        }
        if let Some(active) = self.active_presses.remove(trigger) {
            let interrupted = active.interrupted || chorded;
            let press_duration = now.saturating_duration_since(active.started_at);
            if !interrupted && press_duration.nanos < active.pattern.max_press_duration.nanos {
                self.pending_releases.insert(
                    trigger,
                    PendingRelease {
                        id: active.id,
                        emit_at: now + active.pattern.double_tap_suppression,
                    },
                );
            }
        }
        assert(self@.phases =~= old(self)@.after(*event, now).phases);
    }

    /// A trigger is down exactly if it is held.
    proof fn lemma_other_down(self, trigger: TriggerKey)
        requires
            self.inv(),
        ensures
            self@.other_down(trigger) <==> exists|other: TriggerKey| #[trigger]
                self.held_triggers@.contains(other) && other != trigger,
    {
        if self@.other_down(trigger) {
            let other = choose|other: TriggerKey| #[trigger]
                self@.phases.contains_key(other) && other != trigger && self@.phases[other].down();
            assert(self.held_triggers@.contains(other));
        }
        if exists|other: TriggerKey| #[trigger]
            self.held_triggers@.contains(other) && other != trigger {
            let other = choose|other: TriggerKey| #[trigger]
                self.held_triggers@.contains(other) && other != trigger;
            assert(self@.phases.contains_key(other));
            assert(self@.phases[other].down());
        }
    }
}

fn is_interruption_activity(event: &KeyEvent) -> (r: bool)
    ensures
        r <==> model::interruption(*event),
{
    matches!(
        event.activity,
        Some(InputActivity::MouseButtonDown(_)) | Some(InputActivity::ScrollWheel)
    )
}

fn modifier_snapshot_interrupts(modifiers: Modifiers, trigger: TriggerKey) -> (r: bool)
    ensures
        r <==> model::chorded(modifiers, trigger),
{
    match trigger {
        TriggerKey::Key(_) => !modifiers.is_empty(),
        TriggerKey::Modifier(trigger_modifier) => !(modifiers & core::ops::Not::not(trigger_modifier)).is_empty(),
    }
}

} // verus!
