//! Pure tap-pattern recognizer.

use std::collections::HashMap;

use vstd::prelude::*;

use crate::error::Error;
use crate::time::Instant;
use crate::triggers::TriggerSet;
use crate::types::trigger_key::trigger_from_event;
use crate::types::{KeyEvent, TapPattern, TapPatternEvent, TapPatternId, TriggerKey};

pub mod history;
pub mod laws;
pub mod model;

pub use model::{ActiveTapSequence, TapPatternModel};

verus! {

broadcast use vstd::std_specs::hash::group_hash_axioms;

/// Recognizes repeated taps from raw key events.
#[derive(Debug)]
pub struct TapPatternRecognizer {
    patterns: HashMap<u32, TapPattern>,
    active: Option<ActiveTapSequence>,
    held_triggers: TriggerSet,
    next_id: u32,
}

impl View for TapPatternRecognizer {
    type V = TapPatternModel;

    closed spec fn view(&self) -> TapPatternModel {
        TapPatternModel {
            patterns: self.patterns@,
            next_id: self.next_id,
            held: self.held_triggers@,
            active: self.active,
        }
    }
}

impl Default for TapPatternRecognizer {
    /// No pattern registered and nothing held.
    fn default() -> (r: TapPatternRecognizer)
        ensures
            r.inv(),
            r@ == TapPatternModel::initial(),
    {
        TapPatternRecognizer {
            patterns: HashMap::new(),
            active: None,
            held_triggers: TriggerSet::new(),
            next_id: 1,
        }
    }
}

impl TapPatternRecognizer {
    /// What every recognizer that these methods made satisfies.
    pub closed spec fn inv(self) -> bool {
        self.held_triggers.wf() && self@.wf()
    }

    /// A recognizer is in a state that recognizers reach, with finitely many patterns.
    pub proof fn lemma_inv(self)
        requires
            self.inv(),
        ensures
            self@.wf(),
            self@.patterns.dom().finite(),
    {
    }

    /// No pattern registered and nothing held.
    pub fn new() -> (r: TapPatternRecognizer)
        ensures
            r.inv(),
            r@ == TapPatternModel::initial(),
    {
        TapPatternRecognizer::default()
    }

    fn pattern_for_trigger(&self, trigger: TriggerKey) -> (r: Option<(TapPatternId, TapPattern)>)
        requires
            self.inv(),
        ensures
            match r {
                Some((id, pattern)) => self@.registered(trigger) && id.0 == self@.id_for(trigger)
                    && pattern == self@.pattern_for(trigger),
                None => !self@.registered(trigger),
            },
    {
        for (id, pattern) in it: self.patterns.iter()
            invariant
                self.inv(),
                it.seq() == vstd::std_specs::iter::IteratorSpec::remaining(
                    &vstd::std_specs::hash::spec_hash_map_iter(&self.patterns),
                ),
                forall|i: int|
                    0 <= i < it.index() ==> (#[trigger] it.seq()[i]).1.trigger != trigger,
        {
            if pattern.trigger == trigger {
                assert(model::serves(self@.patterns, *id, trigger));
                return Some((TapPatternId(*id), *pattern));
            }
        }
        None
    }

    /// Registers a pattern under the next free id.
    pub fn register(&mut self, pattern: TapPattern) -> (r: Result<TapPatternId, Error>)
        requires
            old(self).inv(),
        ensures
            final(self).inv(),
            old(self)@.registers(pattern, r, final(self)@),
    {
        let id = TapPatternId::from_u32(self.next_id);
        if self.next_id < u32::MAX {
            self.next_id = self.next_id + 1;
        }
        match self.register_with_id(id, pattern) {
            Ok(_) => Ok(id),
            Err(e) => Err(e),
        }
    }

    /// Registers a pattern under an id of the caller's choice.
    pub fn register_with_id(&mut self, id: TapPatternId, pattern: TapPattern) -> (r: Result<
        (),
        Error,
    >)
        requires
            old(self).inv(),
        ensures
            final(self).inv(),
            old(self)@.registers_as(id, pattern, r, final(self)@),
    {
        if self.patterns.contains_key(&id.0) {
            let mut why = "id ".to_string();
            why.append(id.show().as_str());
            return Err(Error::TapPatternAlreadyRegistered(why));
        }
        if self.pattern_for_trigger(pattern.trigger).is_some() {
            let mut why = "trigger ".to_string();
            why.append(pattern.trigger.show().as_str());
            return Err(Error::TapPatternAlreadyRegistered(why));
        }
        let following: u32 = if id.0 < u32::MAX {
            id.0 + 1
        } else {
            id.0
        };
        if self.next_id < following {
            self.next_id = following;
        }
        self.patterns.insert(id.0, pattern);
        proof {
            laws::registering_keeps_states_reachable(old(self)@, id, pattern);
        }
        Ok(())
    }

    /// Takes back the registration of an id.
    pub fn unregister(&mut self, id: TapPatternId) -> (r: Result<(), Error>)
        requires
            old(self).inv(),
        ensures
            final(self).inv(),
            old(self)@.unregisters(id, r, final(self)@),
    {
        if self.patterns.remove(&id.0).is_none() {
            assert(self@.patterns =~= old(self)@.patterns);
            return Err(Error::TapPatternNotFound(id));
        }
        Ok(())
    }

    /// The pattern registered under an id.
    pub fn get(&self, id: TapPatternId) -> (r: Option<TapPattern>)
        requires
            self.inv(),
        ensures
            r == self@.pattern(id),
    {
        match self.patterns.get(&id.0) {
            Some(pattern) => Some(*pattern),
            None => None,
        }
    }

    /// The number of registered patterns.
    pub fn count(&self) -> (r: usize)
        ensures
            r == self@.patterns.len(),
    {
        self.patterns.len()
    }

    /// Takes in an event, and says whether it completes a pattern.
    pub fn process_event_at(&mut self, event: &KeyEvent, now: Instant) -> (r: Vec<TapPatternEvent>)
        requires
            old(self).inv(),
        ensures
            final(self).inv(),
            r@ == old(self)@.emitted(*event, now),
            final(self)@ == old(self)@.after(*event, now),
    {
        let trigger = match trigger_from_event(event) {
            Some(trigger) => trigger,
            None => return Vec::new(),
        };
        if !event.is_key_down {
            self.held_triggers.remove(trigger);
            return Vec::new();
        }
        if !self.held_triggers.insert(trigger) {
            return Vec::new();
        }
        let (id, pattern) = match self.pattern_for_trigger(trigger) {
            Some(found) => found,
            None => {
                self.interrupt_if_different(trigger);
                return Vec::new();
            },
        };
        let count: u8 = match self.active {
            Some(active) if active.trigger == trigger => {
                let within_timeout = match now.checked_duration_since(active.last_tap_at) {
                    Some(elapsed) => elapsed.nanos <= pattern.timeout.nanos,
                    None => false,
                };
                if !within_timeout {
                    1
                } else if active.count < u8::MAX {
                    active.count + 1
                } else {
                    u8::MAX
                }
            },
            _ => 1,
        };
        if count >= pattern.tap_count {
            self.active = None;
            let mut emitted: Vec<TapPatternEvent> = Vec::new();
            emitted.push(TapPatternEvent { id, tap_count: count, is_key_down: true });
            return emitted;
        }
        self.active = Some(ActiveTapSequence { trigger, count, last_tap_at: now });
        Vec::new()
    }

    fn interrupt_if_different(&mut self, trigger: TriggerKey)
        requires
            old(self).inv(),
        ensures
            final(self).inv(),
            final(self)@ == (TapPatternModel {
                active: if old(self)@.active matches Some(active) && active.trigger != trigger {
                    None
                } else {
                    old(self)@.active
                },
                ..old(self)@
            }),
    {
        if let Some(active) = self.active {
            if active.trigger != trigger {
                self.active = None;
            }
        }
    }
}

} // verus!
