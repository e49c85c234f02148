//! Maps and sets whose keys are triggers.

use vstd::prelude::*;

use crate::types::TriggerKey;

verus! {

/// A map from triggers to values, kept as a list without order.
#[derive(Debug)]
pub struct TriggerMap<V> {
    entries: Vec<(TriggerKey, V)>,
}

impl<V> View for TriggerMap<V> {
    type V = Map<TriggerKey, V>;

    closed spec fn view(&self) -> Map<TriggerKey, V> {
        Map::new(
            |trigger: TriggerKey| exists|i: int| self.holds_at(i, trigger),
            |trigger: TriggerKey| self.entries@[choose|i: int| self.holds_at(i, trigger)].1,
        )
    }
}

impl<V: Copy> TriggerMap<V> {
    /// Whether no trigger is listed twice.
    pub closed spec fn wf(self) -> bool {
        forall|i: int, j: int|
            0 <= i < j < self.entries@.len() ==> (#[trigger] self.entries@[i]).0 != (
            #[trigger] self.entries@[j]).0
    }
}

impl<V> TriggerMap<V> {
    spec fn holds_at(self, i: int, trigger: TriggerKey) -> bool {
        0 <= i < self.entries@.len() && self.entries@[i].0 == trigger
    }
}

impl<V: Copy> TriggerMap<V> {
    /// The number of triggers in the map.
    pub closed spec fn size(self) -> nat {
        self.entries@.len()
    }

    /// The trigger at a place of the list.
    pub closed spec fn trigger_at(self, i: int) -> TriggerKey {
        self.entries@[i].0
    }

    /// The list names exactly the map's triggers, each once.
    pub proof fn lemma_places(self)
        requires
            self.wf(),
        ensures
            forall|i: int|
                0 <= i < self.size() ==> self@.contains_key(#[trigger] self.trigger_at(i)),
            forall|trigger: TriggerKey| #[trigger]
                self@.contains_key(trigger) ==> exists|i: int|
                    0 <= i < self.size() && #[trigger] self.trigger_at(i) == trigger,
            forall|i: int, j: int|
                0 <= i < j < self.size() ==> #[trigger] self.trigger_at(i)
                    != #[trigger] self.trigger_at(j),
    {
        assert forall|i: int| 0 <= i < self.size() implies self@.contains_key(
            #[trigger] self.trigger_at(i),
        ) by {
            assert(self.holds_at(i, self.trigger_at(i)));
        }
        assert forall|trigger: TriggerKey| #[trigger] self@.contains_key(trigger) implies exists|
            i: int,
        |
            0 <= i < self.size() && #[trigger] self.trigger_at(i) == trigger by {
            let i = choose|i: int| self.holds_at(i, trigger);
            assert(self.trigger_at(i) == trigger);
        }
    }

    /// An entry of the list is an entry of the map.
    proof fn lemma_entry(self, i: int)
        requires
            self.wf(),
            0 <= i < self.entries@.len(),
        ensures
            self@.contains_key(self.entries@[i].0),
            self@[self.entries@[i].0] == self.entries@[i].1,
    {
        let trigger = self.entries@[i].0;
        assert(self.holds_at(i, trigger));
        let j = choose|j: int| self.holds_at(j, trigger);
        assert(self.holds_at(j, trigger));
        if i < j {
            assert(self.entries@[i].0 != self.entries@[j].0);
        } else if j < i {
            assert(self.entries@[j].0 != self.entries@[i].0);
        }
    }

    /// The empty map.
    pub fn new() -> (r: TriggerMap<V>)
        ensures
            r.wf(),
            r@ == Map::<TriggerKey, V>::empty(),
    {
        let r = TriggerMap { entries: Vec::new() };
        assert(r@ =~= Map::<TriggerKey, V>::empty());
        r
    }

    /// The place of a trigger in the list.
    fn position(&self, trigger: TriggerKey) -> (r: Option<usize>)
        requires
            self.wf(),
        ensures
            match r {
                Some(i) => i < self.entries@.len() && self.entries@[i as int].0 == trigger
                    && self@.contains_key(trigger) && self@[trigger] == self.entries@[i as int].1,
                None => !self@.contains_key(trigger),
            },
    {
        let mut i: usize = 0;
        while i < self.entries.len()
            invariant
                self.wf(),
                i <= self.entries@.len(),
                forall|j: int| 0 <= j < i ==> (#[trigger] self.entries@[j]).0 != trigger,
            decreases self.entries@.len() - i,
        {
            if self.entries[i].0 == trigger {
                proof {
                    self.lemma_entry(i as int);
                }
                return Some(i);
            }
            i = i + 1;
        }
        None
    }

    /// The number of triggers in the map.
    pub fn len(&self) -> (r: usize)
        ensures
            r == self.size(),
    {
        self.entries.len()
    }

    /// The entry at a place of the list.
    pub fn entry(&self, i: usize) -> (r: (TriggerKey, V))
        requires
            self.wf(),
            i < self.size(),
        ensures
            r.0 == self.trigger_at(i as int),
            self@.contains_key(r.0),
            self@[r.0] == r.1,
    {
        proof {
            self.lemma_entry(i as int);
        }
        self.entries[i]
    }

    /// Whether a trigger is in the map.
    pub fn contains_key(&self, trigger: TriggerKey) -> (r: bool)
        requires
            self.wf(),
        ensures
            r <==> self@.contains_key(trigger),
    {
        self.position(trigger).is_some()
    }

    /// The value of a trigger.
    pub fn get(&self, trigger: TriggerKey) -> (r: Option<V>)
        requires
            self.wf(),
        ensures
            match r {
                Some(value) => self@.contains_key(trigger) && self@[trigger] == value,
                None => !self@.contains_key(trigger),
            },
    {
        match self.position(trigger) {
            Some(i) => Some(self.entries[i].1),
            None => None,
        }
    }

    /// Gives a trigger a value.
    pub fn insert(&mut self, trigger: TriggerKey, value: V)
        requires
            old(self).wf(),
        ensures
            final(self).wf(),
            final(self)@ == old(self)@.insert(trigger, value),
            old(self)@.contains_key(trigger) ==> final(self).size() == old(self).size() && forall|
                i: int,
            |
                0 <= i < old(self).size() ==> final(self).trigger_at(i) == #[trigger] old(
                    self,
                ).trigger_at(i),
    {
        match self.position(trigger) {
            Some(i) => {
                self.entries.set(i, (trigger, value));
                proof {
                    self.lemma_inserted(*old(self), i as int, trigger, value);
                }
            },
            None => {
                self.entries.push((trigger, value));
                proof {
                    assert forall|j: int| 0 <= j < old(self).entries@.len() implies (
                    #[trigger] self.entries@[j]).0 != trigger by {
                        old(self).lemma_entry(j);
                    }
                    self.lemma_inserted(*old(self), self.entries@.len() - 1, trigger, value);
                }
            },
        }
    }

    proof fn lemma_inserted(self, before: Self, k: int, trigger: TriggerKey, value: V)
        requires
            self.wf(),
            before.wf(),
            self.holds_at(k, trigger),
            self.entries@ == (if k < before.entries@.len() {
                before.entries@.update(k, (trigger, value))
            } else {
                before.entries@.push((trigger, value))
            }),
            k < before.entries@.len() ==> before.entries@[k].0 == trigger,
        ensures
            self@ == before@.insert(trigger, value),
    {
        self.lemma_entry(k);
        assert forall|t: TriggerKey| #[trigger] self@.contains_key(t) == before@.insert(
            trigger,
            value,
        ).contains_key(t) && (self@.contains_key(t) ==> self@[t] == before@.insert(
            trigger,
            value,
        )[t]) by {
            if t != trigger {
                if self@.contains_key(t) {
                    let i = choose|i: int| self.holds_at(i, t);
                    assert(self.holds_at(i, t));
                    assert(before.holds_at(i, t));
                    self.lemma_entry(i);
                    before.lemma_entry(i);
                }
                if before@.contains_key(t) {
                    let i = choose|i: int| before.holds_at(i, t);
                    assert(before.holds_at(i, t));
                    assert(self.holds_at(i, t));
                }
            }
        }
        assert(self@ =~= before@.insert(trigger, value));
    }

    /// Takes a trigger out of the map.
    pub fn remove(&mut self, trigger: TriggerKey) -> (r: Option<V>)
        requires
            old(self).wf(),
        ensures
            final(self).wf(),
            final(self)@ == old(self)@.remove(trigger),
            match r {
                Some(value) => old(self)@.contains_key(trigger) && old(self)@[trigger] == value
                    && final(self).size() + 1 == old(self).size(),
                None => !old(self)@.contains_key(trigger) && *final(self) == *old(self),
            },
    {
        match self.position(trigger) {
            Some(i) => {
                let (_, value) = self.entries.swap_remove(i);
                proof {
                    self.lemma_removed(*old(self), i as int);
                }
                Some(value)
            },
            None => {
                assert(self@ =~= old(self)@.remove(trigger));
                None
            },
        }
    }

    proof fn lemma_removed(self, before: Self, k: int)
        requires
            before.wf(),
            0 <= k < before.entries@.len(),
            self.entries@ == before.entries@.update(k, before.entries@.last()).drop_last(),
        ensures
            self.wf(),
            self@ == before@.remove(before.entries@[k].0),
    {
        let trigger = before.entries@[k].0;
        let last = before.entries@.len() - 1;
        assert forall|i: int, j: int| 0 <= i < j < self.entries@.len() implies (
        #[trigger] self.entries@[i]).0 != (#[trigger] self.entries@[j]).0 by {
            let p = if i == k { last } else { i };
            let q = if j == k { last } else { j };
            assert(self.entries@[i] == before.entries@[p]);
            assert(self.entries@[j] == before.entries@[q]);
        }
        assert forall|t: TriggerKey| #[trigger] self@.contains_key(t) == before@.remove(
            trigger,
        ).contains_key(t) && (self@.contains_key(t) ==> self@[t] == before@.remove(trigger)[t]) by {
            if self@.contains_key(t) {
                let i = choose|i: int| self.holds_at(i, t);
                assert(self.holds_at(i, t));
                let p = if i == k { last } else { i };
                assert(self.entries@[i] == before.entries@[p]);
                self.lemma_entry(i);
                before.lemma_entry(p);
                if p < k {
                    assert(before.entries@[p].0 != before.entries@[k].0);
                } else {
                    assert(before.entries@[k].0 != before.entries@[p].0);
                }
            }
            if before@.remove(trigger).contains_key(t) {
                let p = choose|p: int| before.holds_at(p, t);
                assert(before.holds_at(p, t));
                let i = if p == last { k } else { p };
                assert(self.holds_at(i, t));
            }
        }
        assert(self@ =~= before@.remove(trigger));
    }
}

/// A set of triggers.
#[derive(Debug)]
pub struct TriggerSet {
    members: TriggerMap<()>,
}

impl View for TriggerSet {
    type V = Set<TriggerKey>;

    closed spec fn view(&self) -> Set<TriggerKey> {
        self.members@.dom()
    }
}

impl TriggerSet {
    /// Whether no trigger is listed twice.
    pub closed spec fn wf(self) -> bool {
        self.members.wf()
    }

    /// The empty set.
    pub fn new() -> (r: TriggerSet)
        ensures
            r.wf(),
            r@ == Set::<TriggerKey>::empty(),
    {
        let r = TriggerSet { members: TriggerMap::new() };
        assert(r@ =~= Set::<TriggerKey>::empty());
        r
    }

    /// Whether a trigger is in the set.
    pub fn contains(&self, trigger: TriggerKey) -> (r: bool)
        requires
            self.wf(),
        ensures
            r <==> self@.contains(trigger),
    {
        self.members.contains_key(trigger)
    }

    /// Whether a trigger other than the given one is in the set.
    pub fn contains_other(&self, trigger: TriggerKey) -> (r: bool)
        requires
            self.wf(),
        ensures
            r <==> exists|other: TriggerKey| #[trigger] self@.contains(other) && other != trigger,
    {
        proof {
            self.members.lemma_places();
        }
        let mut i: usize = 0;
        while i < self.members.len()
            invariant
                self.members.wf(),
                i <= self.members.size(),
                forall|j: int| 0 <= j < i ==> #[trigger] self.members.trigger_at(j) == trigger,
            decreases self.members.size() - i,
        {
            let (member, _) = self.members.entry(i);
            if member != trigger {
                assert(self@.contains(member));
                return true;
            }
            i = i + 1;
        }
        false
    }

    /// Puts a trigger into the set, and says whether it is new there.
    pub fn insert(&mut self, trigger: TriggerKey) -> (r: bool)
        requires
            old(self).wf(),
        ensures
            final(self).wf(),
            final(self)@ == old(self)@.insert(trigger),
            r <==> !old(self)@.contains(trigger),
    {
        let fresh = !self.members.contains_key(trigger);
        self.members.insert(trigger, ());
        assert(self@ =~= old(self)@.insert(trigger));
        fresh
    }

    /// Takes a trigger out of the set, and says whether it was there.
    pub fn remove(&mut self, trigger: TriggerKey) -> (r: bool)
        requires
            old(self).wf(),
        ensures
            final(self).wf(),
            final(self)@ == old(self)@.remove(trigger),
            r <==> old(self)@.contains(trigger),
    {
        let found = self.members.remove(trigger).is_some();
        assert(self@ =~= old(self)@.remove(trigger));
        found
    }
}

} // verus!
