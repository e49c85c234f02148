//! The hotkeys that are kept from other applications.

use vstd::prelude::*;

use crate::types::Hotkey;

verus! {

/// A set of hotkeys, kept as a list without order.
pub struct BlockingHotkeys {
    hotkeys: Vec<Hotkey>,
}

impl View for BlockingHotkeys {
    type V = Set<Hotkey>;

    closed spec fn view(&self) -> Set<Hotkey> {
        self.hotkeys@.to_set()
    }
}

impl BlockingHotkeys {
    /// Whether no hotkey is listed twice.
    pub closed spec fn wf(self) -> bool {
        self.hotkeys@.no_duplicates()
    }

    /// The empty set.
    pub fn new() -> (r: BlockingHotkeys)
        ensures
            r.wf(),
            r@ == Set::<Hotkey>::empty(),
    {
        let r = BlockingHotkeys { hotkeys: Vec::new() };
        assert(r@ =~= Set::<Hotkey>::empty());
        r
    }

    fn position(&self, hotkey: Hotkey) -> (r: Option<usize>)
        ensures
            match r {
                Some(i) => i < self.hotkeys@.len() && self.hotkeys@[i as int] == hotkey
                    && self@.contains(hotkey),
                None => !self@.contains(hotkey),
            },
    {
        let mut i: usize = 0;
        while i < self.hotkeys.len()
            invariant
                i <= self.hotkeys@.len(),
                forall|j: int| 0 <= j < i ==> #[trigger] self.hotkeys@[j] != hotkey,
            decreases self.hotkeys@.len() - i,
        {
            if self.hotkeys[i] == hotkey {
                assert(self.hotkeys@.contains(hotkey));
                return Some(i);
            }
            i = i + 1;
        }
        None
    }

    /// Whether a hotkey is in the set.
    pub fn contains(&self, hotkey: Hotkey) -> (r: bool)
        ensures
            r <==> self@.contains(hotkey),
    {
        self.position(hotkey).is_some()
    }

    /// Puts a hotkey into the set.
    pub fn insert(&mut self, hotkey: Hotkey)
        requires
            old(self).wf(),
        ensures
            final(self).wf(),
            final(self)@ == old(self)@.insert(hotkey),
    {
        if self.position(hotkey).is_none() {
            self.hotkeys.push(hotkey);
            proof {
                let before = old(self).hotkeys@;
                assert forall|h: Hotkey| self.hotkeys@.contains(h) <==> before.contains(h) || h
                    == hotkey by {
                    if before.contains(h) {
                        let i = choose|i: int| 0 <= i < before.len() && before[i] == h;
                        assert(self.hotkeys@[i] == h);
                    }
                    assert(self.hotkeys@[before.len() as int] == hotkey);
                }
                assert(self@ =~= old(self)@.insert(hotkey));
            }
        } else {
            assert(self@ =~= old(self)@.insert(hotkey));
        }
    }

    /// Takes a hotkey out of the set.
    pub fn remove(&mut self, hotkey: Hotkey)
        requires
            old(self).wf(),
        ensures
            final(self).wf(),
            final(self)@ == old(self)@.remove(hotkey),
    {
        if let Some(i) = self.position(hotkey) {
            self.hotkeys.remove(i);
            proof {
                let before = old(self).hotkeys@;
                let k = i as int;
                assert(self.hotkeys@ =~= before.remove(k));
                assert forall|h: Hotkey| self.hotkeys@.contains(h) <==> before.contains(h) && h
                    != hotkey by {
                    if before.contains(h) && h != hotkey {
                        let j = choose|j: int| 0 <= j < before.len() && before[j] == h;
                        let p = if j < k { j } else { j - 1 };
                        assert(self.hotkeys@[p] == h);
                    }
                    if self.hotkeys@.contains(h) {
                        let p = choose|p: int| 0 <= p < self.hotkeys@.len() && self.hotkeys@[p]
                            == h;
                        let j = if p < k { p } else { p + 1 };
                        assert(before[j] == h);
                    }
                }
                assert(self@ =~= old(self)@.remove(hotkey));
            }
        } else {
            assert(self@ =~= old(self)@.remove(hotkey));
        }
    }
}

} // verus!
