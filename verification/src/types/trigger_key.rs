//! Single triggers, shared by the tap recognizers.

use vstd::prelude::*;

use crate::error::Error;

use super::hotkey::{Hotkey, KeyEvent};
use super::key::Key;
use super::modifiers::Modifiers;

verus! {

/// One key-like input that can be tapped.
#[derive(Debug, Clone, Copy, PartialEq, Eq, Structural, Hash)]
pub enum TriggerKey {
    Key(Key),
    Modifier(Modifiers),
}

/// Said of modifiers that do not name one side of one modifier.
pub open spec fn not_side_specific() -> Seq<char> {
    "tap trigger modifiers must be side-specific, e.g. shift_left"@
}

/// Said of a hotkey that is more than one input, or none.
pub open spec fn not_one_input() -> Seq<char> {
    "tap triggers must be exactly one key or one side-specific modifier"@
}

impl TriggerKey {
    /// The trigger that is just what a hotkey names: a key alone, or one
    /// modifier on one side.
    pub fn from_hotkey(hotkey: Hotkey) -> (r: Result<TriggerKey, Error>)
        ensures
            match hotkey.key {
                Some(key) => if hotkey.modifiers.is_empty() {
                    r matches Ok(trigger) && trigger == TriggerKey::Key(key)
                } else {
                    r matches Err(Error::InvalidTriggerKey(why)) && why@ == not_one_input()
                },
                None => if hotkey.modifiers.keys() == 1 {
                    r matches Ok(trigger) && trigger == TriggerKey::Modifier(hotkey.modifiers)
                } else if !hotkey.modifiers.is_empty() {
                    r matches Err(Error::InvalidTriggerKey(why)) && why@ == not_side_specific()
                } else {
                    r matches Err(Error::InvalidTriggerKey(why)) && why@ == not_one_input()
                },
            },
    {
        match (hotkey.modifiers, hotkey.key) {
            (modifiers, Some(key)) if modifiers.is_empty() => Ok(TriggerKey::Key(key)),
            (modifiers, None) if is_single_concrete_modifier(modifiers) => Ok(
                TriggerKey::Modifier(modifiers),
            ),
            (modifiers, None) if !modifiers.is_empty() => Err(
                Error::InvalidTriggerKey(
                    "tap trigger modifiers must be side-specific, e.g. shift_left".to_string(),
                ),
            ),
            _ => Err(
                Error::InvalidTriggerKey(
                    "tap triggers must be exactly one key or one side-specific modifier".to_string(),
                ),
            ),
        }
    }

    /// The trigger that went up or down in an event: its key, or else the
    /// modifier that changed.
    pub open spec fn of_event(event: KeyEvent) -> Option<TriggerKey> {
        match (event.key, event.changed_modifier) {
            (Some(key), _) => Some(TriggerKey::Key(key)),
            (None, Some(modifier)) => Some(TriggerKey::Modifier(modifier)),
            (None, None) => None,
        }
    }

    /// The trigger as messages show it.
    pub open spec fn shown(self) -> Seq<char> {
        match self {
            TriggerKey::Key(key) => "Key("@ + key.spelled() + ")"@,
            TriggerKey::Modifier(modifiers) => "Modifier("@ + modifiers.shown() + ")"@,
        }
    }

    /// The trigger as messages show it.
    pub fn show(&self) -> (r: String)
        ensures
            r@ == self.shown(),
    {
        match *self {
            TriggerKey::Key(key) => {
                let mut r = "Key(".to_string();
                r.append(key.name());
                r.append(")");
                r
            },
            TriggerKey::Modifier(modifiers) => {
                let mut r = "Modifier(".to_string();
                r.append(modifiers.show().as_str());
                r.append(")");
                r
            },
        }
    }
}

/// Checks for one modifier on one side.
fn is_single_concrete_modifier(modifiers: Modifiers) -> (r: bool)
    ensures
        r <==> modifiers.keys() == 1,
{
    proof {
        lemma_no_keys(modifiers, 32);
    }
    !modifiers.is_empty() && modifiers.count() == 1
}

/// An empty set has no keys.
proof fn lemma_no_keys(modifiers: Modifiers, n: nat)
    requires
        n <= 32,
    ensures
        modifiers.is_empty() ==> modifiers.keys_below(n) == 0,
    decreases n,
{
    if n > 0 {
        lemma_no_keys(modifiers, (n - 1) as nat);
        let place = (n - 1) as u32;
        assert(0u32 & (1u32 << place) == 0) by (bit_vector);
    }
}

/// The trigger that went up or down in an event.
pub fn trigger_from_event(event: &KeyEvent) -> (r: Option<TriggerKey>)
    ensures
        r == TriggerKey::of_event(*event),
{
    match event.key {
        Some(key) => Some(TriggerKey::Key(key)),
        None => match event.changed_modifier {
            Some(modifier) => Some(TriggerKey::Modifier(modifier)),
            None => None,
        },
    }
}

} // verus!
