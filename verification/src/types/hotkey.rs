//! Hotkeys and the key events that press and release them.

use vstd::prelude::*;

use crate::error::Error;
use crate::text;

use super::input_activity::InputActivity;
use super::key::Key;
use super::modifiers::Modifiers;

verus! {

/// A unique identifier for a registered hotkey.
#[derive(Debug, Clone, Copy, PartialEq, Eq, Structural, Hash)]
pub struct HotkeyId(pub u32);

impl HotkeyId {
    /// The id as messages show it.
    pub open spec fn shown(self) -> Seq<char> {
        "HotkeyId("@ + text::decimal(self.0 as nat) + ")"@
    }

    /// The id as messages show it.
    pub fn show(&self) -> (r: String)
        ensures
            r@ == self.shown(),
    {
        let mut r = "HotkeyId(".to_string();
        text::push_decimal(&mut r, self.0);
        r.append(")");
        r
    }
}

/// Modifiers, a key, or both.
#[derive(Debug, Clone, Copy, PartialEq, Eq, Structural, Hash)]
pub struct Hotkey {
    pub modifiers: Modifiers,
    pub key: Option<Key>,
}

/// Whether a hotkey went down or up.
#[derive(Debug, Clone, Copy, PartialEq, Eq, Structural, Hash)]
pub enum HotkeyState {
    Pressed,
    Released,
}

/// Event emitted when a hotkey goes down or up.
#[derive(Debug, Clone, Copy, PartialEq, Eq, Structural, Hash)]
pub struct HotkeyEvent {
    pub id: HotkeyId,
    pub state: HotkeyState,
}

/// One raw event of the keyboard listener.
#[derive(Debug, Clone, Copy, PartialEq, Eq, Structural, Hash)]
pub struct KeyEvent {
    /// The modifiers held after the event.
    pub modifiers: Modifiers,
    /// The key that changed, if it is no modifier.
    pub key: Option<Key>,
    /// Whether the key or modifier went down.
    pub is_key_down: bool,
    /// The modifier that changed.
    pub changed_modifier: Option<Modifiers>,
    /// Mouse activity reported in place of a key.
    pub activity: Option<InputActivity>,
}

impl Hotkey {
    /// A hotkey of modifiers and a key: one of them has to be there.
    pub fn new(modifiers: Modifiers, key: Option<Key>) -> (r: Result<Hotkey, Error>)
        ensures
            match r {
                Ok(hotkey) => (key is Some || !modifiers.is_empty()) && hotkey == (Hotkey {
                    modifiers,
                    key,
                }),
                Err(e) => key is None && modifiers.is_empty() && e == Error::EmptyHotkey,
            },
    {
        if modifiers.is_empty() && key.is_none() {
            return Err(Error::EmptyHotkey);
        }
        Ok(Hotkey { modifiers, key })
    }

    /// A list of modifiers with one more, on the sides that are asked for.
    pub open spec fn with_family(
        list: Seq<char>,
        modifiers: Modifiers,
        left: Modifiers,
        right: Modifiers,
        name: Seq<char>,
    ) -> Seq<char> {
        if modifiers.intersects(left) && modifiers.intersects(right) {
            text::with_item(list, "+"@, name)
        } else if modifiers.intersects(left) {
            text::with_item(list, "+"@, name + "_left"@)
        } else if modifiers.intersects(right) {
            text::with_item(list, "+"@, name + "_right"@)
        } else {
            list
        }
    }

    /// The hotkey as messages show it: its modifiers, and then its key.
    pub open spec fn shown(self) -> Seq<char> {
        let list = Seq::<char>::empty();
        let list = Hotkey::with_family(list, self.modifiers, Modifiers::cmd_left(), Modifiers::cmd_right(), "cmd"@);
        let list = Hotkey::with_family(list, self.modifiers, Modifiers::ctrl_left(), Modifiers::ctrl_right(), "ctrl"@);
        let list = Hotkey::with_family(list, self.modifiers, Modifiers::opt_left(), Modifiers::opt_right(), "opt"@);
        let list = Hotkey::with_family(list, self.modifiers, Modifiers::shift_left(), Modifiers::shift_right(), "shift"@);
        let list = if self.modifiers.intersects(Modifiers::function()) {
            text::with_item(list, "+"@, "fn"@)
        } else {
            list
        };
        match self.key {
            Some(key) => text::with_item(list, "+"@, key.spelled()),
            None => list,
        }
    }

    /// The hotkey as messages show it.
    pub fn show(&self) -> (r: String)
        ensures
            r@ == self.shown(),
    {
        let mut list = String::new();
        push_family(&mut list, self.modifiers, Modifiers::cmd_left(), Modifiers::cmd_right(), "cmd");
        push_family(&mut list, self.modifiers, Modifiers::ctrl_left(), Modifiers::ctrl_right(), "ctrl");
        push_family(&mut list, self.modifiers, Modifiers::opt_left(), Modifiers::opt_right(), "opt");
        push_family(&mut list, self.modifiers, Modifiers::shift_left(), Modifiers::shift_right(), "shift");
        if self.modifiers.intersects(Modifiers::function()) {
            text::push_item(&mut list, "+", "fn");
        }
        if let Some(key) = self.key {
            text::push_item(&mut list, "+", key.name());
        }
        list
    }
}

fn push_family(
    list: &mut String,
    modifiers: Modifiers,
    left: Modifiers,
    right: Modifiers,
    name: &str,
)
    ensures
        final(list)@ == Hotkey::with_family(old(list)@, modifiers, left, right, name@),
{
    let mut item = name.to_string();
    if modifiers.intersects(left) && modifiers.intersects(right) {
        text::push_item(list, "+", name);
    } else if modifiers.intersects(left) {
        item.append("_left");
        text::push_item(list, "+", item.as_str());
    } else if modifiers.intersects(right) {
        item.append("_right");
        text::push_item(list, "+", item.as_str());
    }
}

} // verus!
