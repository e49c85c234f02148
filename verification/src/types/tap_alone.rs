//! Tap-alone trigger definitions and validation.

use vstd::prelude::*;

use crate::error::Error;
use crate::text;
use crate::time::Duration;

use super::key::Key;
use super::trigger_key::TriggerKey;

verus! {

/// A unique identifier for a registered tap-alone trigger.
#[derive(Debug, Clone, Copy, PartialEq, Eq, Structural, Hash)]
pub struct TapAloneId(pub u32);

impl TapAloneId {
    #[verifier::allow_in_spec]
    pub fn as_u32(&self) -> u32
        returns
            self.0,
    {
        self.0
    }

    #[verifier::allow_in_spec]
    pub fn from_u32(id: u32) -> TapAloneId
        returns
            TapAloneId(id),
    {
        TapAloneId(id)
    }

    /// The id as messages show it.
    pub open spec fn shown(self) -> Seq<char> {
        "TapAloneId("@ + text::decimal(self.0 as nat) + ")"@
    }

    /// The id as messages show it.
    pub fn show(&self) -> (r: String)
        ensures
            r@ == self.shown(),
    {
        let mut r = "TapAloneId(".to_string();
        text::push_decimal(&mut r, self.0);
        r.append(")");
        r
    }
}

/// A trigger that fires after one short, uninterrupted press and release.
#[derive(Debug, Clone, Copy, PartialEq, Eq, Structural, Hash)]
pub struct TapAlone {
    pub trigger: TriggerKey,
    pub max_press_duration: Duration,
    pub double_tap_suppression: Duration,
}

impl TapAlone {
    /// Whether the trigger is a key or modifier, and both times are longer than nothing.
    pub open spec fn valid(self) -> bool {
        &&& !(self.trigger matches TriggerKey::Key(key) && mouse_button(key))
        &&& self.max_press_duration.nanos > 0
        &&& self.double_tap_suppression.nanos > 0
    }

    /// Why a definition is refused.
    pub open spec fn flaw(self) -> Seq<char>
        recommends
            !self.valid(),
    {
        if self.trigger matches TriggerKey::Key(key) && mouse_button(key) {
            "tap-alone mouse button triggers are not supported"@
        } else if self.max_press_duration.nanos == 0 {
            "tap-alone max press duration must be greater than zero"@
        } else {
            "tap-alone double-tap suppression must be greater than zero"@
        }
    }

    /// A trigger that fires for presses shorter than `max_press_duration` that
    /// no second press follows within `double_tap_suppression`.
    pub fn new(
        trigger: TriggerKey,
        max_press_duration: Duration,
        double_tap_suppression: Duration,
    ) -> (r: Result<TapAlone, Error>)
        ensures
            ({
                let wanted = TapAlone { trigger, max_press_duration, double_tap_suppression };
                if wanted.valid() {
                    r matches Ok(made) && made == wanted
                } else {
                    r matches Err(Error::InvalidTapAlone(why)) && why@ == wanted.flaw()
                }
            }),
    {
        if let TriggerKey::Key(key) = trigger {
            if is_mouse_button(key) {
                return Err(
                    Error::InvalidTapAlone(
                        "tap-alone mouse button triggers are not supported".to_string(),
                    ),
                );
            }
        }
        if max_press_duration.is_zero() {
            return Err(
                Error::InvalidTapAlone(
                    "tap-alone max press duration must be greater than zero".to_string(),
                ),
            );
        }
        if double_tap_suppression.is_zero() {
            return Err(
                Error::InvalidTapAlone(
                    "tap-alone double-tap suppression must be greater than zero".to_string(),
                ),
            );
        }
        Ok(TapAlone { trigger, max_press_duration, double_tap_suppression })
    }
}

/// Whether a key is a button of the mouse.
pub open spec fn mouse_button(key: Key) -> bool {
    ||| key == Key::MouseLeft
    ||| key == Key::MouseRight
    ||| key == Key::MouseMiddle
    ||| key == Key::MouseX1
    ||| key == Key::MouseX2
}

fn is_mouse_button(key: Key) -> (r: bool)
    ensures
        r <==> mouse_button(key),
{
    matches!(
        key,
        Key::MouseLeft | Key::MouseRight | Key::MouseMiddle | Key::MouseX1 | Key::MouseX2
    )
}

/// Event emitted when a tap-alone trigger resolves.
#[derive(Debug, Clone, Copy, PartialEq, Eq, Structural, Hash)]
pub struct TapAloneEvent {
    pub id: TapAloneId,
}

} // verus!
