//! Events of every kind.

use vstd::prelude::*;

use super::hotkey::HotkeyEvent;
use super::input_activity::InputActivity;
use super::tap_alone::TapAloneEvent;
use super::tap_pattern::TapPatternEvent;

verus! {

/// One event type for callers that want all events.
#[derive(Debug, Clone, Copy, PartialEq, Eq, Structural, Hash)]
pub enum HandyKeysEvent {
    Hotkey(HotkeyEvent),
    TapPattern(TapPatternEvent),
    TapAlone(TapAloneEvent),
    InputActivity(InputActivity),
}

} // verus!
