//! What can go wrong.

use vstd::prelude::*;

use crate::types::{HotkeyId, TapAloneId, TapPatternId};

verus! {

/// Why a request was refused.
#[derive(Debug, PartialEq, Eq)]
pub enum Error {
    /// A hotkey needs a key or a modifier.
    EmptyHotkey,
    /// The text does not spell a hotkey.
    InvalidHotkey(String),
    /// The hotkey cannot serve as the trigger of a tap.
    InvalidTriggerKey(String),
    /// The tap pattern cannot be recognized.
    InvalidTapPattern(String),
    /// The tap-alone trigger cannot be recognized.
    InvalidTapAlone(String),
    /// The same hotkey is registered under the id that the text names.
    HotkeyAlreadyRegistered(String),
    /// No hotkey is registered under the id.
    HotkeyNotFound(HotkeyId),
    /// The id or the trigger that the text names is taken.
    TapPatternAlreadyRegistered(String),
    /// No tap pattern is registered under the id.
    TapPatternNotFound(TapPatternId),
    /// The id or the trigger that the text names is taken.
    TapAloneAlreadyRegistered(String),
    /// No tap-alone trigger is registered under the id.
    TapAloneNotFound(TapAloneId),
    /// A thread failed while it held the shared state.
    MutexPoisoned,
    /// No more events will come.
    EventLoopNotRunning,
    /// No key event came in time.
    Timeout,
}

} // verus!
