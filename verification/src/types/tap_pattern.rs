//! Tap-pattern definitions and validation.

use vstd::prelude::*;

use crate::error::Error;
use crate::text;
use crate::time::Duration;

use super::trigger_key::TriggerKey;

verus! {

/// A unique identifier for a registered tap pattern.
#[derive(Debug, Clone, Copy, PartialEq, Eq, Structural, Hash)]
pub struct TapPatternId(pub u32);

impl TapPatternId {
    #[verifier::allow_in_spec]
    pub fn as_u32(&self) -> u32
        returns
            self.0,
    {
        self.0
    }

    #[verifier::allow_in_spec]
    pub fn from_u32(id: u32) -> TapPatternId
        returns
            TapPatternId(id),
    {
        TapPatternId(id)
    }

    /// The id as messages show it.
    pub open spec fn shown(self) -> Seq<char> {
        "TapPatternId("@ + text::decimal(self.0 as nat) + ")"@
    }

    /// The id as messages show it.
    pub fn show(&self) -> (r: String)
        ensures
            r@ == self.shown(),
    {
        let mut r = "TapPatternId(".to_string();
        text::push_decimal(&mut r, self.0);
        r.append(")");
        r
    }
}

/// Tap-pattern evaluation mode.
#[derive(Debug, Clone, Copy, PartialEq, Eq, Structural, Hash)]
pub enum TapPatternMode {
    Lazy,
    TapThenHold,
}

/// A repeated-tap trigger. Only double taps are accepted.
#[derive(Debug, Clone, Copy, PartialEq, Eq, Structural, Hash)]
pub struct TapPattern {
    pub trigger: TriggerKey,
    pub tap_count: u8,
    pub timeout: Duration,
    pub mode: TapPatternMode,
}

impl TapPattern {
    /// Whether the pattern is a double tap with a timeout longer than nothing.
    pub open spec fn valid(self) -> bool {
        self.tap_count == 2 && self.timeout.nanos > 0
    }

    /// Why a definition is refused.
    pub open spec fn flaw(self) -> Seq<char>
        recommends
            !self.valid(),
    {
        if self.tap_count != 2 {
            "only double-tap patterns are supported in this release"@
        } else {
            "tap-pattern timeout must be greater than zero"@
        }
    }

    /// What is owed to a request for a pattern: the pattern if it is valid, or
    /// else what is wrong with it.
    pub open spec fn answers(self, r: Result<TapPattern, Error>) -> bool {
        if self.valid() {
            r matches Ok(made) && made == self
        } else {
            r matches Err(Error::InvalidTapPattern(why)) && why@ == self.flaw()
        }
    }

    /// Two taps.
    pub fn double_tap(trigger: TriggerKey, timeout: Duration) -> (r: Result<TapPattern, Error>)
        ensures
            (TapPattern { trigger, tap_count: 2, timeout, mode: TapPatternMode::Lazy }).answers(r),
    {
        TapPattern::new(trigger, 2, timeout)
    }

    /// A tap, and then a press that is held.
    pub fn double_tap_hold(trigger: TriggerKey, timeout: Duration) -> (r: Result<TapPattern, Error>)
        ensures
            (TapPattern { trigger, tap_count: 2, timeout, mode: TapPatternMode::TapThenHold })
                .answers(r),
    {
        TapPattern::new_with_mode(trigger, 2, timeout, TapPatternMode::TapThenHold)
    }

    /// A number of taps.
    pub fn new(trigger: TriggerKey, tap_count: u8, timeout: Duration) -> (r: Result<
        TapPattern,
        Error,
    >)
        ensures
            (TapPattern { trigger, tap_count, timeout, mode: TapPatternMode::Lazy }).answers(r),
    {
        TapPattern::new_with_mode(trigger, tap_count, timeout, TapPatternMode::Lazy)
    }

    /// A number of taps, in one of the modes.
    pub fn new_with_mode(
        trigger: TriggerKey,
        tap_count: u8,
        timeout: Duration,
        mode: TapPatternMode,
    ) -> (r: Result<TapPattern, Error>)
        ensures
            (TapPattern { trigger, tap_count, timeout, mode }).answers(r),
    {
        if tap_count != 2 {
            return Err(
                Error::InvalidTapPattern(
                    "only double-tap patterns are supported in this release".to_string(),
                ),
            );
        }
        if timeout.is_zero() {
            return Err(
                Error::InvalidTapPattern("tap-pattern timeout must be greater than zero".to_string()),
            );
        }
        Ok(TapPattern { trigger, tap_count, timeout, mode })
    }
}

/// A tap-pattern trigger event.
#[derive(Debug, Clone, Copy, PartialEq, Eq, Structural, Hash)]
pub struct TapPatternEvent {
    pub id: TapPatternId,
    pub tap_count: u8,
    pub is_key_down: bool,
}

} // verus!
