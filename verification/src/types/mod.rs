//! Core types for keyboard shortcuts.

pub mod events;
pub mod hotkey;
pub mod input_activity;
pub mod key;
pub mod laws;
pub mod modifiers;
pub mod spelling;
pub mod tap_alone;
pub mod tap_pattern;
pub mod trigger_key;

pub use events::HandyKeysEvent;
pub use hotkey::{Hotkey, HotkeyEvent, HotkeyId, HotkeyState, KeyEvent};
pub use input_activity::{InputActivity, MouseButtonActivity};
pub use key::Key;
pub use modifiers::Modifiers;
pub use tap_alone::{TapAlone, TapAloneEvent, TapAloneId};
pub use tap_pattern::{TapPattern, TapPatternEvent, TapPatternId, TapPatternMode};
pub use trigger_key::TriggerKey;
