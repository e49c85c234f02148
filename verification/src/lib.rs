//! Global hotkeys and tap gestures, recognized from raw keyboard events.

pub mod error;
pub mod manager;
pub mod tap_alone;
pub mod tap_pattern;
pub mod text;
pub mod time;
pub mod triggers;
pub mod types;

pub use error::Error;
