//! Mouse activity that is not a key event of its own.

use vstd::prelude::*;

verus! {

/// A mouse button that was pressed.
#[derive(Debug, Clone, Copy, PartialEq, Eq, Structural, Hash)]
pub enum MouseButtonActivity {
    Left,
    Right,
    Middle,
    X1,
    X2,
}

/// Mouse activity seen by the keyboard listener.
#[derive(Debug, Clone, Copy, PartialEq, Eq, Structural, Hash)]
pub enum InputActivity {
    MouseButtonDown(MouseButtonActivity),
    MouseButtonUp(MouseButtonActivity),
    ScrollWheel,
}

} // verus!
