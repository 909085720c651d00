//! Wire-level remote input events.
use vstd::prelude::*;

verus! {

/// A pointer button.
#[derive(Debug, Clone, Copy, PartialEq, Eq, Hash, Structural)]
pub enum MouseButton {
    /// The primary button.
    Left,
    /// The secondary button.
    Right,
    /// The wheel button.
    Middle,
}

/// One input event for the remote desktop.
#[derive(Debug, Clone, Copy, PartialEq, Eq, Hash, Structural)]
pub enum InputEvent {
    /// Absolute pointer move, desktop pixels.
    MouseMove {
        /// X.
        x: u16,
        /// Y.
        y: u16,
    },
    /// A button pressed or released at desktop pixels.
    MouseButton {
        /// Which button.
        button: MouseButton,
        /// Pressed (`true`) or released.
        down: bool,
        /// X.
        x: u16,
        /// Y.
        y: u16,
    },
    /// A UTF-16 code unit pressed or released (layout-independent typing).
    Unicode {
        /// The code unit.
        ch: u16,
        /// Pressed (`true`) or released.
        down: bool,
    },
    /// A set-1 scancode pressed or released.
    Key {
        /// Scancode.
        scancode: u8,
        /// Extended key.
        extended: bool,
        /// Pressed (`true`) or released.
        down: bool,
    },
    /// Wheel rotation (120 units = one notch).
    Wheel {
        /// Horizontal wheel.
        horizontal: bool,
        /// Units.
        units: i16,
    },
}

} // verus!
