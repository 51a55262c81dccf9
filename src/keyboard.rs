use vstd::prelude::*;

verus! {

/// Offset between the key codes a keyboard device reports and the key codes
/// of a compiled keymap.
pub const KEYCODE_OFFSET: u32 = 8;

/// Where a keyboard device stands.
#[derive(Clone, Copy, Debug, PartialEq, Eq, Structural)]
pub enum KeyboardState {
    /// No keymap has been compiled yet.
    Uninitialized,
    /// A keymap is compiled; key events are resolved through it.
    Ready,
    /// The device sent a keymap in a format that cannot be read and was
    /// released; nothing more comes from it.
    Released,
}

/// What a keyboard device reports.
#[derive(Clone, Copy, Debug, PartialEq, Eq, Structural)]
pub enum KeyboardEvent {
    /// A keymap description; `supported` tells whether its format can be
    /// compiled.
    Keymap { supported: bool },
    /// A physical key went down (`pressed`) or up.
    Key { code: u32, pressed: bool },
    /// Any other event of the device.
    Other,
}

/// What to do in answer to an event.
#[derive(Clone, Copy, Debug, PartialEq, Eq, Structural)]
pub enum KeyboardAction {
    /// Compile the keymap that came with the event.
    CompileKeymap,
    /// Release the device.
    Release,
    /// Resolve `keycode` through the compiled keymap and call the key-press
    /// handler with the symbol.
    Press { keycode: u32 },
    /// Resolve `keycode` and call the key-release handler with the symbol.
    Unpress { keycode: u32 },
    /// Nothing.
    Ignore,
}

/// The state a device moves to on an event.
pub open spec fn next_state(s: KeyboardState, e: KeyboardEvent) -> KeyboardState {
    match (s, e) {
        (KeyboardState::Released, _) => KeyboardState::Released,
        (_, KeyboardEvent::Keymap { supported }) => if supported {
            KeyboardState::Ready
        } else {
            KeyboardState::Released
        },
        _ => s,
    }
}

/// What a device in state `s` does on event `e`.
pub open spec fn action_for(s: KeyboardState, e: KeyboardEvent) -> KeyboardAction {
    match (s, e) {
        (KeyboardState::Released, _) => KeyboardAction::Ignore,
        (_, KeyboardEvent::Keymap { supported }) => if supported {
            KeyboardAction::CompileKeymap
        } else {
            KeyboardAction::Release
        },
        (KeyboardState::Ready, KeyboardEvent::Key { code, pressed }) => if code + KEYCODE_OFFSET
            > u32::MAX {
            KeyboardAction::Ignore
        } else if pressed {
            KeyboardAction::Press { keycode: (code + KEYCODE_OFFSET) as u32 }
        } else {
            KeyboardAction::Unpress { keycode: (code + KEYCODE_OFFSET) as u32 }
        },
        _ => KeyboardAction::Ignore,
    }
}

/// One step of a keyboard device: the next state and the action to take.
/// A key event before any keymap has been compiled is ignored.
pub fn keyboard_step(s: KeyboardState, e: KeyboardEvent) -> (r: (KeyboardState, KeyboardAction))
    ensures
        r.0 == next_state(s, e),
        r.1 == action_for(s, e),
        s == KeyboardState::Uninitialized && e is Key ==> r == (
            KeyboardState::Uninitialized,
            KeyboardAction::Ignore,
        ),
{
    match s {
        KeyboardState::Released => (KeyboardState::Released, KeyboardAction::Ignore),
        _ => match e {
            KeyboardEvent::Keymap { supported } => {
                if supported {
                    (KeyboardState::Ready, KeyboardAction::CompileKeymap)
                } else {
                    (KeyboardState::Released, KeyboardAction::Release)
                }
            },
            KeyboardEvent::Key { code, pressed } => {
                if s == KeyboardState::Uninitialized {
                    (s, KeyboardAction::Ignore)
                } else {
                    match code.checked_add(KEYCODE_OFFSET) {
                        None => (s, KeyboardAction::Ignore),
                        Some(keycode) => if pressed {
                            (s, KeyboardAction::Press { keycode })
                        } else {
                            (s, KeyboardAction::Unpress { keycode })
                        },
                    }
                }
            },
            KeyboardEvent::Other => (s, KeyboardAction::Ignore),
        },
    }
}

} // verus!
