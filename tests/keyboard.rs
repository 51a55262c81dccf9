use overlay_widget::keyboard::{keyboard_step, KeyboardAction, KeyboardEvent, KeyboardState};

#[test]
fn key_before_keymap_is_ignored() {
    for pressed in [true, false] {
        let r = keyboard_step(KeyboardState::Uninitialized, KeyboardEvent::Key { code: 1, pressed });
        assert_eq!(r, (KeyboardState::Uninitialized, KeyboardAction::Ignore));
    }
}

#[test]
fn supported_keymap_makes_device_ready() {
    let r = keyboard_step(KeyboardState::Uninitialized, KeyboardEvent::Keymap { supported: true });
    assert_eq!(r, (KeyboardState::Ready, KeyboardAction::CompileKeymap));
}

#[test]
fn unsupported_keymap_releases_device() {
    let r = keyboard_step(KeyboardState::Uninitialized, KeyboardEvent::Keymap { supported: false });
    assert_eq!(r, (KeyboardState::Released, KeyboardAction::Release));
    let r = keyboard_step(KeyboardState::Released, KeyboardEvent::Key { code: 1, pressed: true });
    assert_eq!(r, (KeyboardState::Released, KeyboardAction::Ignore));
}

#[test]
fn ready_device_dispatches_with_offset() {
    let r = keyboard_step(KeyboardState::Ready, KeyboardEvent::Key { code: 1, pressed: true });
    assert_eq!(r, (KeyboardState::Ready, KeyboardAction::Press { keycode: 9 }));
    let r = keyboard_step(KeyboardState::Ready, KeyboardEvent::Key { code: 30, pressed: false });
    assert_eq!(r, (KeyboardState::Ready, KeyboardAction::Unpress { keycode: 38 }));
    let r = keyboard_step(KeyboardState::Ready, KeyboardEvent::Key { code: u32::MAX, pressed: true });
    assert_eq!(r, (KeyboardState::Ready, KeyboardAction::Ignore));
    let r = keyboard_step(KeyboardState::Ready, KeyboardEvent::Other);
    assert_eq!(r, (KeyboardState::Ready, KeyboardAction::Ignore));
}
