use plinth::input::{ButtonState, KeyInput, KeyTracker, MouseButton, VirtualKeyCode};

fn key(key: VirtualKeyCode) -> KeyInput {
    KeyInput {
        scancode: 30,
        key,
        modifiers: 0,
    }
}

#[test]
fn held_key_repeats_with_a_growing_count() {
    let mut tracker = KeyTracker::new();
    assert_eq!(tracker.held(), None);
    assert_eq!(tracker.press(key(VirtualKeyCode::A)), Some(ButtonState::Pressed));
    assert_eq!(tracker.held(), Some((key(VirtualKeyCode::A), 0)));
    assert_eq!(
        tracker.press(key(VirtualKeyCode::A)),
        Some(ButtonState::Repeated(1))
    );
    assert_eq!(
        tracker.press(key(VirtualKeyCode::A)),
        Some(ButtonState::Repeated(2))
    );
    // another key while the first is held is not reported
    assert_eq!(tracker.press(key(VirtualKeyCode::B)), None);
    assert_eq!(tracker.held(), Some((key(VirtualKeyCode::A), 2)));
    assert_eq!(tracker.release(), ButtonState::Released);
    assert_eq!(tracker.held(), None);
    assert_eq!(tracker.press(key(VirtualKeyCode::B)), Some(ButtonState::Pressed));
}

#[test]
fn buttons_compare_by_value() {
    assert_eq!(MouseButton::Other(4), MouseButton::Other(4));
    assert_ne!(MouseButton::Left, MouseButton::Right);
    assert_ne!(ButtonState::Repeated(1), ButtonState::Repeated(2));
    assert_ne!(VirtualKeyCode::Key0, VirtualKeyCode::Keypad0);
}
