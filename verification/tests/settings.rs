use std::time::Instant;
use voxeled::input::error::InputError;
use voxeled::input::settings::{key_for_char, key_for_name, str_to_keycode, Action, Key, KeyBindings};
use voxeled::keys::{InputState, State};

#[test]
fn names_stand_for_keys() {
    assert_eq!(key_for_name("w"), Ok(Key::KeyW));
    assert_eq!(key_for_name("q"), Ok(Key::KeyQ));
    assert_eq!(key_for_name("m"), Ok(Key::KeyM));
    assert_eq!(key_for_name("z"), Ok(Key::KeyZ));
    assert_eq!(key_for_name("y"), Ok(Key::KeyY));
    assert_eq!(key_for_name("0"), Ok(Key::Digit0));
    assert_eq!(key_for_name("9"), Ok(Key::Digit9));
    assert_eq!(key_for_name("shift"), Ok(Key::ShiftLeft));
    assert_eq!(key_for_name("rshift"), Ok(Key::ShiftRight));
    assert_eq!(key_for_name("space"), Ok(Key::Space));
    assert_eq!(key_for_name(""), Err(InputError::UnknownKeys));
    assert_eq!(key_for_name("W"), Err(InputError::UnknownKeys));
    assert_eq!(key_for_name("ww"), Err(InputError::UnknownKeys));
    assert_eq!(key_for_name("-"), Err(InputError::UnknownKeys));
    assert_eq!(key_for_name("shif"), Err(InputError::UnknownKeys));
    assert_eq!(key_for_name("shiftt"), Err(InputError::UnknownKeys));
    assert_eq!(key_for_name("spade"), Err(InputError::UnknownKeys));
    assert_eq!(key_for_name("escape"), Err(InputError::UnknownKeys));
    assert_eq!(key_for_name("ö"), Err(InputError::UnknownKeys));
}

#[test]
fn every_letter_and_digit_names_its_own_key() {
    let mut seen = std::collections::HashSet::new();
    for c in ('a'..='z').chain('0'..='9') {
        let key = key_for_char(c).unwrap();
        assert!(seen.insert(key));
        assert_eq!(key_for_name(&c.to_string()), Ok(key));
    }
    assert_eq!(seen.len(), 36);
    assert_eq!(key_for_char('A'), None);
    assert_eq!(key_for_char(' '), None);
    assert_eq!(key_for_char('e'), Some(Key::KeyE));
    assert_eq!(key_for_char('5'), Some(Key::Digit5));
}

#[test]
fn names_are_read_in_any_case() {
    assert_eq!(str_to_keycode("W"), Ok(Key::KeyW));
    assert_eq!(str_to_keycode("w"), Ok(Key::KeyW));
    assert_eq!(str_to_keycode("Space"), Ok(Key::Space));
    assert_eq!(str_to_keycode("SHIFT"), Ok(Key::ShiftLeft));
    assert_eq!(str_to_keycode("RShift"), Ok(Key::ShiftRight));
    assert_eq!(str_to_keycode("\u{212A}"), Ok(Key::KeyK));
    assert_eq!(str_to_keycode("Enter"), Err(InputError::UnknownKeys));
    assert_eq!(str_to_keycode(""), Err(InputError::UnknownKeys));
}

#[test]
fn missing_names_fall_back_to_the_standard_keys() {
    assert_eq!(
        KeyBindings::from_names(None, None, None, None, None, None),
        Ok(KeyBindings::standard())
    );
    let standard = KeyBindings::standard();
    assert_eq!(standard.forward, Key::KeyW);
    assert_eq!(standard.backwards, Key::KeyS);
    assert_eq!(standard.left, Key::KeyA);
    assert_eq!(standard.right, Key::KeyD);
    assert_eq!(standard.up, Key::Space);
    assert_eq!(standard.down, Key::ShiftLeft);
    let arrows = KeyBindings::from_names(Some("I"), Some("k"), Some("j"), Some("l"), None, Some("rshift"));
    assert_eq!(
        arrows,
        Ok(KeyBindings {
            forward: Key::KeyI,
            backwards: Key::KeyK,
            left: Key::KeyJ,
            right: Key::KeyL,
            up: Key::Space,
            down: Key::ShiftRight,
        })
    );
    assert_eq!(
        KeyBindings::from_names(None, None, Some("left"), None, None, None),
        Err(InputError::UnknownKeys)
    );
    assert_eq!(
        KeyBindings::from_names(None, None, None, None, None, Some("")),
        Err(InputError::UnknownKeys)
    );
}

#[test]
fn bound_keys_have_actions() {
    let standard = KeyBindings::standard();
    assert_eq!(standard.action_of(Key::KeyW), Some(Action::Forward));
    assert_eq!(standard.action_of(Key::KeyS), Some(Action::Backwards));
    assert_eq!(standard.action_of(Key::KeyA), Some(Action::Left));
    assert_eq!(standard.action_of(Key::KeyD), Some(Action::Right));
    assert_eq!(standard.action_of(Key::Space), Some(Action::Up));
    assert_eq!(standard.action_of(Key::ShiftLeft), Some(Action::Down));
    assert_eq!(standard.action_of(Key::ShiftRight), None);
    assert_eq!(standard.action_of(Key::Escape), None);
    let doubled = KeyBindings { backwards: Key::KeyW, ..standard };
    assert_eq!(doubled.action_of(Key::KeyW), Some(Action::Forward));
    assert_eq!(doubled.action_of(Key::KeyS), None);
}

#[test]
fn key_state_follows_events_and_frames() {
    let start = Instant::now();
    let mut key = State { state: InputState::NotPressed, since: start };
    assert!(!key.handle(false));
    assert_eq!(key.state, InputState::NotPressed);
    assert_eq!(key.since, start);
    assert!(key.handle(true));
    assert_eq!(key.state, InputState::JustPressed);
    assert!(!key.handle(false));
    assert_eq!(key.state, InputState::JustPressed);
    let pressed_at = key.since;
    key.update();
    assert_eq!(key.state, InputState::Pressed);
    assert_eq!(key.since, pressed_at);
    key.update();
    assert_eq!(key.state, InputState::Pressed);
    assert!(!key.handle(true));
    assert!(key.handle(false));
    assert_eq!(key.state, InputState::JustReleased);
    assert!(!key.handle(true));
    key.update();
    assert_eq!(key.state, InputState::NotPressed);
}
