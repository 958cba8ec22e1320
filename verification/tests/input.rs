use std::time::{Duration, Instant};
use voxeled::input::error::{InputError, IoCause, JsonCategory};
use voxeled::input::{DownTime, FrameState, InputState as KeyReading};
use voxeled::keys::{InputState, KeyEventState, State};
use voxeled::time::{in_span, time_if};

fn long_ago() -> Instant {
    Instant::now() - Duration::from_millis(50)
}

#[test]
fn frame_states_tell_down_from_up() {
    assert!(FrameState::Pressed.down());
    assert!(FrameState::JustPressed.down());
    assert!(!FrameState::NotPressed.down());
    assert!(!FrameState::JustReleased.down());
    assert!(InputState::Pressed.down());
    assert!(InputState::JustPressed.down());
    assert!(!InputState::NotPressed.down());
    assert!(!InputState::JustReleased.down());
    assert!(bool::from(FrameState::Pressed));
    assert!(bool::from(FrameState::JustPressed));
    assert!(!bool::from(FrameState::NotPressed));
    assert!(!bool::from(FrameState::JustReleased));
    assert!(bool::from(InputState::JustPressed));
    assert!(!bool::from(InputState::JustReleased));
    let down: bool = InputState::Pressed.into();
    assert!(down);
    assert_eq!(InputState::JustReleased.difference(InputState::Pressed), 3);
    assert_eq!(InputState::Pressed.difference(InputState::NotPressed), -2);
    assert_eq!(InputState::JustPressed.difference(InputState::JustPressed), 0);
}

#[test]
fn state_of_a_key_that_is_held() {
    let state = State { state: InputState::Pressed, since: long_ago() };
    assert!(state.pressed());
    assert!(!state.just_pressed());
    assert!(!state.just_released());
    let held = state.time_pressed().unwrap();
    assert!(held >= 50_000_000);
    assert_eq!(state.time_released(), None);
    assert!(state.pressed_for(0..u128::MAX));
    assert!(state.pressed_for(50_000_000..u128::MAX));
    assert!(!state.pressed_for(0..1000));
    assert!(!state.pressed_for(u128::MAX..0));
    assert!(!state.released_for(0..u128::MAX));
}

#[test]
fn state_of_a_key_that_was_just_released() {
    let state = State { state: InputState::JustReleased, since: long_ago() };
    assert!(!state.pressed());
    assert!(state.just_released());
    assert!(!state.just_pressed());
    assert_eq!(state.time_pressed(), None);
    assert!(state.time_released().unwrap() >= 50_000_000);
    assert!(state.released_for(0..u128::MAX));
    assert!(!state.released_for(0..1000));
    assert!(!state.pressed_for(0..u128::MAX));
    let fresh = State { state: InputState::JustPressed, since: Instant::now() };
    assert!(fresh.just_pressed());
    assert!(fresh.pressed());
    assert!(fresh.time_pressed().unwrap() < 10_000_000_000);
}

#[test]
fn reading_of_a_key_in_a_frame() {
    let held = KeyReading { frame_state: FrameState::JustPressed, timestamp: long_ago() };
    assert!(held.just_pressed());
    assert!(held.pressed());
    assert!(!held.just_released());
    assert!(held.time_pressed().unwrap() >= 50_000_000);
    assert_eq!(held.time_released(), None);
    assert!(held.pressed_for(1..u128::MAX));
    assert!(!held.pressed_for(0..5));
    assert!(!held.released_for(0..u128::MAX));
    let up = KeyReading { frame_state: FrameState::NotPressed, timestamp: long_ago() };
    assert!(!up.pressed());
    assert!(!up.just_pressed());
    assert!(!up.just_released());
    assert_eq!(up.time_pressed(), None);
    assert!(up.time_released().unwrap() >= 50_000_000);
    assert!(up.released_for(0..u128::MAX));
    assert!(!up.pressed_for(0..u128::MAX));
    let let_go = KeyReading { frame_state: FrameState::JustReleased, timestamp: Instant::now() };
    assert!(let_go.just_released());
}

#[test]
fn spans_include_both_ends() {
    assert!(in_span(&(3..7), 3));
    assert!(in_span(&(3..7), 7));
    assert!(!in_span(&(3..7), 8));
    assert!(!in_span(&(3..7), 2));
    assert!(in_span(&(5..5), 5));
    assert!(!in_span(&(7..3), 5));
    assert_eq!(time_if(true, 9), Some(9));
    assert_eq!(time_if(false, 9), None);
}

#[test]
fn down_time_collects_while_the_key_is_held() {
    let mut time = DownTime::default();
    assert!(matches!(time, DownTime::Nothing));
    assert!(time.take().is_none());
    time.release();
    assert!(matches!(time, DownTime::Nothing));
    time.press();
    assert!(matches!(time, DownTime::Instant(_)));
    let started = match time {
        DownTime::Instant(instant) => instant,
        _ => unreachable!(),
    };
    time.press();
    assert!(matches!(time, DownTime::Instant(instant) if instant == started));
    time.release();
    let first = match time {
        DownTime::Duration(duration) => duration,
        _ => panic!("a released key holds a duration"),
    };
    time.release();
    assert!(matches!(time, DownTime::Duration(duration) if duration == first));
    time.press();
    assert!(matches!(time, DownTime::DurationAndInstant { duration, .. } if duration == first));
    time.press();
    assert!(matches!(time, DownTime::DurationAndInstant { duration, .. } if duration == first));
    time.release();
    let second = match time {
        DownTime::Duration(duration) => duration,
        _ => panic!("a released key holds a duration"),
    };
    assert!(second >= first);
    assert_eq!(time.take(), Some(second));
    assert!(matches!(time, DownTime::Nothing));
}

#[test]
fn taking_the_down_time_of_a_held_key_keeps_it_held() {
    let mut time = DownTime::Instant(long_ago());
    let collected = time.take().unwrap();
    assert!(collected >= Duration::from_millis(50));
    assert!(matches!(time, DownTime::Instant(_)));
    let mut both = DownTime::DurationAndInstant { duration: Duration::from_secs(2), instant: long_ago() };
    let collected = both.take().unwrap();
    assert!(collected >= Duration::from_millis(2050));
    assert!(matches!(both, DownTime::Instant(_)));
    let mut endless = DownTime::DurationAndInstant { duration: Duration::MAX, instant: long_ago() };
    endless.release();
    assert!(matches!(endless, DownTime::Duration(duration) if duration == Duration::MAX));
    let mut done = DownTime::Duration(Duration::from_secs(3));
    assert_eq!(done.take(), Some(Duration::from_secs(3)));
    assert!(matches!(done, DownTime::Nothing));
}

#[test]
fn key_events_become_frame_states() {
    let start = Instant::now();
    let mut key = KeyEventState::new(start);
    assert!(!key.pressed_in_this_frame && !key.pressed_in_the_last_frame);
    assert_eq!(key.read().state, InputState::NotPressed);
    assert!(!key.on_event(false));
    assert_eq!(key.last_change, start);
    assert!(key.on_event(true));
    assert!(key.last_change >= start);
    assert!(!key.on_event(true));
    let pressed = key.read();
    assert_eq!(pressed.state, InputState::JustPressed);
    assert_eq!(pressed.since, key.last_change);
    assert_eq!(key.read().state, InputState::Pressed);
    assert_eq!(key.read().state, InputState::Pressed);
    assert!(key.on_event(false));
    assert_eq!(key.read().state, InputState::JustReleased);
    assert_eq!(key.read().state, InputState::NotPressed);
    assert!(key.on_event(true));
    assert!(key.on_event(false));
    assert_eq!(key.read().state, InputState::NotPressed);
    assert!(key.on_event(true));
    assert_eq!(key.read().state, InputState::JustPressed);
    let stamp = key.last_change;
    key.let_go();
    assert_eq!(key.last_change, stamp);
    assert_eq!(key.read().state, InputState::JustReleased);
}

#[test]
fn release_after_a_short_press_counts_as_a_change() {
    let mut key = KeyEventState::new(Instant::now());
    assert!(key.on_event(true));
    assert_eq!(key.read().state, InputState::JustPressed);
    key.let_go();
    assert!(key.on_event(false));
    assert_eq!(key.read().state, InputState::JustReleased);
    assert!(!key.on_event(false));
}

#[test]
fn json_errors_by_category() {
    assert_eq!(InputError::from_json_category(JsonCategory::Syntax), InputError::JSONSyntaxError);
    assert_eq!(InputError::from_json_category(JsonCategory::Eof), InputError::JSONSyntaxError);
    assert_eq!(InputError::from_json_category(JsonCategory::Data), InputError::JSONSemanticsError);
    assert_eq!(InputError::from_json_category(JsonCategory::Io), InputError::JSONIOError);
    let syntax = serde_json::from_str::<serde_json::Value>("[1,]").unwrap_err();
    assert_eq!(InputError::from_json(&syntax), InputError::JSONSyntaxError);
    let eof = serde_json::from_str::<serde_json::Value>("{\"w\":").unwrap_err();
    assert_eq!(InputError::from_json(&eof), InputError::JSONSyntaxError);
    let data = serde_json::from_str::<u32>("\"w\"").unwrap_err();
    assert_eq!(InputError::from_json(&data), InputError::JSONSemanticsError);
    let io = serde_json::from_reader::<_, serde_json::Value>(Broken).unwrap_err();
    assert_eq!(InputError::from_json(&io), InputError::JSONIOError);
}

struct Broken;

impl std::io::Read for Broken {
    fn read(&mut self, _buffer: &mut [u8]) -> std::io::Result<usize> {
        Err(std::io::Error::new(std::io::ErrorKind::BrokenPipe, "broken"))
    }
}

#[test]
fn io_errors_by_kind() {
    assert_eq!(InputError::from_io_cause(IoCause::NotFound), InputError::FileNotFound);
    assert_eq!(InputError::from_io_cause(IoCause::PermissionDenied), InputError::PermissionError);
    assert_eq!(InputError::from_io_cause(IoCause::Other), InputError::UnknownError);
    let missing = std::io::Error::new(std::io::ErrorKind::NotFound, "no file");
    assert_eq!(InputError::from_io(&missing), InputError::FileNotFound);
    let denied = std::io::Error::new(std::io::ErrorKind::PermissionDenied, "no");
    assert_eq!(InputError::from_io(&denied), InputError::PermissionError);
    let other = std::io::Error::new(std::io::ErrorKind::TimedOut, "late");
    assert_eq!(InputError::from_io(&other), InputError::UnknownError);
}

#[test]
fn every_error_has_a_message() {
    assert_eq!(
        InputError::FileNotFound.message(),
        "the settings file was not found in the current directory"
    );
    assert_eq!(
        InputError::JSONSyntaxError.message(),
        "the settings file didn't contain valid JSON syntax"
    );
    for error in [
        InputError::FileNotFound,
        InputError::PermissionError,
        InputError::UnknownError,
        InputError::JSONSyntaxError,
        InputError::JSONSemanticsError,
        InputError::JSONIOError,
        InputError::UnknownKeys,
    ] {
        assert!(!error.message().is_empty());
    }
}

#[test]
fn span_of_all_times_holds_exactly_in_the_asked_state() {
    for state in [
        InputState::Pressed,
        InputState::JustPressed,
        InputState::NotPressed,
        InputState::JustReleased,
    ] {
        let key = State { state, since: Instant::now() };
        assert_eq!(key.pressed_for(0..u128::MAX), state.down());
        assert_eq!(key.released_for(0..u128::MAX), !state.down());
        assert!(!key.pressed_for(9..3));
        assert!(!key.released_for(9..3));
    }
    for frame_state in [
        FrameState::Pressed,
        FrameState::JustPressed,
        FrameState::NotPressed,
        FrameState::JustReleased,
    ] {
        let key = KeyReading { frame_state, timestamp: Instant::now() };
        assert_eq!(key.pressed_for(0..u128::MAX), frame_state.down());
        assert_eq!(key.released_for(0..u128::MAX), !frame_state.down());
        assert!(!key.pressed_for(9..3));
        assert!(!key.released_for(9..3));
    }
}
