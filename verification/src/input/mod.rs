use vstd::prelude::*;
use std::ops::Range;
use std::time::{Duration, Instant};
use crate::time::{in_span, in_state_for, time_if};

pub mod error;
pub mod settings;

verus! {

/// The state of a key in one frame.
#[derive(PartialEq, Eq, Clone, Copy, Debug, Structural)]
pub enum FrameState {
    Pressed,
    JustPressed,
    NotPressed,
    JustReleased,
}

impl FrameState {
    /// The key is down: it is pressed, or was pressed in this frame.
    pub open spec fn is_down(self) -> bool {
        self == FrameState::Pressed || self == FrameState::JustPressed
    }

    /// The key is up: it is not pressed, or was released in this frame.
    pub open spec fn is_up(self) -> bool {
        !self.is_down()
    }

    /// Whether the key is down.
    pub fn down(self) -> (r: bool)
        ensures
            r == self.is_down(),
    {
        match self {
            FrameState::Pressed | FrameState::JustPressed => true,
            FrameState::NotPressed | FrameState::JustReleased => false,
        }
    }
}

impl From<FrameState> for bool {
    fn from(state: FrameState) -> (down: bool) {
        state.down()
    }
}

impl vstd::std_specs::convert::FromSpecImpl<FrameState> for bool {
    open spec fn obeys_from_spec() -> bool {
        true
    }

    open spec fn from_spec(state: FrameState) -> bool {
        state.is_down()
    }
}

/// A key's state in this frame together with the moment of its last change.
pub struct InputState {
    pub frame_state: FrameState,
    pub timestamp: Instant,
}

impl InputState {
    /// Whether the key went down in this frame.
    pub fn just_pressed(&self) -> (r: bool)
        ensures
            r == (self.frame_state == FrameState::JustPressed),
    {
        self.frame_state == FrameState::JustPressed
    }

    /// Whether the key is down.
    pub fn pressed(&self) -> (r: bool)
        ensures
            r == self.frame_state.is_down(),
    {
        self.frame_state.down()
    }

    /// Whether the key was released in this frame.
    pub fn just_released(&self) -> (r: bool)
        ensures
            r == (self.frame_state == FrameState::JustReleased),
    {
        self.frame_state == FrameState::JustReleased
    }

    /// The nanoseconds for which the key has been down, if it is down.
    pub fn time_pressed(&self) -> (r: Option<u128>)
        ensures
            r.is_some() == self.frame_state.is_down(),
    {
        if self.frame_state.down() {
            time_if(true, self.timestamp.elapsed().as_nanos())
        } else {
            None
        }
    }

    /// The nanoseconds for which the key has been up, if it is up.
    pub fn time_released(&self) -> (r: Option<u128>)
        ensures
            r.is_some() == !self.frame_state.is_down(),
    {
        if !self.frame_state.down() {
            time_if(true, self.timestamp.elapsed().as_nanos())
        } else {
            None
        }
    }

    /// Whether the key is down and has been for a time within the span, both
    /// ends included.
    pub fn pressed_for(&self, time: Range<u128>) -> (r: bool)
        ensures
            r ==> self.frame_state.is_down(),
            r ==> time.start <= time.end,
            exists|measured: u128| r == #[trigger] in_state_for(self.frame_state.is_down(), time, measured),
    {
        let mut measured: u128 = 0;
        let mut r = false;
        if self.frame_state.down() {
            measured = self.timestamp.elapsed().as_nanos();
            r = in_span(&time, measured);
        }
        assert(r == in_state_for(self.frame_state.is_down(), time, measured));
        r
    }

    /// Whether the key is up and has been for a time within the span, both
    /// ends included.
    pub fn released_for(&self, time: Range<u128>) -> (r: bool)
        ensures
            r ==> !self.frame_state.is_down(),
            r ==> time.start <= time.end,
            exists|measured: u128| r == #[trigger] in_state_for(self.frame_state.is_up(), time, measured),
    {
        let mut measured: u128 = 0;
        let mut r = false;
        if !self.frame_state.down() {
            measured = self.timestamp.elapsed().as_nanos();
            r = in_span(&time, measured);
        }
        assert(r == in_state_for(self.frame_state.is_up(), time, measured));
        r
    }
}

/// How long a key has been held since it was last asked: nothing yet, held
/// since an instant, held for a duration that has ended, or both.
#[derive(Clone, Copy, Debug)]
pub enum DownTime {
    Nothing,
    Instant(Instant),
    Duration(Duration),
    DurationAndInstant { duration: Duration, instant: Instant },
}

impl Default for DownTime {
    fn default() -> (r: Self)
        ensures
            r == DownTime::Nothing,
    {
        DownTime::Nothing
    }
}

impl DownTime {
    /// The key is being held.
    pub open spec fn running(self) -> bool {
        self is Instant || self is DurationAndInstant
    }

    /// The key is held from now on. A key that is held already stays as it
    /// is; a duration collected before is kept.
    pub fn press(&mut self)
        ensures
            final(self).running(),
            old(self).running() ==> *final(self) == *old(self),
            *old(self) == DownTime::Nothing ==> (*final(self)) is Instant,
            (*old(self)) is Duration ==> (*final(self)) is DurationAndInstant,
            (*old(self)) is Duration ==> (*final(self))->duration == (*old(self))->Duration_0,
    {
        match *self {
            DownTime::Nothing => {
                *self = DownTime::Instant(Instant::now());
            },
            DownTime::Instant(_) => {},
            DownTime::Duration(duration) => {
                *self = DownTime::DurationAndInstant { duration, instant: Instant::now() };
            },
            DownTime::DurationAndInstant { .. } => {},
        }
    }

    /// The key is held no longer. The time for which it was held is added to
    /// what was collected before; a key that was not held stays as it is.
    pub fn release(&mut self)
        ensures
            !final(self).running(),
            !old(self).running() ==> *final(self) == *old(self),
            old(self).running() ==> (*final(self)) is Duration,
    {
        match *self {
            DownTime::Nothing => {},
            DownTime::Instant(instant) => {
                *self = DownTime::Duration(instant.elapsed());
            },
            DownTime::Duration(_) => {},
            DownTime::DurationAndInstant { duration, instant } => {
                *self = DownTime::Duration(duration.saturating_add(instant.elapsed()));
            },
        }
    }

    /// Hands out the time collected since the last call, if any, and starts
    /// collecting anew: a key that is held stays held from now on, one that
    /// is not has nothing left.
    pub fn take(&mut self) -> (collected: Option<Duration>)
        ensures
            collected.is_some() == (*old(self) != DownTime::Nothing),
            old(self).running() ==> (*final(self)) is Instant,
            !old(self).running() ==> *final(self) == DownTime::Nothing,
            (*old(self)) is Duration ==> collected == Some((*old(self))->Duration_0),
    {
        match *self {
            DownTime::Nothing => None,
            DownTime::Instant(instant) => {
                let elapsed = instant.elapsed();
                *self = DownTime::Instant(Instant::now());
                Some(elapsed)
            },
            DownTime::Duration(duration) => {
                *self = DownTime::Nothing;
                Some(duration)
            },
            DownTime::DurationAndInstant { duration, instant } => {
                let total = duration.saturating_add(instant.elapsed());
                *self = DownTime::Instant(Instant::now());
                Some(total)
            },
        }
    }
}

} // verus!
