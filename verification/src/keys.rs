use vstd::prelude::*;
use std::ops::Range;
use std::time::Instant;
use crate::time::{in_span, in_state_for, time_if};

verus! {

/// The state of a key in one frame.
#[derive(PartialEq, Eq, Clone, Copy, Debug, Structural)]
pub enum InputState {
    Pressed,
    JustPressed,
    NotPressed,
    JustReleased,
}

impl InputState {
    /// The key is down: it is pressed, or was pressed in this frame.
    pub open spec fn is_down(self) -> bool {
        self == InputState::Pressed || self == InputState::JustPressed
    }

    /// The key is up: it is not pressed, or was released in this frame.
    pub open spec fn is_up(self) -> bool {
        !self.is_down()
    }

    /// Whether the key is down.
    pub fn down(self) -> (r: bool)
        ensures
            r == self.is_down(),
    {
        match self {
            InputState::Pressed | InputState::JustPressed => true,
            InputState::NotPressed | InputState::JustReleased => false,
        }
    }

    /// Position of the state in the order `Pressed`, `JustPressed`,
    /// `NotPressed`, `JustReleased`.
    pub open spec fn rank(self) -> int {
        match self {
            InputState::Pressed => 0,
            InputState::JustPressed => 1,
            InputState::NotPressed => 2,
            InputState::JustReleased => 3,
        }
    }

    /// Difference of the positions of two states.
    pub fn difference(self, other: InputState) -> (r: i32)
        ensures
            r == self.rank() - other.rank(),
    {
        let a: i32 = match self {
            InputState::Pressed => 0,
            InputState::JustPressed => 1,
            InputState::NotPressed => 2,
            InputState::JustReleased => 3,
        };
        let b: i32 = match other {
            InputState::Pressed => 0,
            InputState::JustPressed => 1,
            InputState::NotPressed => 2,
            InputState::JustReleased => 3,
        };
        a - b
    }
}

impl From<InputState> for bool {
    fn from(state: InputState) -> (down: bool) {
        state.down()
    }
}

impl vstd::std_specs::convert::FromSpecImpl<InputState> for bool {
    open spec fn obeys_from_spec() -> bool {
        true
    }

    open spec fn from_spec(state: InputState) -> bool {
        state.is_down()
    }
}

/// A key's state together with the moment of its last change.
pub struct State {
    pub state: InputState,
    pub since: Instant,
}

impl State {
    /// Whether the key went down in this frame.
    pub fn just_pressed(&self) -> (r: bool)
        ensures
            r == (self.state == InputState::JustPressed),
    {
        self.state == InputState::JustPressed
    }

    /// Whether the key was released in this frame.
    pub fn just_released(&self) -> (r: bool)
        ensures
            r == (self.state == InputState::JustReleased),
    {
        self.state == InputState::JustReleased
    }

    /// Whether the key is down.
    pub fn pressed(&self) -> (r: bool)
        ensures
            r == self.state.is_down(),
    {
        self.state.down()
    }

    /// The nanoseconds for which the key has been down, if it is down.
    pub fn time_pressed(&self) -> (r: Option<u128>)
        ensures
            r.is_some() == self.state.is_down(),
    {
        if self.state.down() {
            time_if(true, self.since.elapsed().as_nanos())
        } else {
            None
        }
    }

    /// The nanoseconds for which the key has been up, if it is up.
    pub fn time_released(&self) -> (r: Option<u128>)
        ensures
            r.is_some() == !self.state.is_down(),
    {
        if !self.state.down() {
            time_if(true, self.since.elapsed().as_nanos())
        } else {
            None
        }
    }

    /// Whether the key is down and has been for a time within the span, both
    /// ends included.
    pub fn pressed_for(&self, time: Range<u128>) -> (r: bool)
        ensures
            r ==> self.state.is_down(),
            r ==> time.start <= time.end,
            exists|measured: u128| r == #[trigger] in_state_for(self.state.is_down(), time, measured),
    {
        let mut measured: u128 = 0;
        let mut r = false;
        if self.state.down() {
            measured = self.since.elapsed().as_nanos();
            r = in_span(&time, measured);
        }
        assert(r == in_state_for(self.state.is_down(), time, measured));
        r
    }

    /// Whether the key is up and has been for a time within the span, both
    /// ends included.
    pub fn released_for(&self, time: Range<u128>) -> (r: bool)
        ensures
            r ==> !self.state.is_down(),
            r ==> time.start <= time.end,
            exists|measured: u128| r == #[trigger] in_state_for(self.state.is_up(), time, measured),
    {
        let mut measured: u128 = 0;
        let mut r = false;
        if !self.state.down() {
            measured = self.since.elapsed().as_nanos();
            r = in_span(&time, measured);
        }
        assert(r == in_state_for(self.state.is_up(), time, measured));
        r
    }
}

impl InputState {
    /// The state in the frame after: an edge becomes the state that it led
    /// to.
    pub open spec fn settled(self) -> InputState {
        match self {
            InputState::JustPressed => InputState::Pressed,
            InputState::JustReleased => InputState::NotPressed,
            other => other,
        }
    }
}

impl State {
    /// Takes in an event of the key: a release of a pressed key makes it
    /// just released, a press of a key that is not pressed makes it just
    /// pressed, both from now on. Any other event leaves the state as it is.
    pub fn handle(&mut self, pressed: bool) -> (changed: bool)
        ensures
            changed == ((old(self).state == InputState::Pressed && !pressed) || (old(self).state
                == InputState::NotPressed && pressed)),
            final(self).state == if old(self).state == InputState::Pressed && !pressed {
                InputState::JustReleased
            } else if old(self).state == InputState::NotPressed && pressed {
                InputState::JustPressed
            } else {
                old(self).state
            },
            !changed ==> final(self).since == old(self).since,
    {
        match self.state {
            InputState::Pressed => {
                if !pressed {
                    self.state = InputState::JustReleased;
                    self.since = Instant::now();
                    true
                } else {
                    false
                }
            },
            InputState::NotPressed => {
                if pressed {
                    self.state = InputState::JustPressed;
                    self.since = Instant::now();
                    true
                } else {
                    false
                }
            },
            _ => false,
        }
    }

    /// Ends the frame: a key that was just pressed is pressed from now on,
    /// one that was just released is not pressed.
    pub fn update(&mut self)
        ensures
            final(self).state == old(self).state.settled(),
            final(self).since == old(self).since,
    {
        match self.state {
            InputState::JustPressed => {
                self.state = InputState::Pressed;
            },
            InputState::JustReleased => {
                self.state = InputState::NotPressed;
            },
            _ => {},
        }
    }
}

/// What the event filter remembers of one key: whether it was down when
/// the last frame was read, whether it is down now, and the moment of its
/// last change.
pub struct KeyEventState {
    pub pressed_in_the_last_frame: bool,
    pub pressed_in_this_frame: bool,
    pub last_change: Instant,
}

impl KeyEventState {
    /// The state of a key that has not been touched.
    pub fn new(now: Instant) -> (r: Self)
        ensures
            !r.pressed_in_the_last_frame,
            !r.pressed_in_this_frame,
            r.last_change == now,
    {
        KeyEventState { pressed_in_the_last_frame: false, pressed_in_this_frame: false, last_change: now }
    }

    /// Whether an event of the key counts as a change: a release of a key
    /// that is down, a press of a key that is up, and a release of a key
    /// that is up but was down when the last frame was read.
    pub open spec fn changes(self, pressed: bool) -> bool {
        if self.pressed_in_this_frame {
            !pressed
        } else {
            pressed || self.pressed_in_the_last_frame
        }
    }

    /// Takes in an event of the key: a press or a release. The key is down
    /// afterwards exactly if it was pressed, and an event that counts as a
    /// change stamps the moment.
    pub fn on_event(&mut self, pressed: bool) -> (changed: bool)
        ensures
            changed == old(self).changes(pressed),
            final(self).pressed_in_this_frame == pressed,
            final(self).pressed_in_the_last_frame == old(self).pressed_in_the_last_frame,
            !changed ==> final(self).last_change == old(self).last_change,
    {
        if self.pressed_in_this_frame {
            if !pressed {
                self.pressed_in_this_frame = false;
                self.last_change = Instant::now();
                true
            } else {
                false
            }
        } else if pressed {
            self.pressed_in_this_frame = true;
            self.last_change = Instant::now();
            true
        } else if self.pressed_in_the_last_frame {
            self.last_change = Instant::now();
            true
        } else {
            false
        }
    }

    /// The key is let go without an event, as when the window loses the
    /// focus.
    pub fn let_go(&mut self)
        ensures
            !final(self).pressed_in_this_frame,
            final(self).pressed_in_the_last_frame == old(self).pressed_in_the_last_frame,
            final(self).last_change == old(self).last_change,
    {
        self.pressed_in_this_frame = false;
    }

    /// The state of a key for a frame, from whether it was down when the
    /// last frame was read and whether it is down now.
    pub open spec fn frame_state(last: bool, this: bool) -> InputState {
        if last {
            if this {
                InputState::Pressed
            } else {
                InputState::JustReleased
            }
        } else {
            if this {
                InputState::JustPressed
            } else {
                InputState::NotPressed
            }
        }
    }

    /// Reads the key for a frame: its state, since the moment of its last
    /// change. The key then counts as read: whether it is down now is what
    /// the next frame compares with.
    pub fn read(&mut self) -> (state: State)
        ensures
            state.state == KeyEventState::frame_state(
                old(self).pressed_in_the_last_frame,
                old(self).pressed_in_this_frame,
            ),
            state.since == old(self).last_change,
            final(self).pressed_in_the_last_frame == old(self).pressed_in_this_frame,
            final(self).pressed_in_this_frame == old(self).pressed_in_this_frame,
            final(self).last_change == old(self).last_change,
    {
        let state = if self.pressed_in_the_last_frame {
            if self.pressed_in_this_frame {
                InputState::Pressed
            } else {
                InputState::JustReleased
            }
        } else {
            if self.pressed_in_this_frame {
                InputState::JustPressed
            } else {
                InputState::NotPressed
            }
        };
        self.pressed_in_the_last_frame = self.pressed_in_this_frame;
        State { state, since: self.last_change }
    }
}

/// A key reads as just pressed or just released in one frame only: read
/// again without an event in between, it reads as pressed or not pressed.
pub proof fn lemma_edges_last_one_frame(last: bool, this: bool)
    ensures
        KeyEventState::frame_state(this, this) == if this {
            InputState::Pressed
        } else {
            InputState::NotPressed
        },
        KeyEventState::frame_state(last, this) == InputState::JustPressed <==> !last && this,
        KeyEventState::frame_state(last, this) == InputState::JustReleased <==> last && !this,
{
}

} // verus!
