use vstd::prelude::*;
use vstd::string::StrSliceExecFns;
use crate::input::error::{InputError, InputResult};

verus! {

/// The keys that can be bound.
#[derive(Debug, Clone, Copy, PartialEq, Eq, Hash, Structural)]
pub enum Key {
    KeyQ,
    KeyW,
    KeyE,
    KeyR,
    KeyT,
    KeyZ,
    KeyU,
    KeyI,
    KeyO,
    KeyP,
    KeyA,
    KeyS,
    KeyD,
    KeyF,
    KeyG,
    KeyH,
    KeyJ,
    KeyK,
    KeyL,
    KeyY,
    KeyX,
    KeyC,
    KeyV,
    KeyB,
    KeyN,
    KeyM,
    Digit0,
    Digit1,
    Digit2,
    Digit3,
    Digit4,
    Digit5,
    Digit6,
    Digit7,
    Digit8,
    Digit9,
    ShiftLeft,
    ShiftRight,
    Space,
    Escape,
}

/// What a bound key does.
#[derive(Debug, Clone, Copy, PartialEq, Eq, Structural)]
pub enum Action {
    Forward,
    Backwards,
    Left,
    Right,
    Up,
    Down,
}

/// The lower-case form of a text, as the standard library maps it.
pub uninterp spec fn lowercase_of(text: Seq<char>) -> Seq<char>;

/// The lower-case form of a text.
///
/// Calls `str::to_lowercase`, which maps each character by the Unicode
/// tables. The contract only names the result: it is the same for the same
/// text wherever the program runs.
#[verifier::external_body]
fn lowercase(text: &str) -> (lowered: String)
    ensures
        lowered@ == lowercase_of(text@),
{
    text.to_lowercase()
}

/// The key that a single character names.
pub open spec fn key_of_char(c: char) -> Option<Key> {
    if c == 'q' {
        Some(Key::KeyQ)
    } else if c == 'w' {
        Some(Key::KeyW)
    } else if c == 'e' {
        Some(Key::KeyE)
    } else if c == 'r' {
        Some(Key::KeyR)
    } else if c == 't' {
        Some(Key::KeyT)
    } else if c == 'z' {
        Some(Key::KeyZ)
    } else if c == 'u' {
        Some(Key::KeyU)
    } else if c == 'i' {
        Some(Key::KeyI)
    } else if c == 'o' {
        Some(Key::KeyO)
    } else if c == 'p' {
        Some(Key::KeyP)
    } else if c == 'a' {
        Some(Key::KeyA)
    } else if c == 's' {
        Some(Key::KeyS)
    } else if c == 'd' {
        Some(Key::KeyD)
    } else if c == 'f' {
        Some(Key::KeyF)
    } else if c == 'g' {
        Some(Key::KeyG)
    } else if c == 'h' {
        Some(Key::KeyH)
    } else if c == 'j' {
        Some(Key::KeyJ)
    } else if c == 'k' {
        Some(Key::KeyK)
    } else if c == 'l' {
        Some(Key::KeyL)
    } else if c == 'y' {
        Some(Key::KeyY)
    } else if c == 'x' {
        Some(Key::KeyX)
    } else if c == 'c' {
        Some(Key::KeyC)
    } else if c == 'v' {
        Some(Key::KeyV)
    } else if c == 'b' {
        Some(Key::KeyB)
    } else if c == 'n' {
        Some(Key::KeyN)
    } else if c == 'm' {
        Some(Key::KeyM)
    } else if c == '0' {
        Some(Key::Digit0)
    } else if c == '1' {
        Some(Key::Digit1)
    } else if c == '2' {
        Some(Key::Digit2)
    } else if c == '3' {
        Some(Key::Digit3)
    } else if c == '4' {
        Some(Key::Digit4)
    } else if c == '5' {
        Some(Key::Digit5)
    } else if c == '6' {
        Some(Key::Digit6)
    } else if c == '7' {
        Some(Key::Digit7)
    } else if c == '8' {
        Some(Key::Digit8)
    } else if c == '9' {
        Some(Key::Digit9)
    } else {
        None
    }
}

/// The key that a name in lower case stands for: a letter or a digit for
/// itself, and `shift`, `rshift` and `space` for those keys.
pub open spec fn key_named(name: Seq<char>) -> Option<Key> {
    if name.len() == 1 {
        key_of_char(name[0])
    } else if name == "shift"@ {
        Some(Key::ShiftLeft)
    } else if name == "rshift"@ {
        Some(Key::ShiftRight)
    } else if name == "space"@ {
        Some(Key::Space)
    } else {
        None
    }
}

/// The result for a name: its key, or the error for names that no key has.
pub open spec fn named_or_unknown(name: Seq<char>) -> InputResult<Key> {
    match key_named(name) {
        Some(key) => Ok(key),
        None => Err(InputError::UnknownKeys),
    }
}

/// The key that a single character names.
pub fn key_for_char(c: char) -> (r: Option<Key>)
    ensures
        r == key_of_char(c),
{
    if c == 'q' {
        Some(Key::KeyQ)
    } else if c == 'w' {
        Some(Key::KeyW)
    } else if c == 'e' {
        Some(Key::KeyE)
    } else if c == 'r' {
        Some(Key::KeyR)
    } else if c == 't' {
        Some(Key::KeyT)
    } else if c == 'z' {
        Some(Key::KeyZ)
    } else if c == 'u' {
        Some(Key::KeyU)
    } else if c == 'i' {
        Some(Key::KeyI)
    } else if c == 'o' {
        Some(Key::KeyO)
    } else if c == 'p' {
        Some(Key::KeyP)
    } else if c == 'a' {
        Some(Key::KeyA)
    } else if c == 's' {
        Some(Key::KeyS)
    } else if c == 'd' {
        Some(Key::KeyD)
    } else if c == 'f' {
        Some(Key::KeyF)
    } else if c == 'g' {
        Some(Key::KeyG)
    } else if c == 'h' {
        Some(Key::KeyH)
    } else if c == 'j' {
        Some(Key::KeyJ)
    } else if c == 'k' {
        Some(Key::KeyK)
    } else if c == 'l' {
        Some(Key::KeyL)
    } else if c == 'y' {
        Some(Key::KeyY)
    } else if c == 'x' {
        Some(Key::KeyX)
    } else if c == 'c' {
        Some(Key::KeyC)
    } else if c == 'v' {
        Some(Key::KeyV)
    } else if c == 'b' {
        Some(Key::KeyB)
    } else if c == 'n' {
        Some(Key::KeyN)
    } else if c == 'm' {
        Some(Key::KeyM)
    } else if c == '0' {
        Some(Key::Digit0)
    } else if c == '1' {
        Some(Key::Digit1)
    } else if c == '2' {
        Some(Key::Digit2)
    } else if c == '3' {
        Some(Key::Digit3)
    } else if c == '4' {
        Some(Key::Digit4)
    } else if c == '5' {
        Some(Key::Digit5)
    } else if c == '6' {
        Some(Key::Digit6)
    } else if c == '7' {
        Some(Key::Digit7)
    } else if c == '8' {
        Some(Key::Digit8)
    } else if c == '9' {
        Some(Key::Digit9)
    } else {
        None
    }
}

/// Whether two texts are the same, character by character.
fn same_text(a: &str, b: &str) -> (r: bool)
    ensures
        r == (a@ == b@),
{
    let n = a.unicode_len();
    if n != b.unicode_len() {
        return false;
    }
    let mut i: usize = 0;
    while i < n
        invariant
            i <= n,
            n == a@.len(),
            n == b@.len(),
            forall|k: int| 0 <= k < i ==> a@[k] == b@[k],
        decreases n - i,
    {
        if a.get_char(i) != b.get_char(i) {
            return false;
        }
        i += 1;
    }
    assert(a@ =~= b@);
    true
}

/// The key that a name in lower case stands for.
pub fn key_for_name(name: &str) -> (r: InputResult<Key>)
    ensures
        r == named_or_unknown(name@),
{
    proof {
        reveal_strlit("shift");
        reveal_strlit("rshift");
        reveal_strlit("space");
    }
    let found = if name.unicode_len() == 1 {
        key_for_char(name.get_char(0))
    } else if same_text(name, "shift") {
        Some(Key::ShiftLeft)
    } else if same_text(name, "rshift") {
        Some(Key::ShiftRight)
    } else if same_text(name, "space") {
        Some(Key::Space)
    } else {
        None
    };
    match found {
        Some(key) => Ok(key),
        None => Err(InputError::UnknownKeys),
    }
}

/// The key that a name stands for, whatever its case.
pub fn str_to_keycode(code: &str) -> (r: InputResult<Key>)
    ensures
        r == named_or_unknown(lowercase_of(code@)),
{
    let lowered = lowercase(code);
    key_for_name(lowered.as_str())
}

/// The keys that move the camera.
#[derive(Debug, Clone, Copy, PartialEq, Eq, Structural)]
pub struct KeyBindings {
    pub forward: Key,
    pub backwards: Key,
    pub left: Key,
    pub right: Key,
    pub up: Key,
    pub down: Key,
}

/// The name that is given, or the standard name where none is.
pub open spec fn name_or(given: Option<&str>, standard: &str) -> Seq<char> {
    match given {
        Some(name) => name@,
        None => standard@,
    }
}

/// The key for a name that may be missing.
fn key_or(given: Option<&str>, standard: &'static str) -> (r: InputResult<Key>)
    ensures
        r == named_or_unknown(lowercase_of(name_or(given, standard))),
{
    match given {
        Some(name) => str_to_keycode(name),
        None => str_to_keycode(standard),
    }
}

impl KeyBindings {
    /// The bindings that hold where the settings name none: `w`, `s`, `a`
    /// and `d` move along the ground, the space bar moves up and the left
    /// shift key down.
    pub open spec fn standard_spec() -> KeyBindings {
        KeyBindings {
            forward: Key::KeyW,
            backwards: Key::KeyS,
            left: Key::KeyA,
            right: Key::KeyD,
            up: Key::Space,
            down: Key::ShiftLeft,
        }
    }

    /// The standard bindings.
    pub fn standard() -> (r: Self)
        ensures
            r == KeyBindings::standard_spec(),
    {
        KeyBindings {
            forward: Key::KeyW,
            backwards: Key::KeyS,
            left: Key::KeyA,
            right: Key::KeyD,
            up: Key::Space,
            down: Key::ShiftLeft,
        }
    }

    /// What the names of the settings give: the bindings, if each name
    /// stands for a key, and the error for unknown keys if one does not. A
    /// name that is missing is replaced by its standard: `w`, `s`, `a`, `d`,
    /// `Space` and `Shift`.
    pub open spec fn named(
        forward: Option<&str>,
        backwards: Option<&str>,
        left: Option<&str>,
        right: Option<&str>,
        up: Option<&str>,
        down: Option<&str>,
    ) -> InputResult<KeyBindings> {
        let f = key_named(lowercase_of(name_or(forward, "w")));
        let b = key_named(lowercase_of(name_or(backwards, "s")));
        let l = key_named(lowercase_of(name_or(left, "a")));
        let r = key_named(lowercase_of(name_or(right, "d")));
        let u = key_named(lowercase_of(name_or(up, "Space")));
        let d = key_named(lowercase_of(name_or(down, "Shift")));
        if f is Some && b is Some && l is Some && r is Some && u is Some && d is Some {
            Ok(
                KeyBindings {
                    forward: f.unwrap(),
                    backwards: b.unwrap(),
                    left: l.unwrap(),
                    right: r.unwrap(),
                    up: u.unwrap(),
                    down: d.unwrap(),
                },
            )
        } else {
            Err(InputError::UnknownKeys)
        }
    }

    /// The bindings that the names of the settings give.
    pub fn from_names(
        forward: Option<&str>,
        backwards: Option<&str>,
        left: Option<&str>,
        right: Option<&str>,
        up: Option<&str>,
        down: Option<&str>,
    ) -> (r: InputResult<KeyBindings>)
        ensures
            r == KeyBindings::named(forward, backwards, left, right, up, down),
    {
        let f = match key_or(forward, "w") {
            Ok(key) => key,
            Err(e) => {
                return Err(e);
            },
        };
        let b = match key_or(backwards, "s") {
            Ok(key) => key,
            Err(e) => {
                return Err(e);
            },
        };
        let l = match key_or(left, "a") {
            Ok(key) => key,
            Err(e) => {
                return Err(e);
            },
        };
        let r = match key_or(right, "d") {
            Ok(key) => key,
            Err(e) => {
                return Err(e);
            },
        };
        let u = match key_or(up, "Space") {
            Ok(key) => key,
            Err(e) => {
                return Err(e);
            },
        };
        let d = match key_or(down, "Shift") {
            Ok(key) => key,
            Err(e) => {
                return Err(e);
            },
        };
        Ok(KeyBindings { forward: f, backwards: b, left: l, right: r, up: u, down: d })
    }

    /// What a key does under the bindings: the first of forward, backwards,
    /// left, right, up and down that it is bound to.
    pub open spec fn action_spec(self, key: Key) -> Option<Action> {
        if key == self.forward {
            Some(Action::Forward)
        } else if key == self.backwards {
            Some(Action::Backwards)
        } else if key == self.left {
            Some(Action::Left)
        } else if key == self.right {
            Some(Action::Right)
        } else if key == self.up {
            Some(Action::Up)
        } else if key == self.down {
            Some(Action::Down)
        } else {
            None
        }
    }

    /// What a key does under the bindings.
    pub fn action_of(&self, key: Key) -> (r: Option<Action>)
        ensures
            r == self.action_spec(key),
    {
        if key == self.forward {
            Some(Action::Forward)
        } else if key == self.backwards {
            Some(Action::Backwards)
        } else if key == self.left {
            Some(Action::Left)
        } else if key == self.right {
            Some(Action::Right)
        } else if key == self.up {
            Some(Action::Up)
        } else if key == self.down {
            Some(Action::Down)
        } else {
            None
        }
    }
}

} // verus!
