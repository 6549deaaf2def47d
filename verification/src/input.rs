//! The vocabulary of input events.

use vstd::prelude::*;

verus! {

/// Mouse buttons (e.g. left, right, middle, etc.)
#[derive(Clone, Copy, Debug, PartialEq, Eq, Hash)]
pub enum MouseButton {
    Left,
    Middle,
    Right,
    Other(u16),
}

/// The state of a button or key (e.g. pressed, released, repeated)
#[derive(Clone, Copy, Debug, PartialEq, Eq, Hash)]
pub enum ButtonState {
    Pressed,
    Released,
    /// The number of 'repeat' cycles a button has been pressed for. The
    /// frequency of these cycles is operating system dependent and may be
    /// changed by the user.
    Repeated(u16),
}

/// The symbolic (read: English) name for a key on the keyboard.
#[derive(Clone, Copy, Debug, PartialEq, Eq, Hash, Structural)]
pub enum VirtualKeyCode {
    Invalid,
    Key0,
    Key1,
    Key2,
    Key3,
    Key4,
    Key5,
    Key6,
    Key7,
    Key8,
    Key9,
    A,
    B,
    C,
    D,
    E,
    F,
    G,
    H,
    I,
    J,
    K,
    L,
    M,
    N,
    O,
    P,
    Q,
    R,
    S,
    T,
    U,
    V,
    W,
    X,
    Y,
    Z,
    Keypad0,
    Keypad1,
    Keypad2,
    Keypad3,
    Keypad4,
    Keypad5,
    Keypad6,
    Keypad7,
    Keypad8,
    Keypad9,
    KeypadAdd,
    KeypadSubtract,
    KeypadMultiply,
    KeypadDivide,
    KeypadDecimal,
    Equals,
    Comma,
    Minus,
    Period,
    Semicolon,
    Slash,
    Grave,
    LBracket,
    Backslash,
    Rbracket,
    Apostrophe,
    Tab,
    Space,
    ImeKana,
    ImeKanji,
    ImeConvert,
    ImeNonConvert,
    Insert,
    Delete,
    Backspace,
    Enter,
    LShift,
    RShift,
    LControl,
    RControl,
    LMenu,
    RMenu,
    Pause,
    CapsLock,
    Escape,
    PageUp,
    PageDown,
    End,
    Home,
    Left,
    Right,
    Up,
    Down,
    NumLock,
    ScrollLock,
    F1,
    F2,
    F3,
    F4,
    F5,
    F6,
    F7,
    F8,
    F9,
    F10,
    F11,
    F12,
    F13,
    F14,
    F15,
    F16,
    F17,
    F18,
    F19,
    F20,
    F21,
    F22,
    F23,
    F24,
    LSuper,
    RSuper,
    Select,
    Snapshot,
    MediaNextTrack,
    MediaPrevTrack,
    MediaStop,
    MediaPlayPause,
}

/// A key event as the window system reports it: which key, and what was held
/// with it.
#[derive(Clone, Copy, Debug, PartialEq, Eq, Hash, Structural)]
pub struct KeyInput {
    pub scancode: u32,
    pub key: VirtualKeyCode,
    pub modifiers: u32,
}

/// Tells the first press of a key from the repeats that the window system sends
/// while the key is held down.
pub struct KeyTracker {
    repeated_key: Option<(KeyInput, u16)>,
}

impl View for KeyTracker {
    type V = Option<(KeyInput, u16)>;

    /// The key that is held down, with the number of its repeats so far.
    closed spec fn view(&self) -> Option<(KeyInput, u16)> {
        self.repeated_key
    }
}

/// What is reported for a press of `input` while `held` is held down: the first
/// press of a key when none is held, the next repeat when the same key is held,
/// and nothing when another key is.
pub open spec fn press_report(held: Option<(KeyInput, u16)>, input: KeyInput) -> Option<
    ButtonState,
> {
    match held {
        None => Some(ButtonState::Pressed),
        Some((key, count)) => if key == input {
            Some(ButtonState::Repeated((count + 1) as u16))
        } else {
            None
        },
    }
}

/// The key that is held down after a press of `input`.
pub open spec fn held_after_press(held: Option<(KeyInput, u16)>, input: KeyInput) -> Option<
    (KeyInput, u16),
> {
    match held {
        None => Some((input, 0u16)),
        Some((key, count)) => if key == input {
            Some((input, (count + 1) as u16))
        } else {
            held
        },
    }
}

impl KeyTracker {
    /// A tracker for a window in which no key is held down.
    pub fn new() -> (tracker: Self)
        ensures
            tracker@ is None,
    {
        Self { repeated_key: None }
    }

    /// The key that is held down, with the number of its repeats so far.
    pub fn held(&self) -> (held: Option<(KeyInput, u16)>)
        ensures
            held == self@,
    {
        self.repeated_key
    }

    /// Takes note of a press of `input` and says what to report for it.
    ///
    /// Repeats are counted in 16 bits: a key that is held does not repeat more
    /// often than that.
    pub fn press(&mut self, input: KeyInput) -> (report: Option<ButtonState>)
        requires
            match old(self)@ {
                Some((key, count)) => key == input ==> count < u16::MAX,
                None => true,
            },
        ensures
            report == press_report(old(self)@, input),
            final(self)@ == held_after_press(old(self)@, input),
    {
        match self.repeated_key {
            Some((key, count)) => {
                if key == input {
                    self.repeated_key = Some((input, count + 1));
                    Some(ButtonState::Repeated(count + 1))
                } else {
                    None
                }
            },
            None => {
                self.repeated_key = Some((input, 0));
                Some(ButtonState::Pressed)
            },
        }
    }

    /// Takes note that the key was released; `Released` is what to report.
    pub fn release(&mut self) -> (report: ButtonState)
        ensures
            report == ButtonState::Released,
            final(self)@ is None,
    {
        self.repeated_key = None;
        ButtonState::Released
    }
}

} // verus!
