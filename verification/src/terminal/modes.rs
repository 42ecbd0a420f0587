//! What the running program wants done with the keyboard and the pointer.

use alacritty_terminal::term::Term;
use vstd::prelude::*;

use crate::terminal::screen;
use crate::terminal::screen::{has_mode, EventCapture, KeyFlag, Mode};

verus! {

/// Which kitty keyboard protocol enhancements the running program turned on.
///
/// `alacritty_terminal` keeps the mode stack, the alternate-screen swap and
/// the `CSI ? u` query reply; this is that state read back out.
#[derive(Debug, Clone, Copy, PartialEq, Eq, Structural)]
pub struct KeyboardMode {
    /// Flag 1: `Esc` and the control and alt combos take a form of their own.
    pub disambiguate: bool,
    /// Flag 2: presses, repeats and releases are told apart.
    pub event_types: bool,
    /// Flag 4: a report carries the key the layout would have produced.
    pub alternate_keys: bool,
    /// Flag 8: every key is an escape code, printable or not.
    pub all_as_escapes: bool,
    /// Flag 16: a report carries the text the key produced.
    pub associated_text: bool,
    /// DECCKM, which moves the unmodified arrows and home/end to SS3.
    pub app_cursor: bool,
}

impl Default for KeyboardMode {
    fn default() -> (mode: KeyboardMode)
        ensures
            mode == KeyboardMode::of(Set::empty()),
    {
        KeyboardMode {
            disambiguate: false,
            event_types: false,
            alternate_keys: false,
            all_as_escapes: false,
            associated_text: false,
            app_cursor: false,
        }
    }
}

impl KeyboardMode {
    /// What the modes turned on say of the keyboard.
    pub open spec fn of(modes: Set<Mode>) -> KeyboardMode {
        KeyboardMode {
            disambiguate: modes.contains(Mode::Keyboard(KeyFlag::Disambiguate)),
            event_types: modes.contains(Mode::Keyboard(KeyFlag::EventTypes)),
            alternate_keys: modes.contains(Mode::Keyboard(KeyFlag::AlternateKeys)),
            all_as_escapes: modes.contains(Mode::Keyboard(KeyFlag::AllAsEscapes)),
            associated_text: modes.contains(Mode::Keyboard(KeyFlag::AssociatedText)),
            app_cursor: modes.contains(Mode::AppCursor),
        }
    }

    /// Whether any enhancement is on, which is what takes a key off its legacy
    /// encoding.
    pub fn enhanced(&self) -> (yes: bool)
        ensures
            yes == (self.disambiguate || self.event_types || self.alternate_keys
                || self.all_as_escapes || self.associated_text),
    {
        self.disambiguate || self.event_types || self.alternate_keys || self.all_as_escapes
            || self.associated_text
    }
}

/// What a terminal's modes say of the keyboard.
pub(crate) fn keyboard_mode_of(term: &Term<EventCapture>) -> (mode: KeyboardMode)
    ensures
        mode == KeyboardMode::of(screen::modes_of(screen::state_of(*term))),
{
    KeyboardMode {
        disambiguate: has_mode(term, Mode::Keyboard(KeyFlag::Disambiguate)),
        event_types: has_mode(term, Mode::Keyboard(KeyFlag::EventTypes)),
        alternate_keys: has_mode(term, Mode::Keyboard(KeyFlag::AlternateKeys)),
        all_as_escapes: has_mode(term, Mode::Keyboard(KeyFlag::AllAsEscapes)),
        associated_text: has_mode(term, Mode::Keyboard(KeyFlag::AssociatedText)),
        app_cursor: has_mode(term, Mode::AppCursor),
    }
}

/// Which pointer events the running program asked to be told about.
#[derive(Debug, Clone, Copy, PartialEq, Eq, Structural)]
pub enum MouseTracking {
    /// The pointer is the user's: selection and scrollback.
    Off,
    /// `1000`: presses and releases.
    Click,
    /// `1002`: and motion while a button is held.
    Drag,
    /// `1003`: and motion with no button held.
    Motion,
}

impl Default for MouseTracking {
    fn default() -> (tracking: MouseTracking)
        ensures
            tracking == MouseTracking::Off,
    {
        MouseTracking::Off
    }
}

/// How to report the pointer to the running program.
#[derive(Debug, Clone, Copy, PartialEq, Eq, Structural)]
pub struct MouseMode {
    pub tracking: MouseTracking,
    /// `1006`: SGR coordinates, which carry a grid past 223 columns.
    pub sgr: bool,
    /// `1005`: UTF-8 coordinates.
    pub utf8: bool,
    /// `1007`: a wheel tick on the alternate screen sends arrow keys.
    pub alternate_scroll: bool,
    /// Whether the alternate screen is up.
    pub alt_screen: bool,
    /// DECCKM, which decides whether those arrow keys are CSI or SS3.
    pub app_cursor: bool,
}

impl Default for MouseMode {
    fn default() -> (mode: MouseMode)
        ensures
            mode == MouseMode::of(Set::empty()),
    {
        MouseMode {
            tracking: MouseTracking::Off,
            sgr: false,
            utf8: false,
            alternate_scroll: false,
            alt_screen: false,
            app_cursor: false,
        }
    }
}

impl MouseMode {
    /// What the modes turned on say of the pointer. The order only decides
    /// what a program setting several would get.
    pub open spec fn of(modes: Set<Mode>) -> MouseMode {
        MouseMode {
            tracking: if modes.contains(Mode::MouseMotion) {
                MouseTracking::Motion
            } else if modes.contains(Mode::MouseDrag) {
                MouseTracking::Drag
            } else if modes.contains(Mode::MouseClick) {
                MouseTracking::Click
            } else {
                MouseTracking::Off
            },
            sgr: modes.contains(Mode::SgrMouse),
            utf8: modes.contains(Mode::Utf8Mouse),
            alternate_scroll: modes.contains(Mode::AlternateScroll),
            alt_screen: modes.contains(Mode::AltScreen),
            app_cursor: modes.contains(Mode::AppCursor),
        }
    }
}

/// What a terminal's modes say of the pointer.
pub(crate) fn mouse_mode_of(term: &Term<EventCapture>) -> (mode: MouseMode)
    ensures
        mode == MouseMode::of(screen::modes_of(screen::state_of(*term))),
{
    // `Term` clears the other two whenever it sets one of these, so the order
    // here only decides what a program setting several would get.
    let tracking = if has_mode(term, Mode::MouseMotion) {
        MouseTracking::Motion
    } else if has_mode(term, Mode::MouseDrag) {
        MouseTracking::Drag
    } else if has_mode(term, Mode::MouseClick) {
        MouseTracking::Click
    } else {
        MouseTracking::Off
    };
    MouseMode {
        tracking,
        sgr: has_mode(term, Mode::SgrMouse),
        utf8: has_mode(term, Mode::Utf8Mouse),
        alternate_scroll: has_mode(term, Mode::AlternateScroll),
        alt_screen: has_mode(term, Mode::AltScreen),
        app_cursor: has_mode(term, Mode::AppCursor),
    }
}

} // verus!
