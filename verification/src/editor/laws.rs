//! What someone at the keys can count on.

use vstd::prelude::*;

use crate::editor::dispatch::{meaning, Command, MarkChord, Motion, Reach};
use crate::editor::keys;
use crate::editor::keys::{Action, KeyBinding, Scope};
use crate::markdown::marks::EntryView;
use crate::markdown::model::MarkView;

verus! {

/// No two actions do the same.
pub proof fn different_actions_do_different_things(a: Action, b: Action)
    ensures
        meaning(a) == meaning(b) <==> a == b,
{
}

/// Each action does what it is named for: Backspace deletes backwards and
/// Delete forwards, and of what a chord may undo, cut, mark or move, each
/// does that and nothing else.
pub proof fn an_action_does_what_it_is_named_for(action: Action)
    ensures
        meaning(action) == Command::DeleteBack <==> action == Action::Backspace,
        meaning(action) == Command::DeleteForward <==> action == Action::Delete,
        meaning(action) == Command::Undo <==> action == Action::Undo,
        meaning(action) == Command::Redo <==> action == Action::Redo,
        meaning(action) == Command::Copy <==> action == Action::Copy,
        meaning(action) == Command::Cut <==> action == Action::Cut,
        meaning(action) == Command::Paste <==> action == Action::Paste,
        meaning(action) == Command::SelectAll <==> action == Action::SelectAll,
        meaning(action) == Command::Split <==> action == Action::SplitBlock,
        meaning(action) == Command::SoftBreak <==> action == Action::SoftBreak,
        meaning(action) == Command::InsertParagraph <==> action == Action::InsertParagraph,
        meaning(action) == Command::Indent <==> action == Action::Indent,
        meaning(action) == Command::Outdent <==> action == Action::Outdent,
        meaning(action) == Command::Dismiss <==> action == Action::Dismiss,
        meaning(action) == Command::DuplicateBlock <==> action == Action::DuplicateBlock,
        meaning(action) == Command::RemoveBlock <==> action == Action::RemoveBlock,
        meaning(action) == Command::ConfirmUrl <==> action == Action::ConfirmUrl,
        meaning(action) == Command::CancelUrl <==> action == Action::CancelUrl,
        meaning(action) == Command::GrowText <==> action == Action::IncreaseTextSize,
        meaning(action) == Command::ShrinkText <==> action == Action::DecreaseTextSize,
        meaning(action) == Command::ResetText <==> action == Action::ResetTextSize,
        meaning(action) == Command::Mark(MarkChord::Bold) <==> action == Action::ToggleBold,
        meaning(action) == Command::Mark(MarkChord::Italic) <==> action == Action::ToggleItalic,
        meaning(action) == Command::Mark(MarkChord::Strike) <==> action == Action::ToggleStrike,
        meaning(action) == Command::Mark(MarkChord::Code) <==> action == Action::ToggleCode,
        meaning(action) == Command::Mark(MarkChord::Highlight) <==> action
            == Action::ToggleHighlight,
        meaning(action) == (Command::MoveBlock { down: false }) <==> action == Action::MoveBlockUp,
        meaning(action) == (Command::MoveBlock { down: true }) <==> action == Action::MoveBlockDown,
{
}

/// The action that selects along a motion.
pub open spec fn selecting(action: Action) -> Option<Action> {
    match action {
        Action::Left => Some(Action::SelectLeft),
        Action::Right => Some(Action::SelectRight),
        Action::Up => Some(Action::SelectUp),
        Action::Down => Some(Action::SelectDown),
        Action::Home => Some(Action::SelectHome),
        Action::End => Some(Action::SelectEnd),
        Action::WordLeft => Some(Action::SelectWordLeft),
        Action::WordRight => Some(Action::SelectWordRight),
        Action::DocumentStart => Some(Action::SelectDocumentStart),
        Action::DocumentEnd => Some(Action::SelectDocumentEnd),
        _ => None,
    }
}

/// The motion an action is named for, and whether it selects, agree with its
/// selecting twin: both go the same way, and the twin alone extends.
pub proof fn a_motion_goes_with_its_twin(action: Action)
    ensures
        selecting(action) matches Some(twin) ==> (meaning(action) matches Command::Move {
            motion,
            extend,
        } && !extend && meaning(twin) == (Command::Move { motion, extend: true })),
        meaning(Action::Left) == (Command::Move { motion: Motion::Left, extend: false }),
        meaning(Action::Right) == (Command::Move { motion: Motion::Right, extend: false }),
        meaning(Action::Up) == (Command::Move { motion: Motion::Up, extend: false }),
        meaning(Action::Down) == (Command::Move { motion: Motion::Down, extend: false }),
        meaning(Action::Home) == (Command::Move { motion: Motion::Home, extend: false }),
        meaning(Action::End) == (Command::Move { motion: Motion::End, extend: false }),
        meaning(Action::WordLeft) == (Command::Move { motion: Motion::WordLeft, extend: false }),
        meaning(Action::WordRight) == (Command::Move { motion: Motion::WordRight, extend: false }),
        meaning(Action::DocumentStart) == (Command::Move {
            motion: Motion::DocumentStart,
            extend: false,
        }),
        meaning(Action::DocumentEnd) == (Command::Move {
            motion: Motion::DocumentEnd,
            extend: false,
        }),
        meaning(action) is Move ==> selecting(action) is Some || exists|plain: Action|
            selecting(plain) == Some(action),
{
    if meaning(action) is Move && selecting(action) is None {
        let plain = match action {
            Action::SelectLeft => Action::Left,
            Action::SelectRight => Action::Right,
            Action::SelectUp => Action::Up,
            Action::SelectDown => Action::Down,
            Action::SelectHome => Action::Home,
            Action::SelectEnd => Action::End,
            Action::SelectWordLeft => Action::WordLeft,
            Action::SelectWordRight => Action::WordRight,
            Action::SelectDocumentStart => Action::DocumentStart,
            _ => Action::DocumentEnd,
        };
        assert(selecting(plain) == Some(action));
    }
}

/// A kill goes the way of what it reaches: forwards to the end of a line or to
/// the word on the right, backwards to the start or to the word on the left.
pub proof fn a_kill_goes_the_way_it_reaches(action: Action)
    ensures
        meaning(action) matches Command::Kill { forward, to } ==> forward == (to == Reach::LineEnd
            || to == Reach::WordRight),
        meaning(action) == (Command::Kill { forward: true, to: Reach::LineEnd }) <==> action
            == Action::KillLine,
        meaning(action) == (Command::Kill { forward: false, to: Reach::LineStart }) <==> action
            == Action::DeleteToHome,
        meaning(action) == (Command::Kill { forward: false, to: Reach::WordLeft }) <==> action
            == Action::DeleteWordLeft,
        meaning(action) == (Command::Kill { forward: true, to: Reach::WordRight }) <==> action
            == Action::DeleteWordRight,
{
}

/// A chord toggles the mark it is named for, whatever marks are registered; a
/// highlight only where one is.
pub proof fn a_chord_toggles_the_mark_it_is_named_for(marks: Seq<EntryView>)
    ensures
        MarkChord::Bold.toggles(marks) == Some(MarkView::Bold),
        MarkChord::Italic.toggles(marks) == Some(MarkView::Italic),
        MarkChord::Strike.toggles(marks) == Some(MarkView::Strike),
        MarkChord::Code.toggles(marks) == Some(MarkView::Code),
        MarkChord::Highlight.toggles(marks) is Some <==> exists|i: int|
            0 <= i < marks.len() && (#[trigger] marks[i]).name == "highlight"@,
        MarkChord::Highlight.toggles(marks) matches Some(mark) ==> mark == MarkView::Custom(
            "highlight"@,
        ),
{
}

/// Whether a chord does something, in a scope, on a platform.
pub open spec fn does(on_mac: bool, keys: Seq<char>, scope: Scope, command: Command) -> bool {
    exists|i: int|
        0 <= i < bound(on_mac).len() && (#[trigger] bound(on_mac)[i]).keys@ == keys
            && bound(on_mac)[i].scope == scope && meaning(bound(on_mac)[i].action) == command
}

/// The chords of a platform.
pub open spec fn bound(on_mac: bool) -> Seq<KeyBinding> {
    keys::shared() + (if on_mac {
        keys::mac()
    } else {
        keys::elsewhere()
    })
}

/// The keys that are the same everywhere do what is on them: an arrow goes its
/// way and with shift selects that way, and Enter and Escape answer the prompt
/// where that is open.
pub proof fn a_key_does_what_is_on_it(on_mac: bool)
    ensures
        does(on_mac, "backspace"@, Scope::Editor, Command::DeleteBack),
        does(on_mac, "delete"@, Scope::Editor, Command::DeleteForward),
        does(on_mac, "left"@, Scope::Editor, (Command::Move { motion: Motion::Left, extend: false })),
        does(on_mac, "right"@, Scope::Editor, (Command::Move { motion: Motion::Right, extend: false })),
        does(on_mac, "up"@, Scope::Editor, (Command::Move { motion: Motion::Up, extend: false })),
        does(on_mac, "down"@, Scope::Editor, (Command::Move { motion: Motion::Down, extend: false })),
        does(on_mac, "home"@, Scope::Editor, (Command::Move { motion: Motion::Home, extend: false })),
        does(on_mac, "end"@, Scope::Editor, (Command::Move { motion: Motion::End, extend: false })),
        does(on_mac, "shift-left"@, Scope::Editor, (Command::Move { motion: Motion::Left, extend: true })),
        does(on_mac, "shift-right"@, Scope::Editor, (Command::Move { motion: Motion::Right, extend: true })),
        does(on_mac, "shift-up"@, Scope::Editor, (Command::Move { motion: Motion::Up, extend: true })),
        does(on_mac, "shift-down"@, Scope::Editor, (Command::Move { motion: Motion::Down, extend: true })),
        does(on_mac, "shift-home"@, Scope::Editor, (Command::Move { motion: Motion::Home, extend: true })),
        does(on_mac, "shift-end"@, Scope::Editor, (Command::Move { motion: Motion::End, extend: true })),
        does(on_mac, "enter"@, Scope::Editor, Command::Split),
        does(on_mac, "shift-enter"@, Scope::Editor, Command::SoftBreak),
        does(on_mac, "ctrl-enter"@, Scope::Editor, Command::InsertParagraph),
        does(on_mac, "tab"@, Scope::Editor, Command::Indent),
        does(on_mac, "shift-tab"@, Scope::Editor, Command::Outdent),
        does(on_mac, "escape"@, Scope::Editor, Command::Dismiss),
        does(on_mac, "enter"@, Scope::Prompt, Command::ConfirmUrl),
        does(on_mac, "escape"@, Scope::Prompt, Command::CancelUrl),
{
    assert(bound(on_mac)[0].keys@ == "backspace"@);
    assert(bound(on_mac)[1].keys@ == "delete"@);
    assert(bound(on_mac)[2].keys@ == "left"@);
    assert(bound(on_mac)[3].keys@ == "right"@);
    assert(bound(on_mac)[4].keys@ == "up"@);
    assert(bound(on_mac)[5].keys@ == "down"@);
    assert(bound(on_mac)[6].keys@ == "home"@);
    assert(bound(on_mac)[7].keys@ == "end"@);
    assert(bound(on_mac)[8].keys@ == "shift-left"@);
    assert(bound(on_mac)[9].keys@ == "shift-right"@);
    assert(bound(on_mac)[10].keys@ == "shift-up"@);
    assert(bound(on_mac)[11].keys@ == "shift-down"@);
    assert(bound(on_mac)[12].keys@ == "shift-home"@);
    assert(bound(on_mac)[13].keys@ == "shift-end"@);
    assert(bound(on_mac)[14].keys@ == "enter"@);
    assert(bound(on_mac)[15].keys@ == "shift-enter"@);
    assert(bound(on_mac)[16].keys@ == "ctrl-enter"@);
    assert(bound(on_mac)[17].keys@ == "tab"@);
    assert(bound(on_mac)[18].keys@ == "shift-tab"@);
    assert(bound(on_mac)[19].keys@ == "escape"@);
    assert(bound(on_mac)[20].keys@ == "enter"@);
    assert(bound(on_mac)[21].keys@ == "escape"@);
}

/// On macOS cmd goes by the line and the document, option by the word, and
/// control as it does in every text field there.
pub proof fn mac_chords_do_what_they_do_there()
    ensures
        does(true, "cmd-a"@, Scope::Editor, Command::SelectAll),
        does(true, "cmd-c"@, Scope::Editor, Command::Copy),
        does(true, "cmd-x"@, Scope::Editor, Command::Cut),
        does(true, "cmd-v"@, Scope::Editor, Command::Paste),
        does(true, "cmd-z"@, Scope::Editor, Command::Undo),
        does(true, "cmd-shift-z"@, Scope::Editor, Command::Redo),
        does(true, "cmd-b"@, Scope::Editor, Command::Mark(MarkChord::Bold)),
        does(true, "cmd-i"@, Scope::Editor, Command::Mark(MarkChord::Italic)),
        does(true, "cmd-e"@, Scope::Editor, Command::Mark(MarkChord::Code)),
        does(true, "cmd-shift-x"@, Scope::Editor, Command::Mark(MarkChord::Strike)),
        does(true, "cmd-shift-h"@, Scope::Editor, Command::Mark(MarkChord::Highlight)),
        does(true, "cmd-="@, Scope::Editor, Command::GrowText),
        does(true, "cmd-+"@, Scope::Editor, Command::GrowText),
        does(true, "cmd-shift-="@, Scope::Editor, Command::GrowText),
        does(true, "cmd--"@, Scope::Editor, Command::ShrinkText),
        does(true, "cmd-0"@, Scope::Editor, Command::ResetText),
        does(true, "cmd-left"@, Scope::Editor, (Command::Move { motion: Motion::Home, extend: false })),
        does(true, "cmd-right"@, Scope::Editor, (Command::Move { motion: Motion::End, extend: false })),
        does(true, "cmd-up"@, Scope::Editor, (Command::Move { motion: Motion::DocumentStart, extend: false })),
        does(true, "cmd-down"@, Scope::Editor, (Command::Move { motion: Motion::DocumentEnd, extend: false })),
        does(true, "cmd-shift-left"@, Scope::Editor, (Command::Move { motion: Motion::Home, extend: true })),
        does(true, "cmd-shift-right"@, Scope::Editor, (Command::Move { motion: Motion::End, extend: true })),
        does(true, "cmd-shift-up"@, Scope::Editor, (Command::Move { motion: Motion::DocumentStart, extend: true })),
        does(true, "cmd-shift-down"@, Scope::Editor, (Command::Move { motion: Motion::DocumentEnd, extend: true })),
        does(true, "alt-left"@, Scope::Editor, (Command::Move { motion: Motion::WordLeft, extend: false })),
        does(true, "alt-right"@, Scope::Editor, (Command::Move { motion: Motion::WordRight, extend: false })),
        does(true, "alt-shift-left"@, Scope::Editor, (Command::Move { motion: Motion::WordLeft, extend: true })),
        does(true, "alt-shift-right"@, Scope::Editor, (Command::Move { motion: Motion::WordRight, extend: true })),
        does(true, "ctrl-a"@, Scope::Editor, (Command::Move { motion: Motion::Home, extend: false })),
        does(true, "ctrl-e"@, Scope::Editor, (Command::Move { motion: Motion::End, extend: false })),
        does(true, "ctrl-b"@, Scope::Editor, (Command::Move { motion: Motion::Left, extend: false })),
        does(true, "ctrl-f"@, Scope::Editor, (Command::Move { motion: Motion::Right, extend: false })),
        does(true, "ctrl-n"@, Scope::Editor, (Command::Move { motion: Motion::Down, extend: false })),
        does(true, "ctrl-p"@, Scope::Editor, (Command::Move { motion: Motion::Up, extend: false })),
        does(true, "ctrl-h"@, Scope::Editor, Command::DeleteBack),
        does(true, "ctrl-d"@, Scope::Editor, Command::DeleteForward),
        does(true, "ctrl-k"@, Scope::Editor, (Command::Kill { forward: true, to: Reach::LineEnd })),
        does(true, "alt-backspace"@, Scope::Editor, (Command::Kill { forward: false, to: Reach::WordLeft })),
        does(true, "alt-delete"@, Scope::Editor, (Command::Kill { forward: true, to: Reach::WordRight })),
        does(true, "cmd-backspace"@, Scope::Editor, (Command::Kill { forward: false, to: Reach::LineStart })),
{
    assert(bound(true)[22].keys@ == "cmd-a"@);
    assert(bound(true)[23].keys@ == "cmd-c"@);
    assert(bound(true)[24].keys@ == "cmd-x"@);
    assert(bound(true)[25].keys@ == "cmd-v"@);
    assert(bound(true)[26].keys@ == "cmd-z"@);
    assert(bound(true)[27].keys@ == "cmd-shift-z"@);
    assert(bound(true)[28].keys@ == "cmd-b"@);
    assert(bound(true)[29].keys@ == "cmd-i"@);
    assert(bound(true)[30].keys@ == "cmd-e"@);
    assert(bound(true)[31].keys@ == "cmd-shift-x"@);
    assert(bound(true)[32].keys@ == "cmd-shift-h"@);
    assert(bound(true)[33].keys@ == "cmd-="@);
    assert(bound(true)[34].keys@ == "cmd-+"@);
    assert(bound(true)[35].keys@ == "cmd-shift-="@);
    assert(bound(true)[36].keys@ == "cmd--"@);
    assert(bound(true)[37].keys@ == "cmd-0"@);
    assert(bound(true)[38].keys@ == "cmd-left"@);
    assert(bound(true)[39].keys@ == "cmd-right"@);
    assert(bound(true)[40].keys@ == "cmd-up"@);
    assert(bound(true)[41].keys@ == "cmd-down"@);
    assert(bound(true)[42].keys@ == "cmd-shift-left"@);
    assert(bound(true)[43].keys@ == "cmd-shift-right"@);
    assert(bound(true)[44].keys@ == "cmd-shift-up"@);
    assert(bound(true)[45].keys@ == "cmd-shift-down"@);
    assert(bound(true)[46].keys@ == "alt-left"@);
    assert(bound(true)[47].keys@ == "alt-right"@);
    assert(bound(true)[48].keys@ == "alt-shift-left"@);
    assert(bound(true)[49].keys@ == "alt-shift-right"@);
    assert(bound(true)[50].keys@ == "ctrl-a"@);
    assert(bound(true)[51].keys@ == "ctrl-e"@);
    assert(bound(true)[52].keys@ == "ctrl-b"@);
    assert(bound(true)[53].keys@ == "ctrl-f"@);
    assert(bound(true)[54].keys@ == "ctrl-n"@);
    assert(bound(true)[55].keys@ == "ctrl-p"@);
    assert(bound(true)[56].keys@ == "ctrl-h"@);
    assert(bound(true)[57].keys@ == "ctrl-d"@);
    assert(bound(true)[58].keys@ == "ctrl-k"@);
    assert(bound(true)[59].keys@ == "alt-backspace"@);
    assert(bound(true)[60].keys@ == "alt-delete"@);
    assert(bound(true)[61].keys@ == "cmd-backspace"@);
}

/// Elsewhere control is both the chord and the word.
pub proof fn chords_elsewhere_do_what_they_do_there()
    ensures
        does(false, "ctrl-a"@, Scope::Editor, Command::SelectAll),
        does(false, "ctrl-c"@, Scope::Editor, Command::Copy),
        does(false, "ctrl-x"@, Scope::Editor, Command::Cut),
        does(false, "ctrl-v"@, Scope::Editor, Command::Paste),
        does(false, "ctrl-z"@, Scope::Editor, Command::Undo),
        does(false, "ctrl-shift-z"@, Scope::Editor, Command::Redo),
        does(false, "ctrl-y"@, Scope::Editor, Command::Redo),
        does(false, "ctrl-b"@, Scope::Editor, Command::Mark(MarkChord::Bold)),
        does(false, "ctrl-i"@, Scope::Editor, Command::Mark(MarkChord::Italic)),
        does(false, "ctrl-e"@, Scope::Editor, Command::Mark(MarkChord::Code)),
        does(false, "ctrl-shift-x"@, Scope::Editor, Command::Mark(MarkChord::Strike)),
        does(false, "ctrl-shift-h"@, Scope::Editor, Command::Mark(MarkChord::Highlight)),
        does(false, "ctrl-="@, Scope::Editor, Command::GrowText),
        does(false, "ctrl-+"@, Scope::Editor, Command::GrowText),
        does(false, "ctrl-shift-="@, Scope::Editor, Command::GrowText),
        does(false, "ctrl--"@, Scope::Editor, Command::ShrinkText),
        does(false, "ctrl-0"@, Scope::Editor, Command::ResetText),
        does(false, "ctrl-left"@, Scope::Editor, (Command::Move { motion: Motion::WordLeft, extend: false })),
        does(false, "ctrl-right"@, Scope::Editor, (Command::Move { motion: Motion::WordRight, extend: false })),
        does(false, "ctrl-shift-left"@, Scope::Editor, (Command::Move { motion: Motion::WordLeft, extend: true })),
        does(false, "ctrl-shift-right"@, Scope::Editor, (Command::Move { motion: Motion::WordRight, extend: true })),
        does(false, "ctrl-home"@, Scope::Editor, (Command::Move { motion: Motion::DocumentStart, extend: false })),
        does(false, "ctrl-end"@, Scope::Editor, (Command::Move { motion: Motion::DocumentEnd, extend: false })),
        does(false, "ctrl-shift-home"@, Scope::Editor, (Command::Move { motion: Motion::DocumentStart, extend: true })),
        does(false, "ctrl-shift-end"@, Scope::Editor, (Command::Move { motion: Motion::DocumentEnd, extend: true })),
        does(false, "ctrl-backspace"@, Scope::Editor, (Command::Kill { forward: false, to: Reach::WordLeft })),
        does(false, "ctrl-delete"@, Scope::Editor, (Command::Kill { forward: true, to: Reach::WordRight })),
{
    assert(bound(false)[22].keys@ == "ctrl-a"@);
    assert(bound(false)[23].keys@ == "ctrl-c"@);
    assert(bound(false)[24].keys@ == "ctrl-x"@);
    assert(bound(false)[25].keys@ == "ctrl-v"@);
    assert(bound(false)[26].keys@ == "ctrl-z"@);
    assert(bound(false)[27].keys@ == "ctrl-shift-z"@);
    assert(bound(false)[28].keys@ == "ctrl-y"@);
    assert(bound(false)[29].keys@ == "ctrl-b"@);
    assert(bound(false)[30].keys@ == "ctrl-i"@);
    assert(bound(false)[31].keys@ == "ctrl-e"@);
    assert(bound(false)[32].keys@ == "ctrl-shift-x"@);
    assert(bound(false)[33].keys@ == "ctrl-shift-h"@);
    assert(bound(false)[34].keys@ == "ctrl-="@);
    assert(bound(false)[35].keys@ == "ctrl-+"@);
    assert(bound(false)[36].keys@ == "ctrl-shift-="@);
    assert(bound(false)[37].keys@ == "ctrl--"@);
    assert(bound(false)[38].keys@ == "ctrl-0"@);
    assert(bound(false)[39].keys@ == "ctrl-left"@);
    assert(bound(false)[40].keys@ == "ctrl-right"@);
    assert(bound(false)[41].keys@ == "ctrl-shift-left"@);
    assert(bound(false)[42].keys@ == "ctrl-shift-right"@);
    assert(bound(false)[43].keys@ == "ctrl-home"@);
    assert(bound(false)[44].keys@ == "ctrl-end"@);
    assert(bound(false)[45].keys@ == "ctrl-shift-home"@);
    assert(bound(false)[46].keys@ == "ctrl-shift-end"@);
    assert(bound(false)[47].keys@ == "ctrl-backspace"@);
    assert(bound(false)[48].keys@ == "ctrl-delete"@);
}

/// An app is left the actions that do something to a whole block where it
/// stands, and no other.
pub proof fn whole_blocks_are_left_to_the_app(action: Action)
    ensures
        keys::left_to_the_app(action) <==> meaning(action) is MoveBlock || meaning(action)
            == Command::DuplicateBlock || meaning(action) == Command::RemoveBlock,
{
}

} // verus!
