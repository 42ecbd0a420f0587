//! The keymap: every action the editor answers to, and the chords bound to it.
//!
//! Separate from the surface because it is configuration rather than behaviour
//! — an app that wants a different keymap replaces this call, not the editor.

use vstd::prelude::*;

verus! {

/// The key context every binding of the editor's own is scoped to.
pub const CONTEXT: &'static str = "BezelEditor";

/// The key context the URL prompt claims, so `enter` fills the picture in
/// rather than splitting the document behind it.
pub const PROMPT_CONTEXT: &'static str = "BezelImagePrompt";

/// What the editor answers to.
#[derive(Clone, Copy, Debug, PartialEq, Eq, Structural)]
pub enum Action {
    Backspace,
    Delete,
    KillLine,
    DeleteWordLeft,
    DeleteWordRight,
    DeleteToHome,
    Left,
    Right,
    Up,
    Down,
    Home,
    End,
    DocumentStart,
    DocumentEnd,
    SelectLeft,
    SelectRight,
    SelectUp,
    SelectDown,
    SelectHome,
    SelectEnd,
    SelectDocumentStart,
    SelectDocumentEnd,
    SelectAll,
    WordLeft,
    WordRight,
    SelectWordLeft,
    SelectWordRight,
    SplitBlock,
    SoftBreak,
    InsertParagraph,
    Indent,
    Outdent,
    Dismiss,
    Copy,
    Cut,
    Paste,
    Undo,
    Redo,
    ToggleBold,
    ToggleItalic,
    ToggleStrike,
    ToggleCode,
    ToggleHighlight,
    MoveBlockUp,
    MoveBlockDown,
    DuplicateBlock,
    RemoveBlock,
    ConfirmUrl,
    CancelUrl,
    IncreaseTextSize,
    DecreaseTextSize,
    ResetTextSize,
}

/// Where a chord means what it does.
#[derive(Clone, Copy, Debug, PartialEq, Eq, Structural)]
pub enum Scope {
    /// In the document.
    Editor,
    /// In the URL prompt: the field holds focus while it is open, and the
    /// document behind it must not answer the same keys.
    Prompt,
}

impl Scope {
    /// The key context a scope is.
    pub fn context(self) -> (context: &'static str)
        ensures
            context@ == (match self {
                Scope::Editor => CONTEXT@,
                Scope::Prompt => PROMPT_CONTEXT@,
            }),
    {
        match self {
            Scope::Editor => CONTEXT,
            Scope::Prompt => PROMPT_CONTEXT,
        }
    }
}

/// A chord, and what it does.
#[derive(Clone, Copy, Debug, PartialEq, Eq)]
pub struct KeyBinding {
    pub keys: &'static str,
    pub action: Action,
    pub scope: Scope,
}

/// The chords every platform has.
pub open spec fn shared() -> Seq<KeyBinding> {
    seq![
        KeyBinding { keys: "backspace", action: Action::Backspace, scope: Scope::Editor },
        KeyBinding { keys: "delete", action: Action::Delete, scope: Scope::Editor },
        KeyBinding { keys: "left", action: Action::Left, scope: Scope::Editor },
        KeyBinding { keys: "right", action: Action::Right, scope: Scope::Editor },
        KeyBinding { keys: "up", action: Action::Up, scope: Scope::Editor },
        KeyBinding { keys: "down", action: Action::Down, scope: Scope::Editor },
        KeyBinding { keys: "home", action: Action::Home, scope: Scope::Editor },
        KeyBinding { keys: "end", action: Action::End, scope: Scope::Editor },
        KeyBinding { keys: "shift-left", action: Action::SelectLeft, scope: Scope::Editor },
        KeyBinding { keys: "shift-right", action: Action::SelectRight, scope: Scope::Editor },
        KeyBinding { keys: "shift-up", action: Action::SelectUp, scope: Scope::Editor },
        KeyBinding { keys: "shift-down", action: Action::SelectDown, scope: Scope::Editor },
        KeyBinding { keys: "shift-home", action: Action::SelectHome, scope: Scope::Editor },
        KeyBinding { keys: "shift-end", action: Action::SelectEnd, scope: Scope::Editor },
        KeyBinding { keys: "enter", action: Action::SplitBlock, scope: Scope::Editor },
        KeyBinding { keys: "shift-enter", action: Action::SoftBreak, scope: Scope::Editor },
        KeyBinding { keys: "ctrl-enter", action: Action::InsertParagraph, scope: Scope::Editor },
        KeyBinding { keys: "tab", action: Action::Indent, scope: Scope::Editor },
        KeyBinding { keys: "shift-tab", action: Action::Outdent, scope: Scope::Editor },
        KeyBinding { keys: "escape", action: Action::Dismiss, scope: Scope::Editor },
        KeyBinding { keys: "enter", action: Action::ConfirmUrl, scope: Scope::Prompt },
        KeyBinding { keys: "escape", action: Action::CancelUrl, scope: Scope::Prompt },
    ]
}

/// The chords macOS has: cmd for a line, option for a word, and the emacs
/// bindings it honours in every native text field.
pub open spec fn mac() -> Seq<KeyBinding> {
    seq![
        KeyBinding { keys: "cmd-a", action: Action::SelectAll, scope: Scope::Editor },
        KeyBinding { keys: "cmd-c", action: Action::Copy, scope: Scope::Editor },
        KeyBinding { keys: "cmd-x", action: Action::Cut, scope: Scope::Editor },
        KeyBinding { keys: "cmd-v", action: Action::Paste, scope: Scope::Editor },
        KeyBinding { keys: "cmd-z", action: Action::Undo, scope: Scope::Editor },
        KeyBinding { keys: "cmd-shift-z", action: Action::Redo, scope: Scope::Editor },
        KeyBinding { keys: "cmd-b", action: Action::ToggleBold, scope: Scope::Editor },
        KeyBinding { keys: "cmd-i", action: Action::ToggleItalic, scope: Scope::Editor },
        KeyBinding { keys: "cmd-e", action: Action::ToggleCode, scope: Scope::Editor },
        KeyBinding { keys: "cmd-shift-x", action: Action::ToggleStrike, scope: Scope::Editor },
        KeyBinding { keys: "cmd-shift-h", action: Action::ToggleHighlight, scope: Scope::Editor },
        KeyBinding { keys: "cmd-=", action: Action::IncreaseTextSize, scope: Scope::Editor },
        KeyBinding { keys: "cmd-+", action: Action::IncreaseTextSize, scope: Scope::Editor },
        KeyBinding { keys: "cmd-shift-=", action: Action::IncreaseTextSize, scope: Scope::Editor },
        KeyBinding { keys: "cmd--", action: Action::DecreaseTextSize, scope: Scope::Editor },
        KeyBinding { keys: "cmd-0", action: Action::ResetTextSize, scope: Scope::Editor },
        KeyBinding { keys: "cmd-left", action: Action::Home, scope: Scope::Editor },
        KeyBinding { keys: "cmd-right", action: Action::End, scope: Scope::Editor },
        KeyBinding { keys: "cmd-up", action: Action::DocumentStart, scope: Scope::Editor },
        KeyBinding { keys: "cmd-down", action: Action::DocumentEnd, scope: Scope::Editor },
        KeyBinding { keys: "cmd-shift-left", action: Action::SelectHome, scope: Scope::Editor },
        KeyBinding { keys: "cmd-shift-right", action: Action::SelectEnd, scope: Scope::Editor },
        KeyBinding { keys: "cmd-shift-up", action: Action::SelectDocumentStart, scope: Scope::Editor },
        KeyBinding { keys: "cmd-shift-down", action: Action::SelectDocumentEnd, scope: Scope::Editor },
        KeyBinding { keys: "alt-left", action: Action::WordLeft, scope: Scope::Editor },
        KeyBinding { keys: "alt-right", action: Action::WordRight, scope: Scope::Editor },
        KeyBinding { keys: "alt-shift-left", action: Action::SelectWordLeft, scope: Scope::Editor },
        KeyBinding { keys: "alt-shift-right", action: Action::SelectWordRight, scope: Scope::Editor },
        KeyBinding { keys: "ctrl-a", action: Action::Home, scope: Scope::Editor },
        KeyBinding { keys: "ctrl-e", action: Action::End, scope: Scope::Editor },
        KeyBinding { keys: "ctrl-b", action: Action::Left, scope: Scope::Editor },
        KeyBinding { keys: "ctrl-f", action: Action::Right, scope: Scope::Editor },
        KeyBinding { keys: "ctrl-n", action: Action::Down, scope: Scope::Editor },
        KeyBinding { keys: "ctrl-p", action: Action::Up, scope: Scope::Editor },
        KeyBinding { keys: "ctrl-h", action: Action::Backspace, scope: Scope::Editor },
        KeyBinding { keys: "ctrl-d", action: Action::Delete, scope: Scope::Editor },
        KeyBinding { keys: "ctrl-k", action: Action::KillLine, scope: Scope::Editor },
        KeyBinding { keys: "alt-backspace", action: Action::DeleteWordLeft, scope: Scope::Editor },
        KeyBinding { keys: "alt-delete", action: Action::DeleteWordRight, scope: Scope::Editor },
        KeyBinding { keys: "cmd-backspace", action: Action::DeleteToHome, scope: Scope::Editor },
    ]
}

/// The chords of the rest, where ctrl is a word and there is no line modifier.
pub open spec fn elsewhere() -> Seq<KeyBinding> {
    seq![
        KeyBinding { keys: "ctrl-a", action: Action::SelectAll, scope: Scope::Editor },
        KeyBinding { keys: "ctrl-c", action: Action::Copy, scope: Scope::Editor },
        KeyBinding { keys: "ctrl-x", action: Action::Cut, scope: Scope::Editor },
        KeyBinding { keys: "ctrl-v", action: Action::Paste, scope: Scope::Editor },
        KeyBinding { keys: "ctrl-z", action: Action::Undo, scope: Scope::Editor },
        KeyBinding { keys: "ctrl-shift-z", action: Action::Redo, scope: Scope::Editor },
        KeyBinding { keys: "ctrl-y", action: Action::Redo, scope: Scope::Editor },
        KeyBinding { keys: "ctrl-b", action: Action::ToggleBold, scope: Scope::Editor },
        KeyBinding { keys: "ctrl-i", action: Action::ToggleItalic, scope: Scope::Editor },
        KeyBinding { keys: "ctrl-e", action: Action::ToggleCode, scope: Scope::Editor },
        KeyBinding { keys: "ctrl-shift-x", action: Action::ToggleStrike, scope: Scope::Editor },
        KeyBinding { keys: "ctrl-shift-h", action: Action::ToggleHighlight, scope: Scope::Editor },
        KeyBinding { keys: "ctrl-=", action: Action::IncreaseTextSize, scope: Scope::Editor },
        KeyBinding { keys: "ctrl-+", action: Action::IncreaseTextSize, scope: Scope::Editor },
        KeyBinding { keys: "ctrl-shift-=", action: Action::IncreaseTextSize, scope: Scope::Editor },
        KeyBinding { keys: "ctrl--", action: Action::DecreaseTextSize, scope: Scope::Editor },
        KeyBinding { keys: "ctrl-0", action: Action::ResetTextSize, scope: Scope::Editor },
        KeyBinding { keys: "ctrl-left", action: Action::WordLeft, scope: Scope::Editor },
        KeyBinding { keys: "ctrl-right", action: Action::WordRight, scope: Scope::Editor },
        KeyBinding { keys: "ctrl-shift-left", action: Action::SelectWordLeft, scope: Scope::Editor },
        KeyBinding { keys: "ctrl-shift-right", action: Action::SelectWordRight, scope: Scope::Editor },
        KeyBinding { keys: "ctrl-home", action: Action::DocumentStart, scope: Scope::Editor },
        KeyBinding { keys: "ctrl-end", action: Action::DocumentEnd, scope: Scope::Editor },
        KeyBinding { keys: "ctrl-shift-home", action: Action::SelectDocumentStart, scope: Scope::Editor },
        KeyBinding { keys: "ctrl-shift-end", action: Action::SelectDocumentEnd, scope: Scope::Editor },
        KeyBinding { keys: "ctrl-backspace", action: Action::DeleteWordLeft, scope: Scope::Editor },
        KeyBinding { keys: "ctrl-delete", action: Action::DeleteWordRight, scope: Scope::Editor },
    ]
}

fn shared_bindings() -> (bindings: Vec<KeyBinding>)
    ensures
        bindings@ == shared(),
{
    let bindings: Vec<KeyBinding> = vec![
        KeyBinding { keys: "backspace", action: Action::Backspace, scope: Scope::Editor },
        KeyBinding { keys: "delete", action: Action::Delete, scope: Scope::Editor },
        KeyBinding { keys: "left", action: Action::Left, scope: Scope::Editor },
        KeyBinding { keys: "right", action: Action::Right, scope: Scope::Editor },
        KeyBinding { keys: "up", action: Action::Up, scope: Scope::Editor },
        KeyBinding { keys: "down", action: Action::Down, scope: Scope::Editor },
        KeyBinding { keys: "home", action: Action::Home, scope: Scope::Editor },
        KeyBinding { keys: "end", action: Action::End, scope: Scope::Editor },
        KeyBinding { keys: "shift-left", action: Action::SelectLeft, scope: Scope::Editor },
        KeyBinding { keys: "shift-right", action: Action::SelectRight, scope: Scope::Editor },
        KeyBinding { keys: "shift-up", action: Action::SelectUp, scope: Scope::Editor },
        KeyBinding { keys: "shift-down", action: Action::SelectDown, scope: Scope::Editor },
        KeyBinding { keys: "shift-home", action: Action::SelectHome, scope: Scope::Editor },
        KeyBinding { keys: "shift-end", action: Action::SelectEnd, scope: Scope::Editor },
        KeyBinding { keys: "enter", action: Action::SplitBlock, scope: Scope::Editor },
        KeyBinding { keys: "shift-enter", action: Action::SoftBreak, scope: Scope::Editor },
        KeyBinding { keys: "ctrl-enter", action: Action::InsertParagraph, scope: Scope::Editor },
        KeyBinding { keys: "tab", action: Action::Indent, scope: Scope::Editor },
        KeyBinding { keys: "shift-tab", action: Action::Outdent, scope: Scope::Editor },
        KeyBinding { keys: "escape", action: Action::Dismiss, scope: Scope::Editor },
        KeyBinding { keys: "enter", action: Action::ConfirmUrl, scope: Scope::Prompt },
        KeyBinding { keys: "escape", action: Action::CancelUrl, scope: Scope::Prompt },
    ];
    assert(bindings@ =~= shared());
    bindings
}

fn mac_bindings() -> (bindings: Vec<KeyBinding>)
    ensures
        bindings@ == mac(),
{
    let bindings: Vec<KeyBinding> = vec![
        KeyBinding { keys: "cmd-a", action: Action::SelectAll, scope: Scope::Editor },
        KeyBinding { keys: "cmd-c", action: Action::Copy, scope: Scope::Editor },
        KeyBinding { keys: "cmd-x", action: Action::Cut, scope: Scope::Editor },
        KeyBinding { keys: "cmd-v", action: Action::Paste, scope: Scope::Editor },
        KeyBinding { keys: "cmd-z", action: Action::Undo, scope: Scope::Editor },
        KeyBinding { keys: "cmd-shift-z", action: Action::Redo, scope: Scope::Editor },
        KeyBinding { keys: "cmd-b", action: Action::ToggleBold, scope: Scope::Editor },
        KeyBinding { keys: "cmd-i", action: Action::ToggleItalic, scope: Scope::Editor },
        KeyBinding { keys: "cmd-e", action: Action::ToggleCode, scope: Scope::Editor },
        KeyBinding { keys: "cmd-shift-x", action: Action::ToggleStrike, scope: Scope::Editor },
        KeyBinding { keys: "cmd-shift-h", action: Action::ToggleHighlight, scope: Scope::Editor },
        KeyBinding { keys: "cmd-=", action: Action::IncreaseTextSize, scope: Scope::Editor },
        KeyBinding { keys: "cmd-+", action: Action::IncreaseTextSize, scope: Scope::Editor },
        KeyBinding { keys: "cmd-shift-=", action: Action::IncreaseTextSize, scope: Scope::Editor },
        KeyBinding { keys: "cmd--", action: Action::DecreaseTextSize, scope: Scope::Editor },
        KeyBinding { keys: "cmd-0", action: Action::ResetTextSize, scope: Scope::Editor },
        KeyBinding { keys: "cmd-left", action: Action::Home, scope: Scope::Editor },
        KeyBinding { keys: "cmd-right", action: Action::End, scope: Scope::Editor },
        KeyBinding { keys: "cmd-up", action: Action::DocumentStart, scope: Scope::Editor },
        KeyBinding { keys: "cmd-down", action: Action::DocumentEnd, scope: Scope::Editor },
        KeyBinding { keys: "cmd-shift-left", action: Action::SelectHome, scope: Scope::Editor },
        KeyBinding { keys: "cmd-shift-right", action: Action::SelectEnd, scope: Scope::Editor },
        KeyBinding { keys: "cmd-shift-up", action: Action::SelectDocumentStart, scope: Scope::Editor },
        KeyBinding { keys: "cmd-shift-down", action: Action::SelectDocumentEnd, scope: Scope::Editor },
        KeyBinding { keys: "alt-left", action: Action::WordLeft, scope: Scope::Editor },
        KeyBinding { keys: "alt-right", action: Action::WordRight, scope: Scope::Editor },
        KeyBinding { keys: "alt-shift-left", action: Action::SelectWordLeft, scope: Scope::Editor },
        KeyBinding { keys: "alt-shift-right", action: Action::SelectWordRight, scope: Scope::Editor },
        KeyBinding { keys: "ctrl-a", action: Action::Home, scope: Scope::Editor },
        KeyBinding { keys: "ctrl-e", action: Action::End, scope: Scope::Editor },
        KeyBinding { keys: "ctrl-b", action: Action::Left, scope: Scope::Editor },
        KeyBinding { keys: "ctrl-f", action: Action::Right, scope: Scope::Editor },
        KeyBinding { keys: "ctrl-n", action: Action::Down, scope: Scope::Editor },
        KeyBinding { keys: "ctrl-p", action: Action::Up, scope: Scope::Editor },
        KeyBinding { keys: "ctrl-h", action: Action::Backspace, scope: Scope::Editor },
        KeyBinding { keys: "ctrl-d", action: Action::Delete, scope: Scope::Editor },
        KeyBinding { keys: "ctrl-k", action: Action::KillLine, scope: Scope::Editor },
        KeyBinding { keys: "alt-backspace", action: Action::DeleteWordLeft, scope: Scope::Editor },
        KeyBinding { keys: "alt-delete", action: Action::DeleteWordRight, scope: Scope::Editor },
        KeyBinding { keys: "cmd-backspace", action: Action::DeleteToHome, scope: Scope::Editor },
    ];
    assert(bindings@ =~= mac());
    bindings
}

fn elsewhere_bindings() -> (bindings: Vec<KeyBinding>)
    ensures
        bindings@ == elsewhere(),
{
    let bindings: Vec<KeyBinding> = vec![
        KeyBinding { keys: "ctrl-a", action: Action::SelectAll, scope: Scope::Editor },
        KeyBinding { keys: "ctrl-c", action: Action::Copy, scope: Scope::Editor },
        KeyBinding { keys: "ctrl-x", action: Action::Cut, scope: Scope::Editor },
        KeyBinding { keys: "ctrl-v", action: Action::Paste, scope: Scope::Editor },
        KeyBinding { keys: "ctrl-z", action: Action::Undo, scope: Scope::Editor },
        KeyBinding { keys: "ctrl-shift-z", action: Action::Redo, scope: Scope::Editor },
        KeyBinding { keys: "ctrl-y", action: Action::Redo, scope: Scope::Editor },
        KeyBinding { keys: "ctrl-b", action: Action::ToggleBold, scope: Scope::Editor },
        KeyBinding { keys: "ctrl-i", action: Action::ToggleItalic, scope: Scope::Editor },
        KeyBinding { keys: "ctrl-e", action: Action::ToggleCode, scope: Scope::Editor },
        KeyBinding { keys: "ctrl-shift-x", action: Action::ToggleStrike, scope: Scope::Editor },
        KeyBinding { keys: "ctrl-shift-h", action: Action::ToggleHighlight, scope: Scope::Editor },
        KeyBinding { keys: "ctrl-=", action: Action::IncreaseTextSize, scope: Scope::Editor },
        KeyBinding { keys: "ctrl-+", action: Action::IncreaseTextSize, scope: Scope::Editor },
        KeyBinding { keys: "ctrl-shift-=", action: Action::IncreaseTextSize, scope: Scope::Editor },
        KeyBinding { keys: "ctrl--", action: Action::DecreaseTextSize, scope: Scope::Editor },
        KeyBinding { keys: "ctrl-0", action: Action::ResetTextSize, scope: Scope::Editor },
        KeyBinding { keys: "ctrl-left", action: Action::WordLeft, scope: Scope::Editor },
        KeyBinding { keys: "ctrl-right", action: Action::WordRight, scope: Scope::Editor },
        KeyBinding { keys: "ctrl-shift-left", action: Action::SelectWordLeft, scope: Scope::Editor },
        KeyBinding { keys: "ctrl-shift-right", action: Action::SelectWordRight, scope: Scope::Editor },
        KeyBinding { keys: "ctrl-home", action: Action::DocumentStart, scope: Scope::Editor },
        KeyBinding { keys: "ctrl-end", action: Action::DocumentEnd, scope: Scope::Editor },
        KeyBinding { keys: "ctrl-shift-home", action: Action::SelectDocumentStart, scope: Scope::Editor },
        KeyBinding { keys: "ctrl-shift-end", action: Action::SelectDocumentEnd, scope: Scope::Editor },
        KeyBinding { keys: "ctrl-backspace", action: Action::DeleteWordLeft, scope: Scope::Editor },
        KeyBinding { keys: "ctrl-delete", action: Action::DeleteWordRight, scope: Scope::Editor },
    ];
    assert(bindings@ =~= elsewhere());
    bindings
}

/// The editor's default keymap, as data, so an app can have it without having
/// to take it. Scoped to the editor's own key context, so binding `tab` here
/// does not make `tab` mean "indent" for the whole app. `on_mac` is whether the
/// platform is macOS.
///
/// `MoveBlockUp`, `MoveBlockDown`, `DuplicateBlock` and `RemoveBlock` are
/// deliberately unbound: every chord that fits is already taken by something
/// standard, and shadowing one of those in a text surface is worse than
/// reaching the block menu for it. They are actions so an app can bind what
/// suits its own keymap.
pub fn bindings(on_mac: bool) -> (bindings: Vec<KeyBinding>)
    ensures
        bindings@ == shared() + (if on_mac {
            mac()
        } else {
            elsewhere()
        }),
{
    let mut bindings = shared_bindings();
    let mut more = if on_mac {
        mac_bindings()
    } else {
        elsewhere_bindings()
    };
    bindings.append(&mut more);
    bindings
}

/// Whether an action is one an app binds for itself.
pub open spec fn left_to_the_app(action: Action) -> bool {
    ||| action == Action::MoveBlockUp
    ||| action == Action::MoveBlockDown
    ||| action == Action::DuplicateBlock
    ||| action == Action::RemoveBlock
}

/// No chord moves, copies or removes a whole block.
pub proof fn block_operations_are_unbound(on_mac: bool, i: int)
    requires
        0 <= i < (shared() + (if on_mac {
            mac()
        } else {
            elsewhere()
        })).len(),
    ensures
        !left_to_the_app((shared() + (if on_mac {
            mac()
        } else {
            elsewhere()
        }))[i].action),
{
}

} // verus!
