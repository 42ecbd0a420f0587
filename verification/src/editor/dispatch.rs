//! What each action does, and what the pointer's motion changes.

use vstd::prelude::*;

use crate::editor::anchor::{AnchorId, Delta};
use crate::editor::history::{EditKind, Mode};
use crate::editor::keys::Action;
use crate::editor::surface::{ensure_block, Editor, Pointing};
use crate::editor::typing;
use crate::markdown::doc::{Cursor, Doc, Mark, Part, Selection, Span};
use crate::markdown::marks::{EntryView, Marks};
use crate::markdown::model::{BlockView, MarkView};

verus! {

/// Where a motion goes.
#[derive(Clone, Copy, Debug, PartialEq, Eq, Structural)]
pub enum Motion {
    Left,
    Right,
    Up,
    Down,
    /// The start of the painted row.
    Home,
    /// The end of the painted row.
    End,
    WordLeft,
    WordRight,
    DocumentStart,
    DocumentEnd,
}

/// Where a kill reaches.
#[derive(Clone, Copy, Debug, PartialEq, Eq, Structural)]
pub enum Reach {
    LineEnd,
    LineStart,
    WordLeft,
    WordRight,
}

/// The marks a chord toggles.
#[derive(Clone, Copy, Debug, PartialEq, Eq, Structural)]
pub enum MarkChord {
    Bold,
    Italic,
    Strike,
    Code,
    Highlight,
}

/// The name the highlight an app registers goes by.
pub const HIGHLIGHT_MARK: &'static str = "highlight";

impl MarkChord {
    /// What a chord toggles where the marks `marks` are registered.
    pub open spec fn toggles(self, marks: Seq<EntryView>) -> Option<MarkView> {
        match self {
            MarkChord::Bold => Some(MarkView::Bold),
            MarkChord::Italic => Some(MarkView::Italic),
            MarkChord::Strike => Some(MarkView::Strike),
            MarkChord::Code => Some(MarkView::Code),
            MarkChord::Highlight => if exists|i: int|
                0 <= i < marks.len() && (#[trigger] marks[i]).name == HIGHLIGHT_MARK@ {
                Some(MarkView::Custom(HIGHLIGHT_MARK@))
            } else {
                None
            },
        }
    }

    /// The mark a chord toggles. A highlight is the app's to register, and
    /// nothing answers its chord until one is.
    pub fn mark(self, marks: &Marks) -> (mark: Option<Mark>)
        ensures
            mark is Some <==> self.toggles(marks@) is Some,
            mark matches Some(mark) ==> mark@ == self.toggles(marks@)->0,
    {
        match self {
            MarkChord::Bold => Some(Mark::Bold),
            MarkChord::Italic => Some(Mark::Italic),
            MarkChord::Strike => Some(Mark::Strike),
            MarkChord::Code => Some(Mark::Code),
            MarkChord::Highlight => if marks.delimiter(HIGHLIGHT_MARK).is_some() {
                Some(Mark::Custom(HIGHLIGHT_MARK.to_owned()))
            } else {
                None
            },
        }
    }
}

/// What an action does.
#[derive(Clone, Copy, Debug, PartialEq, Eq, Structural)]
pub enum Command {
    DeleteBack,
    DeleteForward,
    Kill { forward: bool, to: Reach },
    Move { motion: Motion, extend: bool },
    SelectAll,
    Split,
    SoftBreak,
    InsertParagraph,
    Indent,
    Outdent,
    Dismiss,
    Copy,
    Cut,
    Paste,
    Undo,
    Redo,
    Mark(MarkChord),
    /// Move the caret's block up or down.
    MoveBlock { down: bool },
    DuplicateBlock,
    RemoveBlock,
    ConfirmUrl,
    CancelUrl,
    /// A step in the size text is set at: up, down, or back to the app's own.
    GrowText,
    ShrinkText,
    ResetText,
}

/// What an action does. Every motion goes with its selecting twin, and a kill
/// with the motion it reaches by, so that two chords cannot disagree.
pub open spec fn meaning(action: Action) -> Command {
    match action {
        Action::Backspace => Command::DeleteBack,
        Action::Delete => Command::DeleteForward,
        Action::KillLine => Command::Kill { forward: true, to: Reach::LineEnd },
        Action::DeleteWordLeft => Command::Kill { forward: false, to: Reach::WordLeft },
        Action::DeleteWordRight => Command::Kill { forward: true, to: Reach::WordRight },
        Action::DeleteToHome => Command::Kill { forward: false, to: Reach::LineStart },
        Action::Left => Command::Move { motion: Motion::Left, extend: false },
        Action::Right => Command::Move { motion: Motion::Right, extend: false },
        Action::Up => Command::Move { motion: Motion::Up, extend: false },
        Action::Down => Command::Move { motion: Motion::Down, extend: false },
        Action::Home => Command::Move { motion: Motion::Home, extend: false },
        Action::End => Command::Move { motion: Motion::End, extend: false },
        Action::DocumentStart => Command::Move { motion: Motion::DocumentStart, extend: false },
        Action::DocumentEnd => Command::Move { motion: Motion::DocumentEnd, extend: false },
        Action::WordLeft => Command::Move { motion: Motion::WordLeft, extend: false },
        Action::WordRight => Command::Move { motion: Motion::WordRight, extend: false },
        Action::SelectLeft => Command::Move { motion: Motion::Left, extend: true },
        Action::SelectRight => Command::Move { motion: Motion::Right, extend: true },
        Action::SelectUp => Command::Move { motion: Motion::Up, extend: true },
        Action::SelectDown => Command::Move { motion: Motion::Down, extend: true },
        Action::SelectHome => Command::Move { motion: Motion::Home, extend: true },
        Action::SelectEnd => Command::Move { motion: Motion::End, extend: true },
        Action::SelectDocumentStart => Command::Move {
            motion: Motion::DocumentStart,
            extend: true,
        },
        Action::SelectDocumentEnd => Command::Move { motion: Motion::DocumentEnd, extend: true },
        Action::SelectWordLeft => Command::Move { motion: Motion::WordLeft, extend: true },
        Action::SelectWordRight => Command::Move { motion: Motion::WordRight, extend: true },
        Action::SelectAll => Command::SelectAll,
        Action::SplitBlock => Command::Split,
        Action::SoftBreak => Command::SoftBreak,
        Action::InsertParagraph => Command::InsertParagraph,
        Action::Indent => Command::Indent,
        Action::Outdent => Command::Outdent,
        Action::Dismiss => Command::Dismiss,
        Action::Copy => Command::Copy,
        Action::Cut => Command::Cut,
        Action::Paste => Command::Paste,
        Action::Undo => Command::Undo,
        Action::Redo => Command::Redo,
        Action::ToggleBold => Command::Mark(MarkChord::Bold),
        Action::ToggleItalic => Command::Mark(MarkChord::Italic),
        Action::ToggleStrike => Command::Mark(MarkChord::Strike),
        Action::ToggleCode => Command::Mark(MarkChord::Code),
        Action::ToggleHighlight => Command::Mark(MarkChord::Highlight),
        Action::MoveBlockUp => Command::MoveBlock { down: false },
        Action::MoveBlockDown => Command::MoveBlock { down: true },
        Action::DuplicateBlock => Command::DuplicateBlock,
        Action::RemoveBlock => Command::RemoveBlock,
        Action::ConfirmUrl => Command::ConfirmUrl,
        Action::CancelUrl => Command::CancelUrl,
        Action::IncreaseTextSize => Command::GrowText,
        Action::DecreaseTextSize => Command::ShrinkText,
        Action::ResetTextSize => Command::ResetText,
    }
}

fn step(motion: Motion, extend: bool) -> (command: Command)
    ensures
        command == (Command::Move { motion, extend }),
{
    Command::Move { motion, extend }
}

/// What an action does.
pub fn command(action: Action) -> (command: Command)
    ensures
        command == meaning(action),
{
    match action {
        Action::Backspace => Command::DeleteBack,
        Action::Delete => Command::DeleteForward,
        Action::KillLine => Command::Kill { forward: true, to: Reach::LineEnd },
        Action::DeleteWordLeft => Command::Kill { forward: false, to: Reach::WordLeft },
        Action::DeleteWordRight => Command::Kill { forward: true, to: Reach::WordRight },
        Action::DeleteToHome => Command::Kill { forward: false, to: Reach::LineStart },
        Action::Left => step(Motion::Left, false),
        Action::Right => step(Motion::Right, false),
        Action::Up => step(Motion::Up, false),
        Action::Down => step(Motion::Down, false),
        Action::Home => step(Motion::Home, false),
        Action::End => step(Motion::End, false),
        Action::DocumentStart => step(Motion::DocumentStart, false),
        Action::DocumentEnd => step(Motion::DocumentEnd, false),
        Action::WordLeft => step(Motion::WordLeft, false),
        Action::WordRight => step(Motion::WordRight, false),
        Action::SelectLeft => step(Motion::Left, true),
        Action::SelectRight => step(Motion::Right, true),
        Action::SelectUp => step(Motion::Up, true),
        Action::SelectDown => step(Motion::Down, true),
        Action::SelectHome => step(Motion::Home, true),
        Action::SelectEnd => step(Motion::End, true),
        Action::SelectDocumentStart => step(Motion::DocumentStart, true),
        Action::SelectDocumentEnd => step(Motion::DocumentEnd, true),
        Action::SelectWordLeft => step(Motion::WordLeft, true),
        Action::SelectWordRight => step(Motion::WordRight, true),
        Action::SelectAll => Command::SelectAll,
        Action::SplitBlock => Command::Split,
        Action::SoftBreak => Command::SoftBreak,
        Action::InsertParagraph => Command::InsertParagraph,
        Action::Indent => Command::Indent,
        Action::Outdent => Command::Outdent,
        Action::Dismiss => Command::Dismiss,
        Action::Copy => Command::Copy,
        Action::Cut => Command::Cut,
        Action::Paste => Command::Paste,
        Action::Undo => Command::Undo,
        Action::Redo => Command::Redo,
        Action::ToggleBold => Command::Mark(MarkChord::Bold),
        Action::ToggleItalic => Command::Mark(MarkChord::Italic),
        Action::ToggleStrike => Command::Mark(MarkChord::Strike),
        Action::ToggleCode => Command::Mark(MarkChord::Code),
        Action::ToggleHighlight => Command::Mark(MarkChord::Highlight),
        Action::MoveBlockUp => Command::MoveBlock { down: false },
        Action::MoveBlockDown => Command::MoveBlock { down: true },
        Action::DuplicateBlock => Command::DuplicateBlock,
        Action::RemoveBlock => Command::RemoveBlock,
        Action::ConfirmUrl => Command::ConfirmUrl,
        Action::CancelUrl => Command::CancelUrl,
        Action::IncreaseTextSize => Command::GrowText,
        Action::DecreaseTextSize => Command::ShrinkText,
        Action::ResetTextSize => Command::ResetText,
    }
}

/// What a paste takes off the clipboard.
#[derive(Clone, Copy, Debug, PartialEq, Eq, Structural)]
pub enum Pasting {
    Nothing,
    /// The text as it stands, into a fence. The source is one.
    Literal,
    /// A picture, which was placed.
    Picture,
    /// A URL, which links or lands as a link.
    Url,
    /// Markdown, which arrives as inline text or as blocks.
    Markdown,
}

/// What tab does.
#[derive(Clone, Copy, Debug, PartialEq, Eq, Structural)]
pub enum Tab {
    /// The caret's block goes in a level.
    Indent,
    /// The caret's block comes out a level.
    Outdent,
    /// Two spaces: in the source there is one block to indent, and indenting it
    /// would be invisible.
    Spaces,
    /// So many of the spaces before the caret are taken back.
    TakeBack(usize),
}

/// Whether a block let go of has gone far enough: `down` is which way it went
/// from where it was lifted, `at` where it is and `to` where it was dropped.
pub fn dropped(down: bool, at: usize, to: usize) -> (done: bool)
    ensures
        done == (if down {
            at >= to
        } else {
            at <= to
        }),
{
    if down {
        at >= to
    } else {
        at <= to
    }
}

/// A lifted block on its way to where it is dropped. It goes one sibling at a
/// time, so a drop several blocks away is that many steps, and each is a move
/// of its own: they are mapped through in the order they were made.
pub struct Carried {
    pub down: bool,
    /// Where it is dropped.
    pub to: usize,
    /// Where it is.
    pub at: usize,
    pub deltas: Vec<Delta>,
}

impl Carried {
    pub fn new(from: usize, to: usize) -> (carried: Carried)
        ensures
            carried.down == (to > from),
            carried.to == to,
            carried.at == from,
            carried.deltas@ == Seq::<Delta>::empty(),
    {
        Carried { down: to > from, to, at: from, deltas: Vec::new() }
    }

    /// One step: the blocks `span` arrived at `next`. Says whether it has gone
    /// far enough.
    pub fn step(&mut self, span: Span, next: usize) -> (done: bool)
        ensures
            done == (if old(self).down {
                next >= old(self).to
            } else {
                next <= old(self).to
            }),
            final(self).at == next,
            final(self).deltas@ == old(self).deltas@.push(
                Delta::Moved { at: span, to: Some(next) },
            ),
            final(self).down == old(self).down && final(self).to == old(self).to,
    {
        self.deltas.push(Delta::Moved { at: span, to: Some(next) });
        self.at = next;
        dropped(self.down, next, self.to)
    }
}

impl Editor {
    /// A lifted block let go of: `doc` is the document it was carried through,
    /// and the caret goes to it.
    pub fn drop_block(&mut self, carried: Carried, doc: Doc)
        requires
            old(self).wf(),
            old(self).takes(doc, carried.deltas@),
        ensures
            final(self).wf(),
            Self::edited(
                *old(self),
                EditKind::Structure,
                doc,
                typing::held_at(doc, Cursor { block: carried.at, part: Part::Body, offset: 0 }),
                carried.deltas@,
                *final(self),
            ),
    {
        let Carried { at, deltas, .. } = carried;
        self.land(EditKind::Structure, doc, Cursor::new(at, Part::Body, 0), deltas);
    }

    /// The button let go of away from the editor: a drag of the selection ends,
    /// and so does a resize, which would otherwise leave its stand-in painted
    /// over the document. `full` is the width of the column the image is in.
    pub fn release_outside(&mut self, full: Option<u32>) -> (resized: bool)
        requires
            old(self).wf(),
        ensures
            final(self).wf(),
            Self::resize_dropped(
                Editor {
                    pointing: Pointing { dragging: false, ..old(self).pointing },
                    ..*old(self)
                },
                full,
                resized,
                *final(self),
            ),
    {
        self.pointing.dragging = false;
        self.drop_resize(full)
    }

    /// What a paste takes off the clipboard, `text` being whether it carries
    /// any, `url` whether that is a URL, and `placed` whether a picture on it
    /// was placed. A picture goes before its text, because a clipboard carrying
    /// both is carrying a name for the picture — which is not the picture.
    pub fn paste(&self, text: bool, url: bool, placed: bool) -> (pasting: Pasting)
        ensures
            pasting == (if Self::fenced(self.selection) {
                if text {
                    Pasting::Literal
                } else {
                    Pasting::Nothing
                }
            } else if placed {
                Pasting::Picture
            } else if !text {
                Pasting::Nothing
            } else if url {
                Pasting::Url
            } else {
                Pasting::Markdown
            }),
    {
        if self.in_fence() {
            if text {
                Pasting::Literal
            } else {
                Pasting::Nothing
            }
        } else if placed {
            Pasting::Picture
        } else if !text {
            Pasting::Nothing
        } else if url {
            Pasting::Url
        } else {
            Pasting::Markdown
        }
    }

    /// What tab does, or shift-tab where `out`.
    pub fn tab(&self, out: bool) -> (tab: Tab)
        requires
            self.wf(),
        ensures
            self.mode == Mode::Blocks && !out ==> tab == Tab::Indent,
            self.mode == Mode::Blocks && out ==> tab == Tab::Outdent,
            self.mode == Mode::Source && !out ==> tab == Tab::Spaces,
            self.mode == Mode::Source && out ==> (tab matches Tab::TakeBack(width)
                && self.outdents(width)),
    {
        if self.blocks() {
            if out {
                Tab::Outdent
            } else {
                Tab::Indent
            }
        } else if out {
            Tab::TakeBack(self.unindent())
        } else {
            Tab::Spaces
        }
    }

    /// Select everything, `all` being the whole document.
    pub fn select_all(&mut self, all: Selection)
        requires
            old(self).wf(),
        ensures
            final(self).wf(),
            final(self).history@ == old(self).history@.interrupted(),
            *final(self) == (Editor {
                selection: all,
                history: final(self).history,
                blinking: false,
                ..*old(self)
            }),
    {
        self.selection = all;
        self.history.interrupt();
        self.caret_moved();
    }

    /// The document read again, in a dialect of its own: `doc` is what its
    /// source reads as there.
    pub fn with_marks(self, doc: Doc) -> (editor: Editor)
        requires
            self.wf(),
            self.mode == Mode::Blocks,
            doc.fits(),
        ensures
            editor.wf(),
            doc.blocks@.len() > 0 ==> editor.doc == doc,
            doc.blocks@.len() == 0 ==> editor.doc@ == seq![BlockView::blank()],
            editor == (Editor {
                doc: editor.doc,
                selection: self.selection.held(editor.doc),
                ..self
            }),
    {
        let mut editor = self;
        let mut doc = doc;
        ensure_block(&mut doc);
        editor.selection = editor.selection.clamp(&doc);
        editor.doc = doc;
        editor
    }

    /// Where a comment's range starts, which is where to float its thread.
    pub fn anchor_start(&self, id: AnchorId) -> (at: Option<Cursor>)
        ensures
            match at {
                Some(at) => exists|i: int|
                    0 <= i < self.anchors@.len() && (#[trigger] self.anchors@[i]).id == id
                        && self.anchors@[i].range.ends().0 == at && forall|j: int|
                        0 <= j < i ==> (#[trigger] self.anchors@[j]).id != id,
                None => forall|j: int|
                    0 <= j < self.anchors@.len() ==> (#[trigger] self.anchors@[j]).id != id,
            },
    {
        let mut i: usize = 0;
        while i < self.anchors.len()
            invariant
                i <= self.anchors@.len(),
                forall|j: int| 0 <= j < i ==> (#[trigger] self.anchors@[j]).id != id,
            decreases self.anchors@.len() - i,
        {
            if self.anchors[i].id == id {
                let (start, _) = self.anchors[i].range.ordered();
                assert(self.anchors@[i as int].id == id);
                return Some(start);
            }
            i = i + 1;
        }
        None
    }

    /// The pointer moved over the editor, and whether that changes anything
    /// painted. Its shape is about where it *is*, rather than about what it is
    /// doing; otherwise it only decides which block wears the handle, and not
    /// while a drag is in flight.
    pub fn pointer_moved(&mut self, over_text: bool, over: Option<usize>) -> (changed: bool)
        requires
            old(self).wf(),
        ensures
            final(self).wf(),
            ({
                let was = old(self).pointing;
                let drags = was.dragging || was.lifted is Some || was.resizing is Some;
                let is = Pointing {
                    over_text,
                    hovered: if drags {
                        was.hovered
                    } else {
                        over
                    },
                    ..was
                };
                *final(self) == (Editor { pointing: is, ..*old(self) }) && changed == (is != was)
            }),
    {
        let mut changed = false;
        if over_text != self.pointing.over_text {
            self.pointing.over_text = over_text;
            changed = true;
        }
        if self.in_drag() {
            return changed;
        }
        let same = match (over, self.pointing.hovered) {
            (Some(a), Some(b)) => a == b,
            (None, None) => true,
            _ => false,
        };
        if !same {
            self.pointing.hovered = over;
            changed = true;
        }
        changed
    }

    /// The pointer left the editor: the handle stops pointing at a block it
    /// left behind.
    pub fn pointer_left(&mut self) -> (changed: bool)
        requires
            old(self).wf(),
        ensures
            final(self).wf(),
            changed == (old(self).pointing.hovered is Some),
            *final(self) == (Editor {
                pointing: Pointing { hovered: None, ..old(self).pointing },
                ..*old(self)
            }),
    {
        let changed = self.pointing.hovered.is_some();
        self.pointing.hovered = None;
        changed
    }

    /// A file crosses the document over a block, or over none: a drop from
    /// outside lands where it looks like it will.
    pub fn file_over(&mut self, over: Option<usize>)
        requires
            old(self).wf(),
        ensures
            final(self).wf(),
            *final(self) == (Editor {
                pointing: Pointing { dropping: over, ..old(self).pointing },
                ..*old(self)
            }),
    {
        self.pointing.dropping = over;
    }

    /// Whether a press was claimed by a floating layer, which it is once.
    pub fn take_claim(&mut self) -> (claimed: bool)
        requires
            old(self).wf(),
        ensures
            final(self).wf(),
            claimed == old(self).pointing.press_claimed,
            *final(self) == (Editor {
                pointing: Pointing { press_claimed: false, ..old(self).pointing },
                ..*old(self)
            }),
    {
        let claimed = self.pointing.press_claimed;
        self.pointing.press_claimed = false;
        claimed
    }

    /// Whether the pointer reads as one that places a caret: over text, or
    /// while a drag is still sweeping one out.
    pub fn ibeam(&self) -> (yes: bool)
        ensures
            yes == (self.pointing.over_text || self.pointing.dragging),
    {
        self.pointing.over_text || self.pointing.dragging
    }
}

} // verus!
