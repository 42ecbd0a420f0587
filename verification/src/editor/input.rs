//! The platform's text input handler. Offsets are within the caret's text,
//! which is the unit the platform is told about — a block is a paragraph's
//! worth of text, so a candidate window never has to be anchored across one.

use vstd::prelude::*;

use crate::editor::surface;
use crate::editor::surface::Editor;
use crate::markdown::doc::{Cursor, Doc, Selection, Span};
use crate::markdown::layout::PaintedAt;
use crate::markdown::selectable;
use crate::markdown::selectable::slice;
use crate::text::string_of;

verus! {

/// What the platform is told is selected.
#[derive(Clone, Copy, Debug, PartialEq, Eq, Structural)]
pub struct InputSelection {
    pub range: Span,
    /// Whether the moving end is the earlier one.
    pub reversed: bool,
}

/// What typed text does.
#[derive(Clone, Copy, Debug, PartialEq, Eq, Structural)]
pub enum Typing {
    /// A whole URL arriving in one insert is a paste whatever delivered it:
    /// one typed by hand arrives a character at a time, and none of those
    /// characters is a URL.
    Paste,
    /// It goes in the place of the selection.
    Insert,
}

impl Editor {
    /// Whether the caret is in a text.
    pub open spec fn in_text(&self) -> bool {
        self.selection.head.block < self.doc.blocks@.len()
            && self.doc.blocks@[self.selection.head.block as int].text_in(
            self.selection.head.part,
        ) is Some
    }

    /// Some bytes of the caret's text, where those are whole characters of it.
    pub fn text_for_range(&self, range: Span) -> (text: Option<String>)
        ensures
            match text {
                Some(text) => selectable::slice_of(self.doc, self.selection.head, range) == Some(
                    text@,
                ),
                None => selectable::slice_of(self.doc, self.selection.head, range) is None,
            },
    {
        match slice(&self.doc, self.selection.head, range) {
            Some(chars) => Some(string_of(&chars)),
            None => None,
        }
    }

    /// The selection, as the platform is told of it. It is told about one text
    /// at a time, so a selection that leaves the caret's own is reported
    /// collapsed — there are no coordinates here in which to express it.
    pub fn selected_text_range(&self) -> (selected: Option<InputSelection>)
        ensures
            ({
                let (start, end) = self.selection.ends();
                let one = start.block == end.block && start.part == end.part;
                let head = self.selection.head;
                selected == (if self.in_text() {
                    Some(
                        InputSelection {
                            range: if one {
                                Span { start: start.offset, end: end.offset }
                            } else {
                                Span { start: head.offset, end: head.offset }
                            },
                            reversed: one && head == start,
                        },
                    )
                } else {
                    None
                })
            }),
    {
        if self.caret_text().is_none() {
            return None;
        }
        let (start, end) = self.selection.ordered();
        let one = start.block == end.block && start.part == end.part;
        let head = self.selection.head;
        Some(
            InputSelection {
                range: if one {
                    Span { start: start.offset, end: end.offset }
                } else {
                    Span { start: head.offset, end: head.offset }
                },
                reversed: one && head == start,
            },
        )
    }

    /// The bytes of the caret's text that are being composed.
    pub fn marked_text_range(&self) -> (range: Option<Span>)
        ensures
            range == (if self.in_text() {
                self.marked
            } else {
                None
            }),
    {
        if self.caret_text().is_some() {
            self.marked
        } else {
            None
        }
    }

    pub fn unmark_text(&mut self)
        requires
            old(self).wf(),
        ensures
            final(self).wf(),
            *final(self) == (Editor { marked: None, ..*old(self) }),
    {
        self.marked = None;
    }

    /// The bytes of the caret's text that the platform replaces: the range it
    /// gave, where there is a text for it to be of, and otherwise what is being
    /// composed.
    pub open spec fn replaced(&self, range: Option<Span>) -> Option<Span> {
        if range is Some && self.in_text() {
            range
        } else {
            self.marked
        }
    }

    /// The bytes of the caret's text that the platform replaces.
    fn replaced_by(&self, range: Option<Span>) -> (replaced: Option<Span>)
        ensures
            replaced == self.replaced(range),
    {
        if range.is_some() && self.caret_text().is_some() {
            range
        } else {
            self.marked
        }
    }

    /// Text the platform typed in place of `range` of the caret's text, `url`
    /// being whether it is a URL. The platform's range is within the caret's
    /// own text, so it becomes a selection there and inserting does the rest.
    pub fn replace_text_in_range(&mut self, range: Option<Span>, url: bool) -> (typing: Typing)
        requires
            old(self).wf(),
        ensures
            final(self).wf(),
            typing == (if range is None && old(self).marked is None && url {
                Typing::Paste
            } else {
                Typing::Insert
            }),
            typing == Typing::Paste ==> *final(self) == *old(self),
            typing == Typing::Insert ==> *final(self) == (Editor {
                marked: None,
                selection: match old(self).replaced(range) {
                    Some(range) => Selection {
                        anchor: Cursor { offset: range.start, ..old(self).selection.head },
                        head: Cursor { offset: range.end, ..old(self).selection.head },
                    },
                    None => old(self).selection,
                },
                ..*old(self)
            }),
    {
        if range.is_none() && self.marked.is_none() && url {
            return Typing::Paste;
        }
        if let Some(range) = self.replaced_by(range) {
            let at = self.selection.head;
            self.selection =
            Selection::new(
                Cursor { offset: range.start, ..at },
                Cursor { offset: range.end, ..at },
            );
        }
        self.marked = None;
        Typing::Insert
    }

    /// Where text being composed goes: the start of what it takes the place
    /// of, and otherwise the caret.
    pub open spec fn composes_at(&self, range: Option<Span>) -> usize {
        match self.replaced(range) {
            Some(range) => range.start,
            None => self.selection.head.offset,
        }
    }

    /// Where text being composed goes.
    pub fn composition_start(&self, range: Option<Span>) -> (start: usize)
        ensures
            start == self.composes_at(range),
    {
        match self.replaced_by(range) {
            Some(range) => range.start,
            None => self.selection.head.offset,
        }
    }

    /// Text of `len` bytes is being composed in place of `range` of the caret's
    /// text: `doc` is the document with it there, and `selected` the bytes
    /// selected in it. Composition runs outside the typed path: a half-typed
    /// candidate is not a markdown prefix, and turning it into one would pull
    /// the text out from under the input method.
    pub fn replace_and_mark_text_in_range(
        &mut self,
        range: Option<Span>,
        len: usize,
        doc: Doc,
        selected: Span,
    )
        requires
            old(self).wf(),
            surface::lives(doc, old(self).mode),
            old(self).composes_at(range) + len <= usize::MAX,
        ensures
            final(self).wf(),
            *final(self) == (Editor {
                doc,
                marked: if len > 0 {
                    Some(
                        Span {
                            start: old(self).composes_at(range),
                            end: (old(self).composes_at(range) + len) as usize,
                        },
                    )
                } else {
                    None
                },
                selection: Selection {
                    anchor: Cursor { offset: selected.start, ..old(self).selection.head },
                    head: Cursor { offset: selected.end, ..old(self).selection.head },
                },
                reveal: true,
                blinking: false,
                ..*old(self)
            }),
    {
        let at = self.selection.head;
        let start = self.composition_start(range);
        self.doc = doc;
        self.marked =
        if len > 0 {
            Some(Span { start, end: start + len })
        } else {
            None
        };
        self.selection =
        Selection::new(
            Cursor { offset: selected.start, ..at },
            Cursor { offset: selected.end, ..at },
        );
        self.reveal = true;
        self.caret_moved();
    }

    /// Where some bytes of the caret's text painted, so a candidate window
    /// opens under the text it is composing: their start, and their end where
    /// that painted too.
    pub fn bounds_for_range(&self, range: Span) -> (places: Option<(PaintedAt, Option<PaintedAt>)>)
        ensures
            ({
                let at = self.selection.head;
                let start = self.layouts@.painted_at(Cursor { offset: range.start, ..at }, 0);
                let end = self.layouts@.painted_at(Cursor { offset: range.end, ..at }, 0);
                places == (if self.in_text() && start is Some {
                    Some((start->0, end))
                } else {
                    None
                })
            }),
    {
        if self.caret_text().is_none() {
            return None;
        }
        let at = self.selection.head;
        match self.layouts.position(Cursor { offset: range.start, ..at }) {
            Some(start) => Some(
                (start, self.layouts.position(Cursor { offset: range.end, ..at })),
            ),
            None => None,
        }
    }

    /// The byte of the caret's text under a point, `hit` being the position
    /// there: none where it is in another text.
    pub fn character_index_for_point(&self, hit: Option<Cursor>) -> (at: Option<usize>)
        ensures
            at == (match hit {
                Some(hit) => if self.in_text() && hit.block == self.selection.head.block
                    && hit.part == self.selection.head.part {
                    Some(hit.offset)
                } else {
                    None
                },
                None => None,
            }),
    {
        if self.caret_text().is_none() {
            return None;
        }
        match hit {
            Some(hit) => if hit.block == self.selection.head.block && hit.part
                == self.selection.head.part {
                Some(hit.offset)
            } else {
                None
            },
            None => None,
        }
    }
}

} // verus!
