//! An insert, step by step: the text put in, and what the text it made then
//! turns into by itself — a block its prefix spells, an alert its first line
//! opens, a mark its delimiters close.

use vstd::prelude::*;

use crate::editor::anchor;
use crate::editor::anchor::{Delta, Splice};
use crate::editor::history::EditKind;
use crate::editor::surface::{Change, Editor, Menus};
use crate::editor::typing;
use crate::editor::typing::{apply_inline_rule, apply_shortcut, promote_quote_marker};
use crate::markdown::doc::{Cursor, Doc, Part, QuoteKind, Selection, Span};

verus! {

/// What an insert has made so far: the document, the caret in it, and what it
/// did to the positions, in the order it was done.
pub struct Insert {
    pub doc: Doc,
    pub at: Cursor,
    pub deltas: Vec<Delta>,
}

impl Insert {
    /// An insert to start from: `splice` is what put the text in, and `doc` the
    /// document it is in.
    pub fn new(doc: Doc, splice: Splice) -> (insert: Insert)
        requires
            doc.fits(),
            doc.blocks@.len() > 0,
        ensures
            insert.doc == doc,
            insert.at == doc.nearest(splice.caret),
            insert.deltas@ == seq![Delta::Spliced(splice)],
    {
        let at = doc.clamp(splice.caret);
        let mut deltas: Vec<Delta> = Vec::new();
        deltas.push(Delta::Spliced(splice));
        assert(deltas@ =~= seq![Delta::Spliced(splice)]);
        Insert { doc, at, deltas }
    }

    /// Whether `after` is `before` one step on: the document is another, the
    /// caret held inside it, and the positions moved once more.
    pub open spec fn stepped(
        before: Insert,
        doc: Doc,
        to: Cursor,
        deltas: Seq<Delta>,
        after: Insert,
    ) -> bool {
        &&& after.doc == doc
        &&& after.at == doc.nearest(to)
        &&& after.deltas@ == before.deltas@ + deltas
    }

    /// The text now starts with a prefix of `len` bytes that spells a block:
    /// `doc` is the document without it, the block turned. The prefix is taken
    /// only where the caret is past it, in a body.
    pub fn shortcut(&mut self, len: usize, doc: Doc) -> (taken: bool)
        requires
            doc.fits(),
            doc.blocks@.len() > 0,
        ensures
            taken == (old(self).at.part == Part::Body && old(self).at.offset >= len),
            !taken ==> *final(self) == *old(self),
            taken ==> Self::stepped(
                *old(self),
                doc,
                Cursor { offset: (old(self).at.offset - len) as usize, ..old(self).at },
                seq![typing::taken_from(old(self).at, Span { start: 0, end: len })],
                *final(self),
            ),
    {
        match apply_shortcut(self.at, len) {
            Some((to, delta)) => {
                self.at = doc.clamp(to);
                self.doc = doc;
                self.deltas.push(delta);
                assert(self.deltas@ =~= old(self).deltas@ + seq![delta]);
                true
            },
            None => false,
        }
    }

    /// What promotes the caret's block into an alert: the kind, and the bytes
    /// that go.
    pub open spec fn promotes(&self) -> Option<(QuoteKind, int)> {
        if self.at.part == Part::Body && self.at.block < self.doc.blocks@.len() {
            typing::promoted(self.doc.blocks@[self.at.block as int].kind)
        } else {
            None
        }
    }

    /// The alert the caret's block is to become, if its first line opens one.
    pub fn opens(&self) -> (kind: Option<QuoteKind>)
        requires
            self.doc.fits(),
        ensures
            kind == (match self.promotes() {
                Some((kind, _)) => Some(kind),
                None => None,
            }),
    {
        match self.promotion() {
            Some((kind, _, _)) => Some(kind),
            None => None,
        }
    }

    fn promotion(&self) -> (made: Option<(QuoteKind, Cursor, Delta)>)
        requires
            self.doc.fits(),
        ensures
            made == (match self.promotes() {
                Some((kind, len)) => Some(
                    (
                        kind,
                        Self::below(self.at, len),
                        typing::taken_from(self.at, Span { start: 0, end: len as usize }),
                    ),
                ),
                None => None,
            }),
    {
        if self.at.block >= self.doc.blocks.len() {
            return None;
        }
        let block = &self.doc.blocks[self.at.block];
        promote_quote_marker(&block.kind, self.at)
    }

    /// A caret once the first `len` bytes of its text are gone.
    pub open spec fn below(at: Cursor, len: int) -> Cursor {
        Cursor {
            offset: if at.offset >= len {
                (at.offset - len) as usize
            } else {
                0
            },
            ..at
        }
    }

    /// The first line of the caret's quote is an alert's marker: `doc` is the
    /// document without that line, the quote an alert. Nothing where the line
    /// is no marker.
    pub fn promote(&mut self, doc: Doc) -> (promoted: bool)
        requires
            old(self).doc.fits(),
            doc.fits(),
            doc.blocks@.len() > 0,
        ensures
            promoted == (old(self).promotes() is Some),
            !promoted ==> *final(self) == *old(self),
            promoted ==> {
                let len = (old(self).promotes()->0).1;
                Self::stepped(
                    *old(self),
                    doc,
                    Self::below(old(self).at, len),
                    seq![typing::taken_from(old(self).at, Span { start: 0, end: len as usize })],
                    *final(self),
                )
            },
    {
        match self.promotion() {
            Some((_, to, delta)) => {
                self.at = doc.clamp(to);
                self.doc = doc;
                self.deltas.push(delta);
                assert(self.deltas@ =~= old(self).deltas@ + seq![delta]);
                true
            },
            None => false,
        }
    }

    /// The delimiter just closed wraps `inner`, and `open` is the one that
    /// opened it: `doc` is the document without the two, what they wrapped
    /// marked. Both go, the closing one first; none does in code or a caption.
    pub fn inline(&mut self, open: Span, inner: Span, doc: Doc) -> (taken: bool)
        requires
            open.start <= open.end,
            2 * (open.end - open.start) <= old(self).at.offset,
            doc.fits(),
            doc.blocks@.len() > 0,
        ensures
            taken == (old(self).at.part != Part::Code && old(self).at.part != Part::Caption),
            !taken ==> *final(self) == *old(self),
            taken ==> Self::stepped(
                *old(self),
                doc,
                Cursor {
                    offset: (old(self).at.offset - 2 * (open.end - open.start)) as usize,
                    ..old(self).at
                },
                seq![
                    typing::taken_from(
                        old(self).at,
                        Span { start: inner.end, end: old(self).at.offset },
                    ),
                    typing::taken_from(old(self).at, open),
                ],
                *final(self),
            ),
    {
        match apply_inline_rule(self.at, open, inner) {
            Some((to, closing, opening)) => {
                self.at = doc.clamp(to);
                self.doc = doc;
                self.deltas.push(closing);
                self.deltas.push(opening);
                assert(self.deltas@ =~= old(self).deltas@ + seq![closing, opening]);
                true
            },
            None => false,
        }
    }
}

impl Editor {
    /// Whether `after` is `before` edited, and the slash menu then opened, kept
    /// or closed by what was typed.
    pub open spec fn edited_by_typing(
        before: Editor,
        kind: EditKind,
        doc: Doc,
        at: Cursor,
        deltas: Seq<Delta>,
        typed: Seq<char>,
        query: bool,
        after: Editor,
    ) -> bool {
        let made = Editor {
            menus: Menus { slash: before.menus.slash, ..after.menus },
            ..after
        };
        &&& Self::edited(
            before,
            kind,
            doc,
            Selection { anchor: at, head: at },
            deltas,
            made,
        )
        &&& after.menus.slash == made.menu_at(typed, query)
    }

    /// Put typed text in: `insert` is all that came of it. The slash menu
    /// follows what was typed, `query` being whether the text between the `/`
    /// and the caret still is one.
    pub fn insert(&mut self, insert: Insert, typed: &str, query: bool)
        requires
            old(self).wf(),
            old(self).takes(insert.doc, insert.deltas@),
        ensures
            final(self).wf(),
            Self::edited_by_typing(
                *old(self),
                EditKind::Insert,
                insert.doc,
                insert.at,
                insert.deltas@,
                typed@,
                query,
                *final(self),
            ),
    {
        let Insert { doc, at, deltas } = insert;
        let selection = Selection::at(at);
        self.edit(EditKind::Insert, Change { doc, selection, deltas });
        self.track_slash(typed, query);
    }

    /// Take text out: `splice` is what went. Deleting narrows the query too,
    /// and backspacing onto the slash itself is what closes the menu.
    pub fn deleted(&mut self, kind: EditKind, doc: Doc, splice: Splice, query: bool)
        requires
            old(self).wf(),
            old(self).takes(doc, seq![Delta::Spliced(splice)]),
        ensures
            final(self).wf(),
            Self::edited_by_typing(
                *old(self),
                kind,
                doc,
                doc.nearest(splice.caret),
                seq![Delta::Spliced(splice)],
                Seq::empty(),
                query,
                *final(self),
            ),
    {
        self.splice(kind, doc, splice);
        proof {
            reveal_strlit("");
            assert(""@ =~= Seq::empty());
        }
        self.track_slash("", query);
    }
}

/// A prefix that is typed and then taken back, because it spelled a block,
/// moves nothing: the words after it are where they were.
pub proof fn a_prefix_taken_back_moves_nothing(start: Cursor, len: usize, at: Cursor)
    requires
        start.offset == 0,
        at.offset + len <= usize::MAX,
    ensures
        anchor::typed(start, len as nat).moved(at) matches Some(typed) && typing::taken_from(
            start,
            Span { start: 0, end: len },
        ).moved(typed) == Some(at),
{
    anchor::typing_carries_what_follows(start, len as nat, at);
}

/// The delimiters a mark is closed with are taken off whatever follows them:
/// with both gone, it is as far along as it was less the two.
pub proof fn delimiters_are_taken_off_what_follows(
    caret: Cursor,
    open: Span,
    inner: Span,
    at: Cursor,
)
    requires
        open.start <= open.end <= inner.end <= caret.offset <= at.offset,
        at.block == caret.block,
        at.part == caret.part,
    ensures
        typing::taken_from(caret, Span { start: inner.end, end: caret.offset }).moved(
            at,
        ) matches Some(once) && typing::taken_from(caret, open).moved(once) == Some(
            Cursor {
                offset: (at.offset - (caret.offset - inner.end) - (open.end
                    - open.start)) as usize,
                ..at
            },
        ),
{
}

} // verus!
