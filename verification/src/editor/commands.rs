//! What each key means where the caret is: Enter, the deletes, the marks and
//! the pastes.

use vstd::prelude::*;

use crate::editor::anchor::{Delta, Splice};
use crate::editor::history::{EditKind, Mode};
use crate::editor::moments;
use crate::editor::surface::{Change, Editor, Menus, Paste};
use crate::editor::typing;
use crate::markdown::doc::{
    Block, BlockKind, Cursor, Doc, Form, Mark, MarkSpan, Part, Selection, Span, Text,
};
use crate::markdown::model::{KindView, MarkView, TextView};
use crate::text;

verus! {

/// What toggling a mark comes to.
#[derive(Clone, Copy, Debug, PartialEq, Eq, Structural)]
pub enum Marking {
    /// Nothing: in the source the markup is already spelled out.
    Nothing,
    /// It waits for the next character, or no longer does.
    Stored,
    /// It goes over the selection, or comes off it.
    Applied,
}

/// What a kill chord takes.
#[derive(Clone, Copy, Debug, PartialEq, Eq, Structural)]
pub enum Kill {
    /// As a delete backwards does.
    Back,
    /// As a delete forwards does.
    Forward,
    /// A stretch of the caret's own text.
    Range(Selection),
}

/// What a delete backwards takes.
#[derive(Clone, Copy, Debug, PartialEq, Eq, Structural)]
pub enum Back {
    Range(Selection),
    /// Whatever the start of a block means: it is outdented, unmarked, unfenced
    /// or merged into the one above.
    Merge,
}

/// What Enter does.
#[derive(Clone, Copy, Debug, PartialEq, Eq, Structural)]
pub enum Enter {
    /// Answers the open paste menu.
    Paste,
    /// Answers the open slash menu.
    Slash,
    /// A newline in the text itself.
    Newline,
    /// Asks where the image at a block comes from.
    Prompt(usize),
    /// Splits the block.
    Split,
    /// A paragraph after the block.
    Paragraph,
    Nothing,
}

/// What a pasted URL becomes.
#[derive(Clone, Copy, Debug, PartialEq, Eq, Structural)]
pub enum UrlPaste {
    /// Its own letters.
    Literal,
    /// A link over what is selected: the one paste people expect to *not*
    /// overwrite what they chose.
    Link,
    /// A link where the caret is, in a block that holds nothing else or not.
    Insert { alone: bool },
}

/// What the paste menu is answered with.
#[derive(Clone, Copy, Debug, PartialEq, Eq, Structural)]
pub enum Choice {
    Dismiss,
    Chip,
    Bookmark,
    Embed,
    Image,
}

/// What answering the paste menu does.
pub enum Answer {
    Nothing,
    /// The block is turned into a card, or the picture it points at.
    Turn(usize, BlockKind),
    /// The link is spelled as a chip, in place of what it was.
    Mention(Selection, Text),
}

/// How many blocks a document grew by.
fn grown(before: usize, after: usize) -> (by: isize)
    requires
        before <= isize::MAX,
        after <= isize::MAX,
    ensures
        by == after - before,
{
    after as isize - before as isize
}

/// The marks that wait, with one toggled: the first that is the same taken
/// away, or it put last.
pub open spec fn toggled_mark(stored: Seq<MarkView>, mark: MarkView) -> Seq<MarkView> {
    if stored.contains(mark) {
        stored.remove(stored.index_of_first(mark)->0)
    } else {
        stored.push(mark)
    }
}

impl Editor {
    /// Add `mark` over the selection, or take it away if the whole selection
    /// already carries it — or, with nothing selected, have it wait for the
    /// next character, the only way a chord before typing can mean anything.
    ///
    /// A caret inside a fence is enough to leave one, so code is the mark that
    /// does not wait for a range: nothing typed into code is markup, which
    /// leaves a stored mark there nothing to mean.
    pub fn toggle_mark(&mut self, mark: Mark) -> (marking: Marking)
        requires
            old(self).wf(),
        ensures
            final(self).wf(),
            marking == (if old(self).mode == Mode::Source {
                Marking::Nothing
            } else if old(self).selection.anchor == old(self).selection.head && !(mark is Code
                && old(self).selection.head.part == Part::Code) {
                Marking::Stored
            } else {
                Marking::Applied
            }),
            marking != Marking::Stored ==> *final(self) == *old(self),
            marking == Marking::Stored ==> {
                &&& moments::marks_view(final(self).stored@) == toggled_mark(
                    moments::marks_view(old(self).stored@),
                    mark@,
                )
                &&& *final(self) == (Editor { stored: final(self).stored, ..*old(self) })
            },
    {
        if !self.blocks() {
            return Marking::Nothing;
        }
        let is_code = match &mark {
            Mark::Code => true,
            _ => false,
        };
        let leaving_code = is_code && self.selection.head.part == Part::Code;
        if !self.selection.is_collapsed() || leaving_code {
            return Marking::Applied;
        }
        let ghost before = moments::marks_view(self.stored@);
        let mut i: usize = 0;
        while i < self.stored.len()
            invariant
                i <= self.stored@.len(),
                before == moments::marks_view(self.stored@),
                forall|j: int| 0 <= j < i ==> #[trigger] before[j] != mark@,
                *self == *old(self),
                old(self).wf(),
                self.mode == Mode::Blocks,
                self.selection.anchor == self.selection.head,
                !(mark is Code && self.selection.head.part == Part::Code),
                before == moments::marks_view(old(self).stored@),
            decreases self.stored@.len() - i,
        {
            assert(before[i as int] == self.stored@[i as int]@);
            if self.stored[i].is(&mark) {
                proof {
                    assert(before.contains(mark@));
                    before.index_of_first_ensures(mark@);
                    let first = before.index_of_first(mark@)->0;
                    assert(first == i);
                }
                let _ = self.stored.remove(i);
                assert(moments::marks_view(self.stored@) =~= before.remove(i as int));
                return Marking::Stored;
            }
            i = i + 1;
        }
        self.stored.push(mark);
        assert(moments::marks_view(self.stored@) =~= before.push(mark@));
        Marking::Stored
    }

    /// A mark over the selection: `doc` is the document with it on or off. A
    /// mark is paint over text that does not move.
    pub fn marked_over(&mut self, doc: Doc)
        requires
            old(self).wf(),
            old(self).takes(doc, Seq::empty()),
        ensures
            final(self).wf(),
            Self::edited(
                *old(self),
                EditKind::Structure,
                doc,
                old(self).selection,
                Seq::empty(),
                *final(self),
            ),
    {
        let selection = self.selection;
        let deltas: Vec<Delta> = Vec::new();
        assert(deltas@ =~= Seq::empty());
        self.edit(EditKind::Structure, Change { doc, selection, deltas });
    }

    /// The blocks the selection covered, rebuilt — fenced, unfenced, or pasted
    /// over: `doc` is the document with them rebuilt and `head` where the caret
    /// is in it. What sat inside has no position left to keep.
    pub fn rebuilt(&mut self, doc: Doc, head: Cursor)
        requires
            old(self).wf(),
            doc.blocks@.len() <= isize::MAX,
            old(self).doc.blocks@.len() <= isize::MAX,
            old(self).takes(doc, seq![Self::rebuilding(*old(self), doc, head)]),
        ensures
            final(self).wf(),
            Self::edited(
                *old(self),
                EditKind::Structure,
                doc,
                typing::held_at(doc, head),
                seq![Self::rebuilding(*old(self), doc, head)],
                *final(self),
            ),
    {
        let splice = Splice {
            removed: self.selection,
            caret: head,
            blocks: grown(self.doc.blocks.len(), doc.blocks.len()),
        };
        assert(Delta::Spliced(splice) == Self::rebuilding(*self, doc, head));
        self.splice(EditKind::Structure, doc, splice);
    }

    /// What rebuilding the selected blocks does to the positions in them.
    pub open spec fn rebuilding(before: Editor, doc: Doc, head: Cursor) -> Delta {
        Delta::Spliced(
            Splice {
                removed: before.selection,
                caret: head,
                blocks: (doc.blocks@.len() - before.doc.blocks@.len()) as isize,
            },
        )
    }

    /// What a kill chord takes, `target` being where it reaches: every kill
    /// chord shares the positions the motion chords use, so the two cannot
    /// disagree.
    ///
    /// Nothing left to take within the block — the target crossed out of it, or
    /// landed on the caret — is the block edge, and `forward` is which edge.
    pub fn delete_to(&self, forward: bool, target: Cursor) -> (kill: Kill)
        requires
            self.wf(),
        ensures
            ({
                let at = self.selection.head;
                let held = self.doc.nearest(target);
                kill == (if self.selection.anchor != at {
                    Kill::Back
                } else if held.block != at.block || held.part != at.part || held.offset
                    == at.offset {
                    if forward {
                        Kill::Forward
                    } else {
                        Kill::Back
                    }
                } else {
                    Kill::Range(Selection { anchor: held, head: at })
                })
            }),
    {
        if !self.selection.is_collapsed() {
            return Kill::Back;
        }
        let at = self.selection.head;
        let target = self.doc.clamp(target);
        if target.block != at.block || target.part != at.part || target.offset == at.offset {
            if forward {
                Kill::Forward
            } else {
                Kill::Back
            }
        } else {
            Kill::Range(Selection::new(target, at))
        }
    }

    /// What a delete backwards takes, and what kind of edit that is: the
    /// selection if there is one, otherwise the character before the caret,
    /// otherwise whatever the start of a block means. Reaching out of a block
    /// is structural; taking a character is not. `left` is the position before
    /// the caret's.
    pub fn delete_back(&self, left: Cursor) -> (back: (EditKind, Back))
        ensures
            ({
                let at = self.selection.head;
                back == (if self.selection.anchor != at {
                    (EditKind::Delete, Back::Range(self.selection))
                } else if at.offset > 0 {
                    (EditKind::Delete, Back::Range(Selection { anchor: left, head: at }))
                } else {
                    (EditKind::Structure, Back::Merge)
                })
            }),
    {
        let at = self.selection.head;
        if !self.selection.is_collapsed() {
            (EditKind::Delete, Back::Range(self.selection))
        } else if at.offset > 0 {
            (EditKind::Delete, Back::Range(Selection::new(left, at)))
        } else {
            (EditKind::Structure, Back::Merge)
        }
    }

    /// A merge at the start of a block, which put the caret at `head`: the seam
    /// between where the caret was and where it landed is exactly what the
    /// merge closed up. Deleting narrows the slash menu's query, `query` being
    /// whether there still is one. A block with nothing to merge into is left
    /// as it is, and is a step all the same.
    pub fn merged_back(&mut self, doc: Doc, head: Option<Cursor>, query: bool)
        requires
            old(self).wf(),
            doc.blocks@.len() <= isize::MAX,
            old(self).doc.blocks@.len() <= isize::MAX,
            old(self).takes(doc, Self::merging(*old(self), doc, head)),
        ensures
            final(self).wf(),
            match head {
                Some(head) => Self::edited_by_typing(
                    *old(self),
                    EditKind::Structure,
                    doc,
                    doc.nearest(head),
                    Self::merging(*old(self), doc, Some(head)),
                    Seq::empty(),
                    query,
                    *final(self),
                ),
                None => Self::edited(
                    *old(self),
                    EditKind::Structure,
                    doc,
                    old(self).selection,
                    Seq::empty(),
                    *final(self),
                ),
            },
    {
        match head {
            Some(head) => {
                let splice = Splice {
                    removed: Selection::new(head, self.selection.head),
                    caret: head,
                    blocks: grown(self.doc.blocks.len(), doc.blocks.len()),
                };
                assert(seq![Delta::Spliced(splice)] =~= Self::merging(*self, doc, Some(head)));
                self.deleted(EditKind::Structure, doc, splice, query);
            },
            None => {
                self.marked_over(doc);
            },
        }
    }

    /// What a merge at the start of a block does to the positions in it.
    pub open spec fn merging(before: Editor, doc: Doc, head: Option<Cursor>) -> Seq<Delta> {
        match head {
            Some(head) => seq![
                Delta::Spliced(
                    Splice {
                        removed: Selection { anchor: head, head: before.selection.head },
                        caret: head,
                        blocks: (doc.blocks@.len() - before.doc.blocks@.len()) as isize,
                    },
                ),
            ],
            None => Seq::empty(),
        }
    }

    /// What a delete forwards takes, `right` being the position after the
    /// caret's: the next block is joined when the caret is at the end of this
    /// one — which is what a kill to the end of a line does there too.
    pub fn delete_forward(&self, right: Cursor) -> (range: Selection)
        ensures
            range == (if self.selection.anchor == self.selection.head {
                Selection { anchor: self.selection.head, head: right }
            } else {
                self.selection
            }),
    {
        if self.selection.is_collapsed() {
            Selection::new(self.selection.head, right)
        } else {
            self.selection
        }
    }

    /// Whether an open menu answers Enter itself, and which. Every Enter chord
    /// asks first, or picking a block would also edit the one it is turning.
    pub open spec fn menu_takes_enter(&self) -> Option<Enter> {
        if self.menus.pasted is Some {
            Some(Enter::Paste)
        } else if self.menus.slash is Some {
            Some(Enter::Slash)
        } else {
            None
        }
    }

    fn menu_took_enter(&self) -> (enter: Option<Enter>)
        ensures
            enter == self.menu_takes_enter(),
    {
        if self.menus.pasted.is_some() {
            Some(Enter::Paste)
        } else if self.menus.slash.is_some() {
            Some(Enter::Slash)
        } else {
            None
        }
    }

    /// Whether the block at `ix` is an image with nothing to show yet.
    pub open spec fn blank_image(&self, ix: int) -> bool {
        0 <= ix < self.doc.blocks@.len() && (self.doc.blocks@[ix].kind matches BlockKind::Image {
            url,
            ..
        } && url@.len() == 0)
    }

    /// Whether the block at `ix` is an image with nothing to show yet.
    pub fn is_blank_image(&self, ix: usize) -> (yes: bool)
        ensures
            yes == self.blank_image(ix as int),
    {
        if ix >= self.doc.blocks.len() {
            return false;
        }
        match &self.doc.blocks[ix].kind {
            BlockKind::Image { url, .. } => url.as_str().is_empty(),
            _ => false,
        }
    }

    /// What Enter does with no menu open.
    pub open spec fn splits(&self) -> Enter {
        match self.selection.head.part {
            Part::Code => Enter::Newline,
            Part::Cell { .. } => Enter::Nothing,
            Part::Caption => if self.blank_image(self.selection.head.block as int) {
                Enter::Prompt(self.selection.head.block)
            } else {
                Enter::Split
            },
            Part::Body => Enter::Split,
        }
    }

    /// What Shift+Enter does with no menu open.
    pub open spec fn breaks(&self) -> Enter {
        match self.selection.head.part {
            Part::Body => Enter::Newline,
            Part::Code => Enter::Newline,
            Part::Caption => Enter::Nothing,
            Part::Cell { .. } => Enter::Nothing,
        }
    }

    /// What Ctrl+Enter does with no menu open.
    pub open spec fn opens_after(&self) -> Enter {
        if self.mode == Mode::Blocks {
            Enter::Paragraph
        } else {
            Enter::Nothing
        }
    }

    /// Enter. In a body it splits the block; in a code fence it is a newline,
    /// which is the whole reason a fence is worth typing into. A cell is one
    /// line by definition, so it does nothing rather than something surprising.
    /// An image with nothing to show yet is missing one thing, so it asks for
    /// it; and a caption is one line too, but the block it belongs to is the
    /// end of something — so it carries on underneath the picture.
    pub fn split_block(&self) -> (enter: Enter)
        ensures
            enter == (match self.menu_takes_enter() {
                Some(enter) => enter,
                None => self.splits(),
            }),
    {
        if let Some(enter) = self.menu_took_enter() {
            return enter;
        }
        let at = self.selection.head;
        match at.part {
            Part::Code => Enter::Newline,
            Part::Cell { .. } => Enter::Nothing,
            Part::Caption => if self.is_blank_image(at.block) {
                Enter::Prompt(at.block)
            } else {
                Enter::Split
            },
            Part::Body => Enter::Split,
        }
    }

    /// Shift+Enter. In prose it keeps the caret in the block and inserts a
    /// literal newline; the places markdown itself keeps to one line still do.
    pub fn soft_break(&self) -> (enter: Enter)
        ensures
            enter == (match self.menu_takes_enter() {
                Some(enter) => enter,
                None => self.breaks(),
            }),
    {
        if let Some(enter) = self.menu_took_enter() {
            return enter;
        }
        match self.selection.head.part {
            Part::Body => Enter::Newline,
            Part::Code => Enter::Newline,
            Part::Caption => Enter::Nothing,
            Part::Cell { .. } => Enter::Nothing,
        }
    }

    /// Ctrl+Enter. A plain paragraph after the current block's whole subtree,
    /// the current block's text untouched; nothing in the source.
    pub fn paragraph_after(&self) -> (enter: Enter)
        ensures
            enter == (match self.menu_takes_enter() {
                Some(enter) => enter,
                None => self.opens_after(),
            }),
    {
        if let Some(enter) = self.menu_took_enter() {
            return enter;
        }
        if self.blocks() {
            Enter::Paragraph
        } else {
            Enter::Nothing
        }
    }

    /// What a split at `at` does to the positions in a document: what followed
    /// the caret moved into a block of its own, `new`, which everything below
    /// it now sits under. A selection cleared first is a step before it.
    pub open spec fn splitting(cleared: Option<Splice>, at: Cursor, new: usize) -> Seq<Delta> {
        let split = Delta::Spliced(
            Splice {
                removed: Selection { anchor: at, head: at },
                caret: Cursor { block: new, part: Part::Body, offset: 0 },
                blocks: 1,
            },
        );
        match cleared {
            Some(splice) => seq![Delta::Spliced(splice), split],
            None => seq![split],
        }
    }

    /// A block split at `at`, what followed now in the block `new` of `doc`.
    /// `cleared` is the selection cleared first, where there was one.
    pub fn split(&mut self, doc: Doc, cleared: Option<Splice>, at: Cursor, new: usize)
        requires
            old(self).wf(),
            old(self).takes(doc, Self::splitting(cleared, at, new)),
        ensures
            final(self).wf(),
            Self::edited(
                *old(self),
                EditKind::Structure,
                doc,
                typing::held_at(doc, Cursor { block: new, part: Part::Body, offset: 0 }),
                Self::splitting(cleared, at, new),
                *final(self),
            ),
    {
        let caret = Cursor::new(new, Part::Body, 0);
        let mut deltas: Vec<Delta> = Vec::new();
        if let Some(splice) = cleared {
            deltas.push(Delta::Spliced(splice));
        }
        deltas.push(Delta::Spliced(Splice { removed: Selection::at(at), caret, blocks: 1 }));
        assert(deltas@ =~= Self::splitting(cleared, at, new));
        self.land(EditKind::Structure, doc, caret, deltas);
    }

    /// A paragraph opened at block `at` of `doc`.
    pub fn insert_paragraph(&mut self, doc: Doc, at: usize)
        requires
            old(self).wf(),
            old(self).takes(doc, seq![Delta::Opened { at, count: 1 }]),
        ensures
            final(self).wf(),
            Self::edited(
                *old(self),
                EditKind::Structure,
                doc,
                typing::held_at(doc, Cursor { block: at, part: Part::Body, offset: 0 }),
                seq![Delta::Opened { at, count: 1 }],
                *final(self),
            ),
    {
        let mut deltas: Vec<Delta> = Vec::new();
        deltas.push(Delta::Opened { at, count: 1 });
        assert(deltas@ =~= seq![Delta::Opened { at, count: 1 }]);
        self.land(EditKind::Structure, doc, Cursor::new(at, Part::Body, 0), deltas);
    }

    /// Escape closes an open menu, and otherwise collapses a selection — the
    /// things there are to back out of, innermost first.
    pub fn dismiss(&mut self)
        requires
            old(self).wf(),
        ensures
            final(self).wf(),
            *final(self) == (if old(self).menus.pasted is Some {
                Editor { menus: Menus { pasted: None, ..old(self).menus }, ..*old(self) }
            } else if old(self).menus.slash is Some {
                Editor { menus: Menus { slash: None, ..old(self).menus }, ..*old(self) }
            } else {
                Editor {
                    selection: Selection {
                        anchor: old(self).selection.head,
                        head: old(self).selection.head,
                    },
                    ..*old(self)
                }
            }),
    {
        if self.menus.pasted.is_some() {
            self.menus.pasted = None;
        } else if self.menus.slash.is_some() {
            self.menus.slash = None;
        } else {
            self.selection = Selection::at(self.selection.head);
        }
    }

    /// What a pasted URL becomes. It is never spliced in as a block: it links
    /// whatever is selected, or lands as a link where the caret is — and only
    /// when the block it landed in held nothing else does it also offer to
    /// become a card, which is the one place a card would not eat a sentence.
    pub fn paste_url(&self) -> (paste: UrlPaste)
        ensures
            paste == (if Self::fenced(self.selection) {
                UrlPaste::Literal
            } else if self.selection.anchor != self.selection.head {
                UrlPaste::Link
            } else {
                UrlPaste::Insert {
                    alone: self.selection.head.part == Part::Body && self.caret_in_text()
                        && self.caret_says().len() == 0,
                }
            }),
    {
        if self.in_fence() {
            return UrlPaste::Literal;
        }
        if !self.selection.is_collapsed() {
            return UrlPaste::Link;
        }
        let alone = self.selection.head.part == Part::Body && match self.caret_text() {
            Some(text) => text.is_empty(),
            None => false,
        };
        UrlPaste::Insert { alone }
    }

    /// Whether the caret is in a text the document has.
    pub open spec fn caret_in_text(&self) -> bool {
        let at = self.selection.head;
        at.block < self.doc.blocks@.len() && self.doc.blocks@[at.block as int].text_in(
            at.part,
        ) is Some
    }

    /// A URL that landed as a link at `at` offers to become something richer. A
    /// fence holds its URL literally and a caption cannot spell a mark, so
    /// neither has a richer form to offer.
    pub fn offer(&mut self, at: Cursor, url: String, alone: bool)
        requires
            old(self).wf(),
        ensures
            final(self).wf(),
            *final(self) == (if old(self).chrome.paste && at.part != Part::Code && at.part
                != Part::Caption {
                Editor {
                    menus: Menus { pasted: Some(Paste { at, url, alone }), ..old(self).menus },
                    ..*old(self)
                }
            } else {
                *old(self)
            }),
    {
        if self.chrome.paste && at.part != Part::Code && at.part != Part::Caption {
            self.menus.pasted = Some(Paste { at, url, alone });
        }
    }

    /// Answer the paste menu: leave the link, or turn its block into a card or
    /// the picture it points at. A chip with a line to itself is a block, which
    /// is what gives it room for a favicon; inside a sentence it is a mark over
    /// the text that is already there, and only the spelling changes.
    pub fn confirm_paste(&mut self, choice: Choice) -> (answer: Answer)
        requires
            old(self).wf(),
            old(self).menus.pasted matches Some(pasted) ==> pasted.at.offset + text::byte_len(
                pasted.url@,
            ) <= usize::MAX,
        ensures
            final(self).wf(),
            *final(self) == (Editor {
                menus: Menus { pasted: None, ..old(self).menus },
                ..*old(self)
            }),
            match old(self).menus.pasted {
                None => answer is Nothing,
                Some(pasted) => {
                    let ix = pasted.at.block;
                    match choice {
                        Choice::Dismiss => answer is Nothing,
                        Choice::Chip => if pasted.alone {
                            Self::turns(
                                answer,
                                ix,
                                KindView::Bookmark { url: pasted.url@, form: Form::Chip },
                            )
                        } else {
                            answer matches Answer::Mention(range, text) && {
                                let len = text::byte_len(pasted.url@);
                                &&& range == (Selection {
                                    anchor: pasted.at,
                                    head: Cursor {
                                        offset: (pasted.at.offset + len) as usize,
                                        ..pasted.at
                                    },
                                })
                                &&& text@ == (TextView {
                                    text: pasted.url@,
                                    marks: seq![
                                        (
                                            Span { start: 0, end: len as usize },
                                            MarkView::Mention {
                                                url: pasted.url@,
                                                form: Form::Chip,
                                            },
                                        ),
                                    ],
                                })
                            }
                        },
                        Choice::Bookmark => Self::turns(
                            answer,
                            ix,
                            KindView::Bookmark { url: pasted.url@, form: Form::Auto },
                        ),
                        Choice::Embed => Self::turns(
                            answer,
                            ix,
                            KindView::Bookmark { url: pasted.url@, form: Form::Embed },
                        ),
                        Choice::Image => Self::turns(
                            answer,
                            ix,
                            KindView::Image {
                                url: pasted.url@,
                                alt: TextView::empty(),
                                width: None,
                            },
                        ),
                    }
                },
            },
    {
        let mut taken: Option<Paste> = None;
        std::mem::swap(&mut self.menus.pasted, &mut taken);
        let Some(pasted) = taken else {
            return Answer::Nothing;
        };
        let Paste { at, url, alone } = pasted;
        match choice {
            Choice::Dismiss => Answer::Nothing,
            Choice::Chip => {
                if alone {
                    return Answer::Turn(at.block, BlockKind::Bookmark { url, form: Form::Chip });
                }
                let mut text = Text::plain(url.as_str());
                let len = text.len();
                let mark = Mark::Mention { url, form: Form::Chip };
                text.marks.push(MarkSpan { range: Span { start: 0, end: len }, mark });
                assert(text@.marks =~= seq![
                    (
                        Span { start: 0, end: len },
                        MarkView::Mention { url: url@, form: Form::Chip },
                    ),
                ]);
                let end = Cursor { offset: at.offset + len, ..at };
                Answer::Mention(Selection::new(at, end), text)
            },
            Choice::Bookmark => Answer::Turn(
                at.block,
                BlockKind::Bookmark { url, form: Form::Auto },
            ),
            Choice::Embed => Answer::Turn(at.block, BlockKind::Bookmark { url, form: Form::Embed }),
            Choice::Image => Answer::Turn(
                at.block,
                BlockKind::Image { url, alt: Text::default(), width: None },
            ),
        }
    }

    /// Whether an answer turns a block into a kind.
    pub open spec fn turns(answer: Answer, ix: usize, kind: KindView) -> bool {
        answer matches Answer::Turn(at, turned) && at == ix && turned@ == kind
    }

    /// What giving a block over to the link it held does to the positions in
    /// it.
    pub open spec fn turning(ix: usize, held: usize) -> Delta {
        let start = Cursor { block: ix, part: Part::Body, offset: 0 };
        Delta::Spliced(
            Splice {
                removed: Selection { anchor: start, head: Cursor { offset: held, ..start } },
                caret: start,
                blocks: 0,
            },
        )
    }

    /// Give a block over to the link it holds — a card, or the picture it
    /// points at: `doc` is the document with the block turned, `held` how many
    /// bytes it held.
    ///
    /// One step, not two: turning the block and giving the caret somewhere to
    /// go are one gesture. A caret goes where the block admits one, and
    /// otherwise carries on in the block after it — a fresh one when it ends
    /// the document.
    pub fn turn_into(&mut self, ix: usize, doc: Doc, held: usize)
        requires
            old(self).wf(),
            ix < doc.blocks@.len(),
            old(self).takes(doc, seq![Self::turning(ix, held)]),
            old(self).mode == Mode::Blocks,
        ensures
            final(self).wf(),
            ({
                let parts = doc.blocks@[ix as int].listed();
                let at = if parts.len() > 0 {
                    Cursor { block: ix, part: parts[0], offset: 0 }
                } else {
                    Cursor { block: (ix + 1) as usize, part: Part::Body, offset: 0 }
                };
                let grows = parts.len() == 0 && ix + 1 == doc.blocks@.len();
                &&& grows ==> final(self).doc@ == doc@.push(
                    crate::markdown::model::BlockView::blank(),
                )
                &&& !grows ==> final(self).doc == doc
                &&& final(self).selection == typing::held_at(final(self).doc, at)
                &&& Self::edited(
                    *old(self),
                    EditKind::Structure,
                    final(self).doc,
                    final(self).selection,
                    seq![Self::turning(ix, held)],
                    *final(self),
                )
            }),
    {
        let mut doc = doc;
        let start = Cursor::new(ix, Part::Body, 0);
        let mut deltas: Vec<Delta> = Vec::new();
        deltas.push(
            Delta::Spliced(
                Splice {
                    removed: Selection::new(start, Cursor::new(ix, Part::Body, held)),
                    caret: start,
                    blocks: 0,
                },
            ),
        );
        assert(deltas@ =~= seq![Self::turning(ix, held)]);
        assert(doc.blocks@[ix as int].fits());
        let parts = doc.blocks[ix].parts();
        let at = if parts.len() > 0 {
            Cursor::new(ix, parts[0], 0)
        } else {
            if doc.blocks.len() <= ix + 1 {
                let ghost given = doc;
                let blank = Block::blank();
                doc.blocks.push(blank);
                proof {
                    assert(given@.len() == given.blocks@.len());
                    assert(doc@ =~= given@.push(crate::markdown::model::BlockView::blank()));
                    assert forall|i: int| 0 <= i < doc.blocks@.len() implies (
                    #[trigger] doc.blocks@[i]).fits() by {
                        if i < given.blocks@.len() {
                            assert(doc.blocks@[i] == given.blocks@[i]);
                        } else {
                            assert(doc.blocks@[i] == blank);
                        }
                    }
                }
            }
            Cursor::new(ix + 1, Part::Body, 0)
        };
        self.land(EditKind::Structure, doc, at, deltas);
    }
}

/// Toggling a waiting mark twice leaves the marks that wait as they were, where
/// it was not waiting.
pub proof fn a_mark_toggled_twice_is_as_it_was(stored: Seq<MarkView>, mark: MarkView)
    requires
        !stored.contains(mark),
    ensures
        toggled_mark(toggled_mark(stored, mark), mark) == stored,
{
    let once = stored.push(mark);
    assert(once[stored.len() as int] == mark);
    assert(once.contains(mark));
    once.index_of_first_ensures(mark);
    let first = once.index_of_first(mark)->0;
    if first < stored.len() {
        assert(stored[first] == mark);
    }
    assert(once.remove(stored.len() as int) =~= stored);
}

/// A slash menu with nothing to take declines Enter, and Enter then does what
/// it does with no menu open: `after` is `before` once the menu has declined.
pub proof fn a_menu_that_declines_leaves_enter_as_it_is(before: Editor, after: Editor)
    requires
        before.menus.pasted is None,
        after == (Editor { menus: Menus { slash: None, ..before.menus }, ..before }),
    ensures
        before.menus.slash is Some ==> before.menu_takes_enter() == Some(Enter::Slash),
        after.menu_takes_enter() is None,
        after.splits() == before.splits(),
        after.breaks() == before.breaks(),
        after.opens_after() == before.opens_after(),
{
}

} // verus!
