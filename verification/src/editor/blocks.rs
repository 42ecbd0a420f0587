//! Operations on whole blocks: moving, copying, checking and appending them,
//! and what the pointer does to them.

use vstd::prelude::*;

use crate::editor::anchor::{AnchorId, Delta};
use crate::editor::history::{EditKind, Mode};
use crate::editor::surface::{Change, Editor, EditorEvent, Menus, Pointing};
use crate::editor::typing;
use crate::markdown::doc::{Block, BlockKind, Cursor, Doc, Part, Selection, Span};
use crate::markdown::layout::Frames;
use crate::markdown::model;
use crate::markdown::model::{BlockView, KindView};

verus! {

/// What a release of the button ends.
#[derive(Clone, Copy, Debug, PartialEq, Eq, Structural)]
pub enum Release {
    /// Nothing but a selection, if that.
    Selection,
    /// A resize of the image at a block.
    Resize(usize),
    /// A press of the handle that never moved, which opens the block's menu.
    Handle(usize),
    /// A block let go of elsewhere.
    Drop { from: usize, to: usize },
}

/// What a drag moved.
#[derive(Clone, Copy, Debug, PartialEq, Eq, Structural)]
pub enum Drag {
    Lifted,
    Resized,
    Selection,
    Nothing,
}

/// What a press came to.
#[derive(Clone, Copy, Debug, PartialEq, Eq, Structural)]
pub enum Press {
    /// A checkbox was toggled.
    Toggled,
    /// The document was given a paragraph past its end.
    Appended,
    /// Nowhere a caret can be.
    Missed,
    /// A selection, and the anchor it landed on.
    Selected(Option<AnchorId>),
}

/// A task block with its box the other way.
pub open spec fn toggled(block: BlockView) -> BlockView {
    match block.kind {
        KindView::Task { checked, text } => BlockView {
            kind: KindView::Task { checked: !checked, text },
            ..block
        },
        _ => block,
    }
}

/// Whether a document has no way to grow past its end but by appending: its
/// last block does not end in a body. A fence swallows Enter, a cell and a
/// caption have nowhere to put one, and a rule holds no caret at all.
pub open spec fn closed_at_end(doc: Doc) -> bool {
    let parts = doc.blocks@.last().listed();
    !(parts.len() > 0 && parts.last() == Part::Body)
}

impl Editor {
    /// The other fields of an editor left as they are by a change of its
    /// document alone.
    fn edit_doc(&mut self, doc: Doc, selection: Selection)
        requires
            old(self).wf(),
            old(self).mode == Mode::Blocks,
            doc.fits(),
        ensures
            final(self).wf(),
            Self::edited(
                *old(self),
                EditKind::Structure,
                doc,
                selection,
                Seq::empty(),
                *final(self),
            ),
            final(self).anchors@ == old(self).anchors@,
    {
        let deltas: Vec<Delta> = Vec::new();
        assert(deltas@ =~= Seq::empty());
        self.edit(EditKind::Structure, Change { doc, selection, deltas });
        assert(self.anchors@ =~= old(self).anchors@);
    }

    /// Move the block at `ix`, children and all, and follow it. `span` is what
    /// moved, `to` where it arrived, and `doc` the document it arrived in.
    ///
    /// Public because a gutter handle and a menu row reach the same operation
    /// as the key does.
    pub fn move_block(&mut self, ix: usize, span: Span, to: Option<usize>, doc: Doc)
        requires
            old(self).wf(),
            to matches Some(to) ==> to + old(self).selection.head.block <= usize::MAX,
            old(self).takes(
                doc,
                match to {
                    Some(to) => seq![Delta::Moved { at: span, to: Some(to) }],
                    None => Seq::empty(),
                },
            ),
        ensures
            final(self).wf(),
            old(self).mode == Mode::Source ==> *final(self) == *old(self),
            old(self).mode == Mode::Blocks ==> match to {
                // The caret rides along, keeping its depth within the subtree
                // that moved and its offset within its own text.
                Some(to) => {
                    let caret = old(self).selection.head;
                    let block = to + (if caret.block >= ix {
                        caret.block - ix
                    } else {
                        0
                    });
                    Self::edited(
                        *old(self),
                        EditKind::Structure,
                        doc,
                        typing::held_at(doc, Cursor { block: block as usize, ..caret }),
                        seq![Delta::Moved { at: span, to: Some(to) }],
                        *final(self),
                    )
                },
                None => Self::edited(
                    *old(self),
                    EditKind::Structure,
                    doc,
                    old(self).selection,
                    Seq::empty(),
                    *final(self),
                ),
            },
    {
        if !self.blocks() {
            return ;
        }
        let mut deltas: Vec<Delta> = Vec::new();
        match to {
            Some(to) => {
                let caret = self.selection.head;
                let block = to + (if caret.block >= ix {
                    caret.block - ix
                } else {
                    0
                });
                deltas.push(Delta::Moved { at: span, to: Some(to) });
                assert(deltas@ =~= seq![Delta::Moved { at: span, to: Some(to) }]);
                self.land(EditKind::Structure, doc, Cursor { block, ..caret }, deltas);
            },
            None => {
                let selection = self.selection;
                assert(deltas@ =~= Seq::empty());
                self.edit(EditKind::Structure, Change { doc, selection, deltas });
            },
        }
    }

    /// Copy the block at `ix`, children and all, and put the caret in the copy,
    /// which is at `copy`.
    pub fn duplicate_block(&mut self, span: Span, copy: Option<usize>, doc: Doc)
        requires
            old(self).wf(),
            span.start <= span.end,
            old(self).takes(
                doc,
                match copy {
                    Some(copy) => seq![
                        Delta::Opened { at: copy, count: (span.end - span.start) as usize },
                    ],
                    None => Seq::empty(),
                },
            ),
        ensures
            final(self).wf(),
            old(self).mode == Mode::Source ==> *final(self) == *old(self),
            old(self).mode == Mode::Blocks ==> match copy {
                Some(copy) => Self::edited(
                    *old(self),
                    EditKind::Structure,
                    doc,
                    typing::held_at(doc, Cursor { block: copy, part: Part::Body, offset: 0 }),
                    seq![Delta::Opened { at: copy, count: (span.end - span.start) as usize }],
                    *final(self),
                ),
                None => Self::edited(
                    *old(self),
                    EditKind::Structure,
                    doc,
                    old(self).selection,
                    Seq::empty(),
                    *final(self),
                ),
            },
    {
        if !self.blocks() {
            return ;
        }
        let mut deltas: Vec<Delta> = Vec::new();
        match copy {
            Some(copy) => {
                let count = span.end - span.start;
                deltas.push(Delta::Opened { at: copy, count });
                assert(deltas@ =~= seq![Delta::Opened { at: copy, count }]);
                self.land(EditKind::Structure, doc, Cursor::new(copy, Part::Body, 0), deltas);
            },
            None => {
                let selection = self.selection;
                assert(deltas@ =~= Seq::empty());
                self.edit(EditKind::Structure, Change { doc, selection, deltas });
            },
        }
    }

    /// Take away the block at `ix`, children and all.
    pub fn remove_block(&mut self, ix: usize, span: Span, doc: Doc)
        requires
            old(self).wf(),
            old(self).takes(doc, seq![Delta::Moved { at: span, to: None }]),
        ensures
            final(self).wf(),
            old(self).mode == Mode::Source ==> *final(self) == *old(self),
            old(self).mode == Mode::Blocks ==> Self::edited(
                *old(self),
                EditKind::Structure,
                doc,
                typing::held_at(
                    doc,
                    Cursor {
                        block: if ix > 0 {
                            (ix - 1) as usize
                        } else {
                            0
                        },
                        part: Part::Body,
                        offset: 0,
                    },
                ),
                seq![Delta::Moved { at: span, to: None }],
                *final(self),
            ),
    {
        if !self.blocks() {
            return ;
        }
        let mut deltas: Vec<Delta> = Vec::new();
        deltas.push(Delta::Moved { at: span, to: None });
        assert(deltas@ =~= seq![Delta::Moved { at: span, to: None }]);
        let block = if ix > 0 {
            ix - 1
        } else {
            0
        };
        self.land(EditKind::Structure, doc, Cursor::new(block, Part::Body, 0), deltas);
    }

    /// Tag a fenced block with the language it holds: `doc` is the document
    /// with it tagged.
    pub fn set_language(&mut self, doc: Doc)
        requires
            old(self).wf(),
            doc.fits(),
        ensures
            final(self).wf(),
            old(self).mode == Mode::Source ==> *final(self) == *old(self),
            old(self).mode == Mode::Blocks ==> Self::edited(
                *old(self),
                EditKind::Structure,
                doc,
                old(self).selection,
                Seq::empty(),
                *final(self),
            ),
    {
        if self.blocks() {
            let selection = self.selection;
            self.edit_doc(doc, selection);
        }
    }

    /// Turn a block into another kind — what the slash menu and the block menu
    /// both do: `doc` is the document with it turned.
    pub fn set_block(&mut self, doc: Doc)
        requires
            old(self).wf(),
            doc.fits(),
        ensures
            final(self).wf(),
            old(self).mode == Mode::Source ==> *final(self) == *old(self),
            old(self).mode == Mode::Blocks ==> Self::edited(
                *old(self),
                EditKind::Structure,
                doc,
                old(self).selection.held(doc),
                Seq::empty(),
                *final(self),
            ),
    {
        if self.blocks() {
            let selection = self.selection.clamp(&doc);
            self.edit_doc(doc, selection);
        }
    }

    /// Whether `after` is `before` with the box of the task block at `ix` the
    /// other way: one step, the selection and every anchor where they were, and
    /// no reveal owed. A block that is no task is left alone, and so is the
    /// source.
    pub open spec fn box_toggled(before: Editor, ix: usize, after: Editor) -> bool {
        if before.mode == Mode::Blocks && ix < before.doc.blocks@.len()
            && before.doc.blocks@[ix as int].kind is Task {
            &&& after.doc@ == before.doc@.update(ix as int, toggled(before.doc@[ix as int]))
            &&& after.anchors@ == before.anchors@
            &&& after.history@ == before.history@.recorded(
                EditKind::Structure,
                before.moment(),
            ).landed(EditKind::Structure, before.selection)
            &&& after.layouts@ == Frames::empty()
            &&& after.events@ == before.events@.push(EditorEvent::Changed)
            &&& after == (Editor {
                events: after.events,
                doc: after.doc,
                anchors: after.anchors,
                history: after.history,
                layouts: after.layouts,
                menus: Menus { pasted: None, ..before.menus },
                reveal: false,
                blinking: false,
                ..before
            })
        } else {
            after == before
        }
    }

    /// Whether `after` is `before` given a paragraph past its end, the caret in
    /// it: one step, and every anchor where it was.
    pub open spec fn tail_appended(before: Editor, after: Editor) -> bool {
        let at = Cursor { block: before.doc.blocks.len(), part: Part::Body, offset: 0 };
        &&& after.doc@ == before.doc@.push(BlockView::blank())
        &&& after.anchors@ == before.anchors@
        &&& after.history@ == before.history@.recorded(
            EditKind::Structure,
            before.moment(),
        ).landed(EditKind::Structure, after.selection)
        &&& after.layouts@ == Frames::empty()
        &&& after.events@ == before.events@.push(EditorEvent::Changed)
        &&& after == (Editor {
            events: after.events,
            doc: after.doc,
            selection: Selection { anchor: at, head: at },
            anchors: after.anchors,
            history: after.history,
            layouts: after.layouts,
            menus: Menus { pasted: None, ..before.menus },
            reveal: true,
            blinking: false,
            ..before
        })
    }

    /// Whether `after` is `before` with its caret moved to a selection: what
    /// waited for the next character is let go of, and so is the group the last
    /// edit opened.
    pub open spec fn caret_put(before: Editor, selection: Selection, after: Editor) -> bool {
        &&& after.stored@.len() == 0
        &&& after.history@ == before.history@.interrupted()
        &&& after == (Editor {
            selection,
            history: after.history,
            stored: after.stored,
            menus: Menus { pasted: None, ..before.menus },
            reveal: true,
            blinking: false,
            ..before
        })
    }

    /// Check or uncheck the task block at `ix`. Does nothing to a block that
    /// is not one.
    ///
    /// An edit like any other: one undo step, and the caret stays where it
    /// was, so toggling a box across the document does not move whatever is
    /// being typed. But every other edit is made at the caret and owes it a
    /// reveal, and this one is made where a press landed: the reveal would
    /// scroll the box being checked off the screen.
    pub fn toggle_task(&mut self, ix: usize)
        requires
            old(self).wf(),
        ensures
            final(self).wf(),
            Self::box_toggled(*old(self), ix, *final(self)),
    {
        if !self.blocks() || ix >= self.doc.blocks.len() {
            return ;
        }
        let (checked, text) = match &self.doc.blocks[ix].kind {
            BlockKind::Task { checked, text } => (!*checked, text.copy()),
            _ => {
                return ;
            },
        };
        let indent = self.doc.blocks[ix].indent;
        let mut doc = self.doc.copy();
        let ghost same = doc;
        let block = Block::at(BlockKind::Task { checked, text }, indent);
        proof {
            assert(same@.len() == same.blocks@.len());
            assert(self.doc@.len() == self.doc.blocks@.len());
        }
        doc.blocks.set(ix, block);
        proof {
            assert(doc@ =~= self.doc@.update(ix as int, toggled(self.doc@[ix as int])));
            model::same_documents_fit_alike(self.doc, same);
            assert forall|i: int| 0 <= i < doc.blocks@.len() implies (
            #[trigger] doc.blocks@[i]).fits() by {
                if i != ix {
                    assert(doc.blocks@[i] == same.blocks@[i]);
                }
            }
        }
        let selection = self.selection;
        self.edit_doc(doc, selection);
        self.reveal = false;
    }

    /// The paragraph a document that does not end in a body has no other way
    /// to grow. `false` when the last block ends in a body, which can carry on
    /// by itself.
    pub fn append_tail(&mut self) -> (appended: bool)
        requires
            old(self).wf(),
        ensures
            final(self).wf(),
            appended == (old(self).mode == Mode::Blocks && closed_at_end(old(self).doc)),
            !appended ==> *final(self) == *old(self),
            appended ==> Self::tail_appended(*old(self), *final(self)),
    {
        if !self.blocks() {
            return false;
        }
        let last = self.doc.blocks.len() - 1;
        assert(self.doc.blocks@[last as int].fits());
        let parts = self.doc.blocks[last].parts();
        if parts.len() > 0 && parts[parts.len() - 1] == Part::Body {
            return false;
        }
        let mut doc = self.doc.copy();
        let ghost same = doc;
        let ix = self.doc.blocks.len();
        let blank = Block::blank();
        doc.blocks.push(blank);
        proof {
            assert(same@.len() == same.blocks@.len());
            assert(self.doc@.len() == self.doc.blocks@.len());
            assert(doc@ =~= self.doc@.push(BlockView::blank()));
            model::same_documents_fit_alike(self.doc, same);
            assert forall|i: int| 0 <= i < doc.blocks@.len() implies (
            #[trigger] doc.blocks@[i]).fits() by {
                if i != ix {
                    assert(doc.blocks@[i] == same.blocks@[i]);
                } else {
                    assert(doc.blocks@[i] == blank);
                }
            }
        }
        let selection = Selection::at(doc.clamp(Cursor::new(ix, Part::Body, 0)));
        self.edit_doc(doc, selection);
        true
    }

    /// Whether a press is being dragged: a selection, a lifted block or an
    /// image resize.
    pub fn in_drag(&self) -> (yes: bool)
        ensures
            yes == (self.pointing.dragging || self.pointing.lifted is Some
                || self.pointing.resizing is Some),
    {
        self.pointing.dragging || self.pointing.lifted.is_some() || self.pointing.resizing.is_some()
    }

    /// Follow a dragged pointer, wherever in the window it is: `over` is the
    /// block under it, `width` what it asks of an image being resized, and
    /// `swept` the selection it has swept out.
    pub fn drag_to(
        &mut self,
        over: Option<usize>,
        width: Option<u32>,
        swept: Option<Selection>,
    ) -> (drag: Drag)
        requires
            old(self).wf(),
        ensures
            final(self).wf(),
            ({
                let was = old(self).pointing;
                match (was.lifted, was.resizing) {
                    // A lifted block follows the pointer.
                    (Some((from, _)), _) => match over {
                        Some(to) => drag == Drag::Lifted && *final(self) == (Editor {
                            pointing: Pointing { lifted: Some((from, to)), ..was },
                            ..*old(self)
                        }),
                        None => drag == Drag::Nothing && *final(self) == *old(self),
                    },
                    // An image being resized follows it the same way — the
                    // document holds nothing until the handle is released.
                    (None, Some((ix, _))) => match width {
                        Some(width) => drag == Drag::Resized && *final(self) == (Editor {
                            pointing: Pointing { resizing: Some((ix, Some(width))), ..was },
                            ..*old(self)
                        }),
                        None => drag == Drag::Nothing && *final(self) == *old(self),
                    },
                    (None, None) => match swept {
                        Some(selection) if was.dragging => drag == Drag::Selection && *final(self)
                            == (Editor { selection, ..*old(self) }),
                        _ => drag == Drag::Nothing && *final(self) == *old(self),
                    },
                }
            }),
    {
        if let Some((from, _)) = self.pointing.lifted {
            return match over {
                Some(to) => {
                    self.pointing.lifted = Some((from, to));
                    Drag::Lifted
                },
                None => Drag::Nothing,
            };
        }
        if let Some((ix, _)) = self.pointing.resizing {
            return match width {
                Some(width) => {
                    self.pointing.resizing = Some((ix, Some(width)));
                    Drag::Resized
                },
                None => Drag::Nothing,
            };
        }
        if self.pointing.dragging {
            if let Some(selection) = swept {
                self.selection = selection;
                return Drag::Selection;
            }
        }
        Drag::Nothing
    }

    /// What letting go of the button ends, over the editor.
    pub fn release(&mut self) -> (release: Release)
        requires
            old(self).wf(),
        ensures
            final(self).wf(),
            ({
                let was = old(self).pointing;
                match (was.resizing, was.lifted) {
                    (Some((ix, _)), _) => release == Release::Resize(ix) && final(self).pointing == (
                    Pointing { dragging: false, ..was }),
                    (None, Some((from, to))) => release == (if from == to {
                        Release::Handle(from)
                    } else {
                        Release::Drop { from, to }
                    }) && final(self).pointing == (Pointing {
                        dragging: false,
                        lifted: None,
                        ..was
                    }),
                    (None, None) => release == Release::Selection && final(self).pointing == (
                    Pointing { dragging: false, ..was }),
                }
            }),
            *final(self) == (Editor { pointing: final(self).pointing, ..*old(self) }),
    {
        self.pointing.dragging = false;
        if let Some((ix, _)) = self.pointing.resizing {
            return Release::Resize(ix);
        }
        match self.pointing.lifted {
            Some((from, to)) => {
                self.pointing.lifted = None;
                if from == to {
                    Release::Handle(from)
                } else {
                    Release::Drop { from, to }
                }
            },
            None => Release::Selection,
        }
    }

    /// A press on the document: menus close, and a checkbox is toggled, or a
    /// paragraph appended past the end, or the caret put where it landed.
    ///
    /// `checkbox` is the task block whose box it landed in, `below` whether it
    /// is past the last block, `selected` the selection it makes, and `hit` the
    /// position under it.
    pub fn pressed(
        &mut self,
        checkbox: Option<usize>,
        below: bool,
        selected: Option<Selection>,
        clicks: usize,
        shift: bool,
        hit: Option<Cursor>,
    ) -> (press: Press)
        requires
            old(self).wf(),
        ensures
            final(self).wf(),
            ({
                let before = Editor {
                    menus: Menus { pasted: None, ..old(self).menus },
                    ..*old(self)
                };
                match checkbox {
                    Some(ix) => press == Press::Toggled && Self::box_toggled(
                        before,
                        ix,
                        *final(self),
                    ),
                    None => if below && before.mode == Mode::Blocks && closed_at_end(before.doc) {
                        press == Press::Appended && Self::tail_appended(before, *final(self))
                    } else {
                        match selected {
                            None => press == Press::Missed && *final(self) == before,
                            Some(selection) => press matches Press::Selected(anchor)
                                && Self::press_placed(
                                before,
                                selection,
                                clicks == 1 && !shift,
                                hit,
                                anchor,
                                *final(self),
                            ),
                        }
                    },
                }
            }),
    {
        self.menus.pasted = None;
        // Ahead of the hit test, and returning without one: the box is a
        // control, and a caret dropped into the row behind it would move the
        // caret on every check.
        if let Some(ix) = checkbox {
            self.toggle_task(ix);
            return Press::Toggled;
        }
        if below && self.append_tail() {
            return Press::Appended;
        }
        let Some(selection) = selected else {
            return Press::Missed;
        };
        Press::Selected(self.place_press(selection, clicks == 1 && !shift, hit))
    }

    /// Whether `after` is `before` once a press has made a selection: the group
    /// the last edit opened is let go of, and the host hears of the comment the
    /// press landed on.
    pub open spec fn press_placed(
        before: Editor,
        selection: Selection,
        dragging: bool,
        hit: Option<Cursor>,
        anchor: Option<AnchorId>,
        after: Editor,
    ) -> bool {
        &&& anchor == (match hit {
            Some(at) => Self::anchor_under(before.anchors@, at, before.anchors@.len() as int),
            None => None,
        })
        &&& after.history@ == before.history@.interrupted()
        &&& after.events@ == (match anchor {
            Some(id) => before.events@.push(EditorEvent::AnchorActivated(id)),
            None => before.events@,
        })
        &&& after == (Editor {
            events: after.events,
            selection,
            pointing: Pointing { dragging, ..before.pointing },
            history: after.history,
            blinking: false,
            ..before
        })
    }

    /// A press makes a selection, and may be the start of a drag.
    fn place_press(&mut self, selection: Selection, dragging: bool, hit: Option<Cursor>) -> (anchor:
        Option<AnchorId>)
        requires
            old(self).wf(),
        ensures
            final(self).wf(),
            Self::press_placed(*old(self), selection, dragging, hit, anchor, *final(self)),
    {
        self.selection = selection;
        self.pointing.dragging = dragging;
        self.history.interrupt();
        self.caret_moved();
        // Only the editor sees the press, so only the editor can say which
        // anchor it landed on.
        let anchor = match hit {
            Some(at) => self.anchor_at(at),
            None => None,
        };
        if let Some(id) = anchor {
            self.events.push(EditorEvent::AnchorActivated(id));
        }
        anchor
    }

    /// Complete a motion of the caret.
    pub fn finish_caret_motion(&mut self, selection: Selection)
        requires
            old(self).wf(),
        ensures
            final(self).wf(),
            Self::caret_put(*old(self), selection, *final(self)),
    {
        self.selection = selection;
        self.history.interrupt();
        self.stored = Vec::new();
        self.menus.pasted = None;
        self.reveal = true;
        self.caret_moved();
    }

    /// A motion left or right, by a word, or to the edge of a row or of the
    /// document: `moved` is the selection there, where there is anywhere to go.
    pub fn motion(&mut self, moved: Option<Selection>)
        requires
            old(self).wf(),
        ensures
            final(self).wf(),
            match moved {
                Some(selection) => Self::caret_put(*old(self), selection, *final(self)),
                None => *final(self) == *old(self),
            },
    {
        if let Some(selection) = moved {
            self.finish_caret_motion(selection);
        }
    }

    /// Up and down, by one painted row: `moved` is the selection a row above or
    /// below, where there is one. A menu that is open is walked instead, and
    /// going down past the end of a document that cannot grow by itself gives
    /// it a paragraph.
    pub fn vertical(&mut self, down: bool, extend: bool, moved: Option<Selection>)
        requires
            old(self).wf(),
            old(self).selection.head.block < usize::MAX,
        ensures
            final(self).wf(),
            old(self).menus.pasted is Some || old(self).menus.slash is Some ==> *final(self)
                == *old(self),
            old(self).menus.pasted is None && old(self).menus.slash is None ==> match moved {
                Some(selection) => Self::caret_put(*old(self), selection, *final(self)),
                None => if down && !extend && old(self).mode == Mode::Blocks
                    && old(self).selection.head.block + 1 == old(self).doc.blocks@.len()
                    && closed_at_end(old(self).doc) {
                    Self::tail_appended(*old(self), *final(self))
                } else {
                    *final(self) == *old(self)
                },
            },
    {
        if self.menus.pasted.is_some() || self.menus.slash.is_some() {
            return ;
        }
        match moved {
            Some(selection) => {
                self.finish_caret_motion(selection);
            },
            None => {
                if down && !extend && self.selection.head.block + 1 == self.doc.blocks.len() {
                    self.append_tail();
                }
            },
        }
    }
}

/// Toggling a box twice leaves the document as it was.
pub proof fn a_box_toggled_twice_is_as_it_was(doc: Seq<BlockView>, ix: int)
    requires
        0 <= ix < doc.len(),
    ensures
        ({
            let once = doc.update(ix, toggled(doc[ix]));
            once.update(ix, toggled(once[ix])) == doc
        }),
{
    let once = doc.update(ix, toggled(doc[ix]));
    assert(once.update(ix, toggled(once[ix])) =~= doc);
}

/// A document given a paragraph past its end needs no other.
pub proof fn a_tail_is_appended_once(doc: Doc)
    requires
        doc.blocks@.len() > 0,
        doc@.last() == BlockView::blank(),
    ensures
        !closed_at_end(doc),
{
    assert(doc@.len() == doc.blocks@.len());
    assert(doc@.last() == doc.blocks@.last()@);
    let block = doc.blocks@.last();
    assert(block.listed() == seq![Part::Body]);
    assert(block.listed().last() == Part::Body);
}

} // verus!
