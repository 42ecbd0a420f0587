//! Switching between a document and its source, and stepping back and forth
//! between the moments an editor has been in.

use vstd::prelude::*;

use crate::editor::anchor::{Anchor, Delta};
use crate::editor::history::{EditKind, Mode, Step};
use crate::editor::surface;
use crate::editor::surface::{ensure_block, source_doc, Editor, EditorEvent, Menus, Pointing};
use crate::markdown::doc::{Cursor, Doc, Mark, Part, Selection, Span};
use crate::markdown::model::{BlockView, MarkView};
use crate::markdown::selectable;
use crate::markdown::selectable::slice;
use crate::text::string_of;

verus! {

/// The other form of a document, with the caret in it: the markdown it is
/// written as, or the document that markdown reads as.
pub enum Form {
    Source { source: String, offset: usize },
    Blocks { doc: Doc, at: Cursor },
}

impl Form {
    pub open spec fn mode(self) -> Mode {
        match self {
            Form::Source { .. } => Mode::Source,
            Form::Blocks { .. } => Mode::Blocks,
        }
    }

    /// Whether every table of it can be counted.
    pub open spec fn fits(self) -> bool {
        match self {
            Form::Source { .. } => true,
            Form::Blocks { doc, .. } => doc.fits(),
        }
    }

    /// Whether a document in this form, and the anchors in it, are these: the
    /// source in one fence, the caret at its byte; or the document, the caret
    /// and every anchor held inside it.
    pub open spec fn gives(
        self,
        before: Seq<Anchor>,
        doc: Doc,
        selection: Selection,
        anchors: Seq<Anchor>,
    ) -> bool {
        match self {
            Form::Source { source, offset } => {
                let at = Cursor { block: 0, part: Part::Code, offset };
                &&& doc@ == surface::source_view(source@)
                &&& surface::is_source(doc)
                &&& selection == (Selection { anchor: at, head: at })
                &&& anchors == before
            },
            Form::Blocks { doc: given, at } => {
                &&& if given.blocks@.len() > 0 {
                    doc == given
                } else {
                    doc@ == seq![BlockView::blank()]
                }
                &&& selection == (Selection { anchor: doc.nearest(at), head: doc.nearest(at) })
                &&& anchors.len() == before.len()
                &&& forall|i: int|
                    0 <= i < anchors.len() ==> #[trigger] anchors[i] == (Anchor {
                        range: before[i].range.held(doc),
                        ..before[i]
                    })
            },
        }
    }
}

/// What a toolbar reads to light itself, in one call.
///
/// Every field is a question a bar asks on every frame. Taken together so a bar
/// cannot answer half of them from one frame and half from the next.
#[derive(Clone, Debug, PartialEq, Eq)]
pub struct Formatting {
    /// Which form the document is in. In [`Mode::Source`] the markup is already
    /// spelled out, so [`Self::marks`] is empty and a bar has nothing to light.
    pub mode: Mode,
    /// The marks the selection carries throughout — and at a collapsed caret,
    /// the ones the next character typed would carry.
    pub marks: Vec<Mark>,
    /// What the caret's block is called, or `None` for a block the menu does
    /// not offer.
    pub block: Option<String>,
    /// Whether [`Mark::Code`] here makes a fence out of the selection rather
    /// than an inline span.
    pub fenceable: bool,
}

/// What some marks say.
pub open spec fn marks_view(marks: Seq<Mark>) -> Seq<MarkView> {
    Seq::new(marks.len(), |i: int| marks[i]@)
}

/// Some marks, and those of the first `n` of some others that are not among
/// them yet.
pub open spec fn lit(marks: Seq<MarkView>, stored: Seq<MarkView>, n: int) -> Seq<MarkView>
    decreases n,
{
    if n <= 0 {
        marks
    } else {
        let before = lit(marks, stored, n - 1);
        if before.contains(stored[n - 1]) {
            before
        } else {
            before.push(stored[n - 1])
        }
    }
}

/// What a copy takes.
#[derive(Clone, Debug, PartialEq, Eq)]
pub enum Copied {
    Nothing,
    /// Code as it stands, from inside one fence.
    Code(String),
    /// The selection, as the markdown it is written in.
    Markdown,
}

/// Whether a selection is prose covering more than one line — two texts, or
/// one line break inside a single one. `spans` is the bytes it covers of each
/// text.
pub open spec fn is_fenceable(doc: Doc, spans: Seq<(Cursor, Span)>) -> bool {
    &&& forall|i: int| 0 <= i < spans.len() ==> (#[trigger] spans[i]).0.part == Part::Body
    &&& spans.len() > 1 || exists|i: int|
        0 <= i < spans.len() && breaks(selectable::slice_of(
            doc,
            (#[trigger] spans[i]).0,
            spans[i].1,
        ))
}

/// Whether a text holds a line break.
pub open spec fn breaks(text: Option<Seq<char>>) -> bool {
    text matches Some(text) && text.contains('\n')
}

/// Whether a selection is prose covering more than one line.
///
/// What a chord means about a selection is the editor's to decide; a [`Doc`]
/// has no opinion about it. A selection reaching into a table or a fence is not
/// prose and keeps the inline behaviour, because half a table has no lines to
/// make a fence out of.
pub fn fenceable(doc: &Doc, spans: &Vec<(Cursor, Span)>) -> (yes: bool)
    requires
        doc.fits(),
    ensures
        yes == is_fenceable(*doc, spans@),
{
    let mut broken = false;
    let mut i: usize = 0;
    while i < spans.len()
        invariant
            doc.fits(),
            i <= spans@.len(),
            forall|j: int| 0 <= j < i ==> (#[trigger] spans@[j]).0.part == Part::Body,
            broken == exists|j: int|
                0 <= j < i && breaks(selectable::slice_of(
                    *doc,
                    (#[trigger] spans@[j]).0,
                    spans@[j].1,
                )),
        decreases spans@.len() - i,
    {
        let (at, span) = spans[i];
        if at.part != Part::Body {
            assert(spans@[i as int].0.part != Part::Body);
            return false;
        }
        let covered = match slice(doc, at, span) {
            Some(chars) => has_break(&chars),
            None => false,
        };
        if covered {
            assert(breaks(selectable::slice_of(*doc, spans@[i as int].0, spans@[i as int].1)));
            broken = true;
        }
        i = i + 1;
    }
    spans.len() > 1 || broken
}

fn has_break(chars: &Vec<char>) -> (yes: bool)
    ensures
        yes == chars@.contains('\n'),
{
    let mut i: usize = 0;
    while i < chars.len()
        invariant
            i <= chars@.len(),
            forall|j: int| 0 <= j < i ==> #[trigger] chars@[j] != '\n',
        decreases chars@.len() - i,
    {
        if chars[i] == '\n' {
            return true;
        }
        i = i + 1;
    }
    false
}

/// The anchors, each held inside a document.
fn hold_anchors(anchors: &Vec<Anchor>, doc: &Doc) -> (held: Vec<Anchor>)
    requires
        doc.fits(),
    ensures
        held@.len() == anchors@.len(),
        forall|i: int|
            0 <= i < held@.len() ==> #[trigger] held@[i] == (Anchor {
                range: anchors@[i].range.held(*doc),
                ..anchors@[i]
            }),
{
    let mut held: Vec<Anchor> = Vec::new();
    let mut i: usize = 0;
    while i < anchors.len()
        invariant
            doc.fits(),
            i <= anchors@.len(),
            held@.len() == i,
            forall|j: int|
                0 <= j < i ==> #[trigger] held@[j] == (Anchor {
                    range: anchors@[j].range.held(*doc),
                    ..anchors@[j]
                }),
        decreases anchors@.len() - i,
    {
        let anchor = anchors[i];
        held.push(Anchor { range: anchor.range.clamp(doc), ..anchor });
        i = i + 1;
    }
    held
}

impl Editor {
    /// The text of the fence the source is held in — what is being edited in
    /// [`Mode::Source`]. Only meaningful there; in [`Mode::Blocks`] the
    /// document is the truth and this is whatever block zero happens to be.
    pub fn source_text(&self) -> (source: &str)
        requires
            self.wf(),
        ensures
            source@ == (match self.doc.blocks@[0].text_in(Part::Code) {
                Some(text) => text.text@,
                None => Seq::empty(),
            }),
    {
        match self.doc.blocks[0].text_at(Part::Code) {
            Some(text) => text.text.as_str(),
            None => {
                proof {
                    reveal_strlit("");
                    assert(""@ =~= Seq::empty());
                }
                ""
            },
        }
    }

    /// The document as markdown: `normal` is what it reads as normalized, the
    /// form that survives being read back. In [`Mode::Source`] it is the text
    /// being edited, exactly as it stands.
    pub fn source(&self, normal: String) -> (source: String)
        requires
            self.wf(),
        ensures
            source@ == (match self.mode {
                Mode::Blocks => normal@,
                Mode::Source => match self.doc.blocks@[0].text_in(Part::Code) {
                    Some(text) => text.text@,
                    None => Seq::empty(),
                },
            }),
    {
        match self.mode {
            Mode::Blocks => normal,
            Mode::Source => self.source_text().to_owned(),
        }
    }

    /// Shut everything floating. A switch of mode is a new document as far as
    /// a menu anchored to a block is concerned.
    pub fn dismiss_menus(&mut self)
        ensures
            *final(self) == (Editor {
                menus: Menus { slash: None, pasted: None, url_prompt: None },
                pointing: Pointing {
                    hovered: None,
                    lifted: None,
                    dropping: None,
                    ..old(self).pointing
                },
                ..*old(self)
            }),
    {
        self.menus = Menus { slash: None, pasted: None, url_prompt: None };
        self.pointing.hovered = None;
        self.pointing.lifted = None;
        self.pointing.dropping = None;
    }

    /// Whether `after` is `before` switched to another form: the document, the
    /// caret and the anchors are those it gives, a step is recorded, everything
    /// floating is shut, and the host is told.
    pub open spec fn switched(before: Editor, to: Form, after: Editor) -> bool {
        &&& to.gives(before.anchors@, after.doc, after.selection, after.anchors@)
        &&& after.history@ == before.history@.recorded(
            EditKind::Structure,
            before.moment(),
        ).landed(EditKind::Structure, after.selection)
        &&& after.events@ == before.events@ + seq![
            EditorEvent::ModeChanged(to.mode()),
            EditorEvent::Changed,
        ]
        &&& after == (Editor {
            events: after.events,
            doc: after.doc,
            mode: to.mode(),
            selection: after.selection,
            anchors: after.anchors,
            history: after.history,
            menus: Menus { slash: None, pasted: None, url_prompt: None },
            pointing: Pointing { hovered: None, lifted: None, dropping: None, ..before.pointing },
            reveal: true,
            blinking: false,
            ..before
        })
    }

    /// Switch between the document and its markdown, carrying the caret across,
    /// where it is not in that form already.
    ///
    /// One undo step, and one the history knows the mode of: stepping back
    /// over a switch puts the document back in the form it was edited in.
    ///
    /// A comment anchor does not follow an edit made to the source — there are
    /// no blocks there to anchor to — and is clamped back onto the document on
    /// the way out.
    pub fn set_mode(&mut self, to: Form)
        requires
            old(self).wf(),
            to.fits(),
        ensures
            final(self).wf(),
            to.mode() == old(self).mode ==> *final(self) == *old(self),
            to.mode() != old(self).mode ==> Self::switched(*old(self), to, *final(self)),
    {
        let ghost before = *self;
        let mode = match &to {
            Form::Source { .. } => Mode::Source,
            Form::Blocks { .. } => Mode::Blocks,
        };
        if mode == self.mode {
            return ;
        }
        let moment = self.switch(to);
        assert(moment == before.moment());
        self.history.record(EditKind::Structure, moment);
        self.dismiss_menus();
        self.history.landed(EditKind::Structure, self.selection);
        self.reveal = true;
        self.caret_moved();
        self.events.push(EditorEvent::ModeChanged(mode));
        self.events.push(EditorEvent::Changed);
        assert(self.events@ =~= before.events@ + seq![
            EditorEvent::ModeChanged(mode),
            EditorEvent::Changed,
        ]);
    }

    /// Open in another form rather than on the document. Nothing is recorded:
    /// this is where the document starts, not a switch to step back over.
    pub fn with_mode(self, to: Form) -> (editor: Editor)
        requires
            self.wf(),
            to.fits(),
        ensures
            editor.wf(),
            to.mode() == self.mode ==> editor == self,
            to.mode() != self.mode ==> {
                &&& to.gives(self.anchors@, editor.doc, editor.selection, editor.anchors@)
                &&& editor == (Editor {
                    doc: editor.doc,
                    mode: to.mode(),
                    selection: editor.selection,
                    anchors: editor.anchors,
                    ..self
                })
            },
    {
        let mut editor = self;
        let mode = match &to {
            Form::Source { .. } => Mode::Source,
            Form::Blocks { .. } => Mode::Blocks,
        };
        if mode != editor.mode {
            editor.switch(to);
        }
        editor
    }

    /// Turn the document into the other form, caret and all, handing back the
    /// moment that was.
    fn switch(&mut self, to: Form) -> (moment: Step)
        requires
            old(self).wf(),
            to.fits(),
        ensures
            final(self).wf(),
            moment == old(self).moment(),
            to.gives(
                old(self).anchors@,
                final(self).doc,
                final(self).selection,
                final(self).anchors@,
            ),
            *final(self) == (Editor {
                doc: final(self).doc,
                mode: to.mode(),
                selection: final(self).selection,
                anchors: final(self).anchors,
                ..*old(self)
            }),
    {
        let mut doc: Doc;
        let selection: Selection;
        let mut anchors: Vec<Anchor>;
        let mode: Mode;
        match to {
            Form::Source { source, offset } => {
                doc = source_doc(source.as_str());
                selection = Selection::at(Cursor::new(0, Part::Code, offset));
                anchors = surface::copy_anchors(&self.anchors);
                mode = Mode::Source;
            },
            Form::Blocks { doc: given, at } => {
                doc = given;
                ensure_block(&mut doc);
                selection = Selection::at(doc.clamp(at));
                anchors = hold_anchors(&self.anchors, &doc);
                mode = Mode::Blocks;
            },
        }
        std::mem::swap(&mut self.doc, &mut doc);
        std::mem::swap(&mut self.anchors, &mut anchors);
        let moment = Step { doc, mode: self.mode, selection: self.selection, anchors };
        self.selection = selection;
        self.mode = mode;
        moment
    }

    /// The form a toggle in the app's own chrome switches to: [`Mode::Source`]
    /// if the document is in blocks, and back again.
    pub fn other_mode(&self) -> (mode: Mode)
        ensures
            mode == (match self.mode {
                Mode::Blocks => Mode::Source,
                Mode::Source => Mode::Blocks,
            }),
    {
        match self.mode {
            Mode::Blocks => Mode::Source,
            Mode::Source => Mode::Blocks,
        }
    }

    /// What a toggle in the app's own chrome does: the document goes to the
    /// form it is not in, `to` being it in that form.
    pub fn toggle_source(&mut self, to: Form)
        requires
            old(self).wf(),
            to.fits(),
            to.mode() != old(self).mode,
        ensures
            final(self).wf(),
            Self::switched(*old(self), to, *final(self)),
    {
        self.set_mode(to);
    }

    /// What restoring a moment leaves: its document, its anchors, its mode and
    /// its selection, held inside the document. A change of mode shuts
    /// everything floating.
    pub open spec fn restored(before: Editor, step: Step, after: Editor) -> bool {
        after == (Editor {
            doc: step.doc,
            mode: step.mode,
            selection: step.selection.held(step.doc),
            anchors: step.anchors,
            history: after.history,
            events: after.events,
            blinking: false,
            menus: if step.mode == before.mode {
                before.menus
            } else {
                Menus { slash: None, pasted: None, url_prompt: None }
            },
            pointing: if step.mode == before.mode {
                before.pointing
            } else {
                Pointing { hovered: None, lifted: None, dropping: None, ..before.pointing }
            },
            ..before
        })
    }

    /// What a host is told of a moment restored.
    pub open spec fn tells(mode: Mode, step: Step) -> Seq<EditorEvent> {
        if step.mode == mode {
            seq![EditorEvent::Changed]
        } else {
            seq![EditorEvent::ModeChanged(step.mode), EditorEvent::Changed]
        }
    }

    /// Step back, where there is a step to take.
    pub fn undo(&mut self)
        requires
            old(self).wf(),
        ensures
            final(self).wf(),
            old(self).history@.stacks.undo.len() == 0 ==> *final(self) == *old(self),
            old(self).history@.stacks.undo.len() > 0 ==> {
                let step = old(self).history@.stacks.undo.last();
                &&& Self::restored(*old(self), step, *final(self))
                &&& final(self).history@ == old(self).history@.stepped_back(old(self).moment())
                &&& final(self).events@ == old(self).events@ + Self::tells(old(self).mode, step)
            },
    {
        let ghost before = *self;
        if !self.history.can_undo() {
            return ;
        }
        let now = self.leave();
        assert(now == before.moment());
        if let Some(step) = self.history.undo(now) {
            self.restore(step);
        }
    }

    /// Step forward, where there is a step to take.
    pub fn redo(&mut self)
        requires
            old(self).wf(),
        ensures
            final(self).wf(),
            old(self).history@.stacks.redo.len() == 0 ==> *final(self) == *old(self),
            old(self).history@.stacks.redo.len() > 0 ==> {
                let step = old(self).history@.stacks.redo.last();
                &&& Self::restored(*old(self), step, *final(self))
                &&& final(self).history@ == old(self).history@.stepped_on(old(self).moment())
                &&& final(self).events@ == old(self).events@ + Self::tells(old(self).mode, step)
            },
    {
        let ghost before = *self;
        if !self.history.can_redo() {
            return ;
        }
        let now = self.leave();
        assert(now == before.moment());
        if let Some(step) = self.history.redo(now) {
            self.restore(step);
        }
    }

    /// Takes the moment the editor is in out of it.
    fn leave(&mut self) -> (moment: Step)
        ensures
            moment == old(self).moment(),
            *final(self) == (Editor {
                doc: final(self).doc,
                anchors: final(self).anchors,
                ..*old(self)
            }),
    {
        let mut doc = Doc { blocks: Vec::new() };
        let mut anchors: Vec<Anchor> = Vec::new();
        std::mem::swap(&mut self.doc, &mut doc);
        std::mem::swap(&mut self.anchors, &mut anchors);
        Step { doc, mode: self.mode, selection: self.selection, anchors }
    }

    /// Put a whole moment back — document, caret and anchors together.
    ///
    /// The anchors come from the snapshot rather than from mapping, because a
    /// step back is not an edit: there is no delta between here and a document
    /// two hundred keystrokes ago.
    fn restore(&mut self, step: Step)
        requires
            surface::lives(step.doc, step.mode),
        ensures
            Self::restored(*old(self), step, *final(self)),
            final(self).history == old(self).history,
            final(self).events@ == old(self).events@ + Self::tells(old(self).mode, step),
    {
        self.doc = step.doc;
        self.selection = step.selection.clamp(&self.doc);
        self.caret_moved();
        self.anchors = step.anchors;
        if step.mode != self.mode {
            self.mode = step.mode;
            self.dismiss_menus();
            self.events.push(EditorEvent::ModeChanged(step.mode));
        }
        self.events.push(EditorEvent::Changed);
        assert(self.events@ =~= old(self).events@ + Self::tells(old(self).mode, step));
    }

    /// What a toolbar needs to light itself. `marks` is those the selection
    /// carries throughout, `block` what the caret's block is called, and `spans`
    /// the bytes the selection covers of each text.
    pub fn formatting(
        &self,
        marks: Vec<Mark>,
        block: Option<String>,
        spans: &Vec<(Cursor, Span)>,
    ) -> (formatting: Formatting)
        requires
            self.wf(),
        ensures
            formatting.mode == self.mode,
            formatting.block == block,
            formatting.fenceable == (self.mode == Mode::Blocks && is_fenceable(self.doc, spans@)),
            // A stored mark is one a chord has already taken and nothing has
            // spent yet, so the button that took it stays lit.
            marks_view(formatting.marks@) == (if self.mode == Mode::Blocks {
                lit(marks_view(marks@), marks_view(self.stored@), self.stored@.len() as int)
            } else {
                Seq::empty()
            }),
    {
        let ghost given = marks_view(marks@);
        let lit_marks = if self.blocks() {
            let mut marks = marks;
            let mut n: usize = 0;
            while n < self.stored.len()
                invariant
                    n <= self.stored@.len(),
                    marks_view(marks@) == lit(given, marks_view(self.stored@), n as int),
                decreases self.stored@.len() - n,
            {
                let mark = &self.stored[n];
                assert(marks_view(self.stored@)[n as int] == mark@);
                if !among(&marks, mark) {
                    let ghost so_far = marks_view(marks@);
                    marks.push(mark.copy());
                    assert(marks_view(marks@) =~= so_far.push(mark@));
                }
                n = n + 1;
            }
            marks
        } else {
            let none: Vec<Mark> = Vec::new();
            assert(marks_view(none@) =~= Seq::empty());
            none
        };
        Formatting {
            mode: self.mode,
            marks: lit_marks,
            block,
            fenceable: self.blocks() && fenceable(&self.doc, spans),
        }
    }

    /// Whether the selection starts and ends in one fence's code.
    pub open spec fn fenced(selection: Selection) -> bool {
        let (start, end) = selection.ends();
        start.part == Part::Code && end.part == Part::Code && start.block == end.block
    }

    /// Whether the selection starts and ends in one fence's code.
    pub fn in_fence(&self) -> (yes: bool)
        ensures
            yes == Self::fenced(self.selection),
    {
        let (start, end) = self.selection.ordered();
        start.part == Part::Code && end.part == Part::Code && start.block == end.block
    }

    /// What a copy puts on the clipboard, and what a paste elsewhere reads
    /// back: the selection as markdown, and inside one fence, the code as it
    /// stands.
    pub fn selected_source(&self) -> (copied: Copied)
        requires
            self.wf(),
        ensures
            self.selection.anchor == self.selection.head ==> copied is Nothing,
            self.selection.anchor != self.selection.head && !Self::fenced(self.selection)
                ==> copied is Markdown,
            self.selection.anchor != self.selection.head && Self::fenced(self.selection) ==> {
                let (start, end) = self.selection.held(self.doc).ends();
                let code = selectable::slice_of(
                    self.doc,
                    Cursor { part: Part::Code, ..start },
                    Span { start: start.offset, end: end.offset },
                );
                match copied {
                    Copied::Code(text) => code == Some(text@),
                    Copied::Nothing => code is None,
                    Copied::Markdown => false,
                }
            },
    {
        if self.selection.is_collapsed() {
            return Copied::Nothing;
        }
        if !self.in_fence() {
            return Copied::Markdown;
        }
        let (start, end) = self.selection.clamp(&self.doc).ordered();
        let at = Cursor { part: Part::Code, ..start };
        match slice(&self.doc, at, Span { start: start.offset, end: end.offset }) {
            Some(chars) => Copied::Code(string_of(&chars)),
            None => Copied::Nothing,
        }
    }
}

/// Whether a mark is among some.
fn among(marks: &Vec<Mark>, mark: &Mark) -> (yes: bool)
    ensures
        yes == marks_view(marks@).contains(mark@),
{
    let mut i: usize = 0;
    while i < marks.len()
        invariant
            i <= marks@.len(),
            forall|j: int| 0 <= j < i ==> #[trigger] marks_view(marks@)[j] != mark@,
        decreases marks@.len() - i,
    {
        assert(marks_view(marks@)[i as int] == marks@[i as int]@);
        if marks[i].is(mark) {
            return true;
        }
        i = i + 1;
    }
    false
}

/// Undo gives back what an edit changed. Where an edit starts a step of its
/// own, stepping back from it restores the document, the mode, the anchors and
/// the selection of the moment before it, and stepping forward again restores
/// what it made: `after` is `before` edited, and `back` is `after` undone.
pub proof fn an_edit_is_taken_back(
    before: Editor,
    kind: EditKind,
    made: Doc,
    at: Selection,
    deltas: Seq<Delta>,
    after: Editor,
    back: Editor,
)
    requires
        before.wf(),
        before.history@.stacks.limit > 0,
        !before.history@.joins(kind, before.selection),
        Editor::edited(before, kind, made, at, deltas, after),
        Editor::restored(after, after.history@.stacks.undo.last(), back),
        back.history@ == after.history@.stepped_back(after.moment()),
    ensures
        after.history@.stacks.undo.len() > 0,
        back.doc == before.doc,
        back.mode == before.mode,
        back.anchors == before.anchors,
        back.selection == before.selection.held(before.doc),
        back.history@.stacks.redo.last() == after.moment(),
{
    crate::editor::history::an_edit_can_be_undone(
        before.history@,
        kind,
        before.moment(),
        after.selection,
    );
}

/// The source gives the document and the caret back. `between` is `before`
/// switched from its blocks to its source, which is held as it was written with
/// the caret at the byte it was carried to, and `after` is `between` switched
/// back, the document and the caret being handed in as they were. The document
/// is the one there was, and so is the caret, which is held inside it.
pub proof fn the_source_gives_the_document_back(
    before: Editor,
    source: String,
    offset: usize,
    between: Editor,
    after: Editor,
)
    requires
        before.wf(),
        before.mode == Mode::Blocks,
        Editor::switched(before, Form::Source { source, offset }, between),
        Editor::switched(
            between,
            Form::Blocks { doc: before.doc, at: before.selection.head },
            after,
        ),
    ensures
        between.mode == Mode::Source,
        between.doc@ == surface::source_view(source@),
        between.doc.blocks@[0].text_in(Part::Code) matches Some(text) && text.text@ == source@,
        between.selection.head == (Cursor { block: 0, part: Part::Code, offset }),
        between.anchors@ == before.anchors@,
        after.mode == before.mode,
        after.doc == before.doc,
        after.selection.anchor == after.selection.head,
        after.selection.head == before.doc.nearest(before.selection.head),
        before.selection.head == before.doc.nearest(before.selection.head)
            ==> after.selection.head == before.selection.head,
        after.anchors@.len() == before.anchors@.len(),
        forall|i: int|
            0 <= i < before.anchors@.len() ==> #[trigger] after.anchors@[i] == (Anchor {
                range: before.anchors@[i].range.held(before.doc),
                ..before.anchors@[i]
            }),
{
    assert(between.doc.blocks@[0]@ == between.doc@[0]);
}

} // verus!
