//! The editing surface.
//!
//! The document is the single source of truth: a selection is a pair of
//! positions into one [`Doc`], which is what makes Enter split, Backspace merge
//! and Tab indent into list operations rather than negotiations between
//! separate widgets each owning a string.

use vstd::prelude::*;

use crate::editor::anchor::{Anchor, AnchorId, Delta};
use crate::editor::history::{EditKind, History, Mode, Step};
use crate::markdown::doc;
use crate::markdown::doc::{Block, BlockKind, Cursor, Doc, Mark, Part, Selection, Span, Text};
use crate::markdown::layout::{BlockLayouts, Frames, PaintedAt};
use crate::markdown::model::{BlockView, KindView, TextView};
use crate::markdown::overlay::Annotation;
use crate::text;
use crate::text::{bytes_in, chars_of, string_of};

verus! {

/// What the source view's one fence is tagged with.
pub const SOURCE_LANGUAGE: &'static str = "markdown";

/// Shown on the focused block while it is empty — the only discoverable place
/// to say that `/` does anything.
pub const PLACEHOLDER: &'static str = "Type / for commands";

/// Half the caret's blink period, in milliseconds.
pub const BLINK: u64 = 500;

/// What the editor tells its host about.
///
/// An app holding comment threads has to hear that the document moved, or its
/// side of the pairing goes stale against anchors that did not.
#[derive(Clone, Copy, Debug, PartialEq, Eq, Structural)]
pub enum EditorEvent {
    /// The document is different, and the anchors have been mapped through it.
    Changed,
    /// A click landed on an anchor's range.
    AnchorActivated(AnchorId),
    /// The editor switched between the document and its source, which a host
    /// lighting its own toggle has no other way to hear about — the switch can
    /// come from an undo as well as from the button.
    ModeChanged(Mode),
}

/// Which of the editor's own affordances are on.
///
/// All of them unless an app says otherwise: a document with nothing
/// discoverable on it is the wrong default for a library.
#[derive(Clone, Copy, Debug, PartialEq, Eq, Structural)]
pub struct Chrome {
    /// The gutter handle, the menu it opens, and dragging a block by it.
    pub handle: bool,
    /// The `/` menu at an empty block.
    pub slash: bool,
    /// A fence's language label, and the picker it opens.
    pub language: bool,
    /// The menu a pasted URL drops — leave it, or make a card, a chip or the
    /// picture it points at.
    pub paste: bool,
}

impl Default for Chrome {
    fn default() -> (chrome: Chrome)
        ensures
            chrome == (Chrome { handle: true, slash: true, language: true, paste: true }),
    {
        Chrome { handle: true, slash: true, language: true, paste: true }
    }
}

/// The open paste menu: where a URL landed, and whether its block held nothing
/// else.
#[derive(Clone, Debug, PartialEq, Eq)]
pub struct Paste {
    pub at: Cursor,
    pub url: String,
    pub alone: bool,
}

/// What floats over the document.
#[derive(Clone, Debug, PartialEq, Eq)]
pub struct Menus {
    /// Where the `/` that opened the slash menu is, while it is open.
    pub slash: Option<Cursor>,
    /// The open paste menu, if a URL landed in a block of its own.
    pub pasted: Option<Paste>,
    /// The image waiting to be told where to look.
    pub url_prompt: Option<usize>,
}

/// What the pointer is doing.
#[derive(Clone, Copy, Debug, PartialEq, Eq)]
pub struct Pointing {
    /// The block the pointer is over, which is the only one showing a handle.
    pub hovered: Option<usize>,
    /// The block a file being dragged over the document would land after.
    pub dropping: Option<usize>,
    /// A block being dragged by its handle, and where it would land.
    pub lifted: Option<(usize, usize)>,
    /// An image being dragged wider or narrower by its edge handle, and the
    /// width it holds now — `None` being the natural one. The document only
    /// learns the final width on release; carrying the document's own value
    /// here is what makes a press that never moved read back as no change.
    pub resizing: Option<(usize, Option<u32>)>,
    /// Whether the pointer is dragging out a selection.
    pub dragging: bool,
    /// Whether the pointer is over painted text.
    pub over_text: bool,
    /// Set by a floating layer's press, so the editor's own press does not undo
    /// what that press just did.
    pub press_claimed: bool,
}

impl Pointing {
    /// A pointer that is doing nothing.
    pub open spec fn idle() -> Pointing {
        Pointing {
            hovered: None,
            dropping: None,
            lifted: None,
            resizing: None,
            dragging: false,
            over_text: false,
            press_claimed: false,
        }
    }
}

/// What an edit made of the document, and how it moved the positions in it.
pub struct Change {
    pub doc: Doc,
    pub selection: Selection,
    pub deltas: Vec<Delta>,
}

/// A document being edited.
pub struct Editor {
    pub doc: Doc,
    /// Which form the document is in. In [`Mode::Source`] `doc` is one fenced
    /// block holding the markdown.
    pub mode: Mode,
    pub selection: Selection,
    /// Comment ranges, mapped through every edit and snapshotted with the
    /// document.
    pub anchors: Vec<Anchor>,
    pub history: History,
    /// Where each text landed last frame.
    pub layouts: BlockLayouts,
    pub chrome: Chrome,
    /// The composition range within the caret's text.
    pub marked: Option<Span>,
    /// Marks the next typed character will carry. Cleared by any motion,
    /// because they belong to a spot and not to a mood.
    pub stored: Vec<Mark>,
    pub menus: Menus,
    pub pointing: Pointing,
    /// Whether the caret still owes the host's scroll box a reveal.
    pub reveal: bool,
    /// Which half of the blink the caret is in.
    pub caret_on: bool,
    /// Whether the caret is blinking.
    pub blinking: bool,
    /// What the host has still to hear, in the order it happened.
    pub events: Vec<EditorEvent>,
}

/// Whether a document is the one fence a source is held in.
pub open spec fn is_source(doc: Doc) -> bool {
    doc.blocks@.len() == 1 && doc.blocks@[0].kind is Code
}

/// Whether a moment is one an editor can be in.
pub open spec fn lives(doc: Doc, mode: Mode) -> bool {
    doc.fits() && doc.blocks@.len() > 0 && (mode == Mode::Source ==> is_source(doc))
}

/// The first text of a block, where it has one.
pub open spec fn first_text(block: Block) -> Option<Seq<char>> {
    if block.listed().len() > 0 {
        match block.text_in(block.listed()[0]) {
            Some(text) => Some(text.text@),
            None => None,
        }
    } else {
        None
    }
}

/// The first texts of the first `n` blocks, a newline between each.
pub open spec fn joined(blocks: Seq<Block>, n: int) -> Option<Seq<char>>
    decreases n,
{
    if n <= 0 {
        None
    } else {
        match (joined(blocks, n - 1), first_text(blocks[n - 1])) {
            (Some(before), Some(text)) => Some(before.push('\n') + text),
            (None, text) => text,
            (before, None) => before,
        }
    }
}

/// The text a document holds as a source.
pub open spec fn source_of(doc: Doc) -> Seq<char> {
    match joined(doc.blocks@, doc.blocks@.len() as int) {
        Some(text) => text,
        None => Seq::empty(),
    }
}

/// What a document holding a source says: one fence.
pub open spec fn source_view(source: Seq<char>) -> Seq<BlockView> {
    seq![
        BlockView {
            kind: KindView::Code {
                language: Some(SOURCE_LANGUAGE@),
                code: TextView { text: source, marks: Seq::empty() },
            },
            indent: 0,
        },
    ]
}

/// Give an empty document a block to hold a caret, and say whether one was
/// needed.
///
/// A [`Doc`] with no blocks is a legitimate document, but it is not something
/// that can be edited: nothing paints, so there is no caret and no placeholder,
/// and neither a click nor a hit test has a target to find.
pub fn ensure_block(doc: &mut Doc) -> (needed: bool)
    requires
        old(doc).fits(),
    ensures
        final(doc).fits(),
        needed == (old(doc).blocks@.len() == 0),
        !needed ==> *final(doc) == *old(doc),
        needed ==> {
            &&& final(doc)@ == seq![BlockView::blank()]
            &&& final(doc).blocks@.len() == 1
            &&& final(doc).blocks@[0].kind is Paragraph
        },
{
    if doc.blocks.len() > 0 {
        return false;
    }
    doc.blocks.push(Block::blank());
    assert(doc@ =~= seq![BlockView::blank()]);
    true
}

/// The document a source view is edited as: one fence holding the markdown.
///
/// A fence rather than a paragraph because a fence is the block whose caret
/// already behaves like a plain text editor's — Enter is a newline, nothing
/// typed into it is markup, and its lines are laid out one per source line.
pub fn source_doc(source: &str) -> (doc: Doc)
    ensures
        doc@ == source_view(source@),
        is_source(doc),
        doc.fits(),
{
    let code = Text::plain(source);
    assert(code@ =~= TextView { text: source@, marks: Seq::empty() });
    let mut blocks: Vec<Block> = Vec::new();
    blocks.push(
        Block::new(BlockKind::Code { language: Some(SOURCE_LANGUAGE.to_owned()), code }),
    );
    let doc = Doc { blocks };
    assert(doc@ =~= source_view(source@));
    doc
}

/// The text a document holds as a source.
fn source_text_of(doc: &Doc) -> (source: Vec<char>)
    requires
        doc.fits(),
    ensures
        source@ == source_of(*doc),
{
    let mut out: Vec<char> = Vec::new();
    let mut any = false;
    let mut n: usize = 0;
    while n < doc.blocks.len()
        invariant
            doc.fits(),
            n <= doc.blocks@.len(),
            any == (joined(doc.blocks@, n as int) is Some),
            any ==> out@ == joined(doc.blocks@, n as int)->0,
            !any ==> out@.len() == 0,
        decreases doc.blocks@.len() - n,
    {
        let block = &doc.blocks[n];
        assert(doc.blocks@[n as int].fits());
        let parts = block.parts();
        if parts.len() > 0 {
            if let Some(text) = block.text_at(parts[0]) {
                if any {
                    out.push('\n');
                }
                let mut chars = chars_of(text.text.as_str());
                out.append(&mut chars);
                any = true;
            }
        }
        n = n + 1;
        proof {
            assert(any ==> out@ =~= joined(doc.blocks@, n as int)->0);
        }
    }
    proof {
        assert(!any ==> out@ =~= Seq::empty());
    }
    out
}

/// The anchors after some deltas.
pub open spec fn mapped(anchors: Seq<Anchor>, deltas: Seq<Delta>) -> Seq<Anchor> {
    Seq::new(anchors.len(), |i: int| anchors[i].after_all(deltas, deltas.len() as int))
}

fn map_anchor(anchor: Anchor, deltas: &Vec<Delta>) -> (after: Anchor)
    requires
        anchor.follows_all(deltas@, deltas@.len() as int),
    ensures
        after == anchor.after_all(deltas@, deltas@.len() as int),
{
    let mut after = anchor;
    let mut n: usize = 0;
    while n < deltas.len()
        invariant
            anchor.follows_all(deltas@, deltas@.len() as int),
            n <= deltas@.len(),
            after == anchor.after_all(deltas@, n as int),
        decreases deltas@.len() - n,
    {
        let delta = deltas[n];
        assert(after.follows(deltas@[n as int]));
        after.map(&delta);
        n = n + 1;
    }
    after
}

fn map_anchors(anchors: &Vec<Anchor>, deltas: &Vec<Delta>) -> (after: Vec<Anchor>)
    requires
        forall|i: int|
            0 <= i < anchors@.len() ==> (#[trigger] anchors@[i]).follows_all(
                deltas@,
                deltas@.len() as int,
            ),
    ensures
        after@ == mapped(anchors@, deltas@),
{
    let mut after: Vec<Anchor> = Vec::new();
    let mut i: usize = 0;
    while i < anchors.len()
        invariant
            forall|i: int|
                0 <= i < anchors@.len() ==> (#[trigger] anchors@[i]).follows_all(
                    deltas@,
                    deltas@.len() as int,
                ),
            i <= anchors@.len(),
            after@ == mapped(anchors@, deltas@).take(i as int),
        decreases anchors@.len() - i,
    {
        let anchor = map_anchor(anchors[i], deltas);
        after.push(anchor);
        assert(after@ =~= mapped(anchors@, deltas@).take(i + 1));
        i = i + 1;
    }
    assert(after@ =~= mapped(anchors@, deltas@));
    after
}

impl Editor {
    /// What holds of an editor between one call and the next: a document there
    /// is somewhere to put a caret in, one fence where it is the source, and a
    /// past of nothing but such moments, no longer than its limit.
    pub open spec fn wf(&self) -> bool {
        &&& lives(self.doc, self.mode)
        &&& self.history@.stacks.wf()
        &&& forall|i: int|
            0 <= i < self.history@.stacks.undo.len() ==> lives(
                (#[trigger] self.history@.stacks.undo[i]).doc,
                self.history@.stacks.undo[i].mode,
            )
        &&& forall|i: int|
            0 <= i < self.history@.stacks.redo.len() ==> lives(
                (#[trigger] self.history@.stacks.redo[i]).doc,
                self.history@.stacks.redo[i].mode,
            )
    }

    /// The moment the editor is in.
    pub open spec fn moment(&self) -> Step {
        Step {
            doc: self.doc,
            mode: self.mode,
            selection: self.selection,
            anchors: self.anchors,
        }
    }

    /// Whether an edit can be made: its document has a length everywhere, and
    /// every anchor can be held where the edit puts it.
    pub open spec fn takes(&self, doc: Doc, deltas: Seq<Delta>) -> bool {
        &&& doc.fits()
        &&& self.mode == Mode::Blocks ==> forall|i: int|
            0 <= i < self.anchors@.len() ==> (#[trigger] self.anchors@[i]).follows_all(
                deltas,
                deltas.len() as int,
            )
    }

    /// What an edit leaves of the document and the selection it made. A
    /// document left empty is given a block, the caret at its start; a source
    /// that is no longer one fence is put back into one, with the text it held.
    pub open spec fn leaves(
        &self,
        made: Doc,
        at: Selection,
        doc: Doc,
        selection: Selection,
    ) -> bool {
        if self.mode == Mode::Source && !is_source(made) {
            let source = source_of(made);
            &&& doc@ == source_view(source)
            &&& is_source(doc)
            &&& selection.anchor == selection.head
            &&& selection.head.block == 0 && selection.head.part == Part::Code
            &&& selection.head.offset == (if at.head.offset <= text::byte_len(source) {
                at.head.offset as int
            } else {
                text::byte_len(source) as int
            })
        } else if made.blocks@.len() == 0 {
            let start = Cursor { block: 0, part: Part::Body, offset: 0 };
            doc@ == seq![BlockView::blank()] && selection == (Selection {
                anchor: start,
                head: start,
            })
        } else {
            doc == made && selection == at
        }
    }

    /// Whether `after` is `before` edited: the document and the selection the
    /// edit made, a step recorded, every anchor mapped, last frame's positions
    /// let go of, the host told, and nothing else different.
    pub open spec fn edited(
        before: Editor,
        kind: EditKind,
        doc: Doc,
        selection: Selection,
        deltas: Seq<Delta>,
        after: Editor,
    ) -> bool {
        &&& before.leaves(doc, selection, after.doc, after.selection)
        &&& after.history@ == before.history@.recorded(kind, before.moment()).landed(
            kind,
            after.selection,
        )
        &&& after.anchors@ == (if before.mode == Mode::Blocks {
            mapped(before.anchors@, deltas)
        } else {
            before.anchors@
        })
        &&& after.layouts@ == Frames::empty()
        &&& after.events@ == before.events@.push(EditorEvent::Changed)
        &&& after == (Editor {
            events: after.events,
            doc: after.doc,
            selection: after.selection,
            anchors: after.anchors,
            history: after.history,
            layouts: after.layouts,
            menus: Menus { pasted: None, ..before.menus },
            reveal: true,
            blinking: false,
            ..before
        })
    }

    pub fn new(doc: Doc) -> (editor: Editor)
        requires
            doc.fits(),
        ensures
            editor.wf(),
            doc.blocks@.len() > 0 ==> editor.doc == doc,
            doc.blocks@.len() == 0 ==> editor.doc@ == seq![BlockView::blank()],
            editor.mode == Mode::Blocks,
            ({
                // Clamped, not defaulted: a document opening on a fence or a
                // table has no body at block zero.
                let at = editor.doc.nearest(Cursor { block: 0, part: Part::Body, offset: 0 });
                editor.selection == (Selection { anchor: at, head: at })
            }),
            editor.anchors@.len() == 0,
            editor.stored@.len() == 0,
            editor.history@ == crate::editor::history::Past::new(
                crate::editor::history::DEFAULT_UNDO_LIMIT as nat,
            ),
            editor.layouts@ == Frames::empty(),
            editor.chrome == (Chrome { handle: true, slash: true, language: true, paste: true }),
            editor.marked is None,
            editor.menus == (Menus { slash: None, pasted: None, url_prompt: None }),
            editor.pointing == Pointing::idle(),
            editor.caret_on && !editor.blinking && !editor.reveal,
            editor.events@.len() == 0,
    {
        let mut doc = doc;
        ensure_block(&mut doc);
        let at = doc.clamp(Cursor::default());
        Editor {
            doc,
            mode: Mode::default(),
            selection: Selection::at(at),
            anchors: Vec::new(),
            history: History::default(),
            layouts: BlockLayouts::default(),
            chrome: Chrome::default(),
            marked: None,
            stored: Vec::new(),
            menus: Menus { slash: None, pasted: None, url_prompt: None },
            pointing: Pointing {
                hovered: None,
                dropping: None,
                lifted: None,
                resizing: None,
                dragging: false,
                over_text: false,
                press_claimed: false,
            },
            reveal: false,
            caret_on: true,
            blinking: false,
            events: Vec::new(),
        }
    }

    /// What the host has still to hear, which is then nothing.
    pub fn take_events(&mut self) -> (events: Vec<EditorEvent>)
        requires
            old(self).wf(),
        ensures
            final(self).wf(),
            events == old(self).events,
            final(self).events@.len() == 0,
            *final(self) == (Editor { events: final(self).events, ..*old(self) }),
    {
        let mut events: Vec<EditorEvent> = Vec::new();
        std::mem::swap(&mut self.events, &mut events);
        events
    }

    pub fn doc(&self) -> (doc: &Doc)
        ensures
            *doc == self.doc,
    {
        &self.doc
    }

    pub fn mode(&self) -> (mode: Mode)
        ensures
            mode == self.mode,
    {
        self.mode
    }

    pub fn selection(&self) -> (selection: Selection)
        ensures
            selection == self.selection,
    {
        self.selection
    }

    /// Where each text landed last frame.
    pub fn layouts(&self) -> (layouts: &BlockLayouts)
        ensures
            *layouts == self.layouts,
    {
        &self.layouts
    }

    /// Every anchor, where the edits since it was handed over have left it.
    pub fn anchors(&self) -> (anchors: &Vec<Anchor>)
        ensures
            *anchors == self.anchors,
    {
        &self.anchors
    }

    /// Which of the editor's own affordances are on.
    pub fn chrome(&self) -> (chrome: Chrome)
        ensures
            chrome == self.chrome,
    {
        self.chrome
    }

    /// How many undo steps to keep.
    pub fn with_undo_limit(self, limit: usize) -> (editor: Editor)
        requires
            self.wf(),
        ensures
            editor.wf(),
            editor == (Editor { history: editor.history, ..self }),
            editor.history@ == crate::editor::history::Past::new(limit as nat),
    {
        let mut editor = self;
        editor.history = History::with_limit(limit);
        editor
    }

    /// Which of the editor's own affordances to paint. See [`Chrome`].
    pub fn with_chrome(self, chrome: Chrome) -> (editor: Editor)
        ensures
            editor == (Editor { chrome, ..self }),
    {
        let mut editor = self;
        editor.chrome = chrome;
        editor
    }

    /// Put the selection somewhere — what a thread in a sidebar does when it is
    /// clicked, and what a caret restored with a document needs.
    ///
    /// Clamped, because the caller's range came from somewhere the document may
    /// have moved on from.
    pub fn select(&mut self, selection: Selection)
        requires
            old(self).wf(),
        ensures
            final(self).wf(),
            final(self).selection == selection.held(old(self).doc),
            final(self).history@ == old(self).history@.interrupted(),
            final(self).reveal && !final(self).blinking,
            *final(self) == (Editor {
                selection: final(self).selection,
                history: final(self).history,
                reveal: true,
                blinking: false,
                ..*old(self)
            }),
    {
        self.selection = selection.clamp(&self.doc);
        self.history.interrupt();
        self.reveal = true;
        self.caret_moved();
    }

    /// Hand over the whole list — the app keeps the threads, this keeps their
    /// ranges. One entry point rather than add/remove/update, since the app is
    /// already holding the list that decides all three.
    pub fn set_anchors(&mut self, anchors: Vec<Anchor>)
        requires
            old(self).wf(),
        ensures
            final(self).wf(),
            *final(self) == (Editor { anchors, ..*old(self) }),
    {
        self.anchors = anchors;
    }

    /// Whether an anchor's range holds a position.
    pub open spec fn anchor_holds(anchor: Anchor, at: Cursor) -> bool {
        &&& anchor.range.anchor != anchor.range.head
        &&& !at.before(anchor.range.ends().0)
        &&& !anchor.range.ends().1.before(at)
    }

    /// The last of the first `n` anchors whose range holds a position.
    pub open spec fn anchor_under(anchors: Seq<Anchor>, at: Cursor, n: int) -> Option<AnchorId>
        decreases n,
    {
        if n <= 0 {
            None
        } else if Self::anchor_holds(anchors[n - 1], at) {
            Some(anchors[n - 1].id)
        } else {
            Self::anchor_under(anchors, at, n - 1)
        }
    }

    /// The comment at a position.
    ///
    /// The last match wins, so the newer of two overlapping ranges is the one a
    /// click opens.
    pub fn anchor_at(&self, at: Cursor) -> (id: Option<AnchorId>)
        ensures
            id == Self::anchor_under(self.anchors@, at, self.anchors@.len() as int),
    {
        let mut i: usize = self.anchors.len();
        while i > 0
            invariant
                i <= self.anchors@.len(),
                Self::anchor_under(self.anchors@, at, self.anchors@.len() as int)
                    == Self::anchor_under(self.anchors@, at, i as int),
            decreases i,
        {
            i = i - 1;
            let anchor = &self.anchors[i];
            let (start, end) = anchor.range.ordered();
            if !anchor.detached() && !at.is_before(&start) && !end.is_before(&at) {
                return Some(anchor.id);
            }
        }
        None
    }

    /// Where the moving end of the selection painted, where anything is
    /// selected. The head alone: a bar centred over the whole selection wants
    /// every painted row of it, which is [`BlockLayouts::rects`].
    pub fn selection_bounds(&self) -> (place: Option<PaintedAt>)
        ensures
            place == (if self.selection.anchor == self.selection.head {
                None
            } else {
                self.layouts@.painted_at(self.selection.head, 0)
            }),
    {
        if self.selection.is_collapsed() {
            None
        } else {
            self.layouts.position(self.selection.head)
        }
    }

    /// Where the range of the anchor `id` starts, in the anchors from the `i`th
    /// on: that of the first which goes by it.
    pub open spec fn anchored_at(anchors: Seq<Anchor>, id: AnchorId, i: int) -> Option<Cursor>
        decreases anchors.len() - i,
    {
        if i < 0 || i >= anchors.len() {
            None
        } else if anchors[i].id == id {
            Some(anchors[i].range.ends().0)
        } else {
            Self::anchored_at(anchors, id, i + 1)
        }
    }

    /// Where a comment's words start on screen, for a card that sits beside
    /// them.
    pub fn anchor_bounds(&self, id: AnchorId) -> (place: Option<PaintedAt>)
        ensures
            place == (match Self::anchored_at(self.anchors@, id, 0) {
                Some(at) => self.layouts@.painted_at(at, 0),
                None => None,
            }),
    {
        let mut i: usize = 0;
        while i < self.anchors.len()
            invariant
                i <= self.anchors@.len(),
                Self::anchored_at(self.anchors@, id, 0) == Self::anchored_at(
                    self.anchors@,
                    id,
                    i as int,
                ),
            decreases self.anchors@.len() - i,
        {
            if self.anchors[i].id == id {
                return self.layouts.position(self.anchors[i].range.ordered().0);
            }
            i = i + 1;
        }
        None
    }

    /// What a frame does to bring the caret back into view: where it painted,
    /// once after each move. Owed no longer where there is no box to scroll,
    /// and still owed where the caret has not painted — a block with no text at
    /// all never answers, and the next move is what gets it back.
    pub fn reveal_caret(&mut self, scrolls: bool) -> (place: Option<PaintedAt>)
        requires
            old(self).wf(),
        ensures
            final(self).wf(),
            ({
                let painted = old(self).layouts@.painted_at(old(self).selection.head, 0);
                &&& place == (if old(self).reveal && scrolls {
                    painted
                } else {
                    None
                })
                &&& *final(self) == (Editor {
                    reveal: old(self).reveal && scrolls && painted is None,
                    ..*old(self)
                })
            }),
    {
        if !self.reveal {
            return None;
        }
        if !scrolls {
            self.reveal = false;
            return None;
        }
        let place = self.layouts.position(self.selection.head);
        if place.is_some() {
            self.reveal = false;
        }
        place
    }

    /// The ranges the first `n` anchors wash.
    pub open spec fn washes(anchors: Seq<Anchor>, doc: Doc, n: int) -> Seq<(Selection, Annotation)>
        decreases n,
    {
        if n <= 0 {
            Seq::empty()
        } else {
            let before = Self::washes(anchors, doc, n - 1);
            let anchor = anchors[n - 1];
            if anchor.range.anchor == anchor.range.head {
                before
            } else {
                before.push((anchor.range.held(doc), anchor.state))
            }
        }
    }

    /// The ranges the renderer washes, clamped because a block can change kind
    /// under an anchor and take its part with it.
    pub fn annotations(&self) -> (ranges: Vec<(Selection, Annotation)>)
        requires
            self.wf(),
        ensures
            ranges@ == Self::washes(self.anchors@, self.doc, self.anchors@.len() as int),
    {
        let mut ranges: Vec<(Selection, Annotation)> = Vec::new();
        let mut i: usize = 0;
        while i < self.anchors.len()
            invariant
                self.wf(),
                i <= self.anchors@.len(),
                ranges@ == Self::washes(self.anchors@, self.doc, i as int),
            decreases self.anchors@.len() - i,
        {
            let anchor = &self.anchors[i];
            if !anchor.detached() {
                ranges.push((anchor.range.clamp(&self.doc), anchor.state));
            }
            i = i + 1;
        }
        ranges
    }

    /// A new caret position restarts its blink.
    pub fn caret_moved(&mut self)
        ensures
            *final(self) == (Editor { blinking: false, ..*old(self) }),
    {
        self.blinking = false;
    }

    /// What a frame does about the blink: it starts, lit, while the document
    /// holds focus and carets blink at all, and is still and lit otherwise. A
    /// caret that has moved is brought back in phase, lit beat first.
    pub fn settle_blink(&mut self, focused: bool, blinks: bool)
        ensures
            *final(self) == (if focused && blinks {
                if old(self).blinking {
                    *old(self)
                } else {
                    Editor { blinking: true, caret_on: true, ..*old(self) }
                }
            } else {
                Editor { blinking: false, caret_on: true, ..*old(self) }
            }),
    {
        if focused && blinks {
            if !self.blinking {
                self.caret_on = true;
                self.blinking = true;
            }
        } else {
            self.blinking = false;
            self.caret_on = true;
        }
    }

    /// Half a period of the blink.
    pub fn blink(&mut self)
        ensures
            *final(self) == (Editor { caret_on: !old(self).caret_on, ..*old(self) }),
    {
        self.caret_on = !self.caret_on;
    }

    /// Where typing would land — the moving end of the selection.
    pub fn cursor(&self) -> (at: Cursor)
        ensures
            at == self.selection.head,
    {
        self.selection.head
    }

    /// Whether an edit can be made, which it can be but for numbers past what
    /// can be counted.
    pub fn admits(&self, doc: &Doc, deltas: &Vec<Delta>) -> (yes: bool)
        ensures
            yes == self.takes(*doc, deltas@),
    {
        if !doc.counted() {
            return false;
        }
        if !self.blocks() {
            return true;
        }
        let mut i: usize = 0;
        while i < self.anchors.len()
            invariant
                i <= self.anchors@.len(),
                self.mode == Mode::Blocks,
                forall|j: int|
                    0 <= j < i ==> (#[trigger] self.anchors@[j]).follows_all(
                        deltas@,
                        deltas@.len() as int,
                    ),
            decreases self.anchors@.len() - i,
        {
            if !self.anchors[i].can_follow(deltas) {
                assert(!self.anchors@[i as int].follows_all(deltas@, deltas@.len() as int));
                return false;
            }
            i = i + 1;
        }
        true
    }

    /// Every mutation goes through here, so none of them can forget to record
    /// a step and none of them has to know how steps coalesce.
    ///
    /// The source maps no anchor: its deltas are about one fence, and an anchor
    /// dragged through those would point at the markup.
    pub fn edit(&mut self, kind: EditKind, change: Change)
        requires
            old(self).wf(),
            old(self).takes(change.doc, change.deltas@),
        ensures
            final(self).wf(),
            Self::edited(
                *old(self),
                kind,
                change.doc,
                change.selection,
                change.deltas@,
                *final(self),
            ),
    {
        let ghost before = *self;
        let Change { doc, selection, deltas } = change;
        let mut doc = doc;
        let mut selection = selection;
        // Any edit answers the paste menu by ignoring it — whatever it offered
        // was about a block that no longer holds only the link.
        self.menus.pasted = None;
        let mut anchors = if self.blocks() {
            map_anchors(&self.anchors, &deltas)
        } else {
            copy_anchors(&self.anchors)
        };
        let ghost given = doc;
        // Deleting the last block is the other way to an empty document, and
        // the caret belongs at the start of whatever replaces it.
        let filled = ensure_block(&mut doc);
        if filled {
            selection = Selection::at(Cursor::default());
        }
        if !self.blocks() {
            proof {
                if filled {
                    lemma_blank_source(doc);
                    assert(joined(given.blocks@, 0) is None);
                }
            }
            ensure_source(&mut doc, &mut selection);
        }
        std::mem::swap(&mut self.doc, &mut doc);
        std::mem::swap(&mut self.anchors, &mut anchors);
        let moment = Step { doc, mode: self.mode, selection: self.selection, anchors };
        assert(moment == before.moment());
        self.history.record(kind, moment);
        self.selection = selection;
        // A caret can move to a newly created visual row before the renderer
        // records that row. Its prior coordinates are no longer its position.
        self.layouts.invalidate();
        self.history.landed(kind, self.selection);
        self.events.push(EditorEvent::Changed);
        // Typing moves the caret as surely as an arrow key does, and a split
        // moves it onto a block that does not exist until this frame paints.
        self.reveal = true;
        self.caret_moved();
    }

    /// Whether the document is the thing being edited, rather than its source.
    ///
    /// Every operation that acts on *blocks* asks this: in source mode there is
    /// one block, it is a fence holding a string, and turning it into a heading
    /// or dragging it somewhere would edit the markup rather than the document
    /// the markup spells.
    pub fn blocks(&self) -> (yes: bool)
        ensures
            yes == (self.mode == Mode::Blocks),
    {
        self.mode == Mode::Blocks
    }
}

pub(crate) fn copy_anchors(anchors: &Vec<Anchor>) -> (copied: Vec<Anchor>)
    ensures
        copied@ == anchors@,
{
    let mut copied: Vec<Anchor> = Vec::new();
    let mut i: usize = 0;
    while i < anchors.len()
        invariant
            i <= anchors@.len(),
            copied@ == anchors@.take(i as int),
        decreases anchors@.len() - i,
    {
        copied.push(anchors[i]);
        assert(copied@ =~= anchors@.take(i + 1));
        i = i + 1;
    }
    assert(copied@ =~= anchors@);
    copied
}

/// A document of one paragraph that says nothing holds an empty source.
proof fn lemma_blank_source(doc: Doc)
    requires
        doc@ == seq![BlockView::blank()],
    ensures
        source_of(doc) == Seq::<char>::empty(),
{
    let block = doc.blocks@[0];
    assert(doc@.len() == doc.blocks@.len());
    assert(doc@[0] == block@);
    assert(block.listed()[0] == Part::Body);
    assert(block.text_in(Part::Body)->0@ == TextView::empty());
    assert(joined(doc.blocks@, 0) is None);
    assert(joined(doc.blocks@, 1) == first_text(block));
}

/// Put the source back in the one fence it is edited as.
///
/// Backspace at the start of an empty fence is a merge, and a merge with
/// nothing above it leaves a paragraph — a block the source view does not paint
/// and the caret would be stranded in. The text survives either way, so this is
/// a change of container and never of content.
fn ensure_source(doc: &mut Doc, selection: &mut Selection)
    requires
        old(doc).fits(),
    ensures
        final(doc).fits(),
        is_source(*final(doc)),
        is_source(*old(doc)) ==> *final(doc) == *old(doc) && *final(selection) == *old(selection),
        !is_source(*old(doc)) ==> {
            let source = source_of(*old(doc));
            &&& final(doc)@ == source_view(source)
            &&& final(selection).anchor == final(selection).head
            &&& final(selection).head.block == 0 && final(selection).head.part == Part::Code
            &&& final(selection).head.offset == (if old(selection).head.offset <= text::byte_len(
                source,
            ) {
                old(selection).head.offset as int
            } else {
                text::byte_len(source) as int
            })
        },
{
    if doc.blocks.len() == 1 {
        if let BlockKind::Code { .. } = &doc.blocks[0].kind {
            return ;
        }
    }
    let chars = source_text_of(doc);
    let source = string_of(&chars);
    let len = bytes_in(&chars);
    let offset = if selection.head.offset <= len {
        selection.head.offset
    } else {
        len
    };
    *doc = source_doc(source.as_str());
    *selection = Selection::at(Cursor::new(0, Part::Code, offset));
}

} // verus!
