//! Where a picture comes from, where it goes in a document, and how wide it is
//! dragged.

use vstd::prelude::*;

use crate::editor::anchor::Delta;
use crate::editor::history::{EditKind, Mode};
use crate::editor::surface;
use crate::editor::surface::{Change, Editor, Menus, Pointing};
use crate::editor::typing;
use crate::markdown::doc::{Block, BlockKind, Cursor, Doc, Part, Span, Text};
use crate::markdown::layout;
use crate::markdown::layout::Bounds;
use crate::markdown::model;
use crate::markdown::model::{BlockView, KindView, TextView};
use crate::text;

verus! {

/// How far a drag on an image's edge handle can shrink it.
pub const MIN_IMAGE_WIDTH: u32 = 96;

/// How near the column's edge a drag has to end for the width to be forgotten.
pub const SNAP: u64 = 2;

/// How wide a picture is allowed to be, `column` being how far it is from its
/// own left edge to the editor's right one. Never below the least: a window
/// narrower than that would otherwise put the ceiling under the floor.
pub fn column_width(column: i64) -> (width: u32)
    ensures
        width == (if column < MIN_IMAGE_WIDTH {
            MIN_IMAGE_WIDTH as int
        } else if column > u32::MAX {
            u32::MAX as int
        } else {
            column as int
        }),
{
    if column < MIN_IMAGE_WIDTH as i64 {
        MIN_IMAGE_WIDTH
    } else if column > u32::MAX as i64 {
        u32::MAX
    } else {
        column as u32
    }
}

/// The width a drag asks for, `reach` being how far it is from the picture's
/// left edge, bounded by the column.
pub fn dragged_width(reach: i64, column: u32) -> (width: u32)
    requires
        column >= MIN_IMAGE_WIDTH,
    ensures
        MIN_IMAGE_WIDTH <= width <= column,
        width == (if reach < MIN_IMAGE_WIDTH {
            MIN_IMAGE_WIDTH as int
        } else if reach > column {
            column as int
        } else {
            reach as int
        }),
{
    let asked = column_width(reach);
    if asked <= column {
        asked
    } else {
        column
    }
}

/// The width a resize ends at, `full` being the column's. Dragged back out to
/// the column, the width is forgotten rather than pinned a pixel short, so
/// letting go all the way round-trips as a picture of no stated width.
pub open spec fn settled_width(live: Option<u32>, full: Option<u32>) -> Option<u32> {
    match (live, full) {
        (Some(width), Some(full)) => if width + SNAP >= full {
            None
        } else {
            live
        },
        _ => live,
    }
}

/// An image block at a width, and any other block as it is.
pub open spec fn at_width(block: BlockView, width: Option<u32>) -> BlockView {
    match block.kind {
        KindView::Image { url, alt, .. } => BlockView {
            kind: KindView::Image { url, alt, width },
            ..block
        },
        _ => block,
    }
}

/// What to write down for the pictures among some files: where the store keeps
/// each, and where it already is for one the store does not want. One the store
/// does not accept is no picture.
pub open spec fn urls_of(
    paths: Seq<String>,
    accepts: Seq<bool>,
    kept: Seq<Option<String>>,
    n: int,
) -> Seq<Seq<char>>
    decreases n,
{
    if n <= 0 {
        Seq::empty()
    } else {
        let before = urls_of(paths, accepts, kept, n - 1);
        if accepts[n - 1] {
            before.push(
                match kept[n - 1] {
                    Some(url) => url@,
                    None => paths[n - 1]@,
                },
            )
        } else {
            before
        }
    }
}

/// What some texts say.
pub open spec fn strings(texts: Seq<String>) -> Seq<Seq<char>> {
    Seq::new(texts.len(), |i: int| texts[i]@)
}

/// What to write down for the pictures among `paths`. The store says where
/// each one belongs, and a picture it does not want paints from where it
/// already is.
pub fn image_urls(paths: &Vec<String>, accepts: &Vec<bool>, kept: &Vec<Option<String>>) -> (urls:
    Vec<String>)
    requires
        accepts@.len() == paths@.len(),
        kept@.len() == paths@.len(),
    ensures
        strings(urls@) == urls_of(paths@, accepts@, kept@, paths@.len() as int),
{
    let mut urls: Vec<String> = Vec::new();
    let mut n: usize = 0;
    assert(strings(urls@) =~= Seq::empty());
    while n < paths.len()
        invariant
            n <= paths@.len(),
            accepts@.len() == paths@.len(),
            kept@.len() == paths@.len(),
            strings(urls@) == urls_of(paths@, accepts@, kept@, n as int),
        decreases paths@.len() - n,
    {
        if accepts[n] {
            let url = match &kept[n] {
                Some(url) => url.clone(),
                None => paths[n].clone(),
            };
            let ghost before = strings(urls@);
            urls.push(url);
            assert(strings(urls@) =~= before.push(url@));
        }
        n = n + 1;
    }
    urls
}

/// A picture at a URL, so far in.
pub open spec fn picture(url: Seq<char>, indent: usize) -> BlockView {
    BlockView { kind: KindView::Image { url, alt: TextView::empty(), width: None }, indent }
}

/// Whether a document's block `ix` is an empty paragraph a caret was left
/// sitting in.
pub open spec fn empty_at(doc: Doc, ix: int) -> bool {
    0 <= ix < doc.blocks@.len() && (doc.blocks@[ix].kind matches BlockKind::Paragraph(text)
        && text.text@.len() == 0)
}

/// The block pictures go in at: in the place of an empty paragraph, and
/// otherwise after the block they were dropped on.
pub open spec fn first_picture(doc: Doc, ix: int) -> int {
    if empty_at(doc, ix) {
        ix
    } else if ix + 1 <= doc.blocks@.len() {
        ix + 1
    } else {
        doc.blocks@.len() as int
    }
}

/// What a document says with pictures put into it.
pub open spec fn with_pictures(doc: Doc, ix: int, urls: Seq<Seq<char>>) -> Seq<BlockView> {
    let first = first_picture(doc, ix);
    let indent = if 0 <= ix < doc.blocks@.len() {
        doc.blocks@[ix].indent
    } else {
        0
    };
    let rest = if empty_at(doc, ix) {
        doc@.remove(ix)
    } else {
        doc@
    };
    rest.take(first) + Seq::new(urls.len(), |i: int| picture(urls[i], indent)) + rest.skip(first)
}

/// What putting pictures into a document does to the positions in it.
pub open spec fn picture_deltas(doc: Doc, ix: int, count: nat) -> Seq<Delta> {
    let opened = Delta::Opened { at: first_picture(doc, ix) as usize, count: count as usize };
    if empty_at(doc, ix) {
        seq![
            Delta::Moved {
                at: Span { start: ix as usize, end: (ix + 1) as usize },
                to: None,
            },
            opened,
        ]
    } else {
        seq![opened]
    }
}

/// Pictures put into a document: the document, the last of them, and what it
/// did to the positions.
pub struct Pictures {
    pub doc: Doc,
    pub last: usize,
    pub deltas: Vec<Delta>,
}

impl Editor {
    /// The document with pictures put into it after block `ix` — or in its
    /// place, when that block is the empty paragraph a caret was left sitting
    /// in. `None` where there is no picture.
    pub fn pictures(&self, ix: usize, urls: &Vec<String>) -> (made: Option<Pictures>)
        requires
            self.wf(),
            ix < usize::MAX,
            self.doc.blocks@.len() + urls@.len() <= usize::MAX,
        ensures
            made is None <==> urls@.len() == 0,
            made matches Some(made) ==> {
                &&& made.doc@ == with_pictures(self.doc, ix as int, strings(urls@))
                &&& made.last == first_picture(self.doc, ix as int) + urls@.len() - 1
                &&& made.deltas@ == picture_deltas(self.doc, ix as int, urls@.len())
            },
    {
        if urls.len() == 0 {
            return None;
        }
        let len = self.doc.blocks.len();
        let mut indent: usize = 0;
        let mut empty = false;
        if ix < len {
            indent = self.doc.blocks[ix].indent;
            if let BlockKind::Paragraph(text) = &self.doc.blocks[ix].kind {
                empty = text.is_empty();
            }
        }
        let mut doc = self.doc.copy();
        let mut deltas: Vec<Delta> = Vec::new();
        let ghost same = doc@;
        proof {
            assert(doc@.len() == doc.blocks@.len());
            assert(self.doc@.len() == self.doc.blocks@.len());
        }
        let first = if empty {
            let ghost before = doc.blocks@;
            let _ = doc.blocks.remove(ix);
            assert(doc@ =~= same.remove(ix as int));
            deltas.push(Delta::Moved { at: Span { start: ix, end: ix + 1 }, to: None });
            ix
        } else if ix + 1 <= len {
            ix + 1
        } else {
            len
        };
        let ghost rest = doc@;
        let ghost images = Seq::new(
            urls@.len(),
            |i: int| picture(strings(urls@)[i], indent),
        );
        let mut n: usize = 0;
        assert(doc@ =~= rest.take(first as int) + images.take(0) + rest.skip(first as int));
        while n < urls.len()
            invariant
                n <= urls@.len(),
                first <= rest.len(),
                rest.len() + urls@.len() <= usize::MAX,
                doc@.len() == doc.blocks@.len(),
                images == Seq::new(urls@.len(), |i: int| picture(strings(urls@)[i], indent)),
                doc@ == rest.take(first as int) + images.take(n as int) + rest.skip(first as int),
            decreases urls@.len() - n,
        {
            let block = Block::at(
                BlockKind::Image { url: urls[n].clone(), alt: Text::default(), width: None },
                indent,
            );
            let ghost before = doc@;
            assert(images[n as int] == picture(urls@[n as int]@, indent));
            assert(block@ == images[n as int]);
            doc.blocks.insert(first + n, block);
            assert(doc@ =~= before.insert(first + n, block@));
            assert(doc@ =~= rest.take(first as int) + images.take(n + 1) + rest.skip(
                first as int,
            ));
            n = n + 1;
        }
        assert(images.take(n as int) =~= images);
        let last = first + (urls.len() - 1);
        deltas.push(Delta::Opened { at: first, count: urls.len() });
        assert(deltas@ =~= picture_deltas(self.doc, ix as int, urls@.len()));
        Some(Pictures { doc, last, deltas })
    }

    /// Pictures placed: `doc` is the document they were put into, the last of
    /// them at block `last`, which the caret goes under.
    pub fn place_images(&mut self, doc: Doc, last: usize, deltas: Vec<Delta>)
        requires
            old(self).wf(),
            old(self).takes(doc, deltas@),
        ensures
            final(self).wf(),
            Self::edited(
                *old(self),
                EditKind::Structure,
                doc,
                typing::held_at(doc, Cursor { block: last, part: Part::Caption, offset: 0 }),
                deltas@,
                *final(self),
            ),
    {
        self.land(EditKind::Structure, doc, Cursor::new(last, Part::Caption, 0), deltas);
    }

    /// Where files dropped on the document go: after the block they would land
    /// after, and otherwise the caret's. A picture is a block, and the source
    /// has none to give it to.
    pub fn drop_target(&mut self) -> (ix: Option<usize>)
        requires
            old(self).wf(),
        ensures
            final(self).wf(),
            old(self).mode == Mode::Source ==> ix is None && *final(self) == *old(self),
            old(self).mode == Mode::Blocks ==> {
                &&& ix == Some(
                    match old(self).pointing.dropping {
                        Some(ix) => ix,
                        None => old(self).selection.head.block,
                    },
                )
                &&& *final(self) == (Editor {
                    pointing: Pointing { dropping: None, ..old(self).pointing },
                    ..*old(self)
                })
            },
    {
        if !self.blocks() {
            return None;
        }
        let ix = match self.pointing.dropping {
            Some(ix) => ix,
            None => self.selection.head.block,
        };
        self.pointing.dropping = None;
        Some(ix)
    }

    /// Whether the block at `ix` painted, so that something can be placed over
    /// it.
    pub open spec fn painted(&self, ix: usize) -> bool {
        layout::first_of(self.layouts@.blocks, ix, 0) is Some
    }

    /// Ask for the URL of the image at `ix`, under where it painted. Nothing
    /// where it has not.
    pub fn prompt_for_url(&mut self, ix: usize)
        requires
            old(self).wf(),
        ensures
            final(self).wf(),
            *final(self) == (if old(self).painted(ix) {
                Editor {
                    menus: Menus { slash: None, url_prompt: Some(ix), ..old(self).menus },
                    ..*old(self)
                }
            } else {
                *old(self)
            }),
    {
        if self.layouts.block_bounds(ix).is_none() {
            return ;
        }
        self.menus.slash = None;
        self.menus.url_prompt = Some(ix);
    }

    /// Take what was typed, unless that is nothing but white space: `doc` is the
    /// document with the image turned to it, bare of the white space round it.
    pub fn confirm_url(&mut self, typed: &str, doc: Doc) -> (turned: bool)
        requires
            old(self).wf(),
            old(self).takes(doc, Seq::empty()),
        ensures
            final(self).wf(),
            turned == (old(self).menus.url_prompt is Some && text::trimmed(typed@).len() > 0),
            !turned ==> *final(self) == (Editor {
                menus: Menus { url_prompt: None, ..old(self).menus },
                ..*old(self)
            }),
            turned ==> Self::edited(
                Editor { menus: Menus { url_prompt: None, ..old(self).menus }, ..*old(self) },
                EditKind::Structure,
                doc,
                typing::held_at(
                    doc,
                    Cursor {
                        block: old(self).menus.url_prompt->0,
                        part: Part::Caption,
                        offset: 0,
                    },
                ),
                Seq::empty(),
                *final(self),
            ),
    {
        let Some(block) = self.menus.url_prompt else {
            return false;
        };
        self.menus.url_prompt = None;
        if text::length(text::trim(typed).as_str()) == 0 {
            return false;
        }
        let deltas: Vec<Delta> = Vec::new();
        assert(deltas@ =~= Seq::empty());
        self.land(EditKind::Structure, doc, Cursor::new(block, Part::Caption, 0), deltas);
        true
    }

    /// Close the prompt, and say whether one was open.
    pub fn cancel_url(&mut self) -> (was_open: bool)
        requires
            old(self).wf(),
        ensures
            final(self).wf(),
            was_open == (old(self).menus.url_prompt is Some),
            *final(self) == (Editor {
                menus: Menus { url_prompt: None, ..old(self).menus },
                ..*old(self)
            }),
    {
        let was_open = self.menus.url_prompt.is_some();
        self.menus.url_prompt = None;
        was_open
    }

    /// The image with no URL yet that the pointer is over, else the one the
    /// caret is in.
    pub open spec fn image_asking(&self) -> Option<usize> {
        match self.pointing.hovered {
            Some(ix) if self.blank_image(ix as int) => Some(ix),
            _ => if self.blank_image(self.selection.head.block as int) {
                Some(self.selection.head.block)
            } else {
                None
            },
        }
    }

    /// The image with no URL yet that a press asks one of, and where it
    /// painted: the one under the pointer, else the one the caret is in, and
    /// none where that has not painted.
    pub fn image_target(&self) -> (target: Option<(usize, Bounds)>)
        ensures
            target == (match self.image_asking() {
                Some(ix) if self.mode == Mode::Blocks => match layout::first_of(
                    self.layouts@.blocks,
                    ix,
                    0,
                ) {
                    Some(bounds) => Some((ix, bounds)),
                    None => None,
                },
                _ => None,
            }),
    {
        if !self.blocks() {
            return None;
        }
        let caret = self.selection.head.block;
        let ix = match self.pointing.hovered {
            Some(ix) if self.is_blank_image(ix) => ix,
            _ => if self.is_blank_image(caret) {
                caret
            } else {
                return None;
            },
        };
        match self.layouts.block_bounds(ix) {
            Some(bounds) => Some((ix, bounds)),
            None => None,
        }
    }

    /// Whether the block at `ix` is an image with something to show.
    pub open spec fn shown_image(&self, ix: int) -> bool {
        0 <= ix < self.doc.blocks@.len() && (self.doc.blocks@[ix].kind matches BlockKind::Image {
            url,
            ..
        } && url@.len() > 0)
    }

    fn is_shown_image(&self, ix: usize) -> (yes: bool)
        ensures
            yes == self.shown_image(ix as int),
    {
        if ix >= self.doc.blocks.len() {
            return false;
        }
        match &self.doc.blocks[ix].kind {
            BlockKind::Image { url, .. } => !url.as_str().is_empty(),
            _ => false,
        }
    }

    /// The picture whose edge can be grabbed: the one being resized, which can
    /// end up outside the image once a drag overshoots its bounds, else the one
    /// under the pointer.
    pub fn resize_target(&self) -> (ix: Option<usize>)
        ensures
            ix == (match self.pointing.resizing {
                Some((ix, _)) if self.shown_image(ix as int) => Some(ix),
                _ => match self.pointing.hovered {
                    Some(ix) if self.shown_image(ix as int) => Some(ix),
                    _ => None,
                },
            }),
    {
        if let Some((ix, _)) = self.pointing.resizing {
            if self.is_shown_image(ix) {
                return Some(ix);
            }
        }
        if let Some(ix) = self.pointing.hovered {
            if self.is_shown_image(ix) {
                return Some(ix);
            }
        }
        None
    }

    /// The width the document gives the image at `ix`.
    pub open spec fn stated_width(&self, ix: int) -> Option<Option<u32>> {
        if 0 <= ix < self.doc.blocks@.len() {
            match self.doc.blocks@[ix].kind {
                BlockKind::Image { width, .. } => Some(width),
                _ => None,
            }
        } else {
            None
        }
    }

    /// Grab the edge of the picture at `ix`: the document's own value is what
    /// it starts from, so a press that never moves releases into the width it
    /// started from and writes nothing.
    pub fn grab(&mut self, ix: usize)
        requires
            old(self).wf(),
        ensures
            final(self).wf(),
            *final(self) == (Editor {
                pointing: Pointing {
                    press_claimed: true,
                    resizing: Some(
                        (
                            ix,
                            match old(self).stated_width(ix as int) {
                                Some(width) => width,
                                None => None,
                            },
                        ),
                    ),
                    ..old(self).pointing
                },
                ..*old(self)
            }),
    {
        let mut current: Option<u32> = None;
        if ix < self.doc.blocks.len() {
            if let BlockKind::Image { width, .. } = &self.doc.blocks[ix].kind {
                current = *width;
            }
        }
        self.pointing.press_claimed = true;
        self.pointing.resizing = Some((ix, current));
    }

    /// Whether `after` is `before` with a resize ended, if one was running: the
    /// width it settled at is written down as a step of its own, unless it is
    /// the one the document has.
    pub open spec fn resize_dropped(
        before: Editor,
        full: Option<u32>,
        ended: bool,
        after: Editor,
    ) -> bool {
        match before.pointing.resizing {
            None => !ended && after == before,
            Some((ix, live)) => {
                let width = settled_width(live, full);
                let released = Editor {
                    pointing: Pointing { resizing: None, ..before.pointing },
                    ..before
                };
                &&& ended
                &&& if before.stated_width(ix as int) == Some(width) {
                    after == released
                } else {
                    &&& after.doc@ == (if ix < before.doc@.len() {
                        before.doc@.update(ix as int, at_width(before.doc@[ix as int], width))
                    } else {
                        before.doc@
                    })
                    &&& after.anchors@ == before.anchors@
                    &&& Self::edited(
                        released,
                        EditKind::Structure,
                        after.doc,
                        before.selection,
                        Seq::empty(),
                        after,
                    )
                }
            },
        }
    }

    /// End a resize, writing the width down. `false` when none was running,
    /// which is what leaves the release to whatever else claims it. `full` is
    /// the width of the column the image is in.
    pub fn drop_resize(&mut self, full: Option<u32>) -> (ended: bool)
        requires
            old(self).wf(),
        ensures
            final(self).wf(),
            Self::resize_dropped(*old(self), full, ended, *final(self)),
    {
        let Some((ix, live)) = self.pointing.resizing else {
            return false;
        };
        self.pointing.resizing = None;
        let width = match (live, full) {
            (Some(width), Some(full)) => if width as u64 + SNAP >= full as u64 {
                None
            } else {
                live
            },
            _ => live,
        };
        let mut current: Option<Option<u32>> = None;
        if ix < self.doc.blocks.len() {
            if let BlockKind::Image { width, .. } = &self.doc.blocks[ix].kind {
                current = Some(*width);
            }
        }
        assert(current == self.stated_width(ix as int));
        let same_width = match current {
            Some(current) => match (current, width) {
                (Some(a), Some(b)) => a == b,
                (None, None) => true,
                _ => false,
            },
            None => false,
        };
        if same_width {
            return true;
        }
        let ghost was = *self;
        let mut doc = self.doc.copy();
        let ghost same = doc;
        proof {
            assert(same@.len() == same.blocks@.len());
            assert(was.doc@.len() == was.doc.blocks@.len());
            model::same_documents_fit_alike(was.doc, same);
        }
        if ix < self.doc.blocks.len() {
            let indent = self.doc.blocks[ix].indent;
            if let BlockKind::Image { url, alt, .. } = &self.doc.blocks[ix].kind {
                let block = Block::at(
                    BlockKind::Image { url: url.clone(), alt: alt.copy(), width },
                    indent,
                );
                doc.blocks.set(ix, block);
                proof {
                    assert(doc@ =~= was.doc@.update(
                        ix as int,
                        at_width(was.doc@[ix as int], width),
                    ));
                    assert forall|i: int| 0 <= i < doc.blocks@.len() implies (
                    #[trigger] doc.blocks@[i]).fits() by {
                        if i != ix {
                            assert(doc.blocks@[i] == same.blocks@[i]);
                        }
                    }
                }
            } else {
                assert(was.doc@.update(ix as int, at_width(was.doc@[ix as int], width))
                    =~= was.doc@);
            }
        }
        proof {
            if was.mode == Mode::Source {
                assert(was.doc@[0] == was.doc.blocks@[0]@);
                assert(doc@[0] == doc.blocks@[0]@);
                assert(surface::is_source(doc));
            }
        }
        let selection = self.selection;
        let deltas: Vec<Delta> = Vec::new();
        assert(deltas@ =~= Seq::empty());
        self.edit(EditKind::Structure, Change { doc, selection, deltas });
        assert(self.anchors@ =~= was.anchors@);
        true
    }
}

/// A resize that never moved writes nothing: what was grabbed is what the
/// document says, and where that is short of the column it is what the release
/// settles at.
pub proof fn a_press_that_never_moved_changes_nothing(stated: Option<u32>, full: Option<u32>)
    requires
        stated matches Some(width) ==> full matches Some(full) ==> width + SNAP < full,
    ensures
        settled_width(stated, full) == stated,
{
}

/// A picture dragged back out to its column states no width again.
pub proof fn dragging_out_to_the_column_forgets_the_width(full: u32)
    ensures
        settled_width(Some(full), Some(full)) is None,
{
}

} // verus!
