//! What an editor paints over one text: the caret, the selection, and the
//! ranges a caller wants washed.

use vstd::prelude::*;

use crate::markdown::doc::{Cursor, Part, Selection, Span};
use crate::markdown::marks::{HighlightColor, Tint};

verus! {

/// What an image's one authored string is doing on the page.
///
/// Markdown has one slot for a label, a hint and a caption, so this says which
/// of them it is playing here rather than in the document, where it is the same
/// string either way.
#[derive(Clone, Copy, PartialEq, Eq, Debug, Structural)]
pub enum Caption {
    /// Under the picture, where a caret can sit in it. The editor's shape.
    Shown,
    /// Kept by the document and painted nowhere — a picture on its own.
    Hidden,
}

impl Default for Caption {
    fn default() -> (caption: Caption)
        ensures
            caption == Caption::Shown,
    {
        Caption::Shown
    }
}

/// Whether a fence paints the button that copies its text.
#[derive(Clone, Copy, PartialEq, Eq, Debug, Structural)]
pub enum CopyButton {
    /// Floating at the top right of the band, on the pointer and off it.
    Shown,
    /// Painted nowhere.
    Hidden,
}

impl Default for CopyButton {
    fn default() -> (button: CopyButton)
        ensures
            button == CopyButton::Shown,
    {
        CopyButton::Shown
    }
}

/// A range the caller wants washed, and which wash it gets.
///
/// None of what a comment or a highlight *says* is here: the caller keeps it
/// and hands over the range. A closed set rather than a color, so the
/// environment keeps deciding the paint.
#[derive(Clone, Copy, PartialEq, Eq, Debug, Structural)]
#[non_exhaustive]
pub enum Annotation {
    /// A thread still waiting on someone.
    Open,
    /// Answered, and kept for the record.
    Resolved,
    /// The one whose thread the reader has in front of them.
    Active,
    /// A reader's highlight, in the wash its colour gets.
    Highlight(HighlightColor),
}

impl Default for Annotation {
    fn default() -> (annotation: Annotation)
        ensures
            annotation == Annotation::Open,
    {
        Annotation::Open
    }
}

impl Annotation {
    /// The wash under a range, `warning` being the colour a thread is painted
    /// in and `highlight` what the app gives a highlight's own colour.
    pub fn wash(self, warning: u32, highlight: Tint) -> (tint: Tint)
        ensures
            tint == (match self {
                Annotation::Open => Tint { hex: warning, percent: 20 },
                Annotation::Resolved => Tint { hex: warning, percent: 8 },
                Annotation::Active => Tint { hex: warning, percent: 38 },
                Annotation::Highlight(_) => highlight,
            }),
    {
        match self {
            Annotation::Open => Tint { hex: warning, percent: 20 },
            Annotation::Resolved => Tint { hex: warning, percent: 8 },
            Annotation::Active => Tint { hex: warning, percent: 38 },
            Annotation::Highlight(_) => highlight,
        }
    }
}

/// What the editor needs painted into one text: which text it is, and where the
/// caret and the selection are.
#[derive(Clone, Copy, Debug)]
pub struct Overlay {
    pub block: usize,
    pub part: Part,
    pub selection: Option<Selection>,
    pub caret_on: bool,
}

impl Overlay {
    /// The start of this text.
    pub open spec fn origin(self) -> Cursor {
        Cursor { block: self.block, part: self.part, offset: 0 }
    }

    /// The position at a byte of this text.
    pub open spec fn byte(self, at: int) -> Cursor {
        Cursor { block: self.block, part: self.part, offset: at as usize }
    }

    /// The caret's byte, if it is in this text.
    pub open spec fn caret_in(self) -> Option<usize> {
        match self.selection {
            Some(selection) => if selection.head.block == self.block && selection.head.part
                == self.part {
                Some(selection.head.offset)
            } else {
                None
            },
            None => None,
        }
    }

    /// A range clipped to this text of `len` bytes, and none when it does not
    /// reach it. It covers this text entirely when it starts before and ends
    /// after, and the offsets only matter at the two ends.
    pub open spec fn clipped(self, selection: Selection, len: usize) -> Option<Span> {
        let (start, end) = selection.ends();
        let (first, last) = (start.start(), end.start());
        let from = if self.origin() == first {
            start.offset
        } else {
            0
        };
        let to = if self.origin() == last {
            end.offset
        } else {
            len
        };
        if selection.anchor == selection.head || self.origin().before(first) || last.before(
            self.origin(),
        ) || from >= to {
            None
        } else {
            Some(
                Span {
                    start: from,
                    end: if to <= len {
                        to
                    } else {
                        len
                    },
                },
            )
        }
    }

    /// The same overlay, for another text of the block.
    pub fn at(self, part: Part) -> (overlay: Overlay)
        ensures
            overlay == (Overlay { part, ..self }),
    {
        Overlay { part, ..self }
    }

    pub fn here(&self) -> (at: Cursor)
        ensures
            at == self.origin(),
    {
        Cursor::new(self.block, self.part, 0)
    }

    /// The caret to paint: where it is, and only on the blink's lit half.
    ///
    /// Separate from [`Self::caret`] because the blink must not reach anything
    /// but the quad — a block whose paint depends on holding the caret would
    /// otherwise swap itself out twice a second.
    pub fn caret_painted(&self) -> (caret: Option<usize>)
        ensures
            caret == (if self.caret_on {
                self.caret_in()
            } else {
                None
            }),
    {
        if self.caret_on {
            self.caret()
        } else {
            None
        }
    }

    /// The caret's byte offset, if the head is in *this* text.
    pub fn caret(&self) -> (caret: Option<usize>)
        ensures
            caret == self.caret_in(),
    {
        match self.selection {
            Some(selection) => if selection.head.block == self.block && selection.head.part
                == self.part {
                Some(selection.head.offset)
            } else {
                None
            },
            None => None,
        }
    }

    /// The selected slice of this text, clipped to it.
    pub fn selected(&self, len: usize) -> (span: Option<Span>)
        ensures
            span == (match self.selection {
                Some(selection) => self.clipped(selection, len),
                None => None,
            }),
    {
        match self.selection {
            Some(selection) => self.clip(selection, len),
            None => None,
        }
    }

    /// The annotated slices of this text, with the wash each gets, in the order
    /// the caller gave them.
    pub fn annotated(&self, annotations: &[(Selection, Annotation)], len: usize) -> (slices: Vec<
        (Span, Annotation),
    >)
        ensures
            slices@ == self.washed(annotations@, len, annotations@.len() as int),
    {
        let mut slices: Vec<(Span, Annotation)> = Vec::new();
        let mut i: usize = 0;
        while i < annotations.len()
            invariant
                i <= annotations@.len(),
                slices@ == self.washed(annotations@, len, i as int),
            decreases annotations@.len() - i,
        {
            let (range, kind) = annotations[i];
            if let Some(span) = self.clip(range, len) {
                slices.push((span, kind));
            }
            i = i + 1;
        }
        slices
    }

    /// The slices of this text that the first `n` annotations wash.
    pub open spec fn washed(
        self,
        annotations: Seq<(Selection, Annotation)>,
        len: usize,
        n: int,
    ) -> Seq<(Span, Annotation)>
        decreases n,
    {
        if n <= 0 {
            Seq::empty()
        } else {
            let before = self.washed(annotations, len, n - 1);
            match self.clipped(annotations[n - 1].0, len) {
                Some(span) => before.push((span, annotations[n - 1].1)),
                None => before,
            }
        }
    }

    /// A range clipped to this text, and `None` when it does not reach it.
    pub fn clip(&self, selection: Selection, len: usize) -> (span: Option<Span>)
        ensures
            span == self.clipped(selection, len),
    {
        if selection.is_collapsed() {
            return None;
        }
        let (start, end) = selection.ordered();
        let here = self.here();
        let first = Cursor::new(start.block, start.part, 0);
        let last = Cursor::new(end.block, end.part, 0);
        if here.is_before(&first) || last.is_before(&here) {
            return None;
        }
        let from = if here == first {
            start.offset
        } else {
            0
        };
        let to = if here == last {
            end.offset
        } else {
            len
        };
        if from < to {
            Some(
                Span {
                    start: from,
                    end: if to <= len {
                        to
                    } else {
                        len
                    },
                },
            )
        } else {
            None
        }
    }

    /// Whether a block painting something a caret cannot enter — a rule, a
    /// picture — falls inside the selection, and so should show that it is
    /// going to be taken.
    pub fn covers_block(&self) -> (yes: bool)
        ensures
            yes == (self.selection matches Some(selection) && selection.anchor != selection.head
                && selection.ends().0.block < self.block < selection.ends().1.block),
    {
        match self.selection {
            Some(selection) => {
                if selection.is_collapsed() {
                    return false;
                }
                let (start, end) = selection.ordered();
                start.block < self.block && self.block < end.block
            },
            None => false,
        }
    }

    /// Whether a hint shows in a text of `len` bytes: only where the caret
    /// already is, and only while there is nothing to read. It follows the
    /// caret's own presence, not the blink's phase.
    pub fn hints(&self, len: usize) -> (yes: bool)
        ensures
            yes == (len == 0 && self.caret_in() is Some),
    {
        len == 0 && self.caret().is_some()
    }

    /// Whether a picture's caption is painted: something to read, or somewhere
    /// to type.
    pub fn captions(&self, caption: Caption, empty: bool) -> (yes: bool)
        ensures
            yes == (caption == Caption::Shown && (!empty || self.caret_in() is Some)),
    {
        caption == Caption::Shown && (!empty || self.caret().is_some())
    }
}

/// What is clipped is what is covered: a byte of the text is in the clip of a
/// range exactly when the range covers the byte's position.
pub proof fn a_clip_is_what_is_covered(overlay: Overlay, selection: Selection, len: usize, at: int)
    requires
        0 <= at < len,
    ensures
        ({
            let (start, end) = selection.ends();
            (overlay.clipped(selection, len) matches Some(span) && span.has(at)) <==> (
            !overlay.byte(at).before(start) && overlay.byte(at).before(end))
        }),
{
}

/// The blink changes nothing but whether the caret is painted.
pub proof fn a_blink_hides_the_caret_alone(overlay: Overlay, on: bool)
    ensures
        ({
            let other = Overlay { caret_on: on, ..overlay };
            &&& other.caret_in() == overlay.caret_in()
            &&& forall|selection: Selection, len: usize| #[trigger]
                other.clipped(selection, len) == overlay.clipped(selection, len)
        }),
{
}

} // verus!
