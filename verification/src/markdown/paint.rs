//! What is painted of a text, in what order, and what shape each block takes.

use vstd::prelude::*;

use crate::markdown::blocks::Tone;
use crate::markdown::code;
use crate::markdown::code::{line_caret, line_slice};
use crate::markdown::doc::{Block, BlockKind, Form, Part, QuoteKind, Selection, Span};
use crate::markdown::overlay::{Annotation, Caption, CopyButton, Overlay};

verus! {

/// What a fence with no info string calls itself, in its header and in a
/// picker — one spelling, so the label and the menu row cannot disagree.
pub const PLAIN_LANGUAGE: &'static str = "Plain";

/// One thing painted under the glyphs.
#[derive(Clone, Copy, Debug, PartialEq, Eq, Structural)]
pub enum Layer {
    Annotation(Annotation),
    Selection,
    Caret,
    /// The wash of inline code.
    Code,
    /// A mention's chip.
    Chip,
}

/// A layer, and the bytes of the text it is under. A caret is at one of them.
#[derive(Clone, Copy, Debug, PartialEq, Eq, Structural)]
pub struct Wash {
    pub layer: Layer,
    pub range: Span,
}

/// The washes of some annotated slices.
pub open spec fn annotation_washes(slices: Seq<(Span, Annotation)>) -> Seq<Wash> {
    Seq::new(
        slices.len(),
        |i: int| Wash { layer: Layer::Annotation(slices[i].1), range: slices[i].0 },
    )
}

/// The washes of some stretches, in one layer.
pub open spec fn stretch_washes(layer: Layer, spans: Seq<Span>) -> Seq<Wash> {
    Seq::new(spans.len(), |i: int| Wash { layer, range: spans[i] })
}

/// The wash of what is selected.
pub open spec fn selection_wash(selected: Option<Span>) -> Seq<Wash> {
    match selected {
        Some(range) => seq![Wash { layer: Layer::Selection, range }],
        None => Seq::empty(),
    }
}

/// The caret.
pub open spec fn caret_wash(caret: Option<usize>) -> Seq<Wash> {
    match caret {
        Some(at) => seq![Wash { layer: Layer::Caret, range: Span { start: at, end: at } }],
        None => Seq::empty(),
    }
}

impl Overlay {
    /// What of the selection is in a text of `len` bytes.
    pub open spec fn selects(self, len: usize) -> Option<Span> {
        match self.selection {
            Some(selection) => self.clipped(selection, len),
            None => None,
        }
    }

    /// The caret to paint.
    pub open spec fn caret_lit(self) -> Option<usize> {
        if self.caret_on {
            self.caret_in()
        } else {
            None
        }
    }

    /// What is painted under a text, the first underneath: annotations below
    /// the selection, so dragging across a comment still reads as selected
    /// rather than as a third colour nobody chose, then the caret, and the
    /// washes of inline code and of chips.
    pub open spec fn washes(
        self,
        annotations: Seq<(Selection, Annotation)>,
        code: Seq<Span>,
        chips: Seq<Span>,
        len: usize,
    ) -> Seq<Wash> {
        annotation_washes(self.washed(annotations, len, annotations.len() as int)) + selection_wash(
            self.selects(len),
        ) + caret_wash(self.caret_lit()) + stretch_washes(Layer::Code, code) + stretch_washes(
            Layer::Chip,
            chips,
        )
    }

    /// What is painted under a text, the first underneath.
    pub fn painted_text(
        &self,
        annotations: &[(Selection, Annotation)],
        code: &Vec<Span>,
        chips: &Vec<Span>,
        len: usize,
    ) -> (washes: Vec<Wash>)
        ensures
            washes@ == self.washes(annotations@, code@, chips@, len),
    {
        let slices = self.annotated(annotations, len);
        let mut washes: Vec<Wash> = Vec::new();
        let mut i: usize = 0;
        while i < slices.len()
            invariant
                i <= slices@.len(),
                washes@ == annotation_washes(slices@).take(i as int),
            decreases slices@.len() - i,
        {
            let (range, annotation) = slices[i];
            washes.push(Wash { layer: Layer::Annotation(annotation), range });
            assert(washes@ =~= annotation_washes(slices@).take(i + 1));
            i = i + 1;
        }
        assert(washes@ =~= annotation_washes(slices@));
        let ghost under = washes@;
        if let Some(range) = self.selected(len) {
            washes.push(Wash { layer: Layer::Selection, range });
        }
        assert(washes@ =~= under + selection_wash(self.selects(len)));
        let ghost under = washes@;
        if let Some(at) = self.caret_painted() {
            washes.push(Wash { layer: Layer::Caret, range: Span { start: at, end: at } });
        }
        assert(washes@ =~= under + caret_wash(self.caret_lit()));
        push_stretches(&mut washes, Layer::Code, code);
        push_stretches(&mut washes, Layer::Chip, chips);
        washes
    }
}

fn push_stretches(washes: &mut Vec<Wash>, layer: Layer, spans: &Vec<Span>)
    ensures
        final(washes)@ == old(washes)@ + stretch_washes(layer, spans@),
{
    let ghost under = washes@;
    let mut i: usize = 0;
    assert(washes@ =~= under + stretch_washes(layer, spans@).take(0));
    while i < spans.len()
        invariant
            i <= spans@.len(),
            washes@ == under + stretch_washes(layer, spans@).take(i as int),
        decreases spans@.len() - i,
    {
        washes.push(Wash { layer, range: spans[i] });
        assert(washes@ =~= under + stretch_washes(layer, spans@).take(i + 1));
        i = i + 1;
    }
    assert(stretch_washes(layer, spans@).take(i as int) =~= stretch_washes(layer, spans@));
}

/// The washes of the first `n` annotated slices that reach a line, in bytes of
/// the line.
pub open spec fn line_annotations(slices: Seq<(Span, Annotation)>, line: Span, n: int) -> Seq<Wash>
    decreases n,
{
    if n <= 0 {
        Seq::empty()
    } else {
        let before = line_annotations(slices, line, n - 1);
        match code::on_line(slices[n - 1].0, line) {
            Some(range) => before.push(
                Wash { layer: Layer::Annotation(slices[n - 1].1), range },
            ),
            None => before,
        }
    }
}

/// What is painted under one line of a fence.
pub open spec fn line_washes(
    slices: Seq<(Span, Annotation)>,
    selected: Option<Span>,
    caret: Option<usize>,
    line: Span,
) -> Seq<Wash> {
    line_annotations(slices, line, slices.len() as int) + selection_wash(
        match selected {
            Some(range) => code::on_line(range, line),
            None => None,
        },
    ) + caret_wash(code::caret_in_line(caret, line))
}

/// What is painted under one line of a fence, the first underneath, in bytes of
/// the line: what of each annotated slice is on it, of the selection, and the
/// caret where it is.
pub fn code_line(
    slices: &Vec<(Span, Annotation)>,
    selected: Option<Span>,
    caret: Option<usize>,
    line: Span,
) -> (washes: Vec<Wash>)
    requires
        line.start <= line.end,
    ensures
        washes@ == line_washes(slices@, selected, caret, line),
{
    let mut washes: Vec<Wash> = Vec::new();
    let mut n: usize = 0;
    while n < slices.len()
        invariant
            n <= slices@.len(),
            washes@ == line_annotations(slices@, line, n as int),
        decreases slices@.len() - n,
    {
        let (range, annotation) = slices[n];
        if let Some(range) = line_slice(range, line) {
            washes.push(Wash { layer: Layer::Annotation(annotation), range });
        }
        n = n + 1;
    }
    let ghost under = washes@;
    if let Some(range) = selected {
        if let Some(range) = line_slice(range, line) {
            washes.push(Wash { layer: Layer::Selection, range });
        }
    }
    assert(washes@ =~= under + selection_wash(
        match selected {
            Some(range) => code::on_line(range, line),
            None => None,
        },
    ));
    let ghost under = washes@;
    if let Some(at) = line_caret(caret, line) {
        washes.push(Wash { layer: Layer::Caret, range: Span { start: at, end: at } });
    }
    assert(washes@ =~= under + caret_wash(code::caret_in_line(caret, line)));
    washes
}

/// Who answers a press on a task block's checkbox.
///
/// Either paints the box as a control — the pointer over it is a hand. With
/// neither it is a mark, and the press goes wherever it would on any other
/// glyph.
#[derive(Clone, Copy, Debug, PartialEq, Eq, Structural)]
pub enum Toggle {
    /// The box takes the press, stops it, and calls the host.
    Handled,
    /// The box takes no press: the host hit-tests it in its own handler.
    HitTested,
}

/// What stands in the marker column of a row.
#[derive(Clone, Copy, Debug, PartialEq, Eq, Structural)]
pub enum Marker {
    Disc,
    Number(u64),
    Checkbox {
        checked: bool,
        /// Whether the pointer over it is a hand.
        control: bool,
        /// Whether it takes the press itself.
        listens: bool,
    },
}

/// The picture of an image block.
#[derive(Clone, Copy, Debug, PartialEq, Eq, Structural)]
pub enum Picture {
    /// None yet: a dashed row, waiting to be told what to show.
    Blank,
    /// A stated width is the box's.
    Sized(u32),
    /// Unstated, the picture scales itself against the column.
    Natural,
}

/// The shape a block takes.
#[derive(Clone, Copy, Debug, PartialEq, Eq, Structural)]
pub enum Element {
    Paragraph,
    Heading(u8),
    Item(Marker),
    /// A quote, and the tone an alert's rule and label take.
    Quote(Option<Tone>),
    /// A fence the app paints, and whether the selection's wash is under it.
    Painted { washed: bool },
    /// A fence's lines, and whether it offers to copy itself.
    Fence { copy: bool },
    Image { picture: Picture, captioned: bool },
    Bookmark(Form),
    Table,
    Rule,
}

/// The tone of an alert of a kind.
pub open spec fn tone_of(kind: QuoteKind) -> Tone {
    match kind {
        QuoteKind::Note => Tone::Accent,
        QuoteKind::Tip => Tone::Success,
        QuoteKind::Important => Tone::Busy,
        QuoteKind::Warning => Tone::Warning,
        QuoteKind::Caution => Tone::Danger,
    }
}

/// The shape a block takes. `rendered` is whether the app paints a fence of its
/// language. The caret in the fence gives the source back: a painted block is
/// still an editable one, and typing into it otherwise edits what the reader
/// cannot see.
pub fn block_element(
    block: &Block,
    overlay: Overlay,
    toggle: Option<Toggle>,
    caption: Caption,
    copy: CopyButton,
    rendered: bool,
) -> (element: Element)
    ensures
        element == (match block.kind {
            BlockKind::Paragraph(_) => Element::Paragraph,
            BlockKind::Heading { level, .. } => Element::Heading(level),
            BlockKind::Bullet(_) => Element::Item(Marker::Disc),
            BlockKind::Ordered { number, .. } => Element::Item(Marker::Number(number)),
            BlockKind::Task { checked, .. } => Element::Item(
                Marker::Checkbox {
                    checked,
                    control: toggle is Some,
                    listens: toggle == Some(Toggle::Handled),
                },
            ),
            BlockKind::Quote { kind, .. } => Element::Quote(
                match kind {
                    Some(kind) => Some(tone_of(kind)),
                    None => None,
                },
            ),
            BlockKind::Code { .. } => {
                let fence = Overlay { part: Part::Code, ..overlay };
                if fence.caret_in() is None && rendered {
                    Element::Painted {
                        washed: overlay.selection matches Some(selection) && selection.anchor
                            != selection.head && selection.ends().0.block < overlay.block
                            < selection.ends().1.block,
                    }
                } else {
                    Element::Fence { copy: copy == CopyButton::Shown }
                }
            },
            BlockKind::Image { url, alt, width } => {
                let under = Overlay { part: Part::Caption, ..overlay };
                Element::Image {
                    picture: if url@.len() == 0 {
                        Picture::Blank
                    } else {
                        match width {
                            Some(width) => Picture::Sized(width),
                            None => Picture::Natural,
                        }
                    },
                    captioned: caption == Caption::Shown && (alt.text@.len() > 0
                        || under.caret_in() is Some),
                }
            },
            BlockKind::Bookmark { form, .. } => Element::Bookmark(form),
            BlockKind::Table { .. } => Element::Table,
            BlockKind::Rule => Element::Rule,
        }),
{
    match &block.kind {
        BlockKind::Paragraph(_) => Element::Paragraph,
        BlockKind::Heading { level, .. } => Element::Heading(*level),
        BlockKind::Bullet(_) => Element::Item(Marker::Disc),
        BlockKind::Ordered { number, .. } => Element::Item(Marker::Number(*number)),
        BlockKind::Task { checked, .. } => Element::Item(
            Marker::Checkbox {
                checked: *checked,
                control: toggle.is_some(),
                listens: match toggle {
                    Some(Toggle::Handled) => true,
                    _ => false,
                },
            },
        ),
        BlockKind::Quote { kind, .. } => Element::Quote(
            match kind {
                Some(kind) => Some(crate::markdown::blocks::alert_color(*kind)),
                None => None,
            },
        ),
        BlockKind::Code { .. } => {
            let fence = overlay.at(Part::Code);
            if fence.caret().is_none() && rendered {
                Element::Painted { washed: fence.covers_block() }
            } else {
                Element::Fence { copy: copy == CopyButton::Shown }
            }
        },
        BlockKind::Image { url, alt, width } => {
            let under = overlay.at(Part::Caption);
            let picture = if url.as_str().is_empty() {
                Picture::Blank
            } else {
                match *width {
                    Some(width) => Picture::Sized(width),
                    None => Picture::Natural,
                }
            };
            Element::Image { picture, captioned: under.captions(caption, alt.is_empty()) }
        },
        BlockKind::Bookmark { form, .. } => Element::Bookmark(*form),
        BlockKind::Table { .. } => Element::Table,
        BlockKind::Rule => Element::Rule,
    }
}

/// What a fence's header calls it.
pub fn language_label(language: &Option<String>) -> (label: String)
    ensures
        label@ == (match *language {
            Some(language) => language@,
            None => PLAIN_LANGUAGE@,
        }),
{
    match language {
        Some(language) => language.clone(),
        None => PLAIN_LANGUAGE.to_owned(),
    }
}

/// The caret is painted once: on one line of a fence, and on no other.
pub proof fn a_caret_is_painted_once(lines: Seq<Span>, len: int, at: usize) -> (line: int)
    requires
        code::tiled(lines, len),
        at <= len,
    ensures
        0 <= line < lines.len(),
        forall|i: int|
            0 <= i < lines.len() ==> (caret_wash(
                code::caret_in_line(Some(at), #[trigger] lines[i]),
            ).len() == (if i == line {
                1nat
            } else {
                0
            })),
{
    code::a_caret_is_on_one_line(lines, len, at)
}

} // verus!
