//! Where each block's text landed, recorded as it painted.
//!
//! A caret has to be placeable by pointer, and only paint knows where a glyph
//! ended up. What paint measures arrives here as plain numbers; which row,
//! which text and which byte an answer is about is decided here.

use vstd::prelude::*;

use crate::markdown::doc::{Cursor, Part, Selection, Span};

verus! {

/// A box as painted, its four measures kept as the bits the host gave: origin,
/// width and height.
#[derive(Clone, Copy, Debug, PartialEq, Eq, Structural)]
pub struct Bounds {
    pub x: u32,
    pub y: u32,
    pub width: u32,
    pub height: u32,
}

/// One line of a shaped text: its bytes, and where it wraps. A wrap is both the
/// end of one row and the start of the next.
#[derive(Clone, Debug, PartialEq, Eq)]
pub struct Line {
    pub len: usize,
    pub wraps: Vec<usize>,
}

impl Line {
    /// Wraps come in order, and inside the line.
    pub open spec fn wf(self) -> bool {
        &&& forall|i: int| 0 <= i < self.wraps@.len() ==> #[trigger] self.wraps@[i] <= self.len
        &&& forall|i: int, j: int|
            0 <= i <= j < self.wraps@.len() ==> #[trigger] self.wraps@[i] <= #[trigger] self.wraps@[j]
    }

    /// The byte of the line its `k`th row starts at.
    pub open spec fn row_from(self, k: int) -> int {
        if k <= 0 {
            0
        } else {
            self.wraps@[k - 1] as int
        }
    }

    /// The byte of the line its `k`th row ends at.
    pub open spec fn row_to(self, k: int) -> int {
        if k < self.wraps@.len() {
            self.wraps@[k] as int
        } else {
            self.len as int
        }
    }
}

/// One painted row: a line of text, or as much of one as fits.
#[derive(Clone, Copy, Debug, PartialEq, Eq)]
pub struct Row {
    /// The text it is of, in the order they painted.
    pub painted: usize,
    pub block: usize,
    pub part: Part,
    pub range: Span,
    pub line_start: usize,
    pub wrapped_row: usize,
}

impl Row {
    /// Whether a position is on the row. One at a wrap is on two.
    pub open spec fn holds(self, at: Cursor) -> bool {
        self.block == at.block && self.part == at.part && self.range.start <= at.offset
            <= self.range.end
    }

    fn row_contains(&self, at: &Cursor) -> (yes: bool)
        ensures
            yes == self.holds(*at),
    {
        self.block == at.block && self.part == at.part && self.range.start <= at.offset
            && at.offset <= self.range.end
    }
}

/// One shaped run and the slice of its part it covers.
///
/// A paragraph is one entry over all of its text; a code block is one entry per
/// line.
#[derive(Clone, Copy, Debug, PartialEq, Eq)]
pub struct Painted {
    pub block: usize,
    pub part: Part,
    pub range: Span,
}

/// Where a position painted: a text, in the order they painted, and the byte of
/// it.
#[derive(Clone, Copy, Debug, PartialEq, Eq, Structural)]
pub struct PaintedAt {
    pub text: usize,
    pub byte: usize,
}

/// The byte the `n`th of some lines starts at, a newline after each.
pub open spec fn line_start(lines: Seq<Line>, start: int, n: int) -> int
    decreases n,
{
    if n <= 0 {
        start
    } else {
        line_start(lines, start, n - 1) + lines[n - 1].len + 1
    }
}

/// The rows of one line, which starts at byte `start` of its part.
pub open spec fn rows_in(line: Line, painted: usize, block: usize, part: Part, start: int) -> Seq<
    Row,
> {
    Seq::new(
        line.wraps@.len() + 1,
        |k: int|
            Row {
                painted,
                block,
                part,
                range: Span {
                    start: (start + line.row_from(k)) as usize,
                    end: (start + line.row_to(k)) as usize,
                },
                line_start: start as usize,
                wrapped_row: k as usize,
            },
    )
}

/// The rows of the first `n` lines of a text that starts at byte `start` of
/// its part.
pub open spec fn rows_of(
    lines: Seq<Line>,
    painted: usize,
    block: usize,
    part: Part,
    start: int,
    n: int,
) -> Seq<Row>
    decreases n,
{
    if n <= 0 {
        Seq::empty()
    } else {
        rows_of(lines, painted, block, part, start, n - 1) + rows_in(
            lines[n - 1],
            painted,
            block,
            part,
            line_start(lines, start, n - 1),
        )
    }
}

/// Where each block's text landed, and each block's own boxes.
#[derive(Clone, Debug)]
pub struct BlockLayouts {
    texts: Vec<Painted>,
    rows: Vec<Row>,
    blocks: Vec<(usize, Bounds)>,
    languages: Vec<(usize, Bounds)>,
    pictures: Vec<(usize, Bounds)>,
    checkboxes: Vec<(usize, Bounds)>,
}

/// What [`BlockLayouts`] holds.
#[verifier::ext_equal]
pub struct Frames {
    pub texts: Seq<Painted>,
    pub rows: Seq<Row>,
    /// Each block's whole box, which a text does not give: a rule and an image
    /// hold no text at all, and a gutter handle still has to find them.
    pub blocks: Seq<(usize, Bounds)>,
    /// A fenced block's language label.
    pub languages: Seq<(usize, Bounds)>,
    /// An image block's picture, which is not its block.
    pub pictures: Seq<(usize, Bounds)>,
    /// A task block's checkbox, which is not its marker column.
    pub checkboxes: Seq<(usize, Bounds)>,
}

impl Frames {
    pub open spec fn empty() -> Frames {
        Frames {
            texts: Seq::empty(),
            rows: Seq::empty(),
            blocks: Seq::empty(),
            languages: Seq::empty(),
            pictures: Seq::empty(),
            checkboxes: Seq::empty(),
        }
    }

    /// Where a position painted, in the texts from the `i`th on: the first that
    /// holds it.
    pub open spec fn painted_at(self, at: Cursor, i: int) -> Option<PaintedAt>
        decreases self.texts.len() - i,
    {
        if i < 0 || i >= self.texts.len() {
            None
        } else if text_holds(self.texts[i], at) {
            Some(
                PaintedAt {
                    text: i as usize,
                    byte: (at.offset - self.texts[i].range.start) as usize,
                },
            )
        } else {
            self.painted_at(at, i + 1)
        }
    }

    /// The first row from `i` on that holds a position and, where `under` says
    /// so of each row, is under the pointer.
    pub open spec fn row_at(self, at: Cursor, under: spec_fn(int) -> bool, i: int) -> Option<int>
        decreases self.rows.len() - i,
    {
        if i < 0 || i >= self.rows.len() {
            None
        } else if self.rows[i].holds(at) && under(i) {
            Some(i)
        } else {
            self.row_at(at, under, i + 1)
        }
    }

    /// The last row before `i` that holds a position.
    pub open spec fn last_row_at(self, at: Cursor, i: int) -> Option<int>
        decreases i,
    {
        if i <= 0 {
            None
        } else if self.rows[i - 1].holds(at) {
            Some(i - 1)
        } else {
            self.last_row_at(at, i - 1)
        }
    }

    /// The row a step is from: the one under the pointer that holds the
    /// position, and otherwise the first that holds it.
    pub open spec fn row_from(self, at: Cursor, under: Seq<bool>) -> Option<int> {
        let pointed = self.row_at(at, |i: int| i < under.len() && under[i], 0);
        if pointed is Some {
            pointed
        } else {
            self.row_at(at, |i: int| true, 0)
        }
    }

    /// The start or end of the painted row holding a position. A wrap belongs
    /// to both neighbouring rows: Home follows the following row and End the
    /// preceding one.
    pub open spec fn edge(self, at: Cursor, end: bool) -> Option<Cursor> {
        let row = if end {
            self.row_at(at, |i: int| true, 0)
        } else {
            self.last_row_at(at, self.rows.len() as int)
        };
        match row {
            Some(i) => Some(
                Cursor {
                    block: self.rows[i].block,
                    part: self.rows[i].part,
                    offset: if end {
                        self.rows[i].range.end
                    } else {
                        self.rows[i].range.start
                    },
                },
            ),
            None => None,
        }
    }

    /// The bytes of a text that a selection covers, within what painted.
    pub open spec fn covered(self, i: int, selection: Selection) -> Option<Span> {
        let (start, end) = selection.ends();
        let painted = self.texts[i];
        let here = Cursor { block: painted.block, part: painted.part, offset: 0 };
        let len = if painted.range.end >= painted.range.start {
            painted.range.end - painted.range.start
        } else {
            0
        };
        let first = if here == start.start() {
            within(start.offset - painted.range.start, len)
        } else {
            0
        };
        let last = if here == end.start() {
            within(end.offset - painted.range.start, len)
        } else {
            len
        };
        if here.before(start.start()) || end.start().before(here) || first >= last {
            None
        } else {
            Some(Span { start: first as usize, end: last as usize })
        }
    }

    /// The texts a selection covers something of, of the first `n`, and the
    /// bytes of each.
    pub open spec fn covers(self, selection: Selection, n: int) -> Seq<(usize, Span)>
        decreases n,
    {
        if n <= 0 {
            Seq::empty()
        } else {
            let before = self.covers(selection, n - 1);
            match self.covered(n - 1, selection) {
                Some(span) => before.push(((n - 1) as usize, span)),
                None => before,
            }
        }
    }
}

/// A number held between nought and `len`.
pub open spec fn within(n: int, len: int) -> int {
    if n < 0 {
        0
    } else if n > len {
        len
    } else {
        n
    }
}

/// The first of some boxes recorded for a block.
pub open spec fn first_of(boxes: Seq<(usize, Bounds)>, ix: usize, i: int) -> Option<Bounds>
    decreases boxes.len() - i,
{
    if i < 0 || i >= boxes.len() {
        None
    } else if boxes[i].0 == ix {
        Some(boxes[i].1)
    } else {
        first_of(boxes, ix, i + 1)
    }
}

/// Whether `found` is the first of `n` things that the pointer is in, and where
/// it is in none, the first of the nearest.
pub open spec fn pointed_at(under: Seq<bool>, away: Seq<i64>, n: int, found: Option<int>) -> bool {
    let inside = |i: int| 0 <= i < n && i < under.len() && under[i];
    match found {
        Some(found) => {
            &&& 0 <= found < n
            &&& inside(found) ==> forall|i: int| 0 <= i < found ==> !#[trigger] inside(i)
            &&& !inside(found) ==> {
                &&& forall|i: int| 0 <= i < n ==> !#[trigger] inside(i)
                &&& forall|i: int|
                    0 <= i < found ==> distance(away, found) < #[trigger] distance(away, i)
                &&& forall|i: int|
                    found <= i < n ==> distance(away, found) <= #[trigger] distance(away, i)
            }
        },
        None => n == 0,
    }
}

/// How far the pointer is from the `i`th of some things. One not measured is as
/// far as can be.
pub open spec fn distance(away: Seq<i64>, i: int) -> i64 {
    if 0 <= i < away.len() {
        away[i]
    } else {
        i64::MAX
    }
}

/// The first of `n` things the pointer is in, and where it is in none, the
/// first of the nearest — so clicking the margin beside a line, or below the
/// last one, still lands somewhere useful rather than doing nothing.
fn pointed(under: &Vec<bool>, away: &Vec<i64>, n: usize) -> (found: Option<usize>)
    ensures
        pointed_at(
            under@,
            away@,
            n as int,
            match found {
                Some(found) => Some(found as int),
                None => None,
            },
        ),
{
    let ghost inside = |i: int| 0 <= i < n && i < under@.len() && under@[i];
    let mut i: usize = 0;
    while i < n
        invariant
            i <= n,
            inside == (|i: int| 0 <= i < n && i < under@.len() && under@[i]),
            forall|j: int| 0 <= j < i ==> !#[trigger] inside(j),
        decreases n - i,
    {
        if i < under.len() && under[i] {
            assert(inside(i as int));
            return Some(i);
        }
        i = i + 1;
    }
    if n == 0 {
        return None;
    }
    let mut best: usize = 0;
    let mut least: i64 = if away.len() > 0 {
        away[0]
    } else {
        i64::MAX
    };
    let mut i: usize = 1;
    while i < n
        invariant
            1 <= i <= n,
            best < i,
            least == distance(away@, best as int),
            forall|j: int| 0 <= j < best ==> least < #[trigger] distance(away@, j),
            forall|j: int| best <= j < i ==> least <= #[trigger] distance(away@, j),
        decreases n - i,
    {
        let d: i64 = if i < away.len() {
            away[i]
        } else {
            i64::MAX
        };
        assert(d == distance(away@, i as int));
        if d < least {
            least = d;
            best = i;
        }
        i = i + 1;
    }
    Some(best)
}

/// The first of some boxes recorded for a block.
fn first(boxes: &Vec<(usize, Bounds)>, ix: usize) -> (found: Option<Bounds>)
    ensures
        found == first_of(boxes@, ix, 0),
{
    let mut i: usize = 0;
    while i < boxes.len()
        invariant
            i <= boxes@.len(),
            first_of(boxes@, ix, 0) == first_of(boxes@, ix, i as int),
        decreases boxes@.len() - i,
    {
        if boxes[i].0 == ix {
            return Some(boxes[i].1);
        }
        i = i + 1;
    }
    None
}

impl View for BlockLayouts {
    type V = Frames;

    closed spec fn view(&self) -> Frames {
        Frames {
            texts: self.texts@,
            rows: self.rows@,
            blocks: self.blocks@,
            languages: self.languages@,
            pictures: self.pictures@,
            checkboxes: self.checkboxes@,
        }
    }
}

impl Default for BlockLayouts {
    fn default() -> (layouts: BlockLayouts)
        ensures
            layouts@ == Frames::empty(),
    {
        let layouts = BlockLayouts {
            texts: Vec::new(),
            rows: Vec::new(),
            blocks: Vec::new(),
            languages: Vec::new(),
            pictures: Vec::new(),
            checkboxes: Vec::new(),
        };
        assert(layouts@ =~= Frames::empty());
        layouts
    }
}

impl BlockLayouts {
    /// The rows painted, in document order.
    pub fn rows(&self) -> (rows: &Vec<Row>)
        ensures
            rows@ == self@.rows,
    {
        &self.rows
    }

    /// The texts painted, in document order.
    pub fn texts(&self) -> (texts: &Vec<Painted>)
        ensures
            texts@ == self@.texts,
    {
        &self.texts
    }

    /// The row a press is on: the first the pointer is in, by `under`, and
    /// otherwise the first of the nearest, by `away`.
    pub fn hit(&self, under: &Vec<bool>, away: &Vec<i64>) -> (row: Option<usize>)
        ensures
            pointed_at(
                under@,
                away@,
                self@.rows.len() as int,
                match row {
                    Some(row) => Some(row as int),
                    None => None,
                },
            ),
    {
        pointed(under, away, self.rows.len())
    }

    /// The block under the pointer, for a gutter handle and a drop target: the
    /// block of the box it is in, by `under`, and otherwise of the nearest.
    pub fn block_at(&self, under: &Vec<bool>, away: &Vec<i64>) -> (block: Option<usize>)
        ensures
            block is Some <==> self@.blocks.len() > 0,
            block matches Some(block) ==> exists|i: int|
                #![trigger self@.blocks[i]]
                0 <= i < self@.blocks.len() && self@.blocks[i].0 == block && pointed_at(
                    under@,
                    away@,
                    self@.blocks.len() as int,
                    Some(i),
                ),
    {
        match pointed(under, away, self.blocks.len()) {
            Some(i) => {
                assert(self@.blocks[i as int].0 == self.blocks@[i as int].0);
                Some(self.blocks[i].0)
            },
            None => None,
        }
    }

    /// The position at a byte of a row's line, held inside the row.
    pub fn cursor_in_row(&self, row: usize, offset: usize) -> (at: Cursor)
        requires
            row < self@.rows.len(),
        ensures
            at.block == self@.rows[row as int].block,
            at.part == self@.rows[row as int].part,
            at.offset == (if self@.rows[row as int].line_start + offset
                <= self@.rows[row as int].range.end {
                self@.rows[row as int].line_start + offset
            } else {
                self@.rows[row as int].range.end as int
            }),
    {
        let row = &self.rows[row];
        let room = if row.range.end >= row.line_start {
            row.range.end - row.line_start
        } else {
            return Cursor::new(row.block, row.part, row.range.end);
        };
        let offset = if offset <= room {
            row.line_start + offset
        } else {
            row.range.end
        };
        Cursor::new(row.block, row.part, offset)
    }

    /// Where a position painted last frame: the first text that holds it, and
    /// the byte of that text.
    ///
    /// Vertical motion is geometry rather than arithmetic on line numbers, so a
    /// wrapped row and a hard newline are the same case and neither needs
    /// counting.
    pub fn position(&self, at: Cursor) -> (place: Option<PaintedAt>)
        ensures
            place == self@.painted_at(at, 0),
    {
        let mut i: usize = 0;
        while i < self.texts.len()
            invariant
                i <= self@.texts.len(),
                self@.texts == self.texts@,
                self@.painted_at(at, 0) == self@.painted_at(at, i as int),
            decreases self@.texts.len() - i,
        {
            let painted = &self.texts[i];
            if painted.block == at.block && painted.part == at.part && painted.range.start
                <= at.offset && at.offset <= painted.range.end {
                return Some(PaintedAt { text: i, byte: at.offset - painted.range.start });
            }
            i = i + 1;
        }
        None
    }

    /// Whether the pointer is over a painted text, `under` being the texts it
    /// is in the box of.
    pub fn over_text(&self, under: &Vec<bool>) -> (yes: bool)
        ensures
            yes == (exists|i: int|
                0 <= i < self@.texts.len() && i < under@.len() && #[trigger] under@[i]),
    {
        let mut i: usize = 0;
        while i < self.texts.len() && i < under.len()
            invariant
                i <= self@.texts.len(),
                i <= under@.len(),
                self@.texts == self.texts@,
                forall|j: int| 0 <= j < i ==> !#[trigger] under@[j],
            decreases self@.texts.len() - i,
        {
            if under[i] {
                return true;
            }
            i = i + 1;
        }
        false
    }

    /// The texts a selection covers something of, in document order, and the
    /// bytes of each: a selection that wraps or crosses blocks has no single
    /// box.
    pub fn rects(&self, selection: Selection) -> (covered: Vec<(usize, Span)>)
        ensures
            covered@ == self@.covers(selection, self@.texts.len() as int),
    {
        let (start, end) = selection.ordered();
        let from = Cursor::new(start.block, start.part, 0);
        let to = Cursor::new(end.block, end.part, 0);
        let mut covered: Vec<(usize, Span)> = Vec::new();
        let mut i: usize = 0;
        while i < self.texts.len()
            invariant
                i <= self@.texts.len(),
                self@.texts == self.texts@,
                (start, end) == selection.ends(),
                from == start.start(),
                to == end.start(),
                covered@ == self@.covers(selection, i as int),
            decreases self@.texts.len() - i,
        {
            let painted = self.texts[i];
            let here = Cursor::new(painted.block, painted.part, 0);
            let base = painted.range.start;
            let len = if painted.range.end >= base {
                painted.range.end - base
            } else {
                0
            };
            if !here.is_before(&from) && !to.is_before(&here) {
                // The offsets only matter at the two ends: in between, the
                // whole of the text is covered.
                let first = if here == from {
                    inside(start.offset, base, len)
                } else {
                    0
                };
                let last = if here == to {
                    inside(end.offset, base, len)
                } else {
                    len
                };
                if first < last {
                    covered.push((i, Span { start: first, end: last }));
                }
            }
            i = i + 1;
        }
        covered
    }

    /// The row one above or below the one `at` is on. Walks the rows in paint
    /// order — which is document order.
    ///
    /// `under` says of each row whether the height the step is from is in it,
    /// rather than that being derived from `at`, because an offset at a soft
    /// wrap belongs to two rows: derive it and every step down recomputes the
    /// same row.
    pub fn step_row(&self, at: Cursor, under: &Vec<bool>, down: bool) -> (row: Option<usize>)
        ensures
            match self@.row_from(at, under@) {
                Some(i) => {
                    let next = if down {
                        i + 1
                    } else {
                        i - 1
                    };
                    if 0 <= next < self@.rows.len() {
                        row == Some(next as usize)
                    } else {
                        row is None
                    }
                },
                None => row is None,
            },
    {
        let ghost pointed = |i: int| i < under@.len() && under@[i];
        let ghost any = |i: int| true;
        let mut found: Option<usize> = None;
        let mut first: Option<usize> = None;
        let mut i: usize = 0;
        while i < self.rows.len() && found.is_none()
            invariant
                i <= self@.rows.len(),
                self@.rows == self.rows@,
                pointed == (|i: int| i < under@.len() && under@[i]),
                any == (|i: int| true),
                match found {
                    Some(found) => self@.row_at(at, pointed, 0) == Some(found as int) && found
                        < self@.rows.len(),
                    None => self@.row_at(at, pointed, 0) == self@.row_at(at, pointed, i as int),
                },
                match first {
                    Some(first) => self@.row_at(at, any, 0) == Some(first as int) && first
                        < self@.rows.len(),
                    None => self@.row_at(at, any, 0) == self@.row_at(at, any, i as int),
                },
            decreases self@.rows.len() - i,
        {
            if self.rows[i].row_contains(&at) {
                if first.is_none() {
                    first = Some(i);
                }
                if i < under.len() && under[i] {
                    found = Some(i);
                }
            }
            i = i + 1;
        }
        let ix = match found {
            Some(ix) => ix,
            None => match first {
                Some(ix) => ix,
                None => {
                    return None;
                },
            },
        };
        if down {
            if ix + 1 < self.rows.len() {
                Some(ix + 1)
            } else {
                None
            }
        } else if ix > 0 {
            Some(ix - 1)
        } else {
            None
        }
    }

    /// The start or end of the painted row holding `at`.
    ///
    /// A wrap boundary belongs to both neighbouring rows. Home follows the
    /// following row and End the preceding one, matching the side of the
    /// boundary each key means and preventing either key from jumping to the
    /// hard line's edge.
    pub fn visual_row_edge(&self, at: Cursor, end: bool) -> (edge: Option<Cursor>)
        ensures
            edge == self@.edge(at, end),
    {
        if end {
            let ghost any = |i: int| true;
            let mut i: usize = 0;
            while i < self.rows.len()
                invariant
                    end,
                    i <= self@.rows.len(),
                    self@.rows == self.rows@,
                    any == (|i: int| true),
                    self@.row_at(at, any, 0) == self@.row_at(at, any, i as int),
                decreases self@.rows.len() - i,
            {
                if self.rows[i].row_contains(&at) {
                    let row = &self.rows[i];
                    return Some(Cursor::new(row.block, row.part, row.range.end));
                }
                i = i + 1;
            }
            None
        } else {
            let mut i: usize = self.rows.len();
            while i > 0
                invariant
                    !end,
                    i <= self@.rows.len(),
                    self@.rows == self.rows@,
                    self@.last_row_at(at, self@.rows.len() as int) == self@.last_row_at(
                        at,
                        i as int,
                    ),
                decreases i,
            {
                if self.rows[i - 1].row_contains(&at) {
                    let row = &self.rows[i - 1];
                    return Some(Cursor::new(row.block, row.part, row.range.start));
                }
                i = i - 1;
            }
            None
        }
    }

    /// The first text of a block, which a mark in the gutter has to line up
    /// with. `None` for a block that paints no text at all, a rule being the
    /// one that does.
    pub fn first_row(&self, ix: usize) -> (text: Option<usize>)
        ensures
            match text {
                Some(i) => {
                    &&& i < self@.texts.len()
                    &&& self@.texts[i as int].block == ix
                    &&& forall|j: int| 0 <= j < i ==> (#[trigger] self@.texts[j]).block != ix
                },
                None => forall|j: int|
                    0 <= j < self@.texts.len() ==> (#[trigger] self@.texts[j]).block != ix,
            },
    {
        let mut i: usize = 0;
        while i < self.texts.len()
            invariant
                i <= self@.texts.len(),
                self@.texts == self.texts@,
                forall|j: int| 0 <= j < i ==> (#[trigger] self@.texts[j]).block != ix,
            decreases self@.texts.len() - i,
        {
            if self.texts[i].block == ix {
                return Some(i);
            }
            i = i + 1;
        }
        None
    }

    /// Where a block painted last frame.
    pub fn block_bounds(&self, ix: usize) -> (bounds: Option<Bounds>)
        ensures
            bounds == first_of(self@.blocks, ix, 0),
    {
        first(&self.blocks, ix)
    }

    /// Where a fenced block's language label painted — the box a host hangs its
    /// picker on.
    pub fn language_bounds(&self, ix: usize) -> (bounds: Option<Bounds>)
        ensures
            bounds == first_of(self@.languages, ix, 0),
    {
        first(&self.languages, ix)
    }

    /// Where an image block's picture painted, which
    /// [`BlockLayouts::block_bounds`] does not give.
    pub fn picture_bounds(&self, ix: usize) -> (bounds: Option<Bounds>)
        ensures
            bounds == first_of(self@.pictures, ix, 0),
    {
        first(&self.pictures, ix)
    }

    /// Where a task block's checkbox painted, which is the box itself and not
    /// the marker column it sits in.
    pub fn checkbox_bounds(&self, ix: usize) -> (bounds: Option<Bounds>)
        ensures
            bounds == first_of(self@.checkboxes, ix, 0),
    {
        first(&self.checkboxes, ix)
    }

    /// A text that painted, and the lines it was shaped into.
    pub fn record(&mut self, block: usize, part: Part, range: Span, lines: &Vec<Line>)
        requires
            line_start(lines@, range.start as int, lines@.len() as int) <= usize::MAX,
            forall|i: int| 0 <= i < lines@.len() ==> (#[trigger] lines@[i]).wf(),
        ensures
            final(self)@ == (Frames {
                texts: old(self)@.texts.push(Painted { block, part, range }),
                rows: old(self)@.rows + rows_of(
                    lines@,
                    old(self)@.texts.len() as usize,
                    block,
                    part,
                    range.start as int,
                    lines@.len() as int,
                ),
                ..old(self)@
            }),
    {
        let painted = self.texts.len();
        record_rows(&mut self.rows, painted, block, part, range.start, lines);
        self.texts.push(Painted { block, part, range });
    }

    pub fn record_block(&mut self, ix: usize, bounds: Bounds)
        ensures
            final(self)@ == (Frames {
                blocks: old(self)@.blocks.push((ix, bounds)),
                ..old(self)@
            }),
    {
        self.blocks.push((ix, bounds));
    }

    pub fn record_language(&mut self, ix: usize, bounds: Bounds)
        ensures
            final(self)@ == (Frames {
                languages: old(self)@.languages.push((ix, bounds)),
                ..old(self)@
            }),
    {
        self.languages.push((ix, bounds));
    }

    pub fn record_picture(&mut self, ix: usize, bounds: Bounds)
        ensures
            final(self)@ == (Frames {
                pictures: old(self)@.pictures.push((ix, bounds)),
                ..old(self)@
            }),
    {
        self.pictures.push((ix, bounds));
    }

    pub fn record_checkbox(&mut self, ix: usize, bounds: Bounds)
        ensures
            final(self)@ == (Frames {
                checkboxes: old(self)@.checkboxes.push((ix, bounds)),
                ..old(self)@
            }),
    {
        self.checkboxes.push((ix, bounds));
    }

    pub fn clear(&mut self)
        ensures
            final(self)@ == Frames::empty(),
    {
        self.texts.clear();
        self.rows.clear();
        self.blocks.clear();
        self.languages.clear();
        self.pictures.clear();
        self.checkboxes.clear();
        assert(self@ =~= Frames::empty());
    }

    /// Discard coordinates from the document state before an edit.
    ///
    /// Input can arrive before the next paint pass. Keeping the old rows would
    /// interpret a caret moved by Enter against its former visual position, so
    /// the following Up or Down must wait for the new layout.
    pub fn invalidate(&mut self)
        ensures
            final(self)@ == Frames::empty(),
    {
        self.clear();
    }
}

/// Whether a text holds a position.
pub open spec fn text_holds(painted: Painted, at: Cursor) -> bool {
    painted.block == at.block && painted.part == at.part && painted.range.start <= at.offset
        <= painted.range.end
}

/// An offset into a text of `len` bytes from byte `base`, held inside it.
fn inside(offset: usize, base: usize, len: usize) -> (at: usize)
    ensures
        at == within(offset - base, len as int),
{
    if offset < base {
        0
    } else if offset - base > len {
        len
    } else {
        offset - base
    }
}

proof fn lemma_line_start_order(lines: Seq<Line>, start: int, i: int, j: int)
    requires
        0 <= i <= j,
    ensures
        line_start(lines, start, i) + (j - i) <= line_start(lines, start, j),
        start <= line_start(lines, start, i),
    decreases j,
{
    if i < j {
        lemma_line_start_order(lines, start, i, j - 1);
    } else if i > 0 {
        lemma_line_start_order(lines, start, i - 1, i - 1);
    }
}

/// Adds the rows of a text's lines, one for each line and for each wrap of it.
fn record_rows(
    rows: &mut Vec<Row>,
    painted: usize,
    block: usize,
    part: Part,
    start: usize,
    lines: &Vec<Line>,
)
    requires
        line_start(lines@, start as int, lines@.len() as int) <= usize::MAX,
        forall|i: int| 0 <= i < lines@.len() ==> (#[trigger] lines@[i]).wf(),
    ensures
        final(rows)@ == old(rows)@ + rows_of(
            lines@,
            painted,
            block,
            part,
            start as int,
            lines@.len() as int,
        ),
{
    let ghost before = rows@;
    let mut at: usize = start;
    let mut n: usize = 0;
    assert(rows@ =~= before + rows_of(lines@, painted, block, part, start as int, 0));
    while n < lines.len()
        invariant
            n <= lines@.len(),
            line_start(lines@, start as int, lines@.len() as int) <= usize::MAX,
            forall|i: int| 0 <= i < lines@.len() ==> (#[trigger] lines@[i]).wf(),
            at == line_start(lines@, start as int, n as int),
            rows@ == before + rows_of(lines@, painted, block, part, start as int, n as int),
        decreases lines@.len() - n,
    {
        let line = &lines[n];
        assert(lines@[n as int].wf());
        proof {
            lemma_line_start_order(lines@, start as int, n + 1, lines@.len() as int);
        }
        let ghost so_far = rows@;
        let ghost whole = rows_in(*line, painted, block, part, at as int);
        let mut row_start: usize = 0;
        let mut k: usize = 0;
        assert(so_far =~= so_far + whole.take(0));
        while k < line.wraps.len()
            invariant
                k <= line.wraps@.len(),
                line.wf(),
                at + line.len <= usize::MAX,
                whole == rows_in(*line, painted, block, part, at as int),
                row_start == line.row_from(k as int),
                row_start <= line.len,
                rows@ == so_far + whole.take(k as int),
            decreases line.wraps@.len() - k,
        {
            let row_end = line.wraps[k];
            rows.push(
                Row {
                    painted,
                    block,
                    part,
                    range: Span { start: at + row_start, end: at + row_end },
                    line_start: at,
                    wrapped_row: k,
                },
            );
            assert(rows@ =~= so_far + whole.take(k + 1));
            row_start = row_end;
            k = k + 1;
        }
        rows.push(
            Row {
                painted,
                block,
                part,
                range: Span { start: at + row_start, end: at + line.len },
                line_start: at,
                wrapped_row: k,
            },
        );
        assert(rows@ =~= so_far + whole);
        assert(rows@ =~= before + rows_of(lines@, painted, block, part, start as int, n + 1));
        at = at + line.len + 1;
        n = n + 1;
    }
}

/// As much of a range as is on one visual row: the line, the row of it, and
/// the bytes of the line.
#[derive(Clone, Copy, Debug, PartialEq, Eq)]
pub struct RowCut {
    pub line: usize,
    pub row: usize,
    pub range: Span,
}

impl Line {
    /// The bytes of the line that a range covers of its `k`th row, where the
    /// line starts at byte `start` of its text.
    pub open spec fn cut(self, start: int, k: int, range: Span) -> Option<Span> {
        let low = within(range.start - start, self.row_to(k));
        let from = if low < self.row_from(k) {
            self.row_from(k)
        } else {
            low
        };
        let to = within(range.end - start, self.row_to(k));
        if from < to {
            Some(Span { start: from as usize, end: to as usize })
        } else {
            None
        }
    }
}

/// What a range covers of the first `k` rows of the `n`th line.
pub open spec fn cuts_in(lines: Seq<Line>, range: Span, n: int, k: int) -> Seq<RowCut>
    decreases k,
{
    if k <= 0 {
        Seq::empty()
    } else {
        let before = cuts_in(lines, range, n, k - 1);
        match lines[n].cut(line_start(lines, 0, n), k - 1, range) {
            Some(range) => before.push(RowCut { line: n as usize, row: (k - 1) as usize, range }),
            None => before,
        }
    }
}

/// What a range covers of the rows of the first `n` lines.
pub open spec fn cuts_of(lines: Seq<Line>, range: Span, n: int) -> Seq<RowCut>
    decreases n,
{
    if n <= 0 {
        Seq::empty()
    } else {
        cuts_of(lines, range, n - 1) + cuts_in(
            lines,
            range,
            n - 1,
            lines[n - 1].wraps@.len() as int + 1,
        )
    }
}

/// The bytes a range occupies, one slice per visual row: a wrapped selection is
/// a stack of rows rather than a box around all of them.
pub fn range_rects(lines: &Vec<Line>, range: Span) -> (cuts: Vec<RowCut>)
    requires
        line_start(lines@, 0, lines@.len() as int) <= usize::MAX,
        forall|i: int| 0 <= i < lines@.len() ==> (#[trigger] lines@[i]).wf(),
    ensures
        cuts@ == cuts_of(lines@, range, lines@.len() as int),
{
    let mut cuts: Vec<RowCut> = Vec::new();
    let mut at: usize = 0;
    let mut n: usize = 0;
    while n < lines.len()
        invariant
            n <= lines@.len(),
            line_start(lines@, 0, lines@.len() as int) <= usize::MAX,
            forall|i: int| 0 <= i < lines@.len() ==> (#[trigger] lines@[i]).wf(),
            at == line_start(lines@, 0, n as int),
            cuts@ == cuts_of(lines@, range, n as int),
        decreases lines@.len() - n,
    {
        let line = &lines[n];
        assert(lines@[n as int].wf());
        proof {
            lemma_line_start_order(lines@, 0, n + 1, lines@.len() as int);
        }
        let ghost so_far = cuts@;
        let mut row_start: usize = 0;
        let mut k: usize = 0;
        let rows = line.wraps.len();
        while k < rows
            invariant
                n < lines@.len(),
                *line == lines@[n as int],
                rows == line.wraps@.len(),
                k <= rows,
                line.wf(),
                at == line_start(lines@, 0, n as int),
                row_start == line.row_from(k as int),
                row_start <= line.len,
                cuts@ == so_far + cuts_in(lines@, range, n as int, k as int),
            decreases rows - k,
        {
            let row_end = line.wraps[k];
            if let Some(range) = row_cut(at, row_start, row_end, range) {
                cuts.push(RowCut { line: n, row: k, range });
            }
            assert(cuts@ =~= so_far + cuts_in(lines@, range, n as int, k + 1));
            row_start = row_end;
            k = k + 1;
        }
        if let Some(range) = row_cut(at, row_start, line.len, range) {
            cuts.push(RowCut { line: n, row: k, range });
        }
        assert(cuts@ =~= so_far + cuts_in(lines@, range, n as int, k + 1));
        // The newline between two lines is a byte of the text and of neither.
        at = at + line.len + 1;
        n = n + 1;
    }
    cuts
}

/// The bytes of a line that a range covers of one row of it.
fn row_cut(start: usize, row_start: usize, row_end: usize, range: Span) -> (cut: Option<Span>)
    requires
        row_start <= row_end,
    ensures
        ({
            let low = within(range.start - start, row_end as int);
            let from = if low < row_start {
                row_start as int
            } else {
                low
            };
            let to = within(range.end - start, row_end as int);
            cut == (if from < to {
                Some(Span { start: from as usize, end: to as usize })
            } else {
                None::<Span>
            })
        }),
{
    let low = inside(range.start, start, row_end);
    let from = if low < row_start {
        row_start
    } else {
        low
    };
    let to = inside(range.end, start, row_end);
    if from < to {
        Some(Span { start: from, end: to })
    } else {
        None
    }
}

/// What is painted of a range is the range: a byte of a row is in the row's
/// slice exactly when it is in the range.
pub proof fn a_slice_of_a_row_is_what_is_covered(
    line: Line,
    start: int,
    k: int,
    range: Span,
    at: int,
)
    requires
        line.wf(),
        0 <= start,
        0 <= k <= line.wraps@.len(),
        start + line.len <= usize::MAX,
        start + line.row_from(k) <= at < start + line.row_to(k),
    ensures
        (line.cut(start, k, range) matches Some(cut) && cut.has(at - start)) <==> range.has(at),
{
}

/// Whether the rows of one text come in order.
pub open spec fn in_order(rows: Seq<Row>) -> bool {
    &&& forall|i: int| 0 <= i < rows.len() ==> (#[trigger] rows[i]).range.start <= rows[i].range.end
    &&& forall|i: int, j: int|
        0 <= i <= j < rows.len() && (#[trigger] rows[i]).block == (#[trigger] rows[j]).block
            && rows[i].part == rows[j].part ==> rows[i].range.start <= rows[j].range.start
            && rows[i].range.end <= rows[j].range.end
}

/// The rows of a text come in order.
pub proof fn rows_come_in_order(
    lines: Seq<Line>,
    painted: usize,
    block: usize,
    part: Part,
    start: int,
    n: int,
)
    requires
        0 <= start,
        0 <= n <= lines.len(),
        line_start(lines, start, n) <= usize::MAX,
        forall|i: int| 0 <= i < lines.len() ==> (#[trigger] lines[i]).wf(),
    ensures
        in_order(rows_of(lines, painted, block, part, start, n)),
        forall|i: int|
            0 <= i < rows_of(lines, painted, block, part, start, n).len() ==> (
            #[trigger] rows_of(lines, painted, block, part, start, n)[i]).range.end < line_start(
                lines,
                start,
                n,
            ),
    decreases n,
{
    if n > 0 {
        let rows = rows_of(lines, painted, block, part, start, n);
        let before = rows_of(lines, painted, block, part, start, n - 1);
        let line = lines[n - 1];
        let at = line_start(lines, start, n - 1);
        let here = rows_in(line, painted, block, part, at);
        rows_come_in_order(lines, painted, block, part, start, n - 1);
        lemma_line_start_order(lines, start, n - 1, n);
        assert forall|k: int| 0 <= k < here.len() implies at <= (#[trigger] here[k]).range.start
            <= here[k].range.end <= at + line.len by {}
        assert forall|i: int| 0 <= i < rows.len() implies (#[trigger] rows[i]).range.start
            <= rows[i].range.end < line_start(lines, start, n) by {
            if i < before.len() {
                assert(rows[i] == before[i]);
            } else {
                assert(rows[i] == here[i - before.len()]);
            }
        }
        assert forall|i: int, j: int|
            0 <= i <= j < rows.len() && (#[trigger] rows[i]).block == (#[trigger] rows[j]).block
                && rows[i].part == rows[j].part implies rows[i].range.start <= rows[j].range.start
            && rows[i].range.end <= rows[j].range.end by {
            if j < before.len() {
                assert(rows[i] == before[i] && rows[j] == before[j]);
            } else if i < before.len() {
                assert(rows[i] == before[i] && rows[j] == here[j - before.len()]);
            } else {
                let (a, b) = (i - before.len(), j - before.len());
                assert(rows[i] == here[a] && rows[j] == here[b]);
                assert(line.row_from(a) <= line.row_from(b));
                assert(line.row_to(a) <= line.row_to(b));
            }
        }
    }
}

impl Frames {
    proof fn lemma_row_at(self, at: Cursor, under: spec_fn(int) -> bool, i: int)
        requires
            0 <= i,
        ensures
            match self.row_at(at, under, i) {
                Some(found) => i <= found < self.rows.len() && self.rows[found].holds(at) && under(
                    found,
                ) && forall|j: int|
                    i <= j < found ==> !(#[trigger] self.rows[j].holds(at) && under(j)),
                None => forall|j: int|
                    i <= j < self.rows.len() ==> !(#[trigger] self.rows[j].holds(at) && under(j)),
            },
        decreases self.rows.len() - i,
    {
        if i < self.rows.len() && !(self.rows[i].holds(at) && under(i)) {
            self.lemma_row_at(at, under, i + 1);
        }
    }

    proof fn lemma_last_row_at(self, at: Cursor, i: int)
        requires
            i <= self.rows.len(),
        ensures
            match self.last_row_at(at, i) {
                Some(found) => 0 <= found < i && self.rows[found].holds(at) && forall|j: int|
                    found < j < i ==> !#[trigger] self.rows[j].holds(at),
                None => forall|j: int| 0 <= j < i ==> !#[trigger] self.rows[j].holds(at),
            },
        decreases i,
    {
        if i > 0 && !self.rows[i - 1].holds(at) {
            self.lemma_last_row_at(at, i - 1);
        }
    }
}

/// Home and End stay on the row: pressing one again moves nothing, and neither
/// passes the position it was pressed at.
pub proof fn a_row_edge_stays(frames: Frames, at: Cursor, end: bool)
    requires
        in_order(frames.rows),
    ensures
        frames.edge(at, end) matches Some(edge) ==> {
            &&& frames.edge(edge, end) == Some(edge)
            &&& edge.block == at.block && edge.part == at.part
            &&& if end {
                at.offset <= edge.offset
            } else {
                edge.offset <= at.offset
            }
        },
{
    let any = |i: int| true;
    let n = frames.rows.len() as int;
    frames.lemma_row_at(at, any, 0);
    frames.lemma_last_row_at(at, n);
    if let Some(edge) = frames.edge(at, end) {
        frames.lemma_row_at(edge, any, 0);
        frames.lemma_last_row_at(edge, n);
        if end {
            let row = frames.row_at(at, any, 0)->0;
            assert(frames.rows[row].holds(edge));
            assert(any(row));
        } else {
            let row = frames.last_row_at(at, n)->0;
            assert(frames.rows[row].holds(edge));
        }
    }
}

/// A position is somewhere to press Home and End from exactly when a row holds
/// it.
pub proof fn a_position_on_a_row_has_its_edges(frames: Frames, at: Cursor, end: bool)
    ensures
        frames.edge(at, end) is Some <==> exists|i: int|
            0 <= i < frames.rows.len() && #[trigger] frames.rows[i].holds(at),
{
    let any = |i: int| true;
    frames.lemma_row_at(at, any, 0);
    frames.lemma_last_row_at(at, frames.rows.len() as int);
    assert forall|i: int| 0 <= i < frames.rows.len() && frames.rows[i].holds(at) implies any(
        i,
    ) by {}
}

} // verus!
