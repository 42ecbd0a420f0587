//! The document: a flat list of blocks with an indent level, and positions in
//! it.

use vstd::prelude::*;

use crate::text;

verus! {

/// What an inline mark does to the text it covers.
#[derive(Debug, Clone, PartialEq, Eq)]
pub enum Mark {
    Bold,
    Italic,
    Strike,
    Code,
    /// A link shown as a chip, and the form it is written in.
    Mention { url: String, form: Form },
    Link(String),
    Image(String),
    /// A mark an app spells itself, by the name it goes by.
    Custom(String),
}

/// The bytes from one to another, the last not counted.
#[derive(Debug, Clone, Copy, PartialEq, Eq, Hash, Structural)]
pub struct Span {
    pub start: usize,
    pub end: usize,
}

impl Span {
    /// Whether byte `at` is one of these.
    pub open spec fn has(self, at: int) -> bool {
        self.start <= at < self.end
    }
}

/// A mark, and the bytes it covers.
#[derive(Debug, Clone, PartialEq, Eq)]
pub struct MarkSpan {
    pub range: Span,
    pub mark: Mark,
}

/// Inline content: the text, and the marks over it.
#[derive(Debug, Clone, PartialEq, Eq)]
pub struct Text {
    pub text: String,
    pub marks: Vec<MarkSpan>,
}

impl Text {
    /// Text without marks.
    pub fn plain(text: &str) -> (out: Text)
        ensures
            out.text@ == text@,
            out.marks@.len() == 0,
    {
        Text { text: text.to_owned(), marks: Vec::new() }
    }

    pub fn is_empty(&self) -> (yes: bool)
        ensures
            yes == (self.text@.len() == 0),
    {
        self.text.as_str().is_empty()
    }

    /// How many bytes the text takes.
    pub fn len(&self) -> (n: usize)
        ensures
            n == text::byte_len(self.text@),
    {
        text::length(self.text.as_str())
    }
}

/// Which way a column of a table leans.
#[derive(Debug, Clone, Copy, PartialEq, Eq, Structural)]
pub enum Align {
    Left,
    Center,
    Right,
}

/// What an alert warns of.
#[derive(Debug, Clone, Copy, PartialEq, Eq, Structural)]
pub enum QuoteKind {
    Note,
    Tip,
    Important,
    Warning,
    Caution,
}

/// The shape a bookmark takes.
#[derive(Debug, Clone, Copy, PartialEq, Eq, Structural)]
pub enum Form {
    Auto,
    /// A pill of favicon and title.
    Chip,
    /// A column, its image the card's full width.
    Embed,
}

/// What a block is.
#[derive(Debug, Clone, PartialEq, Eq)]
pub enum BlockKind {
    Paragraph(Text),
    Heading { level: u8, text: Text },
    Bullet(Text),
    Ordered { number: u64, text: Text },
    Task { checked: bool, text: Text },
    /// A quote, and an alert where it is of a kind.
    Quote { kind: Option<QuoteKind>, text: Text },
    Code { language: Option<String>, code: Text },
    Image { url: String, alt: Text, width: Option<u32> },
    Bookmark { url: String, form: Form },
    Table { align: Vec<Align>, header: Vec<Text>, rows: Vec<Vec<Text>> },
    Rule,
}

/// One block of a document.
#[derive(Debug, Clone, PartialEq, Eq)]
pub struct Block {
    pub kind: BlockKind,
    pub indent: usize,
}

/// A document.
#[derive(Debug, Clone, PartialEq, Eq)]
pub struct Doc {
    pub blocks: Vec<Block>,
}

/// Which text of a block a position is in.
#[derive(Debug, Clone, Copy, PartialEq, Eq, PartialOrd, Ord, Hash, Structural)]
pub enum Part {
    /// The text of a block that has one.
    Body,
    /// The lines of a fence.
    Code,
    /// What is written under a picture.
    Caption,
    /// A cell of a table. Row zero is the header's, whether or not it is
    /// filled.
    Cell { row: usize, column: usize },
}

impl Part {
    /// Whether a part comes before another in one block.
    pub open spec fn before(self, other: Part) -> bool {
        match (self, other) {
            (Part::Cell { row, column }, Part::Cell { row: to, column: across }) => row < to || (row
                == to && column < across),
            (Part::Body, _) => other != Part::Body,
            (Part::Code, _) => other is Caption || other is Cell,
            (Part::Caption, _) => other is Cell,
            (Part::Cell { .. }, _) => false,
        }
    }

    /// Whether a part comes before another in one block.
    pub fn is_before(&self, other: &Part) -> (yes: bool)
        ensures
            yes == self.before(*other),
    {
        match (*self, *other) {
            (Part::Cell { row, column }, Part::Cell { row: to, column: across }) => row < to || (row
                == to && column < across),
            (Part::Body, Part::Body) => false,
            (Part::Body, _) => true,
            (Part::Code, Part::Caption) => true,
            (Part::Code, Part::Cell { .. }) => true,
            (Part::Caption, Part::Cell { .. }) => true,
            _ => false,
        }
    }
}

/// A position in a document: a block, one of its texts, and a byte of that.
#[derive(Debug, Clone, Copy, PartialEq, Eq, PartialOrd, Ord, Hash, Structural)]
pub struct Cursor {
    pub block: usize,
    pub part: Part,
    pub offset: usize,
}

impl Default for Cursor {
    fn default() -> (at: Cursor)
        ensures
            at == (Cursor { block: 0, part: Part::Body, offset: 0 }),
    {
        Cursor { block: 0, part: Part::Body, offset: 0 }
    }
}

impl Cursor {
    pub fn new(block: usize, part: Part, offset: usize) -> (at: Cursor)
        ensures
            at == (Cursor { block, part, offset }),
    {
        Cursor { block, part, offset }
    }

    /// Whether a position comes before another in the document.
    pub open spec fn before(self, other: Cursor) -> bool {
        ||| self.block < other.block
        ||| self.block == other.block && self.part.before(other.part)
        ||| self.block == other.block && self.part == other.part && self.offset < other.offset
    }

    /// Whether a position comes before another in the document.
    pub fn is_before(&self, other: &Cursor) -> (yes: bool)
        ensures
            yes == self.before(*other),
    {
        self.block < other.block || (self.block == other.block && (self.part.is_before(&other.part)
            || (self.part == other.part && self.offset < other.offset)))
    }

    /// The start of the text a position is in.
    pub open spec fn start(self) -> Cursor {
        Cursor { offset: 0, ..self }
    }
}

/// Positions come one after another: of two, one is before the other unless
/// they are the same.
pub proof fn positions_are_ordered(a: Cursor, b: Cursor, c: Cursor)
    ensures
        !a.before(a),
        a.before(b) || b.before(a) || a == b,
        !(a.before(b) && b.before(a)),
        a.before(b) && b.before(c) ==> a.before(c),
{
}

/// A range of a document, from where it was begun to where it has come.
#[derive(Debug, Clone, Copy, PartialEq, Eq, Hash, Structural)]
pub struct Selection {
    pub anchor: Cursor,
    pub head: Cursor,
}

impl Selection {
    pub fn new(anchor: Cursor, head: Cursor) -> (range: Selection)
        ensures
            range == (Selection { anchor, head }),
    {
        Selection { anchor, head }
    }

    /// A selection of nothing, at a position.
    pub fn at(at: Cursor) -> (range: Selection)
        ensures
            range == (Selection { anchor: at, head: at }),
    {
        Selection { anchor: at, head: at }
    }

    /// The ends, the earlier one first.
    pub open spec fn ends(self) -> (Cursor, Cursor) {
        if self.head.before(self.anchor) {
            (self.head, self.anchor)
        } else {
            (self.anchor, self.head)
        }
    }

    /// The ends, the earlier one first.
    pub fn ordered(&self) -> (ends: (Cursor, Cursor))
        ensures
            ends == self.ends(),
            !ends.1.before(ends.0),
    {
        proof {
            positions_are_ordered(self.head, self.anchor, self.head);
        }
        if self.head.is_before(&self.anchor) {
            (self.head, self.anchor)
        } else {
            (self.anchor, self.head)
        }
    }

    /// Whether nothing is selected.
    pub fn is_collapsed(&self) -> (yes: bool)
        ensures
            yes == (self.anchor == self.head),
    {
        self.anchor == self.head
    }
}

/// The cells of the first `n` columns of row `row` of a table.
pub open spec fn row_parts(row: int, n: int) -> Seq<Part>
    decreases n,
{
    if n <= 0 {
        Seq::empty()
    } else {
        row_parts(row, n - 1).push(Part::Cell { row: row as usize, column: (n - 1) as usize })
    }
}

/// The cells of a table's header and its first `n` rows.
pub open spec fn table_parts(header: Seq<Text>, rows: Seq<Vec<Text>>, n: int) -> Seq<Part>
    decreases n,
{
    if n <= 0 {
        row_parts(0, header.len() as int)
    } else {
        table_parts(header, rows, n - 1) + row_parts(n, rows[n - 1]@.len() as int)
    }
}

impl Block {
    /// The texts of a block, in order.
    pub open spec fn listed(self) -> Seq<Part> {
        match self.kind {
            BlockKind::Code { .. } => seq![Part::Code],
            BlockKind::Image { .. } => seq![Part::Caption],
            BlockKind::Table { header, rows, .. } => table_parts(
                header@,
                rows@,
                rows@.len() as int,
            ),
            BlockKind::Bookmark { .. } => Seq::empty(),
            BlockKind::Rule => Seq::empty(),
            _ => seq![Part::Body],
        }
    }

    /// The text of a block at a part, if it has one there.
    pub open spec fn text_in(self, part: Part) -> Option<Text> {
        match (self.kind, part) {
            (BlockKind::Paragraph(text), Part::Body) => Some(text),
            (BlockKind::Heading { text, .. }, Part::Body) => Some(text),
            (BlockKind::Bullet(text), Part::Body) => Some(text),
            (BlockKind::Ordered { text, .. }, Part::Body) => Some(text),
            (BlockKind::Task { text, .. }, Part::Body) => Some(text),
            (BlockKind::Quote { text, .. }, Part::Body) => Some(text),
            (BlockKind::Code { code, .. }, Part::Code) => Some(code),
            (BlockKind::Image { alt, .. }, Part::Caption) => Some(alt),
            (BlockKind::Table { header, rows, .. }, Part::Cell { row, column }) => if row == 0 {
                if column < header@.len() {
                    Some(header@[column as int])
                } else {
                    None
                }
            } else if row - 1 < rows@.len() && column < rows@[row - 1]@.len() {
                Some(rows@[row - 1]@[column as int])
            } else {
                None
            },
            _ => None,
        }
    }

    pub fn new(kind: BlockKind) -> (block: Block)
        ensures
            block == (Block { kind, indent: 0 }),
    {
        Block { kind, indent: 0 }
    }

    /// The texts of a block, in order.
    pub fn parts(&self) -> (parts: Vec<Part>)
        requires
            self.fits(),
        ensures
            parts@ == self.listed(),
    {
        let mut parts: Vec<Part> = Vec::new();
        match &self.kind {
            BlockKind::Code { .. } => {
                parts.push(Part::Code);
            },
            BlockKind::Image { .. } => {
                parts.push(Part::Caption);
            },
            BlockKind::Table { header, rows, .. } => {
                push_row(&mut parts, 0, header.len());
                assert(parts@ =~= row_parts(0, header@.len() as int));
                let mut row: usize = 0;
                while row < rows.len()
                    invariant
                        row <= rows@.len() < usize::MAX,
                        parts@ == table_parts(header@, rows@, row as int),
                    decreases rows@.len() - row,
                {
                    push_row(&mut parts, row + 1, rows[row].len());
                    row = row + 1;
                }
            },
            BlockKind::Bookmark { .. } => {},
            BlockKind::Rule => {},
            _ => {
                parts.push(Part::Body);
            },
        }
        assert(parts@ =~= self.listed());
        parts
    }

    /// Whether a table's rows can be counted.
    pub open spec fn fits(self) -> bool {
        self.kind matches BlockKind::Table { rows, .. } ==> rows@.len() < usize::MAX
    }

    /// The text of a block at a part, if it has one there.
    pub fn text_at(&self, part: Part) -> (text: Option<&Text>)
        ensures
            text is Some <==> self.text_in(part) is Some,
            text is Some ==> *text->0 == self.text_in(part)->0,
    {
        match (&self.kind, part) {
            (BlockKind::Paragraph(text), Part::Body) => Some(text),
            (BlockKind::Heading { text, .. }, Part::Body) => Some(text),
            (BlockKind::Bullet(text), Part::Body) => Some(text),
            (BlockKind::Ordered { text, .. }, Part::Body) => Some(text),
            (BlockKind::Task { text, .. }, Part::Body) => Some(text),
            (BlockKind::Quote { text, .. }, Part::Body) => Some(text),
            (BlockKind::Code { code, .. }, Part::Code) => Some(code),
            (BlockKind::Image { alt, .. }, Part::Caption) => Some(alt),
            (BlockKind::Table { header, rows, .. }, Part::Cell { row, column }) => if row == 0 {
                if column < header.len() {
                    Some(&header[column])
                } else {
                    None
                }
            } else if row - 1 < rows.len() && column < rows[row - 1].len() {
                Some(&rows[row - 1][column])
            } else {
                None
            },
            _ => None,
        }
    }
}

/// The cells of a row of a table.
fn push_row(parts: &mut Vec<Part>, row: usize, columns: usize)
    ensures
        final(parts)@ == old(parts)@ + row_parts(row as int, columns as int),
{
    let mut column: usize = 0;
    assert(parts@ =~= old(parts)@ + row_parts(row as int, 0));
    while column < columns
        invariant
            column <= columns,
            parts@ == old(parts)@ + row_parts(row as int, column as int),
        decreases columns - column,
    {
        parts.push(Part::Cell { row, column });
        column = column + 1;
        assert(parts@ =~= old(parts)@ + row_parts(row as int, column as int));
    }
}

impl Doc {
    /// Whether every table's rows can be counted.
    pub open spec fn fits(self) -> bool {
        forall|i: int| 0 <= i < self.blocks@.len() ==> (#[trigger] self.blocks@[i]).fits()
    }

    /// Whether every table's rows can be counted, as those of any table in
    /// memory can.
    pub fn counted(&self) -> (yes: bool)
        ensures
            yes == self.fits(),
    {
        let mut i: usize = 0;
        while i < self.blocks.len()
            invariant
                i <= self.blocks@.len(),
                forall|j: int| 0 <= j < i ==> (#[trigger] self.blocks@[j]).fits(),
            decreases self.blocks@.len() - i,
        {
            if let BlockKind::Table { rows, .. } = &self.blocks[i].kind {
                if rows.len() == usize::MAX {
                    assert(!self.blocks@[i as int].fits());
                    return false;
                }
            }
            i = i + 1;
        }
        true
    }

    /// A position held inside the document: in a block it has, in a text of
    /// that block where there is one, and no further than its end.
    pub open spec fn nearest(self, at: Cursor) -> Cursor {
        if self.blocks@.len() == 0 {
            Cursor { block: 0, part: Part::Body, offset: 0 }
        } else {
            let block = if at.block < self.blocks@.len() {
                at.block
            } else {
                (self.blocks@.len() - 1) as usize
            };
            let held = self.blocks@[block as int];
            let part = if held.text_in(at.part) is Some {
                at.part
            } else if held.listed().len() > 0 {
                held.listed()[0]
            } else {
                Part::Body
            };
            Cursor {
                block,
                part,
                offset: match held.text_in(part) {
                    Some(text) => if at.offset <= text::byte_len(text.text@) {
                        at.offset
                    } else {
                        text::byte_len(text.text@) as usize
                    },
                    None => 0,
                },
            }
        }
    }

    /// A position held inside the document.
    pub fn clamp(&self, at: Cursor) -> (held: Cursor)
        requires
            self.fits(),
        ensures
            held == self.nearest(at),
    {
        if self.blocks.len() == 0 {
            return Cursor { block: 0, part: Part::Body, offset: 0 };
        }
        let block = if at.block < self.blocks.len() {
            at.block
        } else {
            self.blocks.len() - 1
        };
        let held = &self.blocks[block];
        assert(self.blocks@[block as int].fits());
        let part = if held.text_at(at.part).is_some() {
            at.part
        } else {
            let parts = held.parts();
            if parts.len() > 0 {
                parts[0]
            } else {
                Part::Body
            }
        };
        let offset = match held.text_at(part) {
            Some(text) => {
                let len = text.len();
                if at.offset <= len {
                    at.offset
                } else {
                    len
                }
            },
            None => 0,
        };
        Cursor { block, part, offset }
    }
}

impl Selection {
    /// The range held inside a document.
    pub open spec fn held(self, doc: Doc) -> Selection {
        Selection { anchor: doc.nearest(self.anchor), head: doc.nearest(self.head) }
    }

    /// The range held inside a document.
    pub fn clamp(&self, doc: &Doc) -> (range: Selection)
        requires
            doc.fits(),
        ensures
            range == self.held(*doc),
    {
        Selection { anchor: doc.clamp(self.anchor), head: doc.clamp(self.head) }
    }
}

} // verus!
