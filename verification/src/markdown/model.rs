//! What a document says, apart from how it is held, and copies that say the
//! same.

use vstd::prelude::*;

use crate::markdown::doc;
use crate::markdown::doc::{
    Align, Block, BlockKind, Cursor, Doc, Form, Mark, MarkSpan, Part, QuoteKind, Span, Text,
};
use crate::text::same_text;

verus! {

/// What a [`Mark`] says.
pub enum MarkView {
    Bold,
    Italic,
    Strike,
    Code,
    Mention { url: Seq<char>, form: Form },
    Link(Seq<char>),
    Image(Seq<char>),
    Custom(Seq<char>),
}

/// What a [`Text`] says.
#[verifier::ext_equal]
pub struct TextView {
    pub text: Seq<char>,
    pub marks: Seq<(Span, MarkView)>,
}

/// What a [`BlockKind`] says.
#[verifier::ext_equal]
pub enum KindView {
    Paragraph(TextView),
    Heading { level: u8, text: TextView },
    Bullet(TextView),
    Ordered { number: u64, text: TextView },
    Task { checked: bool, text: TextView },
    Quote { kind: Option<QuoteKind>, text: TextView },
    Code { language: Option<Seq<char>>, code: TextView },
    Image { url: Seq<char>, alt: TextView, width: Option<u32> },
    Bookmark { url: Seq<char>, form: Form },
    Table { align: Seq<Align>, header: Seq<TextView>, rows: Seq<Seq<TextView>> },
    Rule,
}

/// What a [`Block`] says.
#[verifier::ext_equal]
pub struct BlockView {
    pub kind: KindView,
    pub indent: usize,
}

impl View for Mark {
    type V = MarkView;

    open spec fn view(&self) -> MarkView {
        match *self {
            Mark::Bold => MarkView::Bold,
            Mark::Italic => MarkView::Italic,
            Mark::Strike => MarkView::Strike,
            Mark::Code => MarkView::Code,
            Mark::Mention { url, form } => MarkView::Mention { url: url@, form },
            Mark::Link(url) => MarkView::Link(url@),
            Mark::Image(url) => MarkView::Image(url@),
            Mark::Custom(name) => MarkView::Custom(name@),
        }
    }
}

/// What some texts say.
pub open spec fn texts_view(texts: Seq<Text>) -> Seq<TextView> {
    Seq::new(texts.len(), |i: int| texts[i]@)
}

/// What some rows of texts say.
pub open spec fn rows_view(rows: Seq<Vec<Text>>) -> Seq<Seq<TextView>> {
    Seq::new(rows.len(), |i: int| texts_view(rows[i]@))
}

impl View for Text {
    type V = TextView;

    open spec fn view(&self) -> TextView {
        TextView {
            text: self.text@,
            marks: Seq::new(
                self.marks@.len(),
                |i: int| (self.marks@[i].range, self.marks@[i].mark@),
            ),
        }
    }
}

impl TextView {
    /// Text that says nothing.
    pub open spec fn empty() -> TextView {
        TextView { text: Seq::empty(), marks: Seq::empty() }
    }
}

impl View for BlockKind {
    type V = KindView;

    open spec fn view(&self) -> KindView {
        match *self {
            BlockKind::Paragraph(text) => KindView::Paragraph(text@),
            BlockKind::Heading { level, text } => KindView::Heading { level, text: text@ },
            BlockKind::Bullet(text) => KindView::Bullet(text@),
            BlockKind::Ordered { number, text } => KindView::Ordered { number, text: text@ },
            BlockKind::Task { checked, text } => KindView::Task { checked, text: text@ },
            BlockKind::Quote { kind, text } => KindView::Quote { kind, text: text@ },
            BlockKind::Code { language, code } => KindView::Code {
                language: match language {
                    Some(language) => Some(language@),
                    None => None,
                },
                code: code@,
            },
            BlockKind::Image { url, alt, width } => KindView::Image { url: url@, alt: alt@, width },
            BlockKind::Bookmark { url, form } => KindView::Bookmark { url: url@, form },
            BlockKind::Table { align, header, rows } => KindView::Table {
                align: align@,
                header: texts_view(header@),
                rows: rows_view(rows@),
            },
            BlockKind::Rule => KindView::Rule,
        }
    }
}

impl View for Block {
    type V = BlockView;

    open spec fn view(&self) -> BlockView {
        BlockView { kind: self.kind@, indent: self.indent }
    }
}

/// What some blocks say.
pub open spec fn blocks_view(blocks: Seq<Block>) -> Seq<BlockView> {
    Seq::new(blocks.len(), |i: int| blocks[i]@)
}

impl View for Doc {
    type V = Seq<BlockView>;

    open spec fn view(&self) -> Seq<BlockView> {
        blocks_view(self.blocks@)
    }
}

impl BlockView {
    /// A paragraph that says nothing.
    pub open spec fn blank() -> BlockView {
        BlockView { kind: KindView::Paragraph(TextView::empty()), indent: 0 }
    }
}

impl Mark {
    pub fn copy(&self) -> (mark: Mark)
        ensures
            mark@ == self@,
    {
        match self {
            Mark::Bold => Mark::Bold,
            Mark::Italic => Mark::Italic,
            Mark::Strike => Mark::Strike,
            Mark::Code => Mark::Code,
            Mark::Mention { url, form } => Mark::Mention { url: url.clone(), form: *form },
            Mark::Link(url) => Mark::Link(url.clone()),
            Mark::Image(url) => Mark::Image(url.clone()),
            Mark::Custom(name) => Mark::Custom(name.clone()),
        }
    }

    /// Whether two marks are the same one.
    pub fn is(&self, other: &Mark) -> (yes: bool)
        ensures
            yes == (self@ == other@),
    {
        match (self, other) {
            (Mark::Bold, Mark::Bold) => true,
            (Mark::Italic, Mark::Italic) => true,
            (Mark::Strike, Mark::Strike) => true,
            (Mark::Code, Mark::Code) => true,
            (
                Mark::Mention { url: a, form: shape },
                Mark::Mention { url: b, form: other },
            ) => same_text(a.as_str(), b.as_str()) && *shape == *other,
            (Mark::Link(a), Mark::Link(b)) => same_text(a.as_str(), b.as_str()),
            (Mark::Image(a), Mark::Image(b)) => same_text(a.as_str(), b.as_str()),
            (Mark::Custom(a), Mark::Custom(b)) => same_text(a.as_str(), b.as_str()),
            _ => false,
        }
    }
}

impl Default for Text {
    fn default() -> (text: Text)
        ensures
            text@ == TextView::empty(),
            text.text@.len() == 0,
            text.marks@.len() == 0,
    {
        let text = Text { text: String::new(), marks: Vec::new() };
        assert(text.text@ =~= Seq::empty());
        assert(text@ =~= TextView::empty());
        text
    }
}

impl Text {
    pub fn copy(&self) -> (text: Text)
        ensures
            text@ == self@,
    {
        let mut marks: Vec<MarkSpan> = Vec::new();
        let mut i: usize = 0;
        while i < self.marks.len()
            invariant
                i <= self.marks@.len(),
                marks@.len() == i,
                forall|j: int|
                    0 <= j < i ==> (#[trigger] marks@[j]).range == self.marks@[j].range
                        && marks@[j].mark@ == self.marks@[j].mark@,
            decreases self.marks@.len() - i,
        {
            let span = &self.marks[i];
            marks.push(MarkSpan { range: span.range, mark: span.mark.copy() });
            i = i + 1;
        }
        let text = Text { text: self.text.clone(), marks };
        assert(text@ =~= self@);
        text
    }
}

fn copy_texts(texts: &Vec<Text>) -> (copied: Vec<Text>)
    ensures
        texts_view(copied@) == texts_view(texts@),
{
    let mut copied: Vec<Text> = Vec::new();
    let mut i: usize = 0;
    while i < texts.len()
        invariant
            i <= texts@.len(),
            copied@.len() == i,
            forall|j: int| 0 <= j < i ==> (#[trigger] copied@[j])@ == texts@[j]@,
        decreases texts@.len() - i,
    {
        copied.push(texts[i].copy());
        i = i + 1;
    }
    assert(texts_view(copied@) =~= texts_view(texts@));
    copied
}

fn copy_rows(rows: &Vec<Vec<Text>>) -> (copied: Vec<Vec<Text>>)
    ensures
        rows_view(copied@) == rows_view(rows@),
{
    let mut copied: Vec<Vec<Text>> = Vec::new();
    let mut i: usize = 0;
    while i < rows.len()
        invariant
            i <= rows@.len(),
            copied@.len() == i,
            forall|j: int|
                0 <= j < i ==> texts_view((#[trigger] copied@[j])@) == texts_view(rows@[j]@),
        decreases rows@.len() - i,
    {
        copied.push(copy_texts(&rows[i]));
        i = i + 1;
    }
    assert(rows_view(copied@) =~= rows_view(rows@));
    copied
}

fn copy_align(align: &Vec<Align>) -> (copied: Vec<Align>)
    ensures
        copied@ == align@,
{
    let mut copied: Vec<Align> = Vec::new();
    let mut i: usize = 0;
    while i < align.len()
        invariant
            i <= align@.len(),
            copied@ == align@.take(i as int),
        decreases align@.len() - i,
    {
        copied.push(align[i]);
        assert(copied@ =~= align@.take(i + 1));
        i = i + 1;
    }
    assert(copied@ =~= align@);
    copied
}

impl BlockKind {
    pub fn copy(&self) -> (kind: BlockKind)
        ensures
            kind@ == self@,
    {
        match self {
            BlockKind::Paragraph(text) => BlockKind::Paragraph(text.copy()),
            BlockKind::Heading { level, text } => BlockKind::Heading {
                level: *level,
                text: text.copy(),
            },
            BlockKind::Bullet(text) => BlockKind::Bullet(text.copy()),
            BlockKind::Ordered { number, text } => BlockKind::Ordered {
                number: *number,
                text: text.copy(),
            },
            BlockKind::Task { checked, text } => BlockKind::Task {
                checked: *checked,
                text: text.copy(),
            },
            BlockKind::Quote { kind, text } => BlockKind::Quote { kind: *kind, text: text.copy() },
            BlockKind::Code { language, code } => BlockKind::Code {
                language: match language {
                    Some(language) => Some(language.clone()),
                    None => None,
                },
                code: code.copy(),
            },
            BlockKind::Image { url, alt, width } => BlockKind::Image {
                url: url.clone(),
                alt: alt.copy(),
                width: *width,
            },
            BlockKind::Bookmark { url, form } => BlockKind::Bookmark {
                url: url.clone(),
                form: *form,
            },
            BlockKind::Table { align, header, rows } => BlockKind::Table {
                align: copy_align(align),
                header: copy_texts(header),
                rows: copy_rows(rows),
            },
            BlockKind::Rule => BlockKind::Rule,
        }
    }
}

impl Block {
    pub fn copy(&self) -> (block: Block)
        ensures
            block@ == self@,
    {
        Block { kind: self.kind.copy(), indent: self.indent }
    }

    /// A block of some kind, so far in.
    pub fn at(kind: BlockKind, indent: usize) -> (block: Block)
        ensures
            block == (Block { kind, indent }),
    {
        Block { kind, indent }
    }

    /// A paragraph that says nothing.
    pub fn blank() -> (block: Block)
        ensures
            block@ == BlockView::blank(),
            block.kind is Paragraph,
            block.text_in(Part::Body) is Some,
    {
        Block::new(BlockKind::Paragraph(Text::default()))
    }
}

impl Doc {
    pub fn copy(&self) -> (doc: Doc)
        ensures
            doc@ == self@,
    {
        let mut blocks: Vec<Block> = Vec::new();
        let mut i: usize = 0;
        while i < self.blocks.len()
            invariant
                i <= self.blocks@.len(),
                blocks@.len() == i,
                forall|j: int| 0 <= j < i ==> (#[trigger] blocks@[j])@ == self.blocks@[j]@,
            decreases self.blocks@.len() - i,
        {
            blocks.push(self.blocks[i].copy());
            i = i + 1;
        }
        let doc = Doc { blocks };
        assert(doc@ =~= self@);
        doc
    }
}

proof fn lemma_same_parts(
    header: Seq<Text>,
    rows: Seq<Vec<Text>>,
    other_header: Seq<Text>,
    other_rows: Seq<Vec<Text>>,
    n: int,
)
    requires
        header.len() == other_header.len(),
        0 <= n <= rows.len() == other_rows.len(),
        rows_view(rows) == rows_view(other_rows),
    ensures
        doc::table_parts(header, rows, n) == doc::table_parts(other_header, other_rows, n),
    decreases n,
{
    if n > 0 {
        lemma_same_parts(header, rows, other_header, other_rows, n - 1);
        assert(rows_view(rows)[n - 1].len() == rows[n - 1]@.len());
        assert(rows_view(other_rows)[n - 1].len() == other_rows[n - 1]@.len());
    }
}

/// Blocks that say the same have the same texts, saying the same.
pub proof fn same_blocks_have_the_same_texts(a: Block, b: Block, part: Part)
    requires
        a@ == b@,
    ensures
        a.listed() == b.listed(),
        a.fits() == b.fits(),
        a.text_in(part) is Some <==> b.text_in(part) is Some,
        a.text_in(part) is Some ==> a.text_in(part)->0@ == b.text_in(part)->0@,
{
    match (a.kind, b.kind) {
        (
            BlockKind::Table { header, rows, .. },
            BlockKind::Table { header: other_header, rows: other_rows, .. },
        ) => {
            assert(texts_view(header@).len() == texts_view(other_header@).len());
            assert(rows_view(rows@).len() == rows_view(other_rows@).len());
            lemma_same_parts(header@, rows@, other_header@, other_rows@, rows@.len() as int);
            if let Part::Cell { row, column } = part {
                if row == 0 {
                    if column < header@.len() {
                        assert(texts_view(header@)[column as int] == header@[column as int]@);
                        assert(texts_view(other_header@)[column as int]
                            == other_header@[column as int]@);
                    }
                } else if row - 1 < rows@.len() {
                    assert(rows_view(rows@)[row - 1] == texts_view(rows@[row - 1]@));
                    assert(rows_view(other_rows@)[row - 1] == texts_view(other_rows@[row - 1]@));
                    if column < rows@[row - 1]@.len() {
                        assert(texts_view(rows@[row - 1]@)[column as int] == rows@[row
                            - 1]@[column as int]@);
                        assert(texts_view(other_rows@[row - 1]@)[column as int] == other_rows@[row
                            - 1]@[column as int]@);
                    }
                }
            }
        },
        _ => {},
    }
}

/// A copy of a document whose tables can be counted is another.
pub proof fn same_documents_fit_alike(a: Doc, b: Doc)
    requires
        a@ == b@,
        a.fits(),
    ensures
        b.fits(),
{
    assert forall|i: int| 0 <= i < b.blocks@.len() implies (#[trigger] b.blocks@[i]).fits() by {
        let (x, y) = (a.blocks@[i], b.blocks@[i]);
        assert(a@.len() == a.blocks@.len() && b@.len() == b.blocks@.len());
        assert(a@[i] == x@ && b@[i] == y@);
        assert(x.fits());
        same_blocks_have_the_same_texts(x, y, Part::Body);
    }
}

/// A position is held at the same place in documents that say the same.
pub proof fn same_documents_hold_alike(a: Doc, b: Doc, at: Cursor)
    requires
        a@ == b@,
    ensures
        a.nearest(at) == b.nearest(at),
{
    assert(a@.len() == a.blocks@.len() && b@.len() == b.blocks@.len());
    if a.blocks@.len() > 0 {
        let block = if at.block < a.blocks@.len() {
            at.block as int
        } else {
            a.blocks@.len() - 1
        };
        let (x, y) = (a.blocks@[block], b.blocks@[block]);
        assert(a@[block] == x@ && b@[block] == y@);
        same_blocks_have_the_same_texts(x, y, at.part);
        let part = if x.listed().len() > 0 {
            x.listed()[0]
        } else {
            Part::Body
        };
        same_blocks_have_the_same_texts(x, y, part);
    }
}

} // verus!
