//! What a block paints: the gap above it, the words of a card, the cells of a
//! table.

use vstd::prelude::*;

use crate::markdown::doc::{Align, Block, BlockKind, Doc, Form, Part, QuoteKind, Text};
use crate::text::chars_of;

verus! {

/// The space above a block.
#[derive(Clone, Copy, Debug, PartialEq, Eq, Structural)]
pub enum Gap {
    /// The first block's: none.
    Top,
    /// The tighter space inside a list.
    List,
    /// That between two ordinary blocks.
    Block,
}

impl Block {
    /// Whether the block is marked as an item of a list.
    pub open spec fn is_item(self) -> bool {
        self.kind is Bullet || self.kind is Ordered || self.kind is Task
    }

    /// Whether the block is marked as an item of a list.
    pub fn marked(&self) -> (yes: bool)
        ensures
            yes == self.is_item(),
    {
        match &self.kind {
            BlockKind::Bullet(_) => true,
            BlockKind::Ordered { .. } => true,
            BlockKind::Task { .. } => true,
            _ => false,
        }
    }
}

/// Whether two adjacent blocks belong to the same list and should sit close.
pub fn tight(previous: &Block, next: &Block) -> (yes: bool)
    ensures
        yes == (previous.is_item() && (next.is_item() || next.indent > previous.indent)),
{
    previous.marked() && (next.marked() || next.indent > previous.indent)
}

/// The space above a document's block `ix`.
pub open spec fn gap_above(doc: Doc, ix: int) -> Gap {
    if ix == 0 {
        Gap::Top
    } else {
        let (previous, next) = (doc.blocks@[ix - 1], doc.blocks@[ix]);
        if previous.is_item() && (next.is_item() || next.indent > previous.indent) {
            Gap::List
        } else {
            Gap::Block
        }
    }
}

/// The space above each block of a document, which the pair decides: list items
/// sit tight, everything else breathes.
pub fn gaps(doc: &Doc) -> (gaps: Vec<Gap>)
    ensures
        gaps@.len() == doc.blocks@.len(),
        forall|ix: int| 0 <= ix < gaps@.len() ==> #[trigger] gaps@[ix] == gap_above(*doc, ix),
{
    let mut gaps: Vec<Gap> = Vec::new();
    let mut ix: usize = 0;
    while ix < doc.blocks.len()
        invariant
            ix <= doc.blocks@.len(),
            gaps@.len() == ix,
            forall|i: int| 0 <= i < ix ==> #[trigger] gaps@[i] == gap_above(*doc, i),
        decreases doc.blocks@.len() - ix,
    {
        let gap = if ix == 0 {
            Gap::Top
        } else if tight(&doc.blocks[ix - 1], &doc.blocks[ix]) {
            Gap::List
        } else {
            Gap::Block
        };
        gaps.push(gap);
        ix = ix + 1;
    }
    gaps
}

/// The paint an alert's rule and label take, by what the theme calls it.
#[derive(Clone, Copy, Debug, PartialEq, Eq, Structural)]
pub enum Tone {
    Accent,
    Success,
    Busy,
    Warning,
    Danger,
}

/// What an alert paints its rule and its label in.
pub fn alert_color(kind: QuoteKind) -> (tone: Tone)
    ensures
        kind == QuoteKind::Note ==> tone == Tone::Accent,
        kind == QuoteKind::Tip ==> tone == Tone::Success,
        kind == QuoteKind::Important ==> tone == Tone::Busy,
        kind == QuoteKind::Warning ==> tone == Tone::Warning,
        kind == QuoteKind::Caution ==> tone == Tone::Danger,
{
    match kind {
        QuoteKind::Note => Tone::Accent,
        QuoteKind::Tip => Tone::Success,
        QuoteKind::Important => Tone::Busy,
        QuoteKind::Warning => Tone::Warning,
        QuoteKind::Caution => Tone::Danger,
    }
}

/// Where an image's bytes come from.
#[derive(Clone, Copy, Debug, PartialEq, Eq, Structural)]
pub enum ImageSource {
    /// Fetched, from the URL as it stands.
    Fetched,
    /// A file: an absolute path as it stands, a relative one joined onto the
    /// document's directory.
    File,
}

/// Whether a URL names a scheme.
pub open spec fn has_scheme(url: Seq<char>) -> bool {
    exists|i: int|
        0 <= i && i + 2 < url.len() && #[trigger] url[i] == ':' && url[i + 1] == '/' && url[i + 2]
            == '/'
}

/// What is loaded for an image URL as written in a document. Anything with
/// `://` is fetched as it stands; anything else is a file.
pub fn image_source(url: &str) -> (source: ImageSource)
    ensures
        source == (if has_scheme(url@) {
            ImageSource::Fetched
        } else {
            ImageSource::File
        }),
{
    let chars = chars_of(url);
    let n = chars.len();
    let mut i: usize = 0;
    while i < n && n - i > 2
        invariant
            i <= n,
            n == chars.len(),
            chars@ == url@,
            forall|j: int|
                0 <= j < i ==> !(j + 2 < url@.len() && #[trigger] url@[j] == ':' && url@[j + 1]
                    == '/' && url@[j + 2] == '/'),
        decreases n - i,
    {
        if chars[i] == ':' && chars[i + 1] == '/' && chars[i + 2] == '/' {
            assert(url@[i as int] == ':');
            return ImageSource::Fetched;
        }
        i = i + 1;
    }
    ImageSource::File
}

/// What is known of the page a bookmark leads to.
#[derive(Clone, Debug, PartialEq, Eq)]
pub struct Preview {
    pub title: Option<String>,
    pub label: Option<String>,
    pub description: Option<String>,
    /// Where the site's favicon is fetched from.
    pub icon: Option<String>,
    /// Where the page's picture is fetched from.
    pub image: Option<String>,
}

/// What fills the picture panel of a card.
#[derive(Clone, Debug, PartialEq, Eq)]
pub enum Cover {
    /// The picture fetched from here, and the site's mark where that fails.
    Image(String),
    /// The site's mark.
    Mark,
}

/// What a bookmark shows.
#[derive(Clone, Debug, PartialEq, Eq)]
pub struct Card {
    pub title: String,
    /// The site, under the title.
    pub label: Option<String>,
    /// What the page says of itself.
    pub blurb: Option<String>,
    /// The site's mark: the favicon fetched from here.
    pub icon: Option<String>,
    /// The site's mark where there is no favicon, or it cannot be fetched.
    pub initial: String,
    pub cover: Option<Cover>,
}

/// One text, where there is one, and another where there is not.
pub open spec fn or_else(first: Option<String>, other: Seq<char>) -> Seq<char> {
    match first {
        Some(first) => first@,
        None => other,
    }
}

fn text_or(first: &Option<String>, other: &str) -> (text: String)
    ensures
        text@ == or_else(*first, other@),
{
    match first {
        Some(first) => first.clone(),
        None => other.to_owned(),
    }
}

/// A text, as a mathematical value.
pub open spec fn text_view(text: Option<String>) -> Option<Seq<char>> {
    match text {
        Some(text) => Some(text@),
        None => None,
    }
}

fn copy_text(text: &Option<String>) -> (copy: Option<String>)
    ensures
        text_view(copy) == text_view(*text),
{
    match text {
        Some(text) => Some(text.clone()),
        None => None,
    }
}

/// What a bookmark shows: its page's title, what the page says of itself, and
/// the site's mark and label under that, beside the page's picture — or its
/// mark again, where it has none. The URL stands in for a title nothing has
/// resolved, and the host for a label.
///
/// A chip is a mark and a title alone. It falls back on the label, since it is
/// the short form, and a raw URL in a pill is the long one.
pub fn bookmark(url: &str, host: &str, form: Form, preview: &Preview) -> (card: Card)
    ensures
        ({
            let label = or_else(preview.label, host@);
            let chip = form == Form::Chip;
            &&& card.title@ == (if chip {
                or_else(preview.title, label)
            } else {
                or_else(preview.title, url@)
            })
            &&& text_view(card.label) == (if chip {
                None
            } else {
                Some(label)
            })
            &&& text_view(card.blurb) == (if chip {
                None
            } else {
                text_view(preview.description)
            })
            &&& text_view(card.icon) == text_view(preview.icon)
            &&& card.initial@ == initial_of(host@)
            &&& match card.cover {
                None => chip,
                Some(Cover::Image(image)) => !chip && text_view(preview.image) == Some(image@),
                Some(Cover::Mark) => !chip && preview.image is None,
            }
        }),
{
    let label = text_or(&preview.label, host);
    let icon = copy_text(&preview.icon);
    let initial = initial(host);
    if form == Form::Chip {
        return Card {
            title: text_or(&preview.title, label.as_str()),
            label: None,
            blurb: None,
            icon,
            initial,
            cover: None,
        };
    }
    Card {
        title: text_or(&preview.title, url),
        label: Some(label),
        blurb: copy_text(&preview.description),
        icon,
        initial,
        cover: match &preview.image {
            Some(image) => Some(Cover::Image(image.clone())),
            None => Some(Cover::Mark),
        },
    }
}

/// The upper-case form of a character, which can be several.
pub uninterp spec fn upper_of(c: char) -> Seq<char>;

/// `char::to_uppercase`: the upper-case form of a character, by Unicode's
/// tables. The letters `a` to `z` become `A` to `Z`, and what else is ASCII
/// stays as it is.
#[verifier::external_body]
fn upper(c: char) -> (text: String)
    ensures
        text@ == upper_of(c),
        'a' <= c && c <= 'z' ==> text@ == seq![(c as u32 - 32) as char],
        (c as u32) < 128 && !('a' <= c && c <= 'z') ==> text@ == seq![c],
{
    c.to_uppercase().to_string()
}

/// The mark a site gets before anyone has fetched its favicon.
pub open spec fn initial_of(host: Seq<char>) -> Seq<char> {
    upper_of(
        if host.len() > 0 {
            host[0]
        } else {
            '?'
        },
    )
}

/// The mark a site gets before anyone has fetched its favicon: its host's first
/// letter, upper-case, which is a placeholder no icon set has to ship.
pub fn initial(host: &str) -> (letter: String)
    ensures
        letter@ == initial_of(host@),
{
    let chars = chars_of(host);
    if chars.len() > 0 {
        upper(chars[0])
    } else {
        upper('?')
    }
}

/// One cell of a table, as painted.
#[derive(Clone, Copy, Debug, PartialEq, Eq)]
pub struct TableCell {
    pub part: Part,
    pub align: Align,
    /// Whether it is of the header, which is set bold.
    pub header: bool,
}

/// The rows of a table that paint: its header where it has one, and then each
/// of the rest.
pub open spec fn painted_rows(header: Seq<Text>, rows: Seq<Vec<Text>>) -> Seq<Seq<Text>> {
    let rest = Seq::new(rows.len(), |r: int| rows[r]@);
    if header.len() > 0 {
        seq![header] + rest
    } else {
        rest
    }
}

/// How many columns the widest of the first `n` rows has.
pub open spec fn widest(rows: Seq<Seq<Text>>, n: int) -> nat
    decreases n,
{
    if n <= 0 {
        0
    } else if rows[n - 1].len() > widest(rows, n - 1) {
        rows[n - 1].len()
    } else {
        widest(rows, n - 1)
    }
}

/// How a column leans. One that says nothing leans left.
pub open spec fn lean(align: Seq<Align>, c: int) -> Align {
    if 0 <= c < align.len() {
        align[c]
    } else {
        Align::Left
    }
}

/// The cell at column `c` of painted row `r`, where the row has one. A table
/// without a header starts at part row one: row zero is the header slot whether
/// or not it is filled.
pub open spec fn cell_at(
    align: Seq<Align>,
    header: Seq<Text>,
    rows: Seq<Vec<Text>>,
    r: int,
    c: int,
) -> Option<TableCell> {
    if c < painted_rows(header, rows)[r].len() {
        Some(
            TableCell {
                part: Part::Cell {
                    row: (if header.len() > 0 {
                        r
                    } else {
                        r + 1
                    }) as usize,
                    column: c as usize,
                },
                align: lean(align, c),
                header: header.len() > 0 && r == 0,
            },
        )
    } else {
        None
    }
}

/// The cells of a table, row by row, each row as long as the widest. Nothing
/// where the table has no column.
pub fn table(align: &Vec<Align>, header: &Vec<Text>, rows: &Vec<Vec<Text>>) -> (cells: Vec<
    Vec<Option<TableCell>>,
>)
    requires
        rows@.len() < usize::MAX,
    ensures
        ({
            let all = painted_rows(header@, rows@);
            let columns = widest(all, all.len() as int);
            &&& columns == 0 ==> cells@.len() == 0
            &&& columns > 0 ==> cells@.len() == all.len() && forall|r: int|
                0 <= r < cells@.len() ==> (#[trigger] cells@[r])@.len() == columns && forall|
                    c: int,
                |
                    0 <= c < columns ==> #[trigger] cells@[r]@[c] == cell_at(
                        align@,
                        header@,
                        rows@,
                        r,
                        c,
                    )
        }),
{
    let ghost all = painted_rows(header@, rows@);
    let headed: usize = if header.len() > 0 {
        1
    } else {
        0
    };
    let mut columns: usize = header.len();
    let mut r: usize = 0;
    assert(widest(all, headed as int) == header@.len()) by {
        reveal_with_fuel(widest, 2);
    }
    while r < rows.len()
        invariant
            r <= rows@.len() < usize::MAX,
            all == painted_rows(header@, rows@),
            headed == (if header@.len() > 0 {
                1int
            } else {
                0
            }),
            columns == widest(all, headed + r),
        decreases rows@.len() - r,
    {
        assert(all[headed + r] == rows@[r as int]@);
        if rows[r].len() > columns {
            columns = rows[r].len();
        }
        r = r + 1;
    }
    assert(all.len() == headed + rows@.len());
    let mut cells: Vec<Vec<Option<TableCell>>> = Vec::new();
    if columns == 0 {
        return cells;
    }
    if header.len() > 0 {
        cells.push(table_row(align, header.len(), 0, columns));
        assert(all[0] == header@);
    }
    let mut r: usize = 0;
    while r < rows.len()
        invariant
            r <= rows@.len() < usize::MAX,
            all == painted_rows(header@, rows@),
            headed == (if header@.len() > 0 {
                1int
            } else {
                0
            }),
            all.len() == headed + rows@.len(),
            cells@.len() == headed + r,
            forall|i: int|
                0 <= i < headed + r ==> (#[trigger] cells@[i])@.len() == columns && forall|c: int|
                    0 <= c < columns ==> #[trigger] cells@[i]@[c] == cell_at(
                        align@,
                        header@,
                        rows@,
                        i,
                        c,
                    ),
        decreases rows@.len() - r,
    {
        assert(all[headed + r] == rows@[r as int]@);
        cells.push(table_row(align, rows[r].len(), r + 1, columns));
        r = r + 1;
    }
    cells
}

/// The cells of one row, as many as the table has columns, `len` of them
/// filled.
fn table_row(align: &Vec<Align>, len: usize, row: usize, columns: usize) -> (cells: Vec<
    Option<TableCell>,
>)
    ensures
        cells@.len() == columns,
        forall|c: int|
            0 <= c < columns ==> #[trigger] cells@[c] == (if c < len {
                Some(
                    TableCell {
                        part: Part::Cell { row, column: c as usize },
                        align: lean(align@, c),
                        header: row == 0,
                    },
                )
            } else {
                None::<TableCell>
            }),
{
    let mut cells: Vec<Option<TableCell>> = Vec::new();
    let mut c: usize = 0;
    while c < columns
        invariant
            c <= columns,
            cells@.len() == c,
            forall|i: int|
                0 <= i < c ==> #[trigger] cells@[i] == (if i < len {
                    Some(
                        TableCell {
                            part: Part::Cell { row, column: i as usize },
                            align: lean(align@, i),
                            header: row == 0,
                        },
                    )
                } else {
                    None::<TableCell>
                }),
        decreases columns - c,
    {
        if c < len {
            let lean = if c < align.len() {
                align[c]
            } else {
                Align::Left
            };
            cells.push(
                Some(
                    TableCell {
                        part: Part::Cell { row, column: c },
                        align: lean,
                        header: row == 0,
                    },
                ),
            );
        } else {
            cells.push(None);
        }
        c = c + 1;
    }
    cells
}

/// A painted cell is a cell of the table: what it names is the text at that
/// row and column.
pub proof fn a_painted_cell_is_a_cell(
    align: Vec<Align>,
    header: Vec<Text>,
    rows: Vec<Vec<Text>>,
    indent: usize,
    r: int,
    c: int,
)
    requires
        rows@.len() < usize::MAX,
        0 <= r < painted_rows(header@, rows@).len(),
        0 <= c < painted_rows(header@, rows@)[r].len() <= usize::MAX,
    ensures
        ({
            let block = Block { kind: BlockKind::Table { align, header, rows }, indent };
            cell_at(align@, header@, rows@, r, c) matches Some(cell) && block.text_in(cell.part)
                == Some(painted_rows(header@, rows@)[r][c])
        }),
{
}

/// What a fence's copy button says, which is the button's own to keep: it says
/// so once it has copied, and until the pointer leaves.
#[derive(Clone, Copy, Debug, PartialEq, Eq, Structural)]
pub struct CopyFeedback {
    pub copied: bool,
}

impl CopyFeedback {
    pub fn click(&mut self)
        ensures
            final(self).copied,
    {
        self.copied = true;
    }

    pub fn hover(&mut self, hovering: bool)
        ensures
            final(self).copied == (old(self).copied && hovering),
    {
        if !hovering && self.copied {
            self.copied = false;
        }
    }

    pub fn label(&self) -> (label: &'static str)
        ensures
            label@ == (if self.copied {
                "Copied"@
            } else {
                "Copy"@
            }),
    {
        if self.copied {
            "Copied"
        } else {
            "Copy"
        }
    }
}

} // verus!
