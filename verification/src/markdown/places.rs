//! Where things are in a document and on the page: positions, lines, rows and
//! what is painted under them.

use vstd::prelude::*;

use crate::markdown::blocks;
use crate::markdown::blocks::{Gap, Tone};
use crate::markdown::code;
use crate::markdown::code::{CodeRun, Token};
use crate::markdown::doc::{
    Align, Block, BlockKind, Cursor, Doc, Part, QuoteKind, Selection, Span, Text,
};
use crate::markdown::layout;
use crate::markdown::layout::{Bounds, Frames, Line, Painted};
use crate::markdown::marks;
use crate::markdown::marks::{Appearance, EntryView, HighlightColor};
use crate::markdown::overlay::{Annotation, Overlay};
use crate::markdown::paint;
use crate::markdown::paint::{Layer, Wash};
use crate::markdown::selectable;
use crate::text;

verus! {

/// A position comes before another that is in a later block, in a later part of
/// its block, or further along its text. A body comes before code, that before
/// a caption, that before a table's cells, and those row by row.
pub proof fn a_position_is_before_what_follows_it(a: Cursor, b: Cursor)
    ensures
        a.block < b.block ==> a.before(b),
        a.block == b.block && a.part == b.part ==> (a.before(b) <==> a.offset < b.offset),
        Part::Body.before(Part::Code),
        Part::Code.before(Part::Caption),
        forall|row: usize, column: usize| #[trigger]
            Part::Caption.before(Part::Cell { row, column }),
        a.block == b.block ==> (a.part matches Part::Cell { row, column } ==> b.part matches
            Part::Cell { row: to, column: across } ==> (row < to || (row == to && column < across)
            ==> a.before(b))),
        a.block == b.block && a.part.before(b.part) ==> a.before(b),
        a.before(b) ==> a.block <= b.block,
{
}

/// The ends of a range are its two positions, the earlier one first, whichever
/// way it was swept.
pub proof fn the_ends_of_a_range_are_in_order(range: Selection)
    ensures
        !range.ends().1.before(range.ends().0),
        range.ends() == (range.anchor, range.head) || range.ends() == (range.head, range.anchor),
        range.ends() == (Selection { anchor: range.head, head: range.anchor }).ends(),
{
    crate::markdown::doc::positions_are_ordered(range.anchor, range.head, range.anchor);
}

/// Each kind of block has the text it holds, where that is: prose in a body, a
/// fence in its code, a picture in its caption, and a table in its cells, the
/// header's in row zero. Nothing else has one.
pub proof fn a_block_has_its_text_where_it_is(block: Block, part: Part)
    ensures
        block.kind matches BlockKind::Paragraph(text) ==> block.text_in(Part::Body) == Some(text)
            && block.listed() == seq![Part::Body],
        block.kind matches BlockKind::Heading { text, .. } ==> block.text_in(Part::Body) == Some(
            text,
        ) && block.listed() == seq![Part::Body],
        block.kind matches BlockKind::Bullet(text) ==> block.text_in(Part::Body) == Some(text)
            && block.listed() == seq![Part::Body],
        block.kind matches BlockKind::Ordered { text, .. } ==> block.text_in(Part::Body) == Some(
            text,
        ) && block.listed() == seq![Part::Body],
        block.kind matches BlockKind::Task { text, .. } ==> block.text_in(Part::Body) == Some(text)
            && block.listed() == seq![Part::Body],
        block.kind matches BlockKind::Quote { text, .. } ==> block.text_in(Part::Body) == Some(text)
            && block.listed() == seq![Part::Body],
        block.kind matches BlockKind::Code { code, .. } ==> block.text_in(Part::Code) == Some(code)
            && block.listed() == seq![Part::Code],
        block.kind matches BlockKind::Image { alt, .. } ==> block.text_in(Part::Caption) == Some(
            alt,
        ) && block.listed() == seq![Part::Caption],
        block.kind is Rule || block.kind is Bookmark ==> block.text_in(part) is None
            && block.listed().len() == 0,
        block.kind is Code ==> (block.text_in(part) is Some <==> part == Part::Code),
        block.kind is Image ==> (block.text_in(part) is Some <==> part == Part::Caption),
        block.kind is Table ==> (block.text_in(part) is Some ==> part is Cell),
        part == Part::Body && block.text_in(part) is Some ==> !(block.kind is Code)
            && !(block.kind is Image) && !(block.kind is Table),
{
}

/// A table's cells are its header's, in row zero, and those of its rows, each
/// in the row after.
pub proof fn a_table_has_its_header_in_row_zero(
    align: Vec<Align>,
    header: Vec<Text>,
    rows: Vec<Vec<Text>>,
    indent: usize,
    r: int,
    c: usize,
)
    requires
        0 <= r < rows@.len() < usize::MAX,
    ensures
        ({
            let block = Block { kind: BlockKind::Table { align, header, rows }, indent };
            &&& c < header@.len() ==> block.text_in(Part::Cell { row: 0, column: c }) == Some(
                header@[c as int],
            )
            &&& c >= header@.len() ==> block.text_in(Part::Cell { row: 0, column: c }) is None
            &&& c < rows@[r]@.len() ==> block.text_in(
                Part::Cell { row: (r + 1) as usize, column: c },
            ) == Some(rows@[r]@[c as int])
            &&& c >= rows@[r]@.len() ==> block.text_in(
                Part::Cell { row: (r + 1) as usize, column: c },
            ) is None
            &&& block.text_in(Part::Cell { row: (rows@.len() + 1) as usize, column: c }) is None
        }),
{
}

proof fn lemma_row_parts(row: int, n: int)
    requires
        0 <= n,
    ensures
        crate::markdown::doc::row_parts(row, n).len() == n,
        forall|c: int|
            0 <= c < n ==> #[trigger] crate::markdown::doc::row_parts(row, n)[c] == (Part::Cell {
                row: row as usize,
                column: c as usize,
            }),
    decreases n,
{
    if n > 0 {
        lemma_row_parts(row, n - 1);
    }
}

/// A table's cells are listed row by row, its header's first, each row from
/// its first column on: with one more row, that row's cells come last.
pub proof fn cells_are_listed_row_by_row(header: Seq<Text>, rows: Seq<Vec<Text>>, n: int, c: int)
    requires
        0 <= n <= rows.len(),
    ensures
        ({
            let cells = crate::markdown::doc::table_parts(header, rows, n);
            let columns = if n == 0 {
                header.len() as int
            } else {
                rows[n - 1]@.len() as int
            };
            let before = if n == 0 {
                Seq::empty()
            } else {
                crate::markdown::doc::table_parts(header, rows, n - 1)
            };
            &&& cells.len() == before.len() + columns
            &&& cells.take(before.len() as int) == before
            &&& 0 <= c < columns ==> cells[before.len() + c] == (Part::Cell {
                row: n as usize,
                column: c as usize,
            })
        }),
{
    if n == 0 {
        lemma_row_parts(0, header.len() as int);
    } else {
        lemma_row_parts(n, rows[n - 1]@.len() as int);
        let before = crate::markdown::doc::table_parts(header, rows, n - 1);
        let cells = crate::markdown::doc::table_parts(header, rows, n);
        assert(cells.take(before.len() as int) =~= before);
    }
}

/// A position in a text of a document is held where it is. One past the end of
/// its text is held at the end, one in a text its block has not is held in the
/// first it has, and one past the last block is held in the last.
pub proof fn a_position_is_held_inside_the_document(doc: Doc, at: Cursor)
    requires
        doc.blocks@.len() > 0,
    ensures
        ({
            let held = doc.nearest(at);
            let block = doc.blocks@[held.block as int];
            &&& held.block < doc.blocks@.len()
            &&& at.block < doc.blocks@.len() ==> held.block == at.block
            &&& at.block >= doc.blocks@.len() ==> held.block == doc.blocks@.len() - 1
            &&& block.text_in(at.part) is Some ==> held.part == at.part
            &&& block.text_in(at.part) is None && block.listed().len() > 0 ==> held.part
                == block.listed()[0]
            &&& block.text_in(held.part) matches Some(text) ==> {
                &&& at.offset <= text::byte_len(text.text@) ==> held.offset == at.offset
                &&& text::byte_len(text.text@) < at.offset ==> held.offset == text::byte_len(
                    text.text@,
                )
            }
            &&& block.text_in(held.part) is None ==> held.offset == 0
        }),
        forall|other: Cursor| #[trigger]
            (Selection { anchor: at, head: other }).held(doc) == (Selection {
                anchor: doc.nearest(at),
                head: doc.nearest(other),
            }),
{
}

/// Text that is trimmed has no white space at either end, and lost nothing but
/// white space.
pub proof fn trimming_takes_white_space_off_the_ends(text: Seq<char>) -> (cut: (int, int))
    ensures
        0 <= cut.0 <= cut.1 <= text.len(),
        text::trimmed(text) == text.subrange(cut.0, cut.1),
        forall|i: int|
            0 <= i < cut.0 || cut.1 <= i < text.len() ==> text::is_space(#[trigger] text[i]),
        text::trimmed(text).len() > 0 ==> !text::is_space(text::trimmed(text)[0])
            && !text::is_space(text::trimmed(text).last()),
{
    let start = lemma_trimmed_start(text);
    let rest = text.subrange(start, text.len() as int);
    let end = lemma_trimmed_end(rest);
    assert(text::trimmed(text) =~= text.subrange(start, start + end));
    assert forall|i: int| 0 <= i < start || start + end <= i < text.len() implies text::is_space(
        #[trigger] text[i],
    ) by {
        if i >= start + end {
            assert(rest[i - start] == text[i]);
        }
    }
    if end > 0 {
        assert(rest[0] == text[start]);
    }
    (start, start + end)
}

proof fn lemma_trimmed_start(text: Seq<char>) -> (n: int)
    ensures
        0 <= n <= text.len(),
        text::trimmed_start(text) == text.subrange(n, text.len() as int),
        forall|i: int| 0 <= i < n ==> text::is_space(#[trigger] text[i]),
        n < text.len() ==> !text::is_space(text[n]),
    decreases text.len(),
{
    if text.len() > 0 && text::is_space(text[0]) {
        let rest = text.skip(1);
        let n = lemma_trimmed_start(rest);
        assert(text::trimmed_start(text) =~= text.subrange(n + 1, text.len() as int));
        assert forall|i: int| 0 <= i < n + 1 implies text::is_space(#[trigger] text[i]) by {
            if i > 0 {
                assert(rest[i - 1] == text[i]);
            }
        }
        if n + 1 < text.len() {
            assert(rest[n] == text[n + 1]);
        }
        n + 1
    } else {
        assert(text::trimmed_start(text) =~= text.subrange(0, text.len() as int));
        0
    }
}

proof fn lemma_trimmed_end(text: Seq<char>) -> (n: int)
    ensures
        0 <= n <= text.len(),
        text::trimmed_end(text) == text.subrange(0, n),
        forall|i: int| n <= i < text.len() ==> text::is_space(#[trigger] text[i]),
        n > 0 ==> !text::is_space(text[n - 1]),
    decreases text.len(),
{
    if text.len() > 0 && text::is_space(text.last()) {
        let rest = text.drop_last();
        let n = lemma_trimmed_end(rest);
        assert(text::trimmed_end(text) =~= text.subrange(0, n));
        assert forall|i: int| n <= i < text.len() implies text::is_space(#[trigger] text[i]) by {
            if i < rest.len() {
                assert(rest[i] == text[i]);
            }
        }
        n
    } else {
        assert(text::trimmed_end(text) =~= text.subrange(0, text.len() as int));
        text.len() as int
    }
}

/// A character takes one byte up to U+007F, two up to U+07FF, three up to
/// U+FFFF and four beyond, and a text as many as its characters.
pub proof fn a_character_takes_its_bytes(c: char, text: Seq<char>)
    ensures
        (c as u32) < 0x80 ==> text::width(c) == 1,
        0x80 <= (c as u32) < 0x800 ==> text::width(c) == 2,
        0x800 <= (c as u32) < 0x10000 ==> text::width(c) == 3,
        0x10000 <= (c as u32) ==> text::width(c) == 4,
        text::byte_len(Seq::empty()) == 0,
        text::byte_len(text.push(c)) == text::byte_len(text) + text::width(c),
        text::byte_at(text, text.len() as int) == text::byte_len(text),
        text::byte_at(text, 0) == 0,
{
    assert(text.push(c).drop_last() =~= text);
    text::lemma_byte_at_end(text);
    assert(text.subrange(0, 0) =~= Seq::<char>::empty());
}

/// A stretch of a text is copied out character for character: from where one
/// starts to where another does.
pub proof fn a_stretch_is_copied_character_for_character(
    doc: Doc,
    at: Cursor,
    body: Seq<char>,
    i: int,
    j: int,
    span: Span,
)
    requires
        at.block < doc.blocks@.len(),
        doc.blocks@[at.block as int].text_in(at.part) matches Some(text) && text.text@ == body,
        0 <= i <= j <= body.len(),
        span.start == text::byte_at(body, i),
        span.end == text::byte_at(body, j),
    ensures
        selectable::slice_of(doc, at, span) == Some(body.subrange(i, j)),
{
    let a = choose|k: int| 0 <= k <= body.len() && #[trigger] text::byte_at(body, k) == span.start;
    assert(text::byte_at(body, i) == span.start);
    text::lemma_boundary_unique(body, i, a);
    let b = choose|k: int| 0 <= k <= body.len() && #[trigger] text::byte_at(body, k) == span.end;
    assert(text::byte_at(body, j) == span.end);
    text::lemma_boundary_unique(body, j, b);
    if i < j {
        text::lemma_byte_at_order(body, i, j);
    }
}

/// Nothing is copied out of a text a document has not, of half a character, or
/// backwards.
pub proof fn nothing_is_copied_of_half_a_character(doc: Doc, at: Cursor, span: Span)
    ensures
        at.block >= doc.blocks@.len() ==> selectable::slice_of(doc, at, span) is None,
        span.start > span.end ==> selectable::slice_of(doc, at, span) is None,
        at.block < doc.blocks@.len() ==> (doc.blocks@[at.block as int].text_in(
            at.part,
        ) matches Some(text) ==> !text::on_boundary(text.text@, span.start as int)
            || !text::on_boundary(text.text@, span.end as int) ==> selectable::slice_of(
            doc,
            at,
            span,
        ) is None),
{
}

/// What several texts give is pasted line by line: with one more text, a line
/// break and what it gives, and nothing more where it gives nothing.
pub proof fn texts_are_pasted_line_by_line(doc: Doc, spans: Seq<(Cursor, Span)>, n: int)
    requires
        0 <= n < spans.len(),
    ensures
        selectable::pasted(doc, spans, 0) is None,
        match (
            selectable::pasted(doc, spans, n),
            selectable::slice_of(doc, spans[n].0, spans[n].1),
        ) {
            (Some(before), Some(slice)) => selectable::pasted(doc, spans, n + 1) == Some(
                before + seq!['\n'] + slice,
            ),
            (Some(before), None) => selectable::pasted(doc, spans, n + 1) == Some(before),
            (None, Some(slice)) => selectable::pasted(doc, spans, n + 1) == Some(slice),
            (None, None) => selectable::pasted(doc, spans, n + 1) is None,
        },
{
    if let (Some(before), Some(slice)) = (
        selectable::pasted(doc, spans, n),
        selectable::slice_of(doc, spans[n].0, spans[n].1),
    ) {
        assert(before.push('\n') + slice =~= before + seq!['\n'] + slice);
    }
}

/// Lines of code part at line breaks, and nowhere else: a break stands between
/// each line and the next, and none stands in a line.
pub proof fn lines_part_at_line_breaks(code: Seq<char>, n: int, i: int, c: int)
    requires
        0 <= n <= code.len(),
        text::byte_len(code) <= usize::MAX,
        0 <= i < code::split(code, n).len(),
        0 <= c < n,
    ensures
        code::split(code, n)[i].start <= text::byte_at(code, c) < code::split(code, n)[i].end
            ==> code[c] != '\n',
        i + 1 < code::split(code, n).len() && text::byte_at(code, c) == code::split(
            code,
            n,
        )[i].end ==> code[c] == '\n',
    decreases n,
{
    let lines = code::split(code, n);
    let before = code::split(code, n - 1);
    code::lines_cover_the_code(code, n - 1);
    text::lemma_byte_at_order(code, n - 1, n);
    text::lemma_byte_at_order(code, n, code.len() as int);
    text::lemma_byte_at_end(code);
    if c < n - 1 {
        text::lemma_byte_at_order(code, c, n - 1);
        if i < before.len() {
            lines_part_at_line_breaks(code, n - 1, i, c);
        }
        text::lemma_byte_at_order(code, c, n);
    }
}

/// A caret on a line is as far along it as it is past the line's start, and a
/// place past either end is not on it.
pub proof fn a_caret_is_as_far_along_as_it_is_past_the_start(at: usize, line: Span)
    requires
        line.start <= line.end,
    ensures
        code::caret_in_line(Some(at), line) matches Some(along) ==> line.start + along == at,
        code::caret_in_line(Some(at), line) is Some <==> line.start <= at && at <= line.end,
        code::caret_in_line(None, line) is None,
{
}

/// Whether a token colors a byte.
pub open spec fn colors(token: Token, at: int) -> bool {
    token.range.start <= at < token.range.end
}

/// Which run byte `p` of a line is in.
pub open spec fn in_run(runs: Seq<CodeRun>, r: int, p: int) -> bool {
    0 <= r < runs.len() && code::run_len(runs, r) <= p < code::run_len(runs, r + 1)
}

proof fn lemma_run_len_grows(runs: Seq<CodeRun>, run: CodeRun, n: int)
    requires
        0 <= n <= runs.len(),
    ensures
        code::run_len(runs.push(run), n) == code::run_len(runs, n),
        code::run_len(runs.push(run), (runs.len() + 1) as int) == code::run_len(runs, runs.len() as int)
            + run.len,
    decreases n,
{
    if n > 0 {
        lemma_run_len_grows(runs, run, n - 1);
        assert(runs.push(run)[n - 1] == runs[n - 1]);
    }
    if n == runs.len() {
        assert(runs.push(run)[n] == run);
    } else {
        lemma_run_len_all(runs, run, runs.len() as int);
        assert(runs.push(run)[runs.len() as int] == run);
    }
}

proof fn lemma_run_len_all(runs: Seq<CodeRun>, run: CodeRun, n: int)
    requires
        0 <= n <= runs.len(),
    ensures
        code::run_len(runs.push(run), n) == code::run_len(runs, n),
    decreases n,
{
    if n > 0 {
        lemma_run_len_all(runs, run, n - 1);
        assert(runs.push(run)[n - 1] == runs[n - 1]);
    }
}

proof fn lemma_run_len_order(runs: Seq<CodeRun>, a: int, b: int)
    requires
        0 <= a <= b <= runs.len(),
    ensures
        code::run_len(runs, a) <= code::run_len(runs, b),
    decreases b,
{
    if a < b {
        lemma_run_len_order(runs, a, b - 1);
    }
}

/// One more run takes the bytes up to its end.
proof fn lemma_in_run_push(runs: Seq<CodeRun>, run: CodeRun, r: int, p: int)
    requires
        in_run(runs.push(run), r, p),
    ensures
        r < runs.len() ==> in_run(runs, r, p) && p < code::run_len(runs, runs.len() as int),
        r == runs.len() ==> code::run_len(runs, r) <= p < code::run_len(runs, r) + run.len,
{
    if r < runs.len() {
        lemma_run_len_all(runs, run, r);
        lemma_run_len_all(runs, run, r + 1);
        lemma_run_len_order(runs, r + 1, runs.len() as int);
    } else {
        lemma_run_len_grows(runs, run, runs.len() as int);
    }
}

proof fn lemma_lit(tokens: Seq<Token>, start: int, len: int, n: int, r: int, p: int)
    requires
        code::apart(tokens),
        0 <= start,
        0 <= len,
        start + len <= usize::MAX,
        0 <= n <= tokens.len(),
    ensures
        ({
            let (runs, pos) = code::lit(tokens, start, len, n);
            &&& 0 <= pos <= len
            &&& code::run_len(runs, runs.len() as int) == pos
            &&& pos > 0 ==> exists|i: int|
                0 <= i < n && pos <= (#[trigger] tokens[i]).range.end - start
            &&& in_run(runs, r, p) ==> match runs[r].kind {
                Some(kind) => exists|i: int|
                    0 <= i < n && colors(#[trigger] tokens[i], start + p) && tokens[i].kind == kind,
                None => forall|i: int| 0 <= i < n ==> !colors(#[trigger] tokens[i], start + p),
            }
            &&& pos <= p < len ==> forall|i: int|
                0 <= i < n ==> !colors(#[trigger] tokens[i], start + p)
        }),
    decreases n,
{
    if n > 0 {
        lemma_lit(tokens, start, len, n - 1, r, p);
        let (before, was) = code::lit(tokens, start, len, n - 1);
        let (runs, pos) = code::lit(tokens, start, len, n);
        let token = tokens[n - 1];
        if token.range.end > start && token.range.start < start + len {
            let s: int = if token.range.start < start {
                0
            } else {
                token.range.start - start
            };
            let e: int = if token.range.end < start + len {
                token.range.end - start
            } else {
                len
            };
            if was > 0 {
                let i = choose|i: int|
                    0 <= i < n - 1 && was <= (#[trigger] tokens[i]).range.end - start;
                assert(tokens[i].range.end <= tokens[n - 1].range.start);
            }
            assert(was <= s);
            let gap = CodeRun { len: (s - was) as usize, kind: None };
            let plain = if s > was {
                before.push(gap)
            } else {
                before
            };
            let lit = CodeRun { len: (e - s) as usize, kind: Some(token.kind) };
            assert(runs == plain.push(lit));
            if s > was {
                lemma_run_len_grows(before, gap, before.len() as int);
            }
            assert(code::run_len(plain, plain.len() as int) == s);
            lemma_run_len_grows(plain, lit, plain.len() as int);
            assert(tokens[n - 1].range.end - start >= pos);
            if in_run(runs, r, p) {
                lemma_in_run_push(plain, lit, r, p);
                if r == plain.len() {
                    assert(s <= p < e);
                    assert(colors(tokens[n - 1], start + p));
                } else {
                    lemma_run_len_order(runs, 0, r);
                    assert(0 <= p < s);
                    assert(!colors(tokens[n - 1], start + p));
                    assert(runs[r] == plain[r]);
                    if s > was {
                        lemma_in_run_push(before, gap, r, p);
                        if r == before.len() {
                            assert(was <= p);
                        } else {
                            assert(plain[r] == before[r]);
                        }
                    }
                }
            }
        } else {
            assert(p >= 0 && p < len ==> !colors(token, start + p));
            if in_run(runs, r, p) {
                lemma_run_len_order(runs, 0, r);
                lemma_run_len_order(runs, r + 1, runs.len() as int);
                assert(0 <= p < len);
            }
            assert(pos > 0 ==> exists|i: int|
                0 <= i < n && pos <= (#[trigger] tokens[i]).range.end - start);
        }
    }
}

/// Highlighting colors each byte as its token says: a run of a kind is of bytes
/// a token of that kind covers, and a run of the text's own color is of bytes
/// none does.
pub proof fn each_byte_is_colored_by_its_token(
    tokens: Seq<Token>,
    start: int,
    len: int,
    r: int,
    p: int,
)
    requires
        code::apart(tokens),
        0 <= start,
        0 <= len,
        start + len <= usize::MAX,
        in_run(code::runs_of(tokens, start, len), r, p),
    ensures
        match code::runs_of(tokens, start, len)[r].kind {
            Some(kind) => exists|i: int|
                0 <= i < tokens.len() && colors(#[trigger] tokens[i], start + p) && tokens[i].kind
                    == kind,
            None => forall|i: int|
                0 <= i < tokens.len() ==> !colors(#[trigger] tokens[i], start + p),
        },
{
    let n = tokens.len() as int;
    lemma_lit(tokens, start, len, n, r, p);
    let (runs, pos) = code::lit(tokens, start, len, n);
    if pos < len {
        let rest = CodeRun { len: (len - pos) as usize, kind: None };
        lemma_in_run_push(runs, rest, r, p);
        if r < runs.len() {
            assert(runs.push(rest)[r] == runs[r]);
        }
    } else if runs.len() == 0 {
        assert(code::run_len(code::runs_of(tokens, start, len), 1) == 0) by {
            reveal_with_fuel(code::run_len, 2);
        }
    }
}

/// A number ten times as large is written in one digit more.
pub proof fn ten_times_is_a_digit_more(n: nat, digit: nat)
    requires
        digit < 10,
    ensures
        n < 10 ==> code::digits(n) == 1,
        n > 0 ==> code::digits(10 * n + digit) == code::digits(n) + 1,
{
    assert((10 * n + digit) / 10 == n);
}

/// List items sit tight, and so does what is under one; everything else
/// breathes, and nothing is above the first.
pub proof fn list_items_sit_tight(doc: Doc, ix: int)
    requires
        0 <= ix < doc.blocks@.len(),
    ensures
        blocks::gap_above(doc, ix) == Gap::Top <==> ix == 0,
        ix > 0 ==> {
            let (above, here) = (doc.blocks@[ix - 1], doc.blocks@[ix]);
            let item = above.kind is Bullet || above.kind is Ordered || above.kind is Task;
            let next = here.kind is Bullet || here.kind is Ordered || here.kind is Task;
            &&& item && next ==> blocks::gap_above(doc, ix) == Gap::List
            &&& item && here.indent > above.indent ==> blocks::gap_above(doc, ix) == Gap::List
            &&& !item ==> blocks::gap_above(doc, ix) == Gap::Block
            &&& !next && here.indent <= above.indent ==> blocks::gap_above(doc, ix) == Gap::Block
        },
{
}

/// An address with `://` in it anywhere names where to fetch from.
pub proof fn a_scheme_is_a_colon_and_two_slashes(before: Seq<char>, after: Seq<char>, url: Seq<char>)
    ensures
        blocks::has_scheme(before + seq![':', '/', '/'] + after),
        (forall|i: int| 0 <= i < url.len() ==> url[i] != ':') ==> !blocks::has_scheme(url),
        (forall|i: int| 0 <= i < url.len() ==> url[i] != '/') ==> !blocks::has_scheme(url),
{
    let with = before + seq![':', '/', '/'] + after;
    let n = before.len() as int;
    assert(with[n] == ':' && with[n + 1] == '/' && with[n + 2] == '/');
}

/// What is known is shown, and what stands in for it where it is not.
pub proof fn what_is_known_is_shown(known: String, other: Seq<char>)
    ensures
        blocks::or_else(Some(known), other) == known@,
        blocks::or_else(None, other) == other,
        blocks::text_view(Some(known)) == Some(known@),
        blocks::text_view(None) is None,
{
}

/// A site's mark is its host's first letter, upper-case, and a question mark
/// where it has none.
pub proof fn a_sites_mark_is_its_first_letter(host: Seq<char>)
    ensures
        host.len() > 0 ==> blocks::initial_of(host) == blocks::upper_of(host[0]),
        host.len() == 0 ==> blocks::initial_of(host) == blocks::upper_of('?'),
{
}

/// A table is as wide as the widest of its rows.
pub proof fn a_table_is_as_wide_as_its_widest_row(rows: Seq<Seq<Text>>, n: int)
    requires
        0 <= n <= rows.len(),
    ensures
        forall|r: int| 0 <= r < n ==> (#[trigger] rows[r]).len() <= blocks::widest(rows, n),
        blocks::widest(rows, n) == 0 || exists|r: int|
            0 <= r < n && (#[trigger] rows[r]).len() == blocks::widest(rows, n),
    decreases n,
{
    if n > 0 {
        a_table_is_as_wide_as_its_widest_row(rows, n - 1);
        if rows[n - 1].len() <= blocks::widest(rows, n - 1) && blocks::widest(rows, n) > 0 {
            let r = choose|r: int|
                0 <= r < n - 1 && (#[trigger] rows[r]).len() == blocks::widest(rows, n - 1);
            assert(rows[r].len() == blocks::widest(rows, n));
        } else if blocks::widest(rows, n) > 0 {
            assert(rows[n - 1].len() == blocks::widest(rows, n));
        }
    }
}

/// A table paints its header first, where it has one, set as a header, and
/// each row under it in order. A column leans as it says, and left where it
/// says nothing.
pub proof fn a_table_paints_its_header_first(
    align: Seq<Align>,
    header: Seq<Text>,
    rows: Seq<Vec<Text>>,
    r: int,
    c: int,
)
    requires
        0 <= r < rows.len() < usize::MAX,
        0 <= c <= usize::MAX,
    ensures
        ({
            let painted = blocks::painted_rows(header, rows);
            let under = if header.len() > 0 {
                r + 1
            } else {
                r
            };
            &&& header.len() > 0 ==> painted[0] == header && painted.len() == rows.len() + 1
            &&& header.len() == 0 ==> painted.len() == rows.len()
            &&& painted[under] == rows[r]@
            &&& blocks::cell_at(align, header, rows, under, c) is Some <==> c < rows[r]@.len()
            &&& blocks::cell_at(align, header, rows, under, c) matches Some(cell) ==> {
                &&& !cell.header
                &&& cell.part == (Part::Cell { row: (r + 1) as usize, column: c as usize })
                &&& cell.align == (if c < align.len() {
                    align[c]
                } else {
                    Align::Left
                })
            }
            &&& header.len() > 0 ==> (blocks::cell_at(align, header, rows, 0, c) is Some <==> c
                < header.len())
            &&& header.len() > 0 ==> (blocks::cell_at(align, header, rows, 0, c) matches Some(cell)
                ==> cell.header && cell.part == (Part::Cell { row: 0, column: c as usize })
                && cell.align == (if c < align.len() {
                align[c]
            } else {
                Align::Left
            }))
        }),
{
}

/// The lines of a text start one after another, a line break between them, and
/// each row of a line is from one wrap to the next, the last to its end.
pub proof fn rows_run_from_wrap_to_wrap(
    lines: Seq<Line>,
    painted: usize,
    block: usize,
    part: Part,
    start: int,
    n: int,
    k: int,
)
    requires
        0 <= n < lines.len(),
        0 <= k <= lines[n].wraps@.len(),
        0 <= start,
        lines[n].wf(),
        layout::line_start(lines, start, n) >= 0,
        layout::line_start(lines, start, n) + lines[n].len <= usize::MAX,
        lines[n].wraps@.len() <= usize::MAX,
    ensures
        ({
            let first = layout::line_start(lines, start, n);
            let above = layout::rows_of(lines, painted, block, part, start, n);
            let rows = layout::rows_of(lines, painted, block, part, start, n + 1);
            let row = rows[above.len() + k];
            let wraps = lines[n].wraps@;
            &&& layout::line_start(lines, start, 0) == start
            &&& layout::line_start(lines, start, n + 1) == first + lines[n].len + 1
            &&& rows.len() == above.len() + wraps.len() + 1
            &&& rows.take(above.len() as int) == above
            &&& row.painted == painted && row.block == block && row.part == part
            &&& row.line_start == first && row.wrapped_row == k
            &&& row.range.start == first + (if k == 0 {
                0
            } else {
                wraps[k - 1] as int
            })
            &&& row.range.end == first + (if k == wraps.len() {
                lines[n].len as int
            } else {
                wraps[k] as int
            })
        }),
{
    let above = layout::rows_of(lines, painted, block, part, start, n);
    let rows = layout::rows_of(lines, painted, block, part, start, n + 1);
    assert(rows.take(above.len() as int) =~= above);
    if k > 0 {
        assert(lines[n].wraps@[k - 1] <= lines[n].len);
    }
    if k < lines[n].wraps@.len() {
        assert(lines[n].wraps@[k] <= lines[n].len);
    }
}

/// A row and a text hold a position of theirs from their first byte up to and
/// with their last, and no position of another text.
pub proof fn a_row_holds_both_its_ends(row: layout::Row, text: Painted, at: Cursor)
    ensures
        row.holds(at) <==> at.block == row.block && at.part == row.part && row.range.start
            <= at.offset && at.offset <= row.range.end,
        layout::text_holds(text, at) <==> at.block == text.block && at.part == text.part
            && text.range.start <= at.offset && at.offset <= text.range.end,
{
}

/// A position painted in the first text that holds it, as far into it as the
/// position is past where the text starts.
pub proof fn a_position_painted_in_the_first_text_that_holds_it(frames: Frames, at: Cursor, i: int)
    requires
        0 <= i <= frames.texts.len() <= usize::MAX,
    ensures
        match frames.painted_at(at, i) {
            Some(place) => {
                let text = frames.texts[place.text as int];
                &&& i <= place.text < frames.texts.len()
                &&& text.block == at.block && text.part == at.part
                &&& text.range.start + place.byte == at.offset && at.offset <= text.range.end
                &&& forall|j: int|
                    i <= j < place.text ==> !layout::text_holds(#[trigger] frames.texts[j], at)
            },
            None => forall|j: int|
                i <= j < frames.texts.len() ==> !layout::text_holds(#[trigger] frames.texts[j], at),
        },
    decreases frames.texts.len() - i,
{
    if i < frames.texts.len() && !layout::text_holds(frames.texts[i], at) {
        a_position_painted_in_the_first_text_that_holds_it(frames, at, i + 1);
    }
}

proof fn lemma_row_at(frames: Frames, at: Cursor, under: spec_fn(int) -> bool, i: int)
    requires
        0 <= i <= frames.rows.len(),
    ensures
        match frames.row_at(at, under, i) {
            Some(row) => i <= row < frames.rows.len() && frames.rows[row].holds(at) && under(row)
                && forall|j: int|
                i <= j < row ==> !(#[trigger] frames.rows[j].holds(at) && under(j)),
            None => forall|j: int|
                i <= j < frames.rows.len() ==> !(#[trigger] frames.rows[j].holds(at) && under(j)),
        },
    decreases frames.rows.len() - i,
{
    if i < frames.rows.len() && !(frames.rows[i].holds(at) && under(i)) {
        lemma_row_at(frames, at, under, i + 1);
    }
}

proof fn lemma_last_row_at(frames: Frames, at: Cursor, i: int)
    requires
        0 <= i <= frames.rows.len(),
    ensures
        match frames.last_row_at(at, i) {
            Some(row) => 0 <= row < i && frames.rows[row].holds(at) && forall|j: int|
                row < j < i ==> !#[trigger] frames.rows[j].holds(at),
            None => forall|j: int| 0 <= j < i ==> !#[trigger] frames.rows[j].holds(at),
        },
    decreases i,
{
    if i > 0 && !frames.rows[i - 1].holds(at) {
        lemma_last_row_at(frames, at, i - 1);
    }
}

/// End goes to the end of the first row that holds the caret and Home to the
/// start of the last, so that at a wrap each goes its own way.
pub proof fn home_and_end_part_at_a_wrap(frames: Frames, at: Cursor)
    ensures
        match frames.edge(at, true) {
            Some(edge) => exists|i: int|
                0 <= i < frames.rows.len() && #[trigger] frames.rows[i].holds(at) && edge == (
                Cursor {
                    block: at.block,
                    part: at.part,
                    offset: frames.rows[i].range.end,
                }) && forall|j: int| 0 <= j < i ==> !#[trigger] frames.rows[j].holds(at),
            None => forall|i: int|
                0 <= i < frames.rows.len() ==> !#[trigger] frames.rows[i].holds(at),
        },
        match frames.edge(at, false) {
            Some(edge) => exists|i: int|
                0 <= i < frames.rows.len() && #[trigger] frames.rows[i].holds(at) && edge == (
                Cursor {
                    block: at.block,
                    part: at.part,
                    offset: frames.rows[i].range.start,
                }) && forall|j: int|
                    i < j < frames.rows.len() ==> !#[trigger] frames.rows[j].holds(at),
            None => forall|i: int|
                0 <= i < frames.rows.len() ==> !#[trigger] frames.rows[i].holds(at),
        },
{
    let any = |i: int| true;
    lemma_row_at(frames, at, any, 0);
    lemma_last_row_at(frames, at, frames.rows.len() as int);
    if let Some(i) = frames.row_at(at, any, 0) {
        assert(frames.rows[i].holds(at));
    }
    if let Some(i) = frames.last_row_at(at, frames.rows.len() as int) {
        assert(frames.rows[i].holds(at));
    }
}

/// A step is from the row the pointer is in that holds the caret, and where it
/// is in none, from the first that does.
pub proof fn a_step_is_from_the_row_under_the_pointer(frames: Frames, at: Cursor, under: Seq<bool>)
    ensures
        match frames.row_from(at, under) {
            Some(row) => {
                &&& 0 <= row < frames.rows.len() && frames.rows[row].holds(at)
                &&& (exists|j: int|
                    0 <= j < frames.rows.len() && j < under.len() && under[j]
                        && #[trigger] frames.rows[j].holds(at)) ==> row < under.len() && under[row]
                &&& !(exists|j: int|
                    0 <= j < frames.rows.len() && j < under.len() && under[j]
                        && #[trigger] frames.rows[j].holds(at)) ==> forall|j: int|
                    0 <= j < row ==> !#[trigger] frames.rows[j].holds(at)
            },
            None => forall|j: int|
                0 <= j < frames.rows.len() ==> !#[trigger] frames.rows[j].holds(at),
        },
{
    let pointed = |i: int| i < under.len() && under[i];
    let any = |i: int| true;
    lemma_row_at(frames, at, pointed, 0);
    lemma_row_at(frames, at, any, 0);
}

/// A selection covers a byte of a painted text just where the byte's position
/// is between its ends.
pub proof fn a_selection_covers_what_is_between_its_ends(
    frames: Frames,
    i: int,
    selection: Selection,
    p: int,
)
    requires
        0 <= i < frames.texts.len(),
        frames.texts[i].range.start <= frames.texts[i].range.end,
        0 <= p < frames.texts[i].range.end - frames.texts[i].range.start,
    ensures
        ({
            let text = frames.texts[i];
            let byte = Cursor {
                block: text.block,
                part: text.part,
                offset: (text.range.start + p) as usize,
            };
            (frames.covered(i, selection) matches Some(span) && span.start <= p < span.end) <==> (
            !byte.before(selection.ends().0) && byte.before(selection.ends().1))
        }),
{
    let text = frames.texts[i];
    let (start, end) = selection.ends();
    let byte = Cursor {
        block: text.block,
        part: text.part,
        offset: (text.range.start + p) as usize,
    };
    let here = Cursor { block: text.block, part: text.part, offset: 0 };
    crate::markdown::doc::positions_are_ordered(here, start.start(), here);
    crate::markdown::doc::positions_are_ordered(here, end.start(), here);
    crate::markdown::doc::positions_are_ordered(start, end, byte);
    crate::markdown::doc::positions_are_ordered(selection.anchor, selection.head, byte);
}

/// Every text a selection covers some of is given once, in order, with what it
/// covers.
pub proof fn covered_texts_are_given_in_order(frames: Frames, selection: Selection, n: int)
    requires
        0 <= n < frames.texts.len() <= usize::MAX,
    ensures
        ({
            let (fewer, more) = (frames.covers(selection, n), frames.covers(selection, n + 1));
            &&& frames.covers(selection, 0).len() == 0
            &&& frames.covered(n, selection) is None ==> more == fewer
            &&& frames.covered(n, selection) matches Some(span) ==> more == fewer.push(
                (n as usize, span),
            )
        }),
{
}

/// A box is that of the first recorded for its block.
pub proof fn a_box_is_the_first_of_its_block(boxes: Seq<(usize, Bounds)>, ix: usize, i: int)
    requires
        0 <= i <= boxes.len(),
    ensures
        match layout::first_of(boxes, ix, i) {
            Some(bounds) => exists|k: int|
                i <= k < boxes.len() && #[trigger] boxes[k] == (ix, bounds) && forall|j: int|
                    i <= j < k ==> (#[trigger] boxes[j]).0 != ix,
            None => forall|j: int| i <= j < boxes.len() ==> (#[trigger] boxes[j]).0 != ix,
        },
    decreases boxes.len() - i,
{
    if i < boxes.len() {
        if boxes[i].0 == ix {
            assert(boxes[i] == (ix, boxes[i].1));
        } else {
            a_box_is_the_first_of_its_block(boxes, ix, i + 1);
            if let Some(bounds) = layout::first_of(boxes, ix, i + 1) {
                let k = choose|k: int|
                    i + 1 <= k < boxes.len() && #[trigger] boxes[k] == (ix, bounds) && forall|
                        j: int,
                    | i + 1 <= j < k ==> (#[trigger] boxes[j]).0 != ix;
                assert(boxes[k] == (ix, bounds));
            }
        }
    }
}

/// A page nothing has painted on holds nothing.
pub proof fn a_page_not_painted_holds_nothing(at: Cursor, ix: usize)
    ensures
        ({
            let none = Frames::empty();
            &&& none.texts.len() == 0 && none.rows.len() == 0
            &&& none.painted_at(at, 0) is None
            &&& layout::first_of(none.blocks, ix, 0) is None
            &&& layout::first_of(none.languages, ix, 0) is None
            &&& layout::first_of(none.pictures, ix, 0) is None
            &&& layout::first_of(none.checkboxes, ix, 0) is None
        }),
{
}

/// A thing not measured is as far away as can be, and one that is is as far as
/// it measures.
pub proof fn what_is_not_measured_is_far_away(away: Seq<i64>, i: int)
    ensures
        0 <= i < away.len() ==> layout::distance(away, i) == away[i],
        i < 0 || i >= away.len() ==> layout::distance(away, i) == i64::MAX,
{
}

/// What a range covers of a text is given row by row, in order: each row it
/// covers some of, once, with what it covers.
pub proof fn a_range_is_given_row_by_row(lines: Seq<Line>, range: Span, n: int, k: int)
    requires
        0 <= n < lines.len() <= usize::MAX,
        0 <= k <= lines[n].wraps@.len() < usize::MAX,
    ensures
        ({
            let first = layout::line_start(lines, 0, n);
            let (fewer, more) = (
                layout::cuts_in(lines, range, n, k),
                layout::cuts_in(lines, range, n, k + 1),
            );
            &&& layout::cuts_in(lines, range, n, 0).len() == 0
            &&& lines[n].cut(first, k, range) is None ==> more == fewer
            &&& lines[n].cut(first, k, range) matches Some(cut) ==> more == fewer.push(
                layout::RowCut { line: n as usize, row: k as usize, range: cut },
            )
            &&& layout::cuts_of(lines, range, 0).len() == 0
            &&& layout::cuts_of(lines, range, n + 1) == layout::cuts_of(lines, range, n)
                + layout::cuts_in(lines, range, n, (lines[n].wraps@.len() + 1) as int)
        }),
{
}

/// The caret is in the text it is in, at its byte there, and in no other.
pub proof fn the_caret_is_in_its_own_text(overlay: Overlay, selection: Selection, len: usize)
    requires
        overlay.selection == Some(selection),
    ensures
        overlay.caret_in() is Some <==> selection.head.block == overlay.block && selection.head.part
            == overlay.part,
        overlay.caret_in() matches Some(at) ==> at == selection.head.offset,
        overlay.caret_lit() == (if overlay.caret_on {
            overlay.caret_in()
        } else {
            None
        }),
        overlay.selects(len) == overlay.clipped(selection, len),
        selection.anchor == selection.head ==> overlay.selects(len) is None,
        (Overlay { selection: None, ..overlay }).selects(len) is None,
        (Overlay { selection: None, ..overlay }).caret_in() is None,
        overlay.origin() == (Cursor { block: overlay.block, part: overlay.part, offset: 0 }),
{
}

/// Each range that reaches a text washes what of it is there, in its own wash
/// and in the order it was given.
pub proof fn each_range_washes_what_it_reaches(
    overlay: Overlay,
    annotations: Seq<(Selection, Annotation)>,
    len: usize,
    n: int,
)
    requires
        0 <= n < annotations.len(),
    ensures
        overlay.washed(annotations, len, 0).len() == 0,
        match overlay.clipped(annotations[n].0, len) {
            Some(span) => overlay.washed(annotations, len, n + 1) == overlay.washed(
                annotations,
                len,
                n,
            ).push((span, annotations[n].1)),
            None => overlay.washed(annotations, len, n + 1) == overlay.washed(annotations, len, n),
        },
{
}

/// What is painted under a text is painted in layers: the annotations
/// underneath, the selection over them, then the caret, and over those the
/// washes of code and of chips.
pub proof fn a_text_is_painted_in_layers(
    overlay: Overlay,
    annotations: Seq<(Selection, Annotation)>,
    code: Seq<Span>,
    chips: Seq<Span>,
    len: usize,
    i: int,
)
    ensures
        ({
            let slices = overlay.washed(annotations, len, annotations.len() as int);
            let washes = overlay.washes(annotations, code, chips, len);
            let selected = overlay.selects(len);
            let caret = overlay.caret_lit();
            let a = slices.len() as int;
            let s = a + (if selected is Some {
                1int
            } else {
                0
            });
            let c = s + (if caret is Some {
                1int
            } else {
                0
            });
            &&& washes.len() == c + code.len() + chips.len()
            &&& 0 <= i < a ==> washes[i] == (Wash {
                layer: Layer::Annotation(slices[i].1),
                range: slices[i].0,
            })
            &&& selected matches Some(range) ==> washes[a] == (Wash {
                layer: Layer::Selection,
                range,
            })
            &&& caret matches Some(at) ==> washes[s] == (Wash {
                layer: Layer::Caret,
                range: Span { start: at, end: at },
            })
            &&& 0 <= i < code.len() ==> washes[c + i] == (Wash {
                layer: Layer::Code,
                range: code[i],
            })
            &&& 0 <= i < chips.len() ==> washes[c + code.len() + i] == (Wash {
                layer: Layer::Chip,
                range: chips[i],
            })
        }),
{
}

/// A line of a fence is painted in layers too: of each annotated slice what is
/// on the line, in its own wash, then of the selection, then the caret.
pub proof fn a_line_is_painted_in_layers(
    slices: Seq<(Span, Annotation)>,
    selected: Option<Span>,
    caret: Option<usize>,
    line: Span,
    n: int,
)
    requires
        0 <= n < slices.len(),
    ensures
        match code::on_line(slices[n].0, line) {
            Some(range) => paint::line_annotations(slices, line, n + 1) == paint::line_annotations(
                slices,
                line,
                n,
            ).push(Wash { layer: Layer::Annotation(slices[n].1), range }),
            None => paint::line_annotations(slices, line, n + 1) == paint::line_annotations(
                slices,
                line,
                n,
            ),
        },
        paint::line_annotations(slices, line, 0).len() == 0,
        ({
            let washes = paint::line_washes(slices, selected, caret, line);
            let a = paint::line_annotations(slices, line, slices.len() as int);
            let shown = match selected {
                Some(range) => code::on_line(range, line),
                None => None,
            };
            let at = code::caret_in_line(caret, line);
            &&& washes.take(a.len() as int) == a
            &&& shown matches Some(range) ==> washes[a.len() as int] == (Wash {
                layer: Layer::Selection,
                range,
            })
            &&& at matches Some(at) ==> washes.last() == (Wash {
                layer: Layer::Caret,
                range: Span { start: at, end: at },
            })
            &&& washes.len() == a.len() + (if shown is Some {
                1int
            } else {
                0
            }) + (if at is Some {
                1int
            } else {
                0
            })
        }),
{
    let washes = paint::line_washes(slices, selected, caret, line);
    let a = paint::line_annotations(slices, line, slices.len() as int);
    assert(washes.take(a.len() as int) =~= a);
}

/// An alert takes the tone of what it warns of.
pub proof fn an_alert_takes_its_own_tone(kind: QuoteKind)
    ensures
        paint::tone_of(kind) == Tone::Accent <==> kind == QuoteKind::Note,
        paint::tone_of(kind) == Tone::Success <==> kind == QuoteKind::Tip,
        paint::tone_of(kind) == Tone::Busy <==> kind == QuoteKind::Important,
        paint::tone_of(kind) == Tone::Warning <==> kind == QuoteKind::Warning,
        paint::tone_of(kind) == Tone::Danger <==> kind == QuoteKind::Caution,
{
}

/// A mark's name or its delimiter is taken by any mark that has either.
pub proof fn a_name_or_a_delimiter_is_taken_once(
    entries: Seq<EntryView>,
    name: Seq<char>,
    delimiter: Seq<char>,
    i: int,
)
    requires
        0 <= i < entries.len(),
    ensures
        marks::taken(entries, entries[i].name, delimiter),
        marks::taken(entries, name, entries[i].delimiter),
        (forall|k: int|
            0 <= k < entries.len() ==> (#[trigger] entries[k]).name != name
                && entries[k].delimiter != delimiter) ==> !marks::taken(entries, name, delimiter),
{
}

/// A longer delimiter is tried before a shorter, and of two as long the one
/// that was added first.
pub proof fn a_longer_delimiter_is_tried_first(entries: Seq<EntryView>, a: int, b: int)
    requires
        0 <= a < entries.len(),
        0 <= b < entries.len(),
        text::byte_len(entries[a].delimiter) <= usize::MAX,
        text::byte_len(entries[b].delimiter) <= usize::MAX,
    ensures
        text::byte_len(entries[a].delimiter) > text::byte_len(entries[b].delimiter)
            ==> marks::tried_before(entries, a, b),
        text::byte_len(entries[a].delimiter) == text::byte_len(entries[b].delimiter) ==> (
        marks::tried_before(entries, a, b) <==> a < b),
        text::byte_len(entries[a].delimiter) < text::byte_len(entries[b].delimiter)
            ==> !marks::tried_before(entries, a, b),
{
    text::a_length_is_that_of_the_encoding(entries[a].delimiter);
    text::a_length_is_that_of_the_encoding(entries[b].delimiter);
}

/// A color is stored under the name it goes by.
pub proof fn a_color_is_stored_under_its_name(color: HighlightColor)
    ensures
        color == HighlightColor::Yellow ==> color.stored() == "yellow"@,
        color == HighlightColor::Green ==> color.stored() == "green"@,
        color == HighlightColor::Blue ==> color.stored() == "blue"@,
        color == HighlightColor::Pink ==> color.stored() == "pink"@,
        color == HighlightColor::Purple ==> color.stored() == "purple"@,
{
}

/// The part of a color that is red, green or blue.
pub open spec fn channels(hex: u32) -> (int, int, int) {
    ((hex / 0x10000) as int, ((hex / 0x100) % 0x100) as int, (hex % 0x100) as int)
}

/// Each color is mostly what it is named for, whatever the look: blue is most
/// in blue and green in green, pink and yellow in red, and purple more in red
/// and in blue than in green. No two are the same, nor one the same in both
/// looks.
pub proof fn a_color_looks_like_its_name(appearance: Appearance, a: HighlightColor, b: HighlightColor)
    ensures
        ({
            let (r, g, b) = channels(HighlightColor::Blue.hex(appearance));
            b == 0xFF && b > g && g > r
        }),
        ({
            let (r, g, b) = channels(HighlightColor::Green.hex(appearance));
            g > r && g > b
        }),
        ({
            let (r, g, b) = channels(HighlightColor::Pink.hex(appearance));
            r == 0xFF && r > b && b > g
        }),
        ({
            let (r, g, b) = channels(HighlightColor::Yellow.hex(appearance));
            r == 0xFF && r > g && g > b
        }),
        ({
            let (r, g, b) = channels(HighlightColor::Purple.hex(appearance));
            b > r && r > g
        }),
        a != b ==> a.hex(appearance) != b.hex(appearance),
        a.hex(Appearance::Dark) != a.hex(Appearance::Light),
{
}

/// What a selection covers of a text is some of it, and inside it.
pub proof fn what_is_covered_is_some_of_the_text(frames: Frames, i: int, selection: Selection)
    requires
        frames.texts[i].range.start <= frames.texts[i].range.end,
    ensures
        frames.covered(i, selection) matches Some(span) ==> span.start < span.end && span.end
            <= frames.texts[i].range.end - frames.texts[i].range.start,
{
}

/// In the dark each color is brighter: no part of it is weaker than in the
/// light, and one is stronger. Each is the system's own.
pub proof fn colors_are_brighter_in_the_dark(color: HighlightColor)
    ensures
        ({
            let (r, g, b) = channels(color.hex(Appearance::Light));
            let (dr, dg, db) = channels(color.hex(Appearance::Dark));
            &&& r <= dr <= 255 && g <= dg <= 255 && b <= db <= 255
            &&& r + g + b < dr + dg + db
            &&& color == HighlightColor::Yellow ==> (r, g, b) == (255int, 204int, 0int) && (
            dr,
            dg,
            db,
            ) == (255int, 214int, 10int)
            &&& color == HighlightColor::Green ==> (r, g, b) == (40int, 205int, 65int) && (
            dr,
            dg,
            db,
            ) == (50int, 215int, 75int)
            &&& color == HighlightColor::Blue ==> (r, g, b) == (0int, 122int, 255int) && (
            dr,
            dg,
            db,
            ) == (10int, 132int, 255int)
            &&& color == HighlightColor::Pink ==> (r, g, b) == (255int, 45int, 85int) && (
            dr,
            dg,
            db,
            ) == (255int, 55int, 95int)
            &&& color == HighlightColor::Purple ==> (r, g, b) == (175int, 82int, 222int) && (
            dr,
            dg,
            db,
            ) == (191int, 90int, 242int)
        }),
{
}

/// A press is on what it is in, and on the first where it is in several. One
/// that is in nothing is on the nearest, and on the first where several are as
/// near. So there is one answer.
pub proof fn a_press_is_on_what_it_is_in_or_near(
    under: Seq<bool>,
    away: Seq<i64>,
    found: int,
    other: int,
)
    requires
        under.len() == away.len(),
        layout::pointed_at(under, away, under.len() as int, Some(found)),
        0 <= other < under.len(),
    ensures
        0 <= found < under.len(),
        under[other] ==> under[found] && found <= other,
        !under[found] ==> !under[other] && away[found] <= away[other],
        !under[found] && other < found ==> away[found] < away[other],
        layout::pointed_at(under, away, under.len() as int, Some(other)) ==> other == found,
        !layout::pointed_at(under, away, under.len() as int, None),
{
    let n = under.len() as int;
    let inside = |i: int| 0 <= i < n && i < under.len() && under[i];
    assert(inside(other) == under[other]);
    assert(inside(found) == (0 <= found < n && under[found]));
    assert(layout::distance(away, other) == away[other]);
    assert(layout::distance(away, found) == away[found]);
}

} // verus!
