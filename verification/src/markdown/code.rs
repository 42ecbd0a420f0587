//! The lines of a fence: the bytes each covers, what they are coloured by, and
//! what of the caret and the selection is on each.

use vstd::prelude::*;

use crate::markdown::doc::Span;
use crate::text;
use crate::text::{char_width, chars_of};

verus! {

/// A stretch of a line in one colour: that of a kind of token, by the number
/// the host knows it by, or the text's own.
#[derive(Clone, Copy, Debug, PartialEq, Eq)]
pub struct CodeRun {
    pub len: usize,
    pub kind: Option<u32>,
}

/// Bytes of the code that are a kind of token.
#[derive(Clone, Copy, Debug, PartialEq, Eq)]
pub struct Token {
    pub range: Span,
    pub kind: u32,
}

/// The bytes of each line of the first `n` characters, a newline being of
/// neither line it parts.
pub open spec fn split(code: Seq<char>, n: int) -> Seq<Span>
    decreases n,
{
    if n <= 0 {
        seq![Span { start: 0, end: 0 }]
    } else {
        let before = split(code, n - 1);
        let at = text::byte_at(code, n) as usize;
        if code[n - 1] == '\n' {
            before.push(Span { start: at, end: at })
        } else {
            before.update(before.len() - 1, Span { start: before.last().start, end: at })
        }
    }
}

/// The bytes of each line of some code.
pub fn code_lines(code: &str) -> (lines: Vec<Span>)
    ensures
        lines@ == split(code@, code@.len() as int),
        lines@.len() > 0,
{
    let chars = chars_of(code);
    let mut lines: Vec<Span> = Vec::new();
    lines.push(Span { start: 0, end: 0 });
    assert(lines@ =~= split(code@, 0));
    let mut at: usize = 0;
    let mut n: usize = 0;
    while n < chars.len()
        invariant
            n <= chars@.len(),
            chars@ == code@,
            text::byte_len(code@) <= usize::MAX,
            at == text::byte_at(code@, n as int),
            lines@.len() > 0,
            lines@ == split(code@, n as int),
        decreases chars@.len() - n,
    {
        proof {
            text::lemma_byte_at_step(code@, n as int);
            text::lemma_byte_at_order(code@, n + 1, code@.len() as int);
            text::lemma_byte_at_end(code@);
        }
        at = at + char_width(chars[n]);
        if chars[n] == '\n' {
            lines.push(Span { start: at, end: at });
        } else {
            let last = lines.len() - 1;
            let start = lines[last].start;
            lines.set(last, Span { start, end: at });
        }
        n = n + 1;
    }
    lines
}

/// Whether `lines` are those of a text of `len` bytes: from its start to its
/// end, one byte — the newline — between each and the next.
pub open spec fn tiled(lines: Seq<Span>, len: int) -> bool {
    &&& lines.len() > 0
    &&& lines[0].start == 0
    &&& lines.last().end == len
    &&& forall|i: int| 0 <= i < lines.len() ==> (#[trigger] lines[i]).start <= lines[i].end
    &&& forall|i: int, j: int|
        0 <= i < j < lines.len() ==> (#[trigger] lines[i]).end < (#[trigger] lines[j]).start
    &&& forall|i: int, j: int|
        0 <= i && j == i + 1 && j < lines.len() ==> (#[trigger] lines[i]).end + 1 == (
        #[trigger] lines[j]).start
}

/// The lines of some code cover it, each newline parting two of them.
pub proof fn lines_cover_the_code(code: Seq<char>, n: int)
    requires
        0 <= n <= code.len(),
        text::byte_len(code) <= usize::MAX,
    ensures
        tiled(split(code, n), text::byte_at(code, n) as int),
    decreases n,
{
    text::lemma_byte_at_order(code, n, code.len() as int);
    text::lemma_byte_at_end(code);
    if n > 0 {
        lines_cover_the_code(code, n - 1);
        text::lemma_byte_at_step(code, n - 1);
        let before = split(code, n - 1);
        let lines = split(code, n);
        let k = before.len() as int;
        if code[n - 1] == '\n' {
            assert(text::width('\n') == 1);
            assert forall|i: int, j: int| 0 <= i < j < lines.len() implies (
            #[trigger] lines[i]).end < (#[trigger] lines[j]).start by {
                if j == k {
                    assert(before[i].end <= before[k - 1].end) by {
                        if i < k - 1 {
                            assert(before[i].end < before[k - 1].start);
                        }
                    }
                }
            }
        } else {
            assert(forall|i: int| 0 <= i < k - 1 ==> #[trigger] lines[i] == before[i]);
        }
    } else {
        assert(text::byte_at(code, 0) == 0) by {
            assert(code.take(0).len() == 0);
        }
    }
}

/// What of a range is on a line, in bytes of the line.
pub open spec fn on_line(range: Span, line: Span) -> Option<Span> {
    let from = if range.start >= line.start {
        range.start
    } else {
        line.start
    };
    let to = if range.end <= line.end {
        range.end
    } else {
        line.end
    };
    if from < to {
        Some(Span { start: (from - line.start) as usize, end: (to - line.start) as usize })
    } else {
        None
    }
}

/// What of a range is on a line, in bytes of the line.
pub fn line_slice(range: Span, line: Span) -> (slice: Option<Span>)
    ensures
        slice == on_line(range, line),
{
    let from = if range.start >= line.start {
        range.start
    } else {
        line.start
    };
    let to = if range.end <= line.end {
        range.end
    } else {
        line.end
    };
    if from < to {
        Some(Span { start: from - line.start, end: to - line.start })
    } else {
        None
    }
}

/// What is on a line of a range is the range: a byte of the line is in the
/// slice exactly when it is in the range.
pub proof fn a_slice_of_a_line_is_what_is_covered(range: Span, line: Span, at: int)
    requires
        line.has(at),
    ensures
        (on_line(range, line) matches Some(slice) && slice.has(at - line.start)) <==> range.has(at),
{
}

/// The byte of a line the caret is at, where it is on the line. Past the last
/// character of a line is still on it.
pub open spec fn caret_in_line(caret: Option<usize>, line: Span) -> Option<usize> {
    match caret {
        Some(at) => if line.start <= at <= line.end {
            Some((at - line.start) as usize)
        } else {
            None
        },
        None => None,
    }
}

/// The byte of a line the caret is at, where it is on the line.
pub fn line_caret(caret: Option<usize>, line: Span) -> (at: Option<usize>)
    requires
        line.start <= line.end,
    ensures
        at == caret_in_line(caret, line),
{
    match caret {
        Some(at) => if line.start <= at && at <= line.end {
            Some(at - line.start)
        } else {
            None
        },
        None => None,
    }
}

/// A caret in the code is on one line of it, and on no other.
pub proof fn a_caret_is_on_one_line(lines: Seq<Span>, len: int, at: usize) -> (line: int)
    requires
        tiled(lines, len),
        at <= len,
    ensures
        0 <= line < lines.len(),
        forall|i: int|
            0 <= i < lines.len() ==> (caret_in_line(Some(at), #[trigger] lines[i]) is Some <==> i
                == line),
{
    let line = holding(lines, at, lines.len() as int);
    line
}

/// The last of the first `n` lines that starts no later than `at`.
proof fn holding(lines: Seq<Span>, at: usize, n: int) -> (line: int)
    requires
        0 < n <= lines.len(),
        tiled(lines, lines.last().end as int),
        n < lines.len() ==> at < lines[n].start,
        at <= lines.last().end,
    ensures
        0 <= line < lines.len(),
        forall|i: int|
            0 <= i < lines.len() ==> (caret_in_line(Some(at), #[trigger] lines[i]) is Some <==> i
                == line),
    decreases n,
{
    if lines[n - 1].start <= at {
        assert(at <= lines[n - 1].end) by {
            if n < lines.len() {
                assert(lines[n - 1].end + 1 == lines[n].start);
            }
        }
        assert forall|i: int| 0 <= i < lines.len() implies (caret_in_line(
            Some(at),
            #[trigger] lines[i],
        ) is Some <==> i == n - 1) by {
            if i < n - 1 {
                assert(lines[i].end < lines[n - 1].start);
            }
            if i > n - 1 {
                assert(lines[n - 1].end < lines[i].start);
            }
        }
        n - 1
    } else {
        holding(lines, at, n - 1)
    }
}

/// The runs of a line of `len` bytes from byte `start` of the code, after the
/// first `n` tokens, and the byte of the line they reach.
pub open spec fn lit(tokens: Seq<Token>, start: int, len: int, n: int) -> (Seq<CodeRun>, int)
    decreases n,
{
    if n <= 0 {
        (Seq::empty(), 0)
    } else {
        let (runs, pos) = lit(tokens, start, len, n - 1);
        let token = tokens[n - 1];
        if token.range.end > start && token.range.start < start + len {
            let s = if token.range.start < start {
                0
            } else {
                token.range.start - start
            };
            let e = if token.range.end < start + len {
                token.range.end - start
            } else {
                len
            };
            let plain = if s > pos {
                runs.push(CodeRun { len: (s - pos) as usize, kind: None })
            } else {
                runs
            };
            (plain.push(CodeRun { len: (e - s) as usize, kind: Some(token.kind) }), e)
        } else {
            (runs, pos)
        }
    }
}

/// The runs of a line: its tokens, and the text's own colour between them.
pub open spec fn runs_of(tokens: Seq<Token>, start: int, len: int) -> Seq<CodeRun> {
    let (runs, pos) = lit(tokens, start, len, tokens.len() as int);
    if pos < len {
        runs.push(CodeRun { len: (len - pos) as usize, kind: None })
    } else if runs.len() == 0 {
        seq![CodeRun { len: 0, kind: None }]
    } else {
        runs
    }
}

/// The runs of a line. Runs are measured within the line; tokens are byte
/// ranges over the whole block, so every token is clipped to the line and
/// rebased.
pub fn line_runs(tokens: &Vec<Token>, line: Span) -> (runs: Vec<CodeRun>)
    requires
        line.start <= line.end,
        forall|i: int|
            0 <= i < tokens@.len() ==> (#[trigger] tokens@[i]).range.start <= tokens@[i].range.end,
    ensures
        runs@ == runs_of(tokens@, line.start as int, line.end - line.start),
{
    let (start, end) = (line.start, line.end);
    let len = end - start;
    let mut runs: Vec<CodeRun> = Vec::new();
    let mut pos: usize = 0;
    let mut n: usize = 0;
    while n < tokens.len()
        invariant
            start <= end,
            len == end - start,
            n <= tokens@.len(),
            forall|i: int|
                0 <= i < tokens@.len() ==> (#[trigger] tokens@[i]).range.start
                    <= tokens@[i].range.end,
            pos <= len,
            (runs@, pos as int) == lit(tokens@, start as int, len as int, n as int),
        decreases tokens@.len() - n,
    {
        let token = tokens[n];
        assert(token.range.start <= token.range.end) by {
            assert(tokens@[n as int].range.start <= tokens@[n as int].range.end);
        }
        if token.range.end > start && token.range.start < end {
            let s = if token.range.start < start {
                0
            } else {
                token.range.start - start
            };
            let e = if token.range.end < end {
                token.range.end - start
            } else {
                len
            };
            if s > pos {
                runs.push(CodeRun { len: s - pos, kind: None });
            }
            runs.push(CodeRun { len: e - s, kind: Some(token.kind) });
            pos = e;
        }
        n = n + 1;
    }
    if pos < len {
        runs.push(CodeRun { len: len - pos, kind: None });
    }
    if runs.len() == 0 {
        runs.push(CodeRun { len: 0, kind: None });
        assert(runs@ =~= seq![CodeRun { len: 0, kind: None }]);
    }
    runs
}

/// How many bytes the first `n` runs take.
pub open spec fn run_len(runs: Seq<CodeRun>, n: int) -> int
    decreases n,
{
    if n <= 0 {
        0
    } else {
        run_len(runs, n - 1) + runs[n - 1].len
    }
}

/// The tokens of some code come in order, and none reaches into the next.
pub open spec fn apart(tokens: Seq<Token>) -> bool {
    &&& forall|i: int|
        0 <= i < tokens.len() ==> (#[trigger] tokens[i]).range.start <= tokens[i].range.end
    &&& forall|i: int, j: int|
        0 <= i < j < tokens.len() ==> (#[trigger] tokens[i]).range.end <= (
        #[trigger] tokens[j]).range.start
}

proof fn lemma_run_len_push(runs: Seq<CodeRun>, run: CodeRun, n: int)
    requires
        0 <= n <= runs.len(),
    ensures
        run_len(runs.push(run), n) == run_len(runs, n),
        n == runs.len() ==> run_len(runs.push(run), n + 1) == run_len(runs, n) + run.len,
    decreases n,
{
    if n > 0 {
        lemma_run_len_push(runs, run, n - 1);
        assert(runs.push(run)[n - 1] == runs[n - 1]);
    }
    if n == runs.len() {
        assert(runs.push(run)[n] == run);
    }
}

proof fn lemma_lit_reaches(tokens: Seq<Token>, start: int, len: int, n: int)
    requires
        apart(tokens),
        0 <= start,
        0 <= len,
        start + len <= usize::MAX,
        0 <= n <= tokens.len(),
    ensures
        ({
            let (runs, pos) = lit(tokens, start, len, n);
            &&& 0 <= pos <= len
            &&& run_len(runs, runs.len() as int) == pos
            &&& pos > 0 ==> exists|i: int|
                0 <= i < n && pos <= (#[trigger] tokens[i]).range.end - start
        }),
    decreases n,
{
    if n > 0 {
        lemma_lit_reaches(tokens, start, len, n - 1);
        let (runs, pos) = lit(tokens, start, len, n - 1);
        let token = tokens[n - 1];
        if token.range.end > start && token.range.start < start + len {
            let s = if token.range.start < start {
                0
            } else {
                token.range.start - start
            };
            let e = if token.range.end < start + len {
                token.range.end - start
            } else {
                len
            };
            if pos > 0 {
                let i = choose|i: int|
                    0 <= i < n - 1 && pos <= (#[trigger] tokens[i]).range.end - start;
                assert(tokens[i].range.end <= tokens[n - 1].range.start);
            }
            assert(pos <= s);
            let run = CodeRun { len: (e - s) as usize, kind: Some(token.kind) };
            if s > pos {
                let gap = CodeRun { len: (s - pos) as usize, kind: None };
                lemma_run_len_push(runs, gap, runs.len() as int);
                lemma_run_len_push(runs.push(gap), run, runs.len() as int + 1);
            } else {
                lemma_run_len_push(runs, run, runs.len() as int);
            }
            assert(e <= tokens[n - 1].range.end - start);
        }
    }
}

/// Highlighting recolors and moves nothing: the runs of a line take just the
/// line's bytes.
pub proof fn highlighting_moves_nothing(tokens: Seq<Token>, start: int, len: int)
    requires
        apart(tokens),
        0 <= start,
        0 <= len,
        start + len <= usize::MAX,
    ensures
        run_len(runs_of(tokens, start, len), runs_of(tokens, start, len).len() as int) == len,
{
    let n = tokens.len() as int;
    lemma_lit_reaches(tokens, start, len, n);
    let (runs, pos) = lit(tokens, start, len, n);
    if pos < len {
        lemma_run_len_push(
            runs,
            CodeRun { len: (len - pos) as usize, kind: None },
            runs.len() as int,
        );
    } else if runs.len() == 0 {
        let one = seq![CodeRun { len: 0, kind: None }];
        assert(run_len(one, 1) == run_len(one, 0) + 0);
    }
}

/// How many digits a number is written in.
pub open spec fn digits(n: nat) -> nat
    decreases n,
{
    if n < 10 {
        1
    } else {
        1 + digits(n / 10)
    }
}

/// How many digits wide a source view's gutter is: those of its last line's
/// number, and no fewer than the style asks for.
pub fn gutter_digits(lines: usize, least: usize) -> (width: usize)
    ensures
        width == (if digits(lines as nat) >= least {
            digits(lines as nat) as int
        } else {
            least as int
        }),
{
    let mut width: usize = 1;
    let mut rest = lines;
    while rest >= 10
        invariant
            width + digits(rest as nat) == digits(lines as nat) + 1,
            width + rest <= lines + 1 || width == 1,
            rest <= lines,
            width >= 1,
        decreases rest,
    {
        assert(width + 1 + rest / 10 <= lines + 1) by {
            assert(rest / 10 + 1 <= rest);
        }
        rest = rest / 10;
        width = width + 1;
    }
    if width >= least {
        width
    } else {
        least
    }
}

} // verus!
