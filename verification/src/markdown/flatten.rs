//! Inline content flattened for shaping: marks are ranges, a shaper wants
//! consecutive runs — so the text is cut at every mark boundary and each piece
//! asked which marks cover it.

use vstd::prelude::*;

use crate::markdown::doc::{Mark, MarkSpan, Span, Text};
use crate::text;
use crate::text::same_text;

verus! {

/// The weight bold text takes, unless it is already that heavy.
pub const SEMIBOLD: u32 = 600;

/// How a custom mark paints. A colour is a number the host knows it by.
#[derive(Clone, Copy, Debug, PartialEq, Eq)]
pub struct MarkPaint {
    pub color: Option<u32>,
    pub background: Option<u32>,
    pub weight: Option<u32>,
    pub italic: bool,
    pub underline: bool,
    pub strikethrough: bool,
}

impl Default for MarkPaint {
    fn default() -> (paint: MarkPaint)
        ensures
            paint == MarkPaint::plain(),
    {
        MarkPaint {
            color: None,
            background: None,
            weight: None,
            italic: false,
            underline: false,
            strikethrough: false,
        }
    }
}

/// The later of two answers, where it is one.
pub open spec fn later(now: Option<u32>, before: Option<u32>) -> Option<u32> {
    match now {
        Some(now) => Some(now),
        None => before,
    }
}

impl MarkPaint {
    /// A paint that says nothing.
    pub open spec fn plain() -> MarkPaint {
        MarkPaint {
            color: None,
            background: None,
            weight: None,
            italic: false,
            underline: false,
            strikethrough: false,
        }
    }

    /// Two paints over one text: the last one to say something about a field
    /// is the one that says it.
    pub open spec fn under(self, over: MarkPaint) -> MarkPaint {
        MarkPaint {
            color: later(over.color, self.color),
            background: later(over.background, self.background),
            weight: later(over.weight, self.weight),
            italic: self.italic || over.italic,
            underline: self.underline || over.underline,
            strikethrough: self.strikethrough || over.strikethrough,
        }
    }
}

/// The colour of a run's glyphs.
#[derive(Clone, Copy, Debug, PartialEq, Eq)]
pub enum Ink {
    /// The text's own.
    Text,
    /// That of code.
    Code,
    /// A mark's, by the number the host knows it by.
    Custom(u32),
}

/// How a run is set.
#[derive(Clone, Copy, Debug, PartialEq, Eq)]
pub struct Face {
    pub mono: bool,
    pub weight: u32,
    pub italic: bool,
    pub ink: Ink,
    pub background: Option<u32>,
    pub underline: bool,
    pub strikethrough: bool,
}

/// A stretch of text set one way.
#[derive(Clone, Copy, Debug, PartialEq, Eq)]
pub struct Run {
    pub len: usize,
    pub face: Face,
}

/// Inline content flattened for shaping: its runs, and the ranges that need
/// painting underneath (link clicks, inline-code washes, chips).
#[derive(Clone, Debug, PartialEq, Eq)]
pub struct Flat {
    pub text: String,
    pub runs: Vec<Run>,
    pub links: Vec<(Span, String)>,
    pub code: Vec<Span>,
    pub chips: Vec<Span>,
}

/// Where a mark leads, if it does.
pub open spec fn url_of(mark: Mark) -> Option<Seq<char>> {
    match mark {
        Mark::Mention { url, .. } => Some(url@),
        Mark::Link(url) => Some(url@),
        Mark::Image(url) => Some(url@),
        _ => None,
    }
}

/// What the marks over a byte make of it.
#[verifier::ext_equal]
pub struct Look {
    pub bold: bool,
    pub italic: bool,
    pub strike: bool,
    pub mono: bool,
    pub chip: bool,
    pub link: Option<Seq<char>>,
    pub custom: MarkPaint,
}

impl Look {
    /// A byte no mark covers.
    pub open spec fn plain() -> Look {
        Look {
            bold: false,
            italic: false,
            strike: false,
            mono: false,
            chip: false,
            link: None,
            custom: MarkPaint::plain(),
        }
    }

    /// One more mark over it, `paint` being how it paints where it is custom.
    pub open spec fn over(self, mark: Mark, paint: Option<MarkPaint>) -> Look {
        match mark {
            Mark::Bold => Look { bold: true, ..self },
            Mark::Italic => Look { italic: true, ..self },
            Mark::Strike => Look { strike: true, ..self },
            Mark::Code => Look { mono: true, ..self },
            Mark::Mention { url, .. } => Look { chip: true, link: Some(url@), ..self },
            Mark::Link(url) => Look { link: Some(url@), ..self },
            Mark::Image(url) => Look { link: Some(url@), ..self },
            Mark::Custom(_) => match paint {
                Some(paint) => Look { custom: self.custom.under(paint), ..self },
                None => self,
            },
        }
    }

    /// How the byte is set, in text of weight `base`. Links stay monochrome
    /// and underlined. A chip carries its own wash, so underlining it too
    /// would say the same thing twice.
    pub open spec fn face(self, base: u32) -> Face {
        Face {
            mono: self.mono,
            weight: if self.bold && base < SEMIBOLD {
                SEMIBOLD
            } else {
                match self.custom.weight {
                    Some(weight) => weight,
                    None => base,
                }
            },
            italic: self.italic || self.custom.italic,
            ink: match self.custom.color {
                Some(color) => Ink::Custom(color),
                None => if self.mono {
                    Ink::Code
                } else {
                    Ink::Text
                },
            },
            background: self.custom.background,
            underline: (self.link is Some && !self.chip) || self.custom.underline,
            strikethrough: self.strike || self.custom.strikethrough,
        }
    }
}

/// How the mark at `i` paints, where it is custom and the app paints it.
pub open spec fn paint_at(paints: Seq<Option<MarkPaint>>, i: int) -> Option<MarkPaint> {
    if 0 <= i < paints.len() {
        paints[i]
    } else {
        None
    }
}

/// What the first `n` marks make of byte `at`.
pub open spec fn look_at(
    marks: Seq<MarkSpan>,
    paints: Seq<Option<MarkPaint>>,
    n: int,
    at: int,
) -> Look
    decreases n,
{
    if n <= 0 {
        Look::plain()
    } else {
        let before = look_at(marks, paints, n - 1, at);
        if marks[n - 1].range.has(at) {
            before.over(marks[n - 1].mark, paint_at(paints, n - 1))
        } else {
            before
        }
    }
}

/// What the marks make of byte `at`.
pub open spec fn look(marks: Seq<MarkSpan>, paints: Seq<Option<MarkPaint>>, at: int) -> Look {
    look_at(marks, paints, marks.len() as int, at)
}

/// Whether a text of `len` bytes is cut at `at`: at its ends, and where a mark
/// starts or ends.
pub open spec fn is_cut(marks: Seq<MarkSpan>, len: int, at: int) -> bool {
    0 <= at <= len && (at == 0 || at == len || exists|i: int|
        0 <= i < marks.len() && ((#[trigger] marks[i]).range.start == at || marks[i].range.end
            == at))
}

/// The byte run `k` starts at.
pub open spec fn run_start(runs: Seq<Run>, k: int) -> int
    decreases k,
{
    if k <= 0 {
        0
    } else {
        run_start(runs, k - 1) + runs[k - 1].len
    }
}

/// Whether `runs` are the first `to` bytes, cut where they are to be and set
/// as the marks say.
pub open spec fn runs_to(
    runs: Seq<Run>,
    marks: Seq<MarkSpan>,
    paints: Seq<Option<MarkPaint>>,
    base: u32,
    len: int,
    to: int,
) -> bool {
    &&& run_start(runs, runs.len() as int) == to
    &&& forall|k: int| 0 <= k < runs.len() ==> (#[trigger] runs[k]).len > 0
    &&& forall|k: int| 0 <= k <= runs.len() ==> is_cut(marks, len, #[trigger] run_start(runs, k))
    &&& forall|at: int|
        0 <= at <= to && #[trigger] is_cut(marks, len, at) ==> exists|k: int|
            0 <= k <= runs.len() && #[trigger] run_start(runs, k) == at
    &&& forall|k: int, at: int|
        #![trigger runs[k], look(marks, paints, at)]
        0 <= k < runs.len() && run_start(runs, k) <= at < run_start(runs, k + 1) ==> runs[k].face
            == look(marks, paints, at).face(base)
}

/// Whether `spans` are the stretches of the first `to` bytes that `in_it`
/// holds of: each as long as it can be, in order.
pub open spec fn stretches(spans: Seq<Span>, in_it: spec_fn(int) -> bool, to: int) -> bool {
    &&& forall|i: int|
        0 <= i < spans.len() ==> (#[trigger] spans[i]).start < spans[i].end && spans[i].end <= to
    &&& forall|i: int, j: int|
        0 <= i < j < spans.len() ==> (#[trigger] spans[i]).end < (#[trigger] spans[j]).start
    &&& forall|i: int, at: int|
        #![trigger spans[i], in_it(at)]
        0 <= i < spans.len() && spans[i].has(at) ==> in_it(at)
    &&& forall|at: int|
        0 <= at < to && #[trigger] in_it(at) ==> exists|i: int|
            0 <= i < spans.len() && (#[trigger] spans[i]).has(at)
}

/// Whether `links` are the stretches of the first `to` bytes that lead
/// somewhere, each to one place and as long as it can be, in order.
pub open spec fn links_to(
    links: Seq<(Span, String)>,
    marks: Seq<MarkSpan>,
    paints: Seq<Option<MarkPaint>>,
    to: int,
) -> bool {
    &&& forall|i: int|
        0 <= i < links.len() ==> (#[trigger] links[i]).0.start < links[i].0.end && links[i].0.end
            <= to
    &&& forall|i: int, j: int|
        0 <= i < j < links.len() ==> (#[trigger] links[i]).0.end <= (#[trigger] links[j]).0.start
    &&& forall|i: int, j: int|
        0 <= i < j < links.len() && j == i + 1 && (#[trigger] links[i]).0.end == (
        #[trigger] links[j]).0.start ==> links[i].1@ != links[j].1@
    &&& forall|i: int, at: int|
        #![trigger links[i], look(marks, paints, at)]
        0 <= i < links.len() && links[i].0.has(at) ==> look(marks, paints, at).link == Some(
            links[i].1@,
        )
    &&& forall|at: int|
        0 <= at < to && #[trigger] look(marks, paints, at).link is Some ==> exists|i: int|
            0 <= i < links.len() && (#[trigger] links[i]).0.has(at)
}

/// What the marks over a stretch make of it, the link by the mark it is of.
struct Seen {
    bold: bool,
    italic: bool,
    strike: bool,
    mono: bool,
    chip: bool,
    link: Option<usize>,
    custom: MarkPaint,
}

impl Seen {
    spec fn wf(&self, marks: Seq<MarkSpan>) -> bool {
        self.link matches Some(i) ==> i < marks.len() && url_of(marks[i as int].mark) is Some
    }

    spec fn look(&self, marks: Seq<MarkSpan>) -> Look {
        Look {
            bold: self.bold,
            italic: self.italic,
            strike: self.strike,
            mono: self.mono,
            chip: self.chip,
            link: match self.link {
                Some(i) => url_of(marks[i as int].mark),
                None => None,
            },
            custom: self.custom,
        }
    }

    fn face(&self, base: u32, Ghost(marks): Ghost<Seq<MarkSpan>>) -> (face: Face)
        requires
            self.wf(marks),
        ensures
            face == self.look(marks).face(base),
    {
        Face {
            mono: self.mono,
            weight: if self.bold && base < SEMIBOLD {
                SEMIBOLD
            } else {
                match self.custom.weight {
                    Some(weight) => weight,
                    None => base,
                }
            },
            italic: self.italic || self.custom.italic,
            ink: match self.custom.color {
                Some(color) => Ink::Custom(color),
                None => if self.mono {
                    Ink::Code
                } else {
                    Ink::Text
                },
            },
            background: self.custom.background,
            underline: (self.link.is_some() && !self.chip) || self.custom.underline,
            strikethrough: self.strike || self.custom.strikethrough,
        }
    }
}

/// The later of two answers, where it is one.
fn or(now: Option<u32>, before: Option<u32>) -> (answer: Option<u32>)
    ensures
        answer == later(now, before),
{
    match now {
        Some(now) => Some(now),
        None => before,
    }
}

/// What the marks over the bytes from `start` to `end` make of them.
fn see(
    marks: &Vec<MarkSpan>,
    paints: &Vec<Option<MarkPaint>>,
    start: usize,
    end: usize,
) -> (seen: Seen)
    requires
        start < end,
        forall|i: int|
            0 <= i < marks@.len() ==> !(start < (#[trigger] marks@[i]).range.start < end) && !(start
                < marks@[i].range.end < end),
    ensures
        seen.wf(marks@),
        forall|at: int|
            start <= at < end ==> #[trigger] look(marks@, paints@, at) == seen.look(marks@),
{
    let mut seen = Seen {
        bold: false,
        italic: false,
        strike: false,
        mono: false,
        chip: false,
        link: None,
        custom: MarkPaint::default(),
    };
    let mut i: usize = 0;
    while i < marks.len()
        invariant
            start < end,
            forall|i: int|
                0 <= i < marks@.len() ==> !(start < (#[trigger] marks@[i]).range.start < end) && !(
                start < marks@[i].range.end < end),
            i <= marks@.len(),
            seen.wf(marks@),
            forall|at: int|
                start <= at < end ==> #[trigger] look_at(marks@, paints@, i as int, at)
                    == seen.look(marks@),
        decreases marks@.len() - i,
    {
        let span = &marks[i];
        let ghost before = seen.look(marks@);
        let paint = if i < paints.len() {
            paints[i]
        } else {
            None
        };
        if span.range.start <= start && span.range.end >= end {
            match &span.mark {
                Mark::Bold => {
                    seen.bold = true;
                },
                Mark::Italic => {
                    seen.italic = true;
                },
                Mark::Strike => {
                    seen.strike = true;
                },
                Mark::Code => {
                    seen.mono = true;
                },
                Mark::Mention { .. } => {
                    seen.chip = true;
                    seen.link = Some(i);
                },
                Mark::Link(_) => {
                    seen.link = Some(i);
                },
                Mark::Image(_) => {
                    seen.link = Some(i);
                },
                Mark::Custom(_) => {
                    // The app's own marks, merged in the order they cover this
                    // run: the last one to say something about a field is the
                    // one that says it.
                    if let Some(painted) = paint {
                        seen.custom =
                        MarkPaint {
                            color: or(painted.color, seen.custom.color),
                            background: or(painted.background, seen.custom.background),
                            weight: or(painted.weight, seen.custom.weight),
                            italic: seen.custom.italic || painted.italic,
                            underline: seen.custom.underline || painted.underline,
                            strikethrough: seen.custom.strikethrough || painted.strikethrough,
                        };
                    }
                },
            }
            assert(seen.look(marks@) =~= before.over(span.mark, paint_at(paints@, i as int)));
        }
        proof {
            assert forall|at: int| start <= at < end implies #[trigger] look_at(
                marks@,
                paints@,
                i + 1,
                at,
            ) == seen.look(marks@) by {
                assert(look_at(marks@, paints@, i as int, at) == before);
            }
        }
        i = i + 1;
    }
    seen
}

/// The next place a text of `len` bytes is cut after `at`.
fn next_cut(marks: &Vec<MarkSpan>, len: usize, at: usize) -> (cut: usize)
    requires
        at < len,
    ensures
        at < cut <= len,
        is_cut(marks@, len as int, cut as int),
        forall|other: int| at < other < cut ==> !#[trigger] is_cut(marks@, len as int, other),
        forall|i: int|
            0 <= i < marks@.len() ==> !(at < (#[trigger] marks@[i]).range.start < cut) && !(at
                < marks@[i].range.end < cut),
{
    let mut cut: usize = len;
    let mut i: usize = 0;
    while i < marks.len()
        invariant
            at < cut <= len,
            i <= marks@.len(),
            is_cut(marks@, len as int, cut as int),
            forall|j: int|
                0 <= j < i ==> !(at < (#[trigger] marks@[j]).range.start < cut) && !(at
                    < marks@[j].range.end < cut),
        decreases marks@.len() - i,
    {
        let range = marks[i].range;
        if at < range.start && range.start < cut {
            cut = range.start;
            assert(marks@[i as int].range.start == cut);
        }
        if at < range.end && range.end < cut {
            cut = range.end;
            assert(marks@[i as int].range.end == cut);
        }
        i = i + 1;
    }
    cut
}

/// Where a mark leads.
fn url<'a>(mark: &'a Mark) -> (url: Option<&'a String>)
    ensures
        url is Some <==> url_of(*mark) is Some,
        url matches Some(url) ==> url@ == url_of(*mark)->0,
{
    match mark {
        Mark::Mention { url, .. } => Some(url),
        Mark::Link(url) => Some(url),
        Mark::Image(url) => Some(url),
        _ => None,
    }
}

/// Adds the stretch from `start` to `end`, grown onto the last where they
/// touch.
fn extend(spans: &mut Vec<Span>, start: usize, end: usize, Ghost(in_it): Ghost<spec_fn(int) -> bool>)
    requires
        start < end,
        stretches(old(spans)@, in_it, start as int),
        forall|at: int| start <= at < end ==> #[trigger] in_it(at),
    ensures
        stretches(final(spans)@, in_it, end as int),
{
    let n = spans.len();
    let ghost before = spans@;
    if n > 0 && spans[n - 1].end == start {
        let grown = Span { start: spans[n - 1].start, end };
        spans.set(n - 1, grown);
        proof {
            assert forall|at: int| 0 <= at < end && #[trigger] in_it(at) implies exists|i: int|
                0 <= i < spans@.len() && (#[trigger] spans@[i]).has(at) by {
                if at < start {
                    let i = choose|i: int| 0 <= i < before.len() && (#[trigger] before[i]).has(at);
                    assert(spans@[i].has(at));
                } else {
                    assert(spans@[n - 1].has(at));
                }
            }
        }
    } else {
        spans.push(Span { start, end });
        proof {
            assert forall|i: int, j: int| 0 <= i < j < spans@.len() implies (
            #[trigger] spans@[i]).end < (#[trigger] spans@[j]).start by {
                if j == n {
                    assert(before[n - 1].end <= start);
                    assert(i < n - 1 ==> before[i].end < before[n - 1].start);
                }
            }
            assert forall|at: int| 0 <= at < end && #[trigger] in_it(at) implies exists|i: int|
                0 <= i < spans@.len() && (#[trigger] spans@[i]).has(at) by {
                if at < start {
                    let i = choose|i: int| 0 <= i < before.len() && (#[trigger] before[i]).has(at);
                    assert(spans@[i].has(at));
                } else {
                    assert(spans@[n as int].has(at));
                }
            }
        }
    }
}

/// Adds the stretch from `start` to `end`, which leads to `url`, grown onto
/// the last where they touch and lead to one place.
fn extend_link(
    links: &mut Vec<(Span, String)>,
    start: usize,
    end: usize,
    url: &String,
    Ghost(marks): Ghost<Seq<MarkSpan>>,
    Ghost(paints): Ghost<Seq<Option<MarkPaint>>>,
)
    requires
        start < end,
        links_to(old(links)@, marks, paints, start as int),
        forall|at: int|
            start <= at < end ==> #[trigger] look(marks, paints, at).link == Some(url@),
    ensures
        links_to(final(links)@, marks, paints, end as int),
{
    let n = links.len();
    let ghost before = links@;
    if n > 0 && links[n - 1].0.end == start && same_text(links[n - 1].1.as_str(), url.as_str()) {
        let grown = Span { start: links[n - 1].0.start, end };
        links.set(n - 1, (grown, url.clone()));
        proof {
            assert(links@[n - 1].1@ == before[n - 1].1@);
            assert(forall|i: int| 0 <= i < n ==> (#[trigger] links@[i]).1@ == before[i].1@);
            assert(forall|i: int| 0 <= i < n - 1 ==> (#[trigger] links@[i]) == before[i]);
            assert forall|at: int|
                0 <= at < end && #[trigger] look(marks, paints, at).link is Some implies exists|
                i: int,
            |
                0 <= i < links@.len() && (#[trigger] links@[i]).0.has(at) by {
                if at < start {
                    let i = choose|i: int|
                        0 <= i < before.len() && (#[trigger] before[i]).0.has(at);
                    assert(links@[i].0.has(at));
                } else {
                    assert(links@[n - 1].0.has(at));
                }
            }
            assert forall|i: int, at: int|
                #![trigger links@[i], look(marks, paints, at)]
                0 <= i < links@.len() && links@[i].0.has(at) implies look(marks, paints, at).link
                == Some(links@[i].1@) by {
                if at < start {
                    assert(before[i].0.has(at));
                }
            }
        }
    } else {
        links.push((Span { start, end }, url.clone()));
        proof {
            assert(forall|i: int| 0 <= i < n ==> (#[trigger] links@[i]) == before[i]);
            assert forall|at: int|
                0 <= at < end && #[trigger] look(marks, paints, at).link is Some implies exists|
                i: int,
            |
                0 <= i < links@.len() && (#[trigger] links@[i]).0.has(at) by {
                if at < start {
                    let i = choose|i: int|
                        0 <= i < before.len() && (#[trigger] before[i]).0.has(at);
                    assert(links@[i].0.has(at));
                } else {
                    assert(links@[n as int].0.has(at));
                }
            }
        }
    }
}

proof fn lemma_run_start_push(runs: Seq<Run>, run: Run, k: int)
    requires
        0 <= k <= runs.len(),
    ensures
        run_start(runs.push(run), k) == run_start(runs, k),
    decreases k,
{
    if k > 0 {
        lemma_run_start_push(runs, run, k - 1);
    }
}

/// The next run, where the text is next cut at `end`.
proof fn lemma_runs_push(
    runs: Seq<Run>,
    run: Run,
    marks: Seq<MarkSpan>,
    paints: Seq<Option<MarkPaint>>,
    base: u32,
    len: int,
    start: int,
    end: int,
)
    requires
        runs_to(runs, marks, paints, base, len, start),
        0 <= start < end,
        run.len == end - start,
        is_cut(marks, len, end),
        forall|other: int| start < other < end ==> !#[trigger] is_cut(marks, len, other),
        forall|at: int|
            start <= at < end ==> run.face == #[trigger] look(marks, paints, at).face(base),
    ensures
        runs_to(runs.push(run), marks, paints, base, len, end),
{
    let more = runs.push(run);
    let n = runs.len() as int;
    assert forall|k: int| 0 <= k <= n implies #[trigger] run_start(more, k) == run_start(
        runs,
        k,
    ) by {
        lemma_run_start_push(runs, run, k);
    }
    assert(run_start(more, n) == start);
    assert(more[n] == run);
    assert(run_start(more, n + 1) == end);
    assert forall|at: int| 0 <= at <= end && #[trigger] is_cut(marks, len, at) implies exists|
        k: int,
    |
        0 <= k <= more.len() && #[trigger] run_start(more, k) == at by {
        if at <= start {
            let k = choose|k: int| 0 <= k <= runs.len() && #[trigger] run_start(runs, k) == at;
            assert(run_start(more, k) == at);
        } else {
            assert(run_start(more, n + 1) == at);
        }
    }
    assert forall|k: int, at: int|
        #![trigger more[k], look(marks, paints, at)]
        0 <= k < more.len() && run_start(more, k) <= at < run_start(more, k + 1) implies more[k].face
        == look(marks, paints, at).face(base) by {
        if k < n {
            assert(more[k] == runs[k]);
        }
    }
}

/// Cuts the text at every mark boundary and asks which marks cover each piece.
/// `base` is the weight of the text, and `paints` how the app paints each mark
/// that is its own: one it does not paint reads as the text it wraps.
pub fn flatten_with(text: &Text, base: u32, paints: &Vec<Option<MarkPaint>>) -> (flat: Flat)
    ensures
        flat.text@ == text.text@,
        ({
            let len = text::byte_len(text.text@) as int;
            &&& runs_to(flat.runs@, text.marks@, paints@, base, len, len)
            &&& links_to(flat.links@, text.marks@, paints@, len)
            &&& stretches(flat.code@, |at: int| look(text.marks@, paints@, at).mono, len)
            &&& stretches(flat.chips@, |at: int| look(text.marks@, paints@, at).chip, len)
        }),
{
    let len = text.len();
    let mut runs: Vec<Run> = Vec::new();
    let mut links: Vec<(Span, String)> = Vec::new();
    let mut code: Vec<Span> = Vec::new();
    let mut chips: Vec<Span> = Vec::new();
    let ghost marks = text.marks@;
    let ghost mono = |at: int| look(marks, paints@, at).mono;
    let ghost chip = |at: int| look(marks, paints@, at).chip;
    let mut start: usize = 0;
    assert(run_start(runs@, 0) == 0);
    while start < len
        invariant
            start <= len,
            len == text::byte_len(text.text@),
            marks == text.marks@,
            mono == (|at: int| look(marks, paints@, at).mono),
            chip == (|at: int| look(marks, paints@, at).chip),
            runs_to(runs@, marks, paints@, base, len as int, start as int),
            links_to(links@, marks, paints@, start as int),
            stretches(code@, mono, start as int),
            stretches(chips@, chip, start as int),
        decreases len - start,
    {
        let end = next_cut(&text.marks, len, start);
        let seen = see(&text.marks, paints, start, end);
        let ghost seen_look = seen.look(marks);
        assert(forall|at: int| start <= at < end ==> #[trigger] mono(at) == seen_look.mono) by {
            assert(forall|at: int|
                start <= at < end ==> #[trigger] look(marks, paints@, at) == seen_look);
        }
        assert(forall|at: int| start <= at < end ==> #[trigger] chip(at) == seen_look.chip) by {
            assert(forall|at: int|
                start <= at < end ==> #[trigger] look(marks, paints@, at) == seen_look);
        }
        if seen.mono {
            extend(&mut code, start, end, Ghost(mono));
        }
        if seen.chip {
            extend(&mut chips, start, end, Ghost(chip));
        }
        if let Some(i) = seen.link {
            if let Some(url) = url(&text.marks[i].mark) {
                extend_link(&mut links, start, end, url, Ghost(marks), Ghost(paints@));
            }
        }
        let run = Run { len: end - start, face: seen.face(base, Ghost(marks)) };
        proof {
            lemma_runs_push(
                runs@,
                run,
                marks,
                paints@,
                base,
                len as int,
                start as int,
                end as int,
            );
        }
        runs.push(run);
        start = end;
    }
    Flat { text: text.text.clone(), runs, links, code, chips }
}

/// [`flatten_with`] where the app paints no mark of its own.
pub fn flatten(text: &Text, base: u32) -> (flat: Flat)
    ensures
        flat.text@ == text.text@,
        ({
            let len = text::byte_len(text.text@) as int;
            let none = Seq::<Option<MarkPaint>>::empty();
            &&& runs_to(flat.runs@, text.marks@, none, base, len, len)
            &&& links_to(flat.links@, text.marks@, none, len)
            &&& stretches(flat.code@, |at: int| look(text.marks@, none, at).mono, len)
            &&& stretches(flat.chips@, |at: int| look(text.marks@, none, at).chip, len)
        }),
{
    let none: Vec<Option<MarkPaint>> = Vec::new();
    assert(none@ == Seq::<Option<MarkPaint>>::empty());
    flatten_with(text, base, &none)
}

/// A byte that no mark covers is set as the text is.
pub proof fn plain_text_is_set_plainly(
    marks: Seq<MarkSpan>,
    paints: Seq<Option<MarkPaint>>,
    base: u32,
    at: int,
)
    requires
        forall|i: int| 0 <= i < marks.len() ==> !(#[trigger] marks[i]).range.has(at),
    ensures
        look(marks, paints, at) == Look::plain(),
        look(marks, paints, at).face(base) == (Face {
            mono: false,
            weight: base,
            italic: false,
            ink: Ink::Text,
            background: None,
            underline: false,
            strikethrough: false,
        }),
{
    lemma_uncovered(marks, paints, marks.len() as int, at);
}

proof fn lemma_uncovered(marks: Seq<MarkSpan>, paints: Seq<Option<MarkPaint>>, n: int, at: int)
    requires
        0 <= n <= marks.len(),
        forall|i: int| 0 <= i < marks.len() ==> !(#[trigger] marks[i]).range.has(at),
    ensures
        look_at(marks, paints, n, at) == Look::plain(),
    decreases n,
{
    if n > 0 {
        lemma_uncovered(marks, paints, n - 1, at);
    }
}

} // verus!
