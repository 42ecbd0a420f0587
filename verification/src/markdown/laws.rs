//! What a reader of a document can count on: where a quote is found, and how
//! each mark shows.

use vstd::prelude::*;

use crate::markdown::doc::{Block, Cursor, Doc, Mark, MarkSpan, Selection, Span};
use crate::markdown::flatten;
use crate::markdown::flatten::{Ink, Look, MarkPaint, Run};
use crate::markdown::quote;
use crate::markdown::quote::QuoteView;
use crate::text;

verus! {

/// Whether the last `before` characters of a quote's prefix end right where
/// character `i` of a text starts, and the first `after` of its suffix start
/// right behind the quote's own text there.
pub open spec fn stands_beside(
    quote: QuoteView,
    text: Seq<char>,
    i: int,
    before: int,
    after: int,
) -> bool {
    let end = i + quote.exact.len();
    &&& 0 <= before <= quote.prefix.len() && before <= i
    &&& forall|n: int|
        1 <= n <= before ==> #[trigger] text[i - n] == quote.prefix[quote.prefix.len() - n]
    &&& 0 <= after <= quote.suffix.len() && end + after <= text.len()
    &&& forall|n: int| 0 <= n < after ==> #[trigger] text[end + n] == quote.suffix[n]
}

/// How far byte `at` is from `near`.
pub open spec fn apart(at: int, near: int) -> int {
    if at < near {
        near - at
    } else {
        at - near
    }
}

proof fn lemma_shared_tail(a: Seq<char>, b: Seq<char>)
    ensures
        quote::shared_tail(a, b) <= a.len(),
        quote::shared_tail(a, b) <= b.len(),
        forall|n: int|
            1 <= n <= quote::shared_tail(a, b) ==> #[trigger] a[a.len() - n] == b[b.len() - n],
        quote::shared_tail(a, b) < a.len() && quote::shared_tail(a, b) < b.len() ==> a[a.len()
            - quote::shared_tail(a, b) - 1] != b[b.len() - quote::shared_tail(a, b) - 1],
    decreases a.len(),
{
    if a.len() > 0 && b.len() > 0 && a.last() == b.last() {
        let (c, d) = (a.drop_last(), b.drop_last());
        lemma_shared_tail(c, d);
        assert forall|n: int| 1 <= n <= quote::shared_tail(a, b) implies #[trigger] a[a.len() - n]
            == b[b.len() - n] by {
            if n > 1 {
                assert(c[c.len() - (n - 1)] == d[d.len() - (n - 1)]);
            }
        }
    }
}

proof fn lemma_shared_head(a: Seq<char>, b: Seq<char>)
    ensures
        quote::shared_head(a, b) <= a.len(),
        quote::shared_head(a, b) <= b.len(),
        forall|n: int| 0 <= n < quote::shared_head(a, b) ==> #[trigger] a[n] == b[n],
        quote::shared_head(a, b) < a.len() && quote::shared_head(a, b) < b.len()
            ==> a[quote::shared_head(a, b) as int] != b[quote::shared_head(a, b) as int],
    decreases a.len(),
{
    if a.len() > 0 && b.len() > 0 && a[0] == b[0] {
        let (c, d) = (a.subrange(1, a.len() as int), b.subrange(1, b.len() as int));
        lemma_shared_head(c, d);
        assert forall|n: int| 0 <= n < quote::shared_head(a, b) implies #[trigger] a[n] == b[n] by {
            if n > 0 {
                assert(c[n - 1] == d[n - 1]);
            }
        }
        let m = quote::shared_head(c, d) as int;
        if m < c.len() && m < d.len() {
            assert(c[m] == a[m + 1] && d[m] == b[m + 1]);
        }
    }
}

/// As much of a quote's context as stands beside a place counts for it, and no
/// more.
proof fn lemma_context(quote: QuoteView, text: Seq<char>, i: int) -> (counts: (int, int))
    requires
        quote::occurs(text, quote.exact, i),
    ensures
        stands_beside(quote, text, i, counts.0, counts.1),
        counts.0 + counts.1 == quote.context(text, i),
        forall|before: int, after: int| #[trigger]
            stands_beside(quote, text, i, before, after) ==> before <= counts.0 && after
                <= counts.1,
{
    let head = text.subrange(0, i);
    let end = i + quote.exact.len();
    let tail = text.subrange(end, text.len() as int);
    lemma_shared_tail(head, quote.prefix);
    lemma_shared_head(tail, quote.suffix);
    let p = quote::shared_tail(head, quote.prefix) as int;
    let s = quote::shared_head(tail, quote.suffix) as int;
    assert forall|n: int| 1 <= n <= p implies #[trigger] text[i - n]
        == quote.prefix[quote.prefix.len() - n] by {
        assert(head[head.len() - n] == text[i - n]);
    }
    assert forall|n: int| 0 <= n < s implies #[trigger] text[end + n] == quote.suffix[n] by {
        assert(tail[n] == text[end + n]);
    }
    assert forall|before: int, after: int| #[trigger]
        stands_beside(quote, text, i, before, after) implies before <= p && after <= s by {
        if before > p {
            assert(text[i - (p + 1)] == quote.prefix[quote.prefix.len() - (p + 1)]);
            assert(head[head.len() - p - 1] == text[i - (p + 1)]);
        }
        if after > s {
            assert(text[end + s] == quote.suffix[s]);
            assert(tail[s] == text[end + s]);
        }
    }
    (p, s)
}

/// A quote is found where most of its context stands. Whatever of it stands
/// beside some place its text is at, as much in all stands beside the place
/// found; and where no more does, the place found is no further from the hint,
/// and of two as far it is the later. Only where the hint still covers the text
/// is the context not asked.
pub proof fn most_of_the_context_stands_where_a_quote_is_found(
    quote: QuoteView,
    doc: Doc,
    hint: Option<Selection>,
    found: Option<Selection>,
    j: int,
    before: int,
    after: int,
) -> (place: (int, int, int))
    requires
        quote::found_by(quote, doc, hint, found),
        quote.exact.len() > 0,
        quote::occurs(quote::flat_text(doc), quote.exact, j),
        quote::near_of(doc, hint) matches Some(near) ==> forall|i: int| #[trigger]
            quote::occurs(quote::flat_text(doc), quote.exact, i) ==> text::byte_at(
                quote::flat_text(doc),
                i,
            ) != near,
        stands_beside(quote, quote::flat_text(doc), j, before, after),
    ensures
        ({
            let text = quote::flat_text(doc);
            let (i, p, s) = place;
            &&& i >= 0 && i + quote.exact.len() <= text.len()
            &&& forall|n: int| 0 <= n < quote.exact.len() ==> text[i + n] == quote.exact[n]
            &&& found == Some(
                quote::range_between(
                    quote::passages(doc),
                    text::byte_at(text, i) as int,
                    (text::byte_at(text, i) + text::byte_len(quote.exact)) as int,
                ),
            )
            &&& stands_beside(quote, text, i, p, s)
            &&& p + s >= before + after
            &&& forall|more: int, and: int| #[trigger]
                stands_beside(quote, text, i, more, and) ==> more <= p && and <= s
            &&& p + s == before + after ==> match quote::near_of(doc, hint) {
                Some(near) => {
                    let (here, there) = (
                        apart(text::byte_at(text, i) as int, near),
                        apart(text::byte_at(text, j) as int, near),
                    );
                    here < there || (here == there && i >= j)
                },
                None => i >= j,
            }
        }),
{
    let text = quote::flat_text(doc);
    let near = quote::near_of(doc, hint);
    assert(!quote.stands_at(text, near));
    let len = text::byte_len(quote.exact);
    let i = choose|i: int| #[trigger]
        quote.is_best(text, near, i) && found == Some(
            quote::range_between(
                quote::passages(doc),
                text::byte_at(text, i) as int,
                (text::byte_at(text, i) + len) as int,
            ),
        );
    assert(quote.outweighs(text, near, i, j));
    let (p, s) = lemma_context(quote, text, i);
    let (pj, sj) = lemma_context(quote, text, j);
    assert forall|n: int| 0 <= n < quote.exact.len() implies text[i + n] == quote.exact[n] by {
        assert(text.subrange(i, i + quote.exact.len())[n] == text[i + n]);
    }
    (i, p, s)
}

/// A place with the whole prefix before it and the whole suffix behind it is
/// taken over any that lacks some of either: one with both is found where there
/// is one.
pub proof fn the_whole_context_is_taken_over_some_of_it(
    quote: QuoteView,
    doc: Doc,
    hint: Option<Selection>,
    found: Option<Selection>,
    j: int,
) -> (i: int)
    requires
        quote::found_by(quote, doc, hint, found),
        quote.exact.len() > 0,
        quote::near_of(doc, hint) matches Some(near) ==> forall|i: int| #[trigger]
            quote::occurs(quote::flat_text(doc), quote.exact, i) ==> text::byte_at(
                quote::flat_text(doc),
                i,
            ) != near,
        quote::occurs(
            quote::flat_text(doc),
            quote.prefix + quote.exact + quote.suffix,
            j - quote.prefix.len(),
        ),
    ensures
        quote::occurs(
            quote::flat_text(doc),
            quote.prefix + quote.exact + quote.suffix,
            i - quote.prefix.len(),
        ),
        found == Some(
            quote::range_between(
                quote::passages(doc),
                text::byte_at(quote::flat_text(doc), i) as int,
                (text::byte_at(quote::flat_text(doc), i) + text::byte_len(quote.exact)) as int,
            ),
        ),
{
    let text = quote::flat_text(doc);
    let whole = quote.prefix + quote.exact + quote.suffix;
    let (pn, en, sn) = (
        quote.prefix.len() as int,
        quote.exact.len() as int,
        quote.suffix.len() as int,
    );
    let cut = text.subrange(j - pn, j - pn + whole.len());
    assert(text.subrange(j, j + en) =~= quote.exact) by {
        assert forall|n: int| 0 <= n < en implies text[j + n] == quote.exact[n] by {
            assert(cut[pn + n] == whole[pn + n]);
        }
    }
    assert forall|n: int| 1 <= n <= pn implies #[trigger] text[j - n] == quote.prefix[pn - n] by {
        assert(cut[pn - n] == whole[pn - n]);
    }
    assert forall|n: int| 0 <= n < sn implies #[trigger] text[j + en + n] == quote.suffix[n] by {
        assert(cut[pn + en + n] == whole[pn + en + n]);
    }
    assert(stands_beside(quote, text, j, pn, sn));
    let (i, p, s) = most_of_the_context_stands_where_a_quote_is_found(
        quote,
        doc,
        hint,
        found,
        j,
        pn,
        sn,
    );
    assert(p == pn && s == sn);
    let cut = text.subrange(i - pn, i - pn + whole.len());
    assert forall|n: int| 0 <= n < whole.len() implies cut[n] == whole[n] by {
        if n < pn {
            assert(text[i - (pn - n)] == quote.prefix[pn - (pn - n)]);
        } else if n < pn + en {
            assert(text[i + (n - pn)] == quote.exact[n - pn]);
        } else {
            assert(text[i + en + (n - pn - en)] == quote.suffix[n - pn - en]);
        }
    }
    assert(cut =~= whole);
    i
}

/// The bytes of the first `n` runs.
pub open spec fn bytes_before(runs: Seq<Run>, n: int) -> int
    decreases n,
{
    if n <= 0 {
        0
    } else {
        bytes_before(runs, n - 1) + runs[n - 1].len
    }
}

proof fn lemma_bytes_before(runs: Seq<Run>, n: int)
    ensures
        bytes_before(runs, n) == flatten::run_start(runs, n),
    decreases n,
{
    if n > 0 {
        lemma_bytes_before(runs, n - 1);
    }
}

/// Whether mark `i` covers byte `at`.
pub open spec fn covers(marks: Seq<MarkSpan>, i: int, at: int) -> bool {
    0 <= i < marks.len() && marks[i].range.start <= at < marks[i].range.end
}

/// How the app paints mark `i` over byte `at`, where that is a mark of its own.
pub open spec fn painted(
    marks: Seq<MarkSpan>,
    paints: Seq<Option<MarkPaint>>,
    i: int,
    at: int,
) -> Option<MarkPaint> {
    if covers(marks, i, at) && marks[i].mark is Custom && i < paints.len() {
        paints[i]
    } else {
        None
    }
}

/// The color mark `i` gives byte `at`.
pub open spec fn colored(
    marks: Seq<MarkSpan>,
    paints: Seq<Option<MarkPaint>>,
    i: int,
    at: int,
) -> Option<u32> {
    match painted(marks, paints, i, at) {
        Some(paint) => paint.color,
        None => None,
    }
}

/// The color mark `i` puts behind byte `at`.
pub open spec fn backed(
    marks: Seq<MarkSpan>,
    paints: Seq<Option<MarkPaint>>,
    i: int,
    at: int,
) -> Option<u32> {
    match painted(marks, paints, i, at) {
        Some(paint) => paint.background,
        None => None,
    }
}

/// The weight mark `i` gives byte `at`.
pub open spec fn weighted(
    marks: Seq<MarkSpan>,
    paints: Seq<Option<MarkPaint>>,
    i: int,
    at: int,
) -> Option<u32> {
    match painted(marks, paints, i, at) {
        Some(paint) => paint.weight,
        None => None,
    }
}

/// Where mark `i` leads from byte `at`.
pub open spec fn led(marks: Seq<MarkSpan>, i: int, at: int) -> Option<Seq<char>> {
    if covers(marks, i, at) {
        match marks[i].mark {
            Mark::Mention { url, .. } => Some(url@),
            Mark::Link(url) => Some(url@),
            Mark::Image(url) => Some(url@),
            _ => None,
        }
    } else {
        None
    }
}

proof fn lemma_flags(marks: Seq<MarkSpan>, paints: Seq<Option<MarkPaint>>, n: int, at: int)
    requires
        0 <= n <= marks.len(),
    ensures
        ({
            let look = flatten::look_at(marks, paints, n, at);
            &&& look.bold == exists|i: int|
                i < n && #[trigger] covers(marks, i, at) && marks[i].mark is Bold
            &&& look.italic == exists|i: int|
                i < n && #[trigger] covers(marks, i, at) && marks[i].mark is Italic
            &&& look.strike == exists|i: int|
                i < n && #[trigger] covers(marks, i, at) && marks[i].mark is Strike
            &&& look.mono == exists|i: int|
                i < n && #[trigger] covers(marks, i, at) && marks[i].mark is Code
            &&& look.chip == exists|i: int|
                i < n && #[trigger] covers(marks, i, at) && marks[i].mark is Mention
        }),
    decreases n,
{
    if n > 0 {
        lemma_flags(marks, paints, n - 1, at);
        assert(covers(marks, n - 1, at) == marks[n - 1].range.has(at));
    }
}

proof fn lemma_painted_flags(
    marks: Seq<MarkSpan>,
    paints: Seq<Option<MarkPaint>>,
    n: int,
    at: int,
)
    requires
        0 <= n <= marks.len(),
    ensures
        ({
            let custom = flatten::look_at(marks, paints, n, at).custom;
            &&& custom.italic == exists|i: int|
                i < n && (#[trigger] painted(marks, paints, i, at) matches Some(paint)
                    && paint.italic)
            &&& custom.underline == exists|i: int|
                i < n && (#[trigger] painted(marks, paints, i, at) matches Some(paint)
                    && paint.underline)
            &&& custom.strikethrough == exists|i: int|
                i < n && (#[trigger] painted(marks, paints, i, at) matches Some(paint)
                    && paint.strikethrough)
        }),
    decreases n,
{
    if n > 0 {
        lemma_painted_flags(marks, paints, n - 1, at);
        assert(covers(marks, n - 1, at) == marks[n - 1].range.has(at));
        let last = painted(marks, paints, n - 1, at);
    }
}

/// Whether `answer` is the last that any of the first `n` marks gives.
pub open spec fn last_of<A>(answer: Option<A>, given: spec_fn(int) -> Option<A>, n: int) -> bool {
    match answer {
        Some(answer) => exists|i: int|
            0 <= i < n && #[trigger] given(i) == Some(answer) && forall|j: int|
                i < j < n ==> #[trigger] given(j) is None,
        None => forall|i: int| 0 <= i < n ==> #[trigger] given(i) is None,
    }
}

proof fn lemma_last_of<A>(
    before: Option<A>,
    answer: Option<A>,
    given: spec_fn(int) -> Option<A>,
    n: int,
)
    requires
        n > 0,
        last_of(before, given, n - 1),
        answer == (if given(n - 1) is Some {
            given(n - 1)
        } else {
            before
        }),
    ensures
        last_of(answer, given, n),
{
    if given(n - 1) is None && before is Some {
        let i = choose|i: int|
            0 <= i < n - 1 && #[trigger] given(i) == before && forall|j: int|
                i < j < n - 1 ==> #[trigger] given(j) is None;
        assert(given(i) == answer);
    }
}

proof fn lemma_answers(marks: Seq<MarkSpan>, paints: Seq<Option<MarkPaint>>, n: int, at: int)
    requires
        0 <= n <= marks.len(),
    ensures
        ({
            let look = flatten::look_at(marks, paints, n, at);
            &&& last_of(look.custom.color, |i: int| colored(marks, paints, i, at), n)
            &&& last_of(look.custom.background, |i: int| backed(marks, paints, i, at), n)
            &&& last_of(look.custom.weight, |i: int| weighted(marks, paints, i, at), n)
            &&& last_of(look.link, |i: int| led(marks, i, at), n)
        }),
    decreases n,
{
    if n > 0 {
        lemma_answers(marks, paints, n - 1, at);
        assert(covers(marks, n - 1, at) == marks[n - 1].range.has(at));
        let before = flatten::look_at(marks, paints, n - 1, at);
        let now = flatten::look_at(marks, paints, n, at);
        let colors = |i: int| colored(marks, paints, i, at);
        let backs = |i: int| backed(marks, paints, i, at);
        let weights = |i: int| weighted(marks, paints, i, at);
        let links = |i: int| led(marks, i, at);
        lemma_last_of(before.custom.color, now.custom.color, colors, n);
        lemma_last_of(before.custom.background, now.custom.background, backs, n);
        lemma_last_of(before.custom.weight, now.custom.weight, weights, n);
        lemma_last_of(before.link, now.link, links, n);
    }
}

/// Each mark shows in the runs it covers, and only there. A byte is struck
/// through where a strike covers it or a paint of the app's strikes it, italic
/// in the same way, set in the face of code where code covers it, and
/// underlined where it leads somewhere and is no chip, or a paint underlines
/// it.
pub proof fn a_mark_shows_in_the_bytes_it_covers(
    runs: Seq<Run>,
    marks: Seq<MarkSpan>,
    paints: Seq<Option<MarkPaint>>,
    base: u32,
    len: int,
    k: int,
    at: int,
)
    requires
        flatten::runs_to(runs, marks, paints, base, len, len),
        0 <= k < runs.len(),
        bytes_before(runs, k) <= at < bytes_before(runs, k + 1),
    ensures
        runs[k].face.strikethrough == ((exists|i: int| #[trigger]
            covers(marks, i, at) && marks[i].mark is Strike) || (exists|i: int|
            (#[trigger] painted(marks, paints, i, at) matches Some(paint)
                && paint.strikethrough))),
        runs[k].face.italic == ((exists|i: int| #[trigger]
            covers(marks, i, at) && marks[i].mark is Italic) || (exists|i: int|
            (#[trigger] painted(marks, paints, i, at) matches Some(paint) && paint.italic))),
        runs[k].face.mono == exists|i: int| #[trigger]
            covers(marks, i, at) && marks[i].mark is Code,
        runs[k].face.underline == (((exists|i: int| #[trigger] led(marks, i, at) is Some) && !(
        exists|i: int| #[trigger] covers(marks, i, at) && marks[i].mark is Mention)) || (exists|
            i: int,
        | (#[trigger] painted(marks, paints, i, at) matches Some(paint) && paint.underline))),
{
    let n = marks.len() as int;
    lemma_bytes_before(runs, k);
    lemma_bytes_before(runs, k + 1);
    lemma_flags(marks, paints, n, at);
    lemma_painted_flags(marks, paints, n, at);
    lemma_answers(marks, paints, n, at);
    let look = flatten::look(marks, paints, at);
    assert(runs[k].face == look.face(base));
    assert forall|i: int| #[trigger] led(marks, i, at) is Some implies look.link is Some by {
        if look.link is None {
            let links = |i: int| led(marks, i, at);
            assert(links(i) is None);
        }
    }
    if look.link is Some {
        let links = |i: int| led(marks, i, at);
        let i = choose|i: int|
            0 <= i < n && #[trigger] links(i) == look.link && forall|j: int|
                i < j < n ==> #[trigger] links(j) is None;
        assert(led(marks, i, at) is Some);
    }
    assert(forall|i: int| #[trigger] covers(marks, i, at) ==> i < n);
    assert(forall|i: int| #[trigger] painted(marks, paints, i, at) is Some ==> i < n);
}

/// A run takes the color, and the color behind it, that the last of the app's
/// paints over it says; without one, code has the ink of code and the rest that
/// of the text. Bold is semibold at least, and otherwise the last paint over
/// it says the weight.
pub proof fn the_last_paint_over_a_byte_says_how_it_is_set(
    runs: Seq<Run>,
    marks: Seq<MarkSpan>,
    paints: Seq<Option<MarkPaint>>,
    base: u32,
    len: int,
    k: int,
    at: int,
)
    requires
        flatten::runs_to(runs, marks, paints, base, len, len),
        0 <= k < runs.len(),
        bytes_before(runs, k) <= at < bytes_before(runs, k + 1),
    ensures
        ({
            let face = runs[k].face;
            let bold = exists|i: int| #[trigger] covers(marks, i, at) && marks[i].mark is Bold;
            let code = exists|i: int| #[trigger] covers(marks, i, at) && marks[i].mark is Code;
            let n = marks.len() as int;
            &&& last_of(face.background, |i: int| backed(marks, paints, i, at), n)
            &&& match face.ink {
                Ink::Custom(color) => last_of(
                    Some(color),
                    |i: int| colored(marks, paints, i, at),
                    n,
                ),
                Ink::Code => code && last_of(None, |i: int| colored(marks, paints, i, at), n),
                Ink::Text => !code && last_of(None, |i: int| colored(marks, paints, i, at), n),
            }
            &&& bold && base < 600 ==> face.weight == 600
            &&& !(bold && base < 600) ==> {
                ||| last_of(Some(face.weight), |i: int| weighted(marks, paints, i, at), n)
                ||| face.weight == base && last_of(
                    None,
                    |i: int| weighted(marks, paints, i, at),
                    n,
                )
            }
        }),
{
    let n = marks.len() as int;
    lemma_bytes_before(runs, k);
    lemma_bytes_before(runs, k + 1);
    lemma_flags(marks, paints, n, at);
    lemma_answers(marks, paints, n, at);
    let look = flatten::look(marks, paints, at);
    assert(runs[k].face == look.face(base));
    assert(forall|i: int| #[trigger] covers(marks, i, at) ==> i < n);
}

/// The washes of code are the bytes code covers, and the chips the bytes a
/// mention covers, each stretch as long as it can be.
pub proof fn washes_are_under_what_they_mark(
    code: Seq<Span>,
    chips: Seq<Span>,
    marks: Seq<MarkSpan>,
    paints: Seq<Option<MarkPaint>>,
    len: int,
    at: int,
)
    requires
        flatten::stretches(code, |at: int| flatten::look(marks, paints, at).mono, len),
        flatten::stretches(chips, |at: int| flatten::look(marks, paints, at).chip, len),
        0 <= at < len,
    ensures
        (exists|k: int| 0 <= k < code.len() && (#[trigger] code[k]).start <= at < code[k].end)
            <==> (exists|i: int| #[trigger] covers(marks, i, at) && marks[i].mark is Code),
        (exists|k: int| 0 <= k < chips.len() && (#[trigger] chips[k]).start <= at < chips[k].end)
            <==> (exists|i: int| #[trigger] covers(marks, i, at) && marks[i].mark is Mention),
        forall|k: int|
            0 <= k && k + 1 < code.len() ==> (#[trigger] code[k]).end < code[k + 1].start,
{
    let n = marks.len() as int;
    lemma_flags(marks, paints, n, at);
    let mono = |at: int| flatten::look(marks, paints, at).mono;
    let chip = |at: int| flatten::look(marks, paints, at).chip;
    assert(forall|i: int| #[trigger] covers(marks, i, at) ==> i < n);
    if mono(at) {
        let k = choose|k: int| 0 <= k < code.len() && (#[trigger] code[k]).has(at);
        assert(code[k].start <= at < code[k].end);
    }
    if chip(at) {
        let k = choose|k: int| 0 <= k < chips.len() && (#[trigger] chips[k]).has(at);
        assert(chips[k].start <= at < chips[k].end);
    }
    assert forall|k: int|
        0 <= k < code.len() && (#[trigger] code[k]).start <= at < code[k].end implies mono(at) by {
        assert(code[k].has(at));
    }
    assert forall|k: int|
        0 <= k < chips.len() && (#[trigger] chips[k]).start <= at < chips[k].end implies chip(
        at,
    ) by {
        assert(chips[k].has(at));
    }
    assert forall|k: int| 0 <= k && k + 1 < code.len() implies (#[trigger] code[k]).end < code[k
        + 1].start by {
        let next = k + 1;
        assert(code[k].end < code[next].start);
    }
}

/// A byte leads where the last mark over it that leads anywhere does, and
/// nowhere where none does.
pub proof fn a_link_leads_where_its_mark_does(
    links: Seq<(Span, String)>,
    marks: Seq<MarkSpan>,
    paints: Seq<Option<MarkPaint>>,
    len: int,
    at: int,
)
    requires
        flatten::links_to(links, marks, paints, len),
        0 <= at < len,
    ensures
        (exists|k: int| 0 <= k < links.len() && (#[trigger] links[k]).0.start <= at < links[k].0.end)
            <==> (exists|i: int| #[trigger] led(marks, i, at) is Some),
        forall|k: int|
            0 <= k < links.len() && (#[trigger] links[k]).0.start <= at < links[k].0.end
                ==> last_of(
                Some(links[k].1@),
                |i: int| led(marks, i, at),
                marks.len() as int,
            ),
{
    let n = marks.len() as int;
    lemma_answers(marks, paints, n, at);
    let look = flatten::look(marks, paints, at);
    let given = |i: int| led(marks, i, at);
    if look.link is Some {
        let k = choose|k: int| 0 <= k < links.len() && (#[trigger] links[k]).0.has(at);
        assert(links[k].0.start <= at < links[k].0.end);
        let i = choose|i: int|
            0 <= i < n && #[trigger] given(i) == look.link && forall|j: int|
                i < j < n ==> #[trigger] given(j) is None;
        assert(led(marks, i, at) is Some);
    }
    assert forall|i: int| #[trigger] led(marks, i, at) is Some implies look.link is Some by {
        if look.link is None {
            assert(given(i) is None);
        }
    }
    assert forall|k: int|
        0 <= k < links.len() && (#[trigger] links[k]).0.start <= at < links[k].0.end implies last_of(
        Some(links[k].1@),
        |i: int| led(marks, i, at),
        marks.len() as int,
    ) by {
        assert(links[k].0.has(at));
        assert(look.link == Some(links[k].1@));
    }
}

/// The runs of a text are all of it, one behind another, and one ends wherever
/// a mark starts or ends.
pub proof fn runs_part_where_marks_do(
    runs: Seq<Run>,
    marks: Seq<MarkSpan>,
    paints: Seq<Option<MarkPaint>>,
    base: u32,
    len: int,
    i: int,
)
    requires
        flatten::runs_to(runs, marks, paints, base, len, len),
        0 <= i < marks.len(),
    ensures
        bytes_before(runs, runs.len() as int) == len,
        0 <= marks[i].range.start <= len ==> exists|k: int|
            0 <= k <= runs.len() && #[trigger] bytes_before(runs, k) == marks[i].range.start,
        0 <= marks[i].range.end <= len ==> exists|k: int|
            0 <= k <= runs.len() && #[trigger] bytes_before(runs, k) == marks[i].range.end,
{
    lemma_bytes_before(runs, runs.len() as int);
    assert(marks[i].range == marks[i].range);
    if marks[i].range.start <= len {
        assert(flatten::is_cut(marks, len, marks[i].range.start as int));
        let k = choose|k: int|
            0 <= k <= runs.len() && #[trigger] flatten::run_start(runs, k)
                == marks[i].range.start;
        lemma_bytes_before(runs, k);
        assert(bytes_before(runs, k) == marks[i].range.start);
    }
    if marks[i].range.end <= len {
        assert(flatten::is_cut(marks, len, marks[i].range.end as int));
        let k = choose|k: int|
            0 <= k <= runs.len() && #[trigger] flatten::run_start(runs, k) == marks[i].range.end;
        lemma_bytes_before(runs, k);
        assert(bytes_before(runs, k) == marks[i].range.end);
    }
}

/// A quote is a stretch of the document's text: the words between the ends of
/// its range, and up to thirty-two characters right before and right behind
/// them.
pub proof fn a_quote_is_the_text_and_what_stands_beside_it(
    doc: Doc,
    range: Selection,
    start: int,
    end: int,
) -> (cut: (int, int))
    requires
        quote::quotable(doc, range),
        quote::bytes_of(doc, range) == Some((start, end)),
    ensures
        ({
            let text = quote::flat_text(doc);
            let (i, j) = cut;
            let from = if i < 32 {
                0
            } else {
                i - 32
            };
            let to = if text.len() - j < 32 {
                text.len() as int
            } else {
                j + 32
            };
            &&& 0 <= i < j <= text.len()
            &&& text::byte_at(text, i) == start && text::byte_at(text, j) == end
            &&& QuoteView::of(doc, range) == Some(
                QuoteView {
                    exact: text.subrange(i, j),
                    prefix: text.subrange(from, i),
                    suffix: text.subrange(j, to),
                },
            )
        }),
{
    let text = quote::flat_text(doc);
    let i = quote::char_of(text, start);
    let j = quote::char_of(text, end);
    assert(0 <= i <= text.len() && text::byte_at(text, i) == start);
    assert(0 <= j <= text.len() && text::byte_at(text, j) == end);
    if j <= i {
        text::lemma_byte_at_order(text, j, i);
    }
    let quote = QuoteView::of(doc, range)->0;
    let from = if i < 32 {
        0
    } else {
        i - 32
    };
    let to = if text.len() - j < 32 {
        text.len() as int
    } else {
        j + 32
    };
    let ahead = text.subrange(0, i);
    let behind = text.subrange(j, text.len() as int);
    assert(quote.prefix =~= text.subrange(from, i));
    assert(quote.suffix =~= text.subrange(j, to));
    (i, j)
}

/// A range that starts where it ends quotes nothing, and one whose ends fall
/// apart in the text quotes something.
pub proof fn a_collapsed_range_quotes_nothing(doc: Doc, at: Cursor, range: Selection)
    ensures
        QuoteView::of(doc, Selection { anchor: at, head: at }) is None,
        QuoteView::of(doc, range) is Some <==> quote::bytes_of(doc, range) is Some,
        quote::bytes_of(doc, range) matches Some((start, end)) ==> start < end && (
        quote::index_of(quote::passages(doc), range.held(doc).ends().0) == Some(start))
            && quote::index_of(quote::passages(doc), range.held(doc).ends().1) == Some(end),
{
}

/// The characters of the first `k` texts, and a line break behind each.
pub open spec fn chars_before(passages: Seq<quote::Passage>, k: int) -> int
    decreases k,
{
    if k <= 0 {
        0
    } else {
        chars_before(passages, k - 1) + passages[k - 1].text.len() + 1
    }
}

/// The texts of a document stand one behind another, a line break between
/// them.
pub proof fn texts_stand_line_by_line(passages: Seq<quote::Passage>, n: int, k: int)
    requires
        0 <= k < n <= passages.len(),
    ensures
        ({
            let flat = quote::joined(passages, n);
            let from = chars_before(passages, k);
            &&& flat.len() == chars_before(passages, n) - 1
            &&& 0 <= from && from + passages[k].text.len() <= flat.len()
            &&& flat.subrange(from, from + passages[k].text.len()) == passages[k].text
            &&& k > 0 ==> flat[from - 1] == '\n'
        }),
    decreases n,
{
    let flat = quote::joined(passages, n);
    let from = chars_before(passages, k);
    let len = passages[k].text.len();
    if n == 1 {
        assert(flat.subrange(0, len as int) =~= passages[0].text);
        reveal_with_fuel(chars_before, 2);
    } else {
        let before = quote::joined(passages, n - 1);
        if k < n - 1 {
            texts_stand_line_by_line(passages, n - 1, k);
            if k > 0 {
                texts_stand_line_by_line(passages, n - 1, k - 1);
                assert(flat[from - 1] == before[from - 1]);
            }
            assert(flat.subrange(from, from + len) =~= before.subrange(from, from + len));
        } else {
            texts_stand_line_by_line(passages, n - 1, n - 2);
            assert(flat.subrange(from, from + len) =~= passages[k].text);
        }
    }
}

/// A document's texts are those of its blocks in order, each with the position
/// it starts at. A block of one text adds it, and a block of none nothing.
pub proof fn a_documents_texts_are_its_blocks(blocks: Seq<Block>, n: int)
    requires
        0 <= n < blocks.len() <= usize::MAX,
    ensures
        ({
            let (fewer, more) = (quote::passages_to(blocks, n), quote::passages_to(blocks, n + 1));
            let block = blocks[n];
            &&& quote::passages_to(blocks, 0).len() == 0
            &&& more.take(fewer.len() as int) == fewer && more.len() >= fewer.len()
            &&& block.listed().len() == 0 ==> more == fewer
            &&& block.listed().len() == 1 ==> (block.text_in(block.listed()[0]) matches Some(text)
                ==> more == fewer.push(
                quote::Passage {
                    at: Cursor { block: n as usize, part: block.listed()[0], offset: 0 },
                    text: text.text@,
                },
            ))
        }),
{
    reveal_with_fuel(quote::block_passages, 2);
    let (fewer, more) = (quote::passages_to(blocks, n), quote::passages_to(blocks, n + 1));
    assert(more.take(fewer.len() as int) =~= fewer);
    let block = blocks[n];
    if block.listed().len() == 0 {
        assert(more =~= fewer);
    } else if block.listed().len() == 1 {
        if let Some(text) = block.text_in(block.listed()[0]) {
            assert(more =~= fewer.push(
                quote::Passage {
                    at: Cursor { block: n as usize, part: block.listed()[0], offset: 0 },
                    text: text.text@,
                },
            ));
        }
    }
}

/// A mark put over a byte shows in how it is set, whatever was over it before,
/// and what showed there stays.
pub proof fn a_mark_put_over_a_byte_shows(look: Look, mark: Mark, paint: MarkPaint, base: u32)
    ensures
        ({
            let before = look.face(base);
            let after = look.over(mark, Some(paint)).face(base);
            &&& mark is Strike ==> after.strikethrough
            &&& mark is Italic ==> after.italic
            &&& mark is Code ==> after.mono
            &&& mark is Bold && base < 600 ==> after.weight == 600
            &&& mark is Bold && base >= 600 ==> after.weight == before.weight
            &&& mark is Code && !(before.ink is Custom) ==> after.ink == Ink::Code
            &&& mark is Link && !look.chip ==> after.underline
            &&& mark is Image && !look.chip ==> after.underline
            &&& mark is Custom ==> {
                &&& paint.strikethrough ==> after.strikethrough
                &&& paint.italic ==> after.italic
                &&& paint.underline ==> after.underline
                &&& paint.color matches Some(color) ==> after.ink == Ink::Custom(color)
                &&& paint.background matches Some(color) ==> after.background == Some(color)
                &&& paint.weight matches Some(weight) ==> !look.bold || base >= 600 ==> after.weight
                    == weight
            }
            &&& before.strikethrough ==> after.strikethrough
            &&& before.italic ==> after.italic
            &&& before.mono ==> after.mono
            &&& before.underline && !(mark is Mention) ==> after.underline
            &&& !(mark is Strike) && !(mark is Custom) ==> after.strikethrough
                == before.strikethrough
            &&& !(mark is Italic) && !(mark is Custom) ==> after.italic == before.italic
            &&& !(mark is Code) ==> after.mono == before.mono
            &&& !(mark is Bold) && !(mark is Custom) ==> after.weight == before.weight
            &&& !(mark is Custom) ==> after.background == before.background
            &&& look.over(mark, None).custom == look.custom
        }),
        ({
            let plain = Look::plain().face(base);
            &&& !plain.strikethrough && !plain.italic && !plain.mono && !plain.underline
            &&& plain.weight == base && plain.ink == Ink::Text && plain.background is None
        }),
{
}

/// A position is in the first text of its block and part, at its own offset
/// past where that starts, or at its end. In none, it is nowhere.
pub proof fn a_position_is_in_the_text_of_its_place(
    passages: Seq<quote::Passage>,
    at: Cursor,
    from: int,
    k: int,
)
    requires
        0 <= from <= k <= passages.len(),
        forall|j: int|
            from <= j < k ==> (#[trigger] passages[j]).at.block != at.block || passages[j].at.part
                != at.part,
    ensures
        k == passages.len() ==> quote::passage_from(passages, at, from) is None && (from == 0
            ==> quote::index_of(passages, at) is None),
        k < passages.len() && passages[k].at.block == at.block && passages[k].at.part == at.part
            ==> quote::passage_from(passages, at, from) == Some(k) && (from == 0 ==> ({
            let start = quote::start_of(passages, k);
            let len = text::byte_len(passages[k].text) as int;
            quote::index_of(passages, at) == Some(
                if at.offset > len {
                    start + len
                } else {
                    start + at.offset
                },
            )
        })),
    decreases k - from,
{
    if from < k {
        assert(passages[from].at.block != at.block || passages[from].at.part != at.part);
        a_position_is_in_the_text_of_its_place(passages, at, from + 1, k);
    }
}

/// Each text starts one byte, the line break, past where the one before ends.
pub proof fn a_text_starts_a_line_break_past_the_last(passages: Seq<quote::Passage>, k: int)
    requires
        0 <= k < passages.len(),
    ensures
        quote::start_of(passages, 0) == 0,
        quote::start_of(passages, k + 1) == quote::start_of(passages, k) + text::byte_len(
            passages[k].text,
        ) + 1,
{
    if k > 0 {
        let before = quote::joined(passages, k);
        text::lemma_byte_len_concat(before.push('\n'), passages[k].text);
        assert(before.push('\n').drop_last() =~= before);
        assert(text::byte_len(before.push('\n')) == text::byte_len(before) + 1);
    }
}

} // verus!
