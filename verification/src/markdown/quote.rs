//! Finding a range again in a document edited somewhere this crate never saw.
//!
//! A saved [`Selection`] is offsets, and offsets only hold for the document
//! they were taken from. A [`Quote`] is the text under the range with a little
//! context either side — the W3C Web Annotation model's `TextQuoteSelector` —
//! which is what survives the file being rewritten on disk.

use vstd::prelude::*;
use vstd::slice::slice_subrange;

use crate::markdown::doc;
use crate::markdown::doc::{Block, BlockKind, Cursor, Doc, Part, Selection, Text};
use crate::text;
use crate::text::{bytes_in, char_at, chars_of, string_of};

verus! {

/// How many characters of context a quote keeps on either side.
pub const CONTEXT: usize = 32;

/// The text a range covers, and what stands either side of it.
#[derive(Debug, Clone, PartialEq, Eq, Hash)]
pub struct Quote {
    pub exact: String,
    /// Up to 32 characters before `exact`, ending where it starts.
    pub prefix: String,
    /// Up to 32 characters after `exact`, starting where it ends.
    pub suffix: String,
}

/// A text of a document: the position it starts at, and its characters.
#[verifier::ext_equal]
pub struct Passage {
    pub at: Cursor,
    pub text: Seq<char>,
}

/// The texts of the first `n` parts of a block.
pub open spec fn block_passages(block: Block, ix: int, n: int) -> Seq<Passage>
    decreases n,
{
    if n <= 0 {
        Seq::empty()
    } else {
        let before = block_passages(block, ix, n - 1);
        let part = block.listed()[n - 1];
        match block.text_in(part) {
            Some(text) => before.push(
                Passage {
                    at: Cursor { block: ix as usize, part, offset: 0 },
                    text: text.text@,
                },
            ),
            None => before,
        }
    }
}

/// The texts of the first `n` blocks, in document order.
pub open spec fn passages_to(blocks: Seq<Block>, n: int) -> Seq<Passage>
    decreases n,
{
    if n <= 0 {
        Seq::empty()
    } else {
        passages_to(blocks, n - 1) + block_passages(
            blocks[n - 1],
            n - 1,
            blocks[n - 1].listed().len() as int,
        )
    }
}

/// Every text of a document, in document order.
pub open spec fn passages(doc: Doc) -> Seq<Passage> {
    passages_to(doc.blocks@, doc.blocks@.len() as int)
}

/// The first `n` texts laid end to end, with a newline between each.
pub open spec fn joined(passages: Seq<Passage>, n: int) -> Seq<char>
    decreases n,
{
    if n <= 0 {
        Seq::empty()
    } else if n == 1 {
        passages[0].text
    } else {
        joined(passages, n - 1).push('\n') + passages[n - 1].text
    }
}

/// A document's text laid end to end.
pub open spec fn flat_text(doc: Doc) -> Seq<char> {
    joined(passages(doc), passages(doc).len() as int)
}

/// The byte of the flat text that text `k` starts at.
pub open spec fn start_of(passages: Seq<Passage>, k: int) -> int {
    if k <= 0 {
        0
    } else {
        (text::byte_len(joined(passages, k)) + 1) as int
    }
}

/// Whether `at` is in text `k`.
pub open spec fn is_in(passages: Seq<Passage>, at: Cursor, k: int) -> bool {
    0 <= k < passages.len() && passages[k].at.block == at.block && passages[k].at.part == at.part
}

/// Which text a position is in, the first from `k` on that is its block's and
/// part's.
pub open spec fn passage_from(passages: Seq<Passage>, at: Cursor, k: int) -> Option<int>
    decreases passages.len() - k,
{
    if k >= passages.len() {
        None
    } else if is_in(passages, at, k) {
        Some(k)
    } else {
        passage_from(passages, at, k + 1)
    }
}

/// Which text a position is in.
pub open spec fn passage_of(passages: Seq<Passage>, at: Cursor) -> Option<int> {
    passage_from(passages, at, 0)
}

/// Where a position falls in the flat text, held inside its own text.
pub open spec fn index_of(passages: Seq<Passage>, at: Cursor) -> Option<int> {
    match passage_of(passages, at) {
        Some(k) => {
            let len = text::byte_len(passages[k].text);
            Some(
                start_of(passages, k) + if at.offset <= len {
                    at.offset as int
                } else {
                    len as int
                },
            )
        },
        None => None,
    }
}

/// Whether text `k` is the last that starts at or before byte `at`.
pub open spec fn holds_byte(passages: Seq<Passage>, at: int, k: int) -> bool {
    &&& 0 <= k < passages.len()
    &&& start_of(passages, k) <= at
    &&& k + 1 < passages.len() ==> at < start_of(passages, k + 1)
}

/// The position at byte `at` of the flat text.
pub open spec fn position_at(passages: Seq<Passage>, at: int) -> Cursor {
    let k = choose|k: int| holds_byte(passages, at, k);
    Cursor { offset: (at - start_of(passages, k)) as usize, ..passages[k].at }
}

/// The range from one byte of the flat text to another.
pub open spec fn range_between(passages: Seq<Passage>, start: int, end: int) -> Selection {
    Selection { anchor: position_at(passages, start), head: position_at(passages, end) }
}

/// Where a range starts and ends in the flat text, if it covers anything.
pub open spec fn bytes_of(doc: Doc, range: Selection) -> Option<(int, int)> {
    let (start, end) = range.held(doc).ends();
    match (index_of(passages(doc), start), index_of(passages(doc), end)) {
        (Some(start), Some(end)) => if start < end {
            Some((start, end))
        } else {
            None
        },
        _ => None,
    }
}

/// The last `count` characters of `text`.
pub open spec fn tail_of(text: Seq<char>, count: nat) -> Seq<char> {
    if text.len() <= count {
        text
    } else {
        text.subrange(text.len() - count, text.len() as int)
    }
}

/// The first `count` characters of `text`.
pub open spec fn head_of(text: Seq<char>, count: nat) -> Seq<char> {
    if text.len() <= count {
        text
    } else {
        text.subrange(0, count as int)
    }
}

/// How many characters `a` and `b` share at their starts.
pub open spec fn shared_head(a: Seq<char>, b: Seq<char>) -> nat
    decreases a.len(),
{
    if a.len() > 0 && b.len() > 0 && a[0] == b[0] {
        1 + shared_head(a.subrange(1, a.len() as int), b.subrange(1, b.len() as int))
    } else {
        0
    }
}

/// How many characters `a` and `b` share at their ends.
pub open spec fn shared_tail(a: Seq<char>, b: Seq<char>) -> nat
    decreases a.len(),
{
    if a.len() > 0 && b.len() > 0 && a.last() == b.last() {
        1 + shared_tail(a.drop_last(), b.drop_last())
    } else {
        0
    }
}

/// Whether `exact` starts at character `i` of `text`.
pub open spec fn occurs(text: Seq<char>, exact: Seq<char>, i: int) -> bool {
    0 <= i && i + exact.len() <= text.len() && text.subrange(i, i + exact.len()) == exact
}

/// A quote, as mathematical values.
#[verifier::ext_equal]
pub struct QuoteView {
    pub exact: Seq<char>,
    pub prefix: Seq<char>,
    pub suffix: Seq<char>,
}

impl View for Quote {
    type V = QuoteView;

    open spec fn view(&self) -> QuoteView {
        QuoteView { exact: self.exact@, prefix: self.prefix@, suffix: self.suffix@ }
    }
}

impl QuoteView {
    /// How much of the context still stands beside the text at character `i`.
    pub open spec fn context(self, text: Seq<char>, i: int) -> nat {
        shared_tail(text.subrange(0, i), self.prefix) + shared_head(
            text.subrange(i + self.exact.len(), text.len() as int),
            self.suffix,
        )
    }

    /// Whether the text at character `i` is to be taken over that at `j`: more
    /// of the context stands beside it, or as much and it is nearer to `near`,
    /// or as near and it comes later.
    pub open spec fn outweighs(self, text: Seq<char>, near: Option<int>, i: int, j: int) -> bool {
        let (a, b) = (self.context(text, i), self.context(text, j));
        let (c, d) = (far_from(text, near, i), far_from(text, near, j));
        a > b || (a == b && (c < d || (c == d && i >= j)))
    }

    /// Whether the text at character `i` is the one to take.
    pub open spec fn is_best(self, text: Seq<char>, near: Option<int>, i: int) -> bool {
        &&& occurs(text, self.exact, i)
        &&& forall|j: int| #[trigger]
            occurs(text, self.exact, j) ==> self.outweighs(text, near, i, j)
    }

    /// Whether the text stands at byte `near`.
    pub open spec fn stands_at(self, text: Seq<char>, near: Option<int>) -> bool {
        near matches Some(near) && exists|i: int| #[trigger]
            occurs(text, self.exact, i) && text::byte_at(text, i) == near
    }

    /// The quote under a range.
    pub open spec fn of(doc: Doc, range: Selection) -> Option<QuoteView> {
        let text = flat_text(doc);
        match bytes_of(doc, range) {
            Some((start, end)) => {
                let i = char_of(text, start);
                let j = char_of(text, end);
                Some(
                    QuoteView {
                        exact: text.subrange(i, j),
                        prefix: tail_of(text.subrange(0, i), CONTEXT as nat),
                        suffix: head_of(text.subrange(j, text.len() as int), CONTEXT as nat),
                    },
                )
            },
            None => None,
        }
    }
}

/// Which character starts at a byte.
pub open spec fn char_of(text: Seq<char>, offset: int) -> int {
    choose|i: int| 0 <= i <= text.len() && #[trigger] text::byte_at(text, i) == offset
}

/// How many bytes character `i` is from `near`, none being far from nothing.
pub open spec fn far_from(text: Seq<char>, near: Option<int>, i: int) -> int {
    match near {
        Some(near) => if near <= text::byte_at(text, i) {
            text::byte_at(text, i) - near
        } else {
            near - text::byte_at(text, i)
        },
        None => 0,
    }
}

/// Whether a range can be quoted: its ends are where characters start.
pub open spec fn quotable(doc: Doc, range: Selection) -> bool {
    bytes_of(doc, range) matches Some((start, end)) ==> text::on_boundary(flat_text(doc), start)
        && text::on_boundary(flat_text(doc), end)
}

/// The last `count` characters of `text`.
pub fn tail<'a>(text: &'a [char], count: usize) -> (end: &'a [char])
    ensures
        end@ == tail_of(text@, count as nat),
{
    if text.len() <= count {
        text
    } else {
        slice_subrange(text, text.len() - count, text.len())
    }
}

/// The first `count` characters of `text`.
pub fn head<'a>(text: &'a [char], count: usize) -> (start: &'a [char])
    ensures
        start@ == head_of(text@, count as nat),
{
    if text.len() <= count {
        text
    } else {
        slice_subrange(text, 0, count)
    }
}

/// How many characters `a` and `b` share at their ends.
pub fn common_tail(a: &[char], b: &[char]) -> (n: usize)
    ensures
        n == shared_tail(a@, b@),
        n <= a@.len(),
{
    let mut n: usize = 0;
    assert(a@.subrange(0, a@.len() as int) =~= a@);
    assert(b@.subrange(0, b@.len() as int) =~= b@);
    while n < a.len() && n < b.len() && a[a.len() - 1 - n] == b[b.len() - 1 - n]
        invariant
            n <= a@.len(),
            n <= b@.len(),
            shared_tail(a@, b@) == n + shared_tail(
                a@.subrange(0, a@.len() - n),
                b@.subrange(0, b@.len() - n),
            ),
        decreases a@.len() - n,
    {
        proof {
            let left = a@.subrange(0, a@.len() - n);
            let right = b@.subrange(0, b@.len() - n);
            assert(left.drop_last() =~= a@.subrange(0, a@.len() - n - 1));
            assert(right.drop_last() =~= b@.subrange(0, b@.len() - n - 1));
        }
        n = n + 1;
    }
    n
}

/// How many characters `a` and `b` share at their starts.
pub fn common_head(a: &[char], b: &[char]) -> (n: usize)
    ensures
        n == shared_head(a@, b@),
        n <= a@.len(),
{
    let mut n: usize = 0;
    assert(a@.subrange(0, a@.len() as int) =~= a@);
    assert(b@.subrange(0, b@.len() as int) =~= b@);
    while n < a.len() && n < b.len() && a[n] == b[n]
        invariant
            n <= a@.len(),
            n <= b@.len(),
            shared_head(a@, b@) == n + shared_head(
                a@.subrange(n as int, a@.len() as int),
                b@.subrange(n as int, b@.len() as int),
            ),
        decreases a@.len() - n,
    {
        proof {
            let left = a@.subrange(n as int, a@.len() as int);
            let right = b@.subrange(n as int, b@.len() as int);
            assert(left.subrange(1, left.len() as int) =~= a@.subrange(n + 1, a@.len() as int));
            assert(right.subrange(1, right.len() as int) =~= b@.subrange(n + 1, b@.len() as int));
        }
        n = n + 1;
    }
    n
}

/// Whether `exact` starts at character `i` of `text`.
fn starts_at(text: &[char], exact: &[char], i: usize) -> (yes: bool)
    requires
        i <= text@.len(),
    ensures
        yes == occurs(text@, exact@, i as int),
{
    if exact.len() > text.len() - i {
        return false;
    }
    let mut n: usize = 0;
    while n < exact.len()
        invariant
            i + exact@.len() <= text.len(),
            n <= exact@.len(),
            forall|j: int| 0 <= j < n ==> text@[i + j] == exact@[j],
        decreases exact@.len() - n,
    {
        if text[i + n] != exact[n] {
            assert(text@.subrange(i as int, i + exact@.len())[n as int] == text@[i + n]);
            return false;
        }
        n = n + 1;
    }
    assert(text@.subrange(i as int, i + exact@.len()) =~= exact@);
    true
}

/// Every place `exact` starts, overlapping ones included.
pub fn occurrences(text: &[char], exact: &[char]) -> (places: Vec<usize>)
    ensures
        forall|i: int|
            0 <= i < places@.len() ==> (#[trigger] places@[i]) < text@.len() && occurs(
                text@,
                exact@,
                places@[i] as int,
            ),
        forall|i: int, j: int| 0 <= i < j < places@.len() ==> places@[i] < places@[j],
        forall|at: int|
            0 <= at < text@.len() && #[trigger] occurs(text@, exact@, at) ==> exists|i: int|
                0 <= i < places@.len() && places@[i] == at,
{
    let mut places: Vec<usize> = Vec::new();
    let mut at: usize = 0;
    while at < text.len()
        invariant
            at <= text@.len(),
            forall|i: int|
                0 <= i < places@.len() ==> (#[trigger] places@[i]) < at && occurs(
                    text@,
                    exact@,
                    places@[i] as int,
                ),
            forall|i: int, j: int| 0 <= i < j < places@.len() ==> places@[i] < places@[j],
            forall|k: int|
                0 <= k < at && #[trigger] occurs(text@, exact@, k) ==> exists|i: int|
                    0 <= i < places@.len() && places@[i] == k,
        decreases text@.len() - at,
    {
        let ghost before = places@;
        if starts_at(text, exact, at) {
            places.push(at);
        }
        proof {
            assert forall|k: int| 0 <= k <= at && #[trigger] occurs(text@, exact@, k) implies exists|
                i: int,
            | 0 <= i < places@.len() && places@[i] == k by {
                if k < at {
                    let i = choose|i: int| 0 <= i < before.len() && before[i] == k;
                    assert(places@[i] == k);
                } else {
                    assert(places@[places@.len() - 1] == k);
                }
            }
        }
        at = at + 1;
    }
    places
}

/// The texts of a document, as they are gathered.
spec fn gathered(pieces: Seq<(Cursor, Vec<char>)>) -> Seq<Passage> {
    pieces.map_values(|piece: (Cursor, Vec<char>)| Passage { at: piece.0, text: piece.1@ })
}

/// Every text of a document, in document order.
fn gather(doc: &Doc) -> (pieces: Vec<(Cursor, Vec<char>)>)
    requires
        doc.fits(),
    ensures
        gathered(pieces@) == passages(*doc),
{
    let mut pieces: Vec<(Cursor, Vec<char>)> = Vec::new();
    let mut ix: usize = 0;
    assert(gathered(pieces@) =~= Seq::empty());
    while ix < doc.blocks.len()
        invariant
            doc.fits(),
            ix <= doc.blocks@.len(),
            gathered(pieces@) == passages_to(doc.blocks@, ix as int),
        decreases doc.blocks@.len() - ix,
    {
        let block = &doc.blocks[ix];
        assert(doc.blocks@[ix as int].fits());
        let parts = block.parts();
        let ghost above = gathered(pieces@);
        let mut n: usize = 0;
        assert(gathered(pieces@) =~= above + block_passages(*block, ix as int, 0));
        while n < parts.len()
            invariant
                n <= parts@.len(),
                parts@ == block.listed(),
                gathered(pieces@) == above + block_passages(*block, ix as int, n as int),
            decreases parts@.len() - n,
        {
            let part = parts[n];
            let ghost before = pieces@;
            if let Some(body) = block.text_at(part) {
                let at = Cursor { block: ix, part, offset: 0 };
                let chars = chars_of(body.text.as_str());
                pieces.push((at, chars));
                proof {
                    assert(gathered(pieces@) =~= gathered(before).push(
                        Passage { at, text: chars@ },
                    ));
                }
            }
            n = n + 1;
            assert(gathered(pieces@) =~= above + block_passages(*block, ix as int, n as int));
        }
        ix = ix + 1;
    }
    pieces
}

/// The texts of a document laid end to end, a newline between each.
fn join(pieces: &Vec<(Cursor, Vec<char>)>) -> (chars: Vec<char>)
    ensures
        chars@ == joined(gathered(pieces@), pieces@.len() as int),
{
    let mut chars: Vec<char> = Vec::new();
    let ghost all = gathered(pieces@);
    let mut k: usize = 0;
    assert(chars@ =~= joined(all, 0));
    while k < pieces.len()
        invariant
            all == gathered(pieces@),
            k <= pieces@.len(),
            chars@ == joined(all, k as int),
        decreases pieces@.len() - k,
    {
        assert(all[k as int].text == pieces@[k as int].1@);
        if k > 0 {
            chars.push('\n');
        }
        push_chars(&mut chars, &pieces[k].1);
        assert(chars@ =~= joined(all, k + 1));
        k = k + 1;
    }
    chars
}

/// The flat text grows by each text, and a newline before it.
proof fn lemma_joined_step(passages: Seq<Passage>, n: int)
    requires
        0 < n <= passages.len(),
    ensures
        text::byte_len(joined(passages, n)) == start_of(passages, n - 1) + text::byte_len(
            passages[n - 1].text,
        ),
{
    if n > 1 {
        let before = joined(passages, n - 1);
        let line = seq!['\n'];
        assert(before.push('\n') =~= before + line);
        text::lemma_byte_len_concat(before.push('\n'), passages[n - 1].text);
        text::lemma_byte_len_concat(before, line);
        reveal_with_fuel(text::byte_len, 2);
        assert(line.drop_last() =~= Seq::empty());
    }
}

/// Later texts start later, and past the ends of those before them.
proof fn lemma_starts(passages: Seq<Passage>, i: int, j: int)
    requires
        0 <= i < j <= passages.len(),
    ensures
        start_of(passages, i) + text::byte_len(passages[i].text) < start_of(passages, j),
        text::byte_len(joined(passages, i + 1)) <= text::byte_len(joined(passages, j)),
    decreases j - i,
{
    lemma_joined_step(passages, i + 1);
    if i + 1 < j {
        lemma_starts(passages, i, j - 1);
        lemma_joined_step(passages, j);
    }
}

/// Every text part of a document laid end to end.
pub struct Flat {
    chars: Vec<char>,
    /// Where each part starts in the text, and the cursor at its offset zero.
    parts: Vec<(usize, Cursor)>,
    /// How many bytes the text takes.
    len: usize,
    /// The texts it is of.
    passages: Ghost<Seq<Passage>>,
}

impl View for Flat {
    type V = Seq<Passage>;

    closed spec fn view(&self) -> Seq<Passage> {
        self.passages@
    }
}

impl Flat {
    /// Whether this is its passages laid end to end.
    pub closed spec fn wf(&self) -> bool {
        let passages = self@;
        let n = passages.len() as int;
        &&& self.chars@ == joined(passages, n)
        &&& self.len == text::byte_len(self.chars@)
        &&& self.parts@.len() == n
        &&& forall|k: int|
            0 <= k < n ==> (#[trigger] self.parts@[k]).0 == start_of(passages, k)
                && self.parts@[k].1 == passages[k].at
    }

    pub fn new(doc: &Doc) -> (flat: Flat)
        requires
            doc.fits(),
        ensures
            flat.wf(),
            flat@ == passages(*doc),
    {
        let pieces = gather(doc);
        let ghost all = passages(*doc);
        let ghost whole = joined(all, all.len() as int);
        let chars = join(&pieces);
        // As a text it has a length, and so has all of it that comes before.
        let _ = string_of(&chars);
        let mut parts: Vec<(usize, Cursor)> = Vec::new();
        let mut len: usize = 0;
        let mut k: usize = 0;
        assert(joined(all, 0) =~= Seq::empty());
        while k < pieces.len()
            invariant
                all == gathered(pieces@),
                whole == joined(all, all.len() as int),
                text::byte_len(whole) <= usize::MAX,
                k <= pieces@.len(),
                len == text::byte_len(joined(all, k as int)),
                parts@.len() == k,
                forall|i: int|
                    0 <= i < k ==> (#[trigger] parts@[i]).0 == start_of(all, i) && parts@[i].1
                        == all[i].at,
            decreases pieces@.len() - k,
        {
            proof {
                lemma_joined_step(all, k + 1);
                if k + 1 < all.len() {
                    lemma_starts(all, k as int, all.len() as int);
                }
                assert(all[k as int] == (Passage {
                    at: pieces@[k as int].0,
                    text: pieces@[k as int].1@,
                }));
            }
            if k > 0 {
                len = len + 1;
            }
            parts.push((len, pieces[k].0));
            len = len + bytes_in(&pieces[k].1);
            k = k + 1;
        }
        Flat { chars, parts, len, passages: Ghost(all) }
    }

    /// Where `cursor` falls in the flat text.
    pub fn index(&self, cursor: Cursor) -> (at: Option<usize>)
        requires
            self.wf(),
        ensures
            at is Some <==> index_of(self@, cursor) is Some,
            at matches Some(at) ==> at == index_of(self@, cursor)->0 && at <= text::byte_len(
                joined(self@, self@.len() as int),
            ),
    {
        let ghost passages = self@;
        let mut k: usize = 0;
        while k < self.parts.len()
            invariant
                self.wf(),
                passages == self@,
                k <= self.parts@.len(),
                passage_of(passages, cursor) == passage_from(passages, cursor, k as int),
            decreases self.parts@.len() - k,
        {
            let (start, held) = self.parts[k];
            if held.block == cursor.block && held.part == cursor.part {
                let end = if k + 1 < self.parts.len() {
                    proof {
                        lemma_joined_step(passages, k + 1);
                    }
                    self.parts[k + 1].0 - 1
                } else {
                    proof {
                        lemma_joined_step(passages, k + 1);
                    }
                    self.len
                };
                proof {
                    lemma_joined_step(passages, k + 1);
                    if k + 1 < passages.len() {
                        lemma_starts(passages, k as int, passages.len() as int);
                    }
                }
                return Some(
                    if cursor.offset <= end - start {
                        start + cursor.offset
                    } else {
                        end
                    },
                );
            }
            k = k + 1;
        }
        None
    }

    /// The cursor at flat index `at`: in the last part starting at or before it.
    pub fn cursor(&self, at: usize) -> (cursor: Option<Cursor>)
        requires
            self.wf(),
        ensures
            cursor is Some <==> self@.len() > 0,
            cursor matches Some(cursor) ==> cursor == position_at(self@, at as int),
    {
        let ghost passages = self@;
        let mut k: usize = self.parts.len();
        while k > 0
            invariant
                self.wf(),
                passages == self@,
                k <= self.parts@.len(),
                k < passages.len() ==> at < start_of(passages, k as int),
            decreases k,
        {
            k = k - 1;
            let (start, cursor) = self.parts[k];
            if start <= at {
                proof {
                    assert(holds_byte(passages, at as int, k as int));
                    let held = choose|k: int| holds_byte(passages, at as int, k);
                    lemma_holds_once(passages, at as int, k as int, held);
                }
                return Some(Cursor { offset: at - start, ..cursor });
            }
        }
        None
    }
}

/// One text alone holds a byte.
proof fn lemma_holds_once(passages: Seq<Passage>, at: int, i: int, j: int)
    requires
        holds_byte(passages, at, i),
        holds_byte(passages, at, j),
    ensures
        i == j,
{
    if i < j {
        if i + 1 < j {
            lemma_starts(passages, i + 1, j);
        }
    } else if j < i {
        if j + 1 < i {
            lemma_starts(passages, j + 1, i);
        }
    }
}

fn push_chars(out: &mut Vec<char>, chars: &Vec<char>)
    ensures
        final(out)@ == old(out)@ + chars@,
{
    let mut i: usize = 0;
    assert(out@ =~= old(out)@ + chars@.subrange(0, 0));
    while i < chars.len()
        invariant
            i <= chars@.len(),
            out@ == old(out)@ + chars@.subrange(0, i as int),
        decreases chars@.len() - i,
    {
        out.push(chars[i]);
        i = i + 1;
        assert(out@ =~= old(out)@ + chars@.subrange(0, i as int));
    }
    assert(chars@.subrange(0, i as int) =~= chars@);
}

impl Quote {
    /// The quote under `range`, or `None` for a collapsed range.
    ///
    /// Text parts are read in document order with a newline between each, so a
    /// range across blocks quotes the break as `\n`.
    pub fn of(doc: &Doc, range: Selection) -> (quote: Option<Quote>)
        requires
            doc.fits(),
            quotable(*doc, range),
        ensures
            quote is Some <==> QuoteView::of(*doc, range) is Some,
            quote is Some ==> quote->0@ == QuoteView::of(*doc, range)->0,
    {
        let flat = Flat::new(doc);
        let ghost all = passages(*doc);
        let (start, end) = range.clamp(doc).ordered();
        let Some(start) = flat.index(start) else {
            return None;
        };
        let Some(end) = flat.index(end) else {
            return None;
        };
        if start >= end {
            return None;
        }
        let text = flat.chars.as_slice();
        let (Some(i), Some(j)) = (char_at(text, start), char_at(text, end)) else {
            return None;
        };
        proof {
            let held = char_of(text@, start as int);
            assert(0 <= i <= text@.len() && text::byte_at(text@, i as int) == start);
            text::lemma_boundary_unique(text@, i as int, held);
            let held = char_of(text@, end as int);
            assert(0 <= j <= text@.len() && text::byte_at(text@, j as int) == end);
            text::lemma_boundary_unique(text@, j as int, held);
            if j < i {
                text::lemma_byte_at_order(text@, j as int, i as int);
            }
        }
        let quote = Quote {
            exact: string_of(slice_subrange(text, i, j)),
            prefix: string_of(tail(slice_subrange(text, 0, i), CONTEXT)),
            suffix: string_of(head(slice_subrange(text, j, text.len()), CONTEXT)),
        };
        assert(quote@ =~= QuoteView::of(*doc, range)->0);
        Some(quote)
    }

    /// Where the quote is in `doc`, or `None` when its text is gone.
    ///
    /// `hint` is the range as last saved. Where it still covers the exact
    /// text, it is the answer. Otherwise every occurrence is weighed by how
    /// much of the prefix and suffix still stand beside it, and a tie goes to
    /// the one nearest the hint.
    pub fn find(&self, doc: &Doc, hint: Option<Selection>) -> (found: Option<Selection>)
        requires
            doc.fits(),
        ensures
            found_by(self@, *doc, hint, found),
    {
        let exact = chars_of(self.exact.as_str());
        if exact.len() == 0 {
            return None;
        }
        let flat = Flat::new(doc);
        let ghost all = passages(*doc);
        let text = flat.chars.as_slice();
        let near: Option<usize> = match hint {
            Some(hint) => flat.index(hint.clamp(doc).ordered().0),
            None => None,
        };
        let ghost spot = near_of(*doc, hint);
        assert(match near {
            Some(near) => spot == Some(near as int),
            None => spot is None,
        });
        if let Some(at) = near {
            if let Some(i) = char_at(text, at) {
                if starts_at(text, &exact, i) {
                    proof {
                        lemma_span(text@, exact@, i as int);
                        assert(self@.stands_at(text@, spot));
                        lemma_some_passage(all);
                    }
                    return flat.range(at, at + bytes_in(&exact));
                } else {
                    proof {
                        assert forall|k: int| #[trigger]
                            occurs(text@, exact@, k) implies text::byte_at(text@, k) != at by {
                            if text::byte_at(text@, k) == at {
                                text::lemma_boundary_unique(text@, k, i as int);
                            }
                        }
                    }
                }
            } else {
                proof {
                    assert forall|k: int| #[trigger] occurs(text@, exact@, k) implies text::byte_at(
                        text@,
                        k,
                    ) != at by {
                        assert(0 <= k <= text@.len());
                    }
                }
            }
        }
        assert(!self@.stands_at(text@, spot));
        let prefix = chars_of(self.prefix.as_str());
        let suffix = chars_of(self.suffix.as_str());
        let places = occurrences(text, &exact);
        if places.len() == 0 {
            proof {
                assert forall|k: int| !#[trigger] occurs(text@, exact@, k) by {
                    if occurs(text@, exact@, k) {
                        assert(k < text@.len());
                    }
                }
            }
            return None;
        }
        let mut best: usize = places[0];
        let mut weight = weigh(text, &exact, &prefix, &suffix, near, best);
        let mut n: usize = 1;
        while n < places.len()
            invariant
                text@ == flat_text(*doc),
                text::byte_len(text@) <= usize::MAX,
                exact@ == self@.exact,
                exact@.len() > 0,
                prefix@ == self@.prefix,
                suffix@ == self@.suffix,
                match near {
                    Some(near) => spot == Some(near as int),
                    None => spot is None,
                },
                1 <= n <= places@.len(),
                forall|i: int|
                    0 <= i < places@.len() ==> (#[trigger] places@[i]) < text@.len() && occurs(
                        text@,
                        exact@,
                        places@[i] as int,
                    ),
                forall|i: int, j: int| 0 <= i < j < places@.len() ==> places@[i] < places@[j],
                occurs(text@, exact@, best as int),
                exists|i: int| 0 <= i < n && places@[i] == best,
                weight == (
                    self@.context(text@, best as int) as usize,
                    far_from(text@, spot, best as int) as usize,
                ),
                self@.context(text@, best as int) <= usize::MAX,
                0 <= far_from(text@, spot, best as int) <= usize::MAX,
                forall|i: int|
                    0 <= i < n ==> self@.outweighs(
                        text@,
                        spot,
                        best as int,
                        #[trigger] places@[i] as int,
                    ),
            decreases places@.len() - n,
        {
            let at = places[n];
            let other = weigh(text, &exact, &prefix, &suffix, near, at);
            proof {
                let i = choose|i: int| 0 <= i < n && places@[i] == best;
                assert(places@[i] < places@[n as int]);
            }
            if other.0 > weight.0 || (other.0 == weight.0 && other.1 <= weight.1) {
                best = at;
                weight = other;
            }
            n = n + 1;
            proof {
                assert(places@[n - 1] == at);
            }
        }
        proof {
            assert(self@.is_best(text@, spot, best as int)) by {
                assert forall|j: int| #[trigger] occurs(text@, exact@, j) implies self@.outweighs(
                    text@,
                    spot,
                    best as int,
                    j,
                ) by {
                    assert(j < text@.len());
                    let i = choose|i: int| 0 <= i < places@.len() && places@[i] == j;
                    assert(self@.outweighs(text@, spot, best as int, places@[i] as int));
                }
            }
            lemma_span(text@, exact@, best as int);
            lemma_some_passage(all);
        }
        let start = bytes_in(slice_subrange(text, 0, best));
        flat.range(start, start + bytes_in(&exact))
    }
}

/// Where a hint starts in a document's flat text.
pub open spec fn near_of(doc: Doc, hint: Option<Selection>) -> Option<int> {
    match hint {
        Some(hint) => index_of(passages(doc), hint.held(doc).ends().0),
        None => None,
    }
}

/// Whether `found` is where a quote is in a document: at the hint while it
/// still covers the text, else at the occurrence to take, and nowhere when the
/// text is gone.
pub open spec fn found_by(
    quote: QuoteView,
    doc: Doc,
    hint: Option<Selection>,
    found: Option<Selection>,
) -> bool {
    let text = flat_text(doc);
    let near = near_of(doc, hint);
    let len = text::byte_len(quote.exact);
    if quote.exact.len() == 0 {
        found is None
    } else if quote.stands_at(text, near) {
        found == Some(range_between(passages(doc), near->0, near->0 + len))
    } else if exists|i: int| #[trigger] occurs(text, quote.exact, i) {
        exists|i: int| #[trigger]
            quote.is_best(text, near, i) && found == Some(
                range_between(
                    passages(doc),
                    text::byte_at(text, i) as int,
                    (text::byte_at(text, i) + len) as int,
                ),
            )
    } else {
        found is None
    }
}

/// How much a place weighs: how much of the context stands beside it, and how
/// far from the hint it is.
fn weigh(
    text: &[char],
    exact: &Vec<char>,
    prefix: &Vec<char>,
    suffix: &Vec<char>,
    near: Option<usize>,
    at: usize,
) -> (weight: (usize, usize))
    requires
        text::byte_len(text@) <= usize::MAX,
        occurs(text@, exact@, at as int),
    ensures
        ({
            let quote = QuoteView { exact: exact@, prefix: prefix@, suffix: suffix@ };
            let spot = match near {
                Some(near) => Some(near as int),
                None => None,
            };
            &&& weight.0 == quote.context(text@, at as int)
            &&& weight.1 == far_from(text@, spot, at as int)
        }),
{
    assert(at + exact@.len() <= text.len());
    let end = at + exact.len();
    let before = common_tail(slice_subrange(text, 0, at), prefix);
    let after = common_head(slice_subrange(text, end, text.len()), suffix);
    let distance = match near {
        Some(near) => {
            proof {
                text::lemma_byte_at_order(text@, at as int, text@.len() as int);
                text::lemma_byte_at_end(text@);
            }
            let byte = bytes_in(slice_subrange(text, 0, at));
            if near <= byte {
                byte - near
            } else {
                near - byte
            }
        },
        None => 0,
    };
    proof {
        assert(before + after <= text.len());
    }
    (before + after, distance)
}

/// The bytes a run of characters spans.
proof fn lemma_span(text: Seq<char>, exact: Seq<char>, i: int)
    requires
        occurs(text, exact, i),
    ensures
        text::byte_at(text, i + exact.len()) == text::byte_at(text, i) + text::byte_len(exact),
        text::byte_at(text, i + exact.len()) <= text::byte_len(text),
{
    assert(text.subrange(0, i + exact.len()) =~= text.subrange(0, i) + exact);
    text::lemma_byte_len_concat(text.subrange(0, i), exact);
    text::lemma_byte_at_order(text, i + exact.len(), text.len() as int);
    text::lemma_byte_at_end(text);
}

/// A text laid end to end that is not empty has something laid in it.
proof fn lemma_some_passage(passages: Seq<Passage>)
    ensures
        joined(passages, passages.len() as int).len() > 0 ==> passages.len() > 0,
{
}

impl Flat {
    /// The range from one byte to another.
    fn range(&self, start: usize, end: usize) -> (range: Option<Selection>)
        requires
            self.wf(),
        ensures
            range is Some <==> self@.len() > 0,
            range matches Some(range) ==> range == range_between(self@, start as int, end as int),
    {
        let Some(start) = self.cursor(start) else {
            return None;
        };
        let Some(end) = self.cursor(end) else {
            return None;
        };
        Some(Selection::new(start, end))
    }
}

/// A text of a block is the block's text at that part.
proof fn lemma_block_passage(block: Block, ix: int, n: int, k: int)
    requires
        0 <= n <= block.listed().len(),
        0 <= k < block_passages(block, ix, n).len(),
    ensures
        ({
            let passage = block_passages(block, ix, n)[k];
            &&& passage.at.block == ix as usize
            &&& passage.at.offset == 0
            &&& block.text_in(passage.at.part) is Some
            &&& passage.text == block.text_in(passage.at.part)->0.text@
        }),
    decreases n,
{
    if n > 0 && k < block_passages(block, ix, n - 1).len() {
        lemma_block_passage(block, ix, n - 1, k);
    }
}

/// A text of a document is its block's text at that part.
proof fn lemma_passage(doc: Doc, n: int, k: int)
    requires
        0 <= n <= doc.blocks@.len(),
        0 <= k < passages_to(doc.blocks@, n).len(),
    ensures
        ({
            let passage = passages_to(doc.blocks@, n)[k];
            let block = doc.blocks@[passage.at.block as int];
            &&& passage.at.block < n
            &&& passage.at.offset == 0
            &&& block.text_in(passage.at.part) is Some
            &&& passage.text == block.text_in(passage.at.part)->0.text@
        }),
    decreases n,
{
    if n > 0 {
        let before = passages_to(doc.blocks@, n - 1);
        let block = doc.blocks@[n - 1];
        if k < before.len() {
            lemma_passage(doc, n - 1, k);
        } else {
            assert(n <= doc.blocks.len());
            lemma_block_passage(block, n - 1, block.listed().len() as int, k - before.len());
        }
    }
}

/// The text a position is found in is its own.
proof fn lemma_passage_from(passages: Seq<Passage>, at: Cursor, k: int)
    requires
        0 <= k,
        passage_from(passages, at, k) is Some,
    ensures
        is_in(passages, at, passage_from(passages, at, k)->0),
    decreases passages.len() - k,
{
    if k < passages.len() && !is_in(passages, at, k) {
        lemma_passage_from(passages, at, k + 1);
    }
}

/// The cells of a row are listed, each in its column's place.
proof fn lemma_row_parts(row: int, n: int, column: int)
    requires
        0 <= column < n,
    ensures
        doc::row_parts(row, n).len() == n,
        doc::row_parts(row, n)[column] == (Part::Cell { row: row as usize, column: column as usize }),
    decreases n,
{
    reveal_with_fuel(doc::row_parts, 2);
    if column < n - 1 {
        lemma_row_parts(row, n - 1, column);
    } else if n > 1 {
        lemma_row_parts(row, n - 1, 0);
    }
}

/// Every cell of a table is listed.
proof fn lemma_table_parts(
    header: Seq<Text>,
    rows: Seq<Vec<Text>>,
    n: int,
    row: int,
    column: int,
) -> (i: int)
    requires
        0 <= row <= n <= rows.len(),
        0 <= column < (if row == 0 {
            header.len()
        } else {
            rows[row - 1]@.len()
        }),
    ensures
        0 <= i < doc::table_parts(header, rows, n).len(),
        doc::table_parts(header, rows, n)[i] == (Part::Cell {
            row: row as usize,
            column: column as usize,
        }),
    decreases n,
{
    if n == 0 {
        lemma_row_parts(0, header.len() as int, column);
        column
    } else if row < n {
        lemma_table_parts(header, rows, n - 1, row, column)
    } else {
        lemma_row_parts(n, rows[n - 1]@.len() as int, column);
        doc::table_parts(header, rows, n - 1).len() + column
    }
}

/// Every text a block has is listed.
proof fn lemma_listed(block: Block, part: Part) -> (i: int)
    requires
        block.text_in(part) is Some,
    ensures
        0 <= i < block.listed().len(),
        block.listed()[i] == part,
{
    match (block.kind, part) {
        (BlockKind::Table { header, rows, .. }, Part::Cell { row, column }) => lemma_table_parts(
            header@,
            rows@,
            rows@.len() as int,
            row as int,
            column as int,
        ),
        _ => 0,
    }
}

/// A text that is listed is among the texts of a block.
proof fn lemma_block_holds(block: Block, ix: int, n: int, i: int) -> (k: int)
    requires
        0 <= i < n <= block.listed().len(),
        block.text_in(block.listed()[i]) is Some,
    ensures
        0 <= k < block_passages(block, ix, n).len(),
        block_passages(block, ix, n)[k].at == (Cursor {
            block: ix as usize,
            part: block.listed()[i],
            offset: 0,
        }),
    decreases n,
{
    if i < n - 1 {
        lemma_block_holds(block, ix, n - 1, i)
    } else {
        block_passages(block, ix, n - 1).len() as int
    }
}

/// A position in a text of a document is in one of its passages.
proof fn lemma_doc_holds(blocks: Seq<Block>, n: int, at: Cursor) -> (k: int)
    requires
        at.block < n <= blocks.len(),
        blocks[at.block as int].text_in(at.part) is Some,
    ensures
        is_in(passages_to(blocks, n), at, k),
    decreases n,
{
    if at.block < n - 1 {
        lemma_doc_holds(blocks, n - 1, at)
    } else {
        let block = blocks[n - 1];
        let i = lemma_listed(block, at.part);
        let k = lemma_block_holds(block, n - 1, block.listed().len() as int, i);
        passages_to(blocks, n - 1).len() + k
    }
}

/// A position that is in a passage is found in one.
proof fn lemma_found_from(passages: Seq<Passage>, at: Cursor, k: int, j: int)
    requires
        0 <= k <= j,
        is_in(passages, at, j),
    ensures
        passage_from(passages, at, k) is Some,
    decreases passages.len() - k,
{
    if !is_in(passages, at, k) {
        lemma_found_from(passages, at, k + 1, j);
    }
}

/// A position in a text of a document has a place in the flat text, and is the
/// position there: the end of one text and the start of the next never share
/// one.
pub proof fn a_position_comes_back_from_the_flat_text(doc: Doc, at: Cursor)
    requires
        at.block < doc.blocks@.len(),
        doc.blocks@[at.block as int].text_in(at.part) matches Some(text) && at.offset
            <= text::byte_len(text.text@),
    ensures
        index_of(passages(doc), at) is Some,
        position_at(passages(doc), index_of(passages(doc), at)->0) == at,
{
    let all = passages(doc);
    let j = lemma_doc_holds(doc.blocks@, doc.blocks@.len() as int, at);
    lemma_found_from(all, at, 0, j);
    lemma_passage_from(all, at, 0);
    let k = passage_of(all, at)->0;
    let byte = index_of(all, at)->0;
    lemma_passage(doc, doc.blocks@.len() as int, k);
    if k + 1 < all.len() {
        lemma_starts(all, k, k + 1);
    }
    assert(holds_byte(all, byte, k));
    let other = choose|k: int| holds_byte(all, byte, k);
    lemma_holds_once(all, byte, k, other);
}

/// A position held inside a document is the position at where it falls in the
/// flat text.
pub proof fn a_position_survives_the_flat_text(doc: Doc, at: Cursor)
    requires
        index_of(passages(doc), doc.nearest(at)) is Some,
    ensures
        position_at(passages(doc), index_of(passages(doc), doc.nearest(at))->0) == doc.nearest(at),
{
    let all = passages(doc);
    let held = doc.nearest(at);
    lemma_passage_from(all, held, 0);
    let k = passage_of(all, held)->0;
    let byte = index_of(all, held)->0;
    lemma_passage(doc, doc.blocks@.len() as int, k);
    if k + 1 < all.len() {
        lemma_starts(all, k, k + 1);
    }
    assert(holds_byte(all, byte, k));
    let other = choose|k: int| holds_byte(all, byte, k);
    lemma_holds_once(all, byte, k, other);
}

/// A quote is found where it was taken: in the document it was taken from,
/// with its own range for a hint, it is that range.
pub proof fn a_quote_is_found_where_it_was_taken(
    doc: Doc,
    range: Selection,
    found: Option<Selection>,
)
    requires
        quotable(doc, range),
        QuoteView::of(doc, range) is Some,
        found_by(QuoteView::of(doc, range)->0, doc, Some(range), found),
    ensures
        found == Some(
            (Selection {
                anchor: range.held(doc).ends().0,
                head: range.held(doc).ends().1,
            }),
        ),
{
    let text = flat_text(doc);
    let quote = QuoteView::of(doc, range)->0;
    let (start, end) = bytes_of(doc, range)->0;
    let i = char_of(text, start);
    let j = char_of(text, end);
    assert(0 <= i <= text.len() && text::byte_at(text, i) == start);
    assert(0 <= j <= text.len() && text::byte_at(text, j) == end);
    if j <= i {
        text::lemma_byte_at_order(text, j, i);
    }
    assert(occurs(text, quote.exact, i));
    lemma_span(text, quote.exact, i);
    assert(quote.stands_at(text, Some(start)));
    let held = range.held(doc);
    if held.head.before(held.anchor) {
        a_position_survives_the_flat_text(doc, range.head);
        a_position_survives_the_flat_text(doc, range.anchor);
    } else {
        a_position_survives_the_flat_text(doc, range.anchor);
        a_position_survives_the_flat_text(doc, range.head);
    }
}

/// What is found says what was quoted: the text between its ends is the
/// quote's own.
pub proof fn what_is_found_is_the_quoted_text(
    quote: QuoteView,
    doc: Doc,
    hint: Option<Selection>,
    found: Option<Selection>,
) -> (i: int)
    requires
        found_by(quote, doc, hint, found),
        found is Some,
    ensures
        occurs(flat_text(doc), quote.exact, i),
        found == Some(
            range_between(
                passages(doc),
                text::byte_at(flat_text(doc), i) as int,
                text::byte_at(flat_text(doc), i + quote.exact.len()) as int,
            ),
        ),
{
    let text = flat_text(doc);
    let near = near_of(doc, hint);
    let i = if quote.stands_at(text, near) {
        choose|i: int| #[trigger]
            occurs(text, quote.exact, i) && text::byte_at(text, i) == near->0
    } else {
        choose|i: int| #[trigger]
            quote.is_best(text, near, i) && found == Some(
                range_between(
                    passages(doc),
                    text::byte_at(text, i) as int,
                    (text::byte_at(text, i) + text::byte_len(quote.exact)) as int,
                ),
            )
    };
    lemma_span(text, quote.exact, i);
    i
}

} // verus!
