//! What typing does: the marks it carries, the block a typed prefix spells, the
//! mark a closing delimiter closes, and the menu a `/` opens.

use vstd::prelude::*;

use crate::editor::anchor::{Delta, Splice};
use crate::editor::history::EditKind;
use crate::editor::surface::{Change, Editor, Menus};
use crate::markdown::doc::{
    BlockKind, Cursor, Doc, Mark, MarkSpan, Part, QuoteKind, Selection, Span, Text,
};
use crate::text;
use crate::text::{bytes_in, char_at, chars_of};

verus! {

/// What tab inserts in the source, where there are no blocks to indent: two
/// spaces, which is what markdown's own nesting is written in.
pub const INDENT: usize = 2;

/// A range of nothing, at a position held inside a document.
pub open spec fn held_at(doc: Doc, at: Cursor) -> Selection {
    Selection { anchor: doc.nearest(at), head: doc.nearest(at) }
}

/// The delta for some bytes taken out of the text `at` is in — what an anchor
/// sitting in that text has to move through.
pub open spec fn taken_from(at: Cursor, range: Span) -> Delta {
    let start = Cursor { offset: range.start, ..at };
    Delta::Spliced(
        Splice {
            removed: Selection { anchor: start, head: Cursor { offset: range.end, ..at } },
            caret: start,
            blocks: 0,
        },
    )
}

/// The delta for `range` taken out of the text `at` is in.
pub fn taken(at: Cursor, range: Span) -> (delta: Delta)
    ensures
        delta == taken_from(at, range),
{
    let start = Cursor::new(at.block, at.part, range.start);
    Delta::Spliced(
        Splice {
            removed: Selection::new(start, Cursor::new(at.block, at.part, range.end)),
            caret: start,
            blocks: 0,
        },
    )
}

/// What a typed prefix of `len` bytes, spelling a block, leaves of a caret at
/// `at`, and what it took. A prefix is block syntax; inside a code fence or a
/// table cell it is the literal text the author typed. And only up to the
/// caret: a `- ` typed in the middle of a sentence is a hyphen.
pub fn apply_shortcut(at: Cursor, len: usize) -> (applied: Option<(Cursor, Delta)>)
    ensures
        applied == (if at.part == Part::Body && at.offset >= len {
            Some(
                (
                    Cursor { offset: (at.offset - len) as usize, ..at },
                    taken_from(at, Span { start: 0, end: len }),
                ),
            )
        } else {
            None
        }),
{
    if at.part != Part::Body || at.offset < len {
        return None;
    }
    Some(
        (
            Cursor::new(at.block, Part::Body, at.offset - len),
            taken(at, Span { start: 0, end: len }),
        ),
    )
}

/// What a closing delimiter, typed at `at`, leaves of the caret, and what is
/// taken: the closing delimiter and then the opening one, which is `open`, with
/// `inner` between them. In the order the two removals go: the opening
/// delimiter is ahead of the closing one, so taking that one first leaves its
/// offsets standing. Code is literal to its closing fence, and a caption holds
/// no mark a `![...]` could spell.
pub fn apply_inline_rule(at: Cursor, open: Span, inner: Span) -> (applied: Option<
    (Cursor, Delta, Delta),
>)
    requires
        open.start <= open.end,
        2 * (open.end - open.start) <= at.offset,
    ensures
        applied == (if at.part == Part::Code || at.part == Part::Caption {
            None
        } else {
            Some(
                (
                    Cursor { offset: (at.offset - 2 * (open.end - open.start)) as usize, ..at },
                    taken_from(at, Span { start: inner.end, end: at.offset }),
                    taken_from(at, open),
                ),
            )
        }),
{
    if at.part == Part::Code || at.part == Part::Caption {
        return None;
    }
    let width = open.end - open.start;
    Some(
        (
            Cursor::new(at.block, at.part, at.offset - width - width),
            taken(at, Span { start: inner.end, end: at.offset }),
            taken(at, open),
        ),
    )
}

/// A letter as it reads without its case.
pub open spec fn uncased(c: char) -> int {
    if 'A' as int <= c as int <= 'Z' as int {
        c as int + 32
    } else {
        c as int
    }
}

/// Whether two texts read alike but for the case of their letters.
pub open spec fn reads_as(a: Seq<char>, b: Seq<char>) -> bool {
    a.len() == b.len() && forall|i: int|
        0 <= i < a.len() ==> uncased(#[trigger] a[i]) == uncased(b[i])
}

impl QuoteKind {
    /// What opens an alert of a kind.
    pub open spec fn opening(self) -> Seq<char> {
        match self {
            QuoteKind::Note => "[!NOTE]"@,
            QuoteKind::Tip => "[!TIP]"@,
            QuoteKind::Important => "[!IMPORTANT]"@,
            QuoteKind::Warning => "[!WARNING]"@,
            QuoteKind::Caution => "[!CAUTION]"@,
        }
    }

    /// What opens an alert of a kind.
    pub fn marker(self) -> (marker: &'static str)
        ensures
            marker@ == self.opening(),
    {
        match self {
            QuoteKind::Note => "[!NOTE]",
            QuoteKind::Tip => "[!TIP]",
            QuoteKind::Important => "[!IMPORTANT]",
            QuoteKind::Warning => "[!WARNING]",
            QuoteKind::Caution => "[!CAUTION]",
        }
    }
}

fn without_case(c: char) -> (n: u32)
    ensures
        n == uncased(c),
{
    let n = c as u32;
    if 65 <= n && n <= 90 {
        n + 32
    } else {
        n
    }
}

fn reads_alike(a: &[char], b: &str) -> (yes: bool)
    ensures
        yes == reads_as(a@, b@),
{
    let other = chars_of(b);
    if a.len() != other.len() {
        return false;
    }
    let mut i: usize = 0;
    while i < a.len()
        invariant
            i <= a@.len() == other@.len(),
            other@ == b@,
            forall|j: int| 0 <= j < i ==> uncased(#[trigger] a@[j]) == uncased(b@[j]),
        decreases a@.len() - i,
    {
        if without_case(a[i]) != without_case(other[i]) {
            assert(uncased(a@[i as int]) != uncased(b@[i as int]));
            return false;
        }
        i = i + 1;
    }
    true
}

/// The kind of alert a line opens, in the order the kinds are listed.
pub open spec fn opens(line: Seq<char>) -> Option<QuoteKind> {
    if reads_as(line, QuoteKind::Note.opening()) {
        Some(QuoteKind::Note)
    } else if reads_as(line, QuoteKind::Tip.opening()) {
        Some(QuoteKind::Tip)
    } else if reads_as(line, QuoteKind::Important.opening()) {
        Some(QuoteKind::Important)
    } else if reads_as(line, QuoteKind::Warning.opening()) {
        Some(QuoteKind::Warning)
    } else if reads_as(line, QuoteKind::Caution.opening()) {
        Some(QuoteKind::Caution)
    } else {
        None
    }
}

/// The kind of alert a line opens.
pub fn quote_marker(line: &[char]) -> (kind: Option<QuoteKind>)
    ensures
        kind == opens(line@),
{
    if reads_alike(line, QuoteKind::Note.marker()) {
        Some(QuoteKind::Note)
    } else if reads_alike(line, QuoteKind::Tip.marker()) {
        Some(QuoteKind::Tip)
    } else if reads_alike(line, QuoteKind::Important.marker()) {
        Some(QuoteKind::Important)
    } else if reads_alike(line, QuoteKind::Warning.marker()) {
        Some(QuoteKind::Warning)
    } else if reads_alike(line, QuoteKind::Caution.marker()) {
        Some(QuoteKind::Caution)
    } else {
        None
    }
}

/// How many characters the first line of a text has.
pub open spec fn first_line(text: Seq<char>, n: int) -> int
    decreases text.len() - n,
{
    if n < 0 || n >= text.len() || text[n] == '\n' {
        n
    } else {
        first_line(text, n + 1)
    }
}

/// What promotes a quote into an alert: the kind its first line opens, where it
/// is a quote and of no kind yet, and the bytes that go — the marker line, and
/// the break after it where a body follows.
pub open spec fn promoted(kind: BlockKind) -> Option<(QuoteKind, int)> {
    match kind {
        BlockKind::Quote { kind: None, text } => {
            let n = first_line(text.text@, 0);
            let line = text.text@.take(n);
            match opens(line) {
                Some(kind) => Some(
                    (
                        kind,
                        text::byte_len(line) + (if n < text.text@.len() {
                            1int
                        } else {
                            0
                        }),
                    ),
                ),
                None => None,
            }
        },
        _ => None,
    }
}

/// What promoting a quote whose first line is an alert's marker makes of it:
/// the kind of alert, the bytes taken from its start, and the caret after. What
/// was written under the marker stays as the alert's body.
pub fn promote_quote_marker(kind: &BlockKind, at: Cursor) -> (made: Option<
    (QuoteKind, Cursor, Delta),
>)
    ensures
        made == (if at.part != Part::Body {
            None
        } else {
            match promoted(*kind) {
                Some((alert, len)) => Some(
                    (
                        alert,
                        Cursor {
                            offset: if at.offset >= len {
                                (at.offset - len) as usize
                            } else {
                                0
                            },
                            ..at
                        },
                        taken_from(at, Span { start: 0, end: len as usize }),
                    ),
                ),
                None => None,
            }
        }),
{
    if at.part != Part::Body {
        return None;
    }
    let text = match kind {
        BlockKind::Quote { kind: None, text } => text,
        _ => {
            return None;
        },
    };
    let chars = chars_of(text.text.as_str());
    let mut n: usize = 0;
    while n < chars.len() && chars[n] != '\n'
        invariant
            n <= chars@.len(),
            first_line(chars@, 0) == first_line(chars@, n as int),
        decreases chars@.len() - n,
    {
        n = n + 1;
    }
    assert(n == first_line(chars@, 0));
    let line = vstd::slice::slice_subrange(&chars, 0, n);
    assert(line@ =~= chars@.take(n as int));
    proof {
        text::lemma_byte_at_order(chars@, n as int, chars@.len() as int);
        text::lemma_byte_at_end(chars@);
        if n < chars@.len() {
            text::lemma_byte_at_step(chars@, n as int);
            text::lemma_byte_at_order(chars@, n + 1, chars@.len() as int);
        }
    }
    match quote_marker(line) {
        Some(alert) => {
            let mut len = bytes_in(line);
            if n < chars.len() {
                len = len + 1;
            }
            let offset = if at.offset >= len {
                at.offset - len
            } else {
                0
            };
            Some(
                (
                    alert,
                    Cursor::new(at.block, Part::Body, offset),
                    taken(at, Span { start: 0, end: len }),
                ),
            )
        },
        None => None,
    }
}

/// Whether a character parts two words.
pub open spec fn is_space(c: char) -> bool {
    let n = c as int;
    ||| 9 <= n <= 13
    ||| n == 32
    ||| n == 0x85
    ||| n == 0xa0
    ||| n == 0x1680
    ||| 0x2000 <= n <= 0x200a
    ||| n == 0x2028
    ||| n == 0x2029
    ||| n == 0x202f
    ||| n == 0x205f
    ||| n == 0x3000
}

fn spaces(c: char) -> (yes: bool)
    ensures
        yes == is_space(c),
{
    let n = c as u32;
    (9 <= n && n <= 13) || n == 32 || n == 0x85 || n == 0xa0 || n == 0x1680 || (0x2000 <= n && n
        <= 0x200a) || n == 0x2028 || n == 0x2029 || n == 0x202f || n == 0x205f || n == 0x3000
}

/// Whether a `/` typed just before byte `offset` of a text starts a word: a
/// URL's slashes are not commands.
pub open spec fn starts_word(text: Seq<char>, offset: int) -> bool {
    exists|i: int|
        0 <= i <= text.len() && #[trigger] text::byte_at(text, i) == offset - 1 && (i == 0
            || is_space(text[i - 1]))
}

impl Editor {
    /// Puts the caret at a position of the document an edit made, held inside
    /// it.
    pub fn land(&mut self, kind: EditKind, doc: Doc, at: Cursor, deltas: Vec<Delta>)
        requires
            old(self).wf(),
            old(self).takes(doc, deltas@),
        ensures
            final(self).wf(),
            Self::edited(*old(self), kind, doc, held_at(doc, at), deltas@, *final(self)),
    {
        let selection = Selection::at(doc.clamp(at));
        self.edit(kind, Change { doc, selection, deltas });
    }

    /// A replacement made: what a key typed, a character deleted, a cut and a
    /// paste all come to.
    pub fn splice(&mut self, kind: EditKind, doc: Doc, splice: Splice)
        requires
            old(self).wf(),
            old(self).takes(doc, seq![Delta::Spliced(splice)]),
        ensures
            final(self).wf(),
            Self::edited(
                *old(self),
                kind,
                doc,
                held_at(doc, splice.caret),
                seq![Delta::Spliced(splice)],
                *final(self),
            ),
    {
        let mut deltas: Vec<Delta> = Vec::new();
        deltas.push(Delta::Spliced(splice));
        assert(deltas@ =~= seq![Delta::Spliced(splice)]);
        self.land(kind, doc, splice.caret, deltas);
    }

    /// What was typed, under the marks that waited for it. A stored mark
    /// applies to what is typed next and to nothing else, so it is spent here.
    pub fn typed(&mut self, text: &str) -> (typed: Text)
        ensures
            typed.text@ == text@,
            typed.marks@.len() == old(self).stored@.len(),
            forall|i: int|
                0 <= i < typed.marks@.len() ==> (#[trigger] typed.marks@[i]).range == (Span {
                    start: 0,
                    end: text::byte_len(text@) as usize,
                }) && typed.marks@[i].mark@ == old(self).stored@[i]@,
            final(self).stored@.len() == 0,
            *final(self) == (Editor { stored: final(self).stored, ..*old(self) }),
    {
        let mut stored: Vec<Mark> = Vec::new();
        std::mem::swap(&mut self.stored, &mut stored);
        let mut typed = Text::plain(text);
        let len = typed.len();
        let mut i: usize = 0;
        while i < stored.len()
            invariant
                i <= stored@.len(),
                typed.text@ == text@,
                len == text::byte_len(text@),
                typed.marks@.len() == i,
                forall|j: int|
                    0 <= j < i ==> (#[trigger] typed.marks@[j]).range == (Span {
                        start: 0,
                        end: len,
                    }) && typed.marks@[j].mark@ == stored@[j]@,
            decreases stored@.len() - i,
        {
            let mark = stored[i].copy();
            typed.marks.push(MarkSpan { range: Span { start: 0, end: len }, mark });
            i = i + 1;
        }
        typed
    }

    /// Whether what was typed opens the slash menu, and where: on a `/` that
    /// starts a word, with the menu not open yet. Only in a body: a fence holds
    /// its slash literally, and a caption belongs to a block that is already
    /// what it is.
    pub open spec fn slashes(&self, typed: Seq<char>) -> Option<Cursor> {
        let at = self.selection.head;
        let text = self.caret_says();
        if self.chrome.slash && self.menus.slash is None && typed == seq!['/'] && at.offset > 0
            && at.part == Part::Body && starts_word(text, at.offset as int) {
            Some(Cursor { offset: (at.offset - 1) as usize, ..at })
        } else {
            None
        }
    }

    /// The text the caret is in, and nothing where it is in none.
    pub open spec fn caret_says(&self) -> Seq<char> {
        let at = self.selection.head;
        if at.block < self.doc.blocks@.len() && self.doc.blocks@[at.block as int].text_in(
            at.part,
        ) is Some {
            self.doc.blocks@[at.block as int].text_in(at.part)->0.text@
        } else {
            Seq::empty()
        }
    }

    /// The text the caret is in.
    pub fn caret_text(&self) -> (text: Option<&Text>)
        ensures
            text is Some <==> (self.selection.head.block < self.doc.blocks@.len()
                && self.doc.blocks@[self.selection.head.block as int].text_in(
                self.selection.head.part,
            ) is Some),
            text matches Some(text) ==> text.text@ == self.caret_says() && *text
                == self.doc.blocks@[self.selection.head.block as int].text_in(
                self.selection.head.part,
            )->0,
    {
        let at = self.selection.head;
        if at.block < self.doc.blocks.len() {
            self.doc.blocks[at.block].text_at(at.part)
        } else {
            None
        }
    }

    /// Where the slash menu is once something is typed: opened by it, kept open
    /// while what follows its `/` is a query, and closed otherwise. Left alone
    /// where the editor has none.
    pub open spec fn menu_at(&self, typed: Seq<char>, query: bool) -> Option<Cursor> {
        if !self.chrome.slash {
            self.menus.slash
        } else if self.menus.slash is None {
            self.slashes(typed)
        } else if query {
            self.menus.slash
        } else {
            None
        }
    }

    /// Open the menu on a typed `/`, and keep it open while `query` — the text
    /// between the `/` and the caret — is one. Anything that leaves the run — a
    /// space, a click away, backspacing onto the slash — closes it.
    ///
    /// The query is the text between the `/` and the caret, so there is no
    /// second field and no focus to hand over — typing filters because typing
    /// is what it already was.
    pub fn track_slash(&mut self, typed: &str, query: bool)
        requires
            old(self).wf(),
        ensures
            final(self).wf(),
            *final(self) == (Editor {
                menus: Menus { slash: old(self).menu_at(typed@, query), ..old(self).menus },
                ..*old(self)
            }),
    {
        if !self.chrome.slash {
            return ;
        }
        if self.menus.slash.is_some() {
            if !query {
                self.menus.slash = None;
            }
            return ;
        }
        let at = self.selection.head;
        let typed = chars_of(typed);
        if typed.len() != 1 || typed[0] != '/' || at.offset == 0 || at.part != Part::Body {
            assert(typed@ == seq!['/'] ==> typed@.len() == 1 && typed@[0] == '/');
            return ;
        }
        assert(typed@ =~= seq!['/']);
        let chars = match self.caret_text() {
            Some(text) => chars_of(text.text.as_str()),
            None => Vec::new(),
        };
        assert(chars@ =~= self.caret_says());
        if let Some(i) = char_at(&chars, at.offset - 1) {
            let starts = i == 0 || spaces(chars[i - 1]);
            proof {
                if !starts && starts_word(chars@, at.offset as int) {
                    let j = choose|j: int|
                        0 <= j <= chars@.len() && #[trigger] text::byte_at(chars@, j) == at.offset
                            - 1 && (j == 0 || is_space(chars@[j - 1]));
                    text::lemma_boundary_unique(chars@, i as int, j);
                }
            }
            if starts {
                self.menus.slash = Some(Cursor { offset: at.offset - 1, ..at });
            }
        }
    }

    /// Take a block for the `/query` that summoned the menu: `doc` is the
    /// document with the query gone and the block turned. Nothing where no menu
    /// is open.
    pub fn confirm_slash(&mut self, doc: Option<Doc>) -> (taken: bool)
        requires
            old(self).wf(),
            old(self).menus.slash matches Some(at) ==> doc matches Some(doc) ==> old(self).takes(
                doc,
                seq![
                    Delta::Spliced(
                        Splice {
                            removed: Selection { anchor: at, head: old(self).selection.head },
                            caret: at,
                            blocks: 0,
                        },
                    ),
                ],
            ),
        ensures
            final(self).wf(),
            taken == (old(self).menus.slash is Some && doc is Some),
            !taken ==> *final(self) == (Editor {
                menus: Menus { slash: None, ..old(self).menus },
                ..*old(self)
            }),
            taken ==> {
                let at = old(self).menus.slash->0;
                Self::edited(
                    Editor { menus: Menus { slash: None, ..old(self).menus }, ..*old(self) },
                    EditKind::Structure,
                    doc->0,
                    held_at(doc->0, Cursor { part: Part::Body, ..at }),
                    seq![
                        Delta::Spliced(
                            Splice {
                                removed: Selection { anchor: at, head: old(self).selection.head },
                                caret: at,
                                blocks: 0,
                            },
                        ),
                    ],
                    *final(self),
                )
            },
    {
        let Some(at) = self.menus.slash else {
            return false;
        };
        self.menus.slash = None;
        let Some(doc) = doc else {
            return false;
        };
        let splice = Splice {
            removed: Selection::new(at, self.selection.head),
            caret: at,
            blocks: 0,
        };
        let mut deltas: Vec<Delta> = Vec::new();
        deltas.push(Delta::Spliced(splice));
        assert(deltas@ =~= seq![Delta::Spliced(splice)]);
        self.land(
            EditKind::Structure,
            doc,
            Cursor::new(at.block, Part::Body, at.offset),
            deltas,
        );
        true
    }

    /// Whether a step out of an indent takes back this many spaces: those just
    /// before the caret, as many as there are up to one indent.
    pub open spec fn outdents(&self, width: usize) -> bool {
        let text = self.caret_says();
        &&& width <= INDENT
        &&& forall|i: int|
            0 <= i <= text.len() && #[trigger] text::byte_at(text, i)
                == self.selection.head.offset ==> {
                &&& width <= i
                &&& forall|k: int| i - width <= k < i ==> text[k] == ' '
                &&& width < INDENT && width < i ==> text[i - width - 1] != ' '
            }
        &&& !text::on_boundary(text, self.selection.head.offset as int) ==> width == 0
    }

    /// How many spaces a step out of an indent takes back before the caret: up
    /// to one indent of the spaces there, and nothing else — a line that is not
    /// indented has nothing to give.
    pub fn unindent(&self) -> (width: usize)
        requires
            self.wf(),
        ensures
            self.outdents(width),
    {
        let chars = match self.caret_text() {
            Some(text) => chars_of(text.text.as_str()),
            None => Vec::new(),
        };
        assert(chars@ =~= self.caret_says());
        let Some(i) = char_at(&chars, self.selection.head.offset) else {
            return 0;
        };
        proof {
            assert forall|j: int|
                0 <= j <= chars@.len() && #[trigger] text::byte_at(chars@, j)
                    == self.selection.head.offset implies i == j by {
                text::lemma_boundary_unique(chars@, i as int, j);
            }
        }
        let mut width: usize = 0;
        while width < INDENT && width < i && chars[i - width - 1] == ' '
            invariant
                i <= chars@.len(),
                width <= INDENT,
                width <= i,
                forall|k: int| i - width <= k < i ==> chars@[k] == ' ',
            decreases INDENT - width,
        {
            width = width + 1;
        }
        width
    }
}

} // verus!
