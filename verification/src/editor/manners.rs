//! What an edit leaves of an editor, and what each gesture asks of it.

use vstd::prelude::*;

use crate::editor::anchor::{Anchor, AnchorId, Delta};
use crate::editor::blocks;
use crate::editor::commands::{toggled_mark, Enter};
use crate::editor::history::{EditKind, Mode, Step};
use crate::editor::image;
use crate::editor::insert::Insert;
use crate::editor::moments;
use crate::editor::surface;
use crate::editor::surface::{Editor, EditorEvent, Pointing};
use crate::editor::typing;
use crate::markdown::doc::{Block, BlockKind, Cursor, Doc, Part, QuoteKind, Selection, Span};
use crate::markdown::model::{BlockView, KindView, MarkView, TextView};
use crate::text;

verus! {

/// An edit makes the document and the selection it was for, where it leaves
/// anything, lets go of last frame's positions, closes the paste menu, brings
/// the caret into view and tells the host. How the document is being edited,
/// the menus besides, what waits to be typed and what the pointer does are as
/// they were.
pub proof fn an_edit_touches_what_it_edits(
    before: Editor,
    kind: EditKind,
    made: Doc,
    at: Selection,
    deltas: Seq<Delta>,
    after: Editor,
)
    requires
        Editor::edited(before, kind, made, at, deltas, after),
    ensures
        before.mode == Mode::Blocks && made.blocks@.len() > 0 ==> after.doc == made
            && after.selection == at,
        before.mode == Mode::Blocks && made.blocks@.len() == 0 ==> after.doc@.len() == 1
            && after.doc@[0].indent == 0 && (after.doc@[0].kind matches KindView::Paragraph(text)
            && text.text.len() == 0 && text.marks.len() == 0),
        before.mode == Mode::Source && made.blocks@.len() == 1 && made.blocks@[0].kind is Code
            ==> after.doc == made && after.selection == at,
        before.mode == Mode::Blocks ==> after.anchors@.len() == before.anchors@.len() && forall|
            i: int,
        |
            0 <= i < before.anchors@.len() ==> #[trigger] after.anchors@[i]
                == before.anchors@[i].after_all(deltas, deltas.len() as int),
        before.mode == Mode::Source ==> after.anchors@ == before.anchors@,
        after.mode == before.mode,
        after.chrome == before.chrome,
        after.marked == before.marked,
        after.stored == before.stored,
        after.pointing == before.pointing,
        after.caret_on == before.caret_on,
        after.menus.slash == before.menus.slash,
        after.menus.url_prompt == before.menus.url_prompt,
        after.menus.pasted is None,
        after.reveal && !after.blinking,
        after.layouts@.rows.len() == 0 && after.layouts@.blocks.len() == 0,
        after.events@.len() == before.events@.len() + 1,
        after.events@.last() == EditorEvent::Changed,
        forall|i: int| 0 <= i < before.events@.len() ==> after.events@[i] == before.events@[i],
        kind == EditKind::Structure ==> after.history@.last is None,
        kind != EditKind::Structure ==> after.history@.last == Some((kind, after.selection.head)),
        after.history@.stacks.redo.len() == 0,
{
}

/// What an editor remembers of a moment is all of it.
pub proof fn a_moment_is_the_document_and_where_it_was(editor: Editor)
    ensures
        editor.moment().doc == editor.doc,
        editor.moment().mode == editor.mode,
        editor.moment().selection == editor.selection,
        editor.moment().anchors == editor.anchors,
{
}

/// A source is one fence of markdown, which says what it was given and nothing
/// else, and reads back as it.
pub proof fn a_source_is_one_fence_of_markdown(doc: Doc, source: Seq<char>)
    requires
        doc@ == surface::source_view(source),
    ensures
        doc.blocks@.len() == 1,
        doc@[0].indent == 0,
        doc@[0].kind == (KindView::Code {
            language: Some("markdown"@),
            code: TextView { text: source, marks: Seq::empty() },
        }),
        surface::source_of(doc) == source,
{
    assert(doc@.len() == doc.blocks@.len());
    let block = doc.blocks@[0];
    assert(block@ == doc@[0]);
    assert(block.listed() =~= seq![Part::Code]);
    reveal_with_fuel(surface::joined, 2);
}

/// Two blocks make one source with a line break between them, and a block
/// without a text adds neither.
pub proof fn blocks_make_a_source_line_by_line(doc: Doc)
    requires
        doc.blocks@.len() == 2,
    ensures
        ({
            let (a, b) = (doc.blocks@[0], doc.blocks@[1]);
            match (surface::first_text(a), surface::first_text(b)) {
                (Some(a), Some(b)) => surface::source_of(doc) == a + seq!['\n'] + b,
                (Some(a), None) => surface::source_of(doc) == a,
                (None, Some(b)) => surface::source_of(doc) == b,
                (None, None) => surface::source_of(doc).len() == 0,
            }
        }),
{
    reveal_with_fuel(surface::joined, 3);
    let (a, b) = (doc.blocks@[0], doc.blocks@[1]);
    if let (Some(a), Some(b)) = (surface::first_text(a), surface::first_text(b)) {
        assert(surface::source_of(doc) =~= a + seq!['\n'] + b);
    }
}

/// The first text of a block is that of its body, its code, its caption or its
/// first cell.
pub proof fn the_first_text_of_a_block(block: Block)
    ensures
        block.kind matches BlockKind::Paragraph(text) ==> surface::first_text(block) == Some(
            text.text@,
        ),
        block.kind matches BlockKind::Code { code, .. } ==> surface::first_text(block) == Some(
            code.text@,
        ),
        block.kind matches BlockKind::Image { alt, .. } ==> surface::first_text(block) == Some(
            alt.text@,
        ),
        block.kind is Rule || block.kind is Bookmark ==> surface::first_text(block) is None,
{
}

/// Whether a position is over the words of an anchor, either end included.
pub open spec fn over(anchor: Anchor, at: Cursor) -> bool {
    ||| !at.before(anchor.range.anchor) && !anchor.range.head.before(at)
    ||| !at.before(anchor.range.head) && !anchor.range.anchor.before(at)
}

/// A click opens the newest comment whose words it is over, and none where
/// there is no such comment. A comment whose words are gone is never opened.
pub proof fn a_click_opens_the_newest_comment_under_it(anchors: Seq<Anchor>, at: Cursor, n: int)
    requires
        0 <= n <= anchors.len(),
    ensures
        match Editor::anchor_under(anchors, at, n) {
            Some(id) => exists|i: int|
                0 <= i < n && (#[trigger] anchors[i]).id == id && over(anchors[i], at)
                    && anchors[i].range.anchor != anchors[i].range.head && forall|j: int|
                    i < j < n ==> !over(#[trigger] anchors[j], at) || anchors[j].range.anchor
                        == anchors[j].range.head,
            None => forall|j: int|
                0 <= j < n ==> !over(#[trigger] anchors[j], at) || anchors[j].range.anchor
                    == anchors[j].range.head,
        },
    decreases n,
{
    if n > 0 {
        let last = anchors[n - 1];
        let (a, b) = (last.range.anchor, last.range.head);
        crate::markdown::doc::positions_are_ordered(a, b, at);
        crate::markdown::doc::positions_are_ordered(b, a, at);
        crate::markdown::doc::positions_are_ordered(at, a, b);
        crate::markdown::doc::positions_are_ordered(at, b, a);
        assert(Editor::anchor_holds(last, at) <==> (over(last, at) && a != b));
        a_click_opens_the_newest_comment_under_it(anchors, at, n - 1);
        if Editor::anchor_holds(last, at) {
            assert(anchors[n - 1].id == last.id);
        } else if let Some(id) = Editor::anchor_under(anchors, at, n) {
            let i = choose|i: int|
                0 <= i < n - 1 && (#[trigger] anchors[i]).id == id && over(anchors[i], at)
                    && anchors[i].range.anchor != anchors[i].range.head && forall|j: int|
                    i < j < n - 1 ==> !over(#[trigger] anchors[j], at) || anchors[j].range.anchor
                        == anchors[j].range.head;
            assert(anchors[i].id == id);
        }
    }
}

/// A comment is at the start of its words, the earlier of their two ends, and
/// of two that go by one name it is the first.
pub proof fn a_comment_is_where_its_words_start(anchors: Seq<Anchor>, id: AnchorId, i: int)
    requires
        0 <= i <= anchors.len(),
    ensures
        match Editor::anchored_at(anchors, id, i) {
            Some(at) => exists|k: int|
                i <= k < anchors.len() && (#[trigger] anchors[k]).id == id && (at
                    == anchors[k].range.anchor || at == anchors[k].range.head)
                    && !anchors[k].range.anchor.before(at) && !anchors[k].range.head.before(at)
                    && forall|j: int| i <= j < k ==> (#[trigger] anchors[j]).id != id,
            None => forall|j: int| i <= j < anchors.len() ==> (#[trigger] anchors[j]).id != id,
        },
    decreases anchors.len() - i,
{
    if i < anchors.len() {
        let here = anchors[i];
        crate::markdown::doc::positions_are_ordered(
            here.range.anchor,
            here.range.head,
            here.range.anchor,
        );
        crate::markdown::doc::positions_are_ordered(
            here.range.head,
            here.range.anchor,
            here.range.head,
        );
        if here.id == id {
            assert(anchors[i].id == id);
        } else {
            a_comment_is_where_its_words_start(anchors, id, i + 1);
            if let Some(at) = Editor::anchored_at(anchors, id, i + 1) {
                let k = choose|k: int|
                    i + 1 <= k < anchors.len() && (#[trigger] anchors[k]).id == id && (at
                        == anchors[k].range.anchor || at == anchors[k].range.head)
                        && !anchors[k].range.anchor.before(at) && !anchors[k].range.head.before(at)
                        && forall|j: int| i + 1 <= j < k ==> (#[trigger] anchors[j]).id != id;
                assert(anchors[k].id == id);
            }
        }
    }
}

/// Every comment with words is washed, in its own wash and held inside the
/// document, and nothing else is.
pub proof fn a_comment_with_words_is_washed(anchors: Seq<Anchor>, doc: Doc, n: int)
    requires
        0 <= n <= anchors.len(),
    ensures
        ({
            let washes = Editor::washes(anchors, doc, n);
            &&& washes.len() <= n
            &&& forall|i: int|
                0 <= i < n && (#[trigger] anchors[i]).range.anchor != anchors[i].range.head
                    ==> washes.contains((anchors[i].range.held(doc), anchors[i].state))
            &&& forall|k: int|
                0 <= k < washes.len() ==> exists|i: int|
                    0 <= i < n && (#[trigger] anchors[i]).range.anchor != anchors[i].range.head
                        && #[trigger] washes[k] == (anchors[i].range.held(doc), anchors[i].state)
        }),
    decreases n,
{
    if n > 0 {
        a_comment_with_words_is_washed(anchors, doc, n - 1);
        let before = Editor::washes(anchors, doc, n - 1);
        let washes = Editor::washes(anchors, doc, n);
        let last = anchors[n - 1];
        assert forall|i: int|
            0 <= i < n && (#[trigger] anchors[i]).range.anchor != anchors[i].range.head implies
            washes.contains((anchors[i].range.held(doc), anchors[i].state)) by {
            let wash = (anchors[i].range.held(doc), anchors[i].state);
            if i < n - 1 {
                assert(before.contains(wash));
                let k = choose|k: int| 0 <= k < before.len() && before[k] == wash;
                assert(washes[k] == wash);
            } else {
                assert(washes[before.len() as int] == wash);
            }
        }
        assert forall|k: int| 0 <= k < washes.len() implies exists|i: int|
            0 <= i < n && (#[trigger] anchors[i]).range.anchor != anchors[i].range.head
                && #[trigger] washes[k] == (anchors[i].range.held(doc), anchors[i].state) by {
            if k < before.len() {
                assert(washes[k] == before[k]);
                let i = choose|i: int|
                    0 <= i < n - 1 && (#[trigger] anchors[i]).range.anchor
                        != anchors[i].range.head && before[k] == (
                        anchors[i].range.held(doc),
                        anchors[i].state,
                    );
                assert(anchors[i].range.anchor != anchors[i].range.head);
            } else {
                assert(anchors[n - 1].range.anchor != anchors[n - 1].range.head);
            }
        }
    }
}

/// A pointer at rest is over nothing and carries nothing.
pub proof fn a_pointer_at_rest_carries_nothing()
    ensures
        ({
            let idle = Pointing::idle();
            &&& idle.hovered is None && idle.dropping is None && idle.lifted is None
            &&& idle.resizing is None && !idle.dragging && !idle.over_text && !idle.press_claimed
        }),
{
}

/// The letters of the alphabet read alike in either case, and nothing else
/// reads as anything but itself.
pub proof fn letters_read_alike_in_either_case(a: Seq<char>, b: Seq<char>, i: int)
    ensures
        typing::reads_as(a, a),
        typing::reads_as(a, b) <==> typing::reads_as(b, a),
        typing::reads_as(a, b) && 0 <= i < a.len() ==> {
            ||| a[i] == b[i]
            ||| 65 <= a[i] as int <= 90 && b[i] as int == a[i] as int + 32
            ||| 97 <= a[i] as int <= 122 && b[i] as int == a[i] as int - 32
        },
        a.len() == b.len() && (forall|k: int|
            0 <= k < a.len() ==> {
                ||| #[trigger] a[k] == b[k]
                ||| 65 <= a[k] as int <= 90 && b[k] as int == a[k] as int + 32
                ||| 97 <= a[k] as int <= 122 && b[k] as int == a[k] as int - 32
            }) ==> typing::reads_as(a, b),
{
    if typing::reads_as(a, b) && 0 <= i < a.len() {
        assert(typing::uncased(a[i]) == typing::uncased(b[i]));
    }
    if a.len() == b.len() {
        assert(typing::reads_as(a, b) <==> typing::reads_as(b, a)) by {
            if typing::reads_as(a, b) {
                assert forall|k: int| 0 <= k < b.len() implies typing::uncased(#[trigger] b[k])
                    == typing::uncased(a[k]) by {
                    assert(typing::uncased(a[k]) == typing::uncased(b[k]));
                }
            }
            if typing::reads_as(b, a) {
                assert forall|k: int| 0 <= k < a.len() implies typing::uncased(#[trigger] a[k])
                    == typing::uncased(b[k]) by {
                    assert(typing::uncased(b[k]) == typing::uncased(a[k]));
                }
            }
        }
    }
}

proof fn lemma_reads_as_one(line: Seq<char>, a: Seq<char>, b: Seq<char>)
    requires
        typing::reads_as(line, a),
        typing::reads_as(line, b),
    ensures
        typing::reads_as(a, b),
{
    assert forall|k: int| 0 <= k < a.len() implies typing::uncased(#[trigger] a[k])
        == typing::uncased(b[k]) by {
        assert(typing::uncased(line[k]) == typing::uncased(a[k]));
        assert(typing::uncased(line[k]) == typing::uncased(b[k]));
    }
}

/// A line opens the alert whose name it spells between its brackets, in
/// letters of either case, and no other line opens one.
pub proof fn a_line_opens_the_alert_it_names(line: Seq<char>)
    ensures
        typing::opens(line) == Some(QuoteKind::Note) <==> typing::reads_as(line, "[!NOTE]"@),
        typing::opens(line) == Some(QuoteKind::Tip) <==> typing::reads_as(line, "[!TIP]"@),
        typing::opens(line) == Some(QuoteKind::Important) <==> typing::reads_as(
            line,
            "[!IMPORTANT]"@,
        ),
        typing::opens(line) == Some(QuoteKind::Warning) <==> typing::reads_as(line, "[!WARNING]"@),
        typing::opens(line) == Some(QuoteKind::Caution) <==> typing::reads_as(line, "[!CAUTION]"@),
{
    reveal_strlit("[!NOTE]");
    reveal_strlit("[!TIP]");
    reveal_strlit("[!IMPORTANT]");
    reveal_strlit("[!WARNING]");
    reveal_strlit("[!CAUTION]");
    if typing::reads_as(line, "[!WARNING]"@) && typing::reads_as(line, "[!CAUTION]"@) {
        lemma_reads_as_one(line, "[!WARNING]"@, "[!CAUTION]"@);
        assert(typing::uncased("[!WARNING]"@[2]) == typing::uncased("[!CAUTION]"@[2]));
    }
}

/// The first line of a text is what stands before its first line break.
pub proof fn the_first_line_ends_at_the_first_break(text: Seq<char>, n: int)
    requires
        0 <= n <= text.len(),
    ensures
        n <= typing::first_line(text, n) <= text.len(),
        forall|i: int| n <= i < typing::first_line(text, n) ==> text[i] != '\n',
        typing::first_line(text, n) < text.len() ==> text[typing::first_line(text, n)] == '\n',
    decreases text.len() - n,
{
    if n < text.len() && text[n] != '\n' {
        the_first_line_ends_at_the_first_break(text, n + 1);
    }
}

/// A quote whose first line names an alert is promoted to it: the line goes,
/// and with it the break behind it where there is one, so that what is left is
/// what stood under it. No other block is promoted, and no alert is twice.
pub proof fn a_quote_is_promoted_by_its_first_line(kind: BlockKind, line: Seq<char>, under: Seq<char>)
    requires
        forall|i: int| 0 <= i < line.len() ==> line[i] != '\n',
    ensures
        !(kind is Quote) ==> typing::promoted(kind) is None,
        kind matches BlockKind::Quote { kind: Some(_), .. } ==> typing::promoted(kind) is None,
        kind matches BlockKind::Quote { kind: None, text } ==> {
            &&& text.text@ == line ==> match typing::opens(line) {
                Some(alert) => typing::promoted(kind) == Some(
                    (alert, text::byte_len(line) as int),
                ),
                None => typing::promoted(kind) is None,
            }
            &&& text.text@ == line + seq!['\n'] + under ==> match typing::opens(line) {
                Some(alert) => typing::promoted(kind) == Some(
                    (alert, text::byte_len(line + seq!['\n']) as int),
                ),
                None => typing::promoted(kind) is None,
            }
        },
{
    text::lemma_byte_len_concat(line, seq!['\n']);
    reveal_with_fuel(text::byte_len, 2);
    assert(seq!['\n'].drop_last() =~= Seq::<char>::empty());
    if let BlockKind::Quote { kind: None, text } = kind {
        the_first_line_ends_at_the_first_break(text.text@, 0);
        let n = typing::first_line(text.text@, 0);
        if text.text@ == line {
            if n < line.len() {
                assert(line[n] == '\n');
            }
            assert(text.text@.take(n) =~= line);
        }
        if text.text@ == line + seq!['\n'] + under {
            assert(text.text@[line.len() as int] == '\n');
            if n < line.len() {
                assert(text.text@[n] == line[n]);
            }
            if n > line.len() {
                assert(text.text@[line.len() as int] != '\n');
            }
            assert(text.text@.take(n) =~= line);
        }
    }
}

/// White space is one set of characters wherever it is asked about.
pub proof fn white_space_is_the_same_everywhere(c: char)
    ensures
        typing::is_space(c) == text::is_space(c),
        text::is_space(' ') && text::is_space('\t') && text::is_space('\n') && text::is_space('\r'),
        'a' <= c <= 'z' || 'A' <= c <= 'Z' || '0' <= c <= '9' || c == '/' ==> !text::is_space(c),
{
}

/// A `/` opens the menu at the slash where it is the first of its text or
/// behind white space, in a body, with the menu on and not open. Nothing else
/// that is typed opens it.
pub proof fn a_slash_opens_the_menu_at_itself(editor: Editor, typed: Seq<char>, i: int)
    requires
        0 <= i < editor.caret_says().len(),
        text::byte_at(editor.caret_says(), i) == editor.selection.head.offset - 1,
    ensures
        ({
            let text = editor.caret_says();
            let opened = editor.slashes(typed);
            &&& opened is Some <==> (editor.chrome.slash && editor.menus.slash is None && typed
                == seq!['/'] && editor.selection.head.part == Part::Body && (i == 0
                || text::is_space(text[i - 1])))
            &&& opened matches Some(at) ==> at.block == editor.selection.head.block && at.part
                == Part::Body && at.offset + 1 == editor.selection.head.offset
        }),
{
    let text = editor.caret_says();
    if i > 0 {
        white_space_is_the_same_everywhere(text[i - 1]);
    }
    assert forall|k: int|
        0 <= k <= text.len() && #[trigger] text::byte_at(text, k) == editor.selection.head.offset
            - 1 implies k == i by {
        text::lemma_boundary_unique(text, k, i);
    }
}

/// The menu that is open stays where it is while what was typed is a query, and
/// closes otherwise; one that is closed opens only by a slash. An editor
/// without the menu leaves it alone.
pub proof fn the_menu_follows_what_is_typed(editor: Editor, typed: Seq<char>, query: bool)
    ensures
        !editor.chrome.slash ==> editor.menu_at(typed, query) == editor.menus.slash,
        editor.chrome.slash && editor.menus.slash is Some ==> editor.menu_at(typed, query) == (
        if query {
            editor.menus.slash
        } else {
            None
        }),
        editor.chrome.slash && editor.menus.slash is None ==> editor.menu_at(typed, query)
            == editor.slashes(typed),
        typed != seq!['/'] && editor.menus.slash is None ==> editor.menu_at(typed, query) is None,
{
}

/// Stepping out of an indent takes both of two spaces before the caret, one
/// where there is only one, and none of anything else.
pub proof fn an_indent_is_two_spaces(editor: Editor, width: usize, i: int)
    requires
        editor.outdents(width),
        0 <= i <= editor.caret_says().len(),
        text::byte_at(editor.caret_says(), i) == editor.selection.head.offset,
    ensures
        ({
            let text = editor.caret_says();
            let one = i >= 1 && text[i - 1] == ' ';
            let two = one && i >= 2 && text[i - 2] == ' ';
            width == (if two {
                2
            } else if one {
                1
            } else {
                0int
            })
        }),
{
    let text = editor.caret_says();
    if width == 0 && i >= 1 {
        assert(text[i - 0 - 1] != ' ');
    }
    if width == 1 && i >= 2 {
        assert(text[i - 1 - 1] != ' ');
    }
    if width >= 1 {
        assert(text[i - 1] == ' ');
    }
    if width >= 2 {
        assert(text[i - 2] == ' ');
    }
}

/// A caret placed in a document is in it, with nothing selected.
pub proof fn a_caret_put_down_selects_nothing(doc: Doc, at: Cursor)
    ensures
        typing::held_at(doc, at).anchor == doc.nearest(at),
        typing::held_at(doc, at).head == doc.nearest(at),
{
}

/// The caret says the text of its own block at its own part.
pub proof fn the_caret_says_its_own_text(editor: Editor)
    ensures
        ({
            let at = editor.selection.head;
            let held = at.block < editor.doc.blocks@.len()
                && editor.doc.blocks@[at.block as int].text_in(at.part) is Some;
            &&& editor.in_text() == held
            &&& editor.caret_in_text() == held
            &&& held ==> editor.caret_says() == editor.doc.blocks@[at.block as int].text_in(
                at.part,
            )->0.text@
            &&& !held ==> editor.caret_says().len() == 0
        }),
{
}

/// Toggling a waiting mark has it wait if it did not, and not if it did; every
/// other mark waits as it did.
pub proof fn toggling_a_mark_changes_that_mark_alone(
    stored: Seq<MarkView>,
    mark: MarkView,
    other: MarkView,
)
    requires
        stored.no_duplicates(),
    ensures
        toggled_mark(stored, mark).contains(mark) <==> !stored.contains(mark),
        other != mark ==> (toggled_mark(stored, mark).contains(other) <==> stored.contains(other)),
{
    let after = toggled_mark(stored, mark);
    if stored.contains(mark) {
        stored.index_of_first_ensures(mark);
        let at = stored.index_of_first(mark)->0;
        assert(after =~= stored.remove(at));
        assert forall|k: int| 0 <= k < after.len() implies after[k] != mark by {
            if k < at {
                assert(after[k] == stored[k]);
            } else {
                assert(after[k] == stored[k + 1]);
            }
        }
        if stored.contains(other) && other != mark {
            let k = choose|k: int| 0 <= k < stored.len() && stored[k] == other;
            if k < at {
                assert(after[k] == other);
            } else {
                assert(after[k - 1] == other);
            }
        }
        if after.contains(other) {
            let k = choose|k: int| 0 <= k < after.len() && after[k] == other;
            if k < at {
                assert(stored[k] == other);
            } else {
                assert(stored[k + 1] == other);
            }
        }
    } else {
        assert(after =~= stored.push(mark));
        assert(after[stored.len() as int] == mark);
        if stored.contains(other) {
            let k = choose|k: int| 0 <= k < stored.len() && stored[k] == other;
            assert(after[k] == other);
        }
    }
}

/// Enter answers the menu that is open, the paste menu before the slash menu.
/// With none open it splits a body, is a newline in code, and nothing in a
/// cell; under a picture it splits, or asks for the picture where there is
/// none yet. With shift it breaks the line in prose and in code alone. With
/// control it opens a paragraph, which the source has none of.
pub proof fn enter_does_what_the_caret_is_in_asks(editor: Editor)
    ensures
        ({
            let at = editor.selection.head;
            &&& editor.menus.pasted is Some ==> editor.menu_takes_enter() == Some(Enter::Paste)
            &&& editor.menus.pasted is None && editor.menus.slash is Some
                ==> editor.menu_takes_enter() == Some(Enter::Slash)
            &&& editor.menus.pasted is None && editor.menus.slash is None
                ==> editor.menu_takes_enter() is None
            &&& at.part == Part::Body ==> editor.splits() == Enter::Split && editor.breaks()
                == Enter::Newline
            &&& at.part == Part::Code ==> editor.splits() == Enter::Newline && editor.breaks()
                == Enter::Newline
            &&& at.part is Cell ==> editor.splits() == Enter::Nothing && editor.breaks()
                == Enter::Nothing
            &&& at.part == Part::Caption ==> editor.breaks() == Enter::Nothing && (
            editor.splits() == Enter::Split || editor.splits() == Enter::Prompt(at.block))
            &&& at.part == Part::Caption ==> (editor.splits() == Enter::Prompt(at.block) <==> (
            at.block < editor.doc.blocks@.len() && (
            editor.doc.blocks@[at.block as int].kind matches BlockKind::Image { url, .. }
                && url@.len() == 0)))
            &&& editor.mode == Mode::Blocks ==> editor.opens_after() == Enter::Paragraph
            &&& editor.mode == Mode::Source ==> editor.opens_after() == Enter::Nothing
        }),
{
}

/// A picture is either still asking for its address or has something to show,
/// and no other block is either.
pub proof fn a_picture_asks_or_shows(editor: Editor, ix: int)
    ensures
        editor.blank_image(ix) || editor.shown_image(ix) <==> 0 <= ix
            < editor.doc.blocks@.len() && editor.doc.blocks@[ix].kind is Image,
        !(editor.blank_image(ix) && editor.shown_image(ix)),
        0 <= ix < editor.doc.blocks@.len() ==> (editor.doc.blocks@[ix].kind matches
            BlockKind::Image { url, width, .. } ==> editor.blank_image(ix) == (url@.len() == 0)
            && editor.stated_width(ix) == Some(width)),
        editor.stated_width(ix) is Some <==> editor.blank_image(ix) || editor.shown_image(ix),
{
}

/// The picture that asks is the one under the pointer, and otherwise the one
/// the caret is in.
pub proof fn the_picture_under_the_pointer_asks_first(editor: Editor)
    ensures
        editor.pointing.hovered matches Some(ix) ==> editor.blank_image(ix as int)
            ==> editor.image_asking() == Some(ix),
        editor.pointing.hovered is None ==> (editor.image_asking() is Some
            <==> editor.blank_image(editor.selection.head.block as int)),
        editor.image_asking() matches Some(ix) ==> editor.blank_image(ix as int) && (
        editor.pointing.hovered == Some(ix) || ix == editor.selection.head.block),
{
}

/// Checking a task flips its box and leaves its words and its place; any other
/// block is as it was.
pub proof fn checking_a_task_flips_its_box(block: BlockView)
    ensures
        blocks::toggled(block).indent == block.indent,
        block.kind matches KindView::Task { checked, text } ==> blocks::toggled(block).kind == (
        KindView::Task { checked: !checked, text }),
        !(block.kind is Task) ==> blocks::toggled(block) == block,
{
}

/// A box that is checked is one step: its block alone is another, and the
/// caret, what it is over, and what is on screen stay.
pub proof fn a_box_is_checked_where_it_is(before: Editor, ix: usize, after: Editor)
    requires
        Editor::box_toggled(before, ix, after),
    ensures
        after.selection == before.selection,
        after.mode == before.mode,
        after.anchors@ == before.anchors@,
        after.doc@.len() == before.doc@.len(),
        forall|i: int| 0 <= i < before.doc@.len() && i != ix ==> after.doc@[i] == before.doc@[i],
        before.mode == Mode::Blocks && ix < before.doc.blocks@.len() ==> (
        before.doc@[ix as int].kind matches KindView::Task { checked, text } ==> {
            &&& after.doc@[ix as int].kind == (KindView::Task { checked: !checked, text })
            &&& after.events@ == before.events@.push(EditorEvent::Changed)
            &&& !after.reveal
            &&& after.layouts@.texts.len() == 0 && after.layouts@.rows.len() == 0
                && after.layouts@.blocks.len() == 0
            &&& before.history@.stacks.limit > 0 && before.history@.stacks.wf()
                ==> after.history@.stacks.undo.last() == before.moment()
        }),
        before.mode == Mode::Source ==> after == before,
        ix < before.doc.blocks@.len() && !(before.doc@[ix as int].kind is Task) ==> after == before,
{
    assert(before.doc@.len() == before.doc.blocks@.len());
    if ix < before.doc.blocks@.len() {
        assert(before.doc@[ix as int] == before.doc.blocks@[ix as int]@);
    }
}

/// A document ends in a body, and can grow by itself, where its last block is
/// prose; a fence, a picture, a table, a card and a rule close it.
pub proof fn prose_at_the_end_leaves_a_document_open(doc: Doc)
    requires
        doc.blocks@.len() > 0,
    ensures
        blocks::closed_at_end(doc) <==> ({
            let kind = doc.blocks@.last().kind;
            kind is Code || kind is Image || kind is Table || kind is Bookmark || kind is Rule
        }),
{
    let last = doc.blocks@.last();
    if let BlockKind::Table { header, rows, .. } = last.kind {
        lemma_cells(header@, rows@, rows@.len() as int);
    }
}

proof fn lemma_row_cells(row: int, n: int)
    ensures
        forall|i: int|
            0 <= i < crate::markdown::doc::row_parts(row, n).len() ==> (
            #[trigger] crate::markdown::doc::row_parts(row, n)[i]) is Cell,
    decreases n,
{
    if n > 0 {
        lemma_row_cells(row, n - 1);
    }
}

proof fn lemma_cells(
    header: Seq<crate::markdown::doc::Text>,
    rows: Seq<Vec<crate::markdown::doc::Text>>,
    n: int,
)
    ensures
        forall|i: int|
            0 <= i < crate::markdown::doc::table_parts(header, rows, n).len() ==> (
            #[trigger] crate::markdown::doc::table_parts(header, rows, n)[i]) is Cell,
    decreases n,
{
    if n <= 0 {
        lemma_row_cells(0, header.len() as int);
    } else {
        lemma_cells(header, rows, n - 1);
        lemma_row_cells(n, rows[n - 1]@.len() as int);
    }
}

/// A document given a paragraph past its end keeps every block it had, the
/// caret going into the new one.
pub proof fn a_tail_is_one_empty_paragraph(before: Editor, after: Editor)
    requires
        Editor::tail_appended(before, after),
    ensures
        after.doc@.len() == before.doc@.len() + 1,
        forall|i: int| 0 <= i < before.doc@.len() ==> after.doc@[i] == before.doc@[i],
        after.doc@.last().indent == 0,
        after.doc@.last().kind matches KindView::Paragraph(text) && text.text.len() == 0,
        after.selection.anchor == after.selection.head,
        after.selection.head == (Cursor {
            block: before.doc.blocks.len(),
            part: Part::Body,
            offset: 0,
        }),
        after.anchors@ == before.anchors@,
        after.events@ == before.events@.push(EditorEvent::Changed),
        after.mode == before.mode,
{
}

/// A motion puts the caret there and lets go of what waited to be typed and of
/// the run it was typed in. The document is as it was.
pub proof fn a_motion_lets_go_of_what_waited(before: Editor, selection: Selection, after: Editor)
    requires
        Editor::caret_put(before, selection, after),
    ensures
        after.selection == selection,
        after.doc == before.doc,
        after.anchors == before.anchors,
        after.events == before.events,
        after.stored@.len() == 0,
        after.history@.last is None,
        after.history@.stacks == before.history@.stacks,
        after.menus.pasted is None,
        after.menus.slash == before.menus.slash,
        after.reveal,
{
}

/// A press puts the selection down and tells the host of the comment under it,
/// and of nothing where there is none.
pub proof fn a_press_tells_of_the_comment_under_it(
    before: Editor,
    selection: Selection,
    dragging: bool,
    hit: Option<Cursor>,
    anchor: Option<AnchorId>,
    after: Editor,
)
    requires
        Editor::press_placed(before, selection, dragging, hit, anchor, after),
    ensures
        after.selection == selection,
        after.doc == before.doc,
        after.pointing.dragging == dragging,
        after.history@.last is None,
        hit is None ==> anchor is None,
        anchor is None ==> after.events@ == before.events@,
        anchor matches Some(id) ==> after.events@ == before.events@.push(
            EditorEvent::AnchorActivated(id),
        ),
        hit matches Some(at) ==> (anchor is Some <==> exists|i: int|
            0 <= i < before.anchors@.len() && over(#[trigger] before.anchors@[i], at)
                && before.anchors@[i].range.anchor != before.anchors@[i].range.head),
{
    if let Some(at) = hit {
        a_click_opens_the_newest_comment_under_it(
            before.anchors@,
            at,
            before.anchors@.len() as int,
        );
    }
}

/// A drag that ends within two of its column states no width; one that ends
/// short of that states the width it ended at. The least a drag can shrink a
/// picture to is ninety-six.
pub proof fn a_resize_settles_at_the_width_it_ended_at(live: u32, full: u32)
    ensures
        image::settled_width(Some(live), Some(full)) == (if live as int >= full as int - 2 {
            None
        } else {
            Some(live)
        }),
        image::settled_width(Some(live), None) == Some(live),
        image::settled_width(None, Some(full)) is None,
        image::MIN_IMAGE_WIDTH == 96,
{
}

/// Only a picture takes a width, and only its width changes.
pub proof fn only_a_picture_takes_a_width(block: BlockView, width: Option<u32>)
    ensures
        image::at_width(block, width).indent == block.indent,
        !(block.kind is Image) ==> image::at_width(block, width) == block,
        block.kind matches KindView::Image { url, alt, .. } ==> image::at_width(block, width).kind
            == (KindView::Image { url, alt, width }),
{
}

/// A resize that ends is over, and changes nothing but the width of the
/// picture it was of.
pub proof fn a_resize_changes_one_width(
    before: Editor,
    full: Option<u32>,
    ended: bool,
    after: Editor,
)
    requires
        Editor::resize_dropped(before, full, ended, after),
    ensures
        ended == before.pointing.resizing is Some,
        after.pointing.resizing is None,
        !ended ==> after == before,
        before.pointing.resizing matches Some((ix, live)) ==> {
            &&& after.selection == before.selection || before.mode == Mode::Source
                || before.doc@.len() == 0
            &&& before.mode == Mode::Blocks ==> after.doc@.len() == before.doc@.len()
                || before.doc@.len() == 0
            &&& before.mode == Mode::Blocks && before.doc@.len() > 0 ==> forall|i: int|
                0 <= i < before.doc@.len() && i != ix ==> after.doc@[i] == before.doc@[i]
            &&& before.mode == Mode::Blocks && before.stated_width(ix as int) is Some ==> (
            after.doc@[ix as int].kind matches KindView::Image { width, .. } && width
                == image::settled_width(live, full))
        },
{
    assert(before.doc@.len() == before.doc.blocks@.len());
    if let Some((ix, live)) = before.pointing.resizing {
        if ix < before.doc@.len() {
            assert(before.doc@[ix as int] == before.doc.blocks@[ix as int]@);
        }
        assert(after.doc@.len() == after.doc.blocks@.len());
    }
}

/// Pictures among some files are written down in the order they came: each
/// that is accepted, once, at the address it is kept under, or where it is.
pub proof fn pictures_are_written_down_in_order(
    paths: Seq<String>,
    accepts: Seq<bool>,
    kept: Seq<Option<String>>,
    n: int,
)
    requires
        0 <= n < paths.len(),
        accepts.len() == paths.len(),
        kept.len() == paths.len(),
    ensures
        ({
            let (fewer, more) = (
                image::urls_of(paths, accepts, kept, n),
                image::urls_of(paths, accepts, kept, n + 1),
            );
            &&& image::urls_of(paths, accepts, kept, 0).len() == 0
            &&& !accepts[n] ==> more == fewer
            &&& accepts[n] ==> more.len() == fewer.len() + 1 && more.take(fewer.len() as int)
                == fewer
            &&& accepts[n] && kept[n] is None ==> more.last() == paths[n]@
            &&& accepts[n] ==> (kept[n] matches Some(url) ==> more.last() == url@)
        }),
{
    let (fewer, more) = (
        image::urls_of(paths, accepts, kept, n),
        image::urls_of(paths, accepts, kept, n + 1),
    );
    if accepts[n] {
        assert(more.take(fewer.len() as int) =~= fewer);
    }
}

/// Where block `b` of a document is once pictures are put into it.
pub open spec fn pushed(doc: Doc, ix: int, count: nat, b: int) -> Option<int> {
    let deltas = image::picture_deltas(doc, ix, count);
    let at = Cursor { block: b as usize, part: Part::Body, offset: 0 };
    if deltas.len() == 1 {
        match deltas[0].moved(at) {
            Some(to) => Some(to.block as int),
            None => None,
        }
    } else {
        match deltas[0].moved(at) {
            Some(to) => match deltas[1].moved(to) {
                Some(to) => Some(to.block as int),
                None => None,
            },
            None => None,
        }
    }
}

/// Pictures go in behind the block they were dropped on, or in the place of an
/// empty paragraph, one block each, as far in as that block. Every other block
/// is where its positions are taken to, saying what it said.
pub proof fn pictures_push_the_other_blocks_down(
    doc: Doc,
    ix: int,
    urls: Seq<Seq<char>>,
    b: int,
    k: int,
)
    requires
        0 <= ix < doc.blocks@.len(),
        doc.blocks@.len() + urls.len() <= usize::MAX,
        0 <= b < doc.blocks@.len(),
        0 <= k < urls.len(),
    ensures
        ({
            let with = image::with_pictures(doc, ix, urls);
            let empty = doc.blocks@[ix].kind matches BlockKind::Paragraph(text)
                && text.text@.len() == 0;
            let first = if empty {
                ix
            } else {
                ix + 1
            };
            &&& with.len() == doc@.len() + urls.len() - (if empty {
                1int
            } else {
                0
            })
            &&& image::first_picture(doc, ix) == first
            &&& with[first + k].indent == doc.blocks@[ix].indent
            &&& with[first + k].kind == (KindView::Image {
                url: urls[k],
                alt: TextView { text: Seq::empty(), marks: Seq::empty() },
                width: None,
            })
            &&& empty && b == ix ==> pushed(doc, ix, urls.len(), b) is None
            &&& !(empty && b == ix) ==> (pushed(doc, ix, urls.len(), b) matches Some(to)
                && 0 <= to < with.len() && with[to] == doc@[b])
        }),
{
    let with = image::with_pictures(doc, ix, urls);
    assert(doc@.len() == doc.blocks@.len());
    let first = image::first_picture(doc, ix);
    let indent = doc.blocks@[ix].indent;
    let pictures = Seq::new(urls.len(), |i: int| image::picture(urls[i], indent));
    let rest = if image::empty_at(doc, ix) {
        doc@.remove(ix)
    } else {
        doc@
    };
    assert(with == rest.take(first) + pictures + rest.skip(first));
    assert(with[first + k] == pictures[k]);
    if let Some(to) = pushed(doc, ix, urls.len(), b) {
        if to < first {
            assert(with[to] == rest[to]);
        } else {
            assert(with[to] == rest[to - urls.len()]);
        }
    }
}

/// The bytes the platform replaces are those it gave, in a text; without them
/// it is what is being composed, which otherwise goes in at the caret.
pub proof fn the_platform_replaces_what_it_names(editor: Editor, range: Option<Span>)
    ensures
        range is Some && editor.in_text() ==> editor.replaced(range) == range,
        range is None || !editor.in_text() ==> editor.replaced(range) == editor.marked,
        editor.replaced(range) matches Some(span) ==> editor.composes_at(range) == span.start,
        editor.replaced(range) is None ==> editor.composes_at(range)
            == editor.selection.head.offset,
{
}

/// A step of an insert adds its deltas behind those before it, and holds the
/// caret inside the document it made.
pub proof fn a_step_of_an_insert_follows_the_others(
    before: Insert,
    doc: Doc,
    to: Cursor,
    deltas: Seq<Delta>,
    after: Insert,
    i: int,
)
    requires
        Insert::stepped(before, doc, to, deltas, after),
    ensures
        after.doc == doc,
        after.at == doc.nearest(to),
        after.deltas@.len() == before.deltas@.len() + deltas.len(),
        0 <= i < before.deltas@.len() ==> after.deltas@[i] == before.deltas@[i],
        0 <= i < deltas.len() ==> after.deltas@[before.deltas@.len() + i] == deltas[i],
{
}

/// With the start of its text gone, a caret is as much nearer to it, and no
/// nearer than its start.
pub proof fn a_caret_comes_back_by_what_went(at: Cursor, len: int)
    requires
        0 <= len <= usize::MAX,
    ensures
        Insert::below(at, len).block == at.block,
        Insert::below(at, len).part == at.part,
        at.offset >= len ==> Insert::below(at, len).offset == at.offset - len,
        at.offset < len ==> Insert::below(at, len).offset == 0,
        Some(Insert::below(at, len)) == typing::taken_from(
            at,
            Span { start: 0, end: len as usize },
        ).moved(at),
{
}

/// Only a quote the caret is in the body of is promoted.
pub proof fn an_insert_promotes_the_quote_it_is_in(insert: Insert)
    ensures
        insert.promotes() is Some ==> insert.at.part == Part::Body && insert.at.block
            < insert.doc.blocks@.len() && insert.doc.blocks@[insert.at.block as int].kind is Quote,
        insert.at.part == Part::Body && insert.at.block < insert.doc.blocks@.len()
            ==> insert.promotes() == typing::promoted(
            insert.doc.blocks@[insert.at.block as int].kind,
        ),
{
}

/// What is typed edits the document as any edit does, and only the slash menu
/// follows it besides.
pub proof fn typing_is_an_edit_the_menu_follows(
    before: Editor,
    kind: EditKind,
    doc: Doc,
    at: Cursor,
    deltas: Seq<Delta>,
    typed: Seq<char>,
    query: bool,
    after: Editor,
)
    requires
        Editor::edited_by_typing(before, kind, doc, at, deltas, typed, query, after),
        before.mode == Mode::Blocks,
        doc.blocks@.len() > 0,
    ensures
        after.doc == doc,
        after.selection == (Selection { anchor: at, head: at }),
        after.events@ == before.events@.push(EditorEvent::Changed),
        after.menus.pasted is None,
        !before.chrome.slash ==> after.menus.slash == before.menus.slash,
        before.chrome.slash && before.menus.slash is Some && query ==> after.menus.slash
            == before.menus.slash,
        before.chrome.slash && before.menus.slash is Some && !query ==> after.menus.slash is None,
        before.menus.slash is None && typed != seq!['/'] ==> after.menus.slash is None,
{
}

/// A bar lights the marks it was given and those that wait, each once, and no
/// others.
pub proof fn a_bar_lights_the_marks_that_wait(
    marks: Seq<MarkView>,
    stored: Seq<MarkView>,
    n: int,
    mark: MarkView,
)
    requires
        0 <= n <= stored.len(),
    ensures
        moments::lit(marks, stored, n).contains(mark) <==> marks.contains(mark) || stored.take(
            n,
        ).contains(mark),
        moments::lit(marks, stored, n).take(marks.len() as int) == marks,
        moments::lit(marks, stored, n).len() >= marks.len(),
        marks.no_duplicates() ==> moments::lit(marks, stored, n).no_duplicates(),
    decreases n,
{
    if n <= 0 {
        assert(marks.take(marks.len() as int) =~= marks);
    } else {
        a_bar_lights_the_marks_that_wait(marks, stored, n - 1, mark);
        a_bar_lights_the_marks_that_wait(marks, stored, n - 1, stored[n - 1]);
        let before = moments::lit(marks, stored, n - 1);
        let now = moments::lit(marks, stored, n);
        assert(stored.take(n) =~= stored.take(n - 1).push(stored[n - 1]));
        assert(now.take(marks.len() as int) =~= before.take(marks.len() as int));
        let (fewer, more) = (stored.take(n - 1), stored.take(n));
        if fewer.contains(mark) {
            let k = choose|k: int| 0 <= k < fewer.len() && fewer[k] == mark;
            assert(more[k] == mark);
        }
        if more.contains(mark) {
            let k = choose|k: int| 0 <= k < more.len() && more[k] == mark;
            if k < n - 1 {
                assert(fewer[k] == mark);
            }
        }
        assert(more[n - 1] == stored[n - 1]);
        if !before.contains(stored[n - 1]) {
            assert(now[before.len() as int] == stored[n - 1]);
            if before.contains(mark) {
                let k = choose|k: int| 0 <= k < before.len() && before[k] == mark;
                assert(now[k] == mark);
            }
            if now.contains(mark) {
                let k = choose|k: int| 0 <= k < now.len() && now[k] == mark;
                if k < before.len() {
                    assert(before[k] == mark);
                }
            }
        }
    }
}

/// A selection makes a fence where it is prose of more than one line: all of it
/// in bodies, and either of two texts or with a break inside one.
pub proof fn a_fence_is_made_of_lines_of_prose(doc: Doc, spans: Seq<(Cursor, Span)>, i: int)
    requires
        0 <= i < spans.len(),
    ensures
        spans[i].0.part != Part::Body ==> !moments::is_fenceable(doc, spans),
        spans.len() >= 2 && (forall|k: int|
            0 <= k < spans.len() ==> (#[trigger] spans[k]).0.part == Part::Body)
            ==> moments::is_fenceable(doc, spans),
        spans.len() == 1 && spans[0].0.part == Part::Body ==> (moments::is_fenceable(doc, spans)
            <==> (crate::markdown::selectable::slice_of(
            doc,
            spans[0].0,
            spans[0].1,
        ) matches Some(text) && exists|k: int| 0 <= k < text.len() && text[k] == '\n')),
{
    if spans.len() == 1 {
        let text = crate::markdown::selectable::slice_of(doc, spans[0].0, spans[0].1);
        if moments::breaks(text) {
            assert(moments::breaks(
                crate::markdown::selectable::slice_of(doc, spans[0].0, spans[0].1),
            ));
        }
    }
}

/// A moment restored is that moment: its document, its mode and its anchors,
/// its selection held inside it. Only a change of mode shuts what floats, and
/// the host is told of it before it is told of the document.
pub proof fn a_moment_restored_is_that_moment(before: Editor, step: Step, after: Editor)
    requires
        Editor::restored(before, step, after),
    ensures
        after.doc == step.doc,
        after.mode == step.mode,
        after.anchors == step.anchors,
        after.selection.anchor == step.doc.nearest(step.selection.anchor),
        after.selection.head == step.doc.nearest(step.selection.head),
        after.chrome == before.chrome,
        after.stored == before.stored,
        step.mode == before.mode ==> after.menus == before.menus && after.pointing
            == before.pointing && Editor::tells(before.mode, step) == seq![EditorEvent::Changed],
        step.mode != before.mode ==> after.menus.slash is None && after.menus.pasted is None
            && after.menus.url_prompt is None && after.pointing.lifted is None
            && after.pointing.hovered is None && after.pointing.dropping is None && Editor::tells(
            before.mode,
            step,
        ) == seq![EditorEvent::ModeChanged(step.mode), EditorEvent::Changed],
{
}

/// A selection is inside a fence where both its ends are in the code of one
/// block, whichever came first.
pub proof fn a_selection_in_a_fence_has_both_ends_in_it(selection: Selection)
    ensures
        Editor::fenced(selection) <==> selection.anchor.part == Part::Code && selection.head.part
            == Part::Code && selection.anchor.block == selection.head.block,
{
}

} // verus!
