//! What each key, press and paste means where the caret is.

use bezel::editor::anchor::{Anchor, AnchorId, Delta, Splice};
use bezel::editor::blocks::{Drag, Press, Release};
use bezel::editor::commands::{Answer, Back, Choice, Enter, Kill, Marking, UrlPaste};
use bezel::editor::dispatch::{
    command, dropped, Carried, Command, MarkChord, Motion, Pasting, Reach, Tab, HIGHLIGHT_MARK,
};
use bezel::editor::history::{EditKind, Mode};
use bezel::editor::image::{column_width, dragged_width, image_urls, MIN_IMAGE_WIDTH};
use bezel::editor::input::{InputSelection, Typing};
use bezel::editor::insert::Insert;
use bezel::editor::keys::{bindings, Action, Scope, CONTEXT, PROMPT_CONTEXT};
use bezel::editor::moments::{fenceable, Copied, Form};
use bezel::editor::surface::{Chrome, Editor, EditorEvent, Paste};
use bezel::editor::typing::{apply_shortcut, quote_marker, taken};
use bezel::markdown::doc::{
    Block, BlockKind, Cursor, Doc, Form as CardForm, Mark, MarkSpan, Part, QuoteKind, Selection,
    Span, Text,
};
use bezel::markdown::layout::{Bounds, Line, PaintedAt};
use bezel::markdown::marks::Marks;
use bezel::text::trim;

fn paragraph(text: &str) -> Block {
    Block::new(BlockKind::Paragraph(Text::plain(text)))
}

fn fence(code: &str) -> Block {
    Block::new(BlockKind::Code { language: None, code: Text::plain(code) })
}

fn image(url: &str, width: Option<u32>) -> Block {
    Block::new(BlockKind::Image { url: url.into(), alt: Text::plain(""), width })
}

fn task(checked: bool) -> Block {
    Block::new(BlockKind::Task { checked, text: Text::plain("a") })
}

fn doc(blocks: Vec<Block>) -> Doc {
    Doc { blocks }
}

fn at(block: usize, offset: usize) -> Cursor {
    Cursor::new(block, Part::Body, offset)
}

fn in_code(block: usize, offset: usize) -> Cursor {
    Cursor::new(block, Part::Code, offset)
}

fn span(start: usize, end: usize) -> Span {
    Span { start, end }
}

fn editor(blocks: Vec<Block>, selection: Selection) -> Editor {
    let mut editor = Editor::new(doc(blocks));
    editor.select(selection);
    editor
}

fn caret(blocks: Vec<Block>, at: Cursor) -> Editor {
    editor(blocks, Selection::at(at))
}

/// An editor on the source `text`, the caret at a byte of it.
fn source(text: &str, offset: usize) -> Editor {
    Editor::new(doc(vec![paragraph("")])).with_mode(Form::Source { source: text.into(), offset })
}

// --- marks -----------------------------------------------------------------

#[test]
fn a_mark_at_a_caret_waits_for_the_next_character_alone() {
    let mut editor = caret(vec![paragraph("ab")], at(0, 1));
    assert_eq!(editor.toggle_mark(Mark::Bold), Marking::Stored);
    assert_eq!(editor.toggle_mark(Mark::Italic), Marking::Stored);
    let formatting = editor.formatting(vec![Mark::Italic], Some("Text".into()), &vec![]);
    assert_eq!(formatting.marks, vec![Mark::Italic, Mark::Bold]);
    assert_eq!(formatting.block, Some("Text".to_string()));
    assert_eq!(editor.toggle_mark(Mark::Italic), Marking::Stored);
    let typed = editor.typed("é");
    assert_eq!(typed.text, "é");
    assert_eq!(typed.marks, vec![MarkSpan { range: span(0, 2), mark: Mark::Bold }]);
    assert!(editor.typed("x").marks.is_empty());
}

#[test]
fn a_mark_toggled_twice_waits_no_more() {
    let mut editor = caret(vec![paragraph("ab")], at(0, 1));
    editor.toggle_mark(Mark::Strike);
    editor.toggle_mark(Mark::Custom("x".into()));
    editor.toggle_mark(Mark::Custom("x".into()));
    assert_eq!(editor.stored, vec![Mark::Strike]);
}

#[test]
fn a_mark_over_a_selection_is_applied_and_the_source_takes_none() {
    let mut selected = editor(vec![paragraph("ab")], Selection::new(at(0, 0), at(0, 2)));
    assert_eq!(selected.toggle_mark(Mark::Bold), Marking::Applied);
    let mut code = caret(vec![fence("ab")], in_code(0, 1));
    assert_eq!(code.toggle_mark(Mark::Code), Marking::Applied);
    assert_eq!(code.toggle_mark(Mark::Bold), Marking::Stored);
    let mut source = source("ab", 1);
    assert_eq!(source.toggle_mark(Mark::Bold), Marking::Nothing);
    assert!(source.formatting(vec![Mark::Bold], None, &vec![]).marks.is_empty());
}

#[test]
fn a_motion_lets_go_of_the_marks_that_waited() {
    let mut editor = caret(vec![paragraph("ab")], at(0, 1));
    editor.toggle_mark(Mark::Bold);
    editor.motion(None);
    assert_eq!(editor.stored.len(), 1);
    editor.motion(Some(Selection::at(at(0, 2))));
    assert!(editor.stored.is_empty());
    assert_eq!(editor.cursor(), at(0, 2));
}

// --- deleting --------------------------------------------------------------

#[test]
fn a_delete_backwards_takes_the_selection_a_character_or_the_seam() {
    let selected = editor(vec![paragraph("ab")], Selection::new(at(0, 0), at(0, 2)));
    assert_eq!(
        selected.delete_back(at(0, 1)),
        (EditKind::Delete, Back::Range(Selection::new(at(0, 0), at(0, 2))))
    );
    let inside = caret(vec![paragraph("ab")], at(0, 2));
    assert_eq!(
        inside.delete_back(at(0, 1)),
        (EditKind::Delete, Back::Range(Selection::new(at(0, 1), at(0, 2))))
    );
    let start = caret(vec![paragraph("ab"), paragraph("cd")], at(1, 0));
    assert_eq!(start.delete_back(at(0, 2)), (EditKind::Structure, Back::Merge));
    assert_eq!(start.delete_forward(at(1, 1)), Selection::new(at(1, 0), at(1, 1)));
    assert_eq!(selected.delete_forward(at(0, 1)), Selection::new(at(0, 0), at(0, 2)));
}

#[test]
fn a_merge_closes_the_seam() {
    let mut editor = caret(vec![paragraph("ab"), paragraph("cd")], at(1, 0));
    editor.set_anchors(vec![Anchor::new(AnchorId(1), Selection::new(at(1, 0), at(1, 2)))]);
    editor.menus.slash = Some(at(1, 0));
    editor.merged_back(doc(vec![paragraph("abcd")]), Some(at(0, 2)), false);
    // The menu was over a query the merge took away.
    assert_eq!(editor.menus.slash, None);
    assert_eq!(editor.cursor(), at(0, 2));
    assert_eq!(editor.anchors[0].range, Selection::new(at(0, 2), at(0, 4)));
    let same = editor.doc.clone();
    editor.merged_back(same.clone(), None, false);
    assert_eq!(editor.doc, same);
    assert_eq!(editor.take_events(), vec![EditorEvent::Changed, EditorEvent::Changed]);
    editor.undo();
    assert_eq!(editor.take_events(), vec![EditorEvent::Changed]);
    assert_eq!(editor.doc, same);
}

#[test]
fn a_kill_stays_in_the_text_it_started_in() {
    let two = || vec![paragraph("ab"), paragraph("cd")];
    let editor_at = |at| caret(two(), at);
    assert_eq!(
        editor_at(at(0, 1)).delete_to(true, at(0, 9)),
        Kill::Range(Selection::new(at(0, 2), at(0, 1)))
    );
    assert_eq!(editor_at(at(0, 2)).delete_to(true, at(0, 2)), Kill::Forward);
    assert_eq!(editor_at(at(1, 0)).delete_to(false, at(0, 2)), Kill::Back);
    let selected = editor(two(), Selection::new(at(0, 0), at(1, 1)));
    assert_eq!(selected.delete_to(true, at(1, 2)), Kill::Back);
}

// --- enter -----------------------------------------------------------------

#[test]
fn enter_means_what_the_text_makes_of_it() {
    assert_eq!(caret(vec![paragraph("a")], at(0, 1)).split_block(), Enter::Split);
    assert_eq!(caret(vec![fence("a")], in_code(0, 1)).split_block(), Enter::Newline);
    let caption = Cursor::new(0, Part::Caption, 0);
    assert_eq!(caret(vec![image("", None)], caption).split_block(), Enter::Prompt(0));
    assert_eq!(caret(vec![image("u", None)], caption).split_block(), Enter::Split);
    let table = Block::new(BlockKind::Table {
        align: vec![],
        header: vec![Text::plain("h")],
        rows: vec![],
    });
    let cell = caret(vec![table], Cursor::new(0, Part::Cell { row: 0, column: 0 }, 1));
    assert_eq!(cell.split_block(), Enter::Nothing);
    assert_eq!(cell.soft_break(), Enter::Nothing);
    assert_eq!(caret(vec![paragraph("a")], at(0, 1)).soft_break(), Enter::Newline);
    assert_eq!(caret(vec![image("u", None)], caption).soft_break(), Enter::Nothing);
    assert_eq!(caret(vec![paragraph("a")], at(0, 1)).paragraph_after(), Enter::Paragraph);
    assert_eq!(source("a", 1).paragraph_after(), Enter::Nothing);
}

#[test]
fn an_open_menu_owns_every_enter_chord() {
    let mut editor = caret(vec![paragraph("/")], at(0, 1));
    editor.track_slash("/", false);
    assert_eq!(editor.split_block(), Enter::Slash);
    assert_eq!(editor.soft_break(), Enter::Slash);
    assert_eq!(editor.paragraph_after(), Enter::Slash);
    editor.offer(at(0, 0), "https://a.b".into(), true);
    assert_eq!(editor.split_block(), Enter::Paste);
    // Escape backs out of the innermost first.
    editor.dismiss();
    assert_eq!(editor.split_block(), Enter::Slash);
    editor.dismiss();
    assert_eq!(editor.split_block(), Enter::Split);
    editor.select(Selection::new(at(0, 0), at(0, 1)));
    editor.dismiss();
    assert_eq!(editor.selection, Selection::at(at(0, 1)));
}

#[test]
fn a_paragraph_opens_after_the_block() {
    let mut editor = caret(vec![paragraph("a"), paragraph("b")], at(0, 1));
    editor.set_anchors(vec![Anchor::new(AnchorId(1), Selection::new(at(1, 0), at(1, 1)))]);
    editor.insert_paragraph(doc(vec![paragraph("a"), paragraph(""), paragraph("b")]), 1);
    assert_eq!(editor.cursor(), at(1, 0));
    assert_eq!(editor.anchors[0].range.head, at(2, 1));
}

// --- typing ----------------------------------------------------------------

#[test]
fn a_slash_opens_the_menu_where_it_starts_a_word() {
    let opens = |text: &str, offset| {
        let mut editor = caret(vec![paragraph(text)], at(0, offset));
        editor.track_slash("/", true);
        editor.menus.slash
    };
    assert_eq!(opens("/", 1), Some(at(0, 0)));
    assert_eq!(opens("a /", 3), Some(at(0, 2)));
    assert_eq!(opens("a\u{a0}/", 4), Some(at(0, 3)));
    assert_eq!(opens("a/", 2), None);
    let mut typed = caret(vec![paragraph("x")], at(0, 1));
    typed.track_slash("x", true);
    assert_eq!(typed.menus.slash, None);
    let mut code = caret(vec![fence("/")], in_code(0, 1));
    code.track_slash("/", true);
    assert_eq!(code.menus.slash, None);
    let chrome = Chrome { slash: false, ..Chrome::default() };
    let mut off = caret(vec![paragraph("/")], at(0, 1)).with_chrome(chrome);
    off.track_slash("/", true);
    assert_eq!(off.menus.slash, None);
}

#[test]
fn a_menu_stays_open_while_there_is_a_query() {
    let mut editor = caret(vec![paragraph("/")], at(0, 1));
    let splice = |from, to| Splice {
        removed: Selection::at(at(0, from)),
        caret: at(0, to),
        blocks: 0,
    };
    editor.insert(Insert::new(doc(vec![paragraph("/")]), splice(0, 1)), "/", false);
    assert_eq!(editor.menus.slash, Some(at(0, 0)));
    editor.insert(Insert::new(doc(vec![paragraph("/no")]), splice(1, 3)), "no", true);
    assert_eq!(editor.menus.slash, Some(at(0, 0)));
    // Taking the block takes the query with it.
    let alert = BlockKind::Quote { kind: Some(QuoteKind::Note), text: Text::plain("") };
    assert!(editor.confirm_slash(Some(doc(vec![Block::new(alert.clone())]))));
    assert_eq!(editor.doc.blocks[0].kind, alert);
    assert_eq!(editor.cursor(), at(0, 0));
    assert_eq!(editor.menus.slash, None);
    assert!(!editor.confirm_slash(None));
}

#[test]
fn deleting_onto_the_slash_closes_the_menu() {
    let mut editor = caret(vec![paragraph("/a")], at(0, 2));
    editor.menus.slash = Some(at(0, 0));
    let splice =
        Splice { removed: Selection::new(at(0, 0), at(0, 2)), caret: at(0, 0), blocks: 0 };
    editor.deleted(EditKind::Delete, doc(vec![paragraph("")]), splice, false);
    assert_eq!(editor.menus.slash, None);
    assert_eq!(editor.cursor(), at(0, 0));
}

#[test]
fn an_alert_is_opened_by_its_marker_in_any_case() {
    let opened = |text: &str| quote_marker(&text.chars().collect::<Vec<char>>());
    assert_eq!(opened("[!NOTE]"), Some(QuoteKind::Note));
    assert_eq!(opened("[!Tip]"), Some(QuoteKind::Tip));
    assert_eq!(opened("[!important]"), Some(QuoteKind::Important));
    assert_eq!(opened("[!WARNING]"), Some(QuoteKind::Warning));
    assert_eq!(opened("[!CAUTION]"), Some(QuoteKind::Caution));
    assert_eq!(opened("[!NOTE] "), None);
    assert_eq!(opened("[!NOTES]"), None);
    assert_eq!(opened(""), None);
}

#[test]
fn a_shortcut_is_taken_from_a_body_up_to_the_caret() {
    let delta = taken(at(0, 3), span(0, 3));
    assert_eq!(apply_shortcut(at(0, 3), 3), Some((at(0, 0), delta)));
    assert_eq!(apply_shortcut(at(0, 2), 3), None);
    assert_eq!(apply_shortcut(in_code(0, 3), 3), None);
}

#[test]
fn tab_indents_the_block_and_types_spaces_in_the_source() {
    let blocks = caret(vec![paragraph("a")], at(0, 1));
    assert_eq!(blocks.tab(false), Tab::Indent);
    assert_eq!(blocks.tab(true), Tab::Outdent);
    assert_eq!(source("a", 1).tab(false), Tab::Spaces);
    assert_eq!(source("x   y", 4).tab(true), Tab::TakeBack(2));
    assert_eq!(source("x y", 2).tab(true), Tab::TakeBack(1));
    assert_eq!(source("xy", 2).tab(true), Tab::TakeBack(0));
    assert_eq!(source("  ", 2).tab(true), Tab::TakeBack(2));
}

#[test]
fn a_source_put_in_paragraphs_goes_back_into_its_fence() {
    let mut editor = source("ab", 0);
    let made = doc(vec![paragraph("a"), Block::new(BlockKind::Rule), paragraph("é")]);
    let splice = Splice { removed: Selection::at(in_code(0, 0)), caret: at(9, 9), blocks: 2 };
    editor.splice(EditKind::Structure, made, splice);
    assert_eq!(editor.source_text(), "a\né");
    assert_eq!(editor.doc.blocks.len(), 1);
    assert_eq!(editor.cursor(), in_code(0, 2));
}

// --- copy and paste --------------------------------------------------------

#[test]
fn a_copy_inside_one_fence_takes_the_code_as_it_stands() {
    let blocks = || vec![paragraph("ab"), fence("let x;")];
    let code = editor(blocks(), Selection::new(in_code(1, 6), in_code(1, 4)));
    assert_eq!(code.selected_source(), Copied::Code("x;".into()));
    assert!(code.in_fence());
    let across = editor(blocks(), Selection::new(at(0, 1), in_code(1, 3)));
    assert_eq!(across.selected_source(), Copied::Markdown);
    assert_eq!(caret(blocks(), at(0, 1)).selected_source(), Copied::Nothing);
}

#[test]
fn more_than_one_line_of_prose_is_fenceable() {
    let both = doc(vec![paragraph("a\nb"), paragraph("c"), fence("d\ne")]);
    assert!(fenceable(&both, &vec![(at(0, 0), span(0, 3))]));
    assert!(!fenceable(&both, &vec![(at(0, 0), span(0, 1))]));
    assert!(fenceable(&both, &vec![(at(0, 0), span(0, 1)), (at(1, 0), span(0, 1))]));
    assert!(!fenceable(&both, &vec![(at(0, 0), span(0, 3)), (in_code(2, 0), span(0, 1))]));
}

#[test]
fn a_paste_is_taken_for_what_the_clipboard_carries() {
    let text = caret(vec![paragraph("")], at(0, 0));
    assert_eq!(text.paste(true, true, true), Pasting::Picture);
    assert_eq!(text.paste(true, true, false), Pasting::Url);
    assert_eq!(text.paste(true, false, false), Pasting::Markdown);
    assert_eq!(text.paste(false, false, false), Pasting::Nothing);
    let code = caret(vec![fence("")], in_code(0, 0));
    assert_eq!(code.paste(true, true, true), Pasting::Literal);
    assert_eq!(code.paste(false, false, true), Pasting::Nothing);
}

#[test]
fn a_url_links_what_is_selected_and_stands_alone_in_an_empty_block() {
    let selected = editor(vec![paragraph("ab")], Selection::new(at(0, 0), at(0, 1)));
    assert_eq!(selected.paste_url(), UrlPaste::Link);
    assert_eq!(
        caret(vec![paragraph("")], at(0, 0)).paste_url(),
        UrlPaste::Insert { alone: true }
    );
    assert_eq!(
        caret(vec![paragraph("a")], at(0, 1)).paste_url(),
        UrlPaste::Insert { alone: false }
    );
    assert_eq!(caret(vec![fence("")], in_code(0, 0)).paste_url(), UrlPaste::Literal);
}

#[test]
fn a_pasted_url_becomes_what_is_chosen() {
    let url = "https://a.b";
    let answer = |alone: bool, choice| {
        let mut editor = caret(vec![paragraph("")], at(0, 0));
        editor.offer(at(0, 2), url.into(), alone);
        assert_eq!(
            editor.menus.pasted,
            Some(Paste { at: at(0, 2), url: url.into(), alone })
        );
        let answer = editor.confirm_paste(choice);
        assert_eq!(editor.menus.pasted, None);
        answer
    };
    let card = |form| BlockKind::Bookmark { url: url.into(), form };
    assert!(matches!(answer(true, Choice::Dismiss), Answer::Nothing));
    assert!(matches!(answer(true, Choice::Chip),
        Answer::Turn(0, kind) if kind == card(CardForm::Chip)));
    assert!(matches!(answer(true, Choice::Bookmark),
        Answer::Turn(0, kind) if kind == card(CardForm::Auto)));
    assert!(matches!(answer(true, Choice::Embed),
        Answer::Turn(0, kind) if kind == card(CardForm::Embed)));
    assert!(matches!(answer(true, Choice::Image),
        Answer::Turn(0, kind) if kind == image(url, None).kind));
    match answer(false, Choice::Chip) {
        Answer::Mention(range, text) => {
            assert_eq!(range, Selection::new(at(0, 2), at(0, 13)));
            assert_eq!(text.text, url);
            let mark = Mark::Mention { url: url.into(), form: CardForm::Chip };
            assert_eq!(text.marks, vec![MarkSpan { range: span(0, 11), mark }]);
        }
        _ => panic!("a chip in a sentence is a mark"),
    }
    let mut none = caret(vec![paragraph("")], at(0, 0));
    assert!(matches!(none.confirm_paste(Choice::Image), Answer::Nothing));
    none.offer(in_code(0, 0), url.into(), false);
    assert_eq!(none.menus.pasted, None);
}

#[test]
fn a_card_that_ends_the_document_leaves_somewhere_to_type() {
    let card = Block::new(BlockKind::Bookmark { url: "u".into(), form: CardForm::Auto });
    let mut editor = caret(vec![paragraph("u")], at(0, 1));
    editor.turn_into(0, doc(vec![card.clone()]), 1);
    assert_eq!(editor.doc, doc(vec![card.clone(), paragraph("")]));
    assert_eq!(editor.cursor(), at(1, 0));
    let mut editor = caret(vec![paragraph("u"), paragraph("b")], at(0, 1));
    editor.turn_into(0, doc(vec![card.clone(), paragraph("b")]), 1);
    assert_eq!(editor.doc.blocks.len(), 2);
    assert_eq!(editor.cursor(), at(1, 0));
    let mut editor = caret(vec![paragraph("u")], at(0, 1));
    editor.turn_into(0, doc(vec![image("u", None)]), 1);
    assert_eq!(editor.cursor(), Cursor::new(0, Part::Caption, 0));
}

// --- blocks and the pointer ------------------------------------------------

#[test]
fn a_checkbox_is_a_control_and_moves_no_caret() {
    let mut editor = caret(vec![paragraph("a"), task(false)], at(0, 1));
    editor.reveal = false;
    assert_eq!(
        editor.pressed(Some(1), true, Some(Selection::at(at(1, 0))), 1, false, None),
        Press::Toggled
    );
    assert_eq!(editor.doc.blocks[1], task(true));
    assert_eq!(editor.cursor(), at(0, 1));
    assert!(!editor.reveal);
    editor.toggle_task(1);
    assert_eq!(editor.doc.blocks[1], task(false));
    editor.undo();
    assert_eq!(editor.doc.blocks[1], task(true));
    let before = editor.doc.clone();
    editor.toggle_task(0);
    editor.toggle_task(9);
    assert_eq!(editor.doc, before);
}

#[test]
fn a_press_past_the_end_gives_the_document_a_paragraph_once() {
    let mut editor = caret(vec![fence("a")], in_code(0, 0));
    assert_eq!(editor.pressed(None, true, None, 1, false, None), Press::Appended);
    assert_eq!(editor.doc, doc(vec![fence("a"), paragraph("")]));
    assert_eq!(editor.cursor(), at(1, 0));
    assert!(!editor.append_tail());
    assert_eq!(editor.pressed(None, true, None, 1, false, None), Press::Missed);
}

#[test]
fn a_press_selects_and_says_which_anchor_it_landed_on() {
    let mut editor = caret(vec![paragraph("abc")], at(0, 0));
    editor.set_anchors(vec![Anchor::new(AnchorId(7), Selection::new(at(0, 1), at(0, 2)))]);
    let swept = Selection::at(at(0, 2));
    assert_eq!(
        editor.pressed(None, false, Some(swept), 1, false, Some(at(0, 2))),
        Press::Selected(Some(AnchorId(7)))
    );
    assert!(editor.pointing.dragging && editor.in_drag());
    assert_eq!(editor.take_events(), vec![EditorEvent::AnchorActivated(AnchorId(7))]);
    assert_eq!(
        editor.pressed(None, false, Some(swept), 2, false, Some(at(0, 0))),
        Press::Selected(None)
    );
    assert!(!editor.pointing.dragging);
}

#[test]
fn down_past_the_end_grows_a_document_that_cannot_by_itself() {
    let mut rule = caret(vec![paragraph("a"), Block::new(BlockKind::Rule)], at(1, 0));
    rule.vertical(true, true, None);
    assert_eq!(rule.doc.blocks.len(), 2);
    rule.vertical(true, false, None);
    assert_eq!(rule.doc.blocks.len(), 3);
    let mut open = caret(vec![paragraph("/")], at(0, 1));
    open.menus.slash = Some(at(0, 0));
    open.vertical(true, false, Some(Selection::at(at(0, 0))));
    assert_eq!(open.cursor(), at(0, 1));
    open.menus.slash = None;
    open.vertical(true, false, Some(Selection::at(at(0, 0))));
    assert_eq!(open.cursor(), at(0, 0));
}

#[test]
fn a_drag_moves_what_the_press_took_hold_of() {
    let mut editor = caret(vec![paragraph("abc"), image("u", None)], at(0, 0));
    let swept = Some(Selection::new(at(0, 0), at(0, 2)));
    assert_eq!(editor.drag_to(Some(1), Some(120), swept), Drag::Nothing);
    editor.pointing.dragging = true;
    assert_eq!(editor.drag_to(Some(1), Some(120), swept), Drag::Selection);
    assert_eq!(editor.selection, swept.unwrap());
    editor.grab(1);
    assert_eq!(editor.drag_to(Some(1), Some(120), None), Drag::Resized);
    assert_eq!(editor.pointing.resizing, Some((1, Some(120))));
    editor.pointing.lifted = Some((0, 0));
    assert_eq!(editor.drag_to(Some(1), Some(130), None), Drag::Lifted);
    assert_eq!(editor.pointing.lifted, Some((0, 1)));
    assert_eq!(editor.release(), Release::Resize(1));
    editor.pointing.resizing = None;
    assert_eq!(editor.release(), Release::Drop { from: 0, to: 1 });
    editor.pointing.lifted = Some((1, 1));
    assert_eq!(editor.release(), Release::Handle(1));
    assert_eq!(editor.release(), Release::Selection);
    assert!(dropped(true, 3, 2) && !dropped(true, 1, 2));
    assert!(dropped(false, 1, 2) && !dropped(false, 3, 2));
}

#[test]
fn a_dropped_block_goes_a_sibling_at_a_time() {
    let mut editor = caret(vec![paragraph("a"), paragraph("b"), paragraph("c")], at(1, 1));
    editor.set_anchors(vec![Anchor::new(AnchorId(1), Selection::new(at(0, 0), at(0, 1)))]);
    let mut carried = Carried::new(0, 2);
    assert!(!carried.step(span(0, 1), 1));
    assert!(carried.step(span(1, 2), 2));
    editor.drop_block(carried, doc(vec![paragraph("b"), paragraph("c"), paragraph("a")]));
    assert_eq!(editor.cursor(), at(2, 0));
    assert_eq!(editor.anchors()[0].range, Selection::new(at(2, 0), at(2, 1)));
    let mut up = Carried::new(2, 1);
    assert!(up.step(span(2, 3), 0));
}

#[test]
fn a_button_let_go_of_elsewhere_ends_a_resize() {
    let mut editor = caret(vec![image("u", None)], Cursor::new(0, Part::Caption, 0));
    editor.pointing.dragging = true;
    assert!(!editor.release_outside(Some(400)));
    assert!(!editor.pointing.dragging);
    editor.grab(0);
    editor.drag_to(None, Some(120), None);
    assert!(editor.release_outside(Some(400)));
    assert_eq!(editor.doc().blocks[0], image("u", Some(120)));
    assert_eq!(editor.pointing.resizing, None);
}

#[test]
fn a_highlight_answers_its_chord_once_it_is_registered() {
    let none = Marks::new();
    assert_eq!(MarkChord::Highlight.mark(&none), None);
    assert_eq!(MarkChord::Bold.mark(&none), Some(Mark::Bold));
    assert_eq!(MarkChord::Italic.mark(&none), Some(Mark::Italic));
    assert_eq!(MarkChord::Strike.mark(&none), Some(Mark::Strike));
    assert_eq!(MarkChord::Code.mark(&none), Some(Mark::Code));
    let marks = Marks::new().with(HIGHLIGHT_MARK.into(), "==".into());
    assert_eq!(
        MarkChord::Highlight.mark(&marks),
        Some(Mark::Custom("highlight".into()))
    );
}

#[test]
fn a_pointer_decides_which_block_wears_the_handle() {
    let mut editor = caret(vec![paragraph("a")], at(0, 0));
    assert!(editor.pointer_moved(true, Some(0)));
    assert!(!editor.pointer_moved(true, Some(0)));
    assert!(editor.ibeam());
    editor.pointing.dragging = true;
    assert!(!editor.pointer_moved(true, Some(3)));
    assert_eq!(editor.pointing.hovered, Some(0));
    assert!(editor.pointer_left());
    assert!(!editor.pointer_left());
    editor.grab(0);
    assert!(editor.take_claim());
    assert!(!editor.take_claim());
}

#[test]
fn a_copied_block_pushes_down_what_follows_it() {
    let mut editor = caret(vec![paragraph("a"), paragraph("b")], at(0, 1));
    editor.set_anchors(vec![Anchor::new(AnchorId(1), Selection::new(at(1, 0), at(1, 1)))]);
    let copied = doc(vec![paragraph("a"), paragraph("a"), paragraph("b")]);
    editor.duplicate_block(span(0, 1), Some(1), copied);
    assert_eq!(editor.cursor(), at(1, 0));
    assert_eq!(editor.anchors[0].range.anchor, at(2, 0));
    let mut source = source("a", 1);
    source.duplicate_block(span(0, 1), Some(1), doc(vec![fence("a"), fence("a")]));
    assert_eq!(source.doc.blocks.len(), 1);
    source.set_block(doc(vec![paragraph("a")]));
    source.set_language(doc(vec![paragraph("a")]));
    assert_eq!(source.source_text(), "a");
}

// --- pictures --------------------------------------------------------------

#[test]
fn a_drag_is_held_between_the_least_and_the_column() {
    assert_eq!(column_width(40), MIN_IMAGE_WIDTH);
    assert_eq!(column_width(500), 500);
    assert_eq!(column_width(-7), 96);
    assert_eq!(column_width(1 << 40), u32::MAX);
    assert_eq!(dragged_width(10, 400), 96);
    assert_eq!(dragged_width(250, 400), 250);
    assert_eq!(dragged_width(900, 400), 400);
}

#[test]
fn a_resize_is_written_down_when_it_is_let_go_of() {
    let mut editor = caret(vec![paragraph("a"), image("u", Some(200))], at(0, 1));
    assert!(!editor.drop_resize(Some(400)));
    editor.grab(1);
    assert!(editor.drop_resize(Some(400)));
    editor.undo();
    assert!(editor.take_events().is_empty());
    editor.grab(1);
    editor.drag_to(None, Some(150), None);
    assert!(editor.drop_resize(Some(400)));
    assert_eq!(editor.doc.blocks[1], image("u", Some(150)));
    assert_eq!(editor.cursor(), at(0, 1));
    // Dragged back out to the column, the width is forgotten.
    editor.grab(1);
    editor.drag_to(None, Some(398), None);
    editor.drop_resize(Some(400));
    assert_eq!(editor.doc.blocks[1], image("u", None));
    editor.undo();
    assert_eq!(editor.doc.blocks[1], image("u", Some(150)));
}

#[test]
fn pictures_take_the_place_of_an_empty_paragraph() {
    let editor = caret(vec![paragraph(""), paragraph("b")], at(0, 0));
    let urls = vec!["x".to_string(), "y".to_string()];
    let made = editor.pictures(0, &urls).unwrap();
    assert_eq!(made.doc, doc(vec![image("x", None), image("y", None), paragraph("b")]));
    assert_eq!(made.last, 1);
    assert_eq!(
        made.deltas,
        vec![Delta::Moved { at: span(0, 1), to: None }, Delta::Opened { at: 0, count: 2 }]
    );
    let after = editor.pictures(1, &urls).unwrap();
    assert_eq!(after.last, 3);
    assert_eq!(after.deltas, vec![Delta::Opened { at: 2, count: 2 }]);
    assert!(editor.pictures(0, &vec![]).is_none());
    let mut editor = editor;
    editor.place_images(made.doc, made.last, made.deltas);
    assert_eq!(editor.cursor(), Cursor::new(1, Part::Caption, 0));
}

#[test]
fn a_file_lands_where_the_store_keeps_it() {
    let paths = vec!["a.png".to_string(), "b.txt".to_string(), "c.png".to_string()];
    let kept = vec![Some("kept/a.png".to_string()), None, None];
    assert_eq!(
        image_urls(&paths, &vec![true, false, true], &kept),
        vec!["kept/a.png".to_string(), "c.png".to_string()]
    );
    let mut editor = caret(vec![paragraph("a"), paragraph("b")], at(1, 0));
    assert_eq!(editor.drop_target(), Some(1));
    editor.file_over(Some(0));
    assert_eq!(editor.drop_target(), Some(0));
    assert_eq!(editor.drop_target(), Some(1));
    assert_eq!(source("a", 0).drop_target(), None);
}

#[test]
fn a_picture_with_nothing_to_show_asks_where_to_look() {
    let caption = Cursor::new(0, Part::Caption, 0);
    let mut editor = caret(vec![image("", None), image("u", None)], caption);
    // Nothing can be asked under a block that has not painted.
    assert_eq!(editor.image_target(), None);
    editor.prompt_for_url(0);
    assert_eq!(editor.menus.url_prompt, None);
    let bounds = Bounds { x: 0, y: 1, width: 2, height: 3 };
    editor.layouts.record_block(0, bounds);
    assert_eq!(editor.image_target(), Some((0, bounds)));
    editor.pointing.hovered = Some(1);
    assert_eq!(editor.image_target(), Some((0, bounds)));
    assert_eq!(editor.resize_target(), Some(1));
    editor.prompt_for_url(0);
    assert_eq!(editor.menus.url_prompt, Some(0));
    let turned = || doc(vec![image("v", None), image("u", None)]);
    assert!(!editor.confirm_url(" \u{3000}\t", turned()));
    assert_eq!(editor.doc.blocks[0], image("", None));
    assert!(!editor.cancel_url());
    editor.prompt_for_url(0);
    assert!(editor.cancel_url());
    editor.prompt_for_url(0);
    assert!(editor.confirm_url(" v\n", turned()));
    assert_eq!(editor.doc.blocks[0], image("v", None));
    assert!(!editor.confirm_url("v", turned()));
    assert_eq!(editor.image_target(), None);
}

// --- the platform's input --------------------------------------------------

#[test]
fn the_platform_is_told_of_one_text_at_a_time() {
    let two = || vec![paragraph("abc"), paragraph("d")];
    let back = editor(two(), Selection::new(at(0, 2), at(0, 1)));
    assert_eq!(
        back.selected_text_range(),
        Some(InputSelection { range: span(1, 2), reversed: true })
    );
    let across = editor(two(), Selection::new(at(0, 2), at(1, 1)));
    assert_eq!(
        across.selected_text_range(),
        Some(InputSelection { range: span(1, 1), reversed: false })
    );
    assert_eq!(across.character_index_for_point(Some(at(1, 0))), Some(0));
    assert_eq!(across.character_index_for_point(Some(at(0, 0))), None);
    assert_eq!(across.character_index_for_point(None), None);
    assert_eq!(back.text_for_range(span(1, 3)), Some("bc".to_string()));
    assert_eq!(back.text_for_range(span(2, 4)), None);
    let accented = caret(vec![paragraph("\u{e9}a")], at(0, 0));
    assert_eq!(accented.text_for_range(span(0, 2)), Some("\u{e9}".to_string()));
    assert_eq!(accented.text_for_range(span(1, 2)), None);
    // A rule holds no text to be told about.
    let mut rule = caret(vec![Block::new(BlockKind::Rule)], at(0, 0));
    rule.marked = Some(span(0, 1));
    assert_eq!(rule.selected_text_range(), None);
    // A range is of no text here, so what is being composed is what goes.
    assert_eq!(rule.composition_start(Some(span(5, 6))), 0);
    assert_eq!(rule.marked_text_range(), None);
    assert_eq!(rule.text_for_range(span(0, 0)), None);
    assert_eq!(rule.character_index_for_point(Some(at(0, 0))), None);
}

#[test]
fn what_is_asked_for_is_answered_with_where_it_painted() {
    let two = || vec![paragraph("abc"), paragraph("d")];
    let place = |text, byte| Some(PaintedAt { text, byte });
    let mut editor = editor(two(), Selection::new(at(0, 2), at(1, 1)));
    editor.anchors.push(Anchor::new(AnchorId(7), Selection::new(at(0, 3), at(0, 1))));
    assert_eq!(editor.selection_bounds(), None);
    assert_eq!(editor.reveal_caret(true), None);
    editor.layouts.record(0, Part::Body, span(0, 3), &vec![Line { len: 3, wraps: vec![] }]);
    assert_eq!(editor.anchor_bounds(AnchorId(7)), place(0, 1));
    assert_eq!(editor.anchor_bounds(AnchorId(8)), None);
    editor.reveal = true;
    // Not painted yet, so it is still owed.
    assert_eq!(editor.reveal_caret(true), None);
    assert!(editor.reveal);
    editor.layouts.record(1, Part::Body, span(0, 1), &vec![Line { len: 1, wraps: vec![] }]);
    assert_eq!(editor.selection_bounds(), place(1, 1));
    assert_eq!(editor.bounds_for_range(span(0, 1)), Some((place(1, 0).unwrap(), place(1, 1))));
    assert_eq!(editor.bounds_for_range(span(0, 2)), Some((place(1, 0).unwrap(), None)));
    assert_eq!(editor.bounds_for_range(span(2, 2)), None);
    assert_eq!(editor.reveal_caret(true), place(1, 1));
    assert_eq!(editor.reveal_caret(true), None);
    editor.reveal = true;
    assert_eq!(editor.reveal_caret(false), None);
    assert!(!editor.reveal);
    editor.select(Selection::at(at(1, 1)));
    assert_eq!(editor.selection_bounds(), None);
}

#[test]
fn a_source_reads_as_it_stands() {
    let blocks = caret(vec![paragraph("a")], at(0, 0));
    assert_eq!(blocks.source("a\n".to_string()), "a\n");
    let text = source("# a", 0);
    assert_eq!(text.source("unread".to_string()), "# a");
}

#[test]
fn what_is_composed_is_what_is_replaced() {
    let mut editor = caret(vec![paragraph("abcd")], at(0, 1));
    assert_eq!(editor.composition_start(None), 1);
    editor.replace_and_mark_text_in_range(None, 2, doc(vec![paragraph("axxbcd")]), span(2, 3));
    assert_eq!(editor.doc, doc(vec![paragraph("axxbcd")]));
    assert_eq!(editor.marked, Some(span(1, 3)));
    assert_eq!(editor.marked_text_range(), Some(span(1, 3)));
    assert_eq!(editor.selection, Selection::new(at(0, 2), at(0, 3)));
    assert_eq!(editor.composition_start(None), 1);
    assert_eq!(editor.composition_start(Some(span(0, 1))), 0);
    assert_eq!(editor.replace_text_in_range(None, true), Typing::Insert);
    assert_eq!(editor.selection, Selection::new(at(0, 1), at(0, 3)));
    assert_eq!(editor.marked, None);
    assert_eq!(editor.replace_text_in_range(None, true), Typing::Paste);
    let gone = Some(span(0, 3));
    editor.replace_and_mark_text_in_range(gone, 0, doc(vec![paragraph("bcd")]), span(0, 0));
    assert_eq!(editor.marked, None);
    editor.replace_and_mark_text_in_range(None, 1, doc(vec![paragraph("xbcd")]), span(0, 1));
    assert_eq!(editor.marked, Some(span(0, 1)));
    editor.unmark_text();
    assert_eq!(editor.marked, None);
}

// --- keys ------------------------------------------------------------------

#[test]
fn a_chord_is_bound_to_its_action_on_each_platform() {
    let bound = |on_mac, keys: &str, scope| {
        bindings(on_mac)
            .into_iter()
            .filter(|binding| binding.keys == keys && binding.scope == scope)
            .map(|binding| binding.action)
            .collect::<Vec<Action>>()
    };
    assert_eq!(bound(true, "cmd-z", Scope::Editor), vec![Action::Undo]);
    assert_eq!(bound(false, "ctrl-z", Scope::Editor), vec![Action::Undo]);
    assert_eq!(bound(false, "ctrl-y", Scope::Editor), vec![Action::Redo]);
    assert_eq!(bound(false, "cmd-z", Scope::Editor), vec![]);
    assert_eq!(bound(true, "ctrl-a", Scope::Editor), vec![Action::Home]);
    assert_eq!(bound(false, "ctrl-a", Scope::Editor), vec![Action::SelectAll]);
    assert_eq!(bound(true, "enter", Scope::Editor), vec![Action::SplitBlock]);
    assert_eq!(bound(true, "enter", Scope::Prompt), vec![Action::ConfirmUrl]);
    assert_eq!(bindings(true).len(), 62);
    assert_eq!(bindings(false).len(), 49);
    for on_mac in [true, false] {
        assert!(bindings(on_mac).iter().all(|binding| binding.action != Action::RemoveBlock));
    }
    assert_eq!(Scope::Editor.context(), CONTEXT);
    assert_eq!(Scope::Prompt.context(), PROMPT_CONTEXT);
}

#[test]
fn a_motion_goes_with_its_selecting_twin() {
    assert_eq!(command(Action::WordLeft), Command::Move { motion: Motion::WordLeft, extend: false });
    assert_eq!(
        command(Action::SelectWordLeft),
        Command::Move { motion: Motion::WordLeft, extend: true }
    );
    assert_eq!(command(Action::KillLine), Command::Kill { forward: true, to: Reach::LineEnd });
    assert_eq!(command(Action::ToggleHighlight), Command::Mark(MarkChord::Highlight));
    assert_eq!(command(Action::MoveBlockUp), Command::MoveBlock { down: false });
}

#[test]
fn the_source_keeps_the_caret_and_gives_it_back() {
    let blocks = || doc(vec![paragraph("one"), paragraph("two"), paragraph("three")]);
    let mut editor = caret(blocks().blocks, at(2, 3));
    let document = "one\n\ntwo\n\nthree";
    editor.toggle_source(Form::Source { source: document.into(), offset: 13 });
    assert_eq!(editor.mode, Mode::Source);
    assert_eq!(editor.source_text(), document);
    assert_eq!(editor.cursor(), in_code(0, 13));
    editor.toggle_source(Form::Blocks { doc: blocks(), at: at(2, 3) });
    assert_eq!(editor.mode, Mode::Blocks);
    assert_eq!(editor.cursor(), at(2, 3));
    assert_eq!(editor.doc, blocks());
}

#[test]
fn white_space_is_trimmed_at_both_ends() {
    assert_eq!(trim(" \u{85}a b\u{2009}\n"), "a b");
    assert_eq!(trim("\u{a0}\u{1680}\u{2028}\u{2029}\u{202f}\u{205f}\u{3000}\x0b"), "");
    assert_eq!(trim("\u{200b}\u{1f}"), "\u{200b}\u{1f}");
    for c in (0..=0x10ffff_u32).filter_map(char::from_u32) {
        assert_eq!(trim(&c.to_string()).is_empty(), c.is_whitespace());
    }
}

#[test]
fn the_form_switches_to_the_other() {
    assert_eq!(caret(vec![paragraph("a")], at(0, 0)).other_mode(), Mode::Source);
    let mut text = source("a", 0);
    assert_eq!(text.other_mode(), Mode::Blocks);
    text.toggle_source(Form::Blocks { doc: doc(vec![paragraph("a")]), at: at(0, 1) });
    assert_eq!(text.mode, Mode::Blocks);
    assert_eq!(text.doc, doc(vec![paragraph("a")]));
    assert_eq!(text.cursor(), at(0, 1));
    assert_eq!(
        text.take_events(),
        vec![EditorEvent::ModeChanged(Mode::Blocks), EditorEvent::Changed]
    );
    text.undo();
    assert_eq!(text.mode, Mode::Source);
    let mut editor = caret(vec![paragraph("a")], at(0, 1));
    editor.set_mode(Form::Blocks { doc: doc(vec![]), at: at(0, 0) });
    assert!(editor.take_events().is_empty());
    assert_eq!(editor.cursor(), at(0, 1));
    let all = Selection::new(at(0, 0), at(0, 1));
    editor.select_all(all);
    assert_eq!(editor.selection, all);
    let again = editor.with_marks(doc(vec![]));
    assert_eq!(again.doc, doc(vec![paragraph("")]));
    assert_eq!(again.selection, Selection::at(at(0, 0)));
}

#[test]
fn blocks_rebuilt_take_what_was_in_them_to_the_seam() {
    let blocks = vec![paragraph("ab"), paragraph("cd"), paragraph("ef")];
    let mut editor = editor(blocks, Selection::new(at(0, 0), at(1, 2)));
    editor.set_anchors(vec![
        Anchor::new(AnchorId(1), Selection::new(at(0, 1), at(1, 1))),
        Anchor::new(AnchorId(2), Selection::new(at(2, 0), at(2, 2))),
    ]);
    editor.rebuilt(doc(vec![fence("ab\ncd"), paragraph("ef")]), in_code(0, 5));
    assert_eq!(editor.cursor(), in_code(0, 5));
    assert!(editor.anchors()[0].detached());
    assert_eq!(editor.anchors()[1].range, Selection::new(at(1, 0), at(1, 2)));
    // A mark is paint over text that does not move.
    let before = (editor.selection(), editor.anchors().clone());
    let same = editor.doc().clone();
    editor.marked_over(same);
    assert_eq!((editor.selection(), editor.anchors().clone()), before);
    assert_eq!(editor.mode(), Mode::Blocks);
    assert_eq!(editor.chrome(), Chrome::default());
    assert!(editor.layouts().rows().is_empty());
}
