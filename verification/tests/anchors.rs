//! The words an anchor points at have to stay the words it points at.

use bezel::editor::anchor::{Anchor, AnchorId, Delta, Splice};
use bezel::editor::history::{EditKind, Mode};
use bezel::editor::insert::Insert;
use bezel::editor::moments::Form;
use bezel::editor::surface::{Editor, EditorEvent};
use bezel::markdown::doc::{Block, BlockKind, Cursor, Doc, Part, QuoteKind, Selection, Span, Text};
use bezel::markdown::overlay::Annotation;

const ID: AnchorId = AnchorId(1);

/// "one" in block 0, which is `alpha one` — offsets 6..9.
const ONE: (usize, usize, usize) = (0, 6, 9);

fn paragraph(text: &str) -> Block {
    Block::new(BlockKind::Paragraph(Text::plain(text)))
}

/// Three paragraphs, so there is something above an anchor to reorder and
/// something below it to shift.
fn document() -> Doc {
    Doc { blocks: vec![paragraph("alpha one"), paragraph("bravo two"), paragraph("charlie three")] }
}

fn at(block: usize, offset: usize) -> Cursor {
    Cursor::new(block, Part::Body, offset)
}

fn open(range: (usize, usize, usize), caret: Cursor) -> Editor {
    let mut editor = Editor::new(document());
    let (block, from, to) = range;
    editor.set_anchors(vec![Anchor::new(ID, Selection::new(at(block, from), at(block, to)))]);
    editor.select(Selection::at(caret));
    editor
}

fn anchored(editor: &Editor) -> (usize, usize, usize) {
    let (start, end) = editor.anchors[0].range.ordered();
    (start.block, start.offset, end.offset)
}

/// The document with a block's text another, and the block another kind.
fn rewritten(doc: &Doc, block: usize, text: &str, quote: bool) -> Doc {
    let mut doc = doc.clone();
    doc.blocks[block].kind = if quote {
        BlockKind::Quote { kind: None, text: Text::plain(text) }
    } else {
        BlockKind::Paragraph(Text::plain(text))
    };
    doc
}

fn body(doc: &Doc, block: usize) -> String {
    doc.blocks[block].text_at(Part::Body).unwrap().text.clone()
}

fn spliced(editor: &Editor, text: &str) -> (Doc, Splice) {
    let caret = editor.cursor();
    let mut body = body(&editor.doc, caret.block);
    body.insert_str(caret.offset, text);
    let doc = rewritten(&editor.doc, caret.block, &body, false);
    let splice = Splice {
        removed: Selection::at(caret),
        caret: at(caret.block, caret.offset + text.len()),
        blocks: 0,
    };
    (doc, splice)
}

/// Types a text at the caret, a character at a time.
fn input(editor: &mut Editor, text: &str) {
    for c in text.chars() {
        let c = c.to_string();
        let (doc, splice) = spliced(editor, &c);
        editor.insert(Insert::new(doc, splice), &c, false);
    }
}

#[test]
fn typing_before_the_range_carries_it_along() {
    let mut editor = open(ONE, at(0, 0));
    input(&mut editor, "XX");
    assert_eq!(anchored(&editor), (0, 8, 11));
}

#[test]
fn typing_inside_the_range_widens_it() {
    let mut editor = open(ONE, at(0, 7));
    input(&mut editor, "XX");
    assert_eq!(anchored(&editor), (0, 6, 11));
}

#[test]
fn typing_at_the_end_joins_the_comment() {
    let mut editor = open(ONE, at(0, 9));
    input(&mut editor, "X");
    assert_eq!(anchored(&editor), (0, 6, 10));
}

#[test]
fn typing_at_the_start_stays_outside_it() {
    let mut editor = open(ONE, at(0, 6));
    input(&mut editor, "X");
    assert_eq!(anchored(&editor), (0, 7, 10));
}

#[test]
fn typing_after_the_range_leaves_it_alone() {
    let mut editor = open((0, 0, 5), at(0, 9));
    input(&mut editor, "XX");
    assert_eq!(anchored(&editor), (0, 0, 5));
}

#[test]
fn typing_in_a_block_above_moves_nothing() {
    let mut editor = open((1, 0, 5), at(0, 0));
    input(&mut editor, "XX");
    assert_eq!(anchored(&editor), (1, 0, 5));
}

#[test]
fn splitting_a_block_above_shifts_the_anchor_down() {
    let mut editor = open((1, 0, 5), at(0, 5));
    let mut doc = rewritten(&editor.doc, 0, "alpha", false);
    doc.blocks.insert(1, paragraph(" one"));
    editor.split(doc, None, at(0, 5), 1);
    assert_eq!(anchored(&editor), (2, 0, 5));
    assert_eq!(editor.cursor(), at(1, 0));
}

#[test]
fn a_selection_cleared_by_a_split_is_mapped_through_both() {
    let mut editor = open((0, 6, 9), at(0, 0));
    let cleared = Splice {
        removed: Selection::new(at(0, 0), at(0, 3)),
        caret: at(0, 0),
        blocks: 0,
    };
    let mut doc = rewritten(&editor.doc, 0, "", false);
    doc.blocks.insert(1, paragraph("ha one"));
    editor.split(doc, Some(cleared), at(0, 0), 1);
    assert_eq!(anchored(&editor), (1, 3, 6));
}

#[test]
fn reordering_the_block_above_carries_the_anchor() {
    let mut editor = open(ONE, at(0, 4));
    let mut doc = editor.doc.clone();
    doc.blocks.swap(0, 1);
    editor.move_block(0, Span { start: 0, end: 1 }, Some(1), doc);
    assert_eq!(anchored(&editor), (1, 6, 9));
    assert_eq!(editor.cursor(), at(1, 4));
}

#[test]
fn removing_a_block_above_pulls_the_anchor_up() {
    let mut editor = open((1, 0, 5), at(0, 0));
    let mut doc = editor.doc.clone();
    doc.blocks.remove(0);
    editor.remove_block(0, Span { start: 0, end: 1 }, doc);
    assert_eq!(anchored(&editor), (0, 0, 5));
}

#[test]
fn removing_the_anchored_block_detaches_it() {
    let mut editor = open(ONE, at(0, 0));
    let mut doc = editor.doc.clone();
    doc.blocks.remove(0);
    editor.remove_block(0, Span { start: 0, end: 1 }, doc);
    assert!(editor.anchors[0].detached());
}

#[test]
fn deleting_the_anchored_words_detaches_it() {
    let mut editor = open(ONE, at(0, 6));
    editor.select(Selection::new(at(0, 6), at(0, 9)));
    let doc = rewritten(&editor.doc, 0, "alpha ", false);
    let splice = Splice { removed: editor.selection, caret: at(0, 6), blocks: 0 };
    editor.deleted(EditKind::Delete, doc, splice, false);
    assert!(editor.anchors[0].detached());
    // And it stays so.
    input(&mut editor, "one");
    assert!(editor.anchors[0].detached());
}

#[test]
fn undo_and_redo_restore_the_anchor_with_the_document() {
    let mut editor = open(ONE, at(0, 0));
    input(&mut editor, "XX");
    assert_eq!(anchored(&editor), (0, 8, 11));
    assert_eq!(editor.take_events(), vec![EditorEvent::Changed, EditorEvent::Changed]);
    editor.undo();
    assert_eq!(editor.take_events(), vec![EditorEvent::Changed]);
    assert_eq!(anchored(&editor), ONE);
    assert_eq!(body(&editor.doc, 0), "alpha one");
    editor.redo();
    assert_eq!(anchored(&editor), (0, 8, 11));
    assert_eq!(body(&editor.doc, 0), "XXalpha one");
    // There is nothing further forward to step to.
    editor.take_events();
    editor.redo();
    assert_eq!(editor.take_events(), vec![]);
}

#[test]
fn a_click_finds_the_comment_under_it() {
    let mut editor = open(ONE, at(0, 0));
    assert_eq!(editor.anchor_at(at(0, 6)), Some(ID));
    assert_eq!(editor.anchor_at(at(0, 9)), Some(ID));
    assert_eq!(editor.anchor_at(at(0, 5)), None);
    assert_eq!(editor.anchor_at(at(1, 7)), None);
    // The newer of two that overlap is the one a click opens.
    let newer = Anchor::new(AnchorId(2), Selection::new(at(1, 0), at(0, 8)));
    let older = editor.anchors[0];
    editor.set_anchors(vec![older, newer]);
    assert_eq!(editor.anchor_at(at(0, 8)), Some(AnchorId(2)));
    assert_eq!(editor.anchor_at(at(0, 7)), Some(ID));
    assert_eq!(editor.anchor_start(AnchorId(2)), Some(at(0, 8)));
    assert_eq!(editor.anchor_start(AnchorId(3)), None);
}

#[test]
fn a_block_shortcut_takes_its_prefix_back_off_the_anchor() {
    let mut editor = open(ONE, at(0, 0));
    input(&mut editor, "##");
    let (doc, splice) = spliced(&editor, " ");
    let mut turned = doc.clone();
    turned.blocks[0].kind = BlockKind::Heading { level: 2, text: Text::plain("alpha one") };
    let mut insert = Insert::new(doc, splice);
    assert!(insert.shortcut(3, turned));
    editor.insert(insert, " ", false);
    assert_eq!(anchored(&editor), ONE);
    assert_eq!(editor.cursor(), at(0, 0));
}

#[test]
fn a_prefix_the_caret_is_inside_is_left() {
    let editor = open(ONE, at(0, 1));
    let (doc, splice) = spliced(&editor, " ");
    let mut insert = Insert::new(doc.clone(), splice);
    assert!(!insert.shortcut(3, doc));
    assert_eq!(insert.deltas.len(), 1);
    assert_eq!(insert.at, at(0, 2));
}

#[test]
fn promoting_an_alert_takes_its_marker_off_the_anchor() {
    let mut editor = open(ONE, at(0, 0));
    let quote = rewritten(&editor.doc, 0, "[!note]alpha one", true);
    let splice = Splice { removed: Selection::at(at(0, 0)), caret: at(0, 7), blocks: 0 };
    let mut insert = Insert::new(quote, splice);
    assert_eq!(insert.opens(), None);
    assert!(!insert.promote(document()));
    editor.insert(insert, "[!note]", false);
    assert_eq!(anchored(&editor), (0, 13, 16));

    let broken = rewritten(&editor.doc, 0, "[!note]\nalpha one", true);
    let splice = Splice { removed: Selection::at(at(0, 7)), caret: at(0, 8), blocks: 0 };
    let mut insert = Insert::new(broken, splice);
    assert_eq!(insert.opens(), Some(QuoteKind::Note));
    let mut alert = editor.doc.clone();
    alert.blocks[0].kind =
        BlockKind::Quote { kind: Some(QuoteKind::Note), text: Text::plain("alpha one") };
    assert!(insert.promote(alert));
    editor.insert(insert, "\n", false);
    assert_eq!(anchored(&editor), ONE);
    assert_eq!(editor.cursor(), at(0, 0));
}

#[test]
fn an_inline_rule_takes_its_delimiters_off_the_anchor() {
    let mut editor = open(ONE, at(0, 0));
    input(&mut editor, "**x*");
    let (doc, splice) = spliced(&editor, "*");
    let marked = rewritten(&editor.doc, 0, "xalpha one", false);
    let mut insert = Insert::new(doc, splice);
    assert!(insert.inline(Span { start: 0, end: 2 }, Span { start: 2, end: 3 }, marked));
    editor.insert(insert, "*", false);
    assert_eq!(anchored(&editor), (0, 7, 10));
    assert_eq!(editor.cursor(), at(0, 1));
}

#[test]
fn the_source_maps_no_anchor() {
    let mut editor = open(ONE, at(0, 0));
    editor.set_mode(Form::Source { source: "alpha one".into(), offset: 3 });
    assert_eq!(
        editor.take_events(),
        vec![EditorEvent::ModeChanged(Mode::Source), EditorEvent::Changed]
    );
    assert_eq!(editor.source_text(), "alpha one");
    assert_eq!(editor.cursor(), Cursor::new(0, Part::Code, 3));
    let code = BlockKind::Code { language: None, code: Text::plain("Xalpha one") };
    let doc = Doc { blocks: vec![Block::new(code)] };
    let start = Cursor::new(0, Part::Code, 0);
    let caret = Cursor::new(0, Part::Code, 1);
    editor.splice(
        EditKind::Insert,
        doc,
        Splice { removed: Selection::at(start), caret, blocks: 0 },
    );
    assert_eq!(anchored(&editor), ONE);
    // Out again, it is held inside what the source reads as.
    let doc = Doc { blocks: vec![paragraph("alpha o")] };
    editor.set_mode(Form::Blocks { doc, at: at(9, 9) });
    assert_eq!(anchored(&editor), (0, 6, 7));
    assert_eq!(editor.cursor(), at(0, 7));
    // Undo over the switch lands in the form it was edited in.
    editor.take_events();
    editor.undo();
    assert_eq!(
        editor.take_events(),
        vec![EditorEvent::ModeChanged(Mode::Source), EditorEvent::Changed]
    );
    assert_eq!(editor.source_text(), "Xalpha one");
}

#[test]
fn a_moved_run_keeps_its_depth_and_what_it_passes_gives_way() {
    let moved = Delta::Moved { at: Span { start: 1, end: 3 }, to: Some(2) };
    let to: Vec<usize> = (0..5).map(|block| moved.cursor(at(block, 4)).unwrap().block).collect();
    assert_eq!(to, vec![0, 2, 3, 1, 4]);
    let back = Delta::Moved { at: Span { start: 2, end: 4 }, to: Some(1) };
    for block in 0..5 {
        let there = moved.cursor(at(block, 4)).unwrap();
        assert_eq!(back.cursor(there), Some(at(block, 4)));
    }
    let gone = Delta::Moved { at: Span { start: 1, end: 3 }, to: None };
    assert_eq!(gone.cursor(at(2, 0)), None);
    assert_eq!(gone.cursor(at(3, 0)), Some(at(1, 0)));
    let opened = Delta::Opened { at: 1, count: 2 };
    assert_eq!(opened.cursor(at(0, 3)), Some(at(0, 3)));
    assert_eq!(opened.cursor(at(1, 3)), Some(at(3, 3)));
}

#[test]
fn a_splice_that_takes_more_blocks_than_there_are_leaves_nowhere() {
    let splice = Splice {
        removed: Selection::new(at(0, 0), at(1, 2)),
        caret: at(0, 0),
        blocks: -3,
    };
    assert_eq!(Delta::Spliced(splice).cursor(at(2, 0)), None);
    assert_eq!(Delta::Spliced(splice).cursor(at(4, 5)), Some(at(1, 5)));
    let mut anchor = Anchor::new(ID, Selection::new(at(2, 0), at(2, 3)));
    anchor.map(&Delta::Spliced(splice));
    assert_eq!(anchor.range, Selection::at(Cursor::default()));
    assert_eq!(anchor.state, Annotation::Open);
}

#[test]
fn an_edit_past_what_can_be_counted_is_not_admitted() {
    let editor = open(ONE, at(0, 0));
    let opened = |count| vec![Delta::Opened { at: 0, count }];
    assert!(editor.admits(editor.doc(), &opened(7)));
    assert!(editor.admits(editor.doc(), &opened(usize::MAX)));
    let lower = open((1, 0, 5), at(0, 0));
    assert!(!lower.admits(lower.doc(), &opened(usize::MAX)));
    let moved = Delta::Moved { at: Span { start: 0, end: 2 }, to: Some(usize::MAX) };
    assert!(moved.holds(at(0, 0)) && !moved.holds(at(1, 0)) && moved.holds(at(2, 0)));
    let splice = Splice {
        removed: Selection::at(at(0, 3)),
        caret: at(0, usize::MAX - 1),
        blocks: 0,
    };
    assert!(Delta::Spliced(splice).holds(at(0, 4)));
    assert!(!Delta::Spliced(splice).holds(at(0, 6)));
    assert!(Delta::Spliced(splice).holds(at(1, 6)));
}

#[test]
fn a_range_that_is_gone_is_washed_nowhere() {
    let mut editor = open(ONE, at(0, 0));
    let mut gone = editor.anchors[0];
    gone.range = Selection::at(at(1, 0));
    let mut past = editor.anchors[0];
    past.range = Selection::new(at(2, 0), at(2, 99));
    let there = editor.anchors[0];
    editor.set_anchors(vec![gone, there, past]);
    assert_eq!(
        editor.annotations(),
        vec![
            (Selection::new(at(0, 6), at(0, 9)), Annotation::Open),
            (Selection::new(at(2, 0), at(2, 13)), Annotation::Open),
        ]
    );
}
