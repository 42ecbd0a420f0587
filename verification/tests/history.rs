use bezel::editor::anchor::{Delta, Splice};
use bezel::editor::history::{EditKind, History, Mode, SnapshotHistory, Step, DEFAULT_UNDO_LIMIT};
use bezel::editor::surface::{Change, Editor};
use bezel::markdown::doc::{Block, BlockKind, Cursor, Doc, Part, Selection, Text};

fn at(offset: usize) -> Cursor {
    Cursor::new(0, Part::Body, offset)
}

fn doc(text: &str) -> Doc {
    Doc { blocks: vec![Block::new(BlockKind::Paragraph(Text::plain(text)))] }
}

fn step(text: &str, caret: usize) -> Step {
    Step {
        doc: doc(text),
        mode: Mode::Blocks,
        selection: Selection::at(at(caret)),
        anchors: vec![],
    }
}

#[test]
fn a_run_of_typing_is_one_step_back() {
    let mut history = History::default();
    history.record(EditKind::Insert, step("", 0));
    history.landed(EditKind::Insert, Selection::at(at(1)));
    history.record(EditKind::Insert, step("a", 1));
    history.landed(EditKind::Insert, Selection::at(at(2)));
    assert_eq!(history.undo(step("ab", 2)), Some(step("", 0)));
    assert!(!history.can_undo());
    assert!(history.can_redo());
    assert_eq!(history.redo(step("", 0)), Some(step("ab", 2)));
    assert!(!history.can_redo());
}

#[test]
fn another_kind_or_another_place_starts_a_step() {
    let mut history = History::default();
    history.record(EditKind::Insert, step("", 0));
    history.landed(EditKind::Insert, Selection::at(at(1)));
    history.record(EditKind::Delete, step("a", 1));
    history.landed(EditKind::Delete, Selection::at(at(0)));
    history.record(EditKind::Delete, step("b", 1));
    history.landed(EditKind::Delete, Selection::at(at(0)));
    assert_eq!(history.undo(step("c", 0)), Some(step("b", 1)));
    assert_eq!(history.undo(step("b", 1)), Some(step("a", 1)));
    assert_eq!(history.undo(step("a", 1)), Some(step("", 0)));
}

#[test]
fn a_motion_parts_two_runs() {
    let mut history = History::default();
    history.record(EditKind::Insert, step("", 0));
    history.landed(EditKind::Insert, Selection::at(at(1)));
    history.interrupt();
    history.record(EditKind::Insert, step("a", 1));
    history.landed(EditKind::Insert, Selection::at(at(2)));
    assert_eq!(history.undo(step("ab", 2)), Some(step("a", 1)));
    assert!(history.can_undo());
}

#[test]
fn a_structural_change_joins_nothing() {
    let mut history = History::default();
    for text in ["a", "b", "c"] {
        history.record(EditKind::Structure, step(text, 0));
        history.landed(EditKind::Structure, Selection::at(at(0)));
    }
    assert_eq!(history.undo(step("d", 0)), Some(step("c", 0)));
    assert_eq!(history.undo(step("c", 0)), Some(step("b", 0)));
    assert_eq!(history.undo(step("b", 0)), Some(step("a", 0)));
}

#[test]
fn a_run_undone_leaves_nothing_more_to_undo() {
    let mut history = History::default();
    history.record(EditKind::Insert, step("", 0));
    history.landed(EditKind::Insert, step("a", 1).selection);
    history.record(EditKind::Insert, step("a", 1));
    history.landed(EditKind::Insert, step("ab", 2).selection);
    assert_eq!(history.undo(step("ab", 2)), Some(step("", 0)));
    assert_eq!(history.undo(step("", 0)), None);
    assert_eq!(history.redo(step("", 0)), Some(step("ab", 2)));
    assert_eq!(history.redo(step("ab", 2)), None);
}

#[test]
fn an_edit_leaves_nothing_to_step_forward_to() {
    let mut history = History::default();
    history.record(EditKind::Structure, step("a", 0));
    history.undo(step("b", 0));
    history.record(EditKind::Structure, step("a", 0));
    assert!(!history.can_redo());
}

#[test]
fn the_oldest_step_goes_past_the_limit() {
    let mut history: SnapshotHistory<u32> = SnapshotHistory::new(2);
    for n in 0..4 {
        history.record(Some(n));
    }
    assert_eq!(history.undo(4), Some(3));
    assert_eq!(history.undo(3), Some(2));
    assert!(!history.can_undo());
    let mut none: SnapshotHistory<u32> = SnapshotHistory::new(0);
    none.record(Some(1));
    assert!(!none.can_undo());
    assert_eq!(none.undo(2), None);
    assert_eq!(none.redo(2), None);
    assert_eq!(DEFAULT_UNDO_LIMIT, 100);
}

#[test]
fn an_edit_undone_restores_the_moment_before_it() {
    let mut editor = Editor::new(doc("words"));
    editor.select(Selection::at(at(2)));
    editor.edit(
        EditKind::Structure,
        Change { doc: doc("w"), selection: Selection::at(at(1)), deltas: vec![] },
    );
    assert!(editor.reveal && !editor.blinking);
    editor.undo();
    assert_eq!(editor.doc, doc("words"));
    assert_eq!(editor.selection, Selection::at(at(2)));
    editor.redo();
    assert_eq!(editor.doc, doc("w"));
}

#[test]
fn an_undo_limit_is_kept_to() {
    let mut editor = Editor::new(doc("0")).with_undo_limit(1);
    for text in ["1", "2"] {
        let selection = editor.selection;
        editor.edit(
            EditKind::Structure,
            Change { doc: doc(text), selection, deltas: vec![] },
        );
    }
    editor.undo();
    assert_eq!(editor.doc, doc("1"));
    editor.take_events();
    editor.undo();
    assert_eq!(editor.doc, doc("1"));
    assert!(editor.take_events().is_empty());
}

#[test]
fn a_document_left_empty_is_given_a_block() {
    let mut editor = Editor::new(Doc { blocks: vec![] });
    assert_eq!(editor.doc, doc(""));
    assert_eq!(editor.cursor(), Cursor::default());
    let removed = Splice {
        removed: Selection::at(at(0)),
        caret: Cursor::new(4, Part::Body, 4),
        blocks: -1,
    };
    editor.splice(EditKind::Structure, Doc { blocks: vec![] }, removed);
    assert_eq!(editor.doc, doc(""));
    assert_eq!(editor.cursor(), Cursor::default());
    let _ = Delta::Spliced(removed);
}

#[test]
fn a_document_opens_on_the_first_text_it_has() {
    let code = BlockKind::Code { language: None, code: Text::plain("x") };
    let editor = Editor::new(Doc { blocks: vec![Block::new(code)] });
    assert_eq!(editor.cursor(), Cursor::new(0, Part::Code, 0));
}

#[test]
fn a_caret_blinks_from_lit_and_restarts_when_it_moves() {
    let mut editor = Editor::new(doc("words"));
    editor.settle_blink(true, true);
    assert!(editor.caret_on && editor.blinking);
    editor.blink();
    assert!(!editor.caret_on);
    editor.settle_blink(true, true);
    assert!(!editor.caret_on);
    editor.select(Selection::at(at(3)));
    editor.settle_blink(true, true);
    assert!(editor.caret_on && editor.blinking);
    editor.blink();
    editor.settle_blink(false, true);
    assert!(editor.caret_on && !editor.blinking);
}
