use bezel::markdown::doc::{Cursor, Part, Selection, Span};
use bezel::markdown::layout::{range_rects, BlockLayouts, Bounds, Line, PaintedAt, RowCut};

fn at(block: usize, offset: usize) -> Cursor {
    Cursor::new(block, Part::Body, offset)
}

fn span(start: usize, end: usize) -> Span {
    Span { start, end }
}

fn line(len: usize, wraps: &[usize]) -> Line {
    Line { len, wraps: wraps.to_vec() }
}

/// A paragraph of ten bytes wrapped at four and eight, and one of two lines.
fn painted() -> BlockLayouts {
    let mut layouts = BlockLayouts::default();
    layouts.record(0, Part::Body, span(0, 10), &vec![line(10, &[4, 8])]);
    layouts.record(1, Part::Body, span(0, 5), &vec![line(2, &[]), line(2, &[])]);
    layouts
}

fn ranges(layouts: &BlockLayouts) -> Vec<(usize, usize, usize)> {
    layouts
        .rows()
        .iter()
        .map(|row| (row.block, row.range.start, row.range.end))
        .collect()
}

#[test]
fn a_line_is_a_row_for_each_wrap_and_one_more() {
    assert_eq!(
        ranges(&painted()),
        vec![(0, 0, 4), (0, 4, 8), (0, 8, 10), (1, 0, 2), (1, 3, 5)]
    );
    let rows = painted();
    assert_eq!(rows.rows()[1].wrapped_row, 1);
    assert_eq!(rows.rows()[4].line_start, 3);
    assert_eq!(rows.rows()[4].painted, 1);
}

#[test]
fn home_and_end_take_their_own_side_of_a_wrap() {
    let layouts = painted();
    assert_eq!(layouts.visual_row_edge(at(0, 6), false), Some(at(0, 4)));
    assert_eq!(layouts.visual_row_edge(at(0, 6), true), Some(at(0, 8)));
    // At the wrap itself both keys stay put.
    assert_eq!(layouts.visual_row_edge(at(0, 4), false), Some(at(0, 4)));
    assert_eq!(layouts.visual_row_edge(at(0, 4), true), Some(at(0, 4)));
    assert_eq!(layouts.visual_row_edge(at(3, 0), true), None);
}

#[test]
fn a_step_goes_to_the_row_beside_the_one_pointed_at() {
    let layouts = painted();
    let none = vec![false; 5];
    // At the wrap, the row under the pointer decides which one it is from.
    let second = vec![false, true, false, false, false];
    assert_eq!(layouts.step_row(at(0, 4), &none, true), Some(1));
    assert_eq!(layouts.step_row(at(0, 4), &second, true), Some(2));
    assert_eq!(layouts.step_row(at(0, 1), &none, false), None);
    assert_eq!(layouts.step_row(at(1, 4), &none, true), None);
    // Over a block's boundary.
    assert_eq!(layouts.step_row(at(0, 9), &none, true), Some(3));
}

#[test]
fn a_position_in_a_row_is_held_inside_it() {
    let layouts = painted();
    assert_eq!(layouts.cursor_in_row(0, 2), at(0, 2));
    assert_eq!(layouts.cursor_in_row(0, 9), at(0, 4));
    assert_eq!(layouts.cursor_in_row(4, 1), at(1, 4));
}

#[test]
fn a_press_is_on_the_row_under_it_and_otherwise_the_nearest() {
    let layouts = painted();
    let away = vec![9, 3, 3, 7, 8];
    assert_eq!(layouts.hit(&vec![false, false, true, true, false], &away), Some(2));
    assert_eq!(layouts.hit(&vec![false; 5], &away), Some(1));
    assert_eq!(BlockLayouts::default().hit(&vec![], &vec![]), None);
}

#[test]
fn a_block_is_found_by_its_own_box() {
    let mut layouts = painted();
    let bounds = |x| Bounds { x, y: 0, width: 1, height: 1 };
    layouts.record_block(0, bounds(1));
    layouts.record_block(1, bounds(2));
    layouts.record_block(1, bounds(3));
    assert_eq!(layouts.block_bounds(1), Some(bounds(2)));
    assert_eq!(layouts.block_bounds(2), None);
    assert_eq!(layouts.block_at(&vec![false, true, false], &vec![0, 0, 0]), Some(1));
    assert_eq!(layouts.block_at(&vec![false; 3], &vec![5, 2, 2]), Some(1));
    layouts.record_language(0, bounds(4));
    layouts.record_picture(0, bounds(5));
    layouts.record_checkbox(0, bounds(6));
    assert_eq!(layouts.language_bounds(0), Some(bounds(4)));
    assert_eq!(layouts.picture_bounds(0), Some(bounds(5)));
    assert_eq!(layouts.checkbox_bounds(0), Some(bounds(6)));
    layouts.invalidate();
    assert_eq!(layouts.block_bounds(0), None);
    assert!(layouts.rows().is_empty() && layouts.texts().is_empty());
}

#[test]
fn a_selection_covers_the_texts_between_its_ends() {
    let layouts = painted();
    assert_eq!(
        layouts.rects(Selection::new(at(1, 3), at(0, 6))),
        vec![(0, span(6, 10)), (1, span(0, 3))]
    );
    assert_eq!(layouts.rects(Selection::at(at(0, 6))), vec![]);
}

#[test]
fn a_position_is_held_by_the_text_it_painted_in() {
    let layouts = painted();
    assert_eq!(layouts.position(at(1, 5)), Some(PaintedAt { text: 1, byte: 5 }));
    assert_eq!(layouts.position(at(1, 6)), None);
    // A line of a fence is measured from its own start.
    let mut fenced = BlockLayouts::default();
    fenced.record(0, Part::Code, span(0, 3), &vec![line(3, &[])]);
    fenced.record(0, Part::Code, span(4, 9), &vec![line(5, &[])]);
    let second = Cursor::new(0, Part::Code, 6);
    assert_eq!(fenced.position(second), Some(PaintedAt { text: 1, byte: 2 }));
    assert_eq!(layouts.first_row(1), Some(1));
    assert_eq!(layouts.first_row(7), None);
}

#[test]
fn the_pointer_is_over_text_where_a_text_has_it() {
    let layouts = painted();
    assert!(layouts.over_text(&vec![false, true]));
    assert!(!layouts.over_text(&vec![false, false]));
    assert!(!layouts.over_text(&vec![]));
    assert!(!BlockLayouts::default().over_text(&vec![true]));
}

#[test]
fn a_range_is_one_slice_per_row() {
    let lines = vec![line(10, &[4, 8]), line(3, &[])];
    let cut = |line, row, start, end| RowCut { line, row, range: span(start, end) };
    assert_eq!(
        range_rects(&lines, span(2, 12)),
        vec![cut(0, 0, 2, 4), cut(0, 1, 4, 8), cut(0, 2, 8, 10), cut(1, 0, 0, 1)]
    );
    // The newline between two lines is a byte of neither.
    assert_eq!(range_rects(&lines, span(10, 11)), vec![]);
}
