use bezel::markdown::doc::{Block, BlockKind, Cursor, Doc, Part, Text};
use bezel::markdown::quote::{head, tail, Flat};
use bezel::terminal::cell::GridPoint;
use bezel::terminal::emulator::Emulator;
use bezel::terminal::modes::KeyboardMode;
use bezel::terminal::screen::{SelectionType, Side};

#[test]
fn a_point_off_the_grid_is_held_to_it_where_it_is_read() {
    let mut e = Emulator::new(5, 2);
    e.feed(b"abcde\r\nfghij");
    let above = GridPoint { line: i32::MIN, column: usize::MAX - 1 };
    let below = GridPoint { line: i32::MAX, column: 0 };
    e.start_selection(SelectionType::Simple, above, Side::Left);
    e.update_selection(below, Side::Right);
    assert_eq!(e.selection_text().as_deref(), Some("abcde\nfghij"));
    // It can go up no further.
    e.feed(b"\r\n");
    assert!(!e.has_selection());
    e.start_selection(SelectionType::Simple, GridPoint { line: 0, column: 99 }, Side::Left);
    e.update_selection(GridPoint { line: 0, column: 99 }, Side::Right);
    assert_eq!(e.selection_text().as_deref(), Some("j"));
    e.resize(5, 4);
    e.feed(b"\r\n\r\n\r\n\r\n");
    assert!(e.has_selection());
}

#[test]
fn a_selection_below_the_screen_takes_in_its_last_cell() {
    let mut e = Emulator::new(80, 24);
    e.feed(b"\x1b[24;80Hx\x1b[H");
    let from = GridPoint { line: 30, column: 5 };
    e.start_selection(SelectionType::Simple, from, Side::Left);
    assert!(!e.has_selection());
    e.update_selection(GridPoint { line: 40, column: 9 }, Side::Left);
    assert!(e.has_selection());
    assert_eq!(e.selection_text().as_deref(), Some("x"));
    // Text does not move it: it is on no line of the screen.
    e.feed(b"\x1b[3S");
    assert!(e.has_selection());
}

#[test]
fn a_selection_far_above_goes_on_up() {
    let mut e = Emulator::new(5, 2);
    e.feed(b"abcde\r\nfghij");
    let above = GridPoint { line: -2_000_000_000, column: 0 };
    e.start_selection(SelectionType::Simple, above, Side::Left);
    e.update_selection(GridPoint { line: 0, column: 1 }, Side::Right);
    assert_eq!(e.selection_text().as_deref(), Some("ab"));
    e.feed(b"\r\nk");
    assert_eq!(e.selection_text().as_deref(), Some("ab"));
    assert_eq!(e.row_text(0), "fghij");
}

#[test]
fn a_block_past_the_last_column_has_no_text() {
    let mut e = Emulator::new(5, 2);
    e.feed(b"abcde\r\nfghij");
    e.start_selection(SelectionType::Block, GridPoint { line: 0, column: 4 }, Side::Right);
    e.update_selection(GridPoint { line: 1, column: 4 }, Side::Left);
    assert_eq!(e.selection_text(), None);
    e.start_selection(SelectionType::Block, GridPoint { line: 0, column: 1 }, Side::Left);
    e.update_selection(GridPoint { line: 1, column: 2 }, Side::Right);
    assert_eq!(e.selection_text().as_deref(), Some("bc\ngh"));
}

#[test]
fn half_a_character_is_neither_read_nor_drawn_on() {
    let mut e = Emulator::new(6, 2);
    e.feed("\u{4f60}ab\r\x1b[P".as_bytes());
    assert_eq!(e.cursor(), None);
    e.start_selection(SelectionType::Simple, GridPoint { line: 0, column: 0 }, Side::Left);
    e.update_selection(GridPoint { line: 0, column: 2 }, Side::Right);
    assert!(e.has_selection());
    assert_eq!(e.selection_text(), None);
    // Past it, the row reads as it did, and the cursor is drawn.
    e.start_selection(SelectionType::Simple, GridPoint { line: 0, column: 1 }, Side::Left);
    e.update_selection(GridPoint { line: 0, column: 2 }, Side::Right);
    assert_eq!(e.selection_text().as_deref(), Some("ab"));
    e.feed(b"\x1b[C");
    assert_eq!(e.cursor().map(|cursor| (cursor.row, cursor.col)), Some((0, 1)));
}

#[test]
fn a_row_a_wide_character_left_is_read_below_the_first() {
    let mut e = Emulator::new(5, 3);
    e.feed("abcd\u{4f60}".as_bytes());
    e.start_selection(SelectionType::Simple, GridPoint { line: 0, column: 0 }, Side::Left);
    e.update_selection(GridPoint { line: 0, column: 4 }, Side::Right);
    assert_eq!(e.selection_text(), None);
    e.update_selection(GridPoint { line: 1, column: 1 }, Side::Right);
    assert_eq!(e.selection_text().as_deref(), Some("abcd\u{4f60}"));
    let mut lower = Emulator::new(5, 3);
    lower.feed("x\r\nabcd\u{4f60}".as_bytes());
    lower.start_selection(SelectionType::Simple, GridPoint { line: 1, column: 0 }, Side::Left);
    lower.update_selection(GridPoint { line: 1, column: 4 }, Side::Right);
    assert!(lower.selection_text().is_some());
}

#[test]
fn a_long_read_is_acted_on_whole() {
    let mut e = Emulator::new(20, 3);
    e.feed(b"first");
    e.start_selection(SelectionType::Simple, GridPoint { line: 0, column: 0 }, Side::Left);
    e.update_selection(GridPoint { line: 0, column: 4 }, Side::Right);
    let mut text = Vec::new();
    for n in 0..2000 {
        text.extend(format!("\r\nline {n}").into_bytes());
    }
    assert!(text.len() > 20_000);
    e.feed(&text);
    assert_eq!(e.row_text(2), "line 1999");
    assert_eq!(e.selection_text().as_deref(), Some("first"));
}

#[test]
fn any_enhancement_takes_a_key_off_its_legacy_encoding() {
    let none = KeyboardMode::default();
    assert!(!none.enhanced());
    assert!(!KeyboardMode { app_cursor: true, ..none }.enhanced());
    assert!(KeyboardMode { disambiguate: true, ..none }.enhanced());
    assert!(KeyboardMode { event_types: true, ..none }.enhanced());
    assert!(KeyboardMode { alternate_keys: true, ..none }.enhanced());
    assert!(KeyboardMode { all_as_escapes: true, ..none }.enhanced());
    assert!(KeyboardMode { associated_text: true, ..none }.enhanced());
}

#[test]
fn only_two_hexadecimal_digits_are_an_escape() {
    let mut e = Emulator::new(20, 3);
    e.feed(b"\x1b]7;file:///%+5\x07");
    assert_eq!(e.directory(), Some(&b"/%+5"[..]));
    e.feed(b"\x1b]7;file:///%41%4\x07");
    assert_eq!(e.directory(), Some(&b"/A%4"[..]));
}

#[test]
fn the_area_is_counted_in_sixteen_bits() {
    let mut e = Emulator::new(400, 100);
    e.set_cell_size(200, 20);
    assert_eq!(e.feed(b"\x1b[14t").responses, b"\x1b[4;2000;14464t".to_vec());
}

#[test]
fn the_last_none_of_a_text_is_nothing() {
    let text = ['a', 'b'];
    assert_eq!(tail(&text, 0), &[] as &[char]);
    assert_eq!(tail(&text, 1), &['b']);
    assert_eq!(tail(&text, 9), &text);
    assert_eq!(head(&text, 0), &[] as &[char]);
}

#[test]
fn the_end_of_one_text_is_not_the_start_of_the_next() {
    let body = |text: &str| Block::new(BlockKind::Paragraph(Text::plain(text)));
    let flat = Flat::new(&Doc { blocks: vec![body("ab"), body(""), body("c")] });
    for (block, offset) in [(0, 0), (0, 1), (0, 2), (1, 0), (2, 0), (2, 1)] {
        let at = Cursor::new(block, Part::Body, offset);
        assert_eq!(flat.cursor(flat.index(at).unwrap()), Some(at));
    }
    assert_eq!(flat.index(Cursor::new(3, Part::Body, 0)), None);
}
