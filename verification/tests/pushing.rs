use bezel::terminal::emulator::{iterm_shows, Emulator};

/// Whether the flags that are on are 1, 2 and 4.
fn flags(e: &Emulator) -> [bool; 3] {
    let mode = e.keyboard_mode();
    [mode.disambiguate, mode.event_types, mode.alternate_keys]
}

const ONE: [bool; 3] = [true, false, false];
const TWO: [bool; 3] = [true, true, false];
const THREE: [bool; 3] = [true, true, true];
const NONE: [bool; 3] = [false, false, false];

/// A stack of modes that is full: one on its own, and the rest on top.
fn full() -> Emulator {
    let mut e = Emulator::new(20, 3);
    e.feed(b"\x1b[>1u");
    e.feed(&b"\x1b[>3u".repeat(4095));
    e
}

#[test]
fn a_full_stack_takes_no_more_modes() {
    let mut e = full();
    assert_eq!(flags(&e), TWO);
    e.feed(b"\x1b[>7uhi\x1b[>7u\x1b[>7u");
    assert_eq!(flags(&e), TWO);
    assert_eq!(e.row_text(0), "hi");
    // As many come off as went on.
    e.feed(b"\x1b[<4095u");
    assert_eq!(flags(&e), ONE);
    e.feed(b"\x1b[>7u");
    assert_eq!(flags(&e), THREE);
    e.feed(b"\x1b[<u\x1b[<0u");
    assert_eq!(flags(&e), NONE);
    e.feed(b"\x1b[<9u\x1b[>1u");
    assert_eq!(flags(&e), ONE);
}

#[test]
fn a_push_that_is_split_is_counted_once() {
    let mut e = full();
    for byte in b"\x1b[>\r7;\x07 u\x1b[>7;1:1u" {
        e.feed(&[*byte]);
    }
    assert_eq!(flags(&e), TWO);
    e.feed(b"\x1b[<1u");
    e.feed(b"\x1b");
    e.feed(b"[>");
    e.feed(b"7");
    e.feed(b"u");
    assert_eq!(flags(&e), THREE);
    e.feed(b"\x1b[>1u");
    assert_eq!(flags(&e), THREE);
}

#[test]
fn a_title_makes_room_for_a_mode() {
    let mut e = full();
    e.feed(b"\x1b[22t\x1b[22;0t\x1b[23t");
    e.feed(b"\x1b[>7u");
    assert_eq!(flags(&e), THREE);
    // The title went for it.
    e.feed(b"\x1b[>1u");
    assert_eq!(flags(&e), THREE);
    e.feed(b"\x1b[<u");
    assert_eq!(flags(&e), TWO);
}

#[test]
fn each_screen_has_a_stack_and_a_reset_empties_them() {
    let mut e = full();
    e.feed(b"\x1b[?1049h\x1b[>7u");
    assert_eq!(flags(&e), THREE);
    e.feed(b"\x1b[?1049l\x1b[>7u");
    assert_eq!(flags(&e), TWO);
    e.feed(b"\x1bc");
    assert_eq!(flags(&e), NONE);
    e.feed(b"\x1b[>7u");
    assert_eq!(flags(&e), THREE);
    e.feed(b"\x1b[<u");
    assert_eq!(flags(&e), NONE);
}

#[test]
fn what_only_looks_like_a_push_is_none() {
    let mut e = Emulator::new(20, 3);
    let mut text = Vec::new();
    for _ in 0..5000 {
        // Too many parameters, a mark in the wrong place, an intermediate, a
        // sequence broken off, and a push inside a string.
        text.extend(b"\x1b[>");
        text.extend(b";".repeat(32));
        text.extend(b"u\x1b[1>u\x1b[> u\x1b[>1\x18\x1bP>1u\x1b\\\x1b[=1u");
    }
    e.feed(&text);
    e.feed(b"\r\x1b[J\x1b[=0u\x1b[>1u\x1b[<u");
    assert_eq!(flags(&e), NONE);
    e.feed(b"\x1b[>1u");
    assert_eq!(flags(&e), ONE);
}

#[test]
fn a_color_has_only_so_many_digits() {
    let digits = "0".repeat(60);
    let mut e = Emulator::new(20, 3);
    for code in ["4;1", "10", "11", "12"] {
        e.feed(format!("\x1b]{code};#{digits}\x07").as_bytes());
        e.feed(format!("\x1b]{code};#{digits}\x1b\\").as_bytes());
    }
    e.feed(format!("\x1b]4;1;#{digits};2;#{digits}\x07hi").as_bytes());
    assert_eq!(e.row_text(0), "hi");
    // A title is not a color.
    let title = format!("#{digits};#{digits}");
    e.feed(format!("\x1b]0;{title}\x07").as_bytes());
    assert_eq!(e.title(), Some(title.as_str()));
}

#[test]
fn a_character_split_before_a_sequence_is_whole() {
    let mut e = Emulator::new(20, 3);
    e.feed(b"a\xc3");
    e.feed(b"\xa9\x1b[1mb\xe4\xbd");
    e.feed(b"\xa0\x1b[0mc\xc3\x1b[md");
    assert_eq!(e.row_text(0), "a\u{e9}b\u{4f60}c\u{fffd}d");
}

#[test]
fn a_file_is_shown_where_it_is_inline_and_small() {
    assert!(iterm_shows(true, 8, 8));
    assert!(!iterm_shows(true, 9, 8));
    assert!(!iterm_shows(false, 8, 8));
}
