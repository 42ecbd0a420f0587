use bezel::terminal::scanner::{Iterm, Scanner, Segment};
use bezel::terminal::stream::{MAX_OSC_ARGS, MAX_RUN};

/// A run of the stream, as plain values.
#[derive(Debug, Clone, PartialEq)]
enum Run {
    Text(Vec<u8>),
    Graphics(Vec<u8>),
    Sync(bool),
    CellSizeQuery,
    Sixel(Vec<u8>),
    File(Vec<u8>, Vec<u8>),
    Begin(Vec<u8>),
    Part(Vec<u8>),
    End,
    Directory(Vec<u8>),
}

/// What a scanner makes of some reads, adjacent text joined.
fn runs(reads: &[&[u8]]) -> Vec<Run> {
    let mut scanner = Scanner::new();
    let mut out: Vec<Run> = Vec::new();
    for read in reads {
        for segment in scanner.feed(read) {
            let run = match segment {
                Segment::Text(bytes) => Run::Text(bytes.to_vec()),
                Segment::Graphics(bytes) => Run::Graphics(bytes),
                Segment::Sync(on) => Run::Sync(on),
                Segment::CellSizeQuery => Run::CellSizeQuery,
                Segment::Sixel(bytes) => Run::Sixel(bytes),
                Segment::Iterm(Iterm::File { args, payload }) => Run::File(args, payload),
                Segment::Iterm(Iterm::Begin { args }) => Run::Begin(args),
                Segment::Iterm(Iterm::Part(bytes)) => Run::Part(bytes),
                Segment::Iterm(Iterm::End) => Run::End,
                Segment::Directory(bytes) => Run::Directory(bytes),
                other => panic!("{other:?}"),
            };
            match (out.last_mut(), run) {
                (Some(Run::Text(so_far)), Run::Text(more)) => so_far.extend(more),
                (_, run) => out.push(run),
            }
        }
    }
    out
}

fn text(bytes: &[u8]) -> Run {
    Run::Text(bytes.to_vec())
}

#[test]
fn plain_text_is_one_run() {
    assert_eq!(runs(&[b"hello \x1b[31mred"]), vec![text(b"hello \x1b[31mred")]);
    assert_eq!(runs(&[b""]), vec![]);
}

#[test]
fn a_graphics_command_leaves_the_text_around_it() {
    assert_eq!(
        runs(&[b"ab\x1b_Ga=T;AAAA\x1b\\cd"]),
        vec![text(b"ab"), Run::Graphics(b"Ga=T;AAAA".to_vec()), text(b"cd")]
    );
}

#[test]
fn a_command_read_a_byte_at_a_time_is_the_same_command() {
    let whole: &[u8] = b"ab\x1b_Ga=T;AAAA\x1b\\cd\x1b[?2026h\x1b[16t\x1b]1337;File=name=x:QUJD\x07e";
    let bytes: Vec<&[u8]> = whole.chunks(1).collect();
    assert_eq!(runs(&bytes), runs(&[whole]));
    for at in 0..whole.len() {
        assert_eq!(runs(&[&whole[..at], &whole[at..]]), runs(&[whole]), "split at {at}");
    }
}

#[test]
fn a_sync_is_reported_behind_the_bytes_that_spell_it() {
    assert_eq!(
        runs(&[b"a\x1b[?2026hb\x1b[?2026lc"]),
        vec![
            text(b"a\x1b[?2026h"),
            Run::Sync(true),
            text(b"b\x1b[?2026l"),
            Run::Sync(false),
            text(b"c"),
        ]
    );
}

#[test]
fn another_private_mode_is_no_sync() {
    assert_eq!(runs(&[b"\x1b[?2025h"]), vec![text(b"\x1b[?2025h")]);
    // The prefix starts over at each escape.
    assert_eq!(
        runs(&[b"\x1b[?20\x1b[?2026h"]),
        vec![text(b"\x1b[?20\x1b[?2026h"), Run::Sync(true)]
    );
}

#[test]
fn a_cell_size_query_keeps_its_bytes() {
    assert_eq!(runs(&[b"\x1b[16t"]), vec![text(b"\x1b[16t"), Run::CellSizeQuery]);
    assert_eq!(runs(&[b"\x1b[14t"]), vec![text(b"\x1b[14t")]);
}

#[test]
fn a_sixel_image_is_taken_out_of_its_dcs() {
    assert_eq!(
        runs(&[b"a\x1bP0;1;0q#0!10~\x1b\\b"]),
        vec![
            text(b"a\x1bP0;1;0q\x1b\\"),
            Run::Sixel(b"#0!10~".to_vec()),
            text(b"b"),
        ]
    );
}

#[test]
fn another_dcs_is_left_to_the_parser() {
    assert_eq!(
        runs(&[b"\x1bP$qm\x1b\\x"]),
        vec![text(b"\x1bP$qm\x1b\\x")]
    );
}

#[test]
fn a_file_is_reported_with_its_arguments() {
    let got = runs(&[b"\x1b]1337;File=name=x;inline=1:QUJD\x07"]);
    assert!(got.contains(&Run::File(b"name=x;inline=1".to_vec(), b"QUJD".to_vec())));
}

#[test]
fn a_file_in_parts_is_reported_part_by_part() {
    let got = runs(&[
        b"\x1b]1337;MultipartFile=name=x\x07\x1b]1337;FilePart=QUJD\x07\x1b]1337;FileEnd\x07",
    ]);
    let files: Vec<Run> = got.into_iter().filter(|run| !matches!(run, Run::Text(_))).collect();
    assert_eq!(
        files,
        vec![Run::Begin(b"name=x".to_vec()), Run::Part(b"QUJD".to_vec()), Run::End]
    );
}

#[test]
fn arguments_too_long_to_keep_report_no_file() {
    let mut bytes = b"\x1b]1337;File=".to_vec();
    bytes.resize(bytes.len() + MAX_OSC_ARGS + 1, b'a');
    bytes.extend(b":QUJD\x07after");
    let got = runs(&[&bytes]);
    assert!(got.iter().all(|run| !matches!(run, Run::File(..))));
    match got.last() {
        Some(Run::Text(tail)) => assert!(tail.ends_with(b"after")),
        other => panic!("{other:?}"),
    }
}

#[test]
fn a_run_too_long_is_swallowed_to_its_end() {
    let mut bytes = b"a\x1b_G".to_vec();
    bytes.resize(bytes.len() + MAX_RUN + 10, b'x');
    bytes.extend(b"\x1b\\b");
    assert_eq!(runs(&[&bytes]), vec![text(b"ab")]);
}

#[test]
fn a_directory_is_reported_beside_its_bytes() {
    let got = runs(&[b"\x1b]7;file://host/tmp/a%20b\x07"]);
    assert!(got.contains(&Run::Directory(b"/tmp/a b".to_vec())));
    assert!(got.contains(&text(b"\x1b]7;file://host/tmp/a%20b\x07")));
}

#[test]
fn an_escape_that_is_none_is_left_as_it_is() {
    let got = runs(&[b"\x1b]7;file://host/100%zz\x07"]);
    assert!(got.contains(&Run::Directory(b"/100%zz".to_vec())));
    let got = runs(&[b"\x1b]7;file://host/50%\x07"]);
    assert!(got.contains(&Run::Directory(b"/50%".to_vec())));
}

#[test]
fn a_url_without_a_path_reports_nothing() {
    let got = runs(&[b"\x1b]7;file://host\x07"]);
    assert!(got.iter().all(|run| !matches!(run, Run::Directory(_))));
    let got = runs(&[b"\x1b]9;9;\x07"]);
    assert!(got.iter().all(|run| !matches!(run, Run::Directory(_))));
}

#[test]
fn quotes_around_a_path_come_off() {
    let got = runs(&[b"\x1b]9;9;\"/a b\"\x1b\\"]);
    assert!(got.contains(&Run::Directory(b"/a b".to_vec())));
    let got = runs(&[b"\x1b]9;9;/plain\x1b\\"]);
    assert!(got.contains(&Run::Directory(b"/plain".to_vec())));
}
