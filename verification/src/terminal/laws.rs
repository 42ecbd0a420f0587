//! What a program that writes to a terminal can count on, in the bytes it
//! writes and the cells it sees.

use vstd::prelude::*;

use crate::terminal::cell;
use crate::terminal::cell::{CellColor, CellReading, CellSnapshot, CellView, GridPoint, Paint};
use crate::terminal::emulator;
use crate::terminal::emulator::{Acting, EmulatorView, Fixed, Outcome, PictureView, Reply};
use crate::terminal::modes::{KeyboardMode, MouseMode, MouseTracking};
use crate::terminal::placement::{Display, Laid, PlacementKey, Refusal, Relative};
use crate::terminal::reply;
use crate::terminal::reply::{Said, WindowSize};
use crate::terminal::screen;
use crate::terminal::screen::{
    Attribute, KeyFlag, Mode, Notice, Parser, SelectionRange, Shape, TermState,
};
use crate::terminal::stream;
use crate::terminal::stream::{free_of, FilePiece, OscKind, Piece, Progress, State};

verus! {

/// Whether a byte is how `digit` is written in hexadecimal, in capitals or not.
pub open spec fn writes_digit(byte: u8, digit: int) -> bool {
    ||| 0 <= digit < 10 && byte == 48 + digit
    ||| 10 <= digit < 16 && byte == 65 + (digit - 10)
    ||| 10 <= digit < 16 && byte == 97 + (digit - 10)
}

/// Whether `text` is how some bytes are written in a URL: each as it is, unless
/// that is a `%`, or as a `%` and its two digits.
pub open spec fn writes_bytes(text: Seq<u8>, bytes: Seq<u8>) -> bool
    decreases bytes.len(),
{
    if bytes.len() == 0 {
        text.len() == 0
    } else {
        ||| text.len() >= 1 && text[0] == bytes[0] && bytes[0] != 37 && writes_bytes(
            text.subrange(1, text.len() as int),
            bytes.subrange(1, bytes.len() as int),
        )
        ||| text.len() >= 3 && text[0] == 37 && writes_digit(text[1], bytes[0] as int / 16)
            && writes_digit(text[2], bytes[0] as int % 16) && writes_bytes(
            text.subrange(3, text.len() as int),
            bytes.subrange(1, bytes.len() as int),
        )
    }
}

/// A byte written as its two digits is that byte again, and two digits are
/// all that is taken for a byte.
pub proof fn an_escape_is_the_byte_it_writes(byte: u8, high: u8, low: u8)
    ensures
        stream::escaped(high, low) == Some(byte) <==> writes_digit(high, byte as int / 16)
            && writes_digit(low, byte as int % 16),
        stream::escaped(high, low) is None <==> !(exists|digit: int| writes_digit(high, digit))
            || !(exists|digit: int| writes_digit(low, digit)),
{
    lemma_digit(high);
    lemma_digit(low);
    if stream::is_hex(high) && stream::is_hex(low) {
        let value = stream::hex_value(high) * 16 + stream::hex_value(low);
        assert(0 <= value < 256 && value / 16 == stream::hex_value(high) && value % 16
            == stream::hex_value(low));
    }
}

/// A digit has the value it writes, and no other.
proof fn lemma_digit(byte: u8)
    ensures
        stream::is_hex(byte) <==> exists|digit: int| writes_digit(byte, digit),
        stream::is_hex(byte) ==> 0 <= stream::hex_value(byte) < 16 && writes_digit(
            byte,
            stream::hex_value(byte),
        ),
        forall|digit: int| writes_digit(byte, digit) ==> stream::hex_value(byte) == digit,
{
    if stream::is_hex(byte) {
        assert(writes_digit(byte, stream::hex_value(byte)));
    }
}

/// What is written in a URL is read back: decoding undoes encoding, whichever
/// bytes of a path were escaped.
pub proof fn decoding_undoes_encoding(text: Seq<u8>, bytes: Seq<u8>)
    requires
        writes_bytes(text, bytes),
    ensures
        stream::decoded(text) == bytes,
    decreases bytes.len(),
{
    if bytes.len() == 0 {
        assert(stream::decoded(text) =~= bytes);
    } else {
        let rest = bytes.subrange(1, bytes.len() as int);
        if text[0] == bytes[0] && bytes[0] != 37 && writes_bytes(
            text.subrange(1, text.len() as int),
            rest,
        ) {
            decoding_undoes_encoding(text.subrange(1, text.len() as int), rest);
        } else {
            an_escape_is_the_byte_it_writes(bytes[0], text[1], text[2]);
            decoding_undoes_encoding(text.subrange(3, text.len() as int), rest);
        }
        assert(stream::decoded(text) =~= bytes);
    }
}

/// A `%` that no two digits follow stands for itself.
pub proof fn a_stray_percent_stands_for_itself(text: Seq<u8>)
    requires
        text.len() > 0,
        text[0] == 37,
        text.len() < 3 || !(exists|digit: int| writes_digit(text[1], digit)) || !(exists|
            digit: int,
        | writes_digit(text[2], digit)),
    ensures
        stream::decoded(text) == seq![37u8] + stream::decoded(
            text.subrange(1, text.len() as int),
        ),
{
    if text.len() >= 3 {
        an_escape_is_the_byte_it_writes(0, text[1], text[2]);
    }
}

/// The bytes that say a directory: `ESC ] 7 ; file:// host path`.
pub open spec fn says_directory(host: Seq<u8>, path: Seq<u8>) -> Seq<u8> {
    seq![27u8, 93u8] + seq![55u8, 59u8] + (seq![102u8, 105, 108, 101, 58, 47, 47] + host + path)
}

/// Whether a path is that of a drive, `/C:`.
pub open spec fn is_drive(path: Seq<u8>) -> bool {
    path.len() >= 3 && path[0] == 47 && (65 <= path[1] <= 90 || 97 <= path[1] <= 122) && path[2]
        == 58
}

/// A shell that says where it is, is heard: whatever the host and whichever
/// bytes of the path it escaped, the directory reported is the path, without
/// the slash before a drive. The parser sees every byte of it first.
pub proof fn a_directory_is_reported_as_its_path(
    p: Progress,
    host: Seq<u8>,
    written: Seq<u8>,
    path: Seq<u8>,
    end: Seq<u8>,
)
    requires
        p.held.wf(),
        p.held.state == State::Text,
        free_of(host, 47),
        path.len() > 0,
        path[0] == 47,
        written.len() > 0,
        written[0] == 47,
        writes_bytes(written, path),
        7 + host.len() + written.len() <= 4096,
        free_of(host, 27),
        free_of(host, 7),
        free_of(written, 27),
        free_of(written, 7),
        end == seq![27u8, 92u8] || end == seq![7u8],
    ensures
        ({
            let after = p.read(says_directory(host, written) + end);
            &&& after.held == p.held.unmatched()
            &&& after.pending.len() == 0
            &&& after.out == p.flush().out.push(Piece::Text(seq![27u8, 93u8])).push(
                Piece::Text(says_directory(host, written).skip(2) + end),
            ).push(
                Piece::Directory(
                    if is_drive(path) {
                        path.skip(1)
                    } else {
                        path
                    },
                ),
            )
        }),
{
    let scheme = seq![102u8, 105, 108, 101, 58, 47, 47];
    let args = scheme + host + written;
    assert(free_of(args, 27)) by {
        assert forall|i: int| 0 <= i < args.len() implies args[i] != 27 by {
            if 7 <= i < 7 + host.len() {
                assert(args[i] == host[i - 7]);
            } else if i >= 7 {
                assert(args[i] == written[i - 7 - host.len()]);
            }
        }
    }
    assert(free_of(args, 7)) by {
        assert forall|i: int| 0 <= i < args.len() implies args[i] != 7 by {
            if 7 <= i < 7 + host.len() {
                assert(args[i] == host[i - 7]);
            } else if i >= 7 {
                assert(args[i] == written[i - 7 - host.len()]);
            }
        }
    }
    stream::an_osc_command_is_reported(p, OscKind::FileUrl, args, end);
    assert(seq![27u8, 93u8] + seq![55u8, 59u8] + args + end =~= says_directory(host, written) + end);
    assert(OscKind::FileUrl.header() =~= seq![55u8, 59u8]);
    assert(stream::file_scheme() =~= scheme);
    assert(args.subrange(0, 7) =~= scheme);
    let rest = args.subrange(7, args.len() as int);
    assert(rest =~= host + written);
    lemma_first_at(host, written, 47);
    assert(rest.subrange(host.len() as int, rest.len() as int) =~= written);
    decoding_undoes_encoding(written, path);
    assert(path.subrange(1, path.len() as int) =~= path.skip(1));
    let told = if is_drive(path) {
        path.skip(1)
    } else {
        path
    };
    assert(stream::url_path(args) == Some(told));
    assert(stream::reported(OscKind::FileUrl, args) =~= seq![Piece::Directory(told)]);
    assert(says_directory(host, written).skip(2) + end =~= OscKind::FileUrl.header() + args + end);
    let before = p.flush().emit(Piece::Text(seq![27u8, 93u8])).emit(
        Piece::Text(OscKind::FileUrl.header() + args + end),
    );
    assert(before.out + seq![Piece::Directory(told)] =~= before.out.push(Piece::Directory(told)));
}

proof fn lemma_first_at(before: Seq<u8>, after: Seq<u8>, byte: u8)
    requires
        free_of(before, byte),
        after.len() > 0,
        after[0] == byte,
    ensures
        stream::first_at(before + after, byte) == before.len(),
    decreases before.len(),
{
    let all = before + after;
    if before.len() == 0 {
        assert(all =~= after);
    } else {
        let rest = before.subrange(1, before.len() as int);
        assert(all.subrange(1, all.len() as int) =~= rest + after);
        assert(all[0] == before[0]);
        assert forall|i: int| 0 <= i < rest.len() implies rest[i] != byte by {
            assert(rest[i] == before[i + 1]);
        }
        lemma_first_at(rest, after, byte);
    }
}

/// A painted cell carries each attribute of the cell it is read from under its
/// own name, and the colors it was given.
pub proof fn a_painted_cell_shows_its_own_attributes(
    cell: CellReading,
    selected: bool,
    painted: CellSnapshot,
)
    requires
        painted == cell@.painted(selected),
    ensures
        painted.bold == cell.bold,
        painted.dim == cell.dim,
        painted.italic == cell.italic,
        painted.underline == cell.underline,
        painted.inverse == cell.inverse,
        painted.hidden == cell.hidden,
        painted.wide == cell.wide,
        painted.wide_spacer == cell.wide_spacer,
        painted.selected == selected,
        painted.ch == (if cell.ch == '\u{10EEEE}' {
            ' '
        } else {
            cell.ch
        }),
        cell.fg matches Paint::Spec(r, g, b) ==> painted.fg == CellColor::Rgb(r, g, b),
        cell.bg matches Paint::Spec(r, g, b) ==> painted.bg == CellColor::Rgb(r, g, b),
        cell.fg matches Paint::Indexed(ix) ==> painted.fg == CellColor::Indexed(ix),
        cell.bg matches Paint::Indexed(ix) ==> painted.bg == CellColor::Indexed(ix),
{
}

/// A color a program names is painted as the theme's: the sixteen by their
/// index, the eight dim ones as the color each is the dim form of, the default
/// background as that, and every other default as the foreground.
pub proof fn a_named_color_is_painted_as_the_themes(named: u16)
    ensures
        named < 16 ==> Paint::Named(named).color() == CellColor::Indexed(named as u8),
        named < 8 ==> Paint::Named((259 + named) as u16).color() == Paint::Named(named).color(),
        Paint::Named(named).color() == CellColor::Background <==> named == 257,
        Paint::Named(named).color() == CellColor::Foreground <==> (16 <= named < 259 && named
            != 257) || named > 266,
{
}

/// Whether bytes are those of a text that is ASCII.
pub open spec fn spells(bytes: Seq<u8>, text: Seq<char>) -> bool {
    bytes.len() == text.len() && forall|i: int|
        0 <= i < text.len() ==> #[trigger] bytes[i] as int == text[i] as int
}

/// What a stream is watched for is written as the programs write it.
pub proof fn sequences_are_written_as_programs_write_them()
    ensures
        spells(OscKind::File.header(), "1337;File="@),
        spells(OscKind::Begin.header(), "1337;MultipartFile="@),
        spells(OscKind::Part.header(), "1337;FilePart="@),
        spells(OscKind::End.header(), "1337;FileEnd"@),
        spells(OscKind::FileUrl.header(), "7;"@),
        spells(OscKind::Path.header(), "9;9;"@),
        spells(stream::file_scheme(), "file://"@),
        spells(stream::sync_prefix(), "\u{1b}[?2026"@),
        spells(stream::cell_size_query(), "\u{1b}[16t"@),
        spells(reply::vt102(), "\u{1b}[?6c"@),
        spells(reply::vt220_sixel(), "\u{1b}[?62;4;22c"@),
{
    reveal_strlit("1337;File=");
    reveal_strlit("1337;MultipartFile=");
    reveal_strlit("1337;FilePart=");
    reveal_strlit("1337;FileEnd");
    reveal_strlit("7;");
    reveal_strlit("9;9;");
    reveal_strlit("file://");
    reveal_strlit("\u{1b}[?2026");
    reveal_strlit("\u{1b}[16t");
    reveal_strlit("\u{1b}[?6c");
    reveal_strlit("\u{1b}[?62;4;22c");
}

/// A graphics command is what stands between `ESC _` and its end, up to
/// sixty-four kilobytes of it.
pub proof fn a_graphics_command_is_what_stands_between(
    p: Progress,
    payload: Seq<u8>,
    end: Seq<u8>,
)
    requires
        p.held.wf(),
        p.held.state == State::Text,
        payload.len() <= 0x1_0000,
        free_of(payload, 27),
        free_of(payload, 7),
        end == seq![27u8, 92u8] || end == seq![7u8],
    ensures
        ({
            let after = p.read(seq![27u8, 95u8] + payload + end);
            &&& after.out == p.flush().out.push(Piece::Graphics(payload))
            &&& after.pending.len() == 0
            &&& after.held.state == State::Text
        }),
{
    stream::a_graphics_command_is_reported(p, payload, end);
}

/// A sixel image is what stands between `ESC P q` and `ESC \\`, up to thirty-two
/// megabytes of it. The parser is given the sequence without it first.
pub proof fn a_sixel_image_is_what_stands_between(p: Progress, data: Seq<u8>)
    requires
        p.held.wf(),
        p.held.state == State::Text,
        data.len() <= 0x200_0000,
        free_of(data, 27),
        free_of(data, 24),
        free_of(data, 26),
    ensures
        ({
            let after = p.read(seq![27u8, 80u8, 113u8] + data + seq![27u8, 92u8]);
            &&& after.out == p.flush().out.push(Piece::Text(seq![27u8, 80u8])).push(
                Piece::Text(seq![113u8]),
            ).push(Piece::Text(seq![27u8, 92u8])).push(Piece::Sixel(data))
            &&& after.pending.len() == 0
            &&& after.held.state == State::Text
        }),
{
    let none = Seq::<u8>::empty();
    stream::a_sixel_image_is_reported(p, none, data);
    assert(seq![27u8, 80u8] + none + seq![113u8] + data + seq![27u8, 92u8] =~= seq![
        27u8,
        80u8,
        113u8,
    ] + data + seq![27u8, 92u8]);
    assert(none.push(113u8) =~= seq![113u8]);
}

/// A file is what stands behind the colon of `ESC ] 1337 ; File = ...`, up to
/// ninety-six megabytes of it, and its arguments what stands before.
pub proof fn a_file_is_what_stands_behind_the_colon(
    p: Progress,
    args: Seq<u8>,
    payload: Seq<u8>,
    end: Seq<u8>,
)
    requires
        p.held.wf(),
        p.held.state == State::Text,
        args.len() <= 4096,
        free_of(args, 27),
        free_of(args, 7),
        free_of(args, 58),
        payload.len() <= 0x600_0000,
        free_of(payload, 27),
        free_of(payload, 7),
        end == seq![27u8, 92u8] || end == seq![7u8],
    ensures
        ({
            let after = p.read(
                seq![27u8, 93u8] + OscKind::File.header() + args + seq![58u8] + payload + end,
            );
            &&& after.out.last() == Piece::Iterm(FilePiece::File { args, payload })
            &&& after.out.len() == p.flush().out.len() + 4
            &&& after.pending.len() == 0
            &&& after.held.state == State::Text
        }),
{
    stream::a_file_is_reported(p, args, payload, end);
}

/// A file in parts begins with its arguments and ends, and a path that is said
/// outright is reported without the quotes round it.
pub proof fn a_path_is_reported_without_its_quotes(
    p: Progress,
    kind: OscKind,
    args: Seq<u8>,
    end: Seq<u8>,
)
    requires
        p.held.wf(),
        p.held.state == State::Text,
        kind == OscKind::Begin || kind == OscKind::End || kind == OscKind::Path,
        args.len() <= 4096,
        free_of(args, 27),
        free_of(args, 7),
        end == seq![27u8, 92u8] || end == seq![7u8],
    ensures
        ({
            let out = p.read(seq![27u8, 93u8] + kind.header() + args + end).out;
            let passed = p.flush().out.push(Piece::Text(seq![27u8, 93u8])).push(
                Piece::Text(kind.header() + args + end),
            );
            let quoted = args.len() >= 2 && args[0] == 34 && args.last() == 34;
            &&& kind == OscKind::Begin ==> out == passed.push(
                Piece::Iterm(FilePiece::Begin { args }),
            )
            &&& kind == OscKind::End ==> out == passed.push(Piece::Iterm(FilePiece::End))
            &&& kind == OscKind::Path && !quoted && args.len() > 0 ==> out == passed.push(
                Piece::Directory(args),
            )
            &&& kind == OscKind::Path && quoted && args.len() > 2 ==> out == passed.push(
                Piece::Directory(args.subrange(1, args.len() - 1)),
            )
            &&& kind == OscKind::Path && (args.len() == 0 || (quoted && args.len() == 2)) ==> out
                == passed
        }),
{
    stream::an_osc_command_is_reported(p, kind, args, end);
    let passed = p.flush().emit(Piece::Text(seq![27u8, 93u8])).emit(
        Piece::Text(kind.header() + args + end),
    ).out;
    let told = stream::reported(kind, args);
    if told.len() == 0 {
        assert(passed + told =~= passed);
    } else {
        assert(passed + told =~= passed.push(told[0]));
    }
}

/// The number that some digits write.
pub open spec fn valued(digits: Seq<u8>) -> int
    decreases digits.len(),
{
    if digits.len() == 0 {
        0
    } else {
        10 * valued(digits.drop_last()) + (digits.last() - 48)
    }
}

/// A number is written in the digits that have its value, without a zero in
/// front.
pub proof fn a_number_is_written_in_its_digits(n: nat)
    ensures
        valued(reply::decimal(n)) == n,
        forall|i: int|
            0 <= i < reply::decimal(n).len() ==> 48 <= #[trigger] reply::decimal(n)[i] <= 57,
        reply::decimal(n).len() > 0,
        n > 0 ==> reply::decimal(n)[0] != 48,
    decreases n,
{
    reveal_with_fuel(valued, 2);
    let digits = reply::decimal(n);
    if n >= 10 {
        a_number_is_written_in_its_digits(n / 10);
        assert(digits.drop_last() =~= reply::decimal(n / 10));
    } else {
        assert(digits.drop_last() =~= Seq::<u8>::empty());
    }
}

/// A terminal says the size of a cell as `ESC [ 6 ; height ; width t`, and that
/// of its text as `ESC [ 4 ; height ; width t`, the height that of all its
/// lines and the width that of all its columns.
pub proof fn a_size_is_reported_height_first(window: WindowSize)
    ensures
        window.cell_report() == seq![27u8, 91u8, 54u8, 59u8] + reply::decimal(
            window.cell_height as nat,
        ) + seq![59u8] + reply::decimal(window.cell_width as nat) + seq![116u8],
        ({
            let (height, width) = (
                window.num_lines as int * window.cell_height as int,
                window.num_cols as int * window.cell_width as int,
            );
            0 <= height < 0x1_0000 && 0 <= width < 0x1_0000 ==> window.area_report() == seq![
                27u8,
                91u8,
                52u8,
                59u8,
            ] + reply::decimal(height as nat) + seq![59u8] + reply::decimal(width as nat) + seq![
                116u8,
            ]
        }),
{
}

/// What a terminal raises is told as it is: its text is written behind what was
/// written, a title is the title, the bell stays rung, and a query about its
/// size is answered where there is a size to say. Nothing else is touched.
pub proof fn what_a_terminal_raises_is_told(
    said: Said,
    notice: Notice,
    sixel: bool,
    window: Option<WindowSize>,
)
    ensures
        ({
            let after = said.hear(notice, sixel, window);
            &&& match notice {
                Notice::PtyWrite(text) => {
                    let bytes = vstd::utf8::encode_utf8(text@);
                    &&& !(sixel && bytes == reply::vt102()) ==> after.responses == said.responses
                        + bytes
                    &&& sixel && bytes == reply::vt102() ==> after.responses == said.responses
                        + reply::vt220_sixel()
                    &&& after.title == said.title && after.bell == said.bell
                },
                Notice::Title(title) => after.title == Some(title@) && after.bell == said.bell
                    && after.responses == said.responses,
                Notice::ResetTitle => after.title is None && after.bell == said.bell
                    && after.responses == said.responses,
                Notice::Bell => after.bell && after.title == said.title && after.responses
                    == said.responses,
                Notice::TextAreaSize => after.title == said.title && after.bell == said.bell && (
                match window {
                    Some(window) => after.responses == said.responses + window.area_report(),
                    None => after.responses == said.responses,
                }),
                Notice::Other => after == said,
            }
        }),
        said.write(Seq::empty()).responses == said.responses,
{
    assert(said.responses + Seq::<u8>::empty() =~= said.responses);
}

/// What is raised is told in the order it was raised.
pub proof fn what_is_raised_first_is_told_first(
    said: Said,
    notices: Seq<Notice>,
    n: int,
    sixel: bool,
    window: Option<WindowSize>,
)
    requires
        0 <= n < notices.len(),
    ensures
        said.hear_all(notices, 0, sixel, window) == said,
        said.hear_all(notices, n + 1, sixel, window) == said.hear_all(
            notices,
            n,
            sixel,
            window,
        ).hear(notices[n], sixel, window),
{
}

/// A keyboard is in the modes that were turned on for it, each on its own.
pub proof fn a_keyboard_is_in_the_modes_turned_on(modes: Set<Mode>)
    ensures
        ({
            let mode = KeyboardMode::of(modes);
            &&& mode.disambiguate <==> modes.contains(Mode::Keyboard(KeyFlag::Disambiguate))
            &&& mode.event_types <==> modes.contains(Mode::Keyboard(KeyFlag::EventTypes))
            &&& mode.alternate_keys <==> modes.contains(Mode::Keyboard(KeyFlag::AlternateKeys))
            &&& mode.all_as_escapes <==> modes.contains(Mode::Keyboard(KeyFlag::AllAsEscapes))
            &&& mode.associated_text <==> modes.contains(Mode::Keyboard(KeyFlag::AssociatedText))
            &&& mode.app_cursor <==> modes.contains(Mode::AppCursor)
        }),
{
}

/// A pointer is told of as much as any mode that is on asks for: motion over
/// dragging, dragging over clicks, and of nothing where none is.
pub proof fn a_pointer_is_told_of_as_much_as_was_asked(modes: Set<Mode>)
    ensures
        ({
            let mode = MouseMode::of(modes);
            &&& modes.contains(Mode::MouseMotion) <==> mode.tracking == MouseTracking::Motion
            &&& modes.contains(Mode::MouseDrag) ==> mode.tracking == MouseTracking::Drag
                || mode.tracking == MouseTracking::Motion
            &&& modes.contains(Mode::MouseClick) ==> mode.tracking != MouseTracking::Off
            &&& mode.tracking == MouseTracking::Drag ==> modes.contains(Mode::MouseDrag)
            &&& mode.tracking == MouseTracking::Click ==> modes.contains(Mode::MouseClick)
            &&& mode.sgr <==> modes.contains(Mode::SgrMouse)
            &&& mode.utf8 <==> modes.contains(Mode::Utf8Mouse)
            &&& mode.alternate_scroll <==> modes.contains(Mode::AlternateScroll)
            &&& mode.alt_screen <==> modes.contains(Mode::AltScreen)
            &&& mode.app_cursor <==> modes.contains(Mode::AppCursor)
        }),
{
}

/// A cell has the attributes it is named to have.
pub proof fn a_cell_has_its_own_attributes(cell: CellView)
    ensures
        cell.is(Attribute::Bold) == cell.bold,
        cell.is(Attribute::Dim) == cell.dim,
        cell.is(Attribute::Italic) == cell.italic,
        cell.is(Attribute::Underline) == cell.underline,
        cell.is(Attribute::Inverse) == cell.inverse,
        cell.is(Attribute::Hidden) == cell.hidden,
        cell.is(Attribute::Wide) == cell.wide,
        cell.is(Attribute::WideSpacer) == cell.wide_spacer,
        cell.is(Attribute::Trailing) == cell.trailing,
        cell.is(Attribute::Leading) == cell.leading,
        cell.is(Attribute::Wraps) == cell.wraps,
{
}

/// What is read of a cell says what the cell says, field by field.
pub proof fn a_reading_says_what_the_cell_says(cell: CellReading)
    ensures
        cell@.ch == cell.ch && cell@.fg == cell.fg && cell@.bg == cell.bg,
        cell@.bold == cell.bold && cell@.dim == cell.dim && cell@.italic == cell.italic,
        cell@.underline == cell.underline && cell@.inverse == cell.inverse,
        cell@.hidden == cell.hidden && cell@.wide == cell.wide,
        cell@.wide_spacer == cell.wide_spacer && cell@.trailing == cell.trailing,
        cell@.leading == cell.leading && cell@.wraps == cell.wraps,
        cell@.marks == cell.marks@,
{
}

/// A cell nothing was written to is a blank in the default colors, with no
/// attribute.
pub proof fn a_blank_cell_shows_nothing(selected: bool, attribute: Attribute)
    ensures
        CellView::blank().ch == ' ',
        CellView::blank().marks.len() == 0,
        !CellView::blank().is(attribute),
        CellView::blank().painted(selected).fg == CellColor::Foreground,
        CellView::blank().painted(selected).bg == CellColor::Background,
{
}

/// A row's text is its characters in order, but for the second halves of wide
/// ones.
pub proof fn a_rows_text_is_its_characters(cells: Seq<CellSnapshot>, cell: CellSnapshot)
    ensures
        cell::unspaced(Seq::empty()).len() == 0,
        cell::unspaced(cells.push(cell)) == (if cell.wide_spacer {
            cell::unspaced(cells)
        } else {
            cell::unspaced(cells).push(cell.ch)
        }),
{
    assert(cells.push(cell).drop_last() =~= cells);
}

/// A row's text ends where its last character that is no blank does.
pub proof fn a_rows_text_loses_only_blanks_at_its_end(text: Seq<char>) -> (n: int)
    ensures
        0 <= n <= text.len(),
        cell::trimmed(text) == text.subrange(0, n),
        forall|i: int| n <= i < text.len() ==> text[i] == ' ',
        n > 0 ==> text[n - 1] != ' ',
    decreases text.len(),
{
    if text.len() > 0 && text.last() == ' ' {
        let rest = text.drop_last();
        let n = a_rows_text_loses_only_blanks_at_its_end(rest);
        assert(cell::trimmed(text) =~= text.subrange(0, n));
        assert forall|i: int| n <= i < text.len() implies text[i] == ' ' by {
            if i < rest.len() {
                assert(rest[i] == text[i]);
            }
        }
        n
    } else {
        assert(cell::trimmed(text) =~= text.subrange(0, text.len() as int));
        text.len() as int
    }
}

/// Whether a cell comes before another as a screen is read.
pub open spec fn reads_before(a: GridPoint, b: GridPoint) -> bool {
    a.line < b.line || (a.line == b.line && a.column < b.column)
}

/// A selection takes in every cell from its first to its last as a screen is
/// read, and a block every cell of its rectangle. What it takes of a line is
/// what stands between the first and the last column it reads there.
pub proof fn a_selection_takes_in_what_is_between(
    range: SelectionRange,
    at: GridPoint,
    shape: Shape,
)
    requires
        !reads_before(range.end, range.start),
        at.column < shape.columns,
    ensures
        !range.is_block ==> (range.takes(at) <==> !reads_before(at, range.start) && !reads_before(
            range.end,
            at,
        )),
        range.is_block ==> (range.takes(at) <==> range.start.line <= at.line <= range.end.line
            && range.start.column <= at.column <= range.end.column),
        range.start.line <= at.line <= range.end.line ==> (range.takes(at) <==> range.from(
            at.line as int,
        ) <= at.column <= range.to(at.line as int, shape)),
{
}

/// A frame shows the lines it is scrolled back to: each row is the grid's line
/// so many above, cell for cell, and what is selected there is washed.
pub proof fn a_frame_shows_the_lines_it_is_scrolled_to(
    term: TermState,
    laid: Laid,
    order: Seq<(PlacementKey, Relative)>,
    range: Option<SelectionRange>,
    row: int,
    col: int,
)
    requires
        screen::shape_of(term).wf(),
        0 <= row < screen::shape_of(term).lines,
        0 <= col < screen::shape_of(term).columns,
        screen::shape_of(term).offset <= screen::shape_of(term).history,
    ensures
        ({
            let frame = emulator::frame_of(term, laid, order);
            let line = row - screen::shape_of(term).offset;
            let painted = frame.painted(range);
            let here = GridPoint { line: line as i32, column: col as usize };
            &&& frame.rows.len() == screen::shape_of(term).lines
            &&& frame.rows[row].len() == screen::shape_of(term).columns
            &&& frame.rows[row][col] == screen::grid_of(term)[(line, col)]
            &&& frame.laid == laid && frame.order == order
            &&& frame.offset == screen::shape_of(term).offset
            &&& painted.len() == frame.rows.len() && painted[row].len() == frame.rows[row].len()
            &&& painted[row][col].selected <==> (range matches Some(range) && range.takes(here))
            &&& painted[row][col].bold == frame.rows[row][col].bold
            &&& painted[row][col].italic == frame.rows[row][col].italic
            &&& painted[row][col].underline == frame.rows[row][col].underline
            &&& frame.rows[row][col].ch != '\u{10EEEE}' ==> painted[row][col].ch
                == frame.rows[row][col].ch
        }),
{
}

/// The cursor is shown as many rows down as the view is scrolled back, and not
/// at all once that is off the screen.
pub proof fn the_cursor_goes_down_as_the_view_goes_back(term: TermState, at: GridPoint)
    requires
        screen::drawn_cursor_of(term) == Some(at),
        !screen::stranded(term),
        screen::shape_of(term).wf(),
    ensures
        ({
            let row = at.line + screen::shape_of(term).offset;
            match emulator::cursor_shown(term) {
                Some(shown) => shown.row == row && shown.col == at.column && row
                    < screen::shape_of(term).lines,
                None => row < 0 || row >= screen::shape_of(term).lines,
            }
        }),
{
}

/// A view scrolled goes as far as it is told, and no further than there is
/// history.
pub proof fn a_view_goes_no_further_than_history(shape: Shape, lines: i32)
    requires
        shape.offset <= shape.history,
    ensures
        0 <= screen::scrolled(shape, lines) <= shape.history,
        0 <= shape.offset + lines <= shape.history ==> screen::scrolled(shape, lines)
            == shape.offset + lines,
        shape.offset + lines < 0 ==> screen::scrolled(shape, lines) == 0,
        shape.offset + lines > shape.history ==> screen::scrolled(shape, lines) == shape.history,
{
}

/// A size is that of the grid and of its cell, each way round.
pub proof fn a_window_is_its_grid_and_its_cell(fixed: Fixed, width: u16, height: u16)
    requires
        fixed.lines <= u16::MAX,
        fixed.columns <= u16::MAX,
    ensures
        fixed.cell is None ==> fixed.window() is None,
        fixed.cell == Some((width, height)) ==> fixed.window() == Some(
            WindowSize {
                num_lines: fixed.lines as u16,
                num_cols: fixed.columns as u16,
                cell_width: width,
                cell_height: height,
            },
        ),
{
}

/// A read hands over the pictures in it as they are. A part is a picture only
/// of a file that has begun, and a file that came in parts is whole at its end.
/// Nothing else is a picture.
pub proof fn a_picture_is_handed_over_as_it_is(start: Acting, run: Seq<u8>, args: Seq<u8>)
    ensures
        start.picture(Piece::Graphics(run)) == Some(PictureView::Graphics(run)),
        start.picture(Piece::Sixel(run)) == Some(PictureView::Sixel(run)),
        start.picture(Piece::Iterm(FilePiece::File { args, payload: run })) == Some(
            PictureView::File { args, payload: run },
        ),
        start.multipart is None ==> start.picture(Piece::Iterm(FilePiece::Part(run))) is None
            && start.picture(Piece::Iterm(FilePiece::End)) is None,
        start.multipart matches Some((args, bytes)) ==> start.picture(
            Piece::Iterm(FilePiece::Part(run)),
        ) == Some(PictureView::Part(run)) && start.picture(Piece::Iterm(FilePiece::End)) == Some(
            PictureView::Whole { args, bytes },
        ),
        start.picture(Piece::Text(run)) is None,
        start.picture(Piece::Directory(run)) is None,
        start.picture(Piece::CellSizeQuery) is None,
        start.picture(Piece::Sync(true)) is None && start.picture(Piece::Sync(false)) is None,
        start.picture(Piece::Iterm(FilePiece::Begin { args })) is None,
        start.handed(Piece::Iterm(FilePiece::End)).multipart is None,
        start.handed(Piece::Graphics(run)) == start,
        start.handed(Piece::Iterm(FilePiece::Part(run))) == start,
{
}

/// Each run of the stream does what it says and leaves the rest: a directory is
/// the directory, a query is answered where there is a size to say, a file in
/// parts begins empty, and text is the terminal's to act on.
pub proof fn a_run_does_what_it_says(start: Acting, fixed: Fixed, bytes: Seq<u8>)
    ensures
        ({
            let after = start.step(fixed, Piece::Directory(bytes));
            after == (Acting { directory: Some(bytes), ..start })
        }),
        ({
            let after = start.step(fixed, Piece::Iterm(FilePiece::Begin { args: bytes }));
            after == (Acting { multipart: Some((bytes, Seq::empty())), ..start })
        }),
        ({
            let after = start.step(fixed, Piece::CellSizeQuery);
            &&& fixed.window() is None ==> after == start
            &&& fixed.window() matches Some(window) ==> after.said.responses
                == start.said.responses + window.cell_report() && after.said.title
                == start.said.title && after.said.bell == start.said.bell && after.term
                == start.term && after.parser == start.parser && after.held == start.held
                && after.directory == start.directory && after.multipart == start.multipart
        }),
        ({
            let after = start.step(fixed, Piece::Text(bytes));
            let (parser, term) = screen::written(start.parser, start.term, bytes);
            &&& after.parser == parser && after.term == screen::quieted(term)
            &&& after.said == start.said.hear_all(
                screen::told_of(term),
                screen::told_of(term).len() as int,
                fixed.sixel,
                fixed.window(),
            )
            &&& after.directory == start.directory && after.multipart == start.multipart
            &&& after.held == start.held
        }),
        start.step(fixed, Piece::Sync(false)) == (Acting { held: None, ..start }),
        start.held is Some ==> start.step(fixed, Piece::Sync(true)) == start,
        start.acted(fixed, Seq::empty(), 0) == start,
{
}

/// What comes of a read is what comes of its runs one after another, up to the
/// first picture: the runs behind that wait.
pub proof fn a_picture_stops_a_read(start: Acting, fixed: Fixed, piece: Piece, rest: Seq<Piece>)
    ensures
        start.feeds(fixed, Seq::empty()) == (Outcome {
            after: start,
            picture: None,
            rest: Seq::empty(),
        }),
        start.picture(piece) is None ==> start.feeds(fixed, seq![piece] + rest) == start.step(
            fixed,
            piece,
        ).feeds(fixed, rest),
        start.picture(piece) is Some ==> start.feeds(fixed, seq![piece] + rest) == (Outcome {
            after: start.handed(piece),
            picture: start.picture(piece),
            rest,
        }),
{
    let all = seq![piece] + rest;
    assert(all.drop_first() =~= rest);
    assert(all[0] == piece);
}

/// A view is of the frame that is held while one is, and of what is live
/// otherwise.
pub proof fn a_held_frame_is_served(view: EmulatorView)
    ensures
        view.held matches Some(held) ==> view.frame() == held,
        view.held is None ==> view.frame() == emulator::frame_of(view.term, view.laid, view.order),
        view.shape() == screen::shape_of(view.term),
        view.fixed().laid == view.laid && view.fixed().order == view.order,
        view.fixed().cell == view.cell && view.fixed().sixel == view.advertise_sixel,
        view.fixed().lines == view.shape().lines && view.fixed().columns == view.shape().columns,
{
}

/// A refusal is told to a client that wants to hear of failures, with the
/// image and the placement it asked for; where nothing is refused it hears what
/// it would have.
pub proof fn a_refusal_is_told_unless_quiet(
    display: Display,
    refusal: Refusal,
    reply: Option<Reply>,
)
    ensures
        emulator::told(display, None, reply) == reply,
        display.quiet >= 2 ==> emulator::told(display, Some(refusal), reply) is None,
        display.quiet < 2 ==> (emulator::told(display, Some(refusal), reply) matches Some(told)
            && told.id == display.image && told.placement == display.placement && told.error
            == Some(refusal)),
        display.quiet < 2 ==> (reply matches Some(reply) ==> emulator::told(
            display,
            Some(refusal),
            Some(reply),
        )->0.number == reply.number),
{
}

/// An image's rows are reserved by line feeds, one after another.
pub proof fn rows_are_reserved_by_line_feeds(parser: Parser, term: TermState, n: nat)
    ensures
        emulator::linefed(parser, term, 0) == (parser, term),
        ({
            let (before, held) = emulator::linefed(parser, term, n);
            emulator::linefed(parser, term, n + 1) == screen::written(before, held, seq![10u8])
        }),
{
}

/// A placement is marked on as many cells of its top row as it covers, the grid
/// has to the right of the cursor, and two hundred and fifty-six.
pub proof fn a_placement_is_marked_on_its_top_row(shape: Shape, at: GridPoint, cols: u16)
    requires
        shape.has(at),
        at.line >= 0,
    ensures
        ({
            let width = emulator::stamped_width(shape, at, cols);
            &&& width <= cols && width <= 256 && width <= shape.columns - at.column
            &&& width == cols || width == 256 || width == shape.columns - at.column
        }),
{
}

/// Where the grid has no cell, a blank one is shown.
pub proof fn off_the_grid_is_blank(term: TermState, line: int, column: int)
    ensures
        ({
            let shape = screen::shape_of(term);
            let cell = screen::shown_cell(term, line, column);
            let above = line + shape.history;
            &&& above >= 0 && line < shape.lines && 0 <= column && column < shape.columns ==> cell
                == screen::grid_of(term)[(line, column)]
            &&& above < 0 || line >= shape.lines || column < 0 || column >= shape.columns
                ==> cell.ch == ' ' && cell.marks.len() == 0 && !cell.bold && !cell.inverse
                && !cell.underline && !cell.wraps
        }),
{
}

/// A placement that keeps the cursor leaves the marked grid and nothing else
/// moved; each row more that it takes is one line feed more.
pub proof fn each_row_taken_is_a_line_feed(
    before: EmulatorView,
    grid: Map<(int, int), CellView>,
    rows: nat,
    after: EmulatorView,
)
    ensures
        emulator::anchored(before, grid, 0, after) ==> screen::grid_of(after.term) == grid
            && screen::shape_of(after.term) == screen::shape_of(before.term)
            && screen::cursor_of(after.term) == screen::cursor_of(before.term) && after.parser
            == before.parser,
        emulator::anchored(before, grid, rows + 1, after) <==> exists|stamped: TermState|
            #![trigger emulator::stamps(before.term, grid, stamped)]
            emulator::stamps(before.term, grid, stamped) && ({
                let (parser, term) = emulator::linefed(before.parser, stamped, rows);
                (after.parser, after.term) == screen::written(parser, term, seq![10u8])
            }),
{
    if emulator::anchored(before, grid, rows + 1, after) {
        let stamped = choose|stamped: TermState| #[trigger]
            emulator::stamps(before.term, grid, stamped) && (after.parser, after.term)
                == emulator::linefed(before.parser, stamped, rows + 1);
        rows_are_reserved_by_line_feeds(before.parser, stamped, rows);
        assert(emulator::stamps(before.term, grid, stamped));
    }
    if exists|stamped: TermState|
        #![trigger emulator::stamps(before.term, grid, stamped)]
        emulator::stamps(before.term, grid, stamped) && ({
            let (parser, term) = emulator::linefed(before.parser, stamped, rows);
            (after.parser, after.term) == screen::written(parser, term, seq![10u8])
        }) {
        let stamped = choose|stamped: TermState|
            #![trigger emulator::stamps(before.term, grid, stamped)]
            emulator::stamps(before.term, grid, stamped) && ({
                let (parser, term) = emulator::linefed(before.parser, stamped, rows);
                (after.parser, after.term) == screen::written(parser, term, seq![10u8])
            });
        rows_are_reserved_by_line_feeds(before.parser, stamped, rows);
        assert(emulator::stamps(before.term, grid, stamped));
    }
}

/// A selection is let go of only where a line of it could not be counted any
/// more once it has gone up as far as a text can push it. Otherwise nothing is
/// touched.
pub proof fn a_selection_is_kept_while_it_can_be_counted(term: TermState, lines: int)
    requires
        0 <= lines <= 0x7fff_ffff,
    ensures
        screen::picked_of(term) is None ==> screen::loosened(term, lines) == term,
        screen::picked_of(term) matches Some(picked) ==> {
            let start = picked.start.0.line - lines;
            let end = picked.end.0.line - lines;
            let counted = start >= -0x8000_0000 && end >= -0x8000_0000;
            &&& counted ==> screen::loosened(term, lines) == term
            &&& !counted ==> screen::loosened(term, lines) == screen::unpicked(term)
        },
{
}

/// A byte scrolls two lines at most, and one sequence as many as it can repeat.
pub proof fn each_byte_scrolls_two_lines_at_most(run: Seq<u8>, byte: u8)
    ensures
        screen::scrolls(run.push(byte)) == screen::scrolls(run) + 2,
        screen::scrolls(Seq::empty()) == 2 * 65_535,
{
}

/// A grid has the lines on screen and those of its history, and no column past
/// its last.
pub proof fn a_grid_has_its_lines_and_its_history(shape: Shape, at: GridPoint)
    ensures
        at.line >= 0 ==> (shape.has(at) <==> at.line <= shape.lines - 1 && at.column
            <= shape.columns - 1),
        at.line < 0 ==> (shape.has(at) <==> at.line + shape.history >= 0 && shape.lines > at.line
            && at.column <= shape.columns - 1),
{
}

/// A cursor is stranded only in the first column, and only on the second half
/// of a wide character there.
pub proof fn a_cursor_is_stranded_in_the_first_column(term: TermState)
    requires
        screen::shape_of(term).has(screen::cursor_of(term)),
    ensures
        ({
            let at = screen::cursor_of(term);
            let cell = screen::grid_of(term)[(at.line as int, at.column as int)];
            screen::stranded(term) <==> at.column == 0 && cell.trailing
        }),
{
}

} // verus!
