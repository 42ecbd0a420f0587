//! What becomes of a string that outgrows its room, loses its end, or is broken
//! off.

use vstd::prelude::*;

use crate::terminal::stream::{FilePiece, OscKind, Piece, Progress, State};

verus! {

/// A file that outgrows its room is let go of: past ninety-six megabytes what
/// was kept goes, what follows is not kept, and the end of it is the parser's
/// alone.
pub proof fn a_file_too_large_is_let_go_of(p: Progress, kind: OscKind, byte: u8)
    requires
        p.held.state == State::OscPayload(kind),
        byte != 7,
        byte != 27,
    ensures
        ({
            let after = p.step(byte);
            let ended = p.step(7);
            &&& after.out == p.out && after.pending == p.pending && after.held.state
                == p.held.state
            &&& !p.held.discard && p.held.run.len() < 0x600_0000 ==> after.held.run
                == p.held.run.push(byte) && !after.held.discard
            &&& !p.held.discard && p.held.run.len() >= 0x600_0000 ==> after.held.run.len() == 0
                && after.held.discard
            &&& p.held.discard ==> after == p
            &&& p.held.discard ==> ended.out == p.out.push(Piece::Text(seq![7u8]))
            &&& ended.held.state == State::Text && ended.held.run.len() == 0 && !ended.held.discard
                && ended.held.args.len() == 0
        }),
{
    reveal(Progress::step);
    assert(p.step(7).out =~= p.out.push(Piece::Text(seq![7u8])) || !p.held.discard);
}

/// A file is handed over where its string ends, and also where an escape that
/// ends nothing breaks into it: the string is ended for the parser, and the
/// escape is its text.
pub proof fn an_escape_ends_a_file(p: Progress, byte: u8)
    requires
        p.held.state == State::OscPayloadEscape(OscKind::File),
        !p.held.discard,
        p.held.sync == 0,
        p.held.cell_query == 0,
        byte != 27,
    ensures
        ({
            let after = p.step(byte);
            let ended = p.out.push(Piece::Text(seq![27u8, 92u8])).push(
                Piece::Iterm(FilePiece::File { args: p.held.args, payload: p.held.run }),
            );
            &&& byte == 92 ==> after.out == ended && after.pending == p.pending
            &&& byte != 92 ==> after.out == ended.push(Piece::Text(seq![27u8])) && after.pending
                == p.pending.push(byte)
            &&& after.held.state == State::Text && after.held.run.len() == 0
        }),
{
    reveal(Progress::step);
    let ended = p.out.push(Piece::Text(seq![27u8, 92u8])).push(
        Piece::Iterm(FilePiece::File { args: p.held.args, payload: p.held.run }),
    );
    assert(p.out.push(Piece::Text(seq![27u8, 92u8])) + seq![
        Piece::Iterm(FilePiece::File { args: p.held.args, payload: p.held.run }),
    ] =~= ended);
}

/// Arguments past four kilobytes, or broken into by an escape that ends
/// nothing, report nothing: they were the parser's all along.
pub proof fn arguments_that_lose_their_end_report_nothing(p: Progress, kind: OscKind, byte: u8)
    requires
        p.held.sync == 0,
        p.held.cell_query == 0,
        byte != 27,
        byte != 7,
    ensures
        p.held.state == State::OscArgs(kind) && p.held.run.len() >= 4096 && byte != 58 ==> ({
            let after = p.step(byte);
            after.out == p.out && after.pending == p.pending.push(byte) && after.held.state
                == State::Text && after.held.run.len() == 0
        }),
        p.held.state == State::OscArgsEscape(kind) && byte != 92 ==> ({
            let after = p.step(byte);
            after.out == p.out && after.pending == p.pending.push(byte) && after.held.state
                == State::Text && after.held.run.len() == 0
        }),
        p.held.state == State::OscArgs(kind) && p.held.run.len() < 4096 && byte != 58 ==> ({
            let after = p.step(byte);
            after.out == p.out && after.pending == p.pending.push(byte) && after.held.state
                == p.held.state && after.held.run == p.held.run.push(byte)
        }),
{
    reveal(Progress::step);
}

/// A sixel image that outgrows its room is let go of: past thirty-two megabytes
/// nothing of it is kept, and its end is the parser's alone.
pub proof fn an_image_too_large_is_let_go_of(p: Progress, byte: u8)
    requires
        byte != 27,
        byte != 24,
        byte != 26,
    ensures
        p.held.state == State::Sixel && p.held.run.len() < 0x200_0000 ==> p.step(byte).held.run
            == p.held.run.push(byte) && p.step(byte).held.state == State::Sixel && p.step(byte).out
            == p.out,
        p.held.state == State::Sixel && p.held.run.len() >= 0x200_0000 ==> p.step(
            byte,
        ).held.run.len() == 0 && p.step(byte).held.state == State::SixelOverrun && p.step(byte).out
            == p.out && p.step(byte).pending == p.pending,
        p.held.state == State::SixelOverrun ==> p.step(byte) == p && p.step(27).held.state
            == State::SixelOverrunEscape && p.step(27).out == p.out && p.step(27).pending
            == p.pending,
        p.held.state == State::SixelOverrunEscape ==> p.step(92).out == p.out.push(
            Piece::Text(seq![27u8, 92u8]),
        ) && p.step(92).held.state == State::Text,
{
    reveal(Progress::step);
}

/// An escape ends a sixel image whatever follows it: the image is handed over,
/// and an escape that ended nothing is text, and what is behind it too.
pub proof fn an_escape_ends_an_image(p: Progress, byte: u8)
    requires
        p.held.state == State::SixelEscape || p.held.state == State::SixelOverrunEscape,
        p.held.sync == 0,
        p.held.cell_query == 0,
        byte != 27,
        byte != 92,
    ensures
        ({
            let after = p.step(byte);
            &&& p.held.state == State::SixelEscape ==> after.out == p.out.push(
                Piece::Text(seq![27u8, 92u8]),
            ).push(Piece::Sixel(p.held.run)).push(Piece::Text(seq![27u8]))
            &&& p.held.state == State::SixelOverrunEscape ==> after.out == p.out.push(
                Piece::Text(seq![27u8]),
            )
            &&& after.pending == p.pending.push(byte)
            &&& after.held.state == State::Text
        }),
        p.held.state == State::SixelEscape ==> p.step(92).out == p.out.push(
            Piece::Text(seq![27u8, 92u8]),
        ).push(Piece::Sixel(p.held.run)) && p.step(92).held.state == State::Text,
{
    reveal(Progress::step);
}

/// Sixty-four digits and semicolons are a sixel image's parameters, and one
/// more makes it none. Another letter than `q` makes it none as well.
pub proof fn parameters_are_so_many_digits(p: Progress, byte: u8)
    requires
        p.held.state == State::DcsHeader,
        p.held.sync == 0,
        p.held.cell_query == 0,
        byte != 27,
    ensures
        ({
            let after = p.step(byte);
            let is_one = 48 <= byte <= 57 || byte == 59;
            &&& is_one && p.held.run.len() < 64 ==> after.held.state == State::DcsHeader
                && after.held.run == p.held.run.push(byte)
            &&& is_one && p.held.run.len() >= 64 ==> after.held.state == State::Text
            &&& !is_one && byte != 113 ==> after.held.state == State::Text
            &&& byte == 113 ==> after.held.state == State::Sixel && after.held.run.len() == 0
                && after.out == p.out.push(Piece::Text(p.pending.push(113))) && after.pending.len()
                == 0
            &&& byte != 113 ==> after.out == p.out && after.pending == p.pending.push(byte)
        }),
{
    reveal(Progress::step);
}

} // verus!
