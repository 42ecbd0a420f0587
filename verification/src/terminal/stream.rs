//! What the pty stream means, byte by byte: the mathematical model that the
//! scanner's contracts speak of, and the laws that hold of it.

use vstd::prelude::*;

verus! {

pub const ESC: u8 = 0x1b;

pub const APC: u8 = 0x5f;

pub const DCS: u8 = 0x50;

pub const OSC: u8 = 0x5d;

pub const ST: u8 = 0x5c;

pub const BEL: u8 = 0x07;

pub const CAN: u8 = 0x18;

pub const SUB: u8 = 0x1a;

pub const COLON: u8 = 0x3a;

/// The most one APC run may carry before it is abandoned. The protocol chunks
/// payloads at 4096 base64 bytes, so a run far past that is a stream that lost
/// its terminator.
pub const MAX_RUN: usize = 0x1_0000;

/// The most an `OSC 1337` payload may carry before it is abandoned.
pub const MAX_OSC_PAYLOAD: usize = 0x600_0000;

/// The longest `OSC 1337` argument list kept.
pub const MAX_OSC_ARGS: usize = 4096;

/// The most sixel data one image may carry before it is abandoned.
pub const MAX_SIXEL: usize = 0x200_0000;

/// The longest DCS parameter string read while deciding on a sixel image.
pub const MAX_DCS_HEADER: usize = 64;

/// Which command an OSC header named.
#[derive(Debug, Clone, Copy, PartialEq, Eq, Structural)]
pub enum OscKind {
    /// `OSC 1337 ; File=`.
    File,
    /// `OSC 1337 ; MultipartFile=`.
    Begin,
    /// `OSC 1337 ; FilePart=`.
    Part,
    /// `OSC 1337 ; FileEnd`.
    End,
    /// `OSC 7`.
    FileUrl,
    /// `OSC 9 ; 9`.
    Path,
}

impl OscKind {
    /// The bytes after `ESC ]` that name the command.
    pub open spec fn header(self) -> Seq<u8> {
        match self {
            // 1337;File=
            OscKind::File => seq![0x31, 0x33, 0x33, 0x37, 0x3b, 0x46, 0x69, 0x6c, 0x65, 0x3d],
            // 1337;MultipartFile=
            OscKind::Begin => seq![
                0x31,
                0x33,
                0x33,
                0x37,
                0x3b,
                0x4d,
                0x75,
                0x6c,
                0x74,
                0x69,
                0x70,
                0x61,
                0x72,
                0x74,
                0x46,
                0x69,
                0x6c,
                0x65,
                0x3d,
            ],
            // 1337;FilePart=
            OscKind::Part => seq![
                0x31,
                0x33,
                0x33,
                0x37,
                0x3b,
                0x46,
                0x69,
                0x6c,
                0x65,
                0x50,
                0x61,
                0x72,
                0x74,
                0x3d,
            ],
            // 1337;FileEnd
            OscKind::End => seq![
                0x31,
                0x33,
                0x33,
                0x37,
                0x3b,
                0x46,
                0x69,
                0x6c,
                0x65,
                0x45,
                0x6e,
                0x64,
            ],
            // 7;
            OscKind::FileUrl => seq![0x37, 0x3b],
            // 9;9;
            OscKind::Path => seq![0x39, 0x3b, 0x39, 0x3b],
        }
    }
}

/// Where a scanner is in the stream between reads. A pty read ends wherever
/// the kernel filled the buffer, which is as likely to be inside an escape as
/// anywhere else.
#[derive(Debug, Clone, Copy, PartialEq, Eq, Structural)]
pub enum State {
    /// Passing bytes through.
    Text,
    /// An `ESC` arrived last, and what it introduces is the next byte.
    Escape,
    /// Inside an APC run, accumulating.
    Apc,
    /// Inside an APC run, and the last byte was the `ESC` of a possible `ST`.
    ApcEscape,
    /// Inside a run too long to be a graphics command: swallowed to its
    /// terminator so the payload never reaches the screen as text.
    Overrun,
    /// [`State::Overrun`] having just seen an `ESC`.
    OverrunEscape,
    /// After `ESC P`, reading a DCS's parameters to learn whether it is a
    /// sixel image. They pass through to the parser either way.
    DcsHeader,
    /// Inside a sixel image's data, accumulating.
    Sixel,
    /// [`State::Sixel`] having just seen an `ESC`.
    SixelEscape,
    /// Inside sixel data too long to keep: swallowed to its terminator.
    SixelOverrun,
    /// [`State::SixelOverrun`] having just seen an `ESC`.
    SixelOverrunEscape,
    /// After `ESC ]`, matching an OSC's start against the headers. It passes
    /// through to the parser either way.
    OscHeader,
    /// An OSC command's arguments, passing through as they are kept.
    OscArgs(OscKind),
    /// [`State::OscArgs`] having just seen an `ESC`.
    OscArgsEscape(OscKind),
    /// An `OSC 1337` payload, kept from the parser.
    OscPayload(OscKind),
    /// [`State::OscPayload`] having just seen an `ESC`.
    OscPayloadEscape(OscKind),
}

/// An `OSC 1337` command that carries a file, as mathematical values.
#[verifier::ext_equal]
pub enum FilePiece {
    File { args: Seq<u8>, payload: Seq<u8> },
    Begin { args: Seq<u8> },
    Part(Seq<u8>),
    End,
}

/// One run of the stream, as a mathematical value.
#[verifier::ext_equal]
pub enum Piece {
    Text(Seq<u8>),
    Graphics(Seq<u8>),
    Sync(bool),
    CellSizeQuery,
    Sixel(Seq<u8>),
    Iterm(FilePiece),
    Directory(Seq<u8>),
}

/// What a scanner holds between reads.
#[verifier::ext_equal]
pub struct Held {
    pub state: State,
    /// The bytes of the sequence being kept.
    pub run: Seq<u8>,
    /// Bytes of a BSU/ESU run matched so far.
    pub sync: nat,
    /// Bytes of a `CSI 16 t` matched so far.
    pub cell_query: nat,
    /// A file's arguments, held while its payload arrives.
    pub args: Seq<u8>,
    /// The payload arriving is too long and is being dropped.
    pub discard: bool,
}

/// Everything but the final `h`/`l` of `CSI ? 2026 h` and `CSI ? 2026 l`.
pub open spec fn sync_prefix() -> Seq<u8> {
    seq![0x1b, 0x5b, 0x3f, 0x32, 0x30, 0x32, 0x36]
}

/// XTWINOPS 16: report the cell size in pixels.
pub open spec fn cell_size_query() -> Seq<u8> {
    seq![0x1b, 0x5b, 0x31, 0x36, 0x74]
}

/// How many bytes of `pattern` are matched after `byte`, `matched` of them
/// having been matched before it. `ESC` stands at the start of a pattern and
/// nowhere else in it, so a byte that breaks a match can only start another.
pub open spec fn advance(pattern: Seq<u8>, matched: nat, byte: u8) -> nat {
    if matched < pattern.len() && byte == pattern[matched as int] {
        matched + 1
    } else if byte == pattern[0] {
        1
    } else {
        0
    }
}

/// What BSU/ESU byte `byte` completes, `matched` bytes of the prefix standing
/// before it.
pub open spec fn held_by(matched: nat, byte: u8) -> Option<bool> {
    if matched != sync_prefix().len() {
        None
    } else if byte == 0x68 {
        Some(true)
    } else if byte == 0x6c {
        Some(false)
    } else {
        None
    }
}

impl Held {
    /// A scanner that has seen nothing.
    pub open spec fn fresh() -> Held {
        Held {
            state: State::Text,
            run: Seq::empty(),
            sync: 0,
            cell_query: 0,
            args: Seq::empty(),
            discard: false,
        }
    }

    /// The most the run may hold in this state.
    pub open spec fn run_limit(self) -> nat {
        match self.state {
            State::Apc | State::ApcEscape => MAX_RUN as nat,
            State::DcsHeader => MAX_DCS_HEADER as nat,
            State::Sixel | State::SixelEscape => MAX_SIXEL as nat,
            State::OscHeader => 19,
            State::OscArgs(_) | State::OscArgsEscape(_) => MAX_OSC_ARGS as nat,
            State::OscPayload(_) | State::OscPayloadEscape(_) => if self.discard {
                0
            } else {
                MAX_OSC_PAYLOAD as nat
            },
            _ => 0,
        }
    }

    /// Whether what arrives goes through to the parser.
    pub open spec fn passes(self) -> bool {
        match self.state {
            State::Text
            | State::DcsHeader
            | State::OscHeader
            | State::OscArgs(_)
            | State::OscArgsEscape(_) => true,
            _ => false,
        }
    }

    /// Whether a payload is arriving.
    pub open spec fn in_payload(self) -> bool {
        self.state matches State::OscPayload(_) || self.state matches State::OscPayloadEscape(_)
    }

    /// What holds of a scanner between any two bytes: it keeps no more than
    /// the sequence it is in may carry, and nothing outside of one.
    pub open spec fn wf(self) -> bool {
        &&& self.sync <= sync_prefix().len()
        &&& self.cell_query < cell_size_query().len()
        &&& self.run.len() <= self.run_limit()
        &&& self.args.len() <= MAX_OSC_ARGS
        &&& !self.in_payload() ==> self.args.len() == 0 && !self.discard
        &&& self.state != State::OscPayload(OscKind::File)
            && self.state != State::OscPayloadEscape(OscKind::File) ==> self.args.len() == 0
    }

    /// The BSU/ESU match after `byte`.
    pub open spec fn synced(self, byte: u8) -> nat {
        if self.sync == sync_prefix().len() {
            advance(sync_prefix(), 0, byte)
        } else {
            advance(sync_prefix(), self.sync, byte)
        }
    }

    /// Whether `byte` completes a `CSI 16 t`.
    pub open spec fn asks(self, byte: u8) -> bool {
        advance(cell_size_query(), self.cell_query, byte) == cell_size_query().len()
    }

    /// The `CSI 16 t` match after `byte`.
    pub open spec fn queried(self, byte: u8) -> nat {
        if self.asks(byte) {
            0
        } else {
            advance(cell_size_query(), self.cell_query, byte)
        }
    }

    pub open spec fn to(self, state: State) -> Held {
        Held { state, ..self }
    }

    pub open spec fn keep(self, byte: u8) -> Held {
        Held { run: self.run.push(byte), ..self }
    }

    /// The run is over or not worth keeping.
    pub open spec fn clear(self) -> Held {
        Held { run: Seq::empty(), ..self }
    }

    /// An `ESC` that opens a string sequence counts toward no match.
    pub open spec fn unmatched(self) -> Held {
        Held { sync: 0, cell_query: 0, ..self }
    }
}

/// The command whose header `run` is.
pub open spec fn named(run: Seq<u8>) -> Option<OscKind> {
    if run == OscKind::File.header() {
        Some(OscKind::File)
    } else if run == OscKind::Begin.header() {
        Some(OscKind::Begin)
    } else if run == OscKind::Part.header() {
        Some(OscKind::Part)
    } else if run == OscKind::End.header() {
        Some(OscKind::End)
    } else if run == OscKind::FileUrl.header() {
        Some(OscKind::FileUrl)
    } else if run == OscKind::Path.header() {
        Some(OscKind::Path)
    } else {
        None
    }
}

/// Whether `run` starts `header`.
pub open spec fn starts(run: Seq<u8>, header: Seq<u8>) -> bool {
    run.len() <= header.len() && run == header.subrange(0, run.len() as int)
}

/// Whether some header starts with `run`.
pub open spec fn may_name(run: Seq<u8>) -> bool {
    exists|kind: OscKind| starts(run, #[trigger] kind.header())
}

pub open spec fn is_hex(byte: u8) -> bool {
    0x30 <= byte <= 0x39 || 0x41 <= byte <= 0x46 || 0x61 <= byte <= 0x66
}

pub open spec fn hex_value(byte: u8) -> int {
    if byte <= 0x39 {
        byte - 0x30
    } else if byte <= 0x46 {
        byte - 0x41 + 10
    } else {
        byte - 0x61 + 10
    }
}

/// The byte that two hexadecimal digits after a `%` stand for.
pub open spec fn escaped(high: u8, low: u8) -> Option<u8> {
    if is_hex(high) && is_hex(low) {
        Some((hex_value(high) * 16 + hex_value(low)) as u8)
    } else {
        None
    }
}

/// `path` with its percent escapes decoded; a `%` that starts none stands for
/// itself.
pub open spec fn decoded(path: Seq<u8>) -> Seq<u8>
    decreases path.len(),
{
    if path.len() == 0 {
        Seq::empty()
    } else if path[0] == 0x25 && path.len() >= 3 && escaped(path[1], path[2]) is Some {
        seq![escaped(path[1], path[2])->0] + decoded(path.subrange(3, path.len() as int))
    } else {
        seq![path[0]] + decoded(path.subrange(1, path.len() as int))
    }
}

pub open spec fn is_letter(byte: u8) -> bool {
    0x41 <= byte <= 0x5a || 0x61 <= byte <= 0x7a
}

/// A Windows drive path arrives as `/C:/...` and loses the leading slash.
pub open spec fn undrived(path: Seq<u8>) -> Seq<u8> {
    if path.len() >= 3 && path[0] == 0x2f && is_letter(path[1]) && path[2] == COLON {
        path.subrange(1, path.len() as int)
    } else {
        path
    }
}

/// The scheme and slashes a directory report starts with, `file://`.
pub open spec fn file_scheme() -> Seq<u8> {
    seq![0x66, 0x69, 0x6c, 0x65, 0x3a, 0x2f, 0x2f]
}

/// Where `byte` first stands in `bytes`, or their length.
pub open spec fn first_at(bytes: Seq<u8>, byte: u8) -> int
    decreases bytes.len(),
{
    if bytes.len() == 0 || bytes[0] == byte {
        0
    } else {
        1 + first_at(bytes.subrange(1, bytes.len() as int), byte)
    }
}

/// The path of a `file://host/path` URL.
pub open spec fn url_path(url: Seq<u8>) -> Option<Seq<u8>> {
    if !starts(file_scheme(), url) {
        None
    } else {
        let rest = url.subrange(7, url.len() as int);
        let slash = first_at(rest, 0x2f);
        if slash == rest.len() {
            None
        } else {
            nonempty(undrived(decoded(rest.subrange(slash, rest.len() as int))))
        }
    }
}

/// A path with the quotes around it taken off.
pub open spec fn unquoted(path: Seq<u8>) -> Seq<u8> {
    if path.len() >= 2 && path[0] == 0x22 && path.last() == 0x22 {
        path.subrange(1, path.len() - 1)
    } else {
        path
    }
}

/// The path a report names, none being named by no bytes.
pub open spec fn nonempty(path: Seq<u8>) -> Option<Seq<u8>> {
    if path.len() == 0 {
        None
    } else {
        Some(path)
    }
}

/// What an OSC command of this kind reports once its arguments are over.
pub open spec fn reported(kind: OscKind, args: Seq<u8>) -> Seq<Piece> {
    match kind {
        OscKind::Begin => seq![Piece::Iterm(FilePiece::Begin { args })],
        OscKind::End => seq![Piece::Iterm(FilePiece::End)],
        OscKind::FileUrl => match url_path(args) {
            Some(path) => seq![Piece::Directory(path)],
            None => Seq::empty(),
        },
        OscKind::Path => match nonempty(unquoted(args)) {
            Some(path) => seq![Piece::Directory(path)],
            None => Seq::empty(),
        },
        // A file with no `:` has nothing to show.
        OscKind::File | OscKind::Part => Seq::empty(),
    }
}

/// What a payload reports once it is over.
pub open spec fn delivered(kind: OscKind, held: Held) -> Seq<Piece> {
    if held.discard {
        Seq::empty()
    } else {
        match kind {
            OscKind::File => seq![
                Piece::Iterm(FilePiece::File { args: held.args, payload: held.run }),
            ],
            OscKind::Part => seq![Piece::Iterm(FilePiece::Part(held.run))],
            _ => Seq::empty(),
        }
    }
}

/// A read in progress: what is held, what has been reported, and the text
/// passed through since the last report.
#[verifier::ext_equal]
pub struct Progress {
    pub held: Held,
    pub pending: Seq<u8>,
    pub out: Seq<Piece>,
}

impl Progress {
    pub open spec fn begin(held: Held) -> Progress {
        Progress { held, pending: Seq::empty(), out: Seq::empty() }
    }

    pub open spec fn hold(self, held: Held) -> Progress {
        Progress { held, ..self }
    }

    /// A byte passed through.
    pub open spec fn pass(self, byte: u8) -> Progress {
        Progress { pending: self.pending.push(byte), ..self }
    }

    /// The text passed through so far becomes a run of its own.
    pub open spec fn flush(self) -> Progress {
        if self.pending.len() == 0 {
            self
        } else {
            Progress {
                pending: Seq::empty(),
                out: self.out.push(Piece::Text(self.pending)),
                ..self
            }
        }
    }

    pub open spec fn emit(self, piece: Piece) -> Progress {
        Progress { out: self.out.push(piece), ..self }
    }

    pub open spec fn emit_all(self, pieces: Seq<Piece>) -> Progress {
        Progress { out: self.out + pieces, ..self }
    }

    /// A byte of ordinary text.
    pub open spec fn text_step(self, byte: u8) -> Progress {
        let held = Held {
            sync: self.held.synced(byte),
            cell_query: self.held.queried(byte),
            ..self.held
        };
        let hold = held_by(self.held.sync, byte);
        if byte == ESC {
            self.flush().hold(held.to(State::Escape))
        } else if hold is Some {
            self.hold(held).pass(byte).flush().emit(Piece::Sync(hold->0))
        } else if self.held.asks(byte) {
            self.hold(held).pass(byte).flush().emit(Piece::CellSizeQuery)
        } else {
            self.hold(held).pass(byte)
        }
    }

    /// The byte after an `ESC`.
    pub open spec fn escape_step(self, byte: u8) -> Progress {
        let held = self.held.unmatched();
        if byte == APC {
            self.hold(held.to(State::Apc))
        } else if byte == OSC {
            self.hold(held.clear().to(State::OscHeader)).emit(Piece::Text(seq![ESC, OSC]))
        } else if byte == DCS {
            self.hold(held.clear().to(State::DcsHeader)).emit(Piece::Text(seq![ESC, DCS]))
        } else {
            // Not a sequence of ours: the `ESC` is handed back on its own.
            self.emit(Piece::Text(seq![ESC])).hold(self.held.to(State::Text)).text_step(byte)
        }
    }

    /// A byte of an APC run, `held` being what is kept before it.
    pub open spec fn apc_keep(self, held: Held, byte: u8) -> Progress {
        if byte == BEL {
            self.hold(held.clear().to(State::Text)).emit(Piece::Graphics(held.run))
        } else {
            let kept = if byte == ESC {
                held.to(State::ApcEscape)
            } else {
                held.keep(byte).to(State::Apc)
            };
            self.hold(
                if kept.run.len() > MAX_RUN {
                    kept.clear().to(State::Overrun)
                } else {
                    kept
                },
            )
        }
    }

    /// A byte inside an APC run. A lone `ESC` is part of it: only `ESC \` and
    /// `BEL` end the run.
    pub open spec fn apc_step(self, byte: u8) -> Progress {
        if self.held.state == State::Apc {
            self.apc_keep(self.held, byte)
        } else if byte == ST {
            self.hold(self.held.clear().to(State::Text)).emit(Piece::Graphics(self.held.run))
        } else {
            self.apc_keep(self.held.keep(ESC), byte)
        }
    }

    /// A byte of an APC run too long to keep.
    pub open spec fn overrun_step(self, byte: u8) -> Progress {
        self.hold(
            self.held.to(
                if byte == BEL || (byte == ST && self.held.state == State::OverrunEscape) {
                    State::Text
                } else if byte == ESC {
                    State::OverrunEscape
                } else {
                    State::Overrun
                },
            ),
        )
    }

    /// A byte of an OSC's header.
    pub open spec fn osc_header_step(self, byte: u8) -> Progress {
        let run = self.held.run.push(byte);
        match named(run) {
            Some(OscKind::Part) => self.hold(
                Held { discard: false, ..self.held.clear() }.to(State::OscPayload(OscKind::Part)),
            ).pass(byte).flush(),
            Some(kind) => self.hold(self.held.clear().to(State::OscArgs(kind))).pass(byte),
            None => if may_name(run) {
                self.hold(self.held.keep(byte)).pass(byte)
            } else {
                self.hold(self.held.clear().to(State::Text)).text_step(byte)
            },
        }
    }

    /// The end of an OSC command that carries no payload.
    pub open spec fn end_args(self, kind: OscKind, byte: u8) -> Progress {
        self.hold(self.held.clear().to(State::Text)).pass(byte).flush().emit_all(
            reported(kind, self.held.run),
        )
    }

    /// A byte of an OSC's arguments.
    pub open spec fn osc_args_step(self, kind: OscKind, byte: u8) -> Progress {
        if byte == COLON && kind == OscKind::File {
            self.hold(
                Held { args: self.held.run, discard: false, ..self.held.clear() }.to(
                    State::OscPayload(kind),
                ),
            ).pass(byte).flush()
        } else if byte == BEL {
            self.end_args(kind, byte)
        } else if byte == ESC {
            self.hold(self.held.to(State::OscArgsEscape(kind))).pass(byte)
        } else if self.held.run.len() < MAX_OSC_ARGS {
            self.hold(self.held.keep(byte)).pass(byte)
        } else {
            self.hold(self.held.clear().to(State::Text)).text_step(byte)
        }
    }

    pub open spec fn osc_args_escape_step(self, kind: OscKind, byte: u8) -> Progress {
        if byte == ST {
            self.end_args(kind, byte)
        } else {
            self.hold(self.held.clear().to(State::Text)).text_step(byte)
        }
    }

    /// The end of a payload. The parser leaves its OSC before the file lands.
    pub open spec fn end_payload(self, kind: OscKind, terminator: Seq<u8>) -> Progress {
        self.emit(Piece::Text(terminator)).emit_all(delivered(kind, self.held)).hold(
            Held { args: Seq::empty(), discard: false, ..self.held.clear() }.to(State::Text),
        )
    }

    /// A byte of a payload.
    pub open spec fn osc_payload_step(self, kind: OscKind, byte: u8) -> Progress {
        if byte == BEL {
            self.end_payload(kind, seq![BEL])
        } else if byte == ESC {
            self.hold(self.held.to(State::OscPayloadEscape(kind)))
        } else if self.held.discard {
            self
        } else if self.held.run.len() >= MAX_OSC_PAYLOAD {
            self.hold(Held { discard: true, ..self.held.clear() })
        } else {
            self.hold(self.held.keep(byte))
        }
    }

    pub open spec fn osc_payload_escape_step(self, kind: OscKind, byte: u8) -> Progress {
        let ended = self.end_payload(kind, seq![ESC, ST]);
        if byte == ST {
            ended
        } else {
            ended.emit(Piece::Text(seq![ESC])).text_step(byte)
        }
    }

    /// A byte of a DCS's parameters.
    pub open spec fn dcs_header_step(self, byte: u8) -> Progress {
        if (0x30 <= byte <= 0x39 || byte == 0x3b) && self.held.run.len() < MAX_DCS_HEADER {
            self.hold(self.held.keep(byte)).pass(byte)
        } else if byte == 0x71 {
            self.hold(self.held.clear().to(State::Sixel)).pass(byte).flush()
        } else {
            self.hold(self.held.clear().to(State::Text)).text_step(byte)
        }
    }

    /// A byte of a sixel image's data. An escape ends a DCS whatever follows
    /// it, and `CAN` and `SUB` abandon the sequence.
    pub open spec fn sixel_step(self, byte: u8) -> Progress {
        if self.held.state == State::SixelEscape {
            let ended = self.emit(Piece::Text(seq![ESC, ST])).emit(
                Piece::Sixel(self.held.run),
            ).hold(self.held.clear().to(State::Text));
            if byte == ST {
                ended
            } else {
                ended.emit(Piece::Text(seq![ESC])).text_step(byte)
            }
        } else if byte == ESC {
            self.hold(self.held.to(State::SixelEscape))
        } else if byte == CAN || byte == SUB {
            self.hold(self.held.clear().to(State::Text)).text_step(byte)
        } else if self.held.run.len() < MAX_SIXEL {
            self.hold(self.held.keep(byte))
        } else {
            self.hold(self.held.clear().to(State::SixelOverrun))
        }
    }

    /// A byte of sixel data too long to keep.
    pub open spec fn sixel_overrun_step(self, byte: u8) -> Progress {
        if self.held.state == State::SixelOverrunEscape {
            let ended = self.hold(self.held.to(State::Text));
            if byte == ST {
                ended.emit(Piece::Text(seq![ESC, ST]))
            } else {
                ended.emit(Piece::Text(seq![ESC])).text_step(byte)
            }
        } else if byte == ESC {
            self.hold(self.held.to(State::SixelOverrunEscape))
        } else if byte == CAN || byte == SUB {
            self.hold(self.held.to(State::Text)).text_step(byte)
        } else {
            self
        }
    }

    /// One byte of the stream.
    #[verifier::opaque]
    pub open spec fn step(self, byte: u8) -> Progress {
        match self.held.state {
            State::Text => self.text_step(byte),
            State::Escape => self.escape_step(byte),
            State::Apc | State::ApcEscape => self.apc_step(byte),
            State::Overrun | State::OverrunEscape => self.overrun_step(byte),
            State::DcsHeader => self.dcs_header_step(byte),
            State::Sixel | State::SixelEscape => self.sixel_step(byte),
            State::SixelOverrun | State::SixelOverrunEscape => self.sixel_overrun_step(byte),
            State::OscHeader => self.osc_header_step(byte),
            State::OscArgs(kind) => self.osc_args_step(kind, byte),
            State::OscArgsEscape(kind) => self.osc_args_escape_step(kind, byte),
            State::OscPayload(kind) => self.osc_payload_step(kind, byte),
            State::OscPayloadEscape(kind) => self.osc_payload_escape_step(kind, byte),
        }
    }

    /// Every byte of `bytes`, in order.
    pub open spec fn read(self, bytes: Seq<u8>) -> Progress
        decreases bytes.len(),
    {
        if bytes.len() == 0 {
            self
        } else {
            self.read(bytes.drop_last()).step(bytes.last())
        }
    }
}

/// What a listener to the stream sees: single bytes of text, and the reports
/// between them.
#[verifier::ext_equal]
pub enum Heard {
    Byte(u8),
    Report(Piece),
}

/// What one run says to a listener.
pub open spec fn events_of(piece: Piece) -> Seq<Heard> {
    match piece {
        Piece::Text(bytes) => bytes.map_values(|byte: u8| Heard::Byte(byte)),
        _ => seq![Heard::Report(piece)],
    }
}

/// What the runs say to a listener, wherever text was cut into runs.
pub open spec fn events(out: Seq<Piece>) -> Seq<Heard>
    decreases out.len(),
{
    if out.len() == 0 {
        Seq::empty()
    } else {
        events(out.drop_last()) + events_of(out.last())
    }
}

impl Progress {
    /// What has been said so far, text not yet cut into a run included.
    pub open spec fn said(self) -> Seq<Heard> {
        events(self.out) + events_of(Piece::Text(self.pending))
    }

    /// Text waits only in a state that passes it through.
    pub open spec fn wf(self) -> bool {
        &&& self.held.wf()
        &&& self.held.passes() || self.pending.len() == 0
    }
}

proof fn lemma_said_push(out: Seq<Piece>, piece: Piece)
    ensures
        events(out.push(piece)) == events(out) + events_of(piece),
{
    assert(out.push(piece).drop_last() =~= out);
}

proof fn lemma_flush(p: Progress)
    ensures
        p.flush().said() == p.said(),
        p.flush().pending.len() == 0,
        p.flush().held == p.held,
        events(p.flush().out) == p.said(),
{
    lemma_said_push(p.out, Piece::Text(p.pending));
    assert(events_of(Piece::Text(Seq::empty())) =~= Seq::empty());
    if p.pending.len() == 0 {
        assert(p.pending =~= Seq::empty());
        assert(p.said() =~= events(p.out));
    } else {
        assert(p.flush().said() =~= p.said());
    }
}

proof fn lemma_pass(p: Progress, byte: u8)
    ensures
        p.pass(byte).said() == p.said().push(Heard::Byte(byte)),
{
    assert(events_of(Piece::Text(p.pending.push(byte))) =~= events_of(Piece::Text(p.pending)).push(
        Heard::Byte(byte),
    ));
    assert(p.pass(byte).said() =~= p.said().push(Heard::Byte(byte)));
}

proof fn lemma_emit(p: Progress, piece: Piece)
    requires
        p.pending.len() == 0,
    ensures
        p.emit(piece).said() == p.said() + events_of(piece),
{
    lemma_said_push(p.out, piece);
    assert(p.pending =~= Seq::empty());
    assert(events_of(Piece::Text(Seq::empty())) =~= Seq::empty());
    assert(p.emit(piece).said() =~= p.said() + events_of(piece));
}

proof fn lemma_emit_all(p: Progress, more: Seq<Piece>)
    requires
        p.pending.len() == 0,
        more.len() <= 1,
    ensures
        p.emit_all(more).said() == p.said() + events(more),
{
    if more.len() == 0 {
        assert(p.out + more =~= p.out);
        assert(p.said() + events(more) =~= p.said());
    } else {
        assert(p.out + more =~= p.out.push(more[0]));
        lemma_emit(p, more[0]);
        assert(events(more.drop_last()) =~= Seq::empty());
        assert(events(more) =~= events_of(more[0]));
    }
}

/// What one byte adds to what is said, and what is held after it, depend on
/// nothing but what was held before it.
proof fn lemma_text_step(p: Progress, byte: u8)
    requires
        p.held.wf(),
        p.held.state == State::Text,
    ensures
        p.text_step(byte).wf(),
        p.text_step(byte).held == Progress::begin(p.held).text_step(byte).held,
        p.text_step(byte).said() == p.said() + Progress::begin(p.held).text_step(byte).said(),
{
    let q = Progress::begin(p.held);
    lemma_said_nothing(p.held);
    let held = Held {
        sync: p.held.synced(byte),
        cell_query: p.held.queried(byte),
        ..p.held
    };
    lemma_flush(p);
    lemma_flush(q);
    if byte == ESC {
        assert(p.text_step(byte).said() =~= p.said());
    } else {
        lemma_pass(p.hold(held), byte);
        lemma_pass(q.hold(held), byte);
        lemma_flush(p.hold(held).pass(byte));
        lemma_flush(q.hold(held).pass(byte));
        let report = if held_by(p.held.sync, byte) is Some {
            Piece::Sync(held_by(p.held.sync, byte)->0)
        } else {
            Piece::CellSizeQuery
        };
        lemma_emit(p.hold(held).pass(byte).flush(), report);
        lemma_emit(q.hold(held).pass(byte).flush(), report);
        assert(p.hold(held).said() == p.said());
        assert(q.hold(held).said() =~= Seq::empty());
        assert(p.text_step(byte).said() =~= p.said() + q.text_step(byte).said());
    }
}

proof fn lemma_said_nothing(held: Held)
    ensures
        Progress::begin(held).said() == Seq::<Heard>::empty(),
{
    assert(Progress::begin(held).said() =~= Seq::empty());
}

/// As [`lemma_text_step`], for a step that ends a sequence and then reads the
/// byte as text.
proof fn lemma_then_text(p: Progress, ended: Progress, from: Progress, byte: u8)
    requires
        ended.held.wf(),
        ended.held.state == State::Text,
        from.held == ended.held,
        ended.said() == p.said() + from.said(),
    ensures
        ended.text_step(byte).wf(),
        ended.text_step(byte).held == from.text_step(byte).held,
        ended.text_step(byte).said() == p.said() + from.text_step(byte).said(),
{
    lemma_text_step(ended, byte);
    lemma_text_step(from, byte);
    assert(ended.text_step(byte).said() =~= p.said() + from.text_step(byte).said());
}

/// The step for every state but those of an OSC.
proof fn lemma_plain_step(p: Progress, byte: u8)
    requires
        p.wf(),
        !(p.held.state is OscHeader),
        !(p.held.state is OscArgs),
        !(p.held.state is OscArgsEscape),
        !(p.held.state is OscPayload),
        !(p.held.state is OscPayloadEscape),
    ensures
        p.step(byte).wf(),
        p.step(byte).held == Progress::begin(p.held).step(byte).held,
        p.step(byte).said() == p.said() + Progress::begin(p.held).step(byte).said(),
{
    reveal(Progress::step);
    let q = Progress::begin(p.held);
    lemma_said_nothing(p.held);
    assert(p.said() + q.said() =~= p.said());
    match p.held.state {
        State::Text => {
            lemma_text_step(p, byte);
        },
        State::Escape => {
            lemma_emit(p, Piece::Text(seq![ESC, OSC]));
            lemma_emit(q, Piece::Text(seq![ESC, OSC]));
            lemma_emit(p, Piece::Text(seq![ESC, DCS]));
            lemma_emit(q, Piece::Text(seq![ESC, DCS]));
            lemma_emit(p, Piece::Text(seq![ESC]));
            lemma_emit(q, Piece::Text(seq![ESC]));
            let held = p.held.to(State::Text);
            let ended = p.emit(Piece::Text(seq![ESC])).hold(held);
            let from = q.emit(Piece::Text(seq![ESC])).hold(held);
            assert(ended.said() == p.emit(Piece::Text(seq![ESC])).said());
            assert(from.said() == q.emit(Piece::Text(seq![ESC])).said());
            assert(ended.said() =~= p.said() + from.said());
            lemma_then_text(p, ended, from, byte);
            assert(p.step(byte).said() =~= p.said() + q.step(byte).said());
        },
        State::Apc | State::ApcEscape => {
            let run = p.held.run;
            lemma_emit(p, Piece::Graphics(run));
            lemma_emit(q, Piece::Graphics(run));
            lemma_emit(p, Piece::Graphics(run.push(ESC)));
            lemma_emit(q, Piece::Graphics(run.push(ESC)));
            assert(p.step(byte).said() =~= p.said() + q.step(byte).said());
        },
        State::Overrun | State::OverrunEscape => {
            assert(p.step(byte).said() =~= p.said() + q.step(byte).said());
        },
        State::DcsHeader => {
            lemma_pass(p, byte);
            lemma_pass(q, byte);
            lemma_flush(p.pass(byte));
            lemma_flush(q.pass(byte));
            let held = p.held.clear().to(State::Text);
            assert(p.hold(held).said() =~= p.said() + q.hold(held).said());
            lemma_then_text(p, p.hold(held), q.hold(held), byte);
            let sixel = p.held.clear().to(State::Sixel);
            assert(p.hold(sixel).pass(byte).flush().said() == p.pass(byte).flush().said());
            assert(q.hold(sixel).pass(byte).flush().said() == q.pass(byte).flush().said());
            assert(p.step(byte).said() =~= p.said() + q.step(byte).said());
        },
        State::Sixel | State::SixelEscape => {
            let data = Piece::Sixel(p.held.run);
            lemma_emit(p, Piece::Text(seq![ESC, ST]));
            lemma_emit(q, Piece::Text(seq![ESC, ST]));
            lemma_emit(p.emit(Piece::Text(seq![ESC, ST])), data);
            lemma_emit(q.emit(Piece::Text(seq![ESC, ST])), data);
            let held = p.held.clear().to(State::Text);
            let p1 = p.emit(Piece::Text(seq![ESC, ST])).emit(data).hold(held);
            let q1 = q.emit(Piece::Text(seq![ESC, ST])).emit(data).hold(held);
            assert(p1.said() == p.emit(Piece::Text(seq![ESC, ST])).emit(data).said());
            assert(q1.said() == q.emit(Piece::Text(seq![ESC, ST])).emit(data).said());
            assert(p1.said() =~= p.said() + q1.said());
            lemma_emit(p1, Piece::Text(seq![ESC]));
            lemma_emit(q1, Piece::Text(seq![ESC]));
            let p2 = p1.emit(Piece::Text(seq![ESC]));
            let q2 = q1.emit(Piece::Text(seq![ESC]));
            assert(p2.said() =~= p.said() + q2.said());
            lemma_then_text(p, p2, q2, byte);
            assert(p.hold(held).said() =~= p.said() + q.hold(held).said());
            lemma_then_text(p, p.hold(held), q.hold(held), byte);
            assert(p.step(byte).said() =~= p.said() + q.step(byte).said());
        },
        State::SixelOverrun | State::SixelOverrunEscape => {
            let held = p.held.to(State::Text);
            assert(p.hold(held).said() =~= p.said() + q.hold(held).said());
            lemma_emit(p.hold(held), Piece::Text(seq![ESC, ST]));
            lemma_emit(q.hold(held), Piece::Text(seq![ESC, ST]));
            lemma_emit(p.hold(held), Piece::Text(seq![ESC]));
            lemma_emit(q.hold(held), Piece::Text(seq![ESC]));
            let p2 = p.hold(held).emit(Piece::Text(seq![ESC]));
            let q2 = q.hold(held).emit(Piece::Text(seq![ESC]));
            assert(p2.said() =~= p.said() + q2.said());
            lemma_then_text(p, p2, q2, byte);
            lemma_then_text(p, p.hold(held), q.hold(held), byte);
            assert(p.step(byte).said() =~= p.said() + q.step(byte).said());
        },
        _ => {},
    }
}

proof fn lemma_end_args(p: Progress, kind: OscKind, byte: u8)
    requires
        p.held.wf(),
        !p.held.in_payload(),
    ensures
        p.end_args(kind, byte).wf(),
        p.end_args(kind, byte).held == Progress::begin(p.held).end_args(kind, byte).held,
        p.end_args(kind, byte).said() == p.said() + Progress::begin(p.held).end_args(
            kind,
            byte,
        ).said(),
{
    let q = Progress::begin(p.held);
    lemma_said_nothing(p.held);
    let held = p.held.clear().to(State::Text);
    let report = reported(kind, p.held.run);
    lemma_pass(p.hold(held), byte);
    lemma_pass(q.hold(held), byte);
    lemma_flush(p.hold(held).pass(byte));
    lemma_flush(q.hold(held).pass(byte));
    lemma_emit_all(p.hold(held).pass(byte).flush(), report);
    lemma_emit_all(q.hold(held).pass(byte).flush(), report);
    assert(p.hold(held).said() == p.said());
    assert(q.hold(held).said() == q.said());
    assert(p.end_args(kind, byte).said() =~= p.said() + q.end_args(kind, byte).said());
}

proof fn lemma_end_payload(p: Progress, kind: OscKind, terminator: Seq<u8>)
    requires
        p.wf(),
        p.pending.len() == 0,
    ensures
        p.end_payload(kind, terminator).wf(),
        p.end_payload(kind, terminator).pending.len() == 0,
        p.end_payload(kind, terminator).held == Progress::begin(p.held).end_payload(
            kind,
            terminator,
        ).held,
        p.end_payload(kind, terminator).said() == p.said() + Progress::begin(p.held).end_payload(
            kind,
            terminator,
        ).said(),
{
    let q = Progress::begin(p.held);
    lemma_said_nothing(p.held);
    let more = delivered(kind, p.held);
    lemma_emit(p, Piece::Text(terminator));
    lemma_emit(q, Piece::Text(terminator));
    let p1 = p.emit(Piece::Text(terminator));
    let q1 = q.emit(Piece::Text(terminator));
    lemma_emit_all(p1, more);
    lemma_emit_all(q1, more);
    assert(p.end_payload(kind, terminator).said() == p1.emit_all(more).said());
    assert(q.end_payload(kind, terminator).said() == q1.emit_all(more).said());
    assert(p.end_payload(kind, terminator).said() =~= p.said() + q.end_payload(
        kind,
        terminator,
    ).said());
}

/// The longest header has nineteen bytes.
proof fn lemma_may_name(run: Seq<u8>)
    ensures
        may_name(run) ==> run.len() <= 19,
{
    if may_name(run) {
        let kind = choose|kind: OscKind| starts(run, #[trigger] kind.header());
        match kind {
            OscKind::File => {},
            OscKind::Begin => {},
            OscKind::Part => {},
            OscKind::End => {},
            OscKind::FileUrl => {},
            OscKind::Path => {},
        }
    }
}

/// The step for the states of an OSC.
proof fn lemma_osc_step(p: Progress, byte: u8)
    requires
        p.wf(),
        p.held.state is OscHeader || p.held.state is OscArgs || p.held.state is OscArgsEscape
            || p.held.state is OscPayload || p.held.state is OscPayloadEscape,
    ensures
        p.step(byte).wf(),
        p.step(byte).held == Progress::begin(p.held).step(byte).held,
        p.step(byte).said() == p.said() + Progress::begin(p.held).step(byte).said(),
{
    reveal(Progress::step);
    let q = Progress::begin(p.held);
    lemma_said_nothing(p.held);
    assert(p.said() + q.said() =~= p.said());
    lemma_pass(p, byte);
    lemma_pass(q, byte);
    lemma_flush(p.pass(byte));
    lemma_flush(q.pass(byte));
    let text = p.held.clear().to(State::Text);
    assert(p.hold(text).said() =~= p.said() + q.hold(text).said());
    match p.held.state {
        State::OscHeader => {
            lemma_may_name(p.held.run.push(byte));
            lemma_then_text(p, p.hold(text), q.hold(text), byte);
            let part = Held { discard: false, ..p.held.clear() }.to(
                State::OscPayload(OscKind::Part),
            );
            assert(p.hold(part).pass(byte).flush().said() == p.pass(byte).flush().said());
            assert(q.hold(part).pass(byte).flush().said() == q.pass(byte).flush().said());
            assert(p.step(byte).said() =~= p.said() + q.step(byte).said());
        },
        State::OscArgs(kind) => {
            lemma_then_text(p, p.hold(text), q.hold(text), byte);
            lemma_end_args(p, kind, byte);
            let file = Held { args: p.held.run, discard: false, ..p.held.clear() }.to(
                State::OscPayload(kind),
            );
            assert(p.hold(file).pass(byte).flush().said() == p.pass(byte).flush().said());
            assert(q.hold(file).pass(byte).flush().said() == q.pass(byte).flush().said());
            assert(p.step(byte).said() =~= p.said() + q.step(byte).said());
        },
        State::OscArgsEscape(kind) => {
            lemma_then_text(p, p.hold(text), q.hold(text), byte);
            lemma_end_args(p, kind, byte);
        },
        State::OscPayload(kind) => {
            lemma_end_payload(p, kind, seq![BEL]);
            assert(p.step(byte).said() =~= p.said() + q.step(byte).said());
        },
        State::OscPayloadEscape(kind) => {
            lemma_end_payload(p, kind, seq![ESC, ST]);
            let p1 = p.end_payload(kind, seq![ESC, ST]);
            let q1 = q.end_payload(kind, seq![ESC, ST]);
            lemma_emit(p1, Piece::Text(seq![ESC]));
            lemma_emit(q1, Piece::Text(seq![ESC]));
            let p2 = p1.emit(Piece::Text(seq![ESC]));
            let q2 = q1.emit(Piece::Text(seq![ESC]));
            assert(p2.said() =~= p.said() + q2.said());
            lemma_then_text(p, p2, q2, byte);
        },
        _ => {},
    }
}

/// What one byte adds to what is said, and what is held after it, depend on
/// nothing but what was held before it.
pub proof fn step_depends_on_held(p: Progress, byte: u8)
    requires
        p.wf(),
    ensures
        p.step(byte).wf(),
        p.step(byte).held == Progress::begin(p.held).step(byte).held,
        p.step(byte).said() == p.said() + Progress::begin(p.held).step(byte).said(),
{
    if p.held.state is OscHeader || p.held.state is OscArgs || p.held.state is OscArgsEscape
        || p.held.state is OscPayload || p.held.state is OscPayloadEscape {
        lemma_osc_step(p, byte);
    } else {
        lemma_plain_step(p, byte);
    }
}

/// However much of the stream has been read, a scanner keeps no more than the
/// sequence it is in may carry, and nothing outside of one.
pub proof fn read_keeps_bounds(p: Progress, bytes: Seq<u8>)
    requires
        p.wf(),
    ensures
        p.read(bytes).wf(),
    decreases bytes.len(),
{
    if bytes.len() > 0 {
        read_keeps_bounds(p, bytes.drop_last());
        step_depends_on_held(p.read(bytes.drop_last()), bytes.last());
    }
}

/// As [`step_depends_on_held`], for any number of bytes.
pub proof fn read_depends_on_held(p: Progress, bytes: Seq<u8>)
    requires
        p.wf(),
    ensures
        p.read(bytes).held == Progress::begin(p.held).read(bytes).held,
        p.read(bytes).said() == p.said() + Progress::begin(p.held).read(bytes).said(),
    decreases bytes.len(),
{
    let q = Progress::begin(p.held);
    lemma_said_nothing(p.held);
    if bytes.len() == 0 {
        assert(p.said() + q.said() =~= p.said());
    } else {
        let most = bytes.drop_last();
        read_depends_on_held(p, most);
        read_keeps_bounds(p, most);
        read_keeps_bounds(q, most);
        step_depends_on_held(p.read(most), bytes.last());
        step_depends_on_held(q.read(most), bytes.last());
        assert(p.read(bytes).said() =~= p.said() + q.read(bytes).said());
    }
}

/// Reading two stretches of the stream is reading the first, then the second.
pub proof fn read_concatenates(p: Progress, first: Seq<u8>, second: Seq<u8>)
    ensures
        p.read(first + second) == p.read(first).read(second),
    decreases second.len(),
{
    if second.len() == 0 {
        assert(first + second =~= first);
    } else {
        assert((first + second).drop_last() =~= first + second.drop_last());
        read_concatenates(p, first, second.drop_last());
    }
}

/// Where a pty read ends does not matter: a stream split over two reads says
/// what the whole of it says, and leaves the scanner holding the same.
pub proof fn reads_may_end_anywhere(held: Held, first: Seq<u8>, second: Seq<u8>)
    requires
        held.wf(),
    ensures
        ({
            let one = Progress::begin(held).read(first);
            let two = Progress::begin(one.held).read(second);
            let whole = Progress::begin(held).read(first + second);
            &&& two.held == whole.held
            &&& events(one.flush().out) + events(two.flush().out) == events(whole.flush().out)
        }),
{
    let start = Progress::begin(held);
    let one = start.read(first);
    let two = Progress::begin(one.held).read(second);
    read_concatenates(start, first, second);
    read_keeps_bounds(start, first);
    read_depends_on_held(one, second);
    lemma_flush(one);
    lemma_flush(two);
    lemma_flush(start.read(first + second));
}

/// No byte of `bytes` is `byte`.
pub open spec fn free_of(bytes: Seq<u8>, byte: u8) -> bool {
    forall|i: int| 0 <= i < bytes.len() ==> bytes[i] != byte
}

/// Plain text passes through as it is, in one run.
pub proof fn plain_text_passes(held: Held, bytes: Seq<u8>)
    requires
        held.state == State::Text,
        held.sync == 0,
        held.cell_query == 0,
        free_of(bytes, ESC),
    ensures
        Progress::begin(held).read(bytes) == (Progress {
            held,
            pending: bytes,
            out: Seq::empty(),
        }),
    decreases bytes.len(),
{
    reveal(Progress::step);
    if bytes.len() > 0 {
        plain_text_passes(held, bytes.drop_last());
        assert(bytes.drop_last().push(bytes.last()) =~= bytes);
        assert(bytes.last() == bytes[bytes.len() - 1]);
    }
    assert(Progress::begin(held).read(bytes) =~= Progress {
        held,
        pending: bytes,
        out: Seq::empty(),
    });
}

/// The bytes of a sequence, one after another.
proof fn lemma_read_one(p: Progress, byte: u8)
    ensures
        p.read(seq![byte]) == p.step(byte),
{
    reveal_with_fuel(Progress::read, 2);
    assert(seq![byte].drop_last() =~= Seq::empty());
}

proof fn lemma_read_two(p: Progress, first: u8, second: u8)
    ensures
        p.read(seq![first, second]) == p.step(first).step(second),
{
    assert(seq![first, second] =~= seq![first] + seq![second]);
    read_concatenates(p, seq![first], seq![second]);
    lemma_read_one(p, first);
    lemma_read_one(p.step(first), second);
}

/// An APC run's bytes are kept, and reach neither the parser nor the screen.
proof fn lemma_apc_run(p: Progress, payload: Seq<u8>)
    requires
        p.held.state == State::Apc,
        p.held.run.len() + payload.len() <= MAX_RUN,
        free_of(payload, ESC),
        free_of(payload, BEL),
    ensures
        p.read(payload) == p.hold(Held { run: p.held.run + payload, ..p.held }),
    decreases payload.len(),
{
    reveal(Progress::step);
    if payload.len() == 0 {
        assert(p.held.run + payload =~= p.held.run);
    } else {
        lemma_apc_run(p, payload.drop_last());
        assert(payload.last() == payload[payload.len() - 1]);
        assert((p.held.run + payload.drop_last()).push(payload.last()) =~= p.held.run + payload);
    }
}

/// The two bytes that open a string sequence.
proof fn lemma_opens(p: Progress)
    requires
        p.held.wf(),
        p.held.state == State::Text,
    ensures
        p.read(seq![ESC, APC]) == p.flush().hold(p.held.unmatched().to(State::Apc)),
        p.read(seq![ESC, DCS]) == p.flush().emit(Piece::Text(seq![ESC, DCS])).hold(
            p.held.unmatched().to(State::DcsHeader),
        ),
        p.read(seq![ESC, OSC]) == p.flush().emit(Piece::Text(seq![ESC, OSC])).hold(
            p.held.unmatched().to(State::OscHeader),
        ),
{
    reveal(Progress::step);
    lemma_read_two(p, ESC, APC);
    lemma_read_two(p, ESC, DCS);
    lemma_read_two(p, ESC, OSC);
    lemma_flush(p);
    assert(p.held.run =~= Seq::empty());
    let escape = p.step(ESC);
    assert(escape.held.state == State::Escape);
    assert(escape.held.unmatched().to(State::Text) == p.held.unmatched());
    assert(escape.step(APC) =~= p.flush().hold(p.held.unmatched().to(State::Apc)));
    assert(escape.step(DCS) =~= p.flush().emit(Piece::Text(seq![ESC, DCS])).hold(
        p.held.unmatched().to(State::DcsHeader),
    ));
    assert(escape.step(OSC) =~= p.flush().emit(Piece::Text(seq![ESC, OSC])).hold(
        p.held.unmatched().to(State::OscHeader),
    ));
}

/// The bytes that close an APC run.
proof fn lemma_apc_closes(p: Progress)
    requires
        p.held.wf(),
        p.held.state == State::Apc,
    ensures
        p.read(seq![ESC, ST]) == p.emit(Piece::Graphics(p.held.run)).hold(
            p.held.clear().to(State::Text),
        ),
        p.read(seq![BEL]) == p.emit(Piece::Graphics(p.held.run)).hold(
            p.held.clear().to(State::Text),
        ),
{
    reveal(Progress::step);
    lemma_read_two(p, ESC, ST);
    lemma_read_one(p, BEL);
    assert(p.step(ESC) == p.hold(p.held.to(State::ApcEscape)));
}

/// A graphics command is one report with the run's bytes, in the place where
/// it stands, and none of it reaches the parser.
pub proof fn a_graphics_command_is_reported(p: Progress, payload: Seq<u8>, end: Seq<u8>)
    requires
        p.held.wf(),
        p.held.state == State::Text,
        payload.len() <= MAX_RUN,
        free_of(payload, ESC),
        free_of(payload, BEL),
        end == seq![ESC, ST] || end == seq![BEL],
    ensures
        p.read(seq![ESC, APC] + payload + end) == p.flush().emit(Piece::Graphics(payload)).hold(
            p.held.unmatched(),
        ),
{
    let open = seq![ESC, APC];
    read_concatenates(p, open + payload, end);
    read_concatenates(p, open, payload);
    lemma_opens(p);
    let opened = p.read(open);
    assert(p.held.run =~= Seq::empty());
    lemma_apc_run(opened, payload);
    assert(opened.held.run + payload =~= payload);
    lemma_apc_closes(opened.read(payload));
    assert(p.read(open + payload + end) =~= p.flush().emit(Piece::Graphics(payload)).hold(
        p.held.unmatched(),
    ));
}

/// However long a run goes without its terminator, none of it reaches the
/// screen as text.
pub proof fn an_apc_payload_is_never_text(p: Progress, payload: Seq<u8>)
    requires
        p.held.state == State::Apc || p.held.state == State::Overrun,
        free_of(payload, ESC),
        free_of(payload, BEL),
    ensures
        p.read(payload).out == p.out,
        p.read(payload).pending == p.pending,
        p.read(payload).held.state == State::Apc || p.read(payload).held.state == State::Overrun,
    decreases payload.len(),
{
    reveal(Progress::step);
    if payload.len() > 0 {
        an_apc_payload_is_never_text(p, payload.drop_last());
        assert(payload.last() == payload[payload.len() - 1]);
    }
}

/// Sixel data is kept from the parser.
proof fn lemma_sixel_run(p: Progress, data: Seq<u8>)
    requires
        p.held.state == State::Sixel,
        p.held.run.len() + data.len() <= MAX_SIXEL,
        free_of(data, ESC),
        free_of(data, CAN),
        free_of(data, SUB),
    ensures
        p.read(data) == p.hold(Held { run: p.held.run + data, ..p.held }),
    decreases data.len(),
{
    reveal(Progress::step);
    if data.len() == 0 {
        assert(p.held.run + data =~= p.held.run);
    } else {
        lemma_sixel_run(p, data.drop_last());
        assert(data.last() == data[data.len() - 1]);
        assert((p.held.run + data.drop_last()).push(data.last()) =~= p.held.run + data);
    }
}

/// Whether `bytes` can be a DCS's parameters.
pub open spec fn parameters(bytes: Seq<u8>) -> bool {
    &&& bytes.len() <= MAX_DCS_HEADER
    &&& forall|i: int|
        0 <= i < bytes.len() ==> (0x30 <= #[trigger] bytes[i] <= 0x39 || bytes[i] == 0x3b)
}

proof fn lemma_dcs_header(p: Progress, header: Seq<u8>)
    requires
        p.held.state == State::DcsHeader,
        p.held.run.len() + header.len() <= MAX_DCS_HEADER,
        parameters(header),
    ensures
        p.read(header) == (Progress {
            held: Held { run: p.held.run + header, ..p.held },
            pending: p.pending + header,
            ..p
        }),
    decreases header.len(),
{
    reveal(Progress::step);
    if header.len() == 0 {
        assert(p.held.run + header =~= p.held.run);
        assert(p.pending + header =~= p.pending);
    } else {
        let most = header.drop_last();
        assert(parameters(most)) by {
            assert forall|i: int| 0 <= i < most.len() implies (0x30 <= #[trigger] most[i] <= 0x39
                || most[i] == 0x3b) by {
                assert(most[i] == header[i]);
            }
        }
        lemma_dcs_header(p, most);
        assert(header.last() == header[header.len() - 1]);
        assert((p.held.run + most).push(header.last()) =~= p.held.run + header);
        assert((p.pending + most).push(header.last()) =~= p.pending + header);
    }
}

/// The bytes that close a sixel image's data.
proof fn lemma_sixel_closes(p: Progress)
    requires
        p.held.wf(),
        p.held.state == State::Sixel,
    ensures
        p.read(seq![ESC, ST]) == p.emit(Piece::Text(seq![ESC, ST])).emit(
            Piece::Sixel(p.held.run),
        ).hold(p.held.clear().to(State::Text)),
{
    reveal(Progress::step);
    lemma_read_two(p, ESC, ST);
    assert(p.step(ESC) == p.hold(p.held.to(State::SixelEscape)));
}

/// The byte that opens a sixel image's data.
proof fn lemma_sixel_opens(p: Progress)
    requires
        p.held.state == State::DcsHeader,
    ensures
        p.read(seq![0x71u8]) == p.pass(0x71).flush().hold(p.held.clear().to(State::Sixel)),
{
    reveal(Progress::step);
    lemma_read_one(p, 0x71);
}

/// A sixel image is one report with its data. The parser is handed the DCS
/// with the data taken out, and has left it before the image lands.
pub proof fn a_sixel_image_is_reported(p: Progress, header: Seq<u8>, data: Seq<u8>)
    requires
        p.held.wf(),
        p.held.state == State::Text,
        parameters(header),
        data.len() <= MAX_SIXEL,
        free_of(data, ESC),
        free_of(data, CAN),
        free_of(data, SUB),
    ensures
        p.read(seq![ESC, DCS] + header + seq![0x71u8] + data + seq![ESC, ST]) == p.flush().emit(
            Piece::Text(seq![ESC, DCS]),
        ).emit(Piece::Text(header.push(0x71))).emit(Piece::Text(seq![ESC, ST])).emit(
            Piece::Sixel(data),
        ).hold(p.held.unmatched()),
{
    let open = seq![ESC, DCS];
    let q = seq![0x71u8];
    let close = seq![ESC, ST];
    read_concatenates(p, open + header + q + data, close);
    read_concatenates(p, open + header + q, data);
    read_concatenates(p, open + header, q);
    read_concatenates(p, open, header);
    lemma_opens(p);
    lemma_flush(p);
    let opened = p.read(open);
    assert(p.held.run =~= Seq::empty());
    lemma_dcs_header(opened, header);
    assert(opened.pending + header =~= header);
    let read = opened.read(header);
    lemma_sixel_opens(read);
    let inside = read.read(q);
    let told = p.flush().emit(Piece::Text(open)).emit(Piece::Text(header.push(0x71)));
    assert(inside =~= told.hold(p.held.unmatched().to(State::Sixel)));
    lemma_sixel_run(inside, data);
    assert(inside.held.run + data =~= data);
    lemma_sixel_closes(inside.read(data));
    assert(p.read(open + header + q + data + close) =~= told.emit(Piece::Text(close)).emit(
        Piece::Sixel(data),
    ).hold(p.held.unmatched()));
}

/// No header starts with another.
proof fn lemma_headers_differ(a: OscKind, b: OscKind) -> (at: int)
    requires
        a != b,
    ensures
        0 <= at < a.header().len(),
        at < b.header().len(),
        a.header()[at] != b.header()[at],
{
    if a == OscKind::FileUrl || a == OscKind::Path || b == OscKind::FileUrl || b
        == OscKind::Path {
        0
    } else if a == OscKind::Begin || b == OscKind::Begin {
        5
    } else {
        9
    }
}

/// The start of a header names nothing until it is whole.
proof fn lemma_header_prefix(kind: OscKind, n: int)
    requires
        0 <= n <= kind.header().len(),
    ensures
        may_name(kind.header().subrange(0, n)),
        n < kind.header().len() ==> named(kind.header().subrange(0, n)) is None,
        n == kind.header().len() ==> named(kind.header().subrange(0, n)) == Some(kind),
{
    let run = kind.header().subrange(0, n);
    assert(starts(run, kind.header()));
    assert forall|other: OscKind| run == #[trigger] other.header() implies other == kind && n
        == kind.header().len() by {
        if other != kind {
            let at = lemma_headers_differ(kind, other);
            assert(run[at] == kind.header()[at]);
        }
    }
    if n == kind.header().len() {
        assert(run =~= kind.header());
    }
    assert(named(run) matches Some(other) ==> run == other.header());
}

/// A header passes through while it is matched.
proof fn lemma_osc_header(p: Progress, kind: OscKind, n: int)
    requires
        p.held.state == State::OscHeader,
        p.held.run.len() == 0,
        0 <= n < kind.header().len(),
    ensures
        p.read(kind.header().subrange(0, n)) == (Progress {
            held: Held { run: kind.header().subrange(0, n), ..p.held },
            pending: p.pending + kind.header().subrange(0, n),
            ..p
        }),
    decreases n,
{
    let run = kind.header().subrange(0, n);
    if n == 0 {
        assert(run =~= p.held.run);
        assert(p.pending + run =~= p.pending);
    } else {
        let most = kind.header().subrange(0, n - 1);
        lemma_osc_header(p, kind, n - 1);
        assert(run.drop_last() =~= most);
        assert(most.push(run.last()) =~= run);
        lemma_header_prefix(kind, n);
        reveal(Progress::step);
        assert((p.pending + most).push(run.last()) =~= p.pending + run);
    }
}

/// A whole header decides what the OSC is.
proof fn lemma_osc_named(p: Progress, kind: OscKind)
    requires
        p.held.state == State::OscHeader,
        p.held.wf(),
        p.held.run.len() == 0,
    ensures
        kind != OscKind::Part ==> p.read(kind.header()) == (Progress {
            held: p.held.to(State::OscArgs(kind)),
            pending: p.pending + kind.header(),
            ..p
        }),
        kind == OscKind::Part ==> p.read(kind.header()) == (Progress {
            held: p.held.to(State::OscPayload(kind)),
            pending: p.pending + kind.header(),
            ..p
        }).flush(),
{
    let n = kind.header().len() as int;
    let most = kind.header().subrange(0, n - 1);
    lemma_osc_header(p, kind, n - 1);
    lemma_header_prefix(kind, n);
    assert(kind.header().drop_last() =~= most);
    assert(kind.header().subrange(0, n) =~= kind.header());
    assert(most.push(kind.header().last()) =~= kind.header());
    assert((p.pending + most).push(kind.header().last()) =~= p.pending + kind.header());
    assert(p.held.run =~= Seq::empty());
    reveal(Progress::step);
}

/// Arguments are kept as they pass through.
proof fn lemma_osc_args(p: Progress, kind: OscKind, args: Seq<u8>)
    requires
        p.held.state == State::OscArgs(kind),
        p.held.run.len() + args.len() <= MAX_OSC_ARGS,
        free_of(args, ESC),
        free_of(args, BEL),
        kind == OscKind::File ==> free_of(args, COLON),
    ensures
        p.read(args) == (Progress {
            held: Held { run: p.held.run + args, ..p.held },
            pending: p.pending + args,
            ..p
        }),
    decreases args.len(),
{
    if args.len() == 0 {
        assert(p.held.run + args =~= p.held.run);
        assert(p.pending + args =~= p.pending);
    } else {
        lemma_osc_args(p, kind, args.drop_last());
        assert(args.last() == args[args.len() - 1]);
        assert((p.held.run + args.drop_last()).push(args.last()) =~= p.held.run + args);
        assert((p.pending + args.drop_last()).push(args.last()) =~= p.pending + args);
        reveal(Progress::step);
    }
}

/// The bytes that end an OSC command's arguments.
proof fn lemma_osc_args_close(p: Progress, kind: OscKind, end: Seq<u8>)
    requires
        p.held.state == State::OscArgs(kind),
        end == seq![ESC, ST] || end == seq![BEL],
    ensures
        p.read(end) == (Progress {
            held: p.held.clear().to(State::Text),
            pending: p.pending + end,
            ..p
        }).flush().emit_all(reported(kind, p.held.run)),
{
    reveal(Progress::step);
    if end == seq![BEL] {
        lemma_read_one(p, BEL);
        assert(p.pending.push(BEL) =~= p.pending + end);
    } else {
        lemma_read_two(p, ESC, ST);
        assert(p.step(ESC) == p.hold(p.held.to(State::OscArgsEscape(kind))).pass(ESC));
        assert(p.pending.push(ESC).push(ST) =~= p.pending + end);
        assert(p.step(ESC).held.clear().to(State::Text) == p.held.clear().to(State::Text));
    }
}

/// An OSC command without a payload is one report, after its bytes have passed
/// through to the parser: the directory it names, or the start or end of a
/// file in parts.
pub proof fn an_osc_command_is_reported(p: Progress, kind: OscKind, args: Seq<u8>, end: Seq<u8>)
    requires
        p.held.wf(),
        p.held.state == State::Text,
        kind != OscKind::Part,
        args.len() <= MAX_OSC_ARGS,
        free_of(args, ESC),
        free_of(args, BEL),
        kind == OscKind::File ==> free_of(args, COLON),
        end == seq![ESC, ST] || end == seq![BEL],
    ensures
        p.read(seq![ESC, OSC] + kind.header() + args + end) == p.flush().emit(
            Piece::Text(seq![ESC, OSC]),
        ).emit(Piece::Text(kind.header() + args + end)).emit_all(reported(kind, args)).hold(
            p.held.unmatched(),
        ),
{
    let open = seq![ESC, OSC];
    let header = kind.header();
    read_concatenates(p, open + header + args, end);
    read_concatenates(p, open + header, args);
    read_concatenates(p, open, header);
    lemma_opens(p);
    lemma_flush(p);
    let opened = p.read(open);
    assert(p.held.run =~= Seq::empty());
    lemma_osc_named(opened, kind);
    let named = opened.read(header);
    assert(named.pending =~= header);
    lemma_osc_args(named, kind, args);
    let kept = named.read(args);
    assert(kept.held.run =~= args);
    lemma_osc_args_close(kept, kind, end);
    assert(p.read(open + header + args + end) =~= p.flush().emit(Piece::Text(open)).emit(
        Piece::Text(header + args + end),
    ).emit_all(reported(kind, args)).hold(p.held.unmatched()));
}

/// A payload's bytes are kept from the parser.
proof fn lemma_payload_run(p: Progress, kind: OscKind, payload: Seq<u8>)
    requires
        p.held.state == State::OscPayload(kind),
        !p.held.discard,
        p.held.run.len() + payload.len() <= MAX_OSC_PAYLOAD,
        free_of(payload, ESC),
        free_of(payload, BEL),
    ensures
        p.read(payload) == p.hold(Held { run: p.held.run + payload, ..p.held }),
    decreases payload.len(),
{
    if payload.len() == 0 {
        assert(p.held.run + payload =~= p.held.run);
    } else {
        lemma_payload_run(p, kind, payload.drop_last());
        assert(payload.last() == payload[payload.len() - 1]);
        assert((p.held.run + payload.drop_last()).push(payload.last()) =~= p.held.run + payload);
        reveal(Progress::step);
    }
}

/// The bytes that end a payload.
proof fn lemma_payload_closes(p: Progress, kind: OscKind, end: Seq<u8>)
    requires
        p.held.state == State::OscPayload(kind),
        end == seq![ESC, ST] || end == seq![BEL],
    ensures
        p.read(end) == p.end_payload(kind, end),
{
    reveal(Progress::step);
    if end == seq![BEL] {
        lemma_read_one(p, BEL);
    } else {
        lemma_read_two(p, ESC, ST);
        assert(p.step(ESC) == p.hold(p.held.to(State::OscPayloadEscape(kind))));
    }
}

/// A file is one report with its arguments and its payload. The parser is
/// handed the OSC with the payload taken out, and has left it before the file
/// lands.
pub proof fn a_file_is_reported(p: Progress, args: Seq<u8>, payload: Seq<u8>, end: Seq<u8>)
    requires
        p.held.wf(),
        p.held.state == State::Text,
        args.len() <= MAX_OSC_ARGS,
        free_of(args, ESC),
        free_of(args, BEL),
        free_of(args, COLON),
        payload.len() <= MAX_OSC_PAYLOAD,
        free_of(payload, ESC),
        free_of(payload, BEL),
        end == seq![ESC, ST] || end == seq![BEL],
    ensures
        p.read(
            seq![ESC, OSC] + OscKind::File.header() + args + seq![COLON] + payload + end,
        ) == p.flush().emit(Piece::Text(seq![ESC, OSC])).emit(
            Piece::Text(OscKind::File.header() + args + seq![COLON]),
        ).emit(Piece::Text(end)).emit(Piece::Iterm(FilePiece::File { args, payload })).hold(
            p.held.unmatched(),
        ),
{
    let open = seq![ESC, OSC];
    let kind = OscKind::File;
    let header = kind.header();
    let colon = seq![COLON];
    read_concatenates(p, open + header + args + colon + payload, end);
    read_concatenates(p, open + header + args + colon, payload);
    read_concatenates(p, open + header + args, colon);
    read_concatenates(p, open + header, args);
    read_concatenates(p, open, header);
    lemma_opens(p);
    lemma_flush(p);
    let opened = p.read(open);
    assert(p.held.run =~= Seq::empty());
    assert(p.held.args =~= Seq::empty());
    lemma_osc_named(opened, kind);
    let named = opened.read(header);
    assert(named.pending =~= header);
    lemma_osc_args(named, kind, args);
    let kept = named.read(args);
    assert(kept.held.run =~= args);
    lemma_colon(kept);
    let inside = kept.read(colon);
    let told = p.flush().emit(Piece::Text(open)).emit(Piece::Text(header + args + colon));
    assert((header + args).push(COLON) =~= header + args + colon);
    assert(inside =~= told.hold(
        Held { args, ..p.held.unmatched().to(State::OscPayload(kind)) },
    ));
    lemma_payload_run(inside, kind, payload);
    assert(inside.held.run + payload =~= payload);
    lemma_payload_closes(inside.read(payload), kind, end);
    let file = Piece::Iterm(FilePiece::File { args, payload });
    assert(told.emit(Piece::Text(end)).out + seq![file] =~= told.emit(Piece::Text(end)).out.push(
        file,
    ));
    assert(inside.read(payload).end_payload(kind, end) =~= told.emit(Piece::Text(end)).emit(
        file,
    ).hold(p.held.unmatched()));
}

/// The byte between a file's arguments and its payload.
proof fn lemma_colon(p: Progress)
    requires
        p.held.state == State::OscArgs(OscKind::File),
        !p.held.discard,
    ensures
        p.read(seq![COLON]) == p.pass(COLON).flush().hold(
            Held {
                state: State::OscPayload(OscKind::File),
                run: Seq::empty(),
                args: p.held.run,
                ..p.held
            },
        ),
{
    reveal(Progress::step);
    lemma_read_one(p, COLON);
}

/// Whether `bytes` ends with `tail`.
pub open spec fn ends_with(bytes: Seq<u8>, tail: Seq<u8>) -> bool {
    tail.len() <= bytes.len() && bytes.subrange(bytes.len() - tail.len(), bytes.len() as int)
        == tail
}

/// Whether the first byte of `pattern` stands nowhere else in it.
pub open spec fn starts_once(pattern: Seq<u8>) -> bool {
    pattern.len() > 0 && forall|i: int| 0 < i < pattern.len() ==> #[trigger] pattern[i] != pattern[0]
}

/// How many bytes of `pattern` are matched after the text `text`.
pub open spec fn matched(pattern: Seq<u8>, text: Seq<u8>) -> nat
    decreases text.len(),
{
    if text.len() == 0 {
        0
    } else {
        let before = matched(pattern, text.drop_last());
        advance(
            pattern,
            if before == pattern.len() {
                0
            } else {
                before
            },
            text.last(),
        )
    }
}

/// What is matched after some text is the longest start of the pattern that
/// the text ends with: nothing that would complete is ever missed.
pub proof fn a_match_is_the_longest(pattern: Seq<u8>, text: Seq<u8>)
    requires
        starts_once(pattern),
    ensures
        matched(pattern, text) <= pattern.len(),
        ends_with(text, pattern.subrange(0, matched(pattern, text) as int)),
        forall|n: int|
            matched(pattern, text) < n <= pattern.len() ==> !ends_with(
                text,
                #[trigger] pattern.subrange(0, n),
            ),
    decreases text.len(),
{
    let now = matched(pattern, text);
    if text.len() == 0 {
        assert(pattern.subrange(0, 0) =~= text.subrange(0, 0));
        assert forall|n: int| now < n <= pattern.len() implies !ends_with(
            text,
            #[trigger] pattern.subrange(0, n),
        ) by {
            assert(pattern.subrange(0, n).len() == n);
        }
    } else {
        let most = text.drop_last();
        let byte = text.last();
        a_match_is_the_longest(pattern, most);
        let before = matched(pattern, most);
        let old_tail = pattern.subrange(0, before as int);
        assert forall|n: int| 0 < n <= pattern.len() && ends_with(
            text,
            #[trigger] pattern.subrange(0, n),
        ) implies n == now by {
            let tail = pattern.subrange(0, n);
            let cut = text.subrange(text.len() - n, text.len() as int);
            assert(cut[n - 1] == byte && tail[n - 1] == pattern[n - 1]);
            assert(most.subrange(most.len() - (n - 1), most.len() as int) =~= pattern.subrange(
                0,
                n - 1,
            )) by {
                assert forall|i: int| 0 <= i < n - 1 implies most[most.len() - (n - 1) + i]
                    == pattern[i] by {
                    assert(cut[i] == tail[i]);
                }
            }
            assert(ends_with(most, pattern.subrange(0, n - 1)));
            assert(pattern.subrange(0, n - 1).len() == n - 1);
            assert(n - 1 <= before);
            if 0 < n - 1 < before {
                // The first byte of the shorter tail is the pattern's first
                // byte, and stands inside the longer one.
                let i = before - (n - 1);
                let long = most.subrange(most.len() - before, most.len() as int);
                let short = most.subrange(most.len() - (n - 1), most.len() as int);
                assert(long[i as int] == short[0]);
                assert(long[i as int] == old_tail[i as int]);
                assert(false);
            }
        }
        if now > 0 {
            let cut = text.subrange(text.len() - now, text.len() as int);
            if now == before + 1 && byte == pattern[before as int] && before < pattern.len() {
                assert(cut =~= pattern.subrange(0, now as int)) by {
                    let long = most.subrange(most.len() - before, most.len() as int);
                    assert forall|i: int| 0 <= i < before implies cut[i] == pattern[i] by {
                        assert(long[i] == old_tail[i]);
                    }
                }
            } else {
                assert(now == 1);
                assert(cut =~= pattern.subrange(0, 1));
            }
        } else {
            assert(text.subrange(text.len() as int, text.len() as int) =~= pattern.subrange(0, 0));
        }
    }
}

/// A synchronized update is reported exactly where its eight bytes end.
pub proof fn a_sync_is_reported_where_it_ends(text: Seq<u8>, byte: u8, hold: bool)
    ensures
        held_by(matched(sync_prefix(), text), byte) == Some(hold) <==> ends_with(
            text.push(byte),
            sync_prefix().push(
                if hold {
                    0x68
                } else {
                    0x6c
                },
            ),
        ),
{
    let prefix = sync_prefix();
    a_match_is_the_longest(prefix, text);
    let last: u8 = if hold {
        0x68
    } else {
        0x6c
    };
    let tail = prefix.push(last);
    assert(prefix.subrange(0, 7) =~= prefix);
    let whole = text.push(byte);
    if ends_with(whole, tail) {
        let cut = whole.subrange(whole.len() - 8, whole.len() as int);
        assert(cut[7] == tail[7]);
        assert(text.subrange(text.len() - 7, text.len() as int) =~= prefix) by {
            assert forall|i: int| 0 <= i < 7 implies text[text.len() - 7 + i] == prefix[i] by {
                assert(cut[i] == tail[i]);
            }
        }
        assert(ends_with(text, prefix));
    }
    if held_by(matched(prefix, text), byte) == Some(hold) {
        let cut = whole.subrange(whole.len() - 8, whole.len() as int);
        let end = text.subrange(text.len() - 7, text.len() as int);
        assert(cut =~= tail) by {
            assert forall|i: int| 0 <= i < 7 implies cut[i] == tail[i] by {
                assert(end[i] == prefix[i]);
            }
        }
    }
}

/// A `CSI 16 t` is reported exactly where its five bytes end.
pub proof fn a_cell_size_query_is_reported_where_it_ends(text: Seq<u8>)
    ensures
        matched(cell_size_query(), text) == cell_size_query().len() <==> ends_with(
            text,
            cell_size_query(),
        ),
{
    a_match_is_the_longest(cell_size_query(), text);
    assert(cell_size_query().subrange(0, 5) =~= cell_size_query());
}

/// How much of a `CSI 16 t` still to be completed stands at the end of some
/// text.
pub open spec fn open_query(text: Seq<u8>) -> nat {
    if matched(cell_size_query(), text) == cell_size_query().len() {
        0
    } else {
        matched(cell_size_query(), text)
    }
}

/// Text that passes through moves both matches on, from what they were after
/// the text before it.
pub proof fn text_moves_the_matches(p: Progress, text: Seq<u8>, byte: u8)
    requires
        p.held.state == State::Text,
        p.held.sync == matched(sync_prefix(), text),
        p.held.cell_query == open_query(text),
    ensures
        p.step(byte).held.sync == matched(sync_prefix(), text.push(byte)),
        p.step(byte).held.cell_query == open_query(text.push(byte)),
{
    reveal(Progress::step);
    assert(text.push(byte).drop_last() =~= text);
    a_match_is_the_longest(cell_size_query(), text);
    a_match_is_the_longest(cell_size_query(), text.push(byte));
    a_match_is_the_longest(sync_prefix(), text);
}

/// A part of a file is one report with its payload. The parser is handed the
/// OSC with the payload taken out, and has left it before the part lands.
pub proof fn a_part_of_a_file_is_reported(p: Progress, payload: Seq<u8>, end: Seq<u8>)
    requires
        p.held.wf(),
        p.held.state == State::Text,
        payload.len() <= 0x600_0000,
        free_of(payload, 27),
        free_of(payload, 7),
        end == seq![27u8, 92u8] || end == seq![7u8],
    ensures
        p.read(seq![27u8, 93u8] + OscKind::Part.header() + payload + end) == p.flush().emit(
            Piece::Text(seq![27u8, 93u8]),
        ).emit(Piece::Text(OscKind::Part.header())).emit(Piece::Text(end)).emit(
            Piece::Iterm(FilePiece::Part(payload)),
        ).hold(p.held.unmatched()),
{
    let open = seq![ESC, OSC];
    let kind = OscKind::Part;
    let header = kind.header();
    read_concatenates(p, open + header + payload, end);
    read_concatenates(p, open + header, payload);
    read_concatenates(p, open, header);
    lemma_opens(p);
    lemma_flush(p);
    let opened = p.read(open);
    assert(p.held.run =~= Seq::empty());
    lemma_osc_named(opened, kind);
    let named = opened.read(header);
    assert(opened.pending + header =~= header);
    lemma_payload_run(named, kind, payload);
    let kept = named.read(payload);
    assert(kept.held.run =~= payload);
    lemma_payload_closes(kept, kind, end);
    let told = kept.out.push(Piece::Text(end));
    assert(told + seq![Piece::Iterm(FilePiece::Part(payload))] =~= told.push(
        Piece::Iterm(FilePiece::Part(payload)),
    ));
    assert(p.held.args =~= Seq::empty());
    assert(p.read(open + header + payload + end) =~= p.flush().emit(Piece::Text(open)).emit(
        Piece::Text(header),
    ).emit(Piece::Text(end)).emit(Piece::Iterm(FilePiece::Part(payload))).hold(
        p.held.unmatched(),
    ));
}

/// A run past its limit is swallowed to its end.
proof fn lemma_overruns(p: Progress, payload: Seq<u8>)
    requires
        p.held.state == State::Overrun,
        free_of(payload, ESC),
        free_of(payload, BEL),
    ensures
        p.read(payload) == p,
    decreases payload.len(),
{
    reveal(Progress::step);
    if payload.len() > 0 {
        lemma_overruns(p, payload.drop_last());
        assert(payload.last() == payload[payload.len() - 1]);
    }
}

/// One byte too many drops a run.
proof fn lemma_overrun_begins(p: Progress, byte: u8)
    requires
        p.held.state == State::Apc,
        p.held.run.len() == MAX_RUN,
        byte != ESC,
        byte != BEL,
    ensures
        p.step(byte) == p.hold(p.held.clear().to(State::Overrun)),
{
    reveal(Progress::step);
}

/// The bytes that close a run too long to keep.
proof fn lemma_overrun_closes(p: Progress)
    requires
        p.held.state == State::Overrun,
    ensures
        p.read(seq![ESC, ST]) == p.hold(p.held.to(State::Text)),
        p.read(seq![BEL]) == p.hold(p.held.to(State::Text)),
{
    reveal(Progress::step);
    lemma_read_one(p, BEL);
    lemma_read_two(p, ESC, ST);
}

/// The bytes that break a sixel image off.
proof fn lemma_sixel_broken(p: Progress, end: u8)
    requires
        p.held.state == State::Sixel,
        p.held.sync == 0,
        p.held.cell_query == 0,
        end == CAN || end == SUB,
    ensures
        p.read(seq![end]) == p.hold(p.held.clear().to(State::Text)).pass(end),
{
    reveal(Progress::step);
    lemma_read_one(p, end);
}

/// A graphics command that has lost its end is dropped: past sixty-four
/// kilobytes nothing of it is reported and nothing shows, and the text behind
/// it is text again.
pub proof fn a_run_too_long_is_dropped(p: Progress, payload: Seq<u8>, end: Seq<u8>)
    requires
        p.held.wf(),
        p.held.state == State::Text,
        payload.len() > 0x1_0000,
        free_of(payload, 27),
        free_of(payload, 7),
        end == seq![27u8, 92u8] || end == seq![7u8],
    ensures
        p.read(seq![27u8, 95u8] + payload + end) == p.flush().hold(p.held.unmatched()),
{
    let open = seq![ESC, APC];
    let kept = payload.take(MAX_RUN as int);
    let over = payload[MAX_RUN as int];
    let rest = payload.skip(MAX_RUN + 1);
    assert(payload =~= kept + seq![over] + rest);
    read_concatenates(p, open + payload, end);
    read_concatenates(p, open, payload);
    lemma_opens(p);
    let opened = p.read(open);
    read_concatenates(opened, kept + seq![over], rest);
    read_concatenates(opened, kept, seq![over]);
    assert(p.held.run =~= Seq::empty());
    lemma_apc_run(opened, kept);
    let full = opened.read(kept);
    assert(full.held.run =~= kept);
    lemma_read_one(full, over);
    lemma_overrun_begins(full, over);
    let dropped = full.step(over);
    lemma_overruns(dropped, rest);
    lemma_overrun_closes(dropped);
    assert(p.read(open + payload + end) =~= p.flush().hold(p.held.unmatched()));
}

/// A sixel image that is broken off is dropped: what its data was reaches
/// nobody, and the byte that broke it off is text.
pub proof fn a_sixel_image_broken_off_is_dropped(
    p: Progress,
    header: Seq<u8>,
    data: Seq<u8>,
    end: u8,
)
    requires
        p.held.wf(),
        p.held.state == State::Text,
        parameters(header),
        data.len() <= 0x200_0000,
        free_of(data, 27),
        free_of(data, 24),
        free_of(data, 26),
        end == 24 || end == 26,
    ensures
        p.read(seq![27u8, 80u8] + header + seq![113u8] + data + seq![end]) == p.flush().emit(
            Piece::Text(seq![27u8, 80u8]),
        ).emit(Piece::Text(header.push(113))).hold(p.held.unmatched()).pass(end),
{
    let open = seq![ESC, DCS];
    let q = seq![0x71u8];
    let close = seq![end];
    read_concatenates(p, open + header + q + data, close);
    read_concatenates(p, open + header + q, data);
    read_concatenates(p, open + header, q);
    read_concatenates(p, open, header);
    lemma_opens(p);
    lemma_flush(p);
    let opened = p.read(open);
    assert(p.held.run =~= Seq::empty());
    lemma_dcs_header(opened, header);
    assert(opened.pending + header =~= header);
    let read = opened.read(header);
    lemma_sixel_opens(read);
    let inside = read.read(q);
    assert(inside.held.run =~= Seq::empty());
    lemma_sixel_run(inside, data);
    let kept = inside.read(data);
    lemma_sixel_broken(kept, end);
    assert(p.read(open + header + q + data + close) =~= p.flush().emit(Piece::Text(open)).emit(
        Piece::Text(header.push(0x71)),
    ).hold(p.held.unmatched()).pass(end));
}

/// An escape that begins no string of ours is the parser's, with what follows
/// it.
pub proof fn any_other_escape_is_text(p: Progress, byte: u8)
    requires
        p.held.wf(),
        p.held.state == State::Text,
        byte != 27,
        byte != 95,
        byte != 93,
        byte != 80,
    ensures
        ({
            let after = p.read(seq![27u8, byte]);
            &&& after.out == p.flush().out.push(Piece::Text(seq![27u8]))
            &&& after.pending == seq![byte]
            &&& after.held.state == State::Text
        }),
{
    lemma_read_two(p, ESC, byte);
    lemma_flush(p);
    reveal(Progress::step);
    let escape = p.step(ESC);
    assert(escape.pending.push(byte) =~= seq![byte]);
    assert(escape.held.sync <= 1);
    assert(escape.held.cell_query <= 1);
}

} // verus!
