//! The pty stream, split before the ANSI parser sees it: the text the parser
//! takes, and the sequences it would throw away or never answer.
//!
//! `vte` throws kitty graphics away: a graphics command is an APC sequence
//! (`ESC _ G <keys> ; <base64> ESC \`), which the parser discards with no hook
//! to implement. A sixel image's data (DCS) and an iTerm2 file (OSC 1337)
//! reach handlers the emulator leaves empty, and `CSI 16 t` is dropped without
//! a handler call.
//!
//! [`Scanner`] reports each where it sits in the stream: fed in order, the
//! grid state at the moment an image arrives is the state the preceding text
//! left behind.

use vstd::prelude::*;
use vstd::slice::*;

use crate::terminal::stream;
use crate::terminal::stream::{
    FilePiece,
    Held,
    OscKind,
    Piece,
    Progress,
    State,
    APC,
    BEL,
    CAN,
    COLON,
    DCS,
    ESC,
    MAX_DCS_HEADER,
    MAX_OSC_ARGS,
    MAX_OSC_PAYLOAD,
    MAX_RUN,
    MAX_SIXEL,
    OSC,
    ST,
    SUB,
};

verus! {

const ESC_BYTES: [u8; 1] = [ESC];

const OSC_BYTES: [u8; 2] = [ESC, OSC];

const DCS_BYTES: [u8; 2] = [ESC, DCS];

const ST_BYTES: [u8; 2] = [ESC, ST];

const BEL_BYTES: [u8; 1] = [BEL];

/// Everything but the final `h`/`l` of `CSI ? 2026 h` and `CSI ? 2026 l`.
const SYNC_PREFIX: [u8; 7] = [0x1b, 0x5b, 0x3f, 0x32, 0x30, 0x32, 0x36];

/// XTWINOPS 16: report the cell size in pixels.
const CELL_SIZE_QUERY: [u8; 5] = [0x1b, 0x5b, 0x31, 0x36, 0x74];

/// One run of the pty stream.
#[derive(Debug, PartialEq, Eq)]
#[non_exhaustive]
pub enum Segment<'a> {
    /// Bytes for the ANSI parser, exactly as they arrived.
    Text(&'a [u8]),
    /// A complete APC run, terminator stripped: a graphics command where it
    /// parses as one, and somebody else's where it does not.
    Graphics(Vec<u8>),
    /// Mode 2026 turning on (`true`) or off (`false`), reported where it sits
    /// in the stream. The bytes themselves stay in the `Text` run around it,
    /// so the parser still sees the sequence it always saw.
    Sync(bool),
    /// `CSI 16 t`, asking for the cell size in pixels, reported where it sits
    /// in the stream. Its bytes stay in the `Text` run around it.
    CellSizeQuery,
    /// A sixel image's data: what sits between `DCS P1;P2;P3 q` and `ST`.
    /// The parser is handed the DCS with its data taken out, so it leaves the
    /// sequence in the state it would have.
    Sixel(Vec<u8>),
    /// An iTerm2 inline image command. The parser is handed the OSC with any
    /// payload taken out.
    Iterm(Iterm),
    /// The shell's working directory, as the bytes of a path, from
    /// `OSC 7 ; file://host/path` or `OSC 9 ; 9 ; path`. The host is dropped:
    /// a shell over ssh reports the remote machine's path. The OSC's bytes
    /// stay in the `Text` run around it.
    Directory(Vec<u8>),
}

impl<'a> View for Segment<'a> {
    type V = Piece;

    open spec fn view(&self) -> Piece {
        match self {
            Segment::Text(bytes) => Piece::Text(bytes@),
            Segment::Graphics(run) => Piece::Graphics(run@),
            Segment::Sync(hold) => Piece::Sync(*hold),
            Segment::CellSizeQuery => Piece::CellSizeQuery,
            Segment::Sixel(data) => Piece::Sixel(data@),
            Segment::Iterm(command) => Piece::Iterm(command@),
            Segment::Directory(path) => Piece::Directory(path@),
        }
    }
}

/// An `OSC 1337` command that carries a file. Arguments and payloads are as
/// they arrived: `key=value;…` text and base64.
#[derive(Debug, Clone, PartialEq, Eq)]
#[non_exhaustive]
pub enum Iterm {
    /// `File=<args>:<payload>`.
    File { args: Vec<u8>, payload: Vec<u8> },
    /// `MultipartFile=<args>`: a file follows in parts.
    Begin { args: Vec<u8> },
    /// `FilePart=<payload>`.
    Part(Vec<u8>),
    /// `FileEnd`.
    End,
}

impl View for Iterm {
    type V = FilePiece;

    open spec fn view(&self) -> FilePiece {
        match self {
            Iterm::File { args, payload } => FilePiece::File { args: args@, payload: payload@ },
            Iterm::Begin { args } => FilePiece::Begin { args: args@ },
            Iterm::Part(payload) => FilePiece::Part(payload@),
            Iterm::End => FilePiece::End,
        }
    }
}

/// The runs, as mathematical values.
pub open spec fn pieces(segments: Seq<Segment<'_>>) -> Seq<Piece> {
    segments.map_values(|segment: Segment<'_>| segment@)
}

/// Splits graphics commands out of the pty stream.
///
/// One per terminal, fed every read in order. Between calls it holds whatever
/// of a command has arrived so far, so a sequence straddling two reads is one
/// command rather than two halves of garbage on the screen.
#[derive(Debug)]
pub struct Scanner {
    state: State,
    run: Vec<u8>,
    /// Bytes of a BSU/ESU run matched so far.
    sync: usize,
    /// Bytes of a `CSI 16 t` matched so far.
    cell_query: usize,
    /// An `OSC 1337` file's arguments, held while its payload arrives.
    args: Vec<u8>,
    /// The `OSC 1337` payload arriving outran [`MAX_OSC_PAYLOAD`] and is
    /// being dropped.
    discard: bool,
}

impl View for Scanner {
    type V = Held;

    closed spec fn view(&self) -> Held {
        Held {
            state: self.state,
            run: self.run@,
            sync: self.sync as nat,
            cell_query: self.cell_query as nat,
            args: self.args@,
            discard: self.discard,
        }
    }
}

/// A read being split: the bytes, where the current pass-through run began,
/// the next byte to look at, and the runs so far. Text is emitted in slices of
/// the caller's buffer rather than copied.
struct Reading<'a> {
    bytes: &'a [u8],
    text: usize,
    at: usize,
    out: Vec<Segment<'a>>,
}

impl<'a> Reading<'a> {
    spec fn wf(self) -> bool {
        self.text <= self.at <= self.bytes@.len()
    }

    spec fn with(self, held: Held) -> Progress {
        Progress {
            held,
            pending: self.bytes@.subrange(self.text as int, self.at as int),
            out: pieces(self.out@),
        }
    }

    /// The next byte passes through.
    fn pass(&mut self)
        requires
            old(self).wf(),
            old(self).at < old(self).bytes@.len(),
        ensures
            final(self).wf(),
            final(self).bytes == old(self).bytes,
            final(self).at == old(self).at + 1,
            forall|held: Held|
                #![trigger final(self).with(held)]
                final(self).with(held) == old(self).with(held).pass(
                    old(self).bytes@[old(self).at as int],
                ),
    {
        assert(self.at < self.bytes.len());
        self.at = self.at + 1;
        proof {
            assert(self.bytes@.subrange(self.text as int, self.at as int)
                =~= self.bytes@.subrange(self.text as int, self.at - 1).push(
                self.bytes@[self.at - 1],
            ));
        }
    }

    /// The next byte is kept from the parser.
    fn skip(&mut self)
        requires
            old(self).wf(),
            old(self).text == old(self).at,
            old(self).at < old(self).bytes@.len(),
        ensures
            final(self).wf(),
            final(self).text == final(self).at,
            final(self).bytes == old(self).bytes,
            final(self).at == old(self).at + 1,
            forall|held: Held|
                #![trigger final(self).with(held)]
                final(self).with(held) == old(self).with(held),
    {
        assert(self.at < self.bytes.len());
        self.at = self.at + 1;
        self.text = self.at;
        proof {
            assert(self.bytes@.subrange(self.text as int, self.at as int) =~= Seq::empty());
            assert(old(self).bytes@.subrange(old(self).text as int, old(self).at as int)
                =~= Seq::empty());
        }
    }

    /// The text passed through becomes a run of its own.
    fn flush(&mut self)
        requires
            old(self).wf(),
        ensures
            final(self).wf(),
            final(self).text == final(self).at,
            final(self).bytes == old(self).bytes,
            final(self).at == old(self).at,
            forall|held: Held|
                #![trigger final(self).with(held)]
                final(self).with(held) == old(self).with(held).flush(),
    {
        push_text(&mut self.out, slice_subrange(self.bytes, self.text, self.at));
        self.text = self.at;
        proof {
            assert(self.bytes@.subrange(self.text as int, self.at as int) =~= Seq::empty());
            assert(old(self).bytes@.subrange(old(self).text as int, old(self).at as int).len()
                == old(self).at - old(self).text);
        }
    }

    fn emit(&mut self, segment: Segment<'a>)
        requires
            old(self).wf(),
        ensures
            final(self).wf(),
            final(self).bytes == old(self).bytes,
            final(self).text == old(self).text,
            final(self).at == old(self).at,
            forall|held: Held|
                #![trigger final(self).with(held)]
                final(self).with(held) == old(self).with(held).emit(segment@),
    {
        self.out.push(segment);
        proof {
            assert(pieces(self.out@) =~= pieces(old(self).out@).push(segment@));
        }
    }
}

/// A scanner between two bytes of a read.
spec fn between(held: Held, read: Reading<'_>) -> bool {
    &&& held.wf()
    &&& read.wf()
    &&& held.passes() || read.text == read.at
}

/// A scanner before byte `byte` of a read.
spec fn before(held: Held, read: Reading<'_>, byte: u8) -> bool {
    &&& between(held, read)
    &&& read.at < read.bytes@.len()
    &&& byte == read.bytes@[read.at as int]
}

/// One byte further in the same read.
spec fn moved(held: Held, read: Reading<'_>, from: Reading<'_>) -> bool {
    &&& between(held, read)
    &&& read.bytes == from.bytes
    &&& read.at == from.at + 1
}

impl Scanner {
    /// What holds of a scanner between reads.
    pub open spec fn wf(&self) -> bool {
        self@.wf()
    }

    pub fn new() -> (scanner: Scanner)
        ensures
            scanner.wf(),
            scanner@ == Held::fresh(),
    {
        let scanner = Scanner {
            state: State::Text,
            run: Vec::new(),
            sync: 0,
            cell_query: 0,
            args: Vec::new(),
            discard: false,
        };
        proof {
            assert(scanner@ =~= Held::fresh());
        }
        scanner
    }

    /// Feed one pass-through byte to the BSU/ESU matcher, answering when one
    /// of the two just completed.
    ///
    /// They are fixed eight-byte strings and matched as such. `vte` finds them
    /// in its own buffer the same way, so a stream it reads as a synchronized
    /// update is a stream this reports.
    fn sync_step(&mut self, byte: u8) -> (hold: Option<bool>)
        requires
            old(self)@.sync <= stream::sync_prefix().len(),
        ensures
            final(self)@ == (Held { sync: old(self)@.synced(byte), ..old(self)@ }),
            hold == stream::held_by(old(self)@.sync, byte),
    {
        if self.sync < 7 {
            self.sync =
            if byte == SYNC_PREFIX[self.sync] {
                self.sync + 1
            } else if byte == SYNC_PREFIX[0] {
                1
            } else {
                0
            };
            return None;
        }
        self.sync =
        if byte == SYNC_PREFIX[0] {
            1
        } else {
            0
        };
        match byte {
            0x68 => Some(true),
            0x6c => Some(false),
            _ => None,
        }
    }

    /// Feed one pass-through byte to the `CSI 16 t` matcher, answering whether
    /// it just completed. A fixed string, matched the way [`Self::sync_step`]
    /// matches BSU/ESU.
    fn cell_query_step(&mut self, byte: u8) -> (asked: bool)
        requires
            old(self)@.cell_query < stream::cell_size_query().len(),
        ensures
            final(self)@ == (Held { cell_query: old(self)@.queried(byte), ..old(self)@ }),
            asked == old(self)@.asks(byte),
    {
        self.cell_query =
        if byte == CELL_SIZE_QUERY[self.cell_query] {
            self.cell_query + 1
        } else if byte == CELL_SIZE_QUERY[0] {
            1
        } else {
            0
        };
        if self.cell_query == 5 {
            self.cell_query = 0;
            return true;
        }
        false
    }

    /// The run kept so far, which starts over.
    fn take_run(&mut self) -> (run: Vec<u8>)
        ensures
            final(self)@ == old(self)@.clear(),
            run@ == old(self)@.run,
    {
        let mut run: Vec<u8> = Vec::new();
        std::mem::swap(&mut self.run, &mut run);
        run
    }

    /// A byte of ordinary text.
    fn text_byte(&mut self, byte: u8, read: &mut Reading<'_>)
        requires
            before(old(self)@, *old(read), byte),
            old(self)@.state == State::Text,
        ensures
            moved(final(self)@, *final(read), *old(read)),
            final(read).with(final(self)@) == old(read).with(old(self)@).text_step(byte),
    {
        let sync = self.sync_step(byte);
        let asked = self.cell_query_step(byte);
        if byte == ESC {
            read.flush();
            read.skip();
            self.state = State::Escape;
        } else if let Some(hold) = sync {
            read.pass();
            read.flush();
            read.emit(Segment::Sync(hold));
        } else if asked {
            read.pass();
            read.flush();
            read.emit(Segment::CellSizeQuery);
        } else {
            read.pass();
        }
    }

    /// The byte after an `ESC`.
    fn escape_byte(&mut self, byte: u8, read: &mut Reading<'_>)
        requires
            before(old(self)@, *old(read), byte),
            old(self)@.state == State::Escape,
        ensures
            moved(final(self)@, *final(read), *old(read)),
            final(read).with(final(self)@) == old(read).with(old(self)@).escape_step(byte),
    {
        if byte == APC {
            read.skip();
            // The `ESC` that opened this run counts toward a BSU/ESU match
            // that the payload cannot finish.
            self.sync = 0;
            self.cell_query = 0;
            self.state = State::Apc;
        } else if byte == OSC {
            read.skip();
            self.sync = 0;
            self.cell_query = 0;
            self.run.clear();
            read.emit(Segment::Text(&OSC_BYTES));
            self.state = State::OscHeader;
            assert(OSC_BYTES@ =~= seq![ESC, OSC]);
        } else if byte == DCS {
            read.skip();
            self.sync = 0;
            self.cell_query = 0;
            self.run.clear();
            read.emit(Segment::Text(&DCS_BYTES));
            self.state = State::DcsHeader;
            assert(DCS_BYTES@ =~= seq![ESC, DCS]);
        } else {
            // Not a sequence of ours. The `ESC` is handed back on its own and
            // the byte after it starts the next run.
            read.emit(Segment::Text(&ESC_BYTES));
            assert(ESC_BYTES@ =~= seq![ESC]);
            self.state = State::Text;
            self.text_byte(byte, read);
        }
    }

    /// End the run being accumulated.
    fn finish(&mut self, read: &mut Reading<'_>)
        requires
            between(old(self)@, *old(read)),
            old(self)@.state == State::Apc || old(self)@.state == State::ApcEscape,
        ensures
            between(final(self)@, *final(read)),
            final(read).at == old(read).at,
            final(read).bytes == old(read).bytes,
            final(self)@ == old(self)@.clear().to(State::Text),
            forall|held: Held|
                #![trigger final(read).with(held)]
                final(read).with(held) == old(read).with(held).emit(
                    Piece::Graphics(old(self)@.run),
                ),
    {
        self.state = State::Text;
        let run = self.take_run();
        read.emit(Segment::Graphics(run));
    }

    /// A byte inside an APC run.
    fn apc_byte(&mut self, byte: u8, read: &mut Reading<'_>)
        requires
            before(old(self)@, *old(read), byte),
            old(self)@.state == State::Apc || old(self)@.state == State::ApcEscape,
        ensures
            moved(final(self)@, *final(read), *old(read)),
            final(read).with(final(self)@) == old(read).with(old(self)@).apc_step(byte),
    {
        read.skip();
        if self.state == State::ApcEscape {
            if byte == ST {
                self.finish(read);
                return;
            }
            self.state = State::Apc;
            // A lone `ESC` inside the payload: keep it and carry on, since
            // only `ESC \` ends the run.
            self.run.push(ESC);
        }
        // `BEL` terminates a string sequence too, and enough programs use it
        // for `ESC \` alone to be a gamble.
        if byte == BEL {
            self.state = State::Text;
            let run = self.take_run();
            read.emit(Segment::Graphics(run));
            return;
        }
        if byte == ESC {
            self.state = State::ApcEscape;
        } else {
            self.run.push(byte);
        }
        if self.run.len() > MAX_RUN {
            self.run.clear();
            self.state = State::Overrun;
        }
    }

    /// A byte of an APC run too long to keep.
    fn overrun_byte(&mut self, byte: u8, read: &mut Reading<'_>)
        requires
            before(old(self)@, *old(read), byte),
            old(self)@.state == State::Overrun || old(self)@.state == State::OverrunEscape,
        ensures
            moved(final(self)@, *final(read), *old(read)),
            final(read).with(final(self)@) == old(read).with(old(self)@).overrun_step(byte),
    {
        read.skip();
        if self.state == State::OverrunEscape && byte == ST {
            self.state = State::Text;
        } else if byte == ESC {
            self.state = State::OverrunEscape;
        } else if byte == BEL {
            self.state = State::Text;
        } else {
            self.state = State::Overrun;
        }
    }

    /// A byte of an OSC's header.
    fn osc_header_byte(&mut self, byte: u8, read: &mut Reading<'_>)
        requires
            before(old(self)@, *old(read), byte),
            old(self)@.state == State::OscHeader,
        ensures
            moved(final(self)@, *final(read), *old(read)),
            final(read).with(final(self)@) == old(read).with(old(self)@).osc_header_step(byte),
    {
        self.run.push(byte);
        if let Some(kind) = osc_named(&self.run) {
            self.run.clear();
            read.pass();
            match kind {
                OscKind::Part => {
                    read.flush();
                    self.discard = false;
                    self.state = State::OscPayload(kind);
                },
                _ => {
                    self.state = State::OscArgs(kind);
                },
            }
        } else if osc_may_name(&self.run) {
            read.pass();
        } else {
            // Not ours: the byte is looked at again as text.
            self.run.clear();
            self.state = State::Text;
            self.text_byte(byte, read);
        }
    }

    /// An OSC command with no payload is over.
    fn end_args(&mut self, kind: OscKind, read: &mut Reading<'_>)
        requires
            between(old(self)@, *old(read)),
            old(self)@.state == State::OscArgs(kind) || old(self)@.state == State::OscArgsEscape(
                kind,
            ),
        ensures
            between(final(self)@, *final(read)),
            final(read).at == old(read).at,
            final(read).bytes == old(read).bytes,
            final(self)@ == old(self)@.clear().to(State::Text),
            forall|held: Held|
                #![trigger final(read).with(held)]
                final(read).with(held) == old(read).with(held).emit_all(
                    stream::reported(kind, old(self)@.run),
                ),
    {
        let args = self.take_run();
        self.state = State::Text;
        match kind {
            OscKind::Begin => read.emit(Segment::Iterm(Iterm::Begin { args })),
            OscKind::End => read.emit(Segment::Iterm(Iterm::End)),
            OscKind::FileUrl => if let Some(path) = file_url(&args) {
                read.emit(Segment::Directory(path));
            },
            OscKind::Path => if let Some(path) = quoted_path(&args) {
                read.emit(Segment::Directory(path));
            },
            // A file with no `:` has nothing to show.
            OscKind::File | OscKind::Part => {},
        }
        proof {
            let reported = stream::reported(kind, old(self)@.run);
            assert forall|held: Held| #![trigger read.with(held)]
                read.with(held) == old(read).with(held).emit_all(reported) by {
                if reported.len() == 0 {
                    assert(old(read).with(held).out + reported =~= old(read).with(held).out);
                } else {
                    assert(old(read).with(held).out + reported =~= old(read).with(held).out.push(
                        reported[0],
                    ));
                }
            }
        }
    }

    /// A byte of an OSC's arguments.
    fn osc_args_byte(&mut self, kind: OscKind, byte: u8, read: &mut Reading<'_>)
        requires
            before(old(self)@, *old(read), byte),
            old(self)@.state == State::OscArgs(kind),
        ensures
            moved(final(self)@, *final(read), *old(read)),
            final(read).with(final(self)@) == old(read).with(old(self)@).osc_args_step(kind, byte),
    {
        if byte == COLON && kind == OscKind::File {
            read.pass();
            read.flush();
            self.args = self.take_run();
            self.discard = false;
            self.state = State::OscPayload(kind);
        } else if byte == BEL {
            read.pass();
            read.flush();
            self.end_args(kind, read);
        } else if byte == ESC {
            read.pass();
            self.state = State::OscArgsEscape(kind);
        } else if self.run.len() < MAX_OSC_ARGS {
            self.run.push(byte);
            read.pass();
        } else {
            self.run.clear();
            self.state = State::Text;
            self.text_byte(byte, read);
        }
    }

    fn osc_args_escape_byte(&mut self, kind: OscKind, byte: u8, read: &mut Reading<'_>)
        requires
            before(old(self)@, *old(read), byte),
            old(self)@.state == State::OscArgsEscape(kind),
        ensures
            moved(final(self)@, *final(read), *old(read)),
            final(read).with(final(self)@) == old(read).with(old(self)@).osc_args_escape_step(
                kind,
                byte,
            ),
    {
        if byte == ST {
            read.pass();
            read.flush();
            self.end_args(kind, read);
        } else {
            self.run.clear();
            self.state = State::Text;
            self.text_byte(byte, read);
        }
    }

    /// An `OSC 1337` payload is over.
    fn end_payload(&mut self, kind: OscKind, read: &mut Reading<'_>)
        requires
            between(old(self)@, *old(read)),
            old(self)@.state == State::OscPayload(kind) || old(self)@.state
                == State::OscPayloadEscape(kind),
        ensures
            between(final(self)@, *final(read)),
            final(read).at == old(read).at,
            final(read).text == old(read).text,
            final(read).bytes == old(read).bytes,
            final(self)@ == (Held {
                args: Seq::empty(),
                discard: false,
                ..old(self)@.clear()
            }).to(State::Text),
            forall|held: Held|
                #![trigger final(read).with(held)]
                final(read).with(held) == old(read).with(held).emit_all(
                    stream::delivered(kind, old(self)@),
                ),
    {
        let payload = self.take_run();
        let mut args: Vec<u8> = Vec::new();
        std::mem::swap(&mut self.args, &mut args);
        self.state = State::Text;
        if self.discard {
            self.discard = false;
        } else {
            match kind {
                OscKind::File => read.emit(Segment::Iterm(Iterm::File { args, payload })),
                OscKind::Part => read.emit(Segment::Iterm(Iterm::Part(payload))),
                OscKind::Begin | OscKind::End | OscKind::FileUrl | OscKind::Path => {},
            }
        }
        proof {
            let delivered = stream::delivered(kind, old(self)@);
            assert forall|held: Held| #![trigger read.with(held)]
                read.with(held) == old(read).with(held).emit_all(delivered) by {
                if delivered.len() == 0 {
                    assert(old(read).with(held).out + delivered =~= old(read).with(held).out);
                } else {
                    assert(old(read).with(held).out + delivered =~= old(read).with(held).out.push(
                        delivered[0],
                    ));
                }
            }
        }
    }

    /// A byte of an `OSC 1337` payload.
    fn osc_payload_byte(&mut self, kind: OscKind, byte: u8, read: &mut Reading<'_>)
        requires
            before(old(self)@, *old(read), byte),
            old(self)@.state == State::OscPayload(kind),
        ensures
            moved(final(self)@, *final(read), *old(read)),
            final(read).with(final(self)@) == old(read).with(old(self)@).osc_payload_step(
                kind,
                byte,
            ),
    {
        read.skip();
        if byte == BEL {
            // The parser leaves its OSC before the image lands, as it does for
            // sixel.
            read.emit(Segment::Text(&BEL_BYTES));
            assert(BEL_BYTES@ =~= seq![BEL]);
            self.end_payload(kind, read);
        } else if byte == ESC {
            self.state = State::OscPayloadEscape(kind);
        } else if self.discard {
        } else if self.run.len() >= MAX_OSC_PAYLOAD {
            self.run.clear();
            self.discard = true;
        } else {
            self.run.push(byte);
        }
    }

    fn osc_payload_escape_byte(&mut self, kind: OscKind, byte: u8, read: &mut Reading<'_>)
        requires
            before(old(self)@, *old(read), byte),
            old(self)@.state == State::OscPayloadEscape(kind),
        ensures
            moved(final(self)@, *final(read), *old(read)),
            final(read).with(final(self)@) == old(read).with(old(self)@).osc_payload_escape_step(
                kind,
                byte,
            ),
    {
        read.emit(Segment::Text(&ST_BYTES));
        assert(ST_BYTES@ =~= seq![ESC, ST]);
        self.end_payload(kind, read);
        if byte == ST {
            read.skip();
        } else {
            read.emit(Segment::Text(&ESC_BYTES));
            assert(ESC_BYTES@ =~= seq![ESC]);
            self.text_byte(byte, read);
        }
    }

    /// A byte of a DCS's parameters.
    fn dcs_header_byte(&mut self, byte: u8, read: &mut Reading<'_>)
        requires
            before(old(self)@, *old(read), byte),
            old(self)@.state == State::DcsHeader,
        ensures
            moved(final(self)@, *final(read), *old(read)),
            final(read).with(final(self)@) == old(read).with(old(self)@).dcs_header_step(byte),
    {
        if ((0x30 <= byte && byte <= 0x39) || byte == 0x3b) && self.run.len() < MAX_DCS_HEADER {
            self.run.push(byte);
            read.pass();
        } else if byte == 0x71 {
            read.pass();
            read.flush();
            self.run.clear();
            self.state = State::Sixel;
        } else {
            // Not a sixel image: the rest of it is the parser's.
            self.run.clear();
            self.state = State::Text;
            self.text_byte(byte, read);
        }
    }

    /// A byte of a sixel image's data.
    fn sixel_byte(&mut self, byte: u8, read: &mut Reading<'_>)
        requires
            before(old(self)@, *old(read), byte),
            old(self)@.state == State::Sixel || old(self)@.state == State::SixelEscape,
        ensures
            moved(final(self)@, *final(read), *old(read)),
            final(read).with(final(self)@) == old(read).with(old(self)@).sixel_step(byte),
    {
        if self.state == State::SixelEscape {
            // The parser leaves its DCS before the image lands, so the rows
            // the image reserves reach the grid.
            read.emit(Segment::Text(&ST_BYTES));
            assert(ST_BYTES@ =~= seq![ESC, ST]);
            let data = self.take_run();
            read.emit(Segment::Sixel(data));
            self.state = State::Text;
            if byte == ST {
                read.skip();
            } else {
                // An escape ends a DCS, and this one starts whatever comes
                // next.
                read.emit(Segment::Text(&ESC_BYTES));
                assert(ESC_BYTES@ =~= seq![ESC]);
                self.text_byte(byte, read);
            }
        } else if byte == ESC {
            read.skip();
            self.state = State::SixelEscape;
        } else if byte == CAN || byte == SUB {
            // The parser is handed the byte, which ends the DCS it holds.
            self.run.clear();
            self.state = State::Text;
            self.text_byte(byte, read);
        } else {
            read.skip();
            self.run.push(byte);
            if self.run.len() > MAX_SIXEL {
                self.run.clear();
                self.state = State::SixelOverrun;
            }
        }
    }

    /// A byte of sixel data too long to keep.
    fn sixel_overrun_byte(&mut self, byte: u8, read: &mut Reading<'_>)
        requires
            before(old(self)@, *old(read), byte),
            old(self)@.state == State::SixelOverrun || old(self)@.state
                == State::SixelOverrunEscape,
        ensures
            moved(final(self)@, *final(read), *old(read)),
            final(read).with(final(self)@) == old(read).with(old(self)@).sixel_overrun_step(byte),
    {
        if self.state == State::SixelOverrunEscape {
            self.state = State::Text;
            if byte == ST {
                read.skip();
                read.emit(Segment::Text(&ST_BYTES));
                assert(ST_BYTES@ =~= seq![ESC, ST]);
            } else {
                read.emit(Segment::Text(&ESC_BYTES));
                assert(ESC_BYTES@ =~= seq![ESC]);
                self.text_byte(byte, read);
            }
        } else if byte == ESC {
            read.skip();
            self.state = State::SixelOverrunEscape;
        } else if byte == CAN || byte == SUB {
            self.state = State::Text;
            self.text_byte(byte, read);
        } else {
            read.skip();
        }
    }

    /// Split `bytes` into the runs the emulator should act on, in order.
    ///
    /// A `Text` segment borrows from `bytes`. An `ESC` held across the call
    /// boundary is re-emitted as its own segment once the byte after it turns
    /// out to open nothing of ours, so nothing is lost and nothing is
    /// duplicated.
    pub fn feed<'a>(&mut self, bytes: &'a [u8]) -> (out: Vec<Segment<'a>>)
        requires
            old(self).wf(),
        ensures
            final(self).wf(),
            final(self)@ == Progress::begin(old(self)@).read(bytes@).held,
            pieces(out@) == Progress::begin(old(self)@).read(bytes@).flush().out,
    {
        let mut read: Reading<'a> = Reading { bytes, text: 0, at: 0, out: Vec::new() };
        let ghost start = Progress::begin(self@);
        proof {
            assert(read.with(self@) =~= start);
            assert(bytes@.subrange(0, 0) =~= Seq::empty());
        }
        while read.at < bytes.len()
            invariant
                between(self@, read),
                read.bytes == bytes,
                read.with(self@) == start.read(bytes@.subrange(0, read.at as int)),
            decreases bytes.len() - read.at,
        {
            let byte = bytes[read.at];
            proof {
                let next = bytes@.subrange(0, read.at + 1);
                assert(next.drop_last() =~= bytes@.subrange(0, read.at as int));
                assert(next.last() == byte);
                reveal(Progress::step);
            }
            match self.state {
                State::Text => self.text_byte(byte, &mut read),
                State::Escape => self.escape_byte(byte, &mut read),
                State::Apc | State::ApcEscape => self.apc_byte(byte, &mut read),
                State::OscHeader => self.osc_header_byte(byte, &mut read),
                State::OscArgs(kind) => self.osc_args_byte(kind, byte, &mut read),
                State::OscArgsEscape(kind) => self.osc_args_escape_byte(kind, byte, &mut read),
                State::OscPayload(kind) => self.osc_payload_byte(kind, byte, &mut read),
                State::OscPayloadEscape(kind) => self.osc_payload_escape_byte(
                    kind,
                    byte,
                    &mut read,
                ),
                State::DcsHeader => self.dcs_header_byte(byte, &mut read),
                State::Sixel | State::SixelEscape => self.sixel_byte(byte, &mut read),
                State::SixelOverrun | State::SixelOverrunEscape => self.sixel_overrun_byte(
                    byte,
                    &mut read,
                ),
                State::Overrun | State::OverrunEscape => self.overrun_byte(byte, &mut read),
            }
        }
        assert(bytes@.subrange(0, read.at as int) =~= bytes@);
        read.flush();
        assert(read.with(self@) == start.read(bytes@).flush());
        read.out
    }
}

const FILE_HEADER: [u8; 10] = [0x31, 0x33, 0x33, 0x37, 0x3b, 0x46, 0x69, 0x6c, 0x65, 0x3d];

const BEGIN_HEADER: [u8; 19] = [
    0x31, 0x33, 0x33, 0x37, 0x3b, 0x4d, 0x75, 0x6c, 0x74, 0x69, 0x70, 0x61, 0x72, 0x74, 0x46, 0x69,
    0x6c, 0x65, 0x3d,
];

const PART_HEADER: [u8; 14] = [
    0x31, 0x33, 0x33, 0x37, 0x3b, 0x46, 0x69, 0x6c, 0x65, 0x50, 0x61, 0x72, 0x74, 0x3d,
];

const END_HEADER: [u8; 12] = [
    0x31, 0x33, 0x33, 0x37, 0x3b, 0x46, 0x69, 0x6c, 0x65, 0x45, 0x6e, 0x64,
];

const FILE_URL_HEADER: [u8; 2] = [0x37, 0x3b];

const PATH_HEADER: [u8; 4] = [0x39, 0x3b, 0x39, 0x3b];

/// The bytes after `ESC ]` that name a command.
fn header(kind: OscKind) -> (bytes: &'static [u8])
    ensures
        bytes@ == kind.header(),
{
    let bytes: &'static [u8] = match kind {
        OscKind::File => &FILE_HEADER,
        OscKind::Begin => &BEGIN_HEADER,
        OscKind::Part => &PART_HEADER,
        OscKind::End => &END_HEADER,
        OscKind::FileUrl => &FILE_URL_HEADER,
        OscKind::Path => &PATH_HEADER,
    };
    assert(bytes@ =~= kind.header());
    bytes
}

/// Whether `bytes` starts with `head`.
fn starts_with(bytes: &[u8], head: &[u8]) -> (yes: bool)
    ensures
        yes == stream::starts(head@, bytes@),
{
    if head.len() > bytes.len() {
        return false;
    }
    let mut i: usize = 0;
    while i < head.len()
        invariant
            i <= head.len() <= bytes.len(),
            forall|j: int| 0 <= j < i ==> head@[j] == bytes@[j],
        decreases head.len() - i,
    {
        if head[i] != bytes[i] {
            assert(bytes@.subrange(0, head@.len() as int)[i as int] == bytes@[i as int]);
            return false;
        }
        i = i + 1;
    }
    assert(head@ =~= bytes@.subrange(0, head@.len() as int));
    true
}

/// Whether `run` is the header of a command.
fn is_header(run: &[u8], kind: OscKind) -> (yes: bool)
    ensures
        yes == (run@ == kind.header()),
{
    let bytes = header(kind);
    if bytes.len() != run.len() {
        return false;
    }
    let yes = starts_with(bytes, run);
    assert(bytes@.subrange(0, run@.len() as int) =~= bytes@);
    yes
}

/// The command whose header `run` is.
fn osc_named(run: &[u8]) -> (kind: Option<OscKind>)
    ensures
        kind == stream::named(run@),
{
    if is_header(run, OscKind::File) {
        Some(OscKind::File)
    } else if is_header(run, OscKind::Begin) {
        Some(OscKind::Begin)
    } else if is_header(run, OscKind::Part) {
        Some(OscKind::Part)
    } else if is_header(run, OscKind::End) {
        Some(OscKind::End)
    } else if is_header(run, OscKind::FileUrl) {
        Some(OscKind::FileUrl)
    } else if is_header(run, OscKind::Path) {
        Some(OscKind::Path)
    } else {
        None
    }
}

/// Whether some header starts with `run`.
fn osc_may_name(run: &[u8]) -> (yes: bool)
    ensures
        yes == stream::may_name(run@),
        yes ==> run@.len() <= 19,
{
    let yes = starts_with(header(OscKind::File), run) || starts_with(header(OscKind::Begin), run)
        || starts_with(header(OscKind::Part), run) || starts_with(header(OscKind::End), run)
        || starts_with(header(OscKind::FileUrl), run) || starts_with(header(OscKind::Path), run);
    proof {
        if !yes {
            assert forall|kind: OscKind| !stream::starts(run@, #[trigger] kind.header()) by {
                match kind {
                    OscKind::File => {},
                    OscKind::Begin => {},
                    OscKind::Part => {},
                    OscKind::End => {},
                    OscKind::FileUrl => {},
                    OscKind::Path => {},
                }
            }
        }
    }
    yes
}

/// The value of a hexadecimal digit.
fn hex_digit(byte: u8) -> (value: Option<u8>)
    ensures
        value is Some <==> stream::is_hex(byte),
        value is Some ==> value->0 == stream::hex_value(byte) && value->0 < 16,
{
    if 0x30 <= byte && byte <= 0x39 {
        Some(byte - 0x30)
    } else if 0x41 <= byte && byte <= 0x46 {
        Some(byte - 0x41 + 10)
    } else if 0x61 <= byte && byte <= 0x66 {
        Some(byte - 0x61 + 10)
    } else {
        None
    }
}

/// The byte two hexadecimal digits after a `%` stand for.
fn escaped(high: u8, low: u8) -> (byte: Option<u8>)
    ensures
        byte == stream::escaped(high, low),
{
    match (hex_digit(high), hex_digit(low)) {
        (Some(high), Some(low)) => Some(high * 16 + low),
        _ => None,
    }
}

/// The path of a `file://host/path` URL, percent-decoded. A Windows drive path
/// arrives as `/C:/...` and loses the leading slash.
fn file_url(url: &[u8]) -> (path: Option<Vec<u8>>)
    ensures
        path is Some <==> stream::url_path(url@) is Some,
        path is Some ==> path->0@ == stream::url_path(url@)->0,
{
    let scheme: [u8; 7] = [0x66, 0x69, 0x6c, 0x65, 0x3a, 0x2f, 0x2f];
    assert(scheme@ =~= stream::file_scheme());
    if !starts_with(url, &scheme) {
        return None;
    }
    let rest = slice_subrange(url, 7, url.len());
    let mut slash: usize = 0;
    assert(rest@.subrange(0, rest@.len() as int) =~= rest@);
    while slash < rest.len() && rest[slash] != 0x2f
        invariant
            slash <= rest.len(),
            stream::first_at(rest@, 0x2f) == slash + stream::first_at(
                rest@.subrange(slash as int, rest@.len() as int),
                0x2f,
            ),
        decreases rest.len() - slash,
    {
        proof {
            let left = rest@.subrange(slash as int, rest@.len() as int);
            assert(left.subrange(1, left.len() as int) =~= rest@.subrange(
                slash + 1,
                rest@.len() as int,
            ));
        }
        slash = slash + 1;
    }
    if slash == rest.len() {
        return None;
    }
    let path = slice_subrange(rest, slash, rest.len());
    let mut decoded: Vec<u8> = Vec::new();
    let mut at: usize = 0;
    assert(path@.subrange(0, path@.len() as int) =~= path@);
    while at < path.len()
        invariant
            at <= path.len(),
            stream::decoded(path@) == decoded@ + stream::decoded(
                path@.subrange(at as int, path@.len() as int),
            ),
        decreases path.len() - at,
    {
        let ghost left = path@.subrange(at as int, path@.len() as int);
        let byte = if path[at] == 0x25 && path.len() - at >= 3 {
            escaped(path[at + 1], path[at + 2])
        } else {
            None
        };
        match byte {
            Some(byte) => {
                proof {
                    assert(left.subrange(3, left.len() as int) =~= path@.subrange(
                        at + 3,
                        path@.len() as int,
                    ));
                }
                decoded.push(byte);
                at = at + 3;
            },
            None => {
                proof {
                    assert(left.subrange(1, left.len() as int) =~= path@.subrange(
                        at + 1,
                        path@.len() as int,
                    ));
                }
                decoded.push(path[at]);
                at = at + 1;
            },
        }
    }
    assert(path@.subrange(at as int, path@.len() as int) =~= Seq::empty());
    assert(decoded@ =~= stream::decoded(path@));
    if decoded.len() >= 3 && decoded[0] == 0x2f && ascii_alphabetic(decoded[1]) && decoded[2]
        == COLON {
        decoded.remove(0);
        assert(decoded@ =~= stream::undrived(stream::decoded(path@)));
    }
    path_from(decoded)
}

fn ascii_alphabetic(byte: u8) -> (yes: bool)
    ensures
        yes == stream::is_letter(byte),
{
    (0x41 <= byte && byte <= 0x5a) || (0x61 <= byte && byte <= 0x7a)
}

/// An `OSC 9 ; 9` path, with the quotes Windows Terminal's snippets put
/// around it taken off.
fn quoted_path(path: &[u8]) -> (unquoted: Option<Vec<u8>>)
    ensures
        unquoted is Some <==> stream::nonempty(stream::unquoted(path@)) is Some,
        unquoted is Some ==> unquoted->0@ == stream::unquoted(path@),
{
    let n = path.len();
    if n >= 2 && path[0] == 0x22 && path[n - 1] == 0x22 {
        path_from(slice_to_vec(slice_subrange(path, 1, n - 1)))
    } else {
        path_from(slice_to_vec(path))
    }
}

/// A path as its bytes, none being named by no bytes.
fn path_from(bytes: Vec<u8>) -> (path: Option<Vec<u8>>)
    ensures
        path is Some <==> stream::nonempty(bytes@) is Some,
        path is Some ==> path->0@ == bytes@,
{
    if bytes.is_empty() {
        return None;
    }
    Some(bytes)
}

fn push_text<'a>(out: &mut Vec<Segment<'a>>, bytes: &'a [u8])
    ensures
        bytes@.len() == 0 ==> final(out)@ == old(out)@,
        bytes@.len() != 0 ==> pieces(final(out)@) == pieces(old(out)@).push(Piece::Text(bytes@)),
{
    if !bytes.is_empty() {
        out.push(Segment::Text(bytes));
        proof {
            assert(pieces(out@) =~= pieces(old(out)@).push(Piece::Text(bytes@)));
        }
    }
}

} // verus!
