//! The terminal emulator core: `alacritty_terminal`'s `Term` + vte's ANSI
//! `Processor` wrapped as a pure state machine.
//!
//! Bytes in ([`Emulator::feed`]), grid snapshots out ([`Emulator::line`],
//! [`Emulator::cursor`]). No timers and no I/O: the host owns the PTY and
//! scheduling, the view owns paint.
//!
//! The host owns the images too. [`Emulator::feed`] stops where a picture
//! stands in the stream; the host reads it, says where it goes
//! ([`Emulator::display`], [`Emulator::delete`]), and has the emulator go on
//! ([`Emulator::resume`]).
//!
//! Selection lives here ([`Emulator::start_selection`] and friends) rather
//! than in the host, because `Term` is what knows how to keep anchors on their
//! text as output scrolls the grid underneath them.
//!
//! `vte` buffers a synchronized update (mode 2026) and replays it at ESU.
//! Graphics leave the stream before that buffer, so a replay would land an
//! image under text written after it. `NoSync` turns the buffering off and the
//! frame is held here instead: see [`Emulator::render_hold`].

use alacritty_terminal::term::Term;
use vstd::prelude::*;

use crate::terminal::anchors;
use crate::terminal::anchors::{is_anchor, ANCHOR, ANCHOR_COLUMN, ANCHOR_COLUMN_MAX, ANCHOR_MAX};
use crate::terminal::cell;
use crate::terminal::cell::{row_chars, CellReading, CellSnapshot, CellView, GridPoint};
use crate::terminal::delete::{Delete, Reach};
use crate::terminal::locate;
use crate::terminal::locate::{all_found, locate};
use crate::terminal::modes::{keyboard_mode_of, mouse_mode_of, KeyboardMode, MouseMode};
use crate::terminal::placement::{
    Covered,
    CursorMovement,
    Display,
    Extent,
    Laid,
    Placement,
    PlacementKey,
    Placements,
    Refusal,
    Relative,
    Slot,
};
use crate::terminal::reply::{push_cell_report, Said, Status, WindowSize};
use crate::terminal::scanner;
use crate::terminal::scanner::{Iterm, Scanner, Segment};
use crate::terminal::screen;
use crate::terminal::screen::{
    EventCapture,
    GridSize,
    Mode,
    Notice,
    Parser,
    SelectionRange,
    SelectionType,
    Shape,
    Side,
    SCROLLBACK_LINES,
    TermState,
};
use crate::terminal::stream::{FilePiece, Held, Piece, Progress};
use crate::terminal::watch::{Phase, Stacks, Watch};
use crate::text::{chars_of, string_of};

verus! {

/// How long, in milliseconds, a [render hold](Emulator::render_hold) may last
/// before the host releases it. Matches the ceiling `vte` puts on its own
/// buffering.
pub const HOLD_TIMEOUT: u64 = 150;

/// Cursor position in viewport coordinates (row 0 = top of the visible grid).
#[derive(Debug, Clone, Copy, PartialEq, Eq, Structural)]
pub struct CursorSnapshot {
    pub row: usize,
    pub col: usize,
}

/// The grid as it stood when a render hold began.
///
/// Nothing after the sequence that began the hold had been folded in yet, so
/// this is the frame the program means to leave on screen.
struct HeldFrame {
    rows: Vec<Vec<CellReading>>,
    /// The scrollback offset the rows were read at, which is what maps a row
    /// back to a grid line when the live selection is stamped over them.
    offset: usize,
    cursor: Option<CursorSnapshot>,
    placements: Placements,
}

/// A frame, as a mathematical value: its cells, the lines of history it is
/// scrolled back by, where the cursor is drawn, and the placements on it.
#[verifier::ext_equal]
pub struct FrameView {
    pub rows: Seq<Seq<CellView>>,
    pub offset: nat,
    pub cursor: Option<CursorSnapshot>,
    pub laid: Laid,
    pub order: Seq<(PlacementKey, Relative)>,
}

impl View for HeldFrame {
    type V = FrameView;

    closed spec fn view(&self) -> FrameView {
        FrameView {
            rows: locate::rows_of(self.rows@),
            offset: self.offset as nat,
            cursor: self.cursor,
            laid: self.placements@,
            order: self.placements.order(),
        }
    }
}

impl HeldFrame {
    spec fn wf(&self) -> bool {
        &&& locate::fits(self.rows@)
        &&& self.offset <= SCROLLBACK_LINES
        &&& self.placements.wf()
    }
}

/// The cells of a terminal's screen, `offset` lines back into history.
pub open spec fn rows_shown(term: TermState, offset: int) -> Seq<Seq<CellView>> {
    Seq::new(
        screen::shape_of(term).lines,
        |row: int|
            Seq::new(
                screen::shape_of(term).columns,
                |col: int| screen::shown_cell(term, row - offset, col),
            ),
    )
}

/// Where a terminal's cursor is on the rows shown; none when it is hidden,
/// scrolled out, or on half a character.
pub open spec fn cursor_shown(term: TermState) -> Option<CursorSnapshot> {
    match screen::drawn_cursor_of(term) {
        Some(at) if !screen::stranded(term) => {
            let row = at.line + screen::shape_of(term).offset;
            if 0 <= row < screen::shape_of(term).lines {
                Some(CursorSnapshot { row: row as usize, col: at.column })
            } else {
                None
            }
        },
        _ => None,
    }
}

/// The frame a terminal shows.
pub open spec fn frame_of(
    term: TermState,
    laid: Laid,
    order: Seq<(PlacementKey, Relative)>,
) -> FrameView {
    FrameView {
        rows: rows_shown(term, screen::shape_of(term).offset as int),
        offset: screen::shape_of(term).offset,
        cursor: cursor_shown(term),
        laid,
        order,
    }
}

/// How a row is painted, its cells being those of grid line `line`.
pub open spec fn painted_row(
    cells: Seq<CellView>,
    line: int,
    range: Option<SelectionRange>,
) -> Seq<CellSnapshot> {
    Seq::new(
        cells.len(),
        |col: int|
            cells[col].painted(
                range matches Some(range) && range.takes(
                    GridPoint { line: line as i32, column: col as usize },
                ),
            ),
    )
}

impl FrameView {
    /// How the frame is painted. What is selected is washed, wherever the
    /// selection was made.
    pub open spec fn painted(self, range: Option<SelectionRange>) -> Seq<Seq<CellSnapshot>> {
        Seq::new(
            self.rows.len(),
            |row: int| painted_row(self.rows[row], row - self.offset, range),
        )
    }
}

/// A picture in the stream, for the host to read.
#[derive(Debug, Clone, PartialEq, Eq)]
pub enum Picture {
    /// A complete APC run: a graphics command where it parses as one.
    Graphics(Vec<u8>),
    /// A sixel image's data.
    Sixel(Vec<u8>),
    /// An iTerm2 file: its arguments, and its payload in base64.
    File { args: Vec<u8>, payload: Vec<u8> },
    /// A part of an iTerm2 file, in base64: see [`Emulator::file_part`].
    Part(Vec<u8>),
    /// An iTerm2 file that came in parts: its arguments, and its bytes.
    Whole { args: Vec<u8>, bytes: Vec<u8> },
}

/// A picture, as a mathematical value.
#[verifier::ext_equal]
pub enum PictureView {
    Graphics(Seq<u8>),
    Sixel(Seq<u8>),
    File { args: Seq<u8>, payload: Seq<u8> },
    Part(Seq<u8>),
    Whole { args: Seq<u8>, bytes: Seq<u8> },
}

impl View for Picture {
    type V = PictureView;

    open spec fn view(&self) -> PictureView {
        match self {
            Picture::Graphics(run) => PictureView::Graphics(run@),
            Picture::Sixel(data) => PictureView::Sixel(data@),
            Picture::File { args, payload } => PictureView::File {
                args: args@,
                payload: payload@,
            },
            Picture::Part(payload) => PictureView::Part(payload@),
            Picture::Whole { args, bytes } => PictureView::Whole { args: args@, bytes: bytes@ },
        }
    }
}

/// What stays as it is while the stream is acted on.
pub struct Fixed {
    pub laid: Laid,
    pub order: Seq<(PlacementKey, Relative)>,
    pub cell: Option<(u16, u16)>,
    pub sixel: bool,
    pub lines: nat,
    pub columns: nat,
}

impl Fixed {
    /// The grid and its cell in whole pixels.
    pub open spec fn window(self) -> Option<WindowSize> {
        match self.cell {
            Some((width, height)) => Some(
                WindowSize {
                    num_lines: self.lines as u16,
                    num_cols: self.columns as u16,
                    cell_width: width,
                    cell_height: height,
                },
            ),
            None => None,
        }
    }
}

/// What the stream changes as it is acted on.
#[verifier::ext_equal]
pub struct Acting {
    pub parser: Parser,
    pub term: TermState,
    pub said: Said,
    pub directory: Option<Seq<u8>>,
    pub multipart: Option<(Seq<u8>, Seq<u8>)>,
    pub held: Option<FrameView>,
}

impl Acting {
    /// The picture a run of the stream is, if it is one for the host to read.
    pub open spec fn picture(self, piece: Piece) -> Option<PictureView> {
        match piece {
            Piece::Graphics(run) => Some(PictureView::Graphics(run)),
            Piece::Sixel(data) => Some(PictureView::Sixel(data)),
            Piece::Iterm(FilePiece::File { args, payload }) => Some(
                PictureView::File { args, payload },
            ),
            Piece::Iterm(FilePiece::Part(payload)) => if self.multipart is Some {
                Some(PictureView::Part(payload))
            } else {
                None
            },
            Piece::Iterm(FilePiece::End) => match self.multipart {
                Some((args, bytes)) => Some(PictureView::Whole { args, bytes }),
                None => None,
            },
            _ => None,
        }
    }

    /// The picture handed over: a file that came in parts is whole.
    pub open spec fn handed(self, piece: Piece) -> Acting {
        if piece == Piece::Iterm(FilePiece::End) {
            Acting { multipart: None, ..self }
        } else {
            self
        }
    }

    /// A run of the stream that is no picture. Text is the terminal's to act
    /// on, and what it tells of that is heard before the next run. A hold
    /// already on stays on its own frame.
    pub open spec fn step(self, fixed: Fixed, piece: Piece) -> Acting {
        match piece {
            Piece::Text(text) => {
                let (parser, term) = screen::written(self.parser, self.term, text);
                let notices = screen::told_of(term);
                Acting {
                    parser,
                    term: screen::quieted(term),
                    said: self.said.hear_all(
                        notices,
                        notices.len() as int,
                        fixed.sixel,
                        fixed.window(),
                    ),
                    ..self
                }
            },
            Piece::Sync(true) => if self.held is Some {
                self
            } else {
                Acting { held: Some(frame_of(self.term, fixed.laid, fixed.order)), ..self }
            },
            Piece::Sync(false) => Acting { held: None, ..self },
            Piece::Directory(path) => Acting { directory: Some(path), ..self },
            Piece::CellSizeQuery => match fixed.window() {
                Some(window) => Acting { said: self.said.write(window.cell_report()), ..self },
                None => self,
            },
            Piece::Iterm(FilePiece::Begin { args }) => Acting {
                multipart: Some((args, Seq::empty())),
                ..self
            },
            _ => self,
        }
    }

    /// The first `n` runs acted on.
    pub open spec fn acted(self, fixed: Fixed, pieces: Seq<Piece>, n: int) -> Acting
        decreases n,
    {
        if n <= 0 {
            self
        } else {
            self.acted(fixed, pieces, n - 1).step(fixed, pieces[n - 1])
        }
    }

    /// What comes of some runs: they are acted on in order up to the first
    /// picture, which is handed over with the rest left for later.
    pub open spec fn feeds(self, fixed: Fixed, pieces: Seq<Piece>) -> Outcome
        decreases pieces.len(),
    {
        if pieces.len() == 0 {
            Outcome { after: self, picture: None, rest: Seq::empty() }
        } else if self.picture(pieces[0]) is Some {
            Outcome {
                after: self.handed(pieces[0]),
                picture: self.picture(pieces[0]),
                rest: pieces.drop_first(),
            }
        } else {
            self.step(fixed, pieces[0]).feeds(fixed, pieces.drop_first())
        }
    }
}

/// What comes of some runs of the stream.
#[verifier::ext_equal]
pub struct Outcome {
    pub after: Acting,
    /// The picture they were acted on up to, if there is one.
    pub picture: Option<PictureView>,
    /// The runs after it.
    pub rest: Seq<Piece>,
}

/// What is left of a read after a picture.
pub struct Rest<'a> {
    /// The runs, the next one last.
    stack: Vec<Segment<'a>>,
}

impl<'a> Rest<'a> {
    /// The runs left, in order.
    pub closed spec fn pieces(&self) -> Seq<Piece> {
        scanner::pieces(self.stack@).reverse()
    }

    fn of(segments: Vec<Segment<'a>>) -> (rest: Rest<'a>)
        ensures
            rest.pieces() == scanner::pieces(segments@),
    {
        let mut from = segments;
        let mut stack: Vec<Segment<'a>> = Vec::new();
        let ghost all = scanner::pieces(segments@);
        assert(scanner::pieces(stack@) =~= Seq::empty());
        assert(all.subrange(all.len() as int, all.len() as int).reverse() =~= Seq::empty());
        while from.len() > 0
            invariant
                all == scanner::pieces(segments@),
                from@.len() <= segments@.len(),
                from@ == segments@.subrange(0, from@.len() as int),
                scanner::pieces(stack@) == all.subrange(
                    from@.len() as int,
                    all.len() as int,
                ).reverse(),
            decreases from.len(),
        {
            let ghost n = from@.len() as int;
            let ghost before = stack@;
            if let Some(segment) = from.pop() {
                stack.push(segment);
                proof {
                    assert(scanner::pieces(stack@) =~= scanner::pieces(before).push(segment@));
                    assert(all[n - 1] == segment@);
                    assert(scanner::pieces(stack@) =~= all.subrange(
                        n - 1,
                        all.len() as int,
                    ).reverse());
                    assert(from@ =~= segments@.subrange(0, n - 1));
                }
            }
        }
        assert(all.subrange(0, all.len() as int) =~= all);
        assert(scanner::pieces(stack@).reverse() =~= all);
        Rest { stack }
    }

    fn next(&mut self) -> (segment: Option<Segment<'a>>)
        ensures
            segment is None ==> old(self).pieces().len() == 0 && final(self).pieces()
                == old(self).pieces(),
            segment matches Some(segment) ==> old(self).pieces().len() > 0 && segment@
                == old(self).pieces()[0] && final(self).pieces()
                == old(self).pieces().drop_first(),
    {
        let ghost before = self.stack@;
        let segment = self.stack.pop();
        proof {
            if segment is Some {
                assert(scanner::pieces(self.stack@) =~= scanner::pieces(before).drop_last());
                assert(scanner::pieces(self.stack@).reverse() =~= scanner::pieces(
                    before,
                ).reverse().drop_first());
            }
        }
        segment
    }
}

/// What came of a read.
pub struct Fed<'a> {
    /// Bytes the terminal wants written back to the PTY (DSR/DA query
    /// responses, size reports).
    pub responses: Vec<u8>,
    /// The picture the emulator stopped at, if it did.
    pub picture: Option<Picture>,
    /// What is left of the read, for [`Emulator::resume`].
    pub rest: Rest<'a>,
}

impl<'a> Fed<'a> {
    /// What came of a read, `after` being the emulator it left.
    pub open spec fn outcome(&self, after: EmulatorView) -> Outcome {
        Outcome {
            after: after.acting(self.responses@),
            picture: picture_view(self.picture),
            rest: self.rest.pieces(),
        }
    }
}

/// A picture, as a mathematical value.
pub open spec fn picture_view(picture: Option<Picture>) -> Option<PictureView> {
    match picture {
        Some(picture) => Some(picture@),
        None => None,
    }
}

/// The emulator: a pure fold of PTY bytes into a renderable grid.
pub struct Emulator {
    term: Term<EventCapture>,
    parser: Parser,
    /// Where the parser is, and what the terminal's stacks hold.
    watch: Watch,
    /// What the terminal tells.
    capture: EventCapture,
    status: Status,
    directory: Option<Vec<u8>>,
    /// Splits graphics commands off the stream ahead of the parser. Held
    /// across feeds: a pty read ends wherever the kernel filled the buffer,
    /// which is as likely to be inside an escape as anywhere else.
    scanner: Scanner,
    /// Live placements. The grid holds where each one is; this holds what it
    /// is.
    placements: Placements,
    /// Whether DA1 is answered with sixel support in it.
    advertise_sixel: bool,
    /// An iTerm2 file arriving in parts: its arguments, and its bytes so far.
    multipart: Option<(Vec<u8>, Vec<u8>)>,
    /// One cell in whole pixels. The view measures it from the font every
    /// frame and the host hands it over; until then size reports go
    /// unanswered.
    cell: Option<(u16, u16)>,
    /// The frame served while a render hold is on.
    held: Option<HeldFrame>,
}

/// An emulator, as mathematical values.
#[verifier::ext_equal]
pub struct EmulatorView {
    pub parser: Parser,
    pub term: TermState,
    pub title: Option<Seq<char>>,
    pub bell: bool,
    pub directory: Option<Seq<u8>>,
    pub scanner: Held,
    pub laid: Laid,
    pub order: Seq<(PlacementKey, Relative)>,
    pub advertise_sixel: bool,
    pub multipart: Option<(Seq<u8>, Seq<u8>)>,
    pub cell: Option<(u16, u16)>,
    pub held: Option<FrameView>,
}

/// Bytes, as a mathematical value.
pub open spec fn bytes_view(bytes: Option<Vec<u8>>) -> Option<Seq<u8>> {
    match bytes {
        Some(bytes) => Some(bytes@),
        None => None,
    }
}

/// A file arriving in parts, as a mathematical value.
pub open spec fn parts_view(parts: Option<(Vec<u8>, Vec<u8>)>) -> Option<(Seq<u8>, Seq<u8>)> {
    match parts {
        Some((args, bytes)) => Some((args@, bytes@)),
        None => None,
    }
}

impl View for Emulator {
    type V = EmulatorView;

    closed spec fn view(&self) -> EmulatorView {
        EmulatorView {
            parser: self.parser,
            term: screen::state_of(self.term),
            title: crate::terminal::reply::text_view(self.status.title),
            bell: self.status.bell,
            directory: bytes_view(self.directory),
            scanner: self.scanner@,
            laid: self.placements@,
            order: self.placements.order(),
            advertise_sixel: self.advertise_sixel,
            multipart: parts_view(self.multipart),
            cell: self.cell,
            held: match self.held {
                Some(held) => Some(held@),
                None => None,
            },
        }
    }
}

impl EmulatorView {
    pub open spec fn shape(self) -> Shape {
        screen::shape_of(self.term)
    }

    pub open spec fn fixed(self) -> Fixed {
        Fixed {
            laid: self.laid,
            order: self.order,
            cell: self.cell,
            sixel: self.advertise_sixel,
            lines: self.shape().lines,
            columns: self.shape().columns,
        }
    }

    /// What the stream can change, with the replies written so far.
    pub open spec fn acting(self, responses: Seq<u8>) -> Acting {
        Acting {
            parser: self.parser,
            term: self.term,
            said: Said { title: self.title, bell: self.bell, responses },
            directory: self.directory,
            multipart: self.multipart,
            held: self.held,
        }
    }

    /// The frame that is served: the one held, or the live one.
    pub open spec fn frame(self) -> FrameView {
        match self.held {
            Some(held) => held,
            None => frame_of(self.term, self.laid, self.order),
        }
    }
}

impl Emulator {
    pub closed spec fn wf(&self) -> bool {
        &&& self.scanner.wf()
        &&& self.placements.wf()
        &&& screen::shape_of(screen::state_of(self.term)).wf()
        &&& screen::steady(screen::state_of(self.term))
        &&& screen::watched(self.watch, self.parser, screen::state_of(self.term))
        &&& screen::listener_of(self.term) == self.capture
        &&& self.held matches Some(held) ==> held.wf()
    }

    /// What holds of every emulator.
    pub proof fn lemma_wf(&self)
        requires
            self.wf(),
        ensures
            self@.shape().wf(),
            self@.scanner.wf(),
            self@.laid.wf(),
    {
        self.placements.lemma_laid();
    }

    pub fn new(cols: u16, rows: u16) -> (emulator: Emulator)
        ensures
            emulator.wf(),
            emulator@.shape() == (Shape {
                columns: if cols < 2 {
                    2
                } else {
                    cols as nat
                },
                lines: if rows < 1 {
                    1
                } else {
                    rows as nat
                },
                history: 0,
                offset: 0,
            }),
            forall|at: GridPoint|
                #![trigger screen::cell_of(emulator@.term, at)]
                emulator@.shape().has(at) ==> screen::cell_of(emulator@.term, at)
                    == CellView::blank(),
            screen::cursor_of(emulator@.term) == (GridPoint { line: 0, column: 0 }),
            screen::picked_of(emulator@.term) is None,
            screen::modes_of(emulator@.term) == set![Mode::AlternateScroll],
            emulator@.scanner == Held::fresh(),
            emulator@.title is None,
            !emulator@.bell,
            emulator@.directory is None,
            emulator@.laid.placed == Map::<u32, crate::terminal::placement::Placed>::empty(),
            emulator@.laid.virtuals == Map::<
                PlacementKey,
                crate::terminal::placement::Virtual,
            >::empty(),
            emulator@.laid.relatives == Map::<PlacementKey, Relative>::empty(),
            emulator@.laid.next_anchor == 0,
            emulator@.order == Seq::<(PlacementKey, Relative)>::empty(),
            !emulator@.advertise_sixel,
            emulator@.multipart is None,
            emulator@.cell is None,
            emulator@.held is None,
    {
        // Answering the keyboard queries and keeping the mode stack are one
        // feature with the encoder of the keys: a program reads the answer to
        // decide whether to use the protocol at all.
        let (term, capture) = screen::new_term(GridSize::new(cols, rows), SCROLLBACK_LINES, true);
        Emulator {
            term,
            parser: screen::new_parser(),
            watch: Watch {
                phase: Phase::Text,
                stacks: Stacks { keyboard: true, main: 0, alt: 0, titles: 0 },
            },
            capture,
            status: Status { title: None, bell: false },
            directory: None,
            scanner: Scanner::new(),
            placements: Placements::new(),
            advertise_sixel: false,
            multipart: None,
            cell: None,
            held: None,
        }
    }

    /// The grid and its cell in whole pixels, which is what the size reports
    /// carry. `None` until the view has measured a cell.
    fn window_size(&self) -> (window: Option<WindowSize>)
        requires
            self.wf(),
        ensures
            window == self@.fixed().window(),
    {
        match self.cell {
            Some((width, height)) => Some(
                WindowSize {
                    num_lines: screen::screen_lines(&self.term) as u16,
                    num_cols: screen::columns(&self.term) as u16,
                    cell_width: width,
                    cell_height: height,
                },
            ),
            None => None,
        }
    }

    /// The cells of the screen, `offset` lines back into history.
    fn rows_back(&self, offset: usize) -> (rows: Vec<Vec<CellReading>>)
        requires
            self.wf(),
            offset <= SCROLLBACK_LINES,
        ensures
            locate::fits(rows@),
            locate::rows_of(rows@) == rows_shown(self@.term, offset as int),
    {
        let lines = screen::screen_lines(&self.term);
        let columns = screen::columns(&self.term);
        let mut rows: Vec<Vec<CellReading>> = Vec::new();
        let mut row: usize = 0;
        while row < lines
            invariant
                self.wf(),
                offset <= SCROLLBACK_LINES,
                lines == self@.shape().lines,
                columns == self@.shape().columns,
                row <= lines <= u16::MAX,
                rows@.len() == row,
                locate::fits(rows@),
                forall|i: int|
                    0 <= i < row ==> locate::cells_of((#[trigger] rows@[i])@) == rows_shown(
                        self@.term,
                        offset as int,
                    )[i],
            decreases lines - row,
        {
            let cells = self.row_back(row, offset);
            rows.push(cells);
            row = row + 1;
        }
        assert(locate::rows_of(rows@) =~= rows_shown(self@.term, offset as int)) by {
            assert forall|i: int| 0 <= i < rows@.len() implies locate::rows_of(rows@)[i]
                == rows_shown(self@.term, offset as int)[i] by {
                assert(locate::cells_of(rows@[i]@) == locate::rows_of(rows@)[i]);
            }
        }
        rows
    }

    /// The cells of one row of the screen, `offset` lines back into history.
    fn row_back(&self, row: usize, offset: usize) -> (cells: Vec<CellReading>)
        requires
            self.wf(),
            offset <= SCROLLBACK_LINES,
            row < self@.shape().lines,
        ensures
            cells@.len() <= u16::MAX,
            locate::cells_of(cells@) == rows_shown(self@.term, offset as int)[row as int],
    {
        let columns = screen::columns(&self.term);
        let line = row as i32 - offset as i32;
        let mut cells: Vec<CellReading> = Vec::new();
        let mut column: usize = 0;
        while column < columns
            invariant
                self.wf(),
                columns == self@.shape().columns,
                column <= columns <= u16::MAX,
                cells@.len() == column,
                line == row - offset,
                forall|j: int|
                    0 <= j < column ==> (#[trigger] cells@[j])@ == screen::shown_cell(
                        self@.term,
                        line as int,
                        j,
                    ),
            decreases columns - column,
        {
            let cell = screen::read_cell(&self.term, GridPoint { line, column });
            cells.push(cell);
            column = column + 1;
        }
        assert(locate::cells_of(cells@) =~= rows_shown(self@.term, offset as int)[row as int]);
        cells
    }

    fn live_cursor(&self) -> (cursor: Option<CursorSnapshot>)
        requires
            self.wf(),
        ensures
            cursor == cursor_shown(self@.term),
    {
        let at = screen::cursor_point(&self.term);
        if at.column == 0 && screen::read_cell(&self.term, at).trailing {
            return None;
        }
        let Some(at) = screen::drawn_cursor(&self.term) else {
            return None;
        };
        let offset = screen::display_offset(&self.term);
        let row = at.line as i64 + offset as i64;
        if row < 0 || row >= screen::screen_lines(&self.term) as i64 {
            return None;
        }
        Some(CursorSnapshot { row: row as usize, col: at.column })
    }

    /// Capture the frame a hold begins on. A hold already on stays on its own
    /// frame: setting the mode twice is one hold.
    fn hold(&mut self)
        requires
            old(self).wf(),
        ensures
            final(self).wf(),
            final(self)@ == (EmulatorView {
                held: if old(self)@.held is Some {
                    old(self)@.held
                } else {
                    Some(frame_of(old(self)@.term, old(self)@.laid, old(self)@.order))
                },
                ..old(self)@
            }),
    {
        if self.held.is_some() {
            return;
        }
        let offset = screen::display_offset(&self.term);
        self.held = Some(
            HeldFrame {
                rows: self.rows_back(offset),
                offset,
                cursor: self.live_cursor(),
                placements: self.placements.copy(),
            },
        );
    }
}

/// What a client is told of its placement: which one, and what went wrong if
/// something did.
#[derive(Debug, Clone, Copy, PartialEq, Eq)]
pub struct Reply {
    pub id: u32,
    pub number: u32,
    pub placement: u32,
    pub error: Option<Refusal>,
}

/// What a client is told of a display, `reply` being what it was to be told
/// had nothing gone wrong. The store of images said yes to what it could see;
/// the placement is refused on what only the grid knows.
pub open spec fn told(display: Display, refused: Option<Refusal>, reply: Option<Reply>) -> Option<
    Reply,
> {
    match refused {
        None => reply,
        Some(refusal) => if display.quiet < 2 {
            Some(
                Reply {
                    id: display.image,
                    number: match reply {
                        Some(reply) => reply.number,
                        None => 0,
                    },
                    placement: display.placement,
                    error: Some(refusal),
                },
            )
        } else {
            None
        },
    }
}

/// The marks of a cell once the placement under `anchor` is written onto it,
/// the cell being column `column` of the placement.
///
/// A cell only ever gains marks, so one anchored again without being written
/// to in between would collect a pair per redraw: it is rebuilt from the marks
/// still worth keeping.
pub open spec fn stamped(laid: Laid, marks: Seq<char>, anchor: u32, column: int) -> Seq<char> {
    let kept = if exists|i: int| 0 <= i < marks.len() && anchors::anchors(#[trigger] marks[i]) {
        laid.keeps(marks)
    } else {
        marks
    };
    kept.push(anchors::char_of(ANCHOR + anchor)).push(anchors::char_of(ANCHOR_COLUMN + column))
}

/// A grid once the placement under `anchor` is written onto the `n` cells from
/// `at` to the right.
pub open spec fn stamped_row(
    grid: Map<(int, int), CellView>,
    laid: Laid,
    anchor: u32,
    at: GridPoint,
    n: int,
) -> Map<(int, int), CellView>
    decreases n,
{
    if n <= 0 {
        grid
    } else {
        let before = stamped_row(grid, laid, anchor, at, n - 1);
        let key = (at.line as int, at.column + n - 1);
        before.insert(
            key,
            CellView { marks: stamped(laid, before[key].marks, anchor, n - 1), ..before[key] },
        )
    }
}

/// Whether a terminal is another with its cells those of a grid.
pub open spec fn stamps(
    before: TermState,
    grid: Map<(int, int), CellView>,
    after: TermState,
) -> bool {
    screen::alike_but_for_cells(before, after) && screen::grid_of(after) == grid
}

/// A parser and a terminal once so many linefeeds have been fed.
pub open spec fn linefed(parser: Parser, term: TermState, n: nat) -> (
    Parser,
    TermState,
)
    decreases n,
{
    if n == 0 {
        (parser, term)
    } else {
        let (parser, term) = linefed(parser, term, (n - 1) as nat);
        screen::written(parser, term, seq![0x0au8])
    }
}

/// Whether a placement is on the grid: the grid is `grid`, and the terminal has
/// then been fed `rows` linefeeds.
pub open spec fn anchored(
    before: EmulatorView,
    grid: Map<(int, int), CellView>,
    rows: nat,
    after: EmulatorView,
) -> bool {
    exists|stamped: TermState| #[trigger]
        stamps(before.term, grid, stamped) && (after.parser, after.term) == linefed(
            before.parser,
            stamped,
            rows,
        )
}

/// How many cells of a placement's top row are written to.
pub open spec fn stamped_width(shape: Shape, at: GridPoint, cols: u16) -> int {
    let room = if shape.has(at) && at.line >= 0 {
        shape.columns - at.column
    } else {
        0
    };
    let most = if cols <= ANCHOR_COLUMN_MAX {
        cols as int
    } else {
        ANCHOR_COLUMN_MAX as int
    };
    if most <= room {
        most
    } else {
        room
    }
}

impl Emulator {
    /// Act on the runs of a read, in order, up to the first picture.
    fn act<'a>(&mut self, rest: Rest<'a>) -> (fed: Fed<'a>)
        requires
            old(self).wf(),
        ensures
            final(self).wf(),
            final(self)@.fixed() == old(self)@.fixed(),
            final(self)@.scanner == old(self)@.scanner,
            fed.outcome(final(self)@) == old(self)@.acting(Seq::empty()).feeds(
                old(self)@.fixed(),
                rest.pieces(),
            ),
    {
        let mut rest = rest;
        let mut responses: Vec<u8> = Vec::new();
        let ghost fixed = self@.fixed();
        let ghost all = self@.acting(Seq::empty()).feeds(fixed, rest.pieces());
        let mut picture: Option<Picture> = None;
        assert(self@.acting(responses@) =~= self@.acting(Seq::empty()));
        loop
            invariant_except_break
                picture is None,
                self@.acting(responses@).feeds(fixed, rest.pieces()) == all,
            invariant
                self.wf(),
                self@.fixed() == fixed,
                self@.scanner == old(self)@.scanner,
            ensures
                (Outcome {
                    after: self@.acting(responses@),
                    picture: picture_view(picture),
                    rest: rest.pieces(),
                }) == all,
            decreases rest.pieces().len(),
        {
            let ghost here = self@.acting(responses@);
            let ghost pieces = rest.pieces();
            let Some(segment) = rest.next() else {
                assert(rest.pieces() =~= Seq::empty());
                break;
            };
            let ghost piece = segment@;
            match segment {
                Segment::Text(text) => {
                    screen::write(&mut self.parser, &mut self.watch, &mut self.term, text);
                    let window = self.window_size();
                    let notices = screen::take_notices(&mut self.term, &self.capture);
                    self.status.hear(&notices, self.advertise_sixel, window, &mut responses);
                },
                Segment::Sync(hold) => {
                    if hold {
                        self.hold();
                    } else {
                        self.held = None;
                    }
                },
                Segment::Directory(path) => {
                    self.directory = Some(path);
                },
                Segment::CellSizeQuery => {
                    if let Some(window) = self.window_size() {
                        push_cell_report(&mut responses, window);
                    }
                },
                Segment::Iterm(Iterm::Begin { args }) => {
                    self.multipart = Some((args, Vec::new()));
                    assert(Seq::<u8>::empty() =~= (self.multipart->0).1@);
                },
                Segment::Iterm(Iterm::Part(payload)) => {
                    if self.multipart.is_some() {
                        picture = Some(Picture::Part(payload));
                    }
                },
                Segment::Iterm(Iterm::End) => {
                    let mut parts: Option<(Vec<u8>, Vec<u8>)> = None;
                    std::mem::swap(&mut self.multipart, &mut parts);
                    if let Some((args, bytes)) = parts {
                        picture = Some(Picture::Whole { args, bytes });
                    }
                },
                Segment::Iterm(Iterm::File { args, payload }) => {
                    picture = Some(Picture::File { args, payload });
                },
                Segment::Graphics(run) => {
                    picture = Some(Picture::Graphics(run));
                },
                Segment::Sixel(data) => {
                    picture = Some(Picture::Sixel(data));
                },
            }
            assert(picture_view(picture) == here.picture(piece));
            if picture.is_some() {
                assert(self@.acting(responses@) =~= here.handed(piece));
                break;
            }
            assert(self@.acting(responses@) =~= here.step(fixed, piece));
        }
        Fed { responses, picture, rest }
    }

    /// Advance the state machine over decoded PTY output, up to the first
    /// picture in it.
    ///
    /// Replies leave in the order their queries arrived. A program probing
    /// with several queries and a `CSI c` behind them reads the DA answer as
    /// the end of the replies it will get.
    ///
    /// Mode 2026 is acted on where it sits too: the frame the program wants
    /// left on screen is the grid as it stands when the mode goes on.
    ///
    /// `CSI 14 t` and `CSI 16 t` go unanswered until
    /// [`Emulator::set_cell_size`] has been called.
    pub fn feed<'a>(&mut self, bytes: &'a [u8]) -> (fed: Fed<'a>)
        requires
            old(self).wf(),
        ensures
            final(self).wf(),
            final(self)@.fixed() == old(self)@.fixed(),
            final(self)@.scanner == Progress::begin(old(self)@.scanner).read(bytes@).held,
            fed.outcome(final(self)@) == old(self)@.acting(Seq::empty()).feeds(
                old(self)@.fixed(),
                Progress::begin(old(self)@.scanner).read(bytes@).flush().out,
            ),
    {
        let segments = self.scanner.feed(bytes);
        proof {
            assert(self@.acting(Seq::empty()) =~= old(self)@.acting(Seq::empty()));
        }
        self.act(Rest::of(segments))
    }

    /// Go on with a read after a picture, up to the next one.
    pub fn resume<'a>(&mut self, rest: Rest<'a>) -> (fed: Fed<'a>)
        requires
            old(self).wf(),
        ensures
            final(self).wf(),
            final(self)@.fixed() == old(self)@.fixed(),
            final(self)@.scanner == old(self)@.scanner,
            fed.outcome(final(self)@) == old(self)@.acting(Seq::empty()).feeds(
                old(self)@.fixed(),
                rest.pieces(),
            ),
    {
        self.act(rest)
    }

    /// The bytes of a part of an iTerm2 file. A file past `limit` bytes is
    /// dropped.
    pub fn file_part(&mut self, bytes: Vec<u8>, limit: usize)
        requires
            old(self).wf(),
        ensures
            final(self).wf(),
            final(self)@ == (EmulatorView {
                multipart: match old(self)@.multipart {
                    Some((args, so_far)) => if so_far.len() + bytes@.len() > limit {
                        None
                    } else {
                        Some((args, so_far + bytes@))
                    },
                    None => None,
                },
                ..old(self)@
            }),
    {
        let mut parts: Option<(Vec<u8>, Vec<u8>)> = None;
        std::mem::swap(&mut self.multipart, &mut parts);
        if let Some((args, mut so_far)) = parts {
            let mut bytes = bytes;
            so_far.append(&mut bytes);
            if so_far.len() <= limit {
                self.multipart = Some((args, so_far));
            }
        }
    }

    /// The pixel size of one cell, measured by the view and rounded.
    pub fn set_cell_size(&mut self, width: u16, height: u16)
        requires
            old(self).wf(),
        ensures
            final(self).wf(),
            final(self)@ == (EmulatorView { cell: Some((width, height)), ..old(self)@ }),
    {
        self.cell = Some((width, height));
    }

    /// Answer DA1 as a VT220 with sixel graphics (`CSI ? 62 ; 4 ; 22 c`)
    /// rather than as a VT102 (`CSI ? 6 c`). Off until a host turns it on.
    /// Programs read attribute 4 in that answer to decide whether to send
    /// sixel images; they are shown either way.
    pub fn set_advertise_sixel(&mut self, advertise: bool)
        requires
            old(self).wf(),
        ensures
            final(self).wf(),
            final(self)@ == (EmulatorView { advertise_sixel: advertise, ..old(self)@ }),
    {
        self.advertise_sixel = advertise;
    }

    /// Write the placement under `anchor` onto a cell.
    fn stamp(&mut self, at: GridPoint, anchor: u32, column: usize)
        requires
            old(self).wf(),
            old(self)@.shape().has(at),
            anchor < ANCHOR_MAX,
            column < ANCHOR_COLUMN_MAX,
        ensures
            final(self).wf(),
            final(self)@ == (EmulatorView { term: final(self)@.term, ..old(self)@ }),
            screen::alike_but_for_cells(old(self)@.term, final(self)@.term),
            screen::grid_of(final(self)@.term) == screen::grid_of(old(self)@.term).insert(
                (at.line as int, at.column as int),
                CellView {
                    marks: stamped(
                        old(self)@.laid,
                        screen::cell_of(old(self)@.term, at).marks,
                        anchor,
                        column as int,
                    ),
                    ..screen::cell_of(old(self)@.term, at)
                },
            ),
    {
        stamp_cell(&mut self.term, &self.placements, at, anchor, column);
    }

    /// Write a placement's anchors at the cursor, and move the cursor past it
    /// unless the display said not to.
    ///
    /// The rows it covers are reserved by feeding that many linefeeds through
    /// the parser rather than by moving the cursor directly: a linefeed at the
    /// bottom of the screen scrolls, which is what pushes the image's own
    /// anchors into history at the same moment its text would have gone.
    /// Staying reserves nothing, so the image covers whatever is drawn under
    /// it.
    fn anchor(&mut self, display: Display, covered: Covered)
        requires
            old(self).wf(),
        ensures
            final(self).wf(),
            final(self)@ == (EmulatorView {
                parser: final(self)@.parser,
                term: final(self)@.term,
                laid: final(self)@.laid,
                order: final(self)@.order,
                ..old(self)@
            }),
            final(self)@.laid == old(self)@.laid.claimed(display.named()).settled(
                (old(self)@.laid.next_anchor % ANCHOR_MAX) as u32,
                display,
                covered,
            ),
            final(self)@.shape().columns == old(self)@.shape().columns,
            final(self)@.shape().lines == old(self)@.shape().lines,
            ({
                let at = screen::cursor_of(old(self)@.term);
                anchored(
                    old(self)@,
                    stamped_row(
                        screen::grid_of(old(self)@.term),
                        old(self)@.laid.claimed(display.named()),
                        (old(self)@.laid.next_anchor % ANCHOR_MAX) as u32,
                        at,
                        stamped_width(old(self)@.shape(), at, covered.cols),
                    ),
                    display.reserves(covered.rows),
                    final(self)@,
                )
            }),
    {
        let anchor = self.placements.claim(display);
        let ghost claimed = self@;
        let ghost term = self@.term;
        let cursor = screen::cursor_point(&self.term);
        let columns = screen::columns(&self.term);
        let lines = screen::screen_lines(&self.term);
        let room = if cursor.line >= 0 && (cursor.line as usize) < lines && cursor.column
            < columns {
            columns - cursor.column
        } else {
            0
        };
        let most = if covered.cols as u32 <= ANCHOR_COLUMN_MAX {
            covered.cols as usize
        } else {
            ANCHOR_COLUMN_MAX as usize
        };
        let width = if most <= room {
            most
        } else {
            room
        };
        let mut offset: usize = 0;
        while offset < width
            invariant
                offset <= width <= ANCHOR_COLUMN_MAX,
                self.wf(),
                anchor < ANCHOR_MAX,
                self@ == (EmulatorView { term: self@.term, ..claimed }),
                screen::alike_but_for_cells(term, self@.term),
                cursor.line >= 0 || width == 0,
                cursor.line < screen::shape_of(term).lines || width == 0,
                cursor.column + width <= screen::shape_of(term).columns || width == 0,
                screen::shape_of(term).columns <= u16::MAX,
                screen::grid_of(self@.term) == stamped_row(
                    screen::grid_of(term),
                    claimed.laid,
                    anchor,
                    cursor,
                    offset as int,
                ),
            decreases width - offset,
        {
            self.stamp(
                GridPoint { line: cursor.line, column: cursor.column + offset },
                anchor,
                offset,
            );
            offset = offset + 1;
        }
        self.placements.settle(anchor, display, covered);
        let ghost stamped = self@.term;
        let ghost parser = self.parser;
        match display.cursor_movement {
            CursorMovement::After => {
                let newline: [u8; 1] = [0x0a];
                assert(newline@ =~= seq![0x0au8]);
                let mut row: u16 = 0;
                while row < covered.rows
                    invariant
                        row <= covered.rows,
                        self.wf(),
                        self@ == (EmulatorView {
                            parser: self@.parser,
                            term: self@.term,
                            laid: self@.laid,
                            order: self@.order,
                            ..claimed
                        }),
                        (self@.parser, self@.term) == linefed(parser, stamped, row as nat),
                        newline@ == seq![0x0au8],
                        self@.laid == claimed.laid.settled(anchor, display, covered),
                        self@.shape().columns == screen::shape_of(term).columns,
                        self@.shape().lines == screen::shape_of(term).lines,
                    decreases covered.rows - row,
                {
                    screen::write(&mut self.parser, &mut self.watch, &mut self.term, &newline);
                    row = row + 1;
                }
            },
            CursorMovement::Stay => {},
        }
        proof {
            let at = screen::cursor_of(term);
            assert(stamps(
                term,
                stamped_row(
                    screen::grid_of(term),
                    claimed.laid,
                    anchor,
                    at,
                    stamped_width(screen::shape_of(term), at, covered.cols),
                ),
                stamped,
            ));
        }
    }
}

/// Write the placement under `anchor` onto a cell, letting go of the pairs of
/// those that are no more.
fn stamp_cell(
    term: &mut Term<EventCapture>,
    placements: &Placements,
    at: GridPoint,
    anchor: u32,
    column: usize,
)
    requires
        placements.wf(),
        screen::shape_of(screen::state_of(*old(term))).has(at),
        anchor < ANCHOR_MAX,
        column < ANCHOR_COLUMN_MAX,
    ensures
        screen::alike_but_for_cells(screen::state_of(*old(term)), screen::state_of(*final(term))),
        screen::listener_of(*final(term)) == screen::listener_of(*old(term)),
        screen::grid_of(screen::state_of(*final(term))) == screen::grid_of(
            screen::state_of(*old(term)),
        ).insert(
            (at.line as int, at.column as int),
            CellView {
                marks: stamped(
                    placements@,
                    screen::cell_of(screen::state_of(*old(term)), at).marks,
                    anchor,
                    column as int,
                ),
                ..screen::cell_of(screen::state_of(*old(term)), at)
            },
        ),
{
    let ghost grid = screen::grid_of(screen::state_of(*term));
    let ghost before = screen::cell_of(screen::state_of(*term), at);
    let marks = screen::marks(term, at);
    if any_anchor(&marks) {
        let kept = placements.kept(&marks);
        rebuild(term, at, &kept);
    }
    push_pair(term, at, anchor, column);
    assert(screen::grid_of(screen::state_of(*term)) =~= grid.insert(
        (at.line as int, at.column as int),
        CellView { marks: stamped(placements@, before.marks, anchor, column as int), ..before },
    ));
}

/// Rebuild a cell from the marks still worth keeping — the pairs of placements
/// still live — which takes its underline color and hyperlink with it.
fn rebuild(term: &mut Term<EventCapture>, at: GridPoint, kept: &Vec<char>)
    requires
        screen::shape_of(screen::state_of(*old(term))).has(at),
    ensures
        screen::alike_but_for_cells(screen::state_of(*old(term)), screen::state_of(*final(term))),
        screen::listener_of(*final(term)) == screen::listener_of(*old(term)),
        screen::grid_of(screen::state_of(*final(term))) == screen::grid_of(screen::state_of(*old(term))).insert(
            (at.line as int, at.column as int),
            CellView { marks: kept@, ..screen::cell_of(screen::state_of(*old(term)), at) },
        ),
{
    let ghost key = (at.line as int, at.column as int);
    let ghost before = screen::cell_of(screen::state_of(*term), at);
    let ghost grid = screen::grid_of(screen::state_of(*term));
    screen::clear_extra(term, at);
    let mut i: usize = 0;
    assert(kept@.subrange(0, 0) =~= Seq::empty());
    while i < kept.len()
        invariant
            i <= kept@.len(),
            key == (at.line as int, at.column as int),
            screen::alike_but_for_cells(screen::state_of(*old(term)), screen::state_of(*term)),
        screen::listener_of(*term) == screen::listener_of(*old(term)),
            screen::shape_of(screen::state_of(*old(term))).has(at),
            screen::grid_of(screen::state_of(*term)) == grid.insert(
                key,
                CellView { marks: kept@.subrange(0, i as int), ..before },
            ),
        decreases kept@.len() - i,
    {
        screen::push_mark(term, at, kept[i]);
        i = i + 1;
        proof {
            assert(kept@.subrange(0, i as int) =~= kept@.subrange(0, i - 1).push(kept@[i - 1]));
            assert(screen::grid_of(screen::state_of(*term)) =~= grid.insert(
                key,
                CellView { marks: kept@.subrange(0, i as int), ..before },
            ));
        }
    }
    assert(kept@.subrange(0, i as int) =~= kept@);
}

/// Write a pair onto a cell: an anchor, and which of the placement's columns
/// the cell is.
fn push_pair(term: &mut Term<EventCapture>, at: GridPoint, anchor: u32, column: usize)
    requires
        screen::shape_of(screen::state_of(*old(term))).has(at),
        anchor < ANCHOR_MAX,
        column < ANCHOR_COLUMN_MAX,
    ensures
        screen::alike_but_for_cells(screen::state_of(*old(term)), screen::state_of(*final(term))),
        screen::listener_of(*final(term)) == screen::listener_of(*old(term)),
        screen::grid_of(screen::state_of(*final(term))) == screen::grid_of(screen::state_of(*old(term))).insert(
            (at.line as int, at.column as int),
            CellView {
                marks: screen::cell_of(screen::state_of(*old(term)), at).marks.push(
                    anchors::char_of(ANCHOR + anchor),
                ).push(anchors::char_of(ANCHOR_COLUMN + column)),
                ..screen::cell_of(screen::state_of(*old(term)), at)
            },
        ),
{
    let ghost key = (at.line as int, at.column as int);
    let ghost grid = screen::grid_of(screen::state_of(*term));
    if let Some(mark) = char::from_u32(ANCHOR + anchor) {
        proof {
            anchors::lemma_char_of(mark);
        }
        screen::push_mark(term, at, mark);
    }
    if let Some(mark) = char::from_u32(ANCHOR_COLUMN + column as u32) {
        proof {
            anchors::lemma_char_of(mark);
        }
        screen::push_mark(term, at, mark);
    }
    assert(screen::grid_of(screen::state_of(*term)) =~= grid.insert(key, screen::cell_of(screen::state_of(*term), at)));
}

/// Whether any mark is an anchor.
fn any_anchor(marks: &[char]) -> (yes: bool)
    ensures
        yes == exists|i: int| 0 <= i < marks@.len() && anchors::anchors(#[trigger] marks@[i]),
{
    let mut i: usize = 0;
    while i < marks.len()
        invariant
            i <= marks@.len(),
            forall|j: int| 0 <= j < i ==> !anchors::anchors(#[trigger] marks@[j]),
        decreases marks@.len() - i,
    {
        if is_anchor(marks[i]) {
            return true;
        }
        i = i + 1;
    }
    false
}

/// `text` without the marks of placements.
pub open spec fn unanchored(text: Seq<char>) -> Seq<char> {
    anchors::plain(text)
}

/// `text` without the marks of placements.
fn without_anchors(text: &[char]) -> (plain: Vec<char>)
    ensures
        plain@ == unanchored(text@),
{
    let mut plain: Vec<char> = Vec::new();
    let mut i: usize = 0;
    proof {
        reveal(Seq::filter);
        assert(anchors::plain(text@.subrange(0, 0)) =~= Seq::empty());
    }
    while i < text.len()
        invariant
            i <= text@.len(),
            plain@ == anchors::plain(text@.subrange(0, i as int)),
        decreases text@.len() - i,
    {
        proof {
            reveal(Seq::filter);
            assert(text@.subrange(0, i + 1).drop_last() =~= text@.subrange(0, i as int));
        }
        if !is_anchor(text[i]) {
            plain.push(text[i]);
        }
        i = i + 1;
    }
    assert(text@.subrange(0, i as int) =~= text@);
    plain
}

/// Whether an iTerm2 file of `len` bytes is shown: it has to be `inline`, and
/// not past `limit` bytes.
pub fn iterm_shows(inline: bool, len: usize, limit: usize) -> (yes: bool)
    ensures
        yes == (inline && len <= limit),
{
    inline && len <= limit
}

/// The text a copy takes, `text` being what the selection covers: none when it
/// covers nothing.
pub fn copied_text(text: Option<String>) -> (copied: Option<String>)
    ensures
        copied is Some <==> text is Some && unanchored(text->0@).len() > 0,
        copied is Some ==> copied->0@ == unanchored(text->0@),
{
    let Some(text) = text else {
        return None;
    };
    // What the terminal hands over folds a cell's zerowidth chars into the
    // text, anchors included. Copying across an image would otherwise paste a
    // private-use character nobody can see.
    let plain = without_anchors(&chars_of(text.as_str()));
    if plain.is_empty() {
        return None;
    }
    Some(string_of(&plain))
}

/// How a row's cells are painted.
fn paint_row(cells: &Vec<CellReading>, line: i32, range: Option<SelectionRange>) -> (out: Vec<
    CellSnapshot,
>)
    ensures
        out@ == painted_row(locate::cells_of(cells@), line as int, range),
{
    let mut out: Vec<CellSnapshot> = Vec::new();
    let mut column: usize = 0;
    while column < cells.len()
        invariant
            column <= cells@.len(),
            out@.len() == column,
            forall|j: int|
                0 <= j < column ==> #[trigger] out@[j] == painted_row(
                    locate::cells_of(cells@),
                    line as int,
                    range,
                )[j],
        decreases cells@.len() - column,
    {
        let selected = match range {
            Some(range) => range.contains(GridPoint { line, column }),
            None => false,
        };
        let cell = cells[column].snapshot(selected);
        proof {
            assert(locate::cells_of(cells@)[column as int] == cells@[column as int]@);
        }
        out.push(cell);
        column = column + 1;
    }
    assert(out@ =~= painted_row(locate::cells_of(cells@), line as int, range));
    out
}

/// The same rows, kept apart from these.
fn copy_rows(rows: &Vec<Vec<CellReading>>) -> (out: Vec<Vec<CellReading>>)
    ensures
        locate::rows_of(out@) == locate::rows_of(rows@),
{
    let mut out: Vec<Vec<CellReading>> = Vec::new();
    let mut row: usize = 0;
    while row < rows.len()
        invariant
            row <= rows@.len(),
            out@.len() == row,
            forall|i: int|
                0 <= i < row ==> locate::cells_of((#[trigger] out@[i])@) == locate::cells_of(
                    rows@[i]@,
                ),
        decreases rows@.len() - row,
    {
        let cells = &rows[row];
        let mut copied: Vec<CellReading> = Vec::new();
        let mut column: usize = 0;
        while column < cells.len()
            invariant
                column <= cells@.len(),
                copied@.len() == column,
                forall|j: int| 0 <= j < column ==> (#[trigger] copied@[j])@ == cells@[j]@,
            decreases cells@.len() - column,
        {
            copied.push(cells[column].copy());
            column = column + 1;
        }
        assert(locate::cells_of(copied@) =~= locate::cells_of(cells@));
        out.push(copied);
        row = row + 1;
    }
    assert(locate::rows_of(out@) =~= locate::rows_of(rows@)) by {
        assert forall|i: int| 0 <= i < out@.len() implies locate::rows_of(out@)[i]
            == locate::rows_of(rows@)[i] by {
            assert(locate::rows_of(out@)[i] == locate::cells_of(out@[i]@));
            assert(locate::rows_of(rows@)[i] == locate::cells_of(rows@[i]@));
        }
    }
    out
}

/// Painted rows, as mathematical values.
pub open spec fn grid_view(rows: Seq<Vec<CellSnapshot>>) -> Seq<Seq<CellSnapshot>> {
    rows.map_values(|row: Vec<CellSnapshot>| row@)
}

/// How rows read `offset` lines back into history are painted.
fn paint_rows(rows: &Vec<Vec<CellReading>>, offset: usize, range: Option<SelectionRange>) -> (out:
    Vec<Vec<CellSnapshot>>)
    requires
        locate::fits(rows@),
        offset <= SCROLLBACK_LINES,
    ensures
        out@.len() == rows@.len(),
        forall|row: int|
            0 <= row < rows@.len() ==> (#[trigger] out@[row])@ == painted_row(
                locate::rows_of(rows@)[row],
                row - offset,
                range,
            ),
{
    let mut out: Vec<Vec<CellSnapshot>> = Vec::new();
    let mut row: usize = 0;
    while row < rows.len()
        invariant
            locate::fits(rows@),
            offset <= SCROLLBACK_LINES,
            row <= rows@.len(),
            out@.len() == row,
            forall|i: int|
                0 <= i < row ==> (#[trigger] out@[i])@ == painted_row(
                    locate::rows_of(rows@)[i],
                    i - offset,
                    range,
                ),
        decreases rows@.len() - row,
    {
        let painted = paint_row(&rows[row], row as i32 - offset as i32, range);
        proof {
            assert(locate::rows_of(rows@)[row as int] == locate::cells_of(rows@[row as int]@));
        }
        out.push(painted);
        row = row + 1;
    }
    out
}

impl Emulator {
    /// Put an image on the grid at the cursor, in its placeholders or off its
    /// parent, and say what the client is told: `reply` where all is well.
    ///
    /// A placement replaces the one the image already has under the same
    /// placement id, zero included: an image placed with none has at most one
    /// placement. `extent` is none for an image with nothing to show, and
    /// until a cell has been measured.
    pub fn display(
        &mut self,
        display: Display,
        extent: Option<Extent>,
        reply: Option<Reply>,
    ) -> (answer: Option<Reply>)
        requires
            old(self).wf(),
        ensures
            final(self).wf(),
            final(self)@ == (EmulatorView {
                parser: final(self)@.parser,
                term: final(self)@.term,
                laid: final(self)@.laid,
                order: final(self)@.order,
                ..old(self)@
            }),
            final(self)@.shape().columns == old(self)@.shape().columns,
            final(self)@.shape().lines == old(self)@.shape().lines,
            ({
                let covered = old(self)@.laid.covered(
                    display,
                    extent,
                    old(self)@.shape().columns as u16,
                    old(self)@.shape().lines as u16,
                );
                let after = old(self)@.laid.after(display, extent);
                let anchor = (after.next_anchor % ANCHOR_MAX) as u32;
                let at = screen::cursor_of(old(self)@.term);
                &&& answer == told(
                    display,
                    match covered {
                        Ok(_) => None,
                        Err(refusal) => Some(refusal),
                    },
                    reply,
                )
                &&& match covered {
                    Ok(Some(covered)) => {
                        &&& final(self)@.laid == after.claimed(display.named()).settled(
                            anchor,
                            display,
                            covered,
                        )
                        &&& anchored(
                            old(self)@,
                            stamped_row(
                                screen::grid_of(old(self)@.term),
                                after.claimed(display.named()),
                                anchor,
                                at,
                                stamped_width(old(self)@.shape(), at, covered.cols),
                            ),
                            display.reserves(covered.rows),
                            final(self)@,
                        )
                    },
                    _ => {
                        &&& final(self)@.laid == after
                        &&& final(self)@.term == old(self)@.term
                        &&& final(self)@.parser == old(self)@.parser
                    },
                }
            }),
    {
        let columns = screen::columns(&self.term) as u16;
        let lines = screen::screen_lines(&self.term) as u16;
        match self.placements.place(display, extent, columns, lines) {
            Ok(Some(covered)) => {
                self.anchor(display, covered);
                reply
            },
            Ok(None) => reply,
            Err(refusal) => if display.quiet < 2 {
                Some(
                    Reply {
                        id: display.image,
                        number: match reply {
                            Some(reply) => reply.number,
                            None => 0,
                        },
                        placement: display.placement,
                        error: Some(refusal),
                    },
                )
            } else {
                None
            },
        }
    }

    /// Take the placements a delete names off the grid, and say which images'
    /// data goes. Every target but an image id, a range of them and a z-index
    /// is looked for on the screen alone, not in history. `slots` is what the placeholder cells of the screen show.
    pub fn delete(&mut self, delete: Delete, slots: &Vec<Vec<Option<Slot>>>) -> (freed: Vec<u32>)
        requires
            old(self).wf(),
        ensures
            final(self).wf(),
            final(self)@ == (EmulatorView {
                laid: final(self)@.laid,
                order: final(self)@.order,
                ..old(self)@
            }),
            ({
                let found = locate::finds(
                    old(self)@.laid,
                    old(self)@.order,
                    rows_shown(old(self)@.term, 0),
                    slots@,
                    old(self)@.shape().columns as int,
                );
                let reach = Reach {
                    laid: old(self)@.laid,
                    anchored: found.anchored,
                    relatives: found.relatives,
                    target: delete.target,
                    cursor: screen::cursor_of(old(self)@.term),
                };
                let after = final(self)@.laid;
                &&& after == reach.left().with_relatives(after.relatives)
                &&& reach.left().prunes_to(after.relatives)
                &&& forall|image: u32| #[trigger]
                    freed@.contains(image) <==> reach.frees(after, delete.free, image)
            }),
    {
        let rows = self.rows_back(0);
        let columns = screen::columns(&self.term);
        let located = locate(&self.placements, &rows, slots, columns);
        let cursor = screen::cursor_point(&self.term);
        self.placements.delete(delete, &located, cursor)
    }

    /// What the cells of the rows on show hold, for the host to read the
    /// placeholders among them.
    pub fn cells(&self) -> (rows: Vec<Vec<CellReading>>)
        requires
            self.wf(),
        ensures
            locate::rows_of(rows@) == self@.frame().rows,
    {
        match &self.held {
            Some(held) => copy_rows(&held.rows),
            None => self.rows_back(screen::display_offset(&self.term)),
        }
    }

    /// Every image on the visible grid, found by the anchors the cells carry.
    /// `slots` is what the placeholder cells of the rows on show show.
    ///
    /// Walked per frame rather than cached: an anchor moves with its cell, and
    /// nothing tells us when. Each placement is taken from the first of its
    /// anchors the walk reaches, whose own column is what puts the image's
    /// left edge back; a placement with no anchor left is one whose whole top
    /// row was overwritten, which is what clearing the screen does to it.
    pub fn placements(&self, slots: &Vec<Vec<Option<Slot>>>) -> (out: Vec<Placement>)
        requires
            self.wf(),
        ensures
            out@ == locate::finds(
                self@.frame().laid,
                self@.frame().order,
                self@.frame().rows,
                slots@,
                self@.shape().columns as int,
            ).all(),
    {
        let columns = screen::columns(&self.term);
        match &self.held {
            Some(held) => all_found(locate(&held.placements, &held.rows, slots, columns)),
            None => {
                let rows = self.rows_back(screen::display_offset(&self.term));
                all_found(locate(&self.placements, &rows, slots, columns))
            },
        }
    }

    /// A new size for the grid, which ends a hold.
    pub fn resize(&mut self, cols: u16, rows: u16)
        requires
            old(self).wf(),
        ensures
            final(self).wf(),
            final(self)@ == (EmulatorView { term: final(self)@.term, held: None, ..old(self)@ }),
            final(self)@.shape().columns == (if cols < 2 {
                2
            } else {
                cols as nat
            }),
            final(self)@.shape().lines == (if rows < 1 {
                1
            } else {
                rows as nat
            }),
            final(self)@.term == screen::resized(
                screen::loosened(old(self)@.term, u16::MAX as int),
                if cols < 2 {
                    2
                } else {
                    cols
                },
                if rows < 1 {
                    1
                } else {
                    rows
                },
            ),
            screen::modes_of(final(self)@.term) == screen::modes_of(old(self)@.term),
    {
        self.held = None;
        screen::fit(&mut self.term, GridSize::new(cols, rows));
    }

    /// Whether the running program has asked for the screen to stop updating
    /// (mode 2026). While this is true, [`Emulator::lines`], [`Emulator::line`],
    /// [`Emulator::cursor`] and [`Emulator::placements`] serve the frame the
    /// grid held when the hold began; everything else stays live.
    ///
    /// Nothing here ends a hold on its own: the emulator has no clock. A host
    /// that does not release a stuck hold within [`HOLD_TIMEOUT`] shows an
    /// unfinished frame for as long as the program leaves the mode on.
    /// [`Emulator::resize`] ends one.
    pub fn render_hold(&self) -> (on: bool)
        ensures
            on == (self@.held is Some),
    {
        self.held.is_some()
    }

    /// End a hold the program never ended.
    pub fn release_hold(&mut self)
        requires
            old(self).wf(),
        ensures
            final(self).wf(),
            final(self)@ == (EmulatorView { held: None, ..old(self)@ }),
    {
        self.held = None;
    }

    pub fn cols(&self) -> (n: usize)
        ensures
            n == self@.shape().columns,
    {
        screen::columns(&self.term)
    }

    pub fn rows(&self) -> (n: usize)
        ensures
            n == self@.shape().lines,
    {
        screen::screen_lines(&self.term)
    }

    /// OSC title, if the running program set one.
    pub fn title(&self) -> (title: Option<&str>)
        ensures
            title is Some <==> self@.title is Some,
            title is Some ==> title->0@ == self@.title->0,
    {
        match &self.status.title {
            Some(title) => Some(title.as_str()),
            None => None,
        }
    }

    /// The bytes of the working directory the shell last reported through
    /// `OSC 7` or `OSC 9 ; 9`. `None` until one arrives; a shell that emits
    /// neither never sets it.
    pub fn directory(&self) -> (path: Option<&[u8]>)
        ensures
            path is Some <==> self@.directory is Some,
            path is Some ==> path->0@ == self@.directory->0,
    {
        match &self.directory {
            Some(path) => Some(path.as_slice()),
            None => None,
        }
    }

    /// True once a BEL arrived; reading clears it.
    pub fn take_bell(&mut self) -> (rang: bool)
        requires
            old(self).wf(),
        ensures
            final(self).wf(),
            rang == old(self)@.bell,
            final(self)@ == (EmulatorView { bell: false, ..old(self)@ }),
    {
        let rang = self.status.bell;
        self.status.bell = false;
        rang
    }

    /// Arrow keys should send SS3 (`ESC O A`) instead of CSI.
    pub fn app_cursor_mode(&self) -> (on: bool)
        ensures
            on == screen::modes_of(self@.term).contains(Mode::AppCursor),
    {
        screen::has_mode(&self.term, Mode::AppCursor)
    }

    /// What the running program wants done with the keyboard.
    pub fn keyboard_mode(&self) -> (mode: KeyboardMode)
        ensures
            mode == KeyboardMode::of(screen::modes_of(self@.term)),
    {
        keyboard_mode_of(&self.term)
    }

    /// What the running program wants done with the pointer.
    pub fn mouse_mode(&self) -> (mode: MouseMode)
        ensures
            mode == MouseMode::of(screen::modes_of(self@.term)),
    {
        mouse_mode_of(&self.term)
    }

    /// Pastes should be wrapped in `ESC [200~` / `ESC [201~`.
    pub fn bracketed_paste_mode(&self) -> (on: bool)
        ensures
            on == screen::modes_of(self@.term).contains(Mode::BracketedPaste),
    {
        screen::has_mode(&self.term, Mode::BracketedPaste)
    }

    /// Lines scrolled back into history (0 = pinned to the live bottom).
    pub fn display_offset(&self) -> (n: usize)
        ensures
            n == self@.shape().offset,
    {
        screen::display_offset(&self.term)
    }

    /// Lines available above the viewport.
    pub fn history_lines(&self) -> (n: usize)
        ensures
            n == self@.shape().history,
    {
        screen::history_size(&self.term)
    }

    /// Scroll the view: positive = up into history, negative = toward live.
    pub fn scroll(&mut self, delta: i32)
        requires
            old(self).wf(),
            old(self)@.shape().offset + delta <= i32::MAX,
        ensures
            final(self).wf(),
            final(self)@ == (EmulatorView { term: final(self)@.term, ..old(self)@ }),
            final(self)@.shape() == (Shape {
                offset: screen::scrolled(old(self)@.shape(), delta),
                ..old(self)@.shape()
            }),
            screen::grid_of(final(self)@.term) == screen::grid_of(old(self)@.term),
            screen::cursor_of(final(self)@.term) == screen::cursor_of(old(self)@.term),
            screen::modes_of(final(self)@.term) == screen::modes_of(old(self)@.term),
            // Made in the lines of the grid, a selection stays on its text.
            screen::picked_of(final(self)@.term) == screen::picked_of(old(self)@.term),
    {
        screen::scroll_by(&mut self.term, delta);
    }

    pub fn scroll_to_bottom(&mut self)
        requires
            old(self).wf(),
        ensures
            final(self).wf(),
            final(self)@ == (EmulatorView { term: final(self)@.term, ..old(self)@ }),
            final(self)@.shape() == (Shape { offset: 0, ..old(self)@.shape() }),
            screen::grid_of(final(self)@.term) == screen::grid_of(old(self)@.term),
            screen::cursor_of(final(self)@.term) == screen::cursor_of(old(self)@.term),
            screen::modes_of(final(self)@.term) == screen::modes_of(old(self)@.term),
            // Made in the lines of the grid, a selection stays on its text.
            screen::picked_of(final(self)@.term) == screen::picked_of(old(self)@.term),
    {
        screen::scroll_to_end(&mut self.term);
    }

    /// The grid point under a viewport cell (row 0 = top of the visible area).
    ///
    /// Viewport rows are what the pointer hits; grid lines are what a selection
    /// anchors to, and the two differ by the scrollback offset. Anchoring in
    /// grid space is what lets a selection stay on its text while the view
    /// scrolls out from under it.
    pub fn grid_point(&self, viewport_row: usize, col: usize) -> (at: GridPoint)
        requires
            self.wf(),
            viewport_row <= i32::MAX,
        ensures
            at.line == viewport_row - self@.shape().offset,
            at.column == (if col < self@.shape().columns {
                col as int
            } else {
                self@.shape().columns - 1
            }),
    {
        let columns = screen::columns(&self.term);
        GridPoint {
            line: viewport_row as i32 - screen::display_offset(&self.term) as i32,
            column: if col < columns {
                col
            } else {
                columns - 1
            },
        }
    }

    /// Begin a selection. `ty` picks the granularity: [`SelectionType::Simple`]
    /// for a drag, `Semantic` for a double-click word, `Lines` for a triple-
    /// click row. The point may lie off the grid: it is held to it where the
    /// selection is read.
    pub fn start_selection(&mut self, ty: SelectionType, point: GridPoint, side: Side)
        requires
            old(self).wf(),
            point.column < usize::MAX,
        ensures
            final(self).wf(),
            final(self)@ == (EmulatorView { term: final(self)@.term, ..old(self)@ }),
            screen::picked_of(final(self)@.term) == Some(
                (screen::Picked { ty, start: (point, side), end: (point, side) }),
            ),
            final(self)@.shape() == old(self)@.shape(),
            screen::grid_of(final(self)@.term) == screen::grid_of(old(self)@.term),
            screen::cursor_of(final(self)@.term) == screen::cursor_of(old(self)@.term),
            screen::modes_of(final(self)@.term) == screen::modes_of(old(self)@.term),
    {
        screen::begin_selection(&mut self.term, ty, point, side);
    }

    /// Extend the in-progress selection to `point`. No-op without one.
    pub fn update_selection(&mut self, point: GridPoint, side: Side)
        requires
            old(self).wf(),
            point.column < usize::MAX,
        ensures
            final(self).wf(),
            final(self)@ == (EmulatorView { term: final(self)@.term, ..old(self)@ }),
            screen::picked_of(final(self)@.term) == (match screen::picked_of(old(self)@.term) {
                Some(picked) => Some((screen::Picked { end: (point, side), ..picked })),
                None => None,
            }),
            final(self)@.shape() == old(self)@.shape(),
            screen::grid_of(final(self)@.term) == screen::grid_of(old(self)@.term),
            screen::cursor_of(final(self)@.term) == screen::cursor_of(old(self)@.term),
            screen::modes_of(final(self)@.term) == screen::modes_of(old(self)@.term),
    {
        screen::extend_selection(&mut self.term, point, side);
    }

    pub fn clear_selection(&mut self)
        requires
            old(self).wf(),
        ensures
            final(self).wf(),
            final(self)@ == (EmulatorView { term: final(self)@.term, ..old(self)@ }),
            screen::picked_of(final(self)@.term) is None,
            final(self)@.shape() == old(self)@.shape(),
            screen::grid_of(final(self)@.term) == screen::grid_of(old(self)@.term),
            screen::cursor_of(final(self)@.term) == screen::cursor_of(old(self)@.term),
            screen::modes_of(final(self)@.term) == screen::modes_of(old(self)@.term),
    {
        screen::end_selection(&mut self.term);
    }

    /// The selected text, or `None` when there is no selection, when it covers
    /// nothing (a click without a drag leaves an empty one behind), and when
    /// what it covers cannot be read.
    pub fn selection_text(&self) -> (text: Option<String>)
        requires
            self.wf(),
        ensures
            text is Some <==> screen::legible_text(self@.term) is Some && unanchored(
                screen::legible_text(self@.term)->0,
            ).len() > 0,
            text is Some ==> text->0@ == unanchored(screen::legible_text(self@.term)->0),
            text is Some ==> screen::range_of(self@.term) is Some,
    {
        copied_text(screen::legible_selection(&self.term))
    }

    /// Whether a non-empty selection is active — drives the copy action and
    /// the "clear it" branch on the next click. There is none without a
    /// selection, nor for a simple one that ends where it began.
    pub fn has_selection(&self) -> (yes: bool)
        requires
            self.wf(),
        ensures
            yes == (screen::range_of(self@.term) is Some),
            screen::picked_of(self@.term) is None ==> !yes,
            screen::picked_of(self@.term) matches Some(picked) ==> (picked.ty
                == SelectionType::Simple && picked.start == picked.end ==> !yes),
    {
        screen::selected_range(&self.term).is_some()
    }

    /// Snapshot one viewport row (0 = top) honoring the scrollback offset. A
    /// row past those of a held frame is empty.
    pub fn line(&self, viewport_row: usize) -> (cells: Vec<CellSnapshot>)
        requires
            self.wf(),
            self@.held is None ==> viewport_row < self@.shape().lines,
        ensures
            viewport_row < self@.frame().rows.len() ==> cells@ == self@.frame().painted(
                screen::range_of(self@.term),
            )[viewport_row as int],
            viewport_row >= self@.frame().rows.len() ==> cells@.len() == 0,
    {
        let range = screen::selected_range(&self.term);
        match &self.held {
            Some(held) => {
                if viewport_row < held.rows.len() {
                    proof {
                        assert(locate::rows_of(held.rows@)[viewport_row as int]
                            == locate::cells_of(held.rows@[viewport_row as int]@));
                    }
                    paint_row(
                        &held.rows[viewport_row],
                        viewport_row as i32 - held.offset as i32,
                        range,
                    )
                } else {
                    Vec::new()
                }
            },
            None => {
                let offset = screen::display_offset(&self.term);
                let cells = self.row_back(viewport_row, offset);
                paint_row(&cells, viewport_row as i32 - offset as i32, range)
            },
        }
    }

    /// All viewport rows, top to bottom.
    pub fn lines(&self) -> (rows: Vec<Vec<CellSnapshot>>)
        requires
            self.wf(),
        ensures
            grid_view(rows@) == self@.frame().painted(screen::range_of(self@.term)),
    {
        let range = screen::selected_range(&self.term);
        let rows = match &self.held {
            Some(held) => paint_rows(&held.rows, held.offset, range),
            None => {
                let offset = screen::display_offset(&self.term);
                let cells = self.rows_back(offset);
                paint_rows(&cells, offset, range)
            },
        };
        assert(grid_view(rows@) =~= self@.frame().painted(screen::range_of(self@.term)));
        rows
    }

    /// Cursor in viewport coordinates; `None` when hidden or scrolled out.
    pub fn cursor(&self) -> (cursor: Option<CursorSnapshot>)
        requires
            self.wf(),
        ensures
            cursor == self@.frame().cursor,
    {
        match &self.held {
            Some(held) => held.cursor,
            None => self.live_cursor(),
        }
    }

    /// Test/diagnostic helper: a viewport row as trimmed text (wide-char
    /// spacers skipped).
    pub fn row_text(&self, viewport_row: usize) -> (text: String)
        requires
            self.wf(),
            self@.held is None ==> viewport_row < self@.shape().lines,
        ensures
            viewport_row < self@.frame().rows.len() ==> text@ == cell::trimmed(
                cell::unspaced(
                    self@.frame().painted(screen::range_of(self@.term))[viewport_row as int],
                ),
            ),
            viewport_row >= self@.frame().rows.len() ==> text@.len() == 0,
    {
        let cells = self.line(viewport_row);
        string_of(&row_chars(&cells))
    }
}

/// A read is acted on in the order it came in: with no picture among its first
/// `n` runs, what comes of it is what comes of the rest once those are acted
/// on.
pub proof fn a_read_is_acted_on_in_order(start: Acting, fixed: Fixed, pieces: Seq<Piece>, n: int)
    requires
        0 <= n <= pieces.len(),
        forall|i: int|
            0 <= i < n ==> start.acted(fixed, pieces, i).picture(#[trigger] pieces[i]) is None,
    ensures
        start.feeds(fixed, pieces) == start.acted(fixed, pieces, n).feeds(fixed, pieces.skip(n)),
    decreases n,
{
    if n > 0 {
        a_read_is_acted_on_in_order(start, fixed, pieces, n - 1);
        let before = start.acted(fixed, pieces, n - 1);
        let left = pieces.skip(n - 1);
        assert(left[0] == pieces[n - 1]);
        assert(left.drop_first() =~= pieces.skip(n));
        assert(before.picture(pieces[n - 1]) is None);
    } else {
        assert(pieces.skip(0) =~= pieces);
    }
}

/// A hold stays on the frame it began on until it is ended: whatever the
/// stream brings meanwhile, a second beginning included.
pub proof fn a_hold_keeps_its_frame(
    start: Acting,
    fixed: Fixed,
    pieces: Seq<Piece>,
    n: int,
)
    requires
        start.held is Some,
        0 <= n <= pieces.len(),
        forall|i: int| 0 <= i < n ==> #[trigger] pieces[i] != Piece::Sync(false),
    ensures
        start.acted(fixed, pieces, n).held == start.held,
    decreases n,
{
    if n > 0 {
        a_hold_keeps_its_frame(start, fixed, pieces, n - 1);
        assert(pieces[n - 1] != Piece::Sync(false));
    }
}

/// Where nothing is held, a hold begins on the frame shown at that point of
/// the stream, and the program's end of it goes back to what is live.
pub proof fn a_hold_begins_where_it_stands(start: Acting, fixed: Fixed)
    requires
        start.held is None,
    ensures
        start.step(fixed, Piece::Sync(true)).held == Some(
            frame_of(start.term, fixed.laid, fixed.order),
        ),
        start.step(fixed, Piece::Sync(true)).step(fixed, Piece::Sync(false)).held is None,
{
}

/// Replies leave in the order their queries arrived: what has been written is
/// never taken back, and what comes later is written behind it.
pub proof fn replies_keep_their_order(
    start: Acting,
    fixed: Fixed,
    pieces: Seq<Piece>,
    n: int,
    m: int,
)
    requires
        0 <= n <= m,
    ensures
        ({
            let first = start.acted(fixed, pieces, n).said.responses;
            let second = start.acted(fixed, pieces, m).said.responses;
            first.len() <= second.len() && second.subrange(0, first.len() as int) == first
        }),
    decreases m,
{
    let first = start.acted(fixed, pieces, n).said.responses;
    if n < m {
        replies_keep_their_order(start, fixed, pieces, n, m - 1);
        let before = start.acted(fixed, pieces, m - 1);
        if let Piece::Text(text) = pieces[m - 1] {
            let notices = screen::told_of(screen::written(before.parser, before.term, text).1);
            lemma_hearing_appends(
                before.said,
                notices,
                notices.len() as int,
                fixed.sixel,
                fixed.window(),
            );
        }
        let second = start.acted(fixed, pieces, m).said.responses;
        assert(second.subrange(0, before.said.responses.len() as int)
            =~= before.said.responses);
        assert(second.subrange(0, first.len() as int) =~= second.subrange(
            0,
            before.said.responses.len() as int,
        ).subrange(0, first.len() as int));
    } else {
        assert(first.subrange(0, first.len() as int) =~= first);
    }
}

/// Hearing a notice writes behind what has been written.
proof fn lemma_hearing_appends(
    said: Said,
    notices: Seq<Notice>,
    n: int,
    sixel: bool,
    window: Option<WindowSize>,
)
    ensures
        ({
            let after = said.hear_all(notices, n, sixel, window).responses;
            said.responses.len() <= after.len() && after.subrange(0, said.responses.len() as int)
                == said.responses
        }),
    decreases n,
{
    if n > 0 {
        lemma_hearing_appends(said, notices, n - 1, sixel, window);
        let before = said.hear_all(notices, n - 1, sixel, window).responses;
        let after = said.hear_all(notices, n, sixel, window).responses;
        assert(after.subrange(0, before.len() as int) =~= before);
        assert(after.subrange(0, said.responses.len() as int) =~= before.subrange(
            0,
            said.responses.len() as int,
        ));
    } else {
        assert(said.responses.subrange(0, said.responses.len() as int) =~= said.responses);
    }
}

/// The directory is the one last reported; a stream that reports none keeps
/// the one before it.
pub proof fn the_last_directory_stands(
    start: Acting,
    fixed: Fixed,
    pieces: Seq<Piece>,
    last: int,
    n: int,
)
    requires
        0 <= n <= pieces.len(),
        -1 <= last < n,
        last >= 0 ==> pieces[last] is Directory,
        forall|i: int| last < i < n ==> !(#[trigger] pieces[i] is Directory),
    ensures
        start.acted(fixed, pieces, n).directory == (if last >= 0 {
            Some(pieces[last]->Directory_0)
        } else {
            start.directory
        }),
    decreases n,
{
    if n > 0 && last < n - 1 {
        assert(!(pieces[n - 1] is Directory));
        the_last_directory_stands(start, fixed, pieces, last, n - 1);
    }
}

} // verus!
