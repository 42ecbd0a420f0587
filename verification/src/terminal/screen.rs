//! The grid itself: `alacritty_terminal`'s `Term`, and the calls into it.
//!
//! Nothing in this file is proved of the terminal: each item says what its
//! calls are taken to do.

use std::cell::Cell;
use std::rc::Rc;
use std::time::Duration;

use alacritty_terminal::event::{Event, EventListener};
use alacritty_terminal::grid::{Dimensions, Scroll};
use alacritty_terminal::index::{Column, Line, Point};
use alacritty_terminal::selection::Selection;
use alacritty_terminal::term::cell::Flags;
use alacritty_terminal::term::{Config, Term, TermMode};
use alacritty_terminal::vte::ansi::{Color, CursorShape, Processor, Timeout};
use vstd::prelude::*;
use vstd::slice::slice_subrange;

use crate::terminal::cell::{CellReading, CellView, GridPoint, Paint};
use crate::terminal::watch::{self, Phase, Stacks, Watch};

verus! {

/// `alacritty_terminal::term::Term`: a grid of cells, its history above it,
/// and what the escape sequences set.
#[verifier::external_type_specification]
#[verifier::external_body]
#[verifier::reject_recursive_types(T)]
pub struct ExTerm<T>(alacritty_terminal::term::Term<T>);

/// `alacritty_terminal::event::Event`: what a terminal tells its listener.
#[verifier::external_type_specification]
#[verifier::external_body]
pub struct ExEvent(alacritty_terminal::event::Event);

/// `std::cell::Cell`, through which a listener keeps what it is told.
#[verifier::external_type_specification]
#[verifier::external_body]
#[verifier::reject_recursive_types(T)]
pub struct ExCell<T: ?Sized>(std::cell::Cell<T>);

/// Viewport dimensions in cells.
#[derive(Debug, Clone, Copy, PartialEq, Eq, Structural)]
pub struct GridSize {
    pub cols: u16,
    pub rows: u16,
}

impl GridSize {
    /// A grid has at least two columns and a row.
    pub fn new(cols: u16, rows: u16) -> (size: GridSize)
        ensures
            size.cols == (if cols < 2 {
                2
            } else {
                cols
            }),
            size.rows == (if rows < 1 {
                1
            } else {
                rows
            }),
    {
        GridSize {
            cols: if cols < 2 {
                2
            } else {
                cols
            },
            rows: if rows < 1 {
                1
            } else {
                rows
            },
        }
    }
}

impl Dimensions for GridSize {
    fn total_lines(&self) -> (n: usize)
        ensures
            n == self.rows,
    {
        self.rows as usize
    }

    fn screen_lines(&self) -> (n: usize)
        ensures
            n == self.rows,
    {
        self.rows as usize
    }

    fn columns(&self) -> (n: usize)
        ensures
            n == self.cols,
    {
        self.cols as usize
    }
}

/// Turns off `vte`'s synchronized-update buffering.
///
/// The parser diverts bytes into a buffer while a timeout is pending and
/// replays them at ESU. Reporting no pending timeout keeps every byte on the
/// one path, so text and graphics reach the grid in the order the program
/// wrote them.
#[derive(Debug, Default)]
pub struct NoSync;

impl Timeout for NoSync {
    fn set_timeout(&mut self, duration: Duration) {
    }

    fn clear_timeout(&mut self) {
    }

    fn pending_timeout(&self) -> (pending: bool)
        ensures
            !pending,
    {
        false
    }
}

/// What the terminal asks of its host.
#[derive(Debug, Clone, PartialEq, Eq)]
pub enum Notice {
    /// These bytes go to the program.
    PtyWrite(String),
    /// The program asked for the size of the text area in pixels.
    TextAreaSize,
    /// The program named the window.
    Title(String),
    /// The window goes by its own name again.
    ResetTitle,
    Bell,
    /// Something no host of ours acts on.
    Other,
}

/// Captures `Term` callbacks. Interior-mutable because a listener is told
/// through a shared reference; single-threaded.
pub struct EventCapture {
    notices: Rc<Cell<Vec<Notice>>>,
}

/// `alacritty_terminal::event::Event`, each variant the emulator acts on under
/// a name of its own. Nothing is claimed of the result.
#[verifier::external_body]
fn notice(event: Event) -> Notice {
    match event {
        Event::PtyWrite(text) => Notice::PtyWrite(text),
        Event::TextAreaSizeRequest(_) => Notice::TextAreaSize,
        Event::Title(title) => Notice::Title(title),
        Event::ResetTitle => Notice::ResetTitle,
        Event::Bell => Notice::Bell,
        _ => Notice::Other,
    }
}

/// `Cell::take`: what the cell holds, which is then empty. What that is depends
/// on what was put there through other references, so nothing is claimed of
/// it here; see [`take_notices`].
#[verifier::external_body]
fn take(cell: &Cell<Vec<Notice>>) -> Vec<Notice> {
    cell.take()
}

/// `Cell::set`.
#[verifier::external_body]
fn put(cell: &Cell<Vec<Notice>>, notices: Vec<Notice>) {
    cell.set(notices)
}

impl EventListener for EventCapture {
    fn send_event(&self, event: Event) {
        let mut notices = take(&self.notices);
        notices.push(notice(event));
        put(&self.notices, notices);
    }
}

/// `vte::ansi::Processor`, the parser of escape sequences. Its own type is
/// bound by a trait of that crate, so it is held in a struct that says nothing
/// of it.
#[verifier::external_body]
pub struct Parser {
    processor: Processor<NoSync>,
}

/// How large a grid is: its columns, the lines of the screen, the lines of
/// history above it, and how many of those the view is scrolled back.
pub struct Shape {
    pub columns: nat,
    pub lines: nat,
    pub history: nat,
    pub offset: nat,
}

/// Scrollback history kept client-side (lines). The host's replay window is
/// bounded separately; this only caps what stays scrollable in the UI.
pub const SCROLLBACK_LINES: usize = 10_000;

impl Shape {
    /// Whether the grid has a cell at `at`.
    pub open spec fn has(self, at: GridPoint) -> bool {
        -self.history <= at.line < self.lines && at.column < self.columns
    }

    /// Whether the grid is of a size a terminal can have.
    pub open spec fn wf(self) -> bool {
        &&& 2 <= self.columns <= u16::MAX
        &&& 1 <= self.lines <= u16::MAX
        &&& self.history <= SCROLLBACK_LINES
        &&& self.offset <= SCROLLBACK_LINES
    }
}

/// One side of a cell.
#[derive(Debug, Clone, Copy, PartialEq, Eq, Structural)]
pub enum Side {
    Left,
    Right,
}

/// How much a selection takes in.
#[derive(Debug, Clone, Copy, PartialEq, Eq, Structural)]
pub enum SelectionType {
    /// What lies between its ends.
    Simple,
    /// The rectangle its ends span.
    Block,
    /// Whole words.
    Semantic,
    /// Whole lines.
    Lines,
}

/// A selection as it was made: its kind, where it began and where it ends.
pub struct Picked {
    pub ty: SelectionType,
    pub start: (GridPoint, Side),
    pub end: (GridPoint, Side),
}

/// The cells a selection takes in: from one cell to another, or the rectangle
/// between them.
#[derive(Debug, Clone, Copy, PartialEq, Eq, Structural)]
pub struct SelectionRange {
    pub start: GridPoint,
    pub end: GridPoint,
    pub is_block: bool,
}

/// What a program can turn on and off.
#[derive(Debug, Clone, Copy, PartialEq, Eq, Structural)]
pub enum Mode {
    AppCursor,
    BracketedPaste,
    AltScreen,
    AlternateScroll,
    MouseClick,
    MouseDrag,
    MouseMotion,
    SgrMouse,
    Utf8Mouse,
    /// A keyboard enhancement.
    Keyboard(KeyFlag),
}

/// The kitty keyboard protocol's enhancements.
#[derive(Debug, Clone, Copy, PartialEq, Eq, Structural)]
pub enum KeyFlag {
    Disambiguate,
    EventTypes,
    AlternateKeys,
    AllAsEscapes,
    AssociatedText,
}

/// How a cell's text is set.
#[derive(Debug, Clone, Copy, PartialEq, Eq, Structural)]
pub enum Attribute {
    Bold,
    Dim,
    Italic,
    Underline,
    Inverse,
    Hidden,
    Wide,
    WideSpacer,
    /// The second half of a wide character.
    Trailing,
    /// The room a wide character left at the end of a row, being too wide.
    Leading,
    /// The row goes on in the next.
    Wraps,
}

impl CellView {
    /// Whether a cell has an attribute.
    pub open spec fn is(self, attribute: Attribute) -> bool {
        match attribute {
            Attribute::Bold => self.bold,
            Attribute::Dim => self.dim,
            Attribute::Italic => self.italic,
            Attribute::Underline => self.underline,
            Attribute::Inverse => self.inverse,
            Attribute::Hidden => self.hidden,
            Attribute::Wide => self.wide,
            Attribute::WideSpacer => self.wide_spacer,
            Attribute::Trailing => self.trailing,
            Attribute::Leading => self.leading,
            Attribute::Wraps => self.wraps,
        }
    }
}

/// All of a terminal that tells it apart from another, but for the ids of its
/// hyperlinks: a link written without an id is given one from a counter that
/// every terminal of the process shares, and nothing here reads it. What the
/// rest is made of is the terminal's own, so its states are numbered.
pub struct TermState {
    pub number: nat,
}

/// The state a terminal is in.
pub uninterp spec fn state_of(term: Term<EventCapture>) -> TermState;

/// The cells of a terminal's grid, by line and column.
pub uninterp spec fn grid_of(state: TermState) -> Map<(int, int), CellView>;

/// How large a terminal's grid is.
pub uninterp spec fn shape_of(state: TermState) -> Shape;

/// Where a terminal writes next.
pub uninterp spec fn cursor_of(state: TermState) -> GridPoint;

/// Where a terminal's cursor is drawn, if it is.
pub uninterp spec fn drawn_cursor_of(state: TermState) -> Option<GridPoint>;

/// What is turned on in a terminal.
pub uninterp spec fn modes_of(state: TermState) -> Set<Mode>;

/// The selection in a terminal, as it was made.
pub uninterp spec fn picked_of(state: TermState) -> Option<Picked>;

/// The cells the selection in a terminal takes in.
pub uninterp spec fn range_of(state: TermState) -> Option<SelectionRange>;

/// The text the selection in a terminal takes in.
pub uninterp spec fn text_of(state: TermState) -> Option<Seq<char>>;

/// Who a terminal tells.
pub uninterp spec fn listener_of(term: Term<EventCapture>) -> EventCapture;

/// What a terminal has told its listener, and nobody has taken from it yet.
pub uninterp spec fn told_of(state: TermState) -> Seq<Notice>;

/// Where a parser is.
pub uninterp spec fn phase_of(parser: Parser) -> Phase;

/// What a terminal's stacks of keyboard modes and of titles hold.
pub uninterp spec fn stacks_of(state: TermState) -> Stacks;

/// What a parser and a terminal are once the terminal has acted on some bytes.
pub uninterp spec fn advanced(parser: Parser, state: TermState, text: Seq<u8>) -> (
    Parser,
    TermState,
);

/// A terminal at a new size, `columns` by `lines`.
pub uninterp spec fn resized(state: TermState, columns: u16, lines: u16) -> TermState;

/// A terminal whose listener has nothing left to be taken from it.
pub uninterp spec fn quieted(state: TermState) -> TermState;

/// A terminal that lets go of its selection.
pub uninterp spec fn unpicked(state: TermState) -> TermState;

/// The cell at a line and column of a grid.
pub open spec fn cell_of(state: TermState, at: GridPoint) -> CellView {
    grid_of(state)[(at.line as int, at.column as int)]
}

/// Whether two terminals are the same but for what their cells hold: the grid's
/// size, the cursor, what is turned on and pushed, and the selection as it was
/// made.
pub open spec fn alike_but_for_cells(a: TermState, b: TermState) -> bool {
    &&& shape_of(a) == shape_of(b)
    &&& cursor_of(a) == cursor_of(b)
    &&& modes_of(a) == modes_of(b)
    &&& stacks_of(a) == stacks_of(b)
    &&& picked_of(a) == picked_of(b)
}

/// The lines one sequence can scroll at most: the longest repeat is of 65,535
/// characters, and one that is wide wraps twice.
pub const SEQUENCE_LINES: usize = 131_070;

/// The lines a run of a text can scroll at most: one sequence ends in it, and a
/// wide character wraps twice.
pub open spec fn scrolls(run: Seq<u8>) -> int {
    2 * run.len() + SEQUENCE_LINES
}

impl Picked {
    /// The upper of the lines it begins and ends on.
    pub open spec fn top(self) -> int {
        if self.start.0.line <= self.end.0.line {
            self.start.0.line as int
        } else {
            self.end.0.line as int
        }
    }

    /// Whether the columns of both its ends have another to the right.
    pub open spec fn fits(self) -> bool {
        self.start.0.column < usize::MAX && self.end.0.column < usize::MAX
    }
}

/// Whether a terminal's selection is one that can be read.
pub open spec fn steady(state: TermState) -> bool {
    picked_of(state) matches Some(picked) ==> picked.fits()
}

/// The upmost line from which a selection can still go up by `lines`: it is
/// counted in an `i32`. From the last line there is nothing moves it.
pub open spec fn upmost(lines: int) -> int {
    if i32::MIN + lines > i32::MAX {
        i32::MAX as int
    } else {
        i32::MIN + lines
    }
}

/// Whether a terminal's selection can go up by `lines`.
pub open spec fn has_headroom(state: TermState, lines: int) -> bool {
    picked_of(state) matches Some(picked) ==> upmost(lines) <= picked.top()
}

/// A terminal, its selection let go of where it could not go up by `lines`.
pub open spec fn loosened(state: TermState, lines: int) -> TermState {
    if has_headroom(state, lines) {
        state
    } else {
        unpicked(state)
    }
}

/// Whether a terminal shows its alternate screen.
pub open spec fn shows_alt(state: TermState) -> bool {
    modes_of(state).contains(Mode::AltScreen)
}

/// What a parser and a terminal are once the terminal has acted on a run of a
/// text.
pub open spec fn ran(parser: Parser, state: TermState, run: Seq<u8>) -> (Parser, TermState) {
    let given = watch::handed(phase_of(parser), stacks_of(state), shows_alt(state), run);
    if given.len() == 0 {
        (parser, state)
    } else {
        advanced(parser, loosened(state, scrolls(given)), given)
    }
}

/// What a parser and a terminal are once the terminal has acted on a text, a
/// run at a time.
pub open spec fn written(parser: Parser, state: TermState, text: Seq<u8>) -> (Parser, TermState)
    decreases text.len() via shorter
{
    if text.len() == 0 {
        (parser, state)
    } else {
        let n = phase_of(parser).run(text) as int;
        let (after, told) = ran(parser, state, text.take(n));
        written(after, told, text.skip(n))
    }
}

/// A run of a text is some of it.
#[via_fn]
proof fn shorter(parser: Parser, state: TermState, text: Seq<u8>) {
    phase_of(parser).lemma_calm_len(text);
}

/// `Term::new`: a grid of `size` whose cells are blank, with no history yet
/// and at most `history` lines of it ever, the cursor at the top left, no
/// selection, and nothing turned on but the wheel's arrow keys. `keyboard` has
/// it answer the keyboard queries and keep the stacks of modes, which are empty.
/// Its listener is handed back with it, and has been told nothing.
#[verifier::external_body]
pub(crate) fn new_term(size: GridSize, history: usize, keyboard: bool) -> (made: (
    Term<EventCapture>,
    EventCapture,
))
    requires
        size.cols >= 2,
        size.rows >= 1,
        history <= SCROLLBACK_LINES,
    ensures
        shape_of(state_of(made.0)) == (Shape {
            columns: size.cols as nat,
            lines: size.rows as nat,
            history: 0,
            offset: 0,
        }),
        forall|at: GridPoint|
            #![trigger cell_of(state_of(made.0), at)]
            shape_of(state_of(made.0)).has(at) ==> cell_of(state_of(made.0), at) == CellView::blank(),
        cursor_of(state_of(made.0)) == (GridPoint { line: 0, column: 0 }),
        picked_of(state_of(made.0)) is None,
        modes_of(state_of(made.0)) == set![Mode::AlternateScroll],
        stacks_of(state_of(made.0)) == (Stacks { keyboard, main: 0, alt: 0, titles: 0 }),
        listener_of(made.0) == made.1,
        told_of(state_of(made.0)) == Seq::<Notice>::empty(),
{
    let config = Config {
        scrolling_history: history,
        kitty_keyboard: keyboard,
        ..Config::default()
    };
    let notices = Rc::new(Cell::new(Vec::new()));
    let listener = EventCapture { notices: Rc::clone(&notices) };
    (Term::new(config, &size, listener), EventCapture { notices })
}

/// `Processor::new`: it is in text.
#[verifier::external_body]
pub(crate) fn new_parser() -> (parser: Parser)
    ensures
        phase_of(parser) == Phase::Text,
{
    Parser { processor: Processor::new() }
}

/// `Processor::advance`: the terminal acts on `run`. What that leaves on the
/// grid and what the terminal tells of it are for the escape sequences in it to
/// say, and follow from it, the parser and the terminal's state alone; the grid
/// stays the size it was, and within the history it was made with. The parser
/// and the stacks go where the bytes take them. A push onto a full stack of
/// modes takes a title off the other, and panics where that is empty; a color of
/// too many digits is shifted by more bits than there are. Neither is to be
/// handed over. No selection is made. One that there is may be let go of;
/// otherwise it keeps its kind, and goes up by no more lines than the run
/// scrolls, for which it has to have room.
#[verifier::external_body]
fn advance(parser: &mut Parser, term: &mut Term<EventCapture>, run: &[u8])
    requires
        shape_of(state_of(*old(term))).wf(),
        steady(state_of(*old(term))),
        has_headroom(state_of(*old(term)), scrolls(run@)),
        watch::allowed(
            phase_of(*old(parser)),
            stacks_of(state_of(*old(term))),
            shows_alt(state_of(*old(term))),
            run@,
        ),
    ensures
        shape_of(state_of(*final(term))).wf(),
        shape_of(state_of(*final(term))).columns == shape_of(state_of(*old(term))).columns,
        shape_of(state_of(*final(term))).lines == shape_of(state_of(*old(term))).lines,
        listener_of(*final(term)) == listener_of(*old(term)),
        (*final(parser), state_of(*final(term))) == advanced(
            *old(parser),
            state_of(*old(term)),
            run@,
        ),
        phase_of(*final(parser)) == phase_of(*old(parser)).read(run@),
        stacks_of(state_of(*final(term))) == stacks_of(state_of(*old(term))).after(
            shows_alt(state_of(*old(term))),
            phase_of(*old(parser)),
            run@,
        ),
        picked_of(state_of(*final(term))) matches Some(after) ==> (picked_of(
            state_of(*old(term)),
        ) matches Some(before) && after.ty == before.ty && after.fits() && before.top() - scrolls(
            run@,
        ) <= after.top()),
{
    parser.processor.advance(term, run);
}

/// Whether a watch knows where a parser is and what a terminal's stacks hold.
pub open spec fn watched(watch: Watch, parser: Parser, state: TermState) -> bool {
    watch.phase == phase_of(parser) && watch.stacks == stacks_of(state)
}

/// The terminal acts on `text`, a run at a time.
pub(crate) fn write(
    parser: &mut Parser,
    watch: &mut Watch,
    term: &mut Term<EventCapture>,
    text: &[u8],
)
    requires
        shape_of(state_of(*old(term))).wf(),
        steady(state_of(*old(term))),
        watched(*old(watch), *old(parser), state_of(*old(term))),
    ensures
        shape_of(state_of(*final(term))).wf(),
        shape_of(state_of(*final(term))).columns == shape_of(state_of(*old(term))).columns,
        shape_of(state_of(*final(term))).lines == shape_of(state_of(*old(term))).lines,
        steady(state_of(*final(term))),
        watched(*final(watch), *final(parser), state_of(*final(term))),
        listener_of(*final(term)) == listener_of(*old(term)),
        (*final(parser), state_of(*final(term))) == written(
            *old(parser),
            state_of(*old(term)),
            text@,
        ),
{
    let mut at: usize = 0;
    assert(text@.skip(0) =~= text@);
    while at < text.len()
        invariant
            at <= text@.len(),
            shape_of(state_of(*term)).wf(),
            shape_of(state_of(*term)).columns == shape_of(state_of(*old(term))).columns,
            shape_of(state_of(*term)).lines == shape_of(state_of(*old(term))).lines,
            steady(state_of(*term)),
            watched(*watch, *parser, state_of(*term)),
            listener_of(*term) == listener_of(*old(term)),
            written(*old(parser), state_of(*old(term)), text@) == written(
                *parser,
                state_of(*term),
                text@.skip(at as int),
            ),
        decreases text@.len() - at,
    {
        let end = watch.phase.run_from(text, at);
        let ghost rest = text@.skip(at as int);
        let ghost run = rest.take(end - at);
        assert(text@.subrange(at as int, end as int) =~= run);
        assert(text@.skip(end as int) =~= rest.skip(end - at));
        if end - at > 1 {
            hand_over(parser, watch, term, slice_subrange(text, at, end));
        } else {
            assert(run =~= seq![text@[at as int]]);
            if let Some(byte) = watch.weigh(has_mode(term, Mode::AltScreen), text[at]) {
                let given: [u8; 1] = [byte];
                assert(given@ =~= seq![byte]);
                hand_over(parser, watch, term, &given);
            }
        }
        at = end;
    }
}

/// The terminal acts on a run of a text, and lets go of a selection that would
/// go up too far with it.
fn hand_over(
    parser: &mut Parser,
    watch: &mut Watch,
    term: &mut Term<EventCapture>,
    run: &[u8],
)
    requires
        shape_of(state_of(*old(term))).wf(),
        steady(state_of(*old(term))),
        watched(*old(watch), *old(parser), state_of(*old(term))),
        run@.len() > 0,
        watch::allowed(
            old(watch).phase,
            old(watch).stacks,
            shows_alt(state_of(*old(term))),
            run@,
        ),
    ensures
        shape_of(state_of(*final(term))).wf(),
        shape_of(state_of(*final(term))).columns == shape_of(state_of(*old(term))).columns,
        shape_of(state_of(*final(term))).lines == shape_of(state_of(*old(term))).lines,
        steady(state_of(*final(term))),
        watched(*final(watch), *final(parser), state_of(*final(term))),
        listener_of(*final(term)) == listener_of(*old(term)),
        (*final(parser), state_of(*final(term))) == advanced(
            *old(parser),
            loosened(state_of(*old(term)), scrolls(run@)),
            run@,
        ),
{
    let alt = has_mode(term, Mode::AltScreen);
    loosen(term, 2 * run.len() as u128 + SEQUENCE_LINES as u128);
    advance(parser, term, run);
    watch.follow(alt, run);
}

/// A selection that cannot go up by `lines` is let go of.
fn loosen(term: &mut Term<EventCapture>, lines: u128)
    requires
        lines > 0,
        steady(state_of(*old(term))),
    ensures
        state_of(*final(term)) == loosened(state_of(*old(term)), lines as int),
        has_headroom(state_of(*final(term)), lines as int),
        steady(state_of(*final(term))),
        shape_of(state_of(*final(term))) == shape_of(state_of(*old(term))),
        modes_of(state_of(*final(term))) == modes_of(state_of(*old(term))),
        stacks_of(state_of(*final(term))) == stacks_of(state_of(*old(term))),
        listener_of(*final(term)) == listener_of(*old(term)),
{
    let line = if lines > u32::MAX as u128 {
        i32::MAX
    } else {
        (i32::MIN as i64 + lines as i64) as i32
    };
    if reaches_above(term, line) {
        end_selection(term);
    }
}

/// `Selection::intersects_range`, of `Term::selection` with all that is above a
/// line.
#[verifier::external_body]
fn reaches_above(term: &Term<EventCapture>, line: i32) -> (yes: bool)
    requires
        line > i32::MIN,
    ensures
        yes == (picked_of(state_of(*term)) matches Some(picked) && picked.top() < line),
{
    term.selection.as_ref().is_some_and(|selection| selection.intersects_range(..Line(line)))
}

/// `Cell::take`, on the cell a terminal's listener keeps what it is told in:
/// all of it since it was last taken, which is then nothing. The cell is
/// reached from the terminal as well, which is why this changes it; nothing
/// else of the terminal is another for it.
#[allow(unused_variables)]
#[verifier::external_body]
pub(crate) fn take_notices(term: &mut Term<EventCapture>, listener: &EventCapture) -> (notices: Vec<
    Notice,
>)
    requires
        listener_of(*old(term)) == *listener,
    ensures
        notices@ == told_of(state_of(*old(term))),
        state_of(*final(term)) == quieted(state_of(*old(term))),
        told_of(state_of(*final(term))) == Seq::<Notice>::empty(),
        listener_of(*final(term)) == listener_of(*old(term)),
        shape_of(state_of(*final(term))) == shape_of(state_of(*old(term))),
        grid_of(state_of(*final(term))) == grid_of(state_of(*old(term))),
        cursor_of(state_of(*final(term))) == cursor_of(state_of(*old(term))),
        drawn_cursor_of(state_of(*final(term))) == drawn_cursor_of(state_of(*old(term))),
        modes_of(state_of(*final(term))) == modes_of(state_of(*old(term))),
        stacks_of(state_of(*final(term))) == stacks_of(state_of(*old(term))),
        picked_of(state_of(*final(term))) == picked_of(state_of(*old(term))),
        range_of(state_of(*final(term))) == range_of(state_of(*old(term))),
        text_of(state_of(*final(term))) == text_of(state_of(*old(term))),
{
    listener.notices.take()
}

/// `Term::resize`: the grid takes on a new size, and moves its text to fit,
/// which follows from the terminal and the size alone. What is turned on stays
/// on, and what is pushed stays pushed. No selection is made. One that there is
/// may be let go of; otherwise it goes up by no more lines than a grid can have.
#[verifier::external_body]
fn resize(term: &mut Term<EventCapture>, size: GridSize)
    requires
        size.cols >= 2,
        size.rows >= 1,
        shape_of(state_of(*old(term))).wf(),
        steady(state_of(*old(term))),
        has_headroom(state_of(*old(term)), u16::MAX as int),
    ensures
        shape_of(state_of(*final(term))).wf(),
        shape_of(state_of(*final(term))).columns == size.cols,
        shape_of(state_of(*final(term))).lines == size.rows,
        modes_of(state_of(*final(term))) == modes_of(state_of(*old(term))),
        stacks_of(state_of(*final(term))) == stacks_of(state_of(*old(term))),
        listener_of(*final(term)) == listener_of(*old(term)),
        state_of(*final(term)) == resized(state_of(*old(term)), size.cols, size.rows),
        picked_of(state_of(*final(term))) matches Some(after) ==> (picked_of(
            state_of(*old(term)),
        ) matches Some(before) && after.fits() && before.top() - u16::MAX <= after.top()),
{
    term.resize(size);
}

/// The grid takes on a new size, and a selection that would go up too far with
/// it is let go of.
pub(crate) fn fit(term: &mut Term<EventCapture>, size: GridSize)
    requires
        size.cols >= 2,
        size.rows >= 1,
        shape_of(state_of(*old(term))).wf(),
        steady(state_of(*old(term))),
    ensures
        shape_of(state_of(*final(term))).wf(),
        shape_of(state_of(*final(term))).columns == size.cols,
        shape_of(state_of(*final(term))).lines == size.rows,
        steady(state_of(*final(term))),
        modes_of(state_of(*final(term))) == modes_of(state_of(*old(term))),
        stacks_of(state_of(*final(term))) == stacks_of(state_of(*old(term))),
        listener_of(*final(term)) == listener_of(*old(term)),
        state_of(*final(term)) == resized(
            loosened(state_of(*old(term)), u16::MAX as int),
            size.cols,
            size.rows,
        ),
{
    loosen(term, u16::MAX as u128);
    resize(term, size);
}

/// `Dimensions::columns`.
#[verifier::external_body]
pub(crate) fn columns(term: &Term<EventCapture>) -> (n: usize)
    ensures
        n == shape_of(state_of(*term)).columns,
{
    term.columns()
}

/// `Dimensions::screen_lines`.
#[verifier::external_body]
pub(crate) fn screen_lines(term: &Term<EventCapture>) -> (n: usize)
    ensures
        n == shape_of(state_of(*term)).lines,
{
    term.screen_lines()
}

/// `Dimensions::history_size`.
#[verifier::external_body]
pub(crate) fn history_size(term: &Term<EventCapture>) -> (n: usize)
    ensures
        n == shape_of(state_of(*term)).history,
{
    term.history_size()
}

/// `Grid::display_offset`.
#[verifier::external_body]
pub(crate) fn display_offset(term: &Term<EventCapture>) -> (n: usize)
    ensures
        n == shape_of(state_of(*term)).offset,
{
    term.grid().display_offset()
}

/// `Term::scroll_display` by a number of lines: positive is into history, and
/// the view goes no further than history does.
#[verifier::external_body]
pub(crate) fn scroll_by(term: &mut Term<EventCapture>, lines: i32)
    requires
        shape_of(state_of(*old(term))).offset + lines <= i32::MAX,
    ensures
        shape_of(state_of(*final(term))) == (Shape {
            offset: scrolled(shape_of(state_of(*old(term))), lines),
            ..shape_of(state_of(*old(term)))
        }),
        grid_of(state_of(*final(term))) == grid_of(state_of(*old(term))),
        cursor_of(state_of(*final(term))) == cursor_of(state_of(*old(term))),
        modes_of(state_of(*final(term))) == modes_of(state_of(*old(term))),
        stacks_of(state_of(*final(term))) == stacks_of(state_of(*old(term))),
        picked_of(state_of(*final(term))) == picked_of(state_of(*old(term))),
        listener_of(*final(term)) == listener_of(*old(term)),
{
    term.scroll_display(Scroll::Delta(lines));
}

/// How far back a view is once it is scrolled by a number of lines.
pub open spec fn scrolled(shape: Shape, lines: i32) -> nat {
    if shape.offset + lines <= 0 {
        0
    } else if shape.offset + lines >= shape.history {
        shape.history
    } else {
        (shape.offset + lines) as nat
    }
}

/// `Term::scroll_display` to the bottom.
#[verifier::external_body]
pub(crate) fn scroll_to_end(term: &mut Term<EventCapture>)
    ensures
        shape_of(state_of(*final(term))) == (Shape { offset: 0, ..shape_of(state_of(*old(term))) }),
        grid_of(state_of(*final(term))) == grid_of(state_of(*old(term))),
        cursor_of(state_of(*final(term))) == cursor_of(state_of(*old(term))),
        modes_of(state_of(*final(term))) == modes_of(state_of(*old(term))),
        stacks_of(state_of(*final(term))) == stacks_of(state_of(*old(term))),
        picked_of(state_of(*final(term))) == picked_of(state_of(*old(term))),
        listener_of(*final(term)) == listener_of(*old(term)),
{
    term.scroll_display(Scroll::Bottom);
}

/// The character of a cell of `Term::grid`.
#[verifier::external_body]
fn character(term: &Term<EventCapture>, at: GridPoint) -> (c: char)
    requires
        shape_of(state_of(*term)).has(at),
    ensures
        c == cell_of(state_of(*term), at).ch,
{
    term.grid()[Line(at.line)][Column(at.column)].c
}

/// The foreground color of a cell of `Term::grid`.
#[verifier::external_body]
fn foreground(term: &Term<EventCapture>, at: GridPoint) -> (paint: Paint)
    requires
        shape_of(state_of(*term)).has(at),
    ensures
        paint == cell_of(state_of(*term), at).fg,
{
    match term.grid()[Line(at.line)][Column(at.column)].fg {
        Color::Spec(rgb) => Paint::Spec(rgb.r, rgb.g, rgb.b),
        Color::Indexed(ix) => Paint::Indexed(ix),
        Color::Named(named) => Paint::Named(named as u16),
    }
}

/// The background color of a cell of `Term::grid`.
#[verifier::external_body]
fn background(term: &Term<EventCapture>, at: GridPoint) -> (paint: Paint)
    requires
        shape_of(state_of(*term)).has(at),
    ensures
        paint == cell_of(state_of(*term), at).bg,
{
    match term.grid()[Line(at.line)][Column(at.column)].bg {
        Color::Spec(rgb) => Paint::Spec(rgb.r, rgb.g, rgb.b),
        Color::Indexed(ix) => Paint::Indexed(ix),
        Color::Named(named) => Paint::Named(named as u16),
    }
}

/// `Flags::intersects`, on the flags of a cell of `Term::grid`.
#[verifier::external_body]
fn has_attribute(term: &Term<EventCapture>, at: GridPoint, attribute: Attribute) -> (yes: bool)
    requires
        shape_of(state_of(*term)).has(at),
    ensures
        yes == cell_of(state_of(*term), at).is(attribute),
{
    let flags = match attribute {
        Attribute::Bold => Flags::BOLD,
        Attribute::Dim => Flags::DIM,
        Attribute::Italic => Flags::ITALIC,
        Attribute::Underline => Flags::ALL_UNDERLINES,
        Attribute::Inverse => Flags::INVERSE,
        Attribute::Hidden => Flags::HIDDEN,
        Attribute::Wide => Flags::WIDE_CHAR,
        Attribute::WideSpacer => Flags::WIDE_CHAR_SPACER | Flags::LEADING_WIDE_CHAR_SPACER,
        Attribute::Trailing => Flags::WIDE_CHAR_SPACER,
        Attribute::Leading => Flags::LEADING_WIDE_CHAR_SPACER,
        Attribute::Wraps => Flags::WRAPLINE,
    };
    term.grid()[Line(at.line)][Column(at.column)].flags.intersects(flags)
}

/// `Cell::zerowidth`, of a cell of `Term::grid`: the marks written onto it.
#[verifier::external_body]
pub(crate) fn marks(term: &Term<EventCapture>, at: GridPoint) -> (marks: Vec<char>)
    requires
        shape_of(state_of(*term)).has(at),
    ensures
        marks@ == cell_of(state_of(*term), at).marks,
{
    term.grid()[Line(at.line)][Column(at.column)].zerowidth().unwrap_or(&[]).to_vec()
}

/// A cell of `Term::grid_mut` lets go of what is rarely set: its marks, and
/// with them its underline color and hyperlink.
#[verifier::external_body]
pub(crate) fn clear_extra(term: &mut Term<EventCapture>, at: GridPoint)
    requires
        shape_of(state_of(*old(term))).has(at),
    ensures
        alike_but_for_cells(state_of(*old(term)), state_of(*final(term))),
        listener_of(*final(term)) == listener_of(*old(term)),
        grid_of(state_of(*final(term))) == grid_of(state_of(*old(term))).insert(
            (at.line as int, at.column as int),
            CellView { marks: Seq::empty(), ..cell_of(state_of(*old(term)), at) },
        ),
{
    term.grid_mut()[Line(at.line)][Column(at.column)].extra = None;
}

/// `Cell::push_zerowidth`, on a cell of `Term::grid_mut`: one more mark.
#[verifier::external_body]
pub(crate) fn push_mark(term: &mut Term<EventCapture>, at: GridPoint, mark: char)
    requires
        shape_of(state_of(*old(term))).has(at),
    ensures
        alike_but_for_cells(state_of(*old(term)), state_of(*final(term))),
        listener_of(*final(term)) == listener_of(*old(term)),
        grid_of(state_of(*final(term))) == grid_of(state_of(*old(term))).insert(
            (at.line as int, at.column as int),
            CellView { marks: cell_of(state_of(*old(term)), at).marks.push(mark), ..cell_of(state_of(*old(term)), at) },
        ),
{
    term.grid_mut()[Line(at.line)][Column(at.column)].push_zerowidth(mark);
}

/// The cursor of `Term::grid`.
#[verifier::external_body]
pub(crate) fn cursor_point(term: &Term<EventCapture>) -> (at: GridPoint)
    ensures
        at == cursor_of(state_of(*term)),
{
    let point = term.grid().cursor.point;
    GridPoint { line: point.line.0, column: point.column.0 }
}

/// Whether a terminal's cursor is on the second half of a wide character whose
/// first half is gone from the row, which deleting characters can leave in its
/// first column.
pub open spec fn stranded(state: TermState) -> bool {
    let at = cursor_of(state);
    at.column == 0 && shown_cell(state, at.line as int, 0).trailing
}

/// The cursor of `Term::renderable_content`, unless it is hidden. It is drawn
/// on the first half of a wide character, a column to the left of the second,
/// so that there has to be one.
#[verifier::external_body]
pub(crate) fn drawn_cursor(term: &Term<EventCapture>) -> (at: Option<GridPoint>)
    requires
        shape_of(state_of(*term)).wf(),
        steady(state_of(*term)),
        !stranded(state_of(*term)),
    ensures
        at == drawn_cursor_of(state_of(*term)),
{
    let cursor = term.renderable_content().cursor;
    match cursor.shape {
        CursorShape::Hidden => None,
        _ => Some(GridPoint { line: cursor.point.line.0, column: cursor.point.column.0 }),
    }
}

/// `TermMode::contains`, on `Term::mode`, for what is no keyboard enhancement.
#[verifier::external_body]
fn has_plain_mode(term: &Term<EventCapture>, mode: Mode) -> (yes: bool)
    requires
        !(mode is Keyboard),
    ensures
        yes == modes_of(state_of(*term)).contains(mode),
{
    let flag = match mode {
        Mode::AppCursor => TermMode::APP_CURSOR,
        Mode::BracketedPaste => TermMode::BRACKETED_PASTE,
        Mode::AltScreen => TermMode::ALT_SCREEN,
        Mode::AlternateScroll => TermMode::ALTERNATE_SCROLL,
        Mode::MouseClick => TermMode::MOUSE_REPORT_CLICK,
        Mode::MouseDrag => TermMode::MOUSE_DRAG,
        Mode::MouseMotion => TermMode::MOUSE_MOTION,
        Mode::SgrMouse => TermMode::SGR_MOUSE,
        Mode::Utf8Mouse => TermMode::UTF8_MOUSE,
        Mode::Keyboard(_) => TermMode::ANY,
    };
    term.mode().contains(flag)
}

/// `TermMode::contains`, on `Term::mode`, for a keyboard enhancement.
#[verifier::external_body]
fn has_key_flag(term: &Term<EventCapture>, flag: KeyFlag) -> (yes: bool)
    ensures
        yes == modes_of(state_of(*term)).contains(Mode::Keyboard(flag)),
{
    let flag = match flag {
        KeyFlag::Disambiguate => TermMode::DISAMBIGUATE_ESC_CODES,
        KeyFlag::EventTypes => TermMode::REPORT_EVENT_TYPES,
        KeyFlag::AlternateKeys => TermMode::REPORT_ALTERNATE_KEYS,
        KeyFlag::AllAsEscapes => TermMode::REPORT_ALL_KEYS_AS_ESC,
        KeyFlag::AssociatedText => TermMode::REPORT_ASSOCIATED_TEXT,
    };
    term.mode().contains(flag)
}

/// Whether something is turned on.
pub(crate) fn has_mode(term: &Term<EventCapture>, mode: Mode) -> (yes: bool)
    ensures
        yes == modes_of(state_of(*term)).contains(mode),
{
    match mode {
        Mode::Keyboard(flag) => has_key_flag(term, flag),
        _ => has_plain_mode(term, mode),
    }
}

/// `Term::selection`, set to `Selection::new`: a selection that begins and
/// ends at one point.
#[verifier::external_body]
pub(crate) fn begin_selection(
    term: &mut Term<EventCapture>,
    ty: SelectionType,
    point: GridPoint,
    side: Side,
)
    requires
        point.column < usize::MAX,
    ensures
        picked_of(state_of(*final(term))) == Some(
            (Picked { ty, start: (point, side), end: (point, side) }),
        ),
        shape_of(state_of(*final(term))) == shape_of(state_of(*old(term))),
        grid_of(state_of(*final(term))) == grid_of(state_of(*old(term))),
        cursor_of(state_of(*final(term))) == cursor_of(state_of(*old(term))),
        modes_of(state_of(*final(term))) == modes_of(state_of(*old(term))),
        stacks_of(state_of(*final(term))) == stacks_of(state_of(*old(term))),
        listener_of(*final(term)) == listener_of(*old(term)),
{
    let ty = match ty {
        SelectionType::Simple => alacritty_terminal::selection::SelectionType::Simple,
        SelectionType::Block => alacritty_terminal::selection::SelectionType::Block,
        SelectionType::Semantic => alacritty_terminal::selection::SelectionType::Semantic,
        SelectionType::Lines => alacritty_terminal::selection::SelectionType::Lines,
    };
    let side = match side {
        Side::Left => alacritty_terminal::index::Side::Left,
        Side::Right => alacritty_terminal::index::Side::Right,
    };
    let at = Point::new(Line(point.line), Column(point.column));
    term.selection = Some(Selection::new(ty, at, side));
}

/// `Selection::update`, on `Term::selection` where there is one: it ends
/// elsewhere.
#[verifier::external_body]
pub(crate) fn extend_selection(term: &mut Term<EventCapture>, point: GridPoint, side: Side)
    requires
        point.column < usize::MAX,
    ensures
        picked_of(state_of(*final(term))) == (match picked_of(state_of(*old(term))) {
            Some(picked) => Some((Picked { end: (point, side), ..picked })),
            None => None,
        }),
        shape_of(state_of(*final(term))) == shape_of(state_of(*old(term))),
        grid_of(state_of(*final(term))) == grid_of(state_of(*old(term))),
        cursor_of(state_of(*final(term))) == cursor_of(state_of(*old(term))),
        modes_of(state_of(*final(term))) == modes_of(state_of(*old(term))),
        stacks_of(state_of(*final(term))) == stacks_of(state_of(*old(term))),
        listener_of(*final(term)) == listener_of(*old(term)),
{
    let side = match side {
        Side::Left => alacritty_terminal::index::Side::Left,
        Side::Right => alacritty_terminal::index::Side::Right,
    };
    let at = Point::new(Line(point.line), Column(point.column));
    if let Some(selection) = term.selection.as_mut() {
        selection.update(at, side);
    }
}

/// `Term::selection`, set to none.
#[verifier::external_body]
pub(crate) fn end_selection(term: &mut Term<EventCapture>)
    ensures
        state_of(*final(term)) == unpicked(state_of(*old(term))),
        picked_of(state_of(*final(term))) is None,
        shape_of(state_of(*final(term))) == shape_of(state_of(*old(term))),
        grid_of(state_of(*final(term))) == grid_of(state_of(*old(term))),
        cursor_of(state_of(*final(term))) == cursor_of(state_of(*old(term))),
        modes_of(state_of(*final(term))) == modes_of(state_of(*old(term))),
        stacks_of(state_of(*final(term))) == stacks_of(state_of(*old(term))),
        listener_of(*final(term)) == listener_of(*old(term)),
{
    term.selection = None;
}

/// `Selection::to_range`, of `Term::selection`. Without a selection there is no
/// range, and none for a simple one that ends where it began.
#[verifier::external_body]
pub(crate) fn selected_range(term: &Term<EventCapture>) -> (range: Option<SelectionRange>)
    requires
        shape_of(state_of(*term)).wf(),
        steady(state_of(*term)),
    ensures
        range == range_of(state_of(*term)),
        picked_of(state_of(*term)) is None ==> range is None,
        picked_of(state_of(*term)) matches Some(picked) ==> (picked.ty == SelectionType::Simple
            && picked.start == picked.end ==> range is None),
{
    let range = term.selection.as_ref()?.to_range(term)?;
    Some(
        SelectionRange {
            start: GridPoint { line: range.start.line.0, column: range.start.column.0 },
            end: GridPoint { line: range.end.line.0, column: range.end.column.0 },
            is_block: range.is_block,
        },
    )
}

impl SelectionRange {
    /// The first column taken in of a line.
    pub open spec fn from(self, line: int) -> int {
        if self.is_block || line == self.start.line {
            self.start.column as int
        } else {
            0
        }
    }

    /// The last column taken in of a line of a grid.
    pub open spec fn to(self, line: int, shape: Shape) -> int {
        if self.is_block || line == self.end.line {
            self.end.column as int
        } else {
            shape.columns - 1
        }
    }

    /// Whether a wide character that went to the line below for want of room
    /// counts as taken in where a line is.
    pub open spec fn takes_wrapped(self, line: int) -> bool {
        line == self.end.line || (self.is_block && self.start.column != 0)
    }

    /// Whether a line of a terminal can be read where the range takes it in.
    /// A wide character is read whole, so that its second half cannot stand in
    /// the first column; and one that wrapped is read off the line above the
    /// place it left, which has to be a line of the grid.
    pub open spec fn reads(self, state: TermState, line: int) -> bool {
        let shape = shape_of(state);
        let last = shown_cell(state, line, shape.columns - 1);
        &&& !(self.from(line) == 0 && shown_cell(state, line, 0).trailing)
        &&& !(line == -shape.history && self.takes_wrapped(line) && self.to(line, shape)
            == shape.columns - 1 && last.leading && (last.wraps || last.ch != ' '
            || last.marks.len() > 0))
    }

    /// Whether the range is one of a terminal's grid, and every line of it can
    /// be read. A block between the two sides of one column takes in none, and
    /// past the last column it is off the grid.
    pub open spec fn legible(self, state: TermState) -> bool {
        let shape = shape_of(state);
        &&& -shape.history <= self.start.line && self.end.line < shape.lines
        &&& self.start.column < shape.columns && self.end.column < shape.columns
        &&& forall|line: int|
            self.start.line <= line <= self.end.line ==> #[trigger] self.reads(state, line)
    }

    /// Whether the range can be read off a terminal's grid.
    fn is_legible(&self, term: &Term<EventCapture>) -> (yes: bool)
        requires
            shape_of(state_of(*term)).wf(),
        ensures
            yes == self.legible(state_of(*term)),
    {
        let columns = columns(term);
        let top = -(history_size(term) as i64);
        if (self.start.line as i64) < top || self.end.line as i64 >= screen_lines(term) as i64
            || self.start.column >= columns || self.end.column >= columns {
            return false;
        }
        let mut line = self.start.line;
        while line <= self.end.line
            invariant
                shape_of(state_of(*term)).wf(),
                columns == shape_of(state_of(*term)).columns,
                top == -shape_of(state_of(*term)).history,
                self.end.line < shape_of(state_of(*term)).lines,
                self.start.line <= line,
                forall|above: int|
                    self.start.line <= above < line ==> #[trigger] self.reads(
                        state_of(*term),
                        above,
                    ),
            decreases self.end.line - line + 1,
        {
            let from = if self.is_block || line == self.start.line {
                self.start.column
            } else {
                0
            };
            let to = if self.is_block || line == self.end.line {
                self.end.column
            } else {
                columns - 1
            };
            let first = read_cell(term, GridPoint { line, column: 0 });
            let last = read_cell(term, GridPoint { line, column: columns - 1 });
            let wrapped = line == self.end.line || (self.is_block && self.start.column != 0);
            let reads = !(from == 0 && first.trailing) && !(line as i64 == top && wrapped && to
                == columns - 1 && last.leading && (last.wraps || last.ch != ' ' || last.marks.len()
                > 0));
            assert(reads == self.reads(state_of(*term), line as int));
            if !reads {
                return false;
            }
            line = line + 1;
        }
        true
    }
}

/// `Term::selection_to_string`: the text of what the selection takes in, which
/// there is where there is a range.
#[verifier::external_body]
fn selected_text(term: &Term<EventCapture>) -> (text: Option<String>)
    requires
        shape_of(state_of(*term)).wf(),
        steady(state_of(*term)),
        range_of(state_of(*term)) matches Some(range) ==> range.legible(state_of(*term)),
    ensures
        text is Some <==> range_of(state_of(*term)) is Some,
        text is Some <==> text_of(state_of(*term)) is Some,
        text is Some ==> text->0@ == text_of(state_of(*term))->0,
{
    term.selection_to_string()
}

/// The text of what a terminal's selection takes in, where that can be read.
pub open spec fn legible_text(state: TermState) -> Option<Seq<char>> {
    match range_of(state) {
        Some(range) if range.legible(state) => text_of(state),
        _ => None,
    }
}

/// The text of what the selection takes in, where that can be read.
pub(crate) fn legible_selection(term: &Term<EventCapture>) -> (text: Option<String>)
    requires
        shape_of(state_of(*term)).wf(),
        steady(state_of(*term)),
    ensures
        text is Some <==> legible_text(state_of(*term)) is Some,
        text matches Some(text) ==> text@ == legible_text(state_of(*term))->0,
        range_of(state_of(*term)) matches Some(range) ==> (range.legible(state_of(*term))
            ==> text is Some),
{
    match selected_range(term) {
        Some(range) => if range.is_legible(term) {
            selected_text(term)
        } else {
            None
        },
        None => None,
    }
}

impl SelectionRange {
    /// Whether a cell lies within the selection: on its lines, and past its
    /// first and last columns only on the lines between, unless the selection
    /// is a block.
    pub open spec fn takes(self, at: GridPoint) -> bool {
        &&& self.start.line <= at.line <= self.end.line
        &&& self.start.column <= at.column || (self.start.line != at.line && !self.is_block)
        &&& at.column <= self.end.column || (self.end.line != at.line && !self.is_block)
    }

    /// Whether a cell lies within the selection.
    pub fn contains(&self, at: GridPoint) -> (yes: bool)
        ensures
            yes == self.takes(at),
    {
        self.start.line <= at.line && at.line <= self.end.line && (self.start.column <= at.column
            || (self.start.line != at.line && !self.is_block)) && (at.column <= self.end.column
            || (self.end.line != at.line && !self.is_block))
    }
}

/// The cell of a grid at a line and column, and a blank one where the grid has
/// none.
pub open spec fn shown_cell(state: TermState, line: int, column: int) -> CellView {
    if -shape_of(state).history <= line < shape_of(state).lines && 0 <= column < shape_of(
        state,
    ).columns {
        grid_of(state)[(line, column)]
    } else {
        CellView::blank()
    }
}

/// The cell at a line and column, and a blank one where the grid has none.
pub(crate) fn read_cell(term: &Term<EventCapture>, at: GridPoint) -> (cell: CellReading)
    ensures
        cell@ == shown_cell(state_of(*term), at.line as int, at.column as int),
{
    let lines = screen_lines(term);
    let history = history_size(term);
    let inside = if at.line >= 0 {
        (at.line as usize) < lines
    } else {
        (-(at.line as i64)) as u64 <= history as u64
    };
    if !inside || at.column >= columns(term) {
        return CellReading::blank();
    }
    CellReading {
        ch: character(term, at),
        fg: foreground(term, at),
        bg: background(term, at),
        bold: has_attribute(term, at, Attribute::Bold),
        dim: has_attribute(term, at, Attribute::Dim),
        italic: has_attribute(term, at, Attribute::Italic),
        underline: has_attribute(term, at, Attribute::Underline),
        inverse: has_attribute(term, at, Attribute::Inverse),
        hidden: has_attribute(term, at, Attribute::Hidden),
        wide: has_attribute(term, at, Attribute::Wide),
        wide_spacer: has_attribute(term, at, Attribute::WideSpacer),
        trailing: has_attribute(term, at, Attribute::Trailing),
        leading: has_attribute(term, at, Attribute::Leading),
        wraps: has_attribute(term, at, Attribute::Wraps),
        marks: marks(term, at),
    }
}

} // verus!
