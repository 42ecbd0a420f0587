//! One cell of the grid: what it holds, and how it is painted.

use vstd::prelude::*;
use vstd::slice::slice_to_vec;

verus! {

/// A cell of the grid: line zero is the top of the screen the cursor moves on,
/// and history is above it.
#[derive(Debug, Clone, Copy, PartialEq, Eq, Structural)]
pub struct GridPoint {
    pub line: i32,
    pub column: usize,
}

/// A cell's paint color, decoupled from the palette: the view resolves these
/// against the theme (default fg/bg, 256-color index, or direct RGB).
#[derive(Debug, Clone, Copy, PartialEq, Eq, Structural)]
pub enum CellColor {
    /// Default foreground.
    Foreground,
    /// Default background.
    Background,
    /// Indexed color: 0-15 ANSI, 16-231 color cube, 232-255 grayscale ramp.
    Indexed(u8),
    /// Direct 24-bit color.
    Rgb(u8, u8, u8),
}

/// A color as a program named it.
#[derive(Debug, Clone, Copy, PartialEq, Eq, Structural)]
pub enum Paint {
    /// Direct 24-bit color.
    Spec(u8, u8, u8),
    /// An index into the 256-color palette.
    Indexed(u8),
    /// A color of the theme, by the number it goes by: 0-15 ANSI, then the
    /// defaults from 256 and the dim colors from [`DIM_BLACK`].
    Named(u16),
}

/// The number of the default background among the named colors.
pub const BACKGROUND: u16 = 257;

/// The number of the first of the eight dim colors.
pub const DIM_BLACK: u16 = 259;

/// The number of the last of the eight dim colors.
pub const DIM_WHITE: u16 = 266;

impl Paint {
    /// The paint color a program's color stands for. Dim named colors fold
    /// onto their base index; the dim flag still travels on the cell.
    pub open spec fn color(self) -> CellColor {
        match self {
            Paint::Spec(r, g, b) => CellColor::Rgb(r, g, b),
            Paint::Indexed(ix) => CellColor::Indexed(ix),
            Paint::Named(named) => if named < 16 {
                CellColor::Indexed(named as u8)
            } else if named == BACKGROUND {
                CellColor::Background
            } else if DIM_BLACK <= named <= DIM_WHITE {
                CellColor::Indexed((named - DIM_BLACK) as u8)
            } else {
                CellColor::Foreground
            },
        }
    }
}

/// The paint color a program's color stands for.
pub fn map_color(color: Paint) -> (mapped: CellColor)
    ensures
        mapped == color.color(),
{
    match color {
        Paint::Spec(r, g, b) => CellColor::Rgb(r, g, b),
        Paint::Indexed(ix) => CellColor::Indexed(ix),
        Paint::Named(named) => {
            if named < 16 {
                return CellColor::Indexed(named as u8);
            }
            if named == BACKGROUND {
                CellColor::Background
            } else if DIM_BLACK <= named && named <= DIM_WHITE {
                // Dim named colors fold onto their base index; the DIM flag
                // still travels on the cell for paint-time dimming.
                CellColor::Indexed((named - DIM_BLACK) as u8)
            } else {
                CellColor::Foreground
            }
        },
    }
}

/// The character whose cells stand for an image.
pub const PLACEHOLDER: char = '\u{10EEEE}';

/// What one cell of the grid holds.
#[derive(Debug, Clone)]
pub struct CellReading {
    pub ch: char,
    pub fg: Paint,
    pub bg: Paint,
    pub bold: bool,
    pub dim: bool,
    pub italic: bool,
    pub underline: bool,
    pub inverse: bool,
    pub hidden: bool,
    pub wide: bool,
    pub wide_spacer: bool,
    /// The second half of a wide character.
    pub trailing: bool,
    /// The room a wide character left at the end of a row, being too wide.
    pub leading: bool,
    /// The row goes on in the next.
    pub wraps: bool,
    /// The zerowidth characters written onto the cell.
    pub marks: Vec<char>,
}

/// What one cell of the grid holds, as a mathematical value.
#[verifier::ext_equal]
pub struct CellView {
    pub ch: char,
    pub fg: Paint,
    pub bg: Paint,
    pub bold: bool,
    pub dim: bool,
    pub italic: bool,
    pub underline: bool,
    pub inverse: bool,
    pub hidden: bool,
    pub wide: bool,
    pub wide_spacer: bool,
    /// The second half of a wide character.
    pub trailing: bool,
    /// The room a wide character left at the end of a row, being too wide.
    pub leading: bool,
    /// The row goes on in the next.
    pub wraps: bool,
    pub marks: Seq<char>,
}

impl View for CellReading {
    type V = CellView;

    open spec fn view(&self) -> CellView {
        CellView {
            ch: self.ch,
            fg: self.fg,
            bg: self.bg,
            bold: self.bold,
            dim: self.dim,
            italic: self.italic,
            underline: self.underline,
            inverse: self.inverse,
            hidden: self.hidden,
            wide: self.wide,
            wide_spacer: self.wide_spacer,
            trailing: self.trailing,
            leading: self.leading,
            wraps: self.wraps,
            marks: self.marks@,
        }
    }
}

impl CellView {
    /// A cell nothing was ever written to.
    pub open spec fn blank() -> CellView {
        CellView {
            ch: ' ',
            fg: Paint::Named(256),
            bg: Paint::Named(BACKGROUND),
            bold: false,
            dim: false,
            italic: false,
            underline: false,
            inverse: false,
            hidden: false,
            wide: false,
            wide_spacer: false,
            trailing: false,
            leading: false,
            wraps: false,
            marks: Seq::empty(),
        }
    }

    /// How the cell is painted. A placeholder stands for an image and is never
    /// drawn itself.
    pub open spec fn painted(self, selected: bool) -> CellSnapshot {
        CellSnapshot {
            ch: if self.ch == PLACEHOLDER {
                ' '
            } else {
                self.ch
            },
            fg: self.fg.color(),
            bg: self.bg.color(),
            bold: self.bold,
            dim: self.dim,
            italic: self.italic,
            underline: self.underline,
            inverse: self.inverse,
            hidden: self.hidden,
            wide: self.wide,
            wide_spacer: self.wide_spacer,
            selected,
        }
    }
}

impl CellReading {
    /// A cell nothing was ever written to.
    pub fn blank() -> (cell: CellReading)
        ensures
            cell@ == CellView::blank(),
    {
        CellReading {
            ch: ' ',
            fg: Paint::Named(256),
            bg: Paint::Named(BACKGROUND),
            bold: false,
            dim: false,
            italic: false,
            underline: false,
            inverse: false,
            hidden: false,
            wide: false,
            wide_spacer: false,
            trailing: false,
            leading: false,
            wraps: false,
            marks: Vec::new(),
        }
    }

    /// The same cell, kept apart from this one.
    pub fn copy(&self) -> (cell: CellReading)
        ensures
            cell@ == self@,
    {
        CellReading {
            ch: self.ch,
            fg: self.fg,
            bg: self.bg,
            bold: self.bold,
            dim: self.dim,
            italic: self.italic,
            underline: self.underline,
            inverse: self.inverse,
            hidden: self.hidden,
            wide: self.wide,
            wide_spacer: self.wide_spacer,
            trailing: self.trailing,
            leading: self.leading,
            wraps: self.wraps,
            marks: slice_to_vec(self.marks.as_slice()),
        }
    }

    /// How the cell is painted.
    pub fn snapshot(&self, selected: bool) -> (cell: CellSnapshot)
        ensures
            cell == self@.painted(selected),
            cell.bold == self.bold,
            cell.dim == self.dim,
            cell.italic == self.italic,
            cell.underline == self.underline,
            cell.inverse == self.inverse,
            cell.hidden == self.hidden,
            cell.wide == self.wide,
            cell.wide_spacer == self.wide_spacer,
            cell.selected == selected,
    {
        CellSnapshot {
            // Stands for an image; the glyph itself is never drawn.
            ch: if self.ch == PLACEHOLDER {
                ' '
            } else {
                self.ch
            },
            fg: map_color(self.fg),
            bg: map_color(self.bg),
            bold: self.bold,
            dim: self.dim,
            italic: self.italic,
            underline: self.underline,
            inverse: self.inverse,
            hidden: self.hidden,
            wide: self.wide,
            wide_spacer: self.wide_spacer,
            selected,
        }
    }
}

/// One rendered cell: char + colors + the flags paint cares about.
#[derive(Debug, Clone, Copy, PartialEq, Eq, Structural)]
pub struct CellSnapshot {
    pub ch: char,
    pub fg: CellColor,
    pub bg: CellColor,
    pub bold: bool,
    pub dim: bool,
    pub italic: bool,
    pub underline: bool,
    pub inverse: bool,
    pub hidden: bool,
    /// A double-width char (occupies this cell plus the next spacer cell).
    pub wide: bool,
    /// The spacer half of a wide char — never shaped, only background-painted.
    pub wide_spacer: bool,
    /// Inside the active selection: the view paints a wash over this cell.
    pub selected: bool,
}

impl CellSnapshot {
    /// Effective paint colors after INVERSE/HIDDEN resolution: foreground and
    /// background change places on an inverse cell, and a hidden one shows its
    /// background alone.
    pub fn display_colors(&self) -> (colors: (CellColor, CellColor))
        ensures
            colors.1 == (if self.inverse {
                self.fg
            } else {
                self.bg
            }),
            colors.0 == (if self.hidden {
                colors.1
            } else if self.inverse {
                self.bg
            } else {
                self.fg
            }),
    {
        let (fg, bg) = if self.inverse {
            (self.bg, self.fg)
        } else {
            (self.fg, self.bg)
        };
        if self.hidden {
            (bg, bg)
        } else {
            (fg, bg)
        }
    }
}

/// A viewport row as trimmed text: its characters left to right, the spacer
/// halves of wide characters skipped, no blank at the end.
pub open spec fn unspaced(cells: Seq<CellSnapshot>) -> Seq<char>
    decreases cells.len(),
{
    if cells.len() == 0 {
        Seq::empty()
    } else if cells.last().wide_spacer {
        unspaced(cells.drop_last())
    } else {
        unspaced(cells.drop_last()).push(cells.last().ch)
    }
}

/// `text` without the blanks at its end.
pub open spec fn trimmed(text: Seq<char>) -> Seq<char>
    decreases text.len(),
{
    if text.len() > 0 && text.last() == ' ' {
        trimmed(text.drop_last())
    } else {
        text
    }
}

/// The characters of a row, as trimmed text.
pub fn row_chars(cells: &[CellSnapshot]) -> (text: Vec<char>)
    ensures
        text@ == trimmed(unspaced(cells@)),
{
    let mut text: Vec<char> = Vec::new();
    let mut i: usize = 0;
    while i < cells.len()
        invariant
            i <= cells.len(),
            text@ == unspaced(cells@.subrange(0, i as int)),
        decreases cells.len() - i,
    {
        proof {
            assert(cells@.subrange(0, i + 1).drop_last() =~= cells@.subrange(0, i as int));
        }
        if !cells[i].wide_spacer {
            text.push(cells[i].ch);
        }
        i = i + 1;
    }
    assert(cells@.subrange(0, i as int) =~= cells@);
    while text.len() > 0 && text[text.len() - 1] == ' '
        invariant
            trimmed(text@) == trimmed(unspaced(cells@)),
        decreases text.len(),
    {
        let _ = text.pop();
    }
    text
}

} // verus!
