//! The marks that keep an image on its text.
//!
//! An anchor is a zerowidth char written onto the cells of an image's top row,
//! because the grid is the only thing that keeps an association on its text:
//! `alacritty_terminal` exposes no absolute line number and no scroll
//! callback, so a side table keyed by line drifts the first time output
//! scrolls. A cell carried into history and back, or rewrapped by a resize,
//! carries its zerowidth chars with it.

use vstd::prelude::*;

verus! {

/// The private-use codepoint a placement is anchored with, plus its id.
pub const ANCHOR: u32 = 0xF_0000;

/// Plane 15 ends at `U+FFFFD`, which is the ceiling on live placements.
pub const ANCHOR_MAX: u32 = 0xFFFD;

/// The codepoint written beside an anchor, plus which of the placement's
/// columns the cell is.
///
/// Every cell of a placement's top row carries the pair, so text over the
/// image's left edge still leaves cells that know where that edge was. Plane
/// 16, which keeps [`ANCHOR`]'s own range whole.
pub const ANCHOR_COLUMN: u32 = 0x10_0000;

/// Columns of a top row that carry one.
pub const ANCHOR_COLUMN_MAX: u32 = 256;

/// `char::from_u32`: the character with the number `i`, which every number up
/// to `0x10FFFF` is but the surrogates.
pub assume_specification[ char::from_u32 ](i: u32) -> (c: Option<char>)
    ensures
        c is Some <==> i < 0xD800 || 0xE000 <= i <= 0x10FFFF,
        c is Some ==> c->0 as u32 == i,
;

/// The number of a character.
pub open spec fn number(c: char) -> int {
    c as u32 as int
}

/// The character with the number `n`.
pub open spec fn char_of(n: int) -> char {
    choose|c: char| #[trigger] number(c) == n
}

/// A character is the one with its number.
pub proof fn lemma_char_of(c: char)
    ensures
        char_of(number(c)) == c,
{
    assert(number(c) == number(c));
    let other = char_of(number(c));
    assert(number(other) == number(c));
}

/// The anchor a mark names.
pub open spec fn anchor_of(mark: char) -> Option<u32> {
    if ANCHOR <= mark as u32 && (mark as u32) < ANCHOR + ANCHOR_MAX {
        Some((mark as u32 - ANCHOR) as u32)
    } else {
        None
    }
}

/// The column a mark names.
pub open spec fn column_of(mark: char) -> Option<usize> {
    if ANCHOR_COLUMN <= mark as u32 && (mark as u32) < ANCHOR_COLUMN + ANCHOR_COLUMN_MAX {
        Some((mark as u32 - ANCHOR_COLUMN) as usize)
    } else {
        None
    }
}

/// Whether a mark is either half of a pair.
pub open spec fn anchors(mark: char) -> bool {
    anchor_of(mark) is Some || column_of(mark) is Some
}

/// The column mark at `at`, if one stands there.
pub open spec fn column_at(marks: Seq<char>, at: int) -> Option<usize> {
    if 0 <= at < marks.len() {
        column_of(marks[at])
    } else {
        None
    }
}

/// The anchors among the first `n` marks, each with the column mark written
/// straight after it.
pub open spec fn pairs_to(marks: Seq<char>, n: int) -> Seq<(u32, Option<usize>)>
    decreases n,
{
    if n <= 0 {
        Seq::empty()
    } else {
        match anchor_of(marks[n - 1]) {
            Some(anchor) => pairs_to(marks, n - 1).push((anchor, column_at(marks, n))),
            None => pairs_to(marks, n - 1),
        }
    }
}

/// The anchors in a cell's marks, each with the column mark written straight
/// after it.
pub open spec fn pairs(marks: Seq<char>) -> Seq<(u32, Option<usize>)> {
    pairs_to(marks, marks.len() as int)
}

/// The anchors in a cell's zerowidth marks, each with the column mark written
/// straight after it.
pub fn anchor_pairs(marks: &[char]) -> (out: Vec<(u32, Option<usize>)>)
    ensures
        out@ == pairs(marks@),
{
    let mut out: Vec<(u32, Option<usize>)> = Vec::new();
    let mut at: usize = 0;
    while at < marks.len()
        invariant
            at <= marks.len(),
            out@ == pairs_to(marks@, at as int),
        decreases marks.len() - at,
    {
        let mark = marks[at] as u32;
        if ANCHOR <= mark && mark - ANCHOR < ANCHOR_MAX {
            let column: Option<usize> = if at + 1 < marks.len() {
                let next = marks[at + 1] as u32;
                if ANCHOR_COLUMN <= next && next - ANCHOR_COLUMN < ANCHOR_COLUMN_MAX {
                    Some((next - ANCHOR_COLUMN) as usize)
                } else {
                    None
                }
            } else {
                None
            };
            out.push((mark - ANCHOR, column));
        }
        at = at + 1;
    }
    out
}

/// Whether `ch` is one of the private-use codepoints a placement anchors with:
/// either half of the pair.
pub fn is_anchor(ch: char) -> (yes: bool)
    ensures
        yes == anchors(ch),
{
    let ch = ch as u32;
    (ANCHOR <= ch && ch < ANCHOR + ANCHOR_MAX) || (ANCHOR_COLUMN <= ch && ch < ANCHOR_COLUMN
        + ANCHOR_COLUMN_MAX)
}

/// The marks that are no anchor.
pub open spec fn plain(marks: Seq<char>) -> Seq<char> {
    marks.filter(|mark: char| !anchors(mark))
}

} // verus!
