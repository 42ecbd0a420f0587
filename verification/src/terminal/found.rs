//! A placement is found where it was put, and gone once it is taken away.

use vstd::prelude::*;

use crate::terminal::anchors;
use crate::terminal::anchors::{ANCHOR, ANCHOR_COLUMN, ANCHOR_COLUMN_MAX, ANCHOR_MAX};
use crate::terminal::cell::{CellView, GridPoint};
use crate::terminal::delete::{Reach, Target};
use crate::terminal::emulator;
use crate::terminal::emulator::EmulatorView;
use crate::terminal::locate;
use crate::terminal::placement;
use crate::terminal::placement::{
    Covered, CursorMovement, Display, Laid, Placed, Placement, PlacementKey, Slot,
};
use crate::terminal::screen;

verus! {

/// Whether whatever is found under `anchor` is `p`.
pub open spec fn agrees(found: Seq<(u32, Placement)>, anchor: u32, p: Placement) -> bool {
    forall|i: int| 0 <= i < found.len() && (#[trigger] found[i]).0 == anchor ==> found[i].1 == p
}

/// Whether a cell's pairs carry `anchor`.
pub open spec fn carries(pairs: Seq<(u32, Option<usize>)>, anchor: u32) -> bool {
    exists|j: int| 0 <= j < pairs.len() && (#[trigger] pairs[j]).0 == anchor
}

/// Whether every pair for `anchor` on the cell at `row` and `col` puts the left
/// edge at `r` and `c`.
pub open spec fn places(
    pairs: Seq<(u32, Option<usize>)>,
    anchor: u32,
    row: int,
    col: int,
    r: int,
    c: int,
) -> bool {
    forall|j: int|
        0 <= j < pairs.len() && (#[trigger] pairs[j]).0 == anchor ==> row == r
            && locate::left_edge(col, pairs[j].1) == c
}

proof fn lemma_found_on_cell(
    placed: Map<u32, Placed>,
    found: Seq<(u32, Placement)>,
    row: int,
    col: int,
    pairs: Seq<(u32, Option<usize>)>,
    n: int,
    anchor: u32,
    r: int,
    c: int,
)
    requires
        0 <= n <= pairs.len(),
        placed.contains_key(anchor),
        agrees(found, anchor, placed[anchor].at(r, c)),
        places(pairs, anchor, row, col, r, c),
    ensures
        ({
            let after = locate::found_on_cell(placed, found, row, col, pairs, n);
            &&& agrees(after, anchor, placed[anchor].at(r, c))
            &&& locate::is_found(found, anchor) ==> locate::is_found(after, anchor)
            &&& (exists|j: int| 0 <= j < n && (#[trigger] pairs[j]).0 == anchor)
                ==> locate::is_found(after, anchor)
        }),
    decreases n,
{
    if n > 0 {
        lemma_found_on_cell(placed, found, row, col, pairs, n - 1, anchor, r, c);
        let before = locate::found_on_cell(placed, found, row, col, pairs, n - 1);
        let after = locate::found_on_cell(placed, found, row, col, pairs, n);
        assert forall|i: int| 0 <= i < before.len() implies #[trigger] after[i] == before[i] by {}
        if locate::is_found(before, anchor) {
            let i = choose|i: int| 0 <= i < before.len() && (#[trigger] before[i]).0 == anchor;
            assert(after[i].0 == anchor);
        }
        if pairs[n - 1].0 == anchor && !locate::is_found(before, anchor) {
            assert(after[before.len() as int].0 == anchor);
        }
    }
}

proof fn lemma_found_on_row(
    placed: Map<u32, Placed>,
    found: Seq<(u32, Placement)>,
    row: int,
    cells: Seq<CellView>,
    n: int,
    anchor: u32,
    r: int,
    c: int,
)
    requires
        0 <= n <= cells.len(),
        placed.contains_key(anchor),
        agrees(found, anchor, placed[anchor].at(r, c)),
        forall|col: int|
            0 <= col < cells.len() ==> places(
                anchors::pairs((#[trigger] cells[col]).marks),
                anchor,
                row,
                col,
                r,
                c,
            ),
    ensures
        ({
            let after = locate::found_on_row(placed, found, row, cells, n);
            &&& agrees(after, anchor, placed[anchor].at(r, c))
            &&& locate::is_found(found, anchor) ==> locate::is_found(after, anchor)
            &&& (exists|col: int|
                0 <= col < n && carries(anchors::pairs((#[trigger] cells[col]).marks), anchor))
                ==> locate::is_found(after, anchor)
        }),
    decreases n,
{
    if n > 0 {
        lemma_found_on_row(placed, found, row, cells, n - 1, anchor, r, c);
        let pairs = anchors::pairs(cells[n - 1].marks);
        lemma_found_on_cell(
            placed,
            locate::found_on_row(placed, found, row, cells, n - 1),
            row,
            n - 1,
            pairs,
            pairs.len() as int,
            anchor,
            r,
            c,
        );
    }
}

proof fn lemma_anchored_on(
    placed: Map<u32, Placed>,
    rows: Seq<Seq<CellView>>,
    n: int,
    anchor: u32,
    r: int,
    c: int,
)
    requires
        0 <= n <= rows.len(),
        placed.contains_key(anchor),
        forall|row: int, col: int|
            0 <= row < rows.len() && 0 <= col < rows[row].len() ==> places(
                anchors::pairs((#[trigger] rows[row][col]).marks),
                anchor,
                row,
                col,
                r,
                c,
            ),
    ensures
        ({
            let after = locate::anchored_on(placed, rows, n);
            &&& agrees(after, anchor, placed[anchor].at(r, c))
            &&& (exists|row: int, col: int|
                0 <= row < n && 0 <= col < rows[row].len() && carries(
                    anchors::pairs((#[trigger] rows[row][col]).marks),
                    anchor,
                )) ==> locate::is_found(after, anchor)
        }),
    decreases n,
{
    if n > 0 {
        lemma_anchored_on(placed, rows, n - 1, anchor, r, c);
        assert forall|col: int| 0 <= col < rows[n - 1].len() implies places(
            anchors::pairs((#[trigger] rows[n - 1][col]).marks),
            anchor,
            n - 1,
            col,
            r,
            c,
        ) by {}
        lemma_found_on_row(
            placed,
            locate::anchored_on(placed, rows, n - 1),
            n - 1,
            rows[n - 1],
            rows[n - 1].len() as int,
            anchor,
            r,
            c,
        );
    }
}

/// A number in the range of anchors and columns is that of a character.
proof fn lemma_numbered(n: int)
    requires
        0xE000 <= n <= 0x10FFFF,
    ensures
        anchors::number(anchors::char_of(n)) == n,
{
    let c = (n as u32) as char;
    assert(anchors::number(c) == n);
}

/// What a pair names was named by a mark.
proof fn lemma_pair_from_mark(marks: Seq<char>, n: int, j: int)
    requires
        0 <= n <= marks.len(),
        0 <= j < anchors::pairs_to(marks, n).len(),
    ensures
        exists|k: int|
            0 <= k < n && anchors::anchor_of(#[trigger] marks[k]) == Some(
                anchors::pairs_to(marks, n)[j].0,
            ),
    decreases n,
{
    if j < anchors::pairs_to(marks, n - 1).len() {
        lemma_pair_from_mark(marks, n - 1, j);
    } else {
        assert(anchors::anchor_of(marks[n - 1]) is Some);
    }
}

/// Marks added behind others change no pair before them, where the first of
/// them is no column.
proof fn lemma_pairs_before(marks: Seq<char>, more: Seq<char>, n: int)
    requires
        0 <= n <= marks.len() < more.len(),
        forall|k: int| 0 <= k < marks.len() ==> #[trigger] more[k] == marks[k],
        anchors::column_of(more[marks.len() as int]) is None,
    ensures
        anchors::pairs_to(more, n) == anchors::pairs_to(marks, n),
    decreases n,
{
    if n > 0 {
        lemma_pairs_before(marks, more, n - 1);
    }
}

/// The marks of live pairs name no placement but a live one.
proof fn lemma_live_names(
    placed: Map<u32, Placed>,
    pairs: Seq<(u32, Option<usize>)>,
    n: int,
    k: int,
)
    requires
        0 <= n <= pairs.len(),
        forall|j: int|
            0 <= j < pairs.len() ==> (#[trigger] pairs[j]).0 < ANCHOR_MAX && (pairs[j].1 matches Some(
                column,
            ) ==> column < ANCHOR_COLUMN_MAX),
        0 <= k < placement::live(placed, pairs, n).len(),
    ensures
        anchors::anchor_of(placement::live(placed, pairs, n)[k]) matches Some(anchor)
            ==> placed.contains_key(anchor),
    decreases n,
{
    if n > 0 {
        let before = placement::live(placed, pairs, n - 1);
        if k < before.len() {
            lemma_live_names(placed, pairs, n - 1, k);
        } else {
            lemma_numbered(ANCHOR + pairs[n - 1].0);
            if let Some(column) = pairs[n - 1].1 {
                lemma_numbered(ANCHOR_COLUMN + column);
            }
        }
    }
}

/// The marks written onto a cell: those it had, less the pairs of placements
/// that are gone, and the new pair. The new pair is among them, and where
/// nothing is placed under its anchor yet, it is the only one for that anchor.
proof fn lemma_stamped(laid: Laid, marks: Seq<char>, anchor: u32, column: int)
    requires
        anchor < ANCHOR_MAX,
        0 <= column < ANCHOR_COLUMN_MAX,
        !laid.placed.contains_key(anchor),
    ensures
        ({
            let pairs = anchors::pairs(emulator::stamped(laid, marks, anchor, column));
            &&& carries(pairs, anchor)
            &&& forall|j: int|
                0 <= j < pairs.len() && (#[trigger] pairs[j]).0 == anchor ==> pairs[j].1 == Some(
                    column as usize,
                )
        }),
{
    let any = exists|i: int| 0 <= i < marks.len() && anchors::anchors(#[trigger] marks[i]);
    let kept = if any {
        laid.keeps(marks)
    } else {
        marks
    };
    let first = anchors::char_of(ANCHOR + anchor);
    let second = anchors::char_of(ANCHOR_COLUMN + column);
    lemma_numbered(ANCHOR + anchor);
    lemma_numbered(ANCHOR_COLUMN + column);
    let all = kept.push(first).push(second);
    let n = kept.len() as int;
    assert(anchors::anchor_of(first) == Some(anchor));
    assert(anchors::column_of(first) is None);
    assert(anchors::anchor_of(second) is None);
    assert(anchors::column_of(second) == Some(column as usize));
    lemma_pairs_before(kept, all, n);
    assert(all[n] == first && all[n + 1] == second);
    let before = anchors::pairs(kept);
    assert(anchors::pairs_to(all, n + 1) == before.push((anchor, Some(column as usize))));
    assert(anchors::pairs_to(all, n + 2) == anchors::pairs_to(all, n + 1));
    let pairs = anchors::pairs(all);
    assert(pairs[before.len() as int].0 == anchor);
    assert forall|k: int| 0 <= k < kept.len() implies anchors::anchor_of(#[trigger] kept[k]) != Some(
        anchor,
    ) by {
        if any {
            let plain = anchors::plain(marks);
            let old_pairs = anchors::pairs(marks);
            if k < plain.len() {
                marks.lemma_filter_pred(|mark: char| !anchors::anchors(mark), k);
            } else {
                assert forall|j: int| 0 <= j < old_pairs.len() implies (
                #[trigger] old_pairs[j]).0 < ANCHOR_MAX && (old_pairs[j].1 matches Some(column)
                    ==> column < ANCHOR_COLUMN_MAX) by {
                    placement::lemma_pairs_bounded(marks, marks.len() as int, j);
                }
                lemma_live_names(
                    laid.placed,
                    old_pairs,
                    old_pairs.len() as int,
                    k - plain.len(),
                );
            }
        } else {
            assert(!anchors::anchors(marks[k]));
        }
    }
    assert forall|j: int|
        0 <= j < pairs.len() && (#[trigger] pairs[j]).0 == anchor implies pairs[j].1 == Some(
        column as usize,
    ) by {
        if j < before.len() {
            lemma_pair_from_mark(kept, n, j);
        }
    }
}

/// The cells a placement is written onto, and no others, differ.
proof fn lemma_stamped_row(
    grid: Map<(int, int), CellView>,
    laid: Laid,
    anchor: u32,
    at: GridPoint,
    n: int,
    row: int,
    col: int,
)
    requires
        0 <= n,
    ensures
        ({
            let after = emulator::stamped_row(grid, laid, anchor, at, n);
            if row == at.line && at.column <= col < at.column + n {
                after[(row, col)].marks == emulator::stamped(
                    laid,
                    grid[(row, col)].marks,
                    anchor,
                    col - at.column,
                )
            } else {
                after[(row, col)] == grid[(row, col)]
            }
        }),
    decreases n,
{
    if n > 0 {
        lemma_stamped_row(grid, laid, anchor, at, n - 1, row, col);
        lemma_stamped_row(grid, laid, anchor, at, n - 1, at.line as int, at.column + n - 1);
    }
}

/// The placement a display leaves under an anchor.
pub open spec fn laid_down(display: Display, covered: Covered) -> Placed {
    Placed {
        image: display.image,
        placement: display.placement,
        cols: covered.cols,
        rows: covered.rows,
        frame: covered.frame,
        source: covered.source,
        z: display.z,
    }
}

/// A placement is found where it was put. A display that leaves the cursor
/// where it is, on a screen that is neither held nor scrolled back, is found
/// with its top-left cell at the cursor — where the anchor it took is on no
/// other cell of the screen.
pub proof fn a_placement_is_found_where_it_was_put(
    before: EmulatorView,
    claimed: Laid,
    anchor: u32,
    display: Display,
    covered: Covered,
    after: EmulatorView,
    slots: Seq<Vec<Option<Slot>>>,
)
    requires
        before.shape().wf(),
        anchor < ANCHOR_MAX,
        !claimed.placed.contains_key(anchor),
        after.laid == claimed.settled(anchor, display, covered),
        display.cursor_movement == CursorMovement::Stay,
        emulator::anchored(
            before,
            emulator::stamped_row(
                screen::grid_of(before.term),
                claimed,
                anchor,
                screen::cursor_of(before.term),
                emulator::stamped_width(
                    before.shape(),
                    screen::cursor_of(before.term),
                    covered.cols,
                ),
            ),
            display.reserves(covered.rows),
            after,
        ),
        before.shape().offset == 0,
        after.held is None,
        covered.cols > 0,
        before.shape().has(screen::cursor_of(before.term)),
        screen::cursor_of(before.term).line >= 0,
        forall|row: int, col: int|
            0 <= row < before.shape().lines && 0 <= col < before.shape().columns && !(row
                == screen::cursor_of(before.term).line && screen::cursor_of(before.term).column
                <= col) ==> !carries(
                anchors::pairs(#[trigger] screen::shown_cell(before.term, row, col).marks),
                anchor,
            ),
        // To the right of what is written onto, too.
        forall|col: int|
            screen::cursor_of(before.term).column + emulator::stamped_width(
                before.shape(),
                screen::cursor_of(before.term),
                covered.cols,
            ) <= col < before.shape().columns ==> !carries(
                anchors::pairs(
                    (#[trigger] screen::shown_cell(
                        before.term,
                        screen::cursor_of(before.term).line as int,
                        col,
                    )).marks,
                ),
                anchor,
            ),
    ensures
        locate::finds(
            after.frame().laid,
            after.frame().order,
            after.frame().rows,
            slots,
            after.shape().columns as int,
        ).all().contains(
            laid_down(display, covered).at(
                screen::cursor_of(before.term).line as int,
                screen::cursor_of(before.term).column as int,
            ),
        ),
{
    assert(emulator::linefed(before.parser, after.term, 0) == (before.parser, after.term));
    assert(after.shape() == before.shape());
    let at = screen::cursor_of(before.term);
    let shape = before.shape();
    let grid = screen::grid_of(before.term);
    let n = emulator::stamped_width(shape, at, covered.cols);
    let (r, c) = (at.line as int, at.column as int);
    let placed = after.laid.placed;
    let rows = after.frame().rows;
    assert(rows == emulator::rows_shown(after.term, 0));
    assert(placed[anchor] == laid_down(display, covered));
    assert(0 < n <= ANCHOR_COLUMN_MAX && c + n <= shape.columns);
    assert forall|row: int, col: int|
        0 <= row < rows.len() && 0 <= col < rows[row].len() implies places(
        anchors::pairs((#[trigger] rows[row][col]).marks),
        anchor,
        row,
        col,
        r,
        c,
    ) by {
        lemma_stamped_row(grid, claimed, anchor, at, n, row, col);
        assert(rows[row][col] == screen::grid_of(after.term)[(row, col)]);
        assert(screen::shown_cell(before.term, row, col) == grid[(row, col)]);
        if row == r && c <= col < c + n {
            lemma_stamped(claimed, grid[(row, col)].marks, anchor, col - c);
        }
    }
    lemma_stamped_row(grid, claimed, anchor, at, n, r, c);
    lemma_stamped(claimed, grid[(r, c)].marks, anchor, 0);
    assert(rows[r][c] == screen::grid_of(after.term)[(r, c)]);
    assert(carries(anchors::pairs(rows[r][c].marks), anchor));
    lemma_anchored_on(placed, rows, rows.len() as int, anchor, r, c);
    let found = locate::anchored_on(placed, rows, rows.len() as int);
    let i = choose|i: int| 0 <= i < found.len() && (#[trigger] found[i]).0 == anchor;
    assert(found[i].1 == placed[anchor].at(r, c));
    let all = locate::finds(
        after.frame().laid,
        after.frame().order,
        rows,
        slots,
        after.shape().columns as int,
    ).all();
    assert(all[i] == found[i].1);
}

/// An image deleted is shown no more: whatever else goes with it, none of its
/// placements is left, and where its data was to go, it goes.
pub proof fn a_deleted_image_is_shown_no_more(reach: Reach, id: u32, after: Laid)
    requires
        reach.target == (Target::Image { id, placement: 0 }),
        after == reach.left().with_relatives(after.relatives),
        reach.left().prunes_to(after.relatives),
    ensures
        !after.shows(id),
        reach.frees(after, true, id),
{
    let left = reach.left();
    assert forall|anchor: u32| #[trigger]
        after.placed.contains_key(anchor) implies after.placed[anchor].image != id by {
        assert(left.placed.contains_key(anchor));
        assert(!reach.takes_anchor(anchor));
    }
    assert forall|key: PlacementKey| #[trigger]
        after.virtuals.contains_key(key) implies key.image != id by {
        assert(left.virtuals.contains_key(key));
        assert(!reach.takes_virtual(key));
    }
    assert forall|key: PlacementKey| #[trigger]
        after.relatives.contains_key(key) implies key.image != id by {
        assert(after.relatives.submap_of(left.relatives));
        assert(after.relatives.dom().contains(key));
        assert(left.relatives.contains_key(key));
        assert(!reach.takes_relative(key));
    }
}

} // verus!
