//! Where the placements are: the walk over a screen's cells that finds them.

use vstd::prelude::*;

use crate::terminal::anchors;
use crate::terminal::anchors::anchor_pairs;
use crate::terminal::cell::{CellReading, CellView};
use crate::terminal::placement;
use crate::terminal::placement::{
    Laid, Placed, Placement, PlacementKey, Placements, Relative, Slot, Virtual, MAX_RELATIVE_DEPTH,
};
use crate::terminal::table::Table;

verus! {

/// The rows of a screen, as mathematical values.
pub open spec fn rows_of(rows: Seq<Vec<CellReading>>) -> Seq<Seq<CellView>> {
    rows.map_values(|row: Vec<CellReading>| row@.map_values(|cell: CellReading| cell@))
}

/// The cells of a row, as mathematical values.
pub open spec fn cells_of(row: Seq<CellReading>) -> Seq<CellView> {
    row.map_values(|cell: CellReading| cell@)
}

/// Whether the placement under `anchor` is among those found.
pub open spec fn is_found(found: Seq<(u32, Placement)>, anchor: u32) -> bool {
    exists|i: int| 0 <= i < found.len() && (#[trigger] found[i]).0 == anchor
}

/// The column a pair on the cell at `col` puts the left edge at. A cell whose
/// column mark was lost still holds the image; it can only say the left edge
/// is here.
pub open spec fn left_edge(col: int, within: Option<usize>) -> int {
    match within {
        Some(within) => if within <= col {
            col - within
        } else {
            0
        },
        None => col,
    }
}

/// What has been found once the first `n` pairs of the cell at `row` and `col`
/// have been looked at.
pub open spec fn found_on_cell(
    placed: Map<u32, Placed>,
    found: Seq<(u32, Placement)>,
    row: int,
    col: int,
    pairs: Seq<(u32, Option<usize>)>,
    n: int,
) -> Seq<(u32, Placement)>
    decreases n,
{
    if n <= 0 {
        found
    } else {
        let before = found_on_cell(placed, found, row, col, pairs, n - 1);
        let (anchor, within) = pairs[n - 1];
        if placed.contains_key(anchor) && !is_found(before, anchor) {
            before.push((anchor, placed[anchor].at(row, left_edge(col, within))))
        } else {
            before
        }
    }
}

/// What has been found once the first `n` cells of row `row` have been looked
/// at.
pub open spec fn found_on_row(
    placed: Map<u32, Placed>,
    found: Seq<(u32, Placement)>,
    row: int,
    cells: Seq<CellView>,
    n: int,
) -> Seq<(u32, Placement)>
    decreases n,
{
    if n <= 0 {
        found
    } else {
        let pairs = anchors::pairs(cells[n - 1].marks);
        found_on_cell(
            placed,
            found_on_row(placed, found, row, cells, n - 1),
            row,
            n - 1,
            pairs,
            pairs.len() as int,
        )
    }
}

/// The anchored placements on the first `n` rows: each where the first of its
/// anchors stands, left to right and top to bottom.
pub open spec fn anchored_on(
    placed: Map<u32, Placed>,
    rows: Seq<Seq<CellView>>,
    n: int,
) -> Seq<(u32, Placement)>
    decreases n,
{
    if n <= 0 {
        Seq::empty()
    } else {
        found_on_row(
            placed,
            anchored_on(placed, rows, n - 1),
            n - 1,
            rows[n - 1],
            rows[n - 1].len() as int,
        )
    }
}

/// The virtual placement of `image` with the lowest id.
pub open spec fn lowest(virtuals: Map<PlacementKey, Virtual>, image: u32) -> Option<PlacementKey> {
    if exists|key: PlacementKey| placement::is_lowest(virtuals, image, key) {
        Some(choose|key: PlacementKey| placement::is_lowest(virtuals, image, key))
    } else {
        None
    }
}

/// The virtual placement a placeholder cell shows. A cell naming no placement
/// id shows the image's virtual placement with the lowest id. A cell outside
/// its placement's box shows nothing.
pub open spec fn showing(virtuals: Map<PlacementKey, Virtual>, slot: Slot) -> Option<
    PlacementKey,
> {
    let key = if slot.placement == 0 {
        lowest(virtuals, slot.image)
    } else {
        Some(PlacementKey { image: slot.image, placement: slot.placement })
    };
    match key {
        Some(key) => if virtuals.contains_key(key) && slot.row < virtuals[key].rows && slot.col
            < virtuals[key].cols {
            Some(key)
        } else {
            None
        },
        None => None,
    }
}

/// The virtual placement a placeholder cell shows, and its key.
pub fn shown_by(placements: &Placements, slot: Slot) -> (shown: Option<(PlacementKey, Virtual)>)
    requires
        placements.wf(),
    ensures
        shown is Some <==> showing(placements@.virtuals, slot) is Some,
        shown matches Some((key, found)) ==> key == showing(placements@.virtuals, slot)->0 && found
            == placements@.virtuals[key],
{
    let key = if slot.placement == 0 {
        let found = placements.lowest_virtual(slot.image);
        proof {
            let virtuals = placements@.virtuals;
            if let Some(key) = found {
                let chosen = choose|key: PlacementKey|
                    placement::is_lowest(virtuals, slot.image, key);
                assert(placement::is_lowest(virtuals, slot.image, chosen));
                assert(chosen == key);
            }
            assert(found == lowest(virtuals, slot.image));
        }
        match found {
            Some(key) => key,
            None => {
                return None;
            },
        }
    } else {
        PlacementKey { image: slot.image, placement: slot.placement }
    };
    match placements.virtual_named(key) {
        Some(found) => if slot.row < found.rows as u32 && slot.col < found.cols as u32 {
            Some((key, found))
        } else {
            None
        },
        None => None,
    }
}

/// The slices of virtual placements met so far on a row, and the run being
/// grown: the placement its cells show and the slot of its last cell.
#[verifier::ext_equal]
pub struct Slices {
    pub pieces: Seq<(PlacementKey, Placement)>,
    pub run: Option<(PlacementKey, Slot)>,
}

impl Slices {
    /// Whether `slot` of `key` continues the run.
    pub open spec fn continues(self, key: PlacementKey, slot: Slot) -> bool {
        match self.run {
            Some((run, last)) => run == key && last.row == slot.row && last.col + 1 == slot.col,
            None => false,
        }
    }

    /// One more cell, at `row` and `col`, which shows what `slot` says.
    pub open spec fn step(
        self,
        virtuals: Map<PlacementKey, Virtual>,
        row: int,
        col: int,
        slot: Option<Slot>,
    ) -> Slices {
        if slot is Some && showing(virtuals, slot->0) is Some {
            let slot = slot->0;
            let key = showing(virtuals, slot)->0;
            let run = Some((key, slot));
            if self.continues(key, slot) {
                let (_, last) = self.pieces.last();
                Slices {
                    pieces: self.pieces.drop_last().push(
                        (key, Placement { cols: (last.cols + 1) as u16, ..last }),
                    ),
                    run,
                }
            } else {
                Slices { pieces: self.pieces.push((key, slice_at(virtuals, key, slot, row, col))), run }
            }
        } else {
            Slices { run: None, ..self }
        }
    }
}

/// A slice one cell wide, at `row` and `col`.
pub open spec fn slice_at(
    virtuals: Map<PlacementKey, Virtual>,
    key: PlacementKey,
    slot: Slot,
    row: int,
    col: int,
) -> Placement {
    Placement {
        row: row as usize,
        col: col as usize,
        cols: 1,
        rows: 1,
        image: key.image,
        frame: virtuals[key].frame,
        slice: (slot.col, slot.row),
        source: virtuals[key].source,
        z: virtuals[key].z,
    }
}

/// The slot of the cell at `row` and `col`.
pub open spec fn slot_at(slots: Seq<Vec<Option<Slot>>>, row: int, col: int) -> Option<Slot> {
    if 0 <= row < slots.len() && 0 <= col < slots[row]@.len() {
        slots[row]@[col]
    } else {
        None
    }
}

/// The slices once the first `n` cells of row `row` have been looked at.
pub open spec fn slices_on_row(
    virtuals: Map<PlacementKey, Virtual>,
    pieces: Seq<(PlacementKey, Placement)>,
    slots: Seq<Vec<Option<Slot>>>,
    row: int,
    n: int,
) -> Slices
    decreases n,
{
    if n <= 0 {
        Slices { pieces, run: None }
    } else {
        slices_on_row(virtuals, pieces, slots, row, n - 1).step(
            virtuals,
            row,
            n - 1,
            slot_at(slots, row, n - 1),
        )
    }
}

/// The slices of virtual placements on the first `n` rows: one per run of
/// cells that continue each other along a row.
pub open spec fn slices_on(
    virtuals: Map<PlacementKey, Virtual>,
    slots: Seq<Vec<Option<Slot>>>,
    rows: Seq<Seq<CellView>>,
    n: int,
) -> Seq<(PlacementKey, Placement)>
    decreases n,
{
    if n <= 0 {
        Seq::empty()
    } else {
        slices_on_row(
            virtuals,
            slices_on(virtuals, slots, rows, n - 1),
            slots,
            n - 1,
            rows[n - 1].len() as int,
        ).pieces
    }
}

/// Every placement found stands on one of the rows and columns of a grid.
pub open spec fn on_grid<K>(found: Seq<(K, Placement)>) -> bool {
    forall|i: int|
        0 <= i < found.len() ==> (#[trigger] found[i]).1.row <= u16::MAX && found[i].1.col
            <= u16::MAX
}

/// What a cell's pairs add to what has been found.
fn find_on_cell(
    placements: &Placements,
    found: &mut Vec<(u32, Placement)>,
    row: usize,
    col: usize,
    marks: &[char],
)
    requires
        placements.wf(),
        row <= u16::MAX,
        col <= u16::MAX,
        on_grid(old(found)@),
    ensures
        on_grid(final(found)@),
        final(found)@ == found_on_cell(
            placements@.placed,
            old(found)@,
            row as int,
            col as int,
            anchors::pairs(marks@),
            anchors::pairs(marks@).len() as int,
        ),
{
    let pairs = anchor_pairs(marks);
    let mut i: usize = 0;
    while i < pairs.len()
        invariant
            placements.wf(),
            row <= u16::MAX,
            col <= u16::MAX,
            on_grid(found@),
            pairs@ == anchors::pairs(marks@),
            i <= pairs@.len(),
            found@ == found_on_cell(
                placements@.placed,
                old(found)@,
                row as int,
                col as int,
                pairs@,
                i as int,
            ),
        decreases pairs@.len() - i,
    {
        let (anchor, within) = pairs[i];
        if let Some(placed) = placements.placed_under(anchor) {
            if !seen(found, anchor) {
                let edge = match within {
                    Some(within) => if within <= col {
                        col - within
                    } else {
                        0
                    },
                    None => col,
                };
                found.push(
                    (
                        anchor,
                        Placement {
                            row,
                            col: edge,
                            cols: placed.cols,
                            rows: placed.rows,
                            image: placed.image,
                            frame: placed.frame,
                            slice: (0, 0),
                            source: placed.source,
                            z: placed.z,
                        },
                    ),
                );
            }
        }
        i = i + 1;
    }
}

/// Whether the placement under `anchor` is among those found.
fn seen(found: &Vec<(u32, Placement)>, anchor: u32) -> (yes: bool)
    ensures
        yes == is_found(found@, anchor),
{
    let mut i: usize = 0;
    while i < found.len()
        invariant
            i <= found@.len(),
            forall|j: int| 0 <= j < i ==> (#[trigger] found@[j]).0 != anchor,
        decreases found@.len() - i,
    {
        if found[i].0 == anchor {
            return true;
        }
        i = i + 1;
    }
    false
}

/// The slot of the cell at `row` and `col`.
fn slot_of(slots: &Vec<Vec<Option<Slot>>>, row: usize, col: usize) -> (slot: Option<Slot>)
    ensures
        slot == slot_at(slots@, row as int, col as int),
{
    if row < slots.len() && col < slots[row].len() {
        slots[row][col]
    } else {
        None
    }
}

/// A run in progress grows the last slice, which ends where the walk is.
spec fn growing(slices: Slices, col: int) -> bool {
    slices.run matches Some((key, last)) ==> {
        &&& last.col < u16::MAX
        &&& slices.pieces.len() > 0
        &&& slices.pieces.last().1.cols <= col
    }
}

/// Whether rows are those of a grid: no more of them than a grid has, and none
/// wider.
pub open spec fn fits(rows: Seq<Vec<CellReading>>) -> bool {
    &&& rows.len() <= u16::MAX
    &&& forall|i: int| 0 <= i < rows.len() ==> (#[trigger] rows[i])@.len() <= u16::MAX
}

/// The placements on a screen's rows, in one walk of their cells: anchored
/// ones by anchor id, and the slices of virtual placements that placeholder
/// cells show.
pub fn scan(
    placements: &Placements,
    rows: &Vec<Vec<CellReading>>,
    slots: &Vec<Vec<Option<Slot>>>,
) -> (found: (Vec<(u32, Placement)>, Vec<(PlacementKey, Placement)>))
    requires
        placements.wf(),
        fits(rows@),
    ensures
        on_grid(found.0@),
        on_grid(found.1@),
        found.0@ == anchored_on(placements@.placed, rows_of(rows@), rows@.len() as int),
        found.1@ == slices_on(placements@.virtuals, slots@, rows_of(rows@), rows@.len() as int),
{
    let mut anchored: Vec<(u32, Placement)> = Vec::new();
    let mut pieces: Vec<(PlacementKey, Placement)> = Vec::new();
    let decodes = placements.has_virtuals();
    let ghost placed = placements@.placed;
    let ghost virtuals = placements@.virtuals;
    let ghost all = rows_of(rows@);
    let mut row: usize = 0;
    while row < rows.len()
        invariant
            placements.wf(),
            placed == placements@.placed,
            virtuals == placements@.virtuals,
            all == rows_of(rows@),
            decodes == exists|key: PlacementKey| #[trigger] virtuals.contains_key(key),
            fits(rows@),
            row <= rows@.len(),
            on_grid(anchored@),
            on_grid(pieces@),
            anchored@ == anchored_on(placed, all, row as int),
            pieces@ == slices_on(virtuals, slots@, all, row as int),
        decreases rows@.len() - row,
    {
        let cells = &rows[row];
        let ghost found_above = anchored@;
        let ghost pieces_above = pieces@;
        // The run being grown: the key it was resolved to, and the slot of its
        // last cell.
        let mut run: Option<(PlacementKey, Slot)> = None;
        let mut col: usize = 0;
        assert(all[row as int] == cells_of(cells@));
        assert(rows@[row as int]@.len() <= u16::MAX);
        while col < cells.len()
            invariant
                placements.wf(),
                placed == placements@.placed,
                virtuals == placements@.virtuals,
                decodes == exists|key: PlacementKey| #[trigger] virtuals.contains_key(key),
                cells@.len() <= u16::MAX,
                row <= u16::MAX,
                col <= cells@.len(),
                on_grid(anchored@),
                on_grid(pieces@),
                anchored@ == found_on_row(
                    placed,
                    found_above,
                    row as int,
                    cells_of(cells@),
                    col as int,
                ),
                (Slices { pieces: pieces@, run }) == slices_on_row(
                    virtuals,
                    pieces_above,
                    slots@,
                    row as int,
                    col as int,
                ),
                growing(Slices { pieces: pieces@, run }, col as int),
            decreases cells@.len() - col,
        {
            assert(cells_of(cells@)[col as int].marks == cells@[col as int].marks@);
            find_on_cell(placements, &mut anchored, row, col, &cells[col].marks);
            let slot = slot_of(slots, row, col);
            let ghost before = Slices { pieces: pieces@, run };
            let shown = match slot {
                Some(slot) => if decodes {
                    shown_by(placements, slot)
                } else {
                    proof {
                        lemma_none_shown(virtuals, slot);
                    }
                    None
                },
                None => None,
            };
            match (slot, shown) {
                (Some(slot), Some((key, found))) => {
                    let grows = match run {
                        Some((held, last)) => held == key && last.row == slot.row && last.col + 1
                            == slot.col,
                        None => false,
                    };
                    if grows {
                        let (_, last) = pieces[pieces.len() - 1];
                        let _ = pieces.pop();
                        pieces.push((key, Placement { cols: last.cols + 1, ..last }));
                    } else {
                        pieces.push(
                            (
                                key,
                                Placement {
                                    row,
                                    col,
                                    cols: 1,
                                    rows: 1,
                                    image: key.image,
                                    frame: found.frame,
                                    slice: (slot.col, slot.row),
                                    source: found.source,
                                    z: found.z,
                                },
                            ),
                        );
                    }
                    run = Some((key, slot));
                    proof {
                        if grows {
                            assert(pieces@ =~= before.step(
                                virtuals,
                                row as int,
                                col as int,
                                Some(slot),
                            ).pieces);
                        }
                    }
                },
                _ => {
                    run = None;
                },
            }
            col = col + 1;
        }
        row = row + 1;
    }
    (anchored, pieces)
}

/// Where there is no virtual placement, nothing is shown.
proof fn lemma_none_shown(virtuals: Map<PlacementKey, Virtual>, slot: Slot)
    requires
        !exists|key: PlacementKey| #[trigger] virtuals.contains_key(key),
    ensures
        showing(virtuals, slot) is None,
{
    if lowest(virtuals, slot.image) is Some {
        let key = choose|key: PlacementKey| placement::is_lowest(virtuals, slot.image, key);
        assert(virtuals.contains_key(key));
    }
}

/// A cell by its row and column, counted from the top left of the screen.
pub struct Spot {
    pub row: int,
    pub col: int,
}

/// Where the anchored placements among the first `n` found are.
pub open spec fn anchored_spots(
    placed: Map<u32, Placed>,
    anchored: Seq<(u32, Placement)>,
    n: int,
) -> Map<PlacementKey, Spot>
    decreases n,
{
    if n <= 0 {
        Map::empty()
    } else {
        let before = anchored_spots(placed, anchored, n - 1);
        let (anchor, p) = anchored[n - 1];
        if placed.contains_key(anchor) {
            before.insert(
                placed[anchor].named(),
                Spot { row: p.row as int, col: p.col as int },
            )
        } else {
            before
        }
    }
}

/// Where the placements are that the first `n` slices show, besides those of
/// `anchored`: a virtual placement is at the least row and least column of the
/// cells showing it.
pub open spec fn spots(
    anchored: Map<PlacementKey, Spot>,
    pieces: Seq<(PlacementKey, Placement)>,
    n: int,
) -> Map<PlacementKey, Spot>
    decreases n,
{
    if n <= 0 {
        anchored
    } else {
        let before = spots(anchored, pieces, n - 1);
        let (key, p) = pieces[n - 1];
        let here = Spot { row: p.row as int, col: p.col as int };
        before.insert(
            key,
            if before.contains_key(key) {
                Spot {
                    row: if before[key].row <= here.row {
                        before[key].row
                    } else {
                        here.row
                    },
                    col: if before[key].col <= here.col {
                        before[key].col
                    } else {
                        here.col
                    },
                }
            } else {
                here
            },
        )
    }
}

/// Where the placement that goes by `key` is, walking at most `steps` up its
/// chain to a parent found on the grid.
pub open spec fn spot_of(
    relatives: Map<PlacementKey, Relative>,
    at: Map<PlacementKey, Spot>,
    key: PlacementKey,
    steps: nat,
) -> Option<Spot>
    decreases steps,
{
    if steps == 0 {
        None
    } else if relatives.contains_key(key) {
        match spot_of(relatives, at, relatives[key].parent, (steps - 1) as nat) {
            Some(parent) => Some(
                Spot {
                    row: parent.row + relatives[key].offset.1,
                    col: parent.col + relatives[key].offset.0,
                },
            ),
            None => None,
        }
    } else if at.contains_key(key) {
        Some(at[key])
    } else {
        None
    }
}

/// The first `n` relative placements, those of them that are on a screen of
/// `lines` by `columns`.
pub open spec fn relatives_on(
    order: Seq<(PlacementKey, Relative)>,
    relatives: Map<PlacementKey, Relative>,
    at: Map<PlacementKey, Spot>,
    lines: int,
    columns: int,
    n: int,
) -> Seq<(PlacementKey, Placement)>
    decreases n,
{
    if n <= 0 {
        Seq::empty()
    } else {
        let before = relatives_on(order, relatives, at, lines, columns, n - 1);
        let (key, relative) = order[n - 1];
        match spot_of(relatives, at, key, MAX_RELATIVE_DEPTH as nat + 1) {
            Some(spot) => if 0 <= spot.row < lines && 0 <= spot.col < columns {
                before.push((key, relative_at(key, relative, spot)))
            } else {
                before
            },
            None => before,
        }
    }
}

/// A relative placement, found with its top-left cell at `spot`.
pub open spec fn relative_at(key: PlacementKey, relative: Relative, spot: Spot) -> Placement {
    Placement {
        row: spot.row as usize,
        col: spot.col as usize,
        cols: relative.cols,
        rows: relative.rows,
        image: key.image,
        frame: relative.frame,
        slice: (0, 0),
        source: relative.source,
        z: relative.z,
    }
}

/// What [`locate`] found.
#[derive(Debug)]
pub struct Located {
    /// Anchored placements, by anchor id.
    pub anchored: Vec<(u32, Placement)>,
    /// Slices of virtual placements, by the placement each shows.
    pub pieces: Vec<(PlacementKey, Placement)>,
    /// Relative placements, by image and placement id.
    pub relatives: Vec<(PlacementKey, Placement)>,
}

/// What [`locate`] found, as mathematical values.
#[verifier::ext_equal]
pub struct Finds {
    pub anchored: Seq<(u32, Placement)>,
    pub pieces: Seq<(PlacementKey, Placement)>,
    pub relatives: Seq<(PlacementKey, Placement)>,
}

impl View for Located {
    type V = Finds;

    open spec fn view(&self) -> Finds {
        Finds {
            anchored: self.anchored@,
            pieces: self.pieces@,
            relatives: self.relatives@,
        }
    }
}

impl Finds {
    /// The placements found, in the order they are painted: anchored ones,
    /// slices of virtual ones, and those that hang off either.
    pub open spec fn all(self) -> Seq<Placement> {
        placements_of(self.anchored) + placements_of(self.pieces) + placements_of(self.relatives)
    }
}

/// What is found of the placements `laid` on a screen whose cells are `rows`,
/// those of them that are placeholders showing `slots`. The relative ones are
/// looked for in the order `order`.
pub open spec fn finds(
    laid: Laid,
    order: Seq<(PlacementKey, Relative)>,
    rows: Seq<Seq<CellView>>,
    slots: Seq<Vec<Option<Slot>>>,
    columns: int,
) -> Finds {
    let n = rows.len() as int;
    let anchored = anchored_on(laid.placed, rows, n);
    let pieces = slices_on(laid.virtuals, slots, rows, n);
    let at = spots(
        anchored_spots(laid.placed, anchored, anchored.len() as int),
        pieces,
        pieces.len() as int,
    );
    Finds {
        anchored,
        pieces,
        relatives: relatives_on(order, laid.relatives, at, n, columns, order.len() as int),
    }
}

/// The spots a table holds.
spec fn spots_in(table: Map<PlacementKey, (i64, i64)>) -> Map<PlacementKey, Spot> {
    Map::new(
        |key: PlacementKey| table.contains_key(key),
        |key: PlacementKey| Spot { row: table[key].0 as int, col: table[key].1 as int },
    )
}

/// Every spot of a table is on a grid.
spec fn spots_fit(table: Map<PlacementKey, (i64, i64)>) -> bool {
    forall|key: PlacementKey| #[trigger]
        table.contains_key(key) ==> 0 <= table[key].0 <= u16::MAX && 0 <= table[key].1 <= u16::MAX
}

/// Where a relative placement's top-left cell is, walking its chain up to a
/// parent found on the grid.
fn relative_spot(
    placements: &Placements,
    key: PlacementKey,
    at: &Table<PlacementKey, (i64, i64)>,
) -> (spot: Option<(i64, i64)>)
    requires
        placements.wf(),
        at.wf(),
        spots_fit(at@),
    ensures
        ({
            let found = spot_of(
                placements@.relatives,
                spots_in(at@),
                key,
                MAX_RELATIVE_DEPTH as nat + 1,
            );
            &&& spot is Some <==> found is Some
            &&& spot matches Some((row, col)) ==> found == Some(Spot { row: row as int, col: col as int })
        }),
{
    let mut row: i64 = 0;
    let mut col: i64 = 0;
    let mut here = key;
    let mut step: usize = 0;
    let ghost relatives = placements@.relatives;
    let ghost whole = spot_of(relatives, spots_in(at@), key, MAX_RELATIVE_DEPTH as nat + 1);
    while step <= MAX_RELATIVE_DEPTH
        invariant
            placements.wf(),
            at.wf(),
            spots_fit(at@),
            relatives == placements@.relatives,
            step <= MAX_RELATIVE_DEPTH + 1,
            -0x8000_0000 * step <= row <= 0x8000_0000 * step,
            -0x8000_0000 * step <= col <= 0x8000_0000 * step,
            whole == shifted(
                spot_of(
                    relatives,
                    spots_in(at@),
                    here,
                    (MAX_RELATIVE_DEPTH + 1 - step) as nat,
                ),
                row as int,
                col as int,
            ),
            whole == spot_of(relatives, spots_in(at@), key, MAX_RELATIVE_DEPTH as nat + 1),
        decreases MAX_RELATIVE_DEPTH + 1 - step,
    {
        match placements.relative_named(here) {
            None => {
                return match at.get(here) {
                    Some((r, c)) => Some((r + row, c + col)),
                    None => None,
                };
            },
            Some(relative) => {
                row = row + relative.offset.1 as i64;
                col = col + relative.offset.0 as i64;
                here = relative.parent;
                step = step + 1;
            },
        }
    }
    None
}

/// A spot so many rows and columns further.
spec fn shifted(spot: Option<Spot>, row: int, col: int) -> Option<Spot> {
    match spot {
        Some(spot) => Some(Spot { row: spot.row + row, col: spot.col + col }),
        None => None,
    }
}

/// Where the placements found are, by what names them.
fn spots_found(
    placements: &Placements,
    anchored: &Vec<(u32, Placement)>,
    pieces: &Vec<(PlacementKey, Placement)>,
) -> (at: Table<PlacementKey, (i64, i64)>)
    requires
        placements.wf(),
        on_grid(anchored@),
        on_grid(pieces@),
    ensures
        at.wf(),
        spots_fit(at@),
        spots_in(at@) == spots(
            anchored_spots(placements@.placed, anchored@, anchored@.len() as int),
            pieces@,
            pieces@.len() as int,
        ),
{
    let mut at: Table<PlacementKey, (i64, i64)> = Table::new();
    let ghost placed = placements@.placed;
    let mut i: usize = 0;
    assert(spots_in(at@) =~= Map::<PlacementKey, Spot>::empty());
    while i < anchored.len()
        invariant
            placements.wf(),
            placed == placements@.placed,
            on_grid(anchored@),
            i <= anchored@.len(),
            at.wf(),
            spots_fit(at@),
            spots_in(at@) == anchored_spots(placed, anchored@, i as int),
        decreases anchored@.len() - i,
    {
        let (anchor, p) = anchored[i];
        if let Some(held) = placements.placed_under(anchor) {
            let key = PlacementKey { image: held.image, placement: held.placement };
            let ghost before = at@;
            assert(anchored@[i as int].1.row <= u16::MAX);
            at.insert(key, (p.row as i64, p.col as i64));
            proof {
                lemma_spots_insert(before, key, (p.row as i64, p.col as i64));
            }
        }
        i = i + 1;
    }
    let ghost first = anchored_spots(placed, anchored@, anchored@.len() as int);
    let mut i: usize = 0;
    while i < pieces.len()
        invariant
            on_grid(pieces@),
            i <= pieces@.len(),
            at.wf(),
            spots_fit(at@),
            spots_in(at@) == spots(first, pieces@, i as int),
        decreases pieces@.len() - i,
    {
        let (key, p) = pieces[i];
        assert(pieces@[i as int].1.row <= u16::MAX);
        let here = (p.row as i64, p.col as i64);
        let ghost before = at@;
        let spot = match at.get(key) {
            Some(held) => (
                if held.0 <= here.0 {
                    held.0
                } else {
                    here.0
                },
                if held.1 <= here.1 {
                    held.1
                } else {
                    here.1
                },
            ),
            None => here,
        };
        at.insert(key, spot);
        proof {
            lemma_spots_insert(before, key, spot);
        }
        i = i + 1;
    }
    at
}

/// A table with one more spot holds one more spot.
proof fn lemma_spots_insert(
    table: Map<PlacementKey, (i64, i64)>,
    key: PlacementKey,
    spot: (i64, i64),
)
    requires
        spots_fit(table),
        0 <= spot.0 <= u16::MAX,
        0 <= spot.1 <= u16::MAX,
    ensures
        spots_fit(table.insert(key, spot)),
        spots_in(table.insert(key, spot)) == spots_in(table).insert(
            key,
            Spot { row: spot.0 as int, col: spot.1 as int },
        ),
        spots_in(table).contains_key(key) == table.contains_key(key),
        table.contains_key(key) ==> spots_in(table)[key] == (Spot {
            row: table[key].0 as int,
            col: table[key].1 as int,
        }),
{
    assert forall|other: PlacementKey| #[trigger]
        table.insert(key, spot).contains_key(other) implies 0 <= table.insert(key, spot)[other].0
        <= u16::MAX && 0 <= table.insert(key, spot)[other].1 <= u16::MAX by {
        if other != key {
            assert(table.contains_key(other));
        }
    }
    assert(spots_in(table.insert(key, spot)) =~= spots_in(table).insert(
        key,
        Spot { row: spot.0 as int, col: spot.1 as int },
    ));
}

/// Every placement on a screen whose cells are `rows`, each with what names
/// it.
///
/// A relative placement sits where its parent is found on those rows, so one
/// whose parent is off them is not found either.
pub fn locate(
    placements: &Placements,
    rows: &Vec<Vec<CellReading>>,
    slots: &Vec<Vec<Option<Slot>>>,
    columns: usize,
) -> (located: Located)
    requires
        placements.wf(),
        fits(rows@),
        columns <= u16::MAX,
    ensures
        located@ == finds(
            placements@,
            placements.order(),
            rows_of(rows@),
            slots@,
            columns as int,
        ),
{
    let (anchored, pieces) = scan(placements, rows, slots);
    let mut relatives: Vec<(PlacementKey, Placement)> = Vec::new();
    let n = placements.relative_count();
    if n > 0 {
        let at = spots_found(placements, &anchored, &pieces);
        let ghost held = spots_in(at@);
        let mut i: usize = 0;
        while i < n
            invariant
                placements.wf(),
                at.wf(),
                spots_fit(at@),
                held == spots_in(at@),
                rows@.len() <= u16::MAX,
                columns <= u16::MAX,
                n == placements.order().len(),
                i <= n,
                relatives@ == relatives_on(
                    placements.order(),
                    placements@.relatives,
                    held,
                    rows@.len() as int,
                    columns as int,
                    i as int,
                ),
            decreases n - i,
        {
            let (key, relative) = placements.relative_at(i);
            if let Some((row, col)) = relative_spot(placements, key, &at) {
                if 0 <= row && row < rows.len() as i64 && 0 <= col && col < columns as i64 {
                    relatives.push(
                        (
                            key,
                            Placement {
                                row: row as usize,
                                col: col as usize,
                                cols: relative.cols,
                                rows: relative.rows,
                                image: key.image,
                                frame: relative.frame,
                                slice: (0, 0),
                                source: relative.source,
                                z: relative.z,
                            },
                        ),
                    );
                }
            }
            i = i + 1;
        }
    }
    Located { anchored, pieces, relatives }
}

/// The placements found, in the order they are painted: anchored ones, slices
/// of virtual ones, and those that hang off either.
pub fn all_found(located: Located) -> (out: Vec<Placement>)
    ensures
        out@ == located@.all(),
{
    let mut out: Vec<Placement> = Vec::new();
    push_placements(&mut out, &located.anchored);
    push_placements(&mut out, &located.pieces);
    push_placements(&mut out, &located.relatives);
    out
}

/// What was found, without what names it.
pub open spec fn placements_of<K>(found: Seq<(K, Placement)>) -> Seq<Placement> {
    found.map_values(|entry: (K, Placement)| entry.1)
}

fn push_placements<K>(out: &mut Vec<Placement>, found: &Vec<(K, Placement)>)
    ensures
        final(out)@ == old(out)@ + placements_of(found@),
{
    let mut i: usize = 0;
    assert(out@ =~= old(out)@ + placements_of(found@).subrange(0, 0));
    while i < found.len()
        invariant
            i <= found@.len(),
            out@ == old(out)@ + placements_of(found@).subrange(0, i as int),
        decreases found@.len() - i,
    {
        out.push(found[i].1);
        i = i + 1;
        assert(out@ =~= old(out)@ + placements_of(found@).subrange(0, i as int));
    }
    assert(placements_of(found@).subrange(0, i as int) =~= placements_of(found@));
}

} // verus!
