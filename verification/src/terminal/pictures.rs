//! What a program that shows pictures can count on: what it places, what it
//! takes away, and where each is found.

use vstd::prelude::*;

use crate::terminal::anchors;
use crate::terminal::cell::{CellView, GridPoint};
use crate::terminal::delete::{Reach, Target};
use crate::terminal::emulator;
use crate::terminal::locate;
use crate::terminal::locate::{Finds, Slices, Spot};
use crate::terminal::placement;
use crate::terminal::placement::{
    Covered, CursorMovement, Display, Extent, Laid, Placed, Placement, PlacementKey, Refusal,
    Relative, Slot, Virtual,
};

verus! {

/// A mark that keeps a picture on its cell is one of two runs of characters no
/// text uses: one names the picture, the other which of its columns the cell
/// is. They have no character in common.
pub proof fn a_mark_names_a_picture_or_a_column(mark: char)
    ensures
        anchors::anchor_of(mark) matches Some(anchor) ==> mark as u32 == 0xF_0000 + anchor && anchor
            < 0xFFFD,
        0xF_0000 <= mark as u32 && (mark as u32) < 0xF_FFFD ==> anchors::anchor_of(mark) is Some,
        anchors::column_of(mark) matches Some(column) ==> mark as u32 == 0x10_0000 + column
            && column < 256,
        0x10_0000 <= mark as u32 && (mark as u32) < 0x10_0100 ==> anchors::column_of(mark) is Some,
        !(anchors::anchor_of(mark) is Some && anchors::column_of(mark) is Some),
        anchors::anchors(mark) <==> anchors::anchor_of(mark) is Some || anchors::column_of(
            mark,
        ) is Some,
        (mark as u32) < 0xF_0000 ==> !anchors::anchors(mark),
{
}

/// A character is the one with its number.
pub proof fn a_number_in_the_range_is_a_characters(n: int)
    requires
        0xF_0000 <= n <= 0x10_FFFF,
    ensures
        anchors::char_of(n) as u32 == n,
{
    let c: char = (n as u32) as char;
    assert(anchors::number(c) == n);
}

/// A picture's mark is read with the column mark right behind it, and alone
/// where there is none. Other marks are passed over.
pub proof fn marks_are_read_in_pairs(marks: Seq<char>, n: int)
    requires
        0 <= n < marks.len(),
    ensures
        ({
            let (fewer, more) = (anchors::pairs_to(marks, n), anchors::pairs_to(marks, n + 1));
            let behind = if n + 1 < marks.len() {
                anchors::column_of(marks[n + 1])
            } else {
                None
            };
            &&& anchors::pairs_to(marks, 0).len() == 0
            &&& anchors::anchor_of(marks[n]) is None ==> more == fewer
            &&& anchors::anchor_of(marks[n]) matches Some(anchor) ==> more == fewer.push(
                (anchor, behind),
            )
            &&& anchors::pairs(marks) == anchors::pairs_to(marks, marks.len() as int)
        }),
{
}

/// Text is copied without the marks of pictures, and with everything else.
pub proof fn text_is_copied_without_marks(text: Seq<char>, c: char)
    ensures
        emulator::unanchored(text.push(c)) == (if anchors::anchors(c) {
            emulator::unanchored(text)
        } else {
            emulator::unanchored(text).push(c)
        }),
        emulator::unanchored(Seq::empty()).len() == 0,
        (forall|i: int| 0 <= i < text.len() ==> (#[trigger] text[i] as u32) < 0xF_0000)
            ==> emulator::unanchored(text) == text,
    decreases text.len(),
{
    reveal(Seq::filter);
    assert(text.push(c).drop_last() =~= text);
    if text.len() > 0 {
        text_is_copied_without_marks(text.drop_last(), text.last());
        assert(text.drop_last().push(text.last()) =~= text);
        assert(text[text.len() - 1] == text.last());
    } else {
        assert(emulator::unanchored(text) =~= text);
    }
}

/// A cell keeps what is no mark of a picture, and of the marks those of the
/// pictures still there.
pub proof fn a_cell_keeps_the_marks_of_what_is_there(
    laid: Laid,
    marks: Seq<char>,
    pairs: Seq<(u32, Option<usize>)>,
    n: int,
)
    requires
        0 <= n < pairs.len(),
    ensures
        laid.keeps(marks) == emulator::unanchored(marks) + placement::live(
            laid.placed,
            anchors::pairs(marks),
            anchors::pairs(marks).len() as int,
        ),
        placement::live(laid.placed, pairs, 0).len() == 0,
        !laid.placed.contains_key(pairs[n].0) ==> placement::live(laid.placed, pairs, n + 1)
            == placement::live(laid.placed, pairs, n),
        laid.placed.contains_key(pairs[n].0) ==> placement::live(laid.placed, pairs, n + 1)
            == placement::live(laid.placed, pairs, n) + (match pairs[n].1 {
            Some(column) => seq![
                anchors::char_of(0xF_0000 + pairs[n].0),
                anchors::char_of(0x10_0000 + column),
            ],
            None => seq![anchors::char_of(0xF_0000 + pairs[n].0)],
        }),
{
}

/// A placement goes by its image and its own id, and a display by those it
/// asks for.
pub proof fn a_placement_goes_by_its_image_and_its_id(placed: Placed, display: Display)
    ensures
        placed.named().image == placed.image && placed.named().placement == placed.placement,
        display.named().image == display.image && display.named().placement == display.placement,
        display.parent().image == display.parent_image && display.parent().placement
            == display.parent_placement,
{
}

/// A placement found is what was placed, at the row and column it was found.
pub proof fn a_placement_found_is_what_was_placed(placed: Placed, row: int, col: int)
    requires
        0 <= row <= usize::MAX,
        0 <= col <= usize::MAX,
    ensures
        ({
            let p = placed.at(row, col);
            &&& p.row == row && p.col == col
            &&& p.cols == placed.cols && p.rows == placed.rows
            &&& p.image == placed.image && p.frame == placed.frame && p.source == placed.source
            &&& p.z == placed.z && p.slice == (0u32, 0u32)
        }),
{
}

/// The cursor goes past as many rows as a picture covers, unless it is to stay.
pub proof fn the_cursor_goes_past_a_picture_or_stays(display: Display, rows: u16)
    ensures
        display.cursor_movement == CursorMovement::After ==> display.reserves(rows) == rows,
        display.cursor_movement == CursorMovement::Stay ==> display.reserves(rows) == 0,
{
}

/// The part of an image that is shown is what of the part asked for is in the
/// image: from where it was asked to, as far as was asked or to the edge where
/// nothing was, pixel for pixel. Where that is no pixel, nothing is shown.
pub proof fn what_is_shown_is_what_was_asked_for(
    display: Display,
    width: u32,
    height: u32,
    x: int,
    y: int,
)
    requires
        0 <= x < width,
        0 <= y < height,
    ensures
        ({
            let asked = display.source_x <= x && (display.source_width == 0 || x < display.source_x
                + display.source_width) && display.source_y <= y && (display.source_height == 0
                || y < display.source_y + display.source_height);
            match display.clipped(width, height) {
                Some(source) => {
                    &&& asked <==> source.x <= x < source.x + source.width && source.y <= y
                        < source.y + source.height
                    &&& source.width > 0 && source.height > 0
                    &&& source.x + source.width <= width && source.y + source.height <= height
                },
                None => !asked,
            }
        }),
{
}

/// What a client is told of a refusal.
pub proof fn a_refusal_is_told_by_its_code(refusal: Refusal)
    ensures
        refusal == Refusal::NoParent ==> refusal.told() == "ENOPARENT"@,
        refusal == Refusal::Cycle ==> refusal.told() == "ECYCLE"@,
        refusal == Refusal::TooDeep ==> refusal.told() == "ETOODEEP"@,
        refusal == Refusal::Virtual ==> refusal.told()
            == "EINVAL:a virtual placement cannot be relative"@,
{
}

/// What hangs off nothing stands at no height, and what hangs off something one
/// higher than that.
pub proof fn a_chain_is_one_longer_than_its_parents(
    relatives: Map<PlacementKey, Relative>,
    key: PlacementKey,
)
    requires
        placement::acyclic(relatives),
    ensures
        placement::up(relatives, key, 0) == key,
        !relatives.contains_key(key) ==> placement::height(relatives, key) == 0,
        relatives.contains_key(key) ==> placement::height(relatives, key) == placement::height(
            relatives,
            relatives[key].parent,
        ) + 1,
{
    if !relatives.contains_key(key) {
        assert(placement::rooted(relatives, key, 0));
        lemma_height_is(relatives, key, 0);
    } else {
        let parent = relatives[key].parent;
        assert(placement::ends(relatives, parent));
        let some = choose|n: nat| #[trigger] placement::rooted(relatives, parent, n);
        let n = lemma_least(relatives, parent, some);
        lemma_height_is(relatives, parent, n);
        lemma_up_parent(relatives, key, n);
        assert forall|m: nat| m < n + 1 implies !#[trigger] placement::rooted(
            relatives,
            key,
            m,
        ) by {
            if m == 0 {
                assert(placement::up(relatives, key, 0) == key);
            } else {
                lemma_up_parent(relatives, key, (m - 1) as nat);
                assert(!placement::rooted(relatives, parent, (m - 1) as nat));
            }
        }
        assert(placement::rooted(relatives, key, n + 1));
        lemma_height_is(relatives, key, n + 1);
    }
}

proof fn lemma_height_is(relatives: Map<PlacementKey, Relative>, key: PlacementKey, n: nat)
    requires
        placement::rooted(relatives, key, n),
        forall|m: nat| m < n ==> !#[trigger] placement::rooted(relatives, key, m),
    ensures
        placement::height(relatives, key) == n,
{
    let height = placement::height(relatives, key);
    if height < n {
        assert(!placement::rooted(relatives, key, height));
    }
    if n < height {
        assert(!placement::rooted(relatives, key, n));
    }
}

proof fn lemma_least(relatives: Map<PlacementKey, Relative>, key: PlacementKey, some: nat) -> (n:
    nat)
    requires
        placement::rooted(relatives, key, some),
    ensures
        placement::rooted(relatives, key, n),
        forall|m: nat| m < n ==> !#[trigger] placement::rooted(relatives, key, m),
    decreases some,
{
    if exists|m: nat| m < some && #[trigger] placement::rooted(relatives, key, m) {
        let m = choose|m: nat| m < some && #[trigger] placement::rooted(relatives, key, m);
        lemma_least(relatives, key, m)
    } else {
        some
    }
}

proof fn lemma_up_parent(relatives: Map<PlacementKey, Relative>, key: PlacementKey, n: nat)
    requires
        relatives.contains_key(key),
    ensures
        placement::up(relatives, relatives[key].parent, n) == placement::up(
            relatives,
            key,
            n + 1,
        ),
    decreases n,
{
    if n == 0 {
        reveal_with_fuel(placement::up, 2);
    } else {
        lemma_up_parent(relatives, key, (n - 1) as nat);
    }
}

/// A placement is hung off another where there is one by that name, it is not
/// hung off itself by that, and no chain is longer than eight. A virtual one
/// hangs off nothing.
pub proof fn a_placement_hangs_off_one_that_is_there(laid: Laid, display: Display)
    ensures
        ({
            let refusal = laid.refusal(display);
            let parent = display.parent();
            let cycle = placement::above(laid.relatives, parent, display.named());
            let deep = placement::height(laid.relatives, parent) >= 8;
            &&& refusal == Some(Refusal::Virtual) <==> display.unicode
            &&& refusal == Some(Refusal::NoParent) <==> !display.unicode && !laid.has(parent)
            &&& refusal == Some(Refusal::Cycle) <==> !display.unicode && laid.has(parent) && cycle
            &&& refusal == Some(Refusal::TooDeep) <==> !display.unicode && laid.has(parent)
                && !cycle && deep
            &&& refusal is None <==> !display.unicode && laid.has(parent) && !cycle && !deep
        }),
        placement::above(laid.relatives, display.named(), display.named()),
{
    assert(placement::up(laid.relatives, display.named(), 0) == display.named());
}

/// A placement of any kind is one that goes by its name, and shows its image.
pub proof fn any_kind_of_placement_shows_its_image(laid: Laid, anchor: u32, key: PlacementKey)
    ensures
        laid.placed.contains_key(anchor) ==> laid.has(laid.placed[anchor].named()) && laid.shows(
            laid.placed[anchor].image,
        ),
        laid.virtuals.contains_key(key) ==> laid.has(key) && laid.shows(key.image),
        laid.relatives.contains_key(key) ==> laid.has(key) && laid.shows(key.image),
        laid.has(key) ==> laid.shows(key.image),
        !laid.has(key) ==> !laid.virtuals.contains_key(key) && !laid.relatives.contains_key(key)
            && (laid.placed.contains_key(anchor) ==> laid.placed[anchor].named() != key),
{
    if laid.has(key) && !laid.virtuals.contains_key(key) && !laid.relatives.contains_key(key) {
        let anchor = choose|anchor: u32| #[trigger]
            laid.placed.contains_key(anchor) && laid.placed[anchor].named() == key;
        assert(laid.placed[anchor].image == key.image);
    }
}

/// What hangs off a parent is put where it was asked, and what else goes by its
/// name goes. Nothing of another name is touched.
pub proof fn a_relative_hangs_where_it_was_asked(
    laid: Laid,
    display: Display,
    extent: Extent,
    other: PlacementKey,
    anchor: u32,
)
    ensures
        ({
            let after = laid.related(display, extent);
            let made = after.relatives[display.named()];
            &&& made.parent == display.parent()
            &&& made.offset == (display.parent_offset_x, display.parent_offset_y)
            &&& made.cols == extent.cols && made.rows == extent.rows
            &&& made.frame == extent.frame && made.source == extent.source && made.z == display.z
            &&& after.next_anchor == laid.next_anchor
            &&& other != display.named() ==> (after.relatives.contains_key(other)
                <==> laid.relatives.contains_key(other)) && after.relatives[other]
                == laid.relatives[other] && (after.virtuals.contains_key(other)
                <==> laid.virtuals.contains_key(other))
            &&& after.placed.contains_key(anchor) <==> laid.placed.contains_key(anchor)
                && laid.placed[anchor].named() != display.named()
            &&& after.placed.contains_key(anchor) ==> after.placed[anchor] == laid.placed[anchor]
        }),
{
}

/// A number of cells is held between one and as many as there are.
pub proof fn a_picture_covers_between_one_cell_and_all(n: u16, most: u16)
    requires
        most >= 1,
    ensures
        1 <= placement::clamped_to(n, most) <= most,
        1 <= n <= most ==> placement::clamped_to(n, most) == n,
        n > most ==> placement::clamped_to(n, most) == most,
        n == 0 ==> placement::clamped_to(n, most) == 1,
{
}

/// A display covers cells at the cursor where it hangs off nothing and is not
/// virtual: as many as it asks for, held to the grid.
pub proof fn a_display_covers_cells_at_the_cursor(
    laid: Laid,
    display: Display,
    extent: Extent,
    columns: u16,
    lines: u16,
)
    requires
        columns >= 1,
        lines >= 1,
    ensures
        ({
            let covered = laid.covered(display, Some(extent), columns, lines);
            &&& display.parent_image != 0 ==> (match laid.refusal(display) {
                Some(refusal) => covered == Err::<Option<Covered>, Refusal>(refusal),
                None => covered == Ok::<Option<Covered>, Refusal>(None),
            })
            &&& display.parent_image == 0 && display.unicode ==> covered == Ok::<
                Option<Covered>,
                Refusal,
            >(None)
            &&& display.parent_image == 0 && !display.unicode ==> (covered matches Ok(
                Some(covered),
            ) && covered.frame == extent.frame && covered.source == extent.source && covered.cols
                == placement::clamped_to(extent.cols, columns) && covered.rows
                == placement::clamped_to(extent.rows, lines))
        }),
        display.parent_image == 0 ==> laid.covered(display, None, columns, lines) == Ok::<
            Option<Covered>,
            Refusal,
        >(None),
{
}

/// A display leaves a virtual placement in the box it asks for, hangs one off
/// its parent, or leaves it to the grid; in each case what hung by its name
/// hangs there no more. One that shows nothing, or is refused, changes nothing.
pub proof fn a_display_leaves_one_placement_by_its_name(
    laid: Laid,
    display: Display,
    extent: Extent,
    other: PlacementKey,
)
    ensures
        laid.after(display, None) == laid,
        ({
            let after = laid.after(display, Some(extent));
            let key = display.named();
            &&& display.parent_image != 0 && laid.refusal(display) is Some ==> after == laid
            &&& display.parent_image != 0 && laid.refusal(display) is None ==> after
                == laid.related(display, extent)
            &&& display.parent_image == 0 ==> !after.relatives.contains_key(key) && after.placed
                == laid.placed && after.next_anchor == laid.next_anchor
            &&& display.parent_image == 0 && other != key ==> (after.relatives.contains_key(other)
                <==> laid.relatives.contains_key(other)) && (after.virtuals.contains_key(other)
                <==> laid.virtuals.contains_key(other))
            &&& display.parent_image == 0 && display.unicode ==> after.virtuals.contains_key(key)
                && after.virtuals[key].cols == extent.cols && after.virtuals[key].rows
                == extent.rows && after.virtuals[key].frame == extent.frame
                && after.virtuals[key].source == extent.source && after.virtuals[key].z
                == display.z
            &&& display.parent_image == 0 && !display.unicode ==> after.virtuals == laid.virtuals
        }),
{
}

/// The marks go round: each placement takes the next, and the one after the
/// last is the first again. What is placed under one is what was asked for.
pub proof fn marks_go_round(laid: Laid, display: Display, covered: Covered, other: u32)
    requires
        laid.next_anchor <= 0xFFFD,
    ensures
        ({
            let anchor = (laid.next_anchor % 0xFFFD) as u32;
            let claimed = laid.claimed(display.named());
            let after = claimed.settled(anchor, display, covered);
            let made = after.placed[anchor];
            &&& laid.next_anchor < 0xFFFD ==> anchor == laid.next_anchor
            &&& laid.next_anchor == 0xFFFD ==> anchor == 0
            &&& after.next_anchor == anchor + 1
            &&& made.image == display.image && made.placement == display.placement
            &&& made.cols == covered.cols && made.rows == covered.rows
            &&& made.frame == covered.frame && made.source == covered.source && made.z == display.z
            &&& other != anchor && laid.placed.contains_key(other)
                && laid.placed[other].named() != display.named() ==> after.placed.contains_key(
                other,
            ) && after.placed[other] == laid.placed[other]
            &&& after.virtuals == laid.virtuals && after.relatives == laid.relatives
        }),
{
}

/// A delete by name takes what it names: an image, or one placement of it; the
/// images between two, both counted; what is drawn at a z-index. Where things
/// are has no part in it.
pub proof fn a_delete_by_name_takes_what_it_names(
    key: PlacementKey,
    z: i32,
    id: u32,
    placement: u32,
    high: u32,
    want: i32,
)
    ensures
        (Target::Image { id, placement: 0 }).names(key, z) <==> key.image == id,
        placement != 0 ==> ((Target::Image { id, placement }).names(key, z) <==> key.image == id
            && key.placement == placement),
        Target::Range(id, high).names(key, z) <==> id <= key.image && key.image <= high,
        Target::Z(want).names(key, z) <==> z == want,
        (Target::Image { id, placement }).by_name() && Target::Range(id, high).by_name()
            && Target::Z(want).by_name(),
        !Target::All.by_name() && !Target::Cursor.by_name() && !Target::Column(id).by_name()
            && !Target::Row(id).by_name() && !(Target::Cell { col: id, row: high, z: None }).by_name(),
        (Target::Image { id, placement }).names_virtual(key) <==> (Target::Image {
            id,
            placement,
        }).names(key, 0),
        Target::Range(id, high).names_virtual(key) <==> id <= key.image && key.image <= high,
        !Target::Z(want).names_virtual(key),
        !Target::All.names_virtual(key) && !Target::Cursor.names_virtual(key),
{
}

/// A delete by place takes what covers the place: the cursor's cell, a cell, a
/// column or a row, at a z-index where one is given; and all of it, everything.
pub proof fn a_delete_by_place_takes_what_covers_it(
    p: Placement,
    cursor: GridPoint,
    col: u32,
    row: u32,
    z: i32,
)
    ensures
        ({
            let columns = |at: int| p.col <= at && at < p.col + p.cols;
            let rows = |at: int| p.row <= at && at < p.row + p.rows;
            &&& Target::All.hits(p, cursor)
            &&& Target::Cursor.hits(p, cursor) <==> columns(cursor.column as int) && rows(
                cursor.line as int,
            )
            &&& (Target::Cell { col, row, z: None }).hits(p, cursor) <==> columns(col as int)
                && rows(row as int)
            &&& (Target::Cell { col, row, z: Some(z) }).hits(p, cursor) <==> columns(col as int)
                && rows(row as int) && p.z == z
            &&& Target::Column(col).hits(p, cursor) <==> columns(col as int)
            &&& Target::Row(row).hits(p, cursor) <==> rows(row as int)
        }),
{
}

/// What a delete takes is gone and what it does not take is left as it was.
pub proof fn a_delete_leaves_what_it_does_not_take(reach: Reach, anchor: u32, key: PlacementKey)
    ensures
        ({
            let left = reach.left();
            &&& left.placed.contains_key(anchor) <==> reach.laid.placed.contains_key(anchor)
                && !reach.takes_anchor(anchor)
            &&& left.placed.contains_key(anchor) ==> left.placed[anchor]
                == reach.laid.placed[anchor]
            &&& left.virtuals.contains_key(key) <==> reach.laid.virtuals.contains_key(key)
                && !reach.target.names_virtual(key)
            &&& left.virtuals.contains_key(key) ==> left.virtuals[key] == reach.laid.virtuals[key]
            &&& left.relatives.contains_key(key) <==> reach.laid.relatives.contains_key(key)
                && !reach.takes_relative(key)
            &&& left.relatives.contains_key(key) ==> left.relatives[key]
                == reach.laid.relatives[key]
            &&& left.next_anchor == reach.laid.next_anchor
        }),
        reach.laid.placed.contains_key(anchor) && reach.target.by_name() ==> (reach.takes_anchor(
            anchor,
        ) <==> reach.target.names(
            reach.laid.placed[anchor].named(),
            reach.laid.placed[anchor].z,
        )),
        reach.laid.placed.contains_key(anchor) && !reach.target.by_name() ==> (reach.takes_anchor(
            anchor,
        ) <==> exists|i: int|
            0 <= i < reach.anchored.len() && (#[trigger] reach.anchored[i]).0 == anchor
                && reach.target.hits(reach.anchored[i].1, reach.cursor)),
        reach.laid.relatives.contains_key(key) && reach.target.by_name() ==> (
        reach.takes_relative(key) <==> reach.target.names(key, reach.laid.relatives[key].z)),
        reach.laid.relatives.contains_key(key) && !reach.target.by_name() ==> (
        reach.takes_relative(key) <==> exists|i: int|
            0 <= i < reach.relatives.len() && (#[trigger] reach.relatives[i]).0 == key
                && reach.target.hits(reach.relatives[i].1, reach.cursor)),
{
}

/// What hangs off a parent goes with it, and nothing that has its parent goes:
/// what is left is all that can be.
pub proof fn what_hangs_goes_with_its_parent(
    laid: Laid,
    kept: Map<PlacementKey, Relative>,
    key: PlacementKey,
)
    requires
        laid.prunes_to(kept),
    ensures
        kept.contains_key(key) ==> laid.relatives.contains_key(key) && kept[key]
            == laid.relatives[key] && laid.with_relatives(kept).has(kept[key].parent),
        laid.relatives.contains_key(key) && laid.with_relatives(kept).has(
            laid.relatives[key].parent,
        ) ==> kept.contains_key(key),
{
    if kept.contains_key(key) {
        assert(kept.submap_of(laid.relatives));
        assert(laid.with_relatives(kept).relatives.contains_key(key));
    }
    if laid.relatives.contains_key(key) && laid.with_relatives(kept).has(
        laid.relatives[key].parent,
    ) && !kept.contains_key(key) {
        let more = kept.insert(key, laid.relatives[key]);
        assert(more.submap_of(laid.relatives));
        assert forall|other: PlacementKey| #[trigger]
            laid.with_relatives(more).relatives.contains_key(other) implies laid.with_relatives(
            more,
        ).has(laid.with_relatives(more).relatives[other].parent) by {
            let parent = laid.with_relatives(more).relatives[other].parent;
            if other != key {
                assert(laid.with_relatives(kept).relatives.contains_key(other));
            }
            assert(laid.with_relatives(kept).has(parent));
            lemma_has_more(laid, kept, more, parent);
        }
        assert(laid.with_relatives(more).parented());
        assert(more.submap_of(kept));
        assert(more.contains_key(key));
    }
}

proof fn lemma_has_more(
    laid: Laid,
    fewer: Map<PlacementKey, Relative>,
    more: Map<PlacementKey, Relative>,
    key: PlacementKey,
)
    requires
        laid.with_relatives(fewer).has(key),
        forall|other: PlacementKey| fewer.contains_key(other) ==> more.contains_key(other),
    ensures
        laid.with_relatives(more).has(key),
{
    if exists|anchor: u32| #[trigger]
        laid.placed.contains_key(anchor) && laid.placed[anchor].named() == key {
        let anchor = choose|anchor: u32| #[trigger]
            laid.placed.contains_key(anchor) && laid.placed[anchor].named() == key;
        assert(laid.with_relatives(more).placed.contains_key(anchor));
    } else {
        assert forall|anchor: u32| #[trigger]
            laid.with_relatives(fewer).placed.contains_key(anchor) implies laid.with_relatives(
            fewer,
        ).placed[anchor].named() != key by {
            assert(laid.placed.contains_key(anchor));
        }
    }
}

/// An image's data goes once nothing shows it: with the last placement of it
/// that was taken where that was asked for, and with a parent whatever was.
pub proof fn data_goes_once_nothing_shows_it(
    reach: Reach,
    after: Laid,
    free: bool,
    image: u32,
    anchor: u32,
    key: PlacementKey,
)
    ensures
        after.shows(image) ==> !reach.frees(after, free, image),
        !after.shows(image) && free && reach.takes_anchor(anchor)
            && reach.laid.placed[anchor].image == image ==> reach.frees(after, free, image),
        !after.shows(image) && free && reach.takes_virtual(key) && key.image == image
            ==> reach.frees(after, free, image),
        !after.shows(image) && free && reach.takes_relative(key) && key.image == image
            ==> reach.frees(after, free, image),
        !after.shows(image) && reach.left().relatives.contains_key(key)
            && !after.relatives.contains_key(key) && key.image == image ==> reach.frees(
            after,
            free,
            image,
        ),
        !free && (forall|key: PlacementKey| #[trigger]
            reach.left().relatives.contains_key(key) && key.image == image
                ==> after.relatives.contains_key(key)) ==> !reach.frees(after, free, image),
{
    if reach.takes_anchor(anchor) && reach.laid.placed[anchor].image == image {
        assert(reach.touches(image));
    }
    if reach.takes_virtual(key) && key.image == image {
        assert(reach.touches(image));
    }
    if reach.takes_relative(key) && key.image == image {
        assert(reach.touches(image));
    }
}

/// A cell that knows which column of its picture it is puts the picture's left
/// edge that far to its left; one that does not puts it where it is.
pub proof fn a_column_puts_the_left_edge(col: int, within: usize)
    requires
        0 <= col,
    ensures
        within <= col ==> locate::left_edge(col, Some(within)) + within == col,
        within > col ==> locate::left_edge(col, Some(within)) == 0,
        locate::left_edge(col, None) == col,
{
}

/// A picture is found by the first of its marks that is met, and once. One that
/// is no longer placed is not found.
pub proof fn a_picture_is_found_by_its_first_mark(
    placed: Map<u32, Placed>,
    found: Seq<(u32, Placement)>,
    row: int,
    col: int,
    pairs: Seq<(u32, Option<usize>)>,
    n: int,
)
    requires
        0 <= n < pairs.len(),
    ensures
        ({
            let before = locate::found_on_cell(placed, found, row, col, pairs, n);
            let after = locate::found_on_cell(placed, found, row, col, pairs, n + 1);
            let (anchor, within) = pairs[n];
            let seen = exists|i: int| 0 <= i < before.len() && (#[trigger] before[i]).0 == anchor;
            &&& locate::found_on_cell(placed, found, row, col, pairs, 0) == found
            &&& !placed.contains_key(anchor) || seen ==> after == before
            &&& placed.contains_key(anchor) && !seen ==> after == before.push(
                (anchor, placed[anchor].at(row, locate::left_edge(col, within))),
            )
        }),
{
}

/// A screen is looked over row by row from the top, and each row cell by cell
/// from the left.
pub proof fn a_screen_is_looked_over_in_order(
    placed: Map<u32, Placed>,
    found: Seq<(u32, Placement)>,
    rows: Seq<Seq<CellView>>,
    row: int,
    col: int,
)
    requires
        0 <= row < rows.len(),
        0 <= col < rows[row].len(),
    ensures
        locate::anchored_on(placed, rows, 0).len() == 0,
        locate::anchored_on(placed, rows, row + 1) == locate::found_on_row(
            placed,
            locate::anchored_on(placed, rows, row),
            row,
            rows[row],
            rows[row].len() as int,
        ),
        locate::found_on_row(placed, found, row, rows[row], 0) == found,
        ({
            let pairs = anchors::pairs(rows[row][col].marks);
            locate::found_on_row(placed, found, row, rows[row], col + 1) == locate::found_on_cell(
                placed,
                locate::found_on_row(placed, found, row, rows[row], col),
                row,
                col,
                pairs,
                pairs.len() as int,
            )
        }),
{
}

/// A placeholder shows the placement it names, and the lowest of its image
/// where it names none; but nothing where that is not there, or the cell is
/// outside its box.
pub proof fn a_placeholder_shows_what_it_names(
    virtuals: Map<PlacementKey, Virtual>,
    slot: Slot,
    key: PlacementKey,
)
    ensures
        locate::showing(virtuals, slot) matches Some(shown) ==> virtuals.contains_key(shown)
            && shown.image == slot.image && slot.row < virtuals[shown].rows && slot.col
            < virtuals[shown].cols && (slot.placement != 0 ==> shown.placement == slot.placement),
        slot.placement != 0 && key == (PlacementKey {
            image: slot.image,
            placement: slot.placement,
        }) && virtuals.contains_key(key) && slot.row < virtuals[key].rows && slot.col
            < virtuals[key].cols ==> locate::showing(virtuals, slot) == Some(key),
        slot.placement == 0 ==> (locate::showing(virtuals, slot) matches Some(shown)
            ==> virtuals.contains_key(key) && key.image == slot.image ==> shown.placement
            <= key.placement),
        slot.placement == 0 && placement::is_lowest(virtuals, slot.image, key) && slot.row
            < virtuals[key].rows && slot.col < virtuals[key].cols ==> locate::showing(
            virtuals,
            slot,
        ) == Some(key),
{
    if slot.placement == 0 && placement::is_lowest(virtuals, slot.image, key) {
        let other = choose|key: PlacementKey| placement::is_lowest(virtuals, slot.image, key);
        assert(virtuals.contains_key(other) && other.image == slot.image);
        assert(key.placement <= other.placement && other.placement <= key.placement);
        assert(key == other);
    }
}

/// Cells that show one placement's columns one after another are one slice, a
/// column wider for each; any other cell that shows something starts a slice of
/// its own, and one that shows nothing ends the run.
pub proof fn neighbouring_cells_are_one_slice(
    slices: Slices,
    virtuals: Map<PlacementKey, Virtual>,
    row: int,
    col: int,
    slot: Slot,
    key: PlacementKey,
)
    requires
        0 <= row <= usize::MAX,
        0 <= col <= usize::MAX,
    ensures
        ({
            let after = slices.step(virtuals, row, col, Some(slot));
            let follows = slices.run matches Some((run, last)) && run == key && last.row
                == slot.row && last.col + 1 == slot.col;
            &&& locate::showing(virtuals, slot) is None ==> after.pieces == slices.pieces
                && after.run is None
            &&& locate::showing(virtuals, slot) == Some(key) ==> after.run == Some((key, slot))
            &&& locate::showing(virtuals, slot) == Some(key) && !follows ==> {
                &&& after.pieces.len() == slices.pieces.len() + 1
                &&& after.pieces.drop_last() == slices.pieces
                &&& after.pieces.last().0 == key
                &&& after.pieces.last().1.row == row && after.pieces.last().1.col == col
                &&& after.pieces.last().1.cols == 1 && after.pieces.last().1.rows == 1
                &&& after.pieces.last().1.image == key.image
                &&& after.pieces.last().1.slice == (slot.col, slot.row)
                &&& after.pieces.last().1.frame == virtuals[key].frame
                &&& after.pieces.last().1.source == virtuals[key].source
                &&& after.pieces.last().1.z == virtuals[key].z
            }
            &&& locate::showing(virtuals, slot) == Some(key) && follows && slices.pieces.len() > 0
                && slices.pieces.last().1.cols < u16::MAX ==> {
                &&& after.pieces.len() == slices.pieces.len()
                &&& after.pieces.last().1.cols == slices.pieces.last().1.cols + 1
                &&& after.pieces.last().1.col == slices.pieces.last().1.col
                &&& after.pieces.last().1.slice == slices.pieces.last().1.slice
            }
        }),
        slices.step(virtuals, row, col, None).pieces == slices.pieces,
        slices.step(virtuals, row, col, None).run is None,
{
    let after = slices.step(virtuals, row, col, Some(slot));
    if locate::showing(virtuals, slot) == Some(key) && !slices.continues(key, slot) {
        assert(after.pieces.drop_last() =~= slices.pieces);
    }
}

/// Slices are looked for along each row from the top, none running on into the
/// next row.
pub proof fn slices_are_looked_for_row_by_row(
    virtuals: Map<PlacementKey, Virtual>,
    pieces: Seq<(PlacementKey, Placement)>,
    slots: Seq<Vec<Option<Slot>>>,
    rows: Seq<Seq<CellView>>,
    row: int,
    col: int,
)
    requires
        0 <= row < rows.len(),
        0 <= col,
    ensures
        locate::slices_on(virtuals, slots, rows, 0).len() == 0,
        locate::slices_on(virtuals, slots, rows, row + 1) == locate::slices_on_row(
            virtuals,
            locate::slices_on(virtuals, slots, rows, row),
            slots,
            row,
            rows[row].len() as int,
        ).pieces,
        locate::slices_on_row(virtuals, pieces, slots, row, 0) == (Slices { pieces, run: None }),
        locate::slices_on_row(virtuals, pieces, slots, row, col + 1) == locate::slices_on_row(
            virtuals,
            pieces,
            slots,
            row,
            col,
        ).step(
            virtuals,
            row,
            col,
            if row < slots.len() && col < slots[row]@.len() {
                slots[row]@[col]
            } else {
                None
            },
        ),
{
}

/// A virtual placement is at the least row and the least column of its slices.
pub proof fn a_virtual_placement_is_at_its_top_left_slice(
    anchored: Map<PlacementKey, Spot>,
    pieces: Seq<(PlacementKey, Placement)>,
    n: int,
    i: int,
)
    requires
        0 <= n <= pieces.len(),
    ensures
        ({
            let at = locate::spots(anchored, pieces, n);
            &&& 0 <= i < n ==> at.contains_key(pieces[i].0) && at[pieces[i].0].row
                <= pieces[i].1.row && at[pieces[i].0].col <= pieces[i].1.col
            &&& forall|key: PlacementKey| #[trigger]
                at.contains_key(key) && !anchored.contains_key(key) ==> {
                    &&& exists|j: int|
                        0 <= j < n && (#[trigger] pieces[j]).0 == key && pieces[j].1.row
                            == at[key].row
                    &&& exists|j: int|
                        0 <= j < n && (#[trigger] pieces[j]).0 == key && pieces[j].1.col
                            == at[key].col
                }
            &&& forall|key: PlacementKey| #[trigger]
                anchored.contains_key(key) ==> at.contains_key(key) && at[key].row
                    <= anchored[key].row && at[key].col <= anchored[key].col
        }),
    decreases n,
{
    if n > 0 {
        a_virtual_placement_is_at_its_top_left_slice(anchored, pieces, n - 1, i);
        let before = locate::spots(anchored, pieces, n - 1);
        let at = locate::spots(anchored, pieces, n);
        let (new, p) = pieces[n - 1];
        assert forall|key: PlacementKey| #[trigger]
            at.contains_key(key) && !anchored.contains_key(key) implies (exists|j: int|
            0 <= j < n && (#[trigger] pieces[j]).0 == key && pieces[j].1.row == at[key].row) && (
        exists|j: int|
            0 <= j < n && (#[trigger] pieces[j]).0 == key && pieces[j].1.col == at[key].col) by {
            assert(pieces[n - 1].0 == new);
            if before.contains_key(key) {
                let a = choose|j: int|
                    0 <= j < n - 1 && (#[trigger] pieces[j]).0 == key && pieces[j].1.row
                        == before[key].row;
                let b = choose|j: int|
                    0 <= j < n - 1 && (#[trigger] pieces[j]).0 == key && pieces[j].1.col
                        == before[key].col;
                assert(pieces[a].0 == key && pieces[b].0 == key);
            }
        }
    }
}

/// An anchored placement is at the cell it was found at.
pub proof fn an_anchored_placement_is_where_it_was_found(
    placed: Map<u32, Placed>,
    anchored: Seq<(u32, Placement)>,
    n: int,
)
    requires
        0 <= n < anchored.len(),
        placed.contains_key(anchored[n].0),
    ensures
        ({
            let at = locate::anchored_spots(placed, anchored, n + 1);
            let key = placed[anchored[n].0].named();
            at.contains_key(key) && at[key].row == anchored[n].1.row && at[key].col
                == anchored[n].1.col
        }),
{
}

/// What hangs off a parent is so many columns across and so many rows down
/// from it, wherever that is; and is nowhere where the parent is nowhere.
pub proof fn a_relative_is_off_its_parent(
    relatives: Map<PlacementKey, Relative>,
    at: Map<PlacementKey, Spot>,
    key: PlacementKey,
    steps: nat,
)
    requires
        steps > 0,
    ensures
        relatives.contains_key(key) ==> (match locate::spot_of(
            relatives,
            at,
            relatives[key].parent,
            (steps - 1) as nat,
        ) {
            Some(parent) => locate::spot_of(relatives, at, key, steps) matches Some(spot)
                && spot.col - parent.col == relatives[key].offset.0 && spot.row - parent.row
                == relatives[key].offset.1,
            None => locate::spot_of(relatives, at, key, steps) is None,
        }),
        !relatives.contains_key(key) && at.contains_key(key) ==> locate::spot_of(
            relatives,
            at,
            key,
            steps,
        ) == Some(at[key]),
        !relatives.contains_key(key) && !at.contains_key(key) ==> locate::spot_of(
            relatives,
            at,
            key,
            steps,
        ) is None,
{
}

/// A relative placement is found where its top-left cell is on the screen, in
/// the order they are kept.
pub proof fn a_relative_on_the_screen_is_found(
    order: Seq<(PlacementKey, Relative)>,
    relatives: Map<PlacementKey, Relative>,
    at: Map<PlacementKey, Spot>,
    lines: int,
    columns: int,
    n: int,
)
    requires
        0 <= n < order.len(),
        0 <= lines <= u16::MAX,
        0 <= columns <= u16::MAX,
    ensures
        ({
            let before = locate::relatives_on(order, relatives, at, lines, columns, n);
            let after = locate::relatives_on(order, relatives, at, lines, columns, n + 1);
            let (key, relative) = order[n];
            let spot = locate::spot_of(relatives, at, key, 9);
            let on = spot matches Some(spot) && 0 <= spot.row && spot.row < lines && 0 <= spot.col
                && spot.col < columns;
            &&& !on ==> after == before
            &&& on ==> {
                &&& after.len() == before.len() + 1 && after.drop_last() == before
                &&& after.last().0 == key
                &&& after.last().1.row == spot->0.row && after.last().1.col == spot->0.col
                &&& after.last().1.cols == relative.cols && after.last().1.rows == relative.rows
                &&& after.last().1.image == key.image && after.last().1.z == relative.z
                &&& after.last().1.frame == relative.frame
                &&& after.last().1.source == relative.source
            }
        }),
{
    let before = locate::relatives_on(order, relatives, at, lines, columns, n);
    let after = locate::relatives_on(order, relatives, at, lines, columns, n + 1);
    if after.len() == before.len() + 1 {
        assert(after.drop_last() =~= before);
    }
}

/// Pictures are painted anchored ones first, then slices, then what hangs off
/// either.
pub proof fn pictures_are_painted_in_order(finds: Finds, i: int)
    ensures
        ({
            let all = finds.all();
            let (a, p) = (finds.anchored.len() as int, finds.pieces.len() as int);
            &&& all.len() == a + p + finds.relatives.len()
            &&& 0 <= i < a ==> all[i] == finds.anchored[i].1
            &&& 0 <= i < p ==> all[a + i] == finds.pieces[i].1
            &&& 0 <= i < finds.relatives.len() ==> all[a + p + i] == finds.relatives[i].1
        }),
{
}

/// A cell a picture is put on keeps its marks, and gains the picture's and,
/// behind that, the column's.
pub proof fn a_picture_marks_a_cell_with_itself_and_its_column(
    laid: Laid,
    marks: Seq<char>,
    anchor: u32,
    column: int,
)
    requires
        anchor < 0xFFFD,
        0 <= column < 256,
    ensures
        ({
            let after = emulator::stamped(laid, marks, anchor, column);
            let n = after.len() as int;
            &&& n >= 2
            &&& after[n - 2] as u32 == 0xF_0000 + anchor
            &&& after[n - 1] as u32 == 0x10_0000 + column
            &&& (forall|i: int| 0 <= i < marks.len() ==> (#[trigger] marks[i] as u32) < 0xF_0000)
                ==> after.take(n - 2) == marks
            &&& (exists|i: int|
                0 <= i < marks.len() && 0xF_0000 <= (#[trigger] marks[i] as u32) < 0xF_FFFD)
                ==> after.take(n - 2) == laid.keeps(marks)
        }),
{
    let after = emulator::stamped(laid, marks, anchor, column);
    let kept = after.take(after.len() - 2);
    a_number_in_the_range_is_a_characters(0xF_0000 + anchor);
    a_number_in_the_range_is_a_characters(0x10_0000 + column);
    if forall|i: int| 0 <= i < marks.len() ==> (#[trigger] marks[i] as u32) < 0xF_0000 {
        assert forall|i: int| 0 <= i < marks.len() implies !anchors::anchors(
            #[trigger] marks[i],
        ) by {
            assert((marks[i] as u32) < 0xF_0000);
        }
        assert(kept =~= marks);
    }
    if exists|i: int| 0 <= i < marks.len() && 0xF_0000 <= (#[trigger] marks[i] as u32) < 0xF_FFFD {
        let i = choose|i: int|
            0 <= i < marks.len() && 0xF_0000 <= (#[trigger] marks[i] as u32) < 0xF_FFFD;
        assert(anchors::anchors(marks[i]));
        assert(kept =~= laid.keeps(marks));
    }
}

/// A picture marks the cells from where it is put to the right, each with its
/// own column, and no other. What a cell shows stays.
pub proof fn a_picture_marks_its_top_row_and_no_more(
    grid: Map<(int, int), CellView>,
    laid: Laid,
    anchor: u32,
    at: GridPoint,
    n: int,
    line: int,
    column: int,
)
    requires
        0 <= n,
    ensures
        ({
            let after = emulator::stamped_row(grid, laid, anchor, at, n);
            let cell = after[(line, column)];
            let on = line == at.line && at.column <= column < at.column + n;
            &&& !on ==> cell == grid[(line, column)]
            &&& on ==> cell.marks == emulator::stamped(
                laid,
                grid[(line, column)].marks,
                anchor,
                column - at.column,
            ) && cell.ch == grid[(line, column)].ch && cell.fg == grid[(line, column)].fg
                && cell.bg == grid[(line, column)].bg && cell.wide == grid[(line, column)].wide
        }),
    decreases n,
{
    if n > 0 {
        a_picture_marks_its_top_row_and_no_more(grid, laid, anchor, at, n - 1, line, column);
        a_picture_marks_its_top_row_and_no_more(
            grid,
            laid,
            anchor,
            at,
            n - 1,
            at.line as int,
            at.column + n - 1,
        );
    }
}

} // verus!
