//! Taking images away: which placements a delete names, and which images it
//! leaves without any.

use vstd::prelude::*;

use crate::terminal::cell::GridPoint;
use crate::terminal::locate::Located;
use crate::terminal::placement::{Laid, Placement, PlacementKey, Placements, Relative};
use crate::terminal::table;

verus! {

/// What a delete names.
#[derive(Debug, Clone, Copy, PartialEq, Eq)]
pub enum Target {
    /// Everything on the screen.
    All,
    /// An image, or one placement of it where `placement` is not zero.
    Image { id: u32, placement: u32 },
    /// The images from one id to another, both counted.
    Range(u32, u32),
    /// What is drawn at a z-index.
    Z(i32),
    /// What covers the cursor.
    Cursor,
    /// What covers a cell, at a z-index where one is given.
    Cell { col: u32, row: u32, z: Option<i32> },
    /// What covers a cell of a column.
    Column(u32),
    /// What covers a cell of a row.
    Row(u32),
}

/// A request to take images away, and with `free`, to let go of the data of
/// each image it leaves with no placement.
#[derive(Debug, Clone, Copy, PartialEq, Eq)]
pub struct Delete {
    pub target: Target,
    pub free: bool,
}

/// Whether `p` covers column `col` of row `row`.
pub open spec fn covers(p: Placement, col: int, row: int) -> bool {
    p.col <= col < p.col + p.cols && p.row <= row < p.row + p.rows
}

impl Target {
    /// Whether placements are named by what they are, not by where they are.
    pub open spec fn by_name(self) -> bool {
        self is Image || self is Range || self is Z
    }

    /// Whether a placement is named by what it is.
    pub open spec fn names(self, key: PlacementKey, z: i32) -> bool {
        match self {
            Target::Image { id, placement } => key.image == id && (placement == 0 || key.placement
                == placement),
            Target::Range(low, high) => low <= key.image <= high,
            Target::Z(want) => z == want,
            _ => false,
        }
    }

    /// Whether a virtual placement is named. It has no position, so only the
    /// deletes that name images reach one — and a z-index is not one of those.
    pub open spec fn names_virtual(self, key: PlacementKey) -> bool {
        !(self is Z) && self.names(key, 0)
    }

    /// Whether a placement is named by where it is found.
    pub open spec fn hits(self, p: Placement, cursor: GridPoint) -> bool {
        match self {
            Target::Cursor => covers(p, cursor.column as int, cursor.line as int),
            Target::Cell { col, row, z } => covers(p, col as int, row as int) && (z matches Some(
                z,
            ) ==> p.z == z),
            Target::Column(col) => p.col <= col < p.col + p.cols,
            Target::Row(row) => p.row <= row < p.row + p.rows,
            _ => true,
        }
    }

    fn is_by_name(&self) -> (yes: bool)
        ensures
            yes == self.by_name(),
    {
        matches!(self, Target::Image { .. } | Target::Range(..) | Target::Z(_))
    }

    fn is_named(&self, key: PlacementKey, z: i32) -> (yes: bool)
        ensures
            yes == self.names(key, z),
    {
        match *self {
            Target::Image { id, placement } => key.image == id && (placement == 0 || key.placement
                == placement),
            Target::Range(low, high) => low <= key.image && key.image <= high,
            Target::Z(want) => z == want,
            _ => false,
        }
    }

    fn is_hit(&self, p: &Placement, cursor: GridPoint) -> (yes: bool)
        ensures
            yes == self.hits(*p, cursor),
    {
        match *self {
            Target::Cursor => cursor.line >= 0 && spans(p.col, p.cols, cursor.column) && spans(
                p.row,
                p.rows,
                cursor.line as usize,
            ),
            Target::Cell { col, row, z } => spans(p.col, p.cols, col as usize) && spans(
                p.row,
                p.rows,
                row as usize,
            ) && match z {
                Some(z) => p.z == z,
                None => true,
            },
            Target::Column(col) => spans(p.col, p.cols, col as usize),
            Target::Row(row) => spans(p.row, p.rows, row as usize),
            _ => true,
        }
    }
}

/// Whether `at` is one of the `n` from `start`.
fn spans(start: usize, n: u16, at: usize) -> (yes: bool)
    ensures
        yes == (start <= at < start + n),
{
    start <= at && at - start < n as usize
}

/// Whether `anchor` is among those found on the screen that the delete hits.
pub open spec fn anchor_hit(
    found: Seq<(u32, Placement)>,
    target: Target,
    cursor: GridPoint,
    anchor: u32,
) -> bool {
    exists|i: int|
        0 <= i < found.len() && (#[trigger] found[i]).0 == anchor && target.hits(
            found[i].1,
            cursor,
        )
}

/// Whether `key` is among those found on the screen that the delete hits.
pub open spec fn key_hit(
    found: Seq<(PlacementKey, Placement)>,
    target: Target,
    cursor: GridPoint,
    key: PlacementKey,
) -> bool {
    exists|i: int|
        0 <= i < found.len() && (#[trigger] found[i]).0 == key && target.hits(found[i].1, cursor)
}

/// What a delete reaches: the placements before it, what of them is on the
/// screen, and where the cursor is.
pub struct Reach {
    pub laid: Laid,
    pub anchored: Seq<(u32, Placement)>,
    pub relatives: Seq<(PlacementKey, Placement)>,
    pub target: Target,
    pub cursor: GridPoint,
}

impl Reach {
    /// Whether the anchored placement under `anchor` goes.
    pub open spec fn takes_anchor(self, anchor: u32) -> bool {
        self.laid.placed.contains_key(anchor) && if self.target.by_name() {
            self.target.names(self.laid.placed[anchor].named(), self.laid.placed[anchor].z)
        } else {
            anchor_hit(self.anchored, self.target, self.cursor, anchor)
        }
    }

    /// Whether the virtual placement that goes by `key` goes.
    pub open spec fn takes_virtual(self, key: PlacementKey) -> bool {
        self.laid.virtuals.contains_key(key) && self.target.names_virtual(key)
    }

    /// Whether the relative placement that goes by `key` is named.
    pub open spec fn takes_relative(self, key: PlacementKey) -> bool {
        self.laid.relatives.contains_key(key) && if self.target.by_name() {
            self.target.names(key, self.laid.relatives[key].z)
        } else {
            key_hit(self.relatives, self.target, self.cursor, key)
        }
    }

    /// The placements once the named ones are gone.
    pub open spec fn left(self) -> Laid {
        Laid {
            placed: Map::new(
                |anchor: u32| self.laid.placed.contains_key(anchor) && !self.takes_anchor(anchor),
                |anchor: u32| self.laid.placed[anchor],
            ),
            virtuals: Map::new(
                |key: PlacementKey|
                    self.laid.virtuals.contains_key(key) && !self.takes_virtual(key),
                |key: PlacementKey| self.laid.virtuals[key],
            ),
            relatives: Map::new(
                |key: PlacementKey|
                    self.laid.relatives.contains_key(key) && !self.takes_relative(key),
                |key: PlacementKey| self.laid.relatives[key],
            ),
            ..self.laid
        }
    }

    /// Whether a named placement showed `image`.
    pub open spec fn touches(self, image: u32) -> bool {
        ||| exists|anchor: u32| #[trigger]
            self.takes_anchor(anchor) && self.laid.placed[anchor].image == image
        ||| exists|key: PlacementKey| #[trigger] self.takes_virtual(key) && key.image == image
        ||| exists|key: PlacementKey| #[trigger] self.takes_relative(key) && key.image == image
    }
}

impl Laid {
    /// Whether every relative placement has its parent.
    pub open spec fn parented(self) -> bool {
        forall|key: PlacementKey| #[trigger]
            self.relatives.contains_key(key) ==> self.has(self.relatives[key].parent)
    }

    pub open spec fn with_relatives(self, relatives: Map<PlacementKey, Relative>) -> Laid {
        Laid { relatives, ..self }
    }

    /// Whether `kept` are the relative placements left once those without a
    /// parent have gone, and those that hung off them, and so on: all of them
    /// have their parents, and no more can be kept.
    pub open spec fn prunes_to(self, kept: Map<PlacementKey, Relative>) -> bool {
        &&& kept.submap_of(self.relatives)
        &&& self.with_relatives(kept).parented()
        &&& forall|other: Map<PlacementKey, Relative>|
            #![trigger self.with_relatives(other)]
            other.submap_of(self.relatives) && self.with_relatives(other).parented()
                ==> other.submap_of(kept)
    }
}

/// A relative placement without its parent, if there is one.
fn orphan(placements: &Placements) -> (found: Option<PlacementKey>)
    requires
        placements.wf(),
    ensures
        found is None ==> placements@.parented(),
        found matches Some(key) ==> placements@.relatives.contains_key(key) && !placements@.has(
            placements@.relatives[key].parent,
        ),
{
    let mut i: usize = 0;
    while i < placements.relative_count()
        invariant
            placements.wf(),
            i <= placements.order().len(),
            forall|j: int|
                0 <= j < i ==> placements@.has((#[trigger] placements.order()[j]).1.parent),
        decreases placements.order().len() - i,
    {
        let (key, relative) = placements.relative_at(i);
        if !placements.contains(relative.parent) {
            return Some(key);
        }
        i = i + 1;
    }
    proof {
        placements.lemma_order();
        let order = placements.order();
        assert forall|key: PlacementKey| #[trigger]
            placements@.relatives.contains_key(key) implies placements@.has(
            placements@.relatives[key].parent,
        ) by {
            let at = table::place_of(order, key);
            assert(order[at].0 == key);
            table::lemma_entry(order, at);
            assert(placements@.has(order[at].1.parent));
        }
    }
    None
}

/// A relative placement goes with its parent, and an image left with no
/// placement by that goes too.
fn prune(placements: &mut Placements, freed: &mut Vec<u32>)
    requires
        old(placements).wf(),
    ensures
        final(placements).wf(),
        final(placements)@ == old(placements)@.with_relatives(final(placements)@.relatives),
        old(placements)@.prunes_to(final(placements)@.relatives),
        forall|image: u32| #[trigger]
            final(freed)@.contains(image) <==> old(freed)@.contains(image) || (
            !final(placements)@.shows(image) && exists|key: PlacementKey| #[trigger]
                old(placements)@.relatives.contains_key(key)
                    && !final(placements)@.relatives.contains_key(key) && key.image == image),
{
    let ghost before = placements@;
    let ghost first = freed@;
    proof {
        assert(before.with_relatives(before.relatives) == before);
    }
    loop
        invariant
            placements.wf(),
            placements@ == before.with_relatives(placements@.relatives),
            placements@.relatives.submap_of(before.relatives),
            forall|other: Map<PlacementKey, Relative>|
                #![trigger before.with_relatives(other)]
                other.submap_of(before.relatives) && before.with_relatives(other).parented()
                    ==> other.submap_of(placements@.relatives),
            forall|image: u32| #[trigger]
                freed@.contains(image) ==> first.contains(image) || (!placements@.shows(image)
                    && exists|key: PlacementKey| #[trigger]
                    before.relatives.contains_key(key) && !placements@.relatives.contains_key(key)
                        && key.image == image),
            forall|image: u32| first.contains(image) ==> #[trigger] freed@.contains(image),
            forall|key: PlacementKey| #[trigger]
                before.relatives.contains_key(key) && !placements@.relatives.contains_key(key)
                    ==> freed@.contains(key.image) || placements@.shows(key.image),
        ensures
            placements@.parented(),
        decreases placements.order().len(),
    {
        let Some(key) = orphan(placements) else {
            break;
        };
        let ghost held = placements@;
        let ghost freed_before = freed@;
        let _ = placements.drop_relative(key);
        proof {
            assert(placements@ == held.with_relatives(held.relatives.remove(key)));
            assert forall|other: Map<PlacementKey, Relative>|
                #![trigger before.with_relatives(other)]
                other.submap_of(before.relatives) && before.with_relatives(
                    other,
                ).parented() implies other.submap_of(placements@.relatives) by {
                assert(other.submap_of(held.relatives));
                if other.contains_key(key) {
                    let all = before.with_relatives(other);
                    assert(all.relatives.contains_key(key));
                    let parent = other[key].parent;
                    assert(all.has(parent));
                    assert(held.has(parent)) by {
                        if other.contains_key(parent) {
                            assert(held.relatives.contains_key(parent));
                        }
                        if exists|anchor: u32| #[trigger]
                            all.placed.contains_key(anchor) && all.placed[anchor].named()
                                == parent {
                            let anchor = choose|anchor: u32| #[trigger]
                                all.placed.contains_key(anchor) && all.placed[anchor].named()
                                    == parent;
                            assert(held.placed.contains_key(anchor));
                        }
                    }
                    assert(false);
                }
            }
            lemma_shows_less(held, key);
        }
        let shown = placements.shown(key.image);
        if !shown {
            freed.push(key.image);
        }
        proof {
            assert forall|image: u32| freed_before.contains(image) implies #[trigger]
                freed@.contains(image) by {
                let i = choose|i: int| 0 <= i < freed_before.len() && freed_before[i] == image;
                assert(freed@[i] == image);
            }
            if !shown {
                assert(freed@[freed@.len() - 1] == key.image);
                assert(freed@.contains(key.image));
            }
            assert forall|image: u32| #[trigger] freed@.contains(image) implies first.contains(
                image,
            ) || (!placements@.shows(image) && exists|other: PlacementKey| #[trigger]
                before.relatives.contains_key(other) && !placements@.relatives.contains_key(other)
                    && other.image == image) by {
                if freed_before.contains(image) {
                    if !first.contains(image) {
                        let other = choose|other: PlacementKey| #[trigger]
                            before.relatives.contains_key(other) && !held.relatives.contains_key(
                                other,
                            ) && other.image == image;
                        assert(before.relatives.contains_key(other)
                            && !placements@.relatives.contains_key(other));
                    }
                } else {
                    let i = choose|i: int| 0 <= i < freed@.len() && freed@[i] == image;
                    assert(i == freed_before.len()) by {
                        if i < freed_before.len() {
                            assert(freed_before[i] == image);
                        }
                    }
                    assert(before.relatives.contains_key(key));
                }
            }
            assert forall|other: PlacementKey| #[trigger]
                before.relatives.contains_key(other) && !placements@.relatives.contains_key(
                    other,
                ) implies freed@.contains(other.image) || placements@.shows(other.image) by {
                if other != key {
                    assert(!held.relatives.contains_key(other));
                    if !freed_before.contains(other.image) && other.image != key.image {
                        assert(held.shows(other.image));
                        assert(placements@.shows(other.image));
                    }
                }
            }
        }
    }
    proof {
        assert forall|image: u32| #[trigger] freed@.contains(image) <==> first.contains(image) || (
        !placements@.shows(image) && exists|key: PlacementKey| #[trigger]
            before.relatives.contains_key(key) && !placements@.relatives.contains_key(key)
                && key.image == image) by {}
    }
}

/// Without a relative placement, the images shown are the same but for its
/// own.
proof fn lemma_shows_less(laid: Laid, key: PlacementKey)
    ensures
        forall|image: u32|
            #![trigger laid.with_relatives(laid.relatives.remove(key)).shows(image)]
            laid.with_relatives(laid.relatives.remove(key)).shows(image) ==> laid.shows(image),
        forall|image: u32|
            #![trigger laid.with_relatives(laid.relatives.remove(key)).shows(image)]
            laid.shows(image) && image != key.image ==> laid.with_relatives(
                laid.relatives.remove(key),
            ).shows(image),
{
    let less = laid.with_relatives(laid.relatives.remove(key));
    assert forall|image: u32| #![trigger less.shows(image)] less.shows(image) implies laid.shows(
        image,
    ) by {
        if exists|anchor: u32| #[trigger]
            less.placed.contains_key(anchor) && less.placed[anchor].image == image {
            let anchor = choose|anchor: u32| #[trigger]
                less.placed.contains_key(anchor) && less.placed[anchor].image == image;
            assert(laid.placed.contains_key(anchor));
        } else if exists|other: PlacementKey| #[trigger]
            less.virtuals.contains_key(other) && other.image == image {
            let other = choose|other: PlacementKey| #[trigger]
                less.virtuals.contains_key(other) && other.image == image;
            assert(laid.virtuals.contains_key(other));
        } else {
            let other = choose|other: PlacementKey| #[trigger]
                less.relatives.contains_key(other) && other.image == image;
            assert(laid.relatives.contains_key(other));
        }
    }
    assert forall|image: u32| #![trigger less.shows(image)] laid.shows(image) && image
        != key.image implies less.shows(image) by {
        if exists|anchor: u32| #[trigger]
            laid.placed.contains_key(anchor) && laid.placed[anchor].image == image {
            let anchor = choose|anchor: u32| #[trigger]
                laid.placed.contains_key(anchor) && laid.placed[anchor].image == image;
            assert(less.placed.contains_key(anchor));
        } else if exists|other: PlacementKey| #[trigger]
            laid.virtuals.contains_key(other) && other.image == image {
            let other = choose|other: PlacementKey| #[trigger]
                laid.virtuals.contains_key(other) && other.image == image;
            assert(less.virtuals.contains_key(other));
        } else {
            let other = choose|other: PlacementKey| #[trigger]
                laid.relatives.contains_key(other) && other.image == image;
            assert(less.relatives.contains_key(other));
        }
    }
}

/// A list with one more item holds what it held, and the item.
proof fn lemma_push<A>(list: Seq<A>, item: A)
    ensures
        forall|other: A| #[trigger]
            list.push(item).contains(other) <==> list.contains(other) || other == item,
{
    assert forall|other: A| #[trigger] list.push(item).contains(other) <==> list.contains(other)
        || other == item by {
        if list.contains(other) {
            let i = choose|i: int| 0 <= i < list.len() && list[i] == other;
            assert(list.push(item)[i] == other);
        }
        if other == item {
            assert(list.push(item)[list.len() as int] == item);
        }
        if list.push(item).contains(other) && other != item {
            let i = choose|i: int| 0 <= i < list.push(item).len() && list.push(item)[i] == other;
            assert(list[i] == other);
        }
    }
}

/// The anchors of the placements a delete names.
fn anchors_taken(
    placements: &Placements,
    located: &Located,
    target: Target,
    cursor: GridPoint,
) -> (anchors: Vec<u32>)
    requires
        placements.wf(),
    ensures
        forall|anchor: u32| #[trigger]
            placements@.placed.contains_key(anchor) ==> (anchors@.contains(anchor) <==> (Reach {
                laid: placements@,
                anchored: located.anchored@,
                relatives: located.relatives@,
                target,
                cursor,
            }).takes_anchor(anchor)),
{
    let mut anchors: Vec<u32> = Vec::new();
    let mut i: usize = 0;
    if target.is_by_name() {
        while i < placements.placed_count()
            invariant
                placements.wf(),
                i <= placements.anchors().len(),
                forall|anchor: u32| #[trigger]
                    anchors@.contains(anchor) <==> exists|j: int|
                        0 <= j < i && (#[trigger] placements.anchors()[j]).0 == anchor
                            && target.names(
                            placements.anchors()[j].1.named(),
                            placements.anchors()[j].1.z,
                        ),
            decreases placements.anchors().len() - i,
        {
            let (anchor, placed) = placements.placed_at(i);
            let key = PlacementKey { image: placed.image, placement: placed.placement };
            if target.is_named(key, placed.z) {
                proof {
                    lemma_push(anchors@, anchor);
                }
                anchors.push(anchor);
            }
            i = i + 1;
        }
        proof {
            placements.lemma_lists();
            let list = placements.anchors();
            assert forall|anchor: u32| #[trigger]
                placements@.placed.contains_key(anchor) implies (anchors@.contains(anchor)
                <==> target.names(
                placements@.placed[anchor].named(),
                placements@.placed[anchor].z,
            )) by {
                let at = table::place_of(list, anchor);
                assert(list[at].0 == anchor);
                table::lemma_entry(list, at);
                if anchors@.contains(anchor) {
                    let j = choose|j: int|
                        0 <= j < list.len() && (#[trigger] list[j]).0 == anchor && target.names(
                            list[j].1.named(),
                            list[j].1.z,
                        );
                    table::lemma_entry(list, j);
                }
            }
        }
    } else {
        while i < located.anchored.len()
            invariant
                i <= located.anchored@.len(),
                forall|anchor: u32| #[trigger]
                    anchors@.contains(anchor) <==> exists|j: int|
                        0 <= j < i && (#[trigger] located.anchored@[j]).0 == anchor && target.hits(
                            located.anchored@[j].1,
                            cursor,
                        ),
            decreases located.anchored@.len() - i,
        {
            let (anchor, p) = located.anchored[i];
            if target.is_hit(&p, cursor) {
                proof {
                    lemma_push(anchors@, anchor);
                }
                anchors.push(anchor);
            }
            i = i + 1;
        }
    }
    anchors
}

/// The keys of the relative placements a delete names.
fn relatives_taken(
    placements: &Placements,
    located: &Located,
    target: Target,
    cursor: GridPoint,
) -> (keys: Vec<PlacementKey>)
    requires
        placements.wf(),
    ensures
        forall|key: PlacementKey| #[trigger]
            placements@.relatives.contains_key(key) ==> (keys@.contains(key) <==> (Reach {
                laid: placements@,
                anchored: located.anchored@,
                relatives: located.relatives@,
                target,
                cursor,
            }).takes_relative(key)),
{
    let mut keys: Vec<PlacementKey> = Vec::new();
    let mut i: usize = 0;
    if target.is_by_name() {
        while i < placements.relative_count()
            invariant
                placements.wf(),
                i <= placements.order().len(),
                forall|key: PlacementKey| #[trigger]
                    keys@.contains(key) <==> exists|j: int|
                        0 <= j < i && (#[trigger] placements.order()[j]).0 == key && target.names(
                            key,
                            placements.order()[j].1.z,
                        ),
            decreases placements.order().len() - i,
        {
            let (key, relative) = placements.relative_at(i);
            if target.is_named(key, relative.z) {
                proof {
                    lemma_push(keys@, key);
                }
                keys.push(key);
            }
            i = i + 1;
        }
        proof {
            placements.lemma_order();
            let list = placements.order();
            assert forall|key: PlacementKey| #[trigger]
                placements@.relatives.contains_key(key) implies (keys@.contains(key)
                <==> target.names(key, placements@.relatives[key].z)) by {
                let at = table::place_of(list, key);
                assert(list[at].0 == key);
                table::lemma_entry(list, at);
                if keys@.contains(key) {
                    let j = choose|j: int|
                        0 <= j < list.len() && (#[trigger] list[j]).0 == key && target.names(
                            key,
                            list[j].1.z,
                        );
                    table::lemma_entry(list, j);
                }
            }
        }
    } else {
        while i < located.relatives.len()
            invariant
                i <= located.relatives@.len(),
                forall|key: PlacementKey| #[trigger]
                    keys@.contains(key) <==> exists|j: int|
                        0 <= j < i && (#[trigger] located.relatives@[j]).0 == key && target.hits(
                            located.relatives@[j].1,
                            cursor,
                        ),
            decreases located.relatives@.len() - i,
        {
            let (key, p) = located.relatives[i];
            if target.is_hit(&p, cursor) {
                proof {
                    lemma_push(keys@, key);
                }
                keys.push(key);
            }
            i = i + 1;
        }
    }
    keys
}

/// Forget the virtual placements a delete names.
fn drop_virtuals(placements: &mut Placements, target: Target, touched: &mut Vec<u32>)
    requires
        old(placements).wf(),
    ensures
        final(placements).wf(),
        final(placements)@ == (Laid {
            virtuals: final(placements)@.virtuals,
            ..old(placements)@
        }),
        final(placements)@.virtuals.submap_of(old(placements)@.virtuals),
        forall|key: PlacementKey| #[trigger]
            old(placements)@.virtuals.contains_key(key) ==> (
            final(placements)@.virtuals.contains_key(key) <==> !target.names_virtual(key)),
        forall|image: u32| #[trigger]
            final(touched)@.contains(image) <==> old(touched)@.contains(image) || exists|
                key: PlacementKey,
            | #[trigger]
                old(placements)@.virtuals.contains_key(key) && target.names_virtual(key)
                    && key.image == image,
{
    if let Target::Z(_) = target {
        return;
    }
    let ghost before = placements@;
    let mut i: usize = 0;
    while i < placements.virtual_count()
        invariant
            placements.wf(),
            !(target is Z),
            placements@ == (Laid { virtuals: placements@.virtuals, ..before }),
            placements@.virtuals.submap_of(before.virtuals),
            i <= placements.boxes().len(),
            forall|j: int|
                0 <= j < i ==> !target.names_virtual((#[trigger] placements.boxes()[j]).0),
            forall|key: PlacementKey| #[trigger]
                before.virtuals.contains_key(key) && !placements@.virtuals.contains_key(key)
                    ==> target.names_virtual(key) && touched@.contains(key.image),
            forall|image: u32| #[trigger]
                touched@.contains(image) ==> old(touched)@.contains(image) || exists|
                    key: PlacementKey,
                | #[trigger]
                    before.virtuals.contains_key(key) && target.names_virtual(key) && key.image
                        == image,
            forall|image: u32|
                old(touched)@.contains(image) ==> #[trigger] touched@.contains(image),
        decreases placements.boxes().len() - i,
    {
        let (key, _) = placements.virtual_at(i);
        if target.is_named(key, 0) {
            let ghost held = placements@;
            let ghost list = placements.boxes();
            let ghost touched_before = touched@;
            let _ = placements.drop_virtual_at(i);
            proof {
                lemma_push(touched@, key.image);
                assert forall|j: int| 0 <= j < i implies !target.names_virtual(
                    (#[trigger] placements.boxes()[j]).0,
                ) by {
                    assert(placements.boxes()[j] == list[j]);
                }
            }
            touched.push(key.image);
            proof {
                assert(before.virtuals.contains_key(key));
                assert forall|other: PlacementKey| #[trigger]
                    before.virtuals.contains_key(other) && !placements@.virtuals.contains_key(
                        other,
                    ) implies target.names_virtual(other) && touched@.contains(other.image) by {
                    if other != key {
                        assert(!held.virtuals.contains_key(other));
                    }
                }
            }
        } else {
            i = i + 1;
        }
    }
    proof {
        placements.lemma_lists();
        let list = placements.boxes();
        assert forall|key: PlacementKey| #[trigger]
            before.virtuals.contains_key(key) implies (placements@.virtuals.contains_key(key)
            <==> !target.names_virtual(key)) by {
            if placements@.virtuals.contains_key(key) {
                let at = table::place_of(list, key);
                assert(list[at].0 == key);
                assert(!target.names_virtual(list[at].0));
            }
        }
    }
}

/// Forget the anchored placements under `anchors`.
fn drop_anchors(placements: &mut Placements, anchors: &Vec<u32>, touched: &mut Vec<u32>)
    requires
        old(placements).wf(),
    ensures
        final(placements).wf(),
        final(placements)@ == (Laid { placed: final(placements)@.placed, ..old(placements)@ }),
        final(placements)@.placed.submap_of(old(placements)@.placed),
        forall|anchor: u32| #[trigger]
            old(placements)@.placed.contains_key(anchor) ==> (
            final(placements)@.placed.contains_key(anchor) <==> !anchors@.contains(anchor)),
        forall|image: u32| #[trigger]
            final(touched)@.contains(image) <==> old(touched)@.contains(image) || exists|anchor: u32|
                #[trigger]
                old(placements)@.placed.contains_key(anchor) && anchors@.contains(anchor)
                    && old(placements)@.placed[anchor].image == image,
{
    let ghost before = placements@;
    let mut i: usize = 0;
    while i < anchors.len()
        invariant
            placements.wf(),
            i <= anchors@.len(),
            placements@ == (Laid { placed: placements@.placed, ..before }),
            placements@.placed.submap_of(before.placed),
            forall|j: int|
                0 <= j < i ==> !placements@.placed.contains_key(#[trigger] anchors@[j]),
            forall|anchor: u32| #[trigger]
                before.placed.contains_key(anchor) && !placements@.placed.contains_key(anchor)
                    ==> anchors@.contains(anchor) && touched@.contains(before.placed[anchor].image),
            forall|image: u32| #[trigger]
                touched@.contains(image) ==> old(touched)@.contains(image) || exists|anchor: u32|
                    #[trigger]
                    before.placed.contains_key(anchor) && anchors@.contains(anchor)
                        && before.placed[anchor].image == image,
            forall|image: u32|
                old(touched)@.contains(image) ==> #[trigger] touched@.contains(image),
        decreases anchors@.len() - i,
    {
        let anchor = anchors[i];
        let ghost held = placements@;
        let gone = placements.drop_placed(anchor);
        if let Some(placed) = gone {
            proof {
                lemma_push(touched@, placed.image);
                assert(anchors@.contains(anchor));
                assert(before.placed.contains_key(anchor));
            }
            touched.push(placed.image);
        }
        proof {
            assert forall|other: u32| #[trigger]
                before.placed.contains_key(other) && !placements@.placed.contains_key(
                    other,
                ) implies anchors@.contains(other) && touched@.contains(
                before.placed[other].image,
            ) by {
                if other != anchor {
                    assert(!held.placed.contains_key(other));
                }
            }
        }
        i = i + 1;
    }
    proof {
        assert forall|anchor: u32| #[trigger]
            before.placed.contains_key(anchor) && anchors@.contains(
                anchor,
            ) implies !placements@.placed.contains_key(anchor) by {
            let j = choose|j: int| 0 <= j < anchors@.len() && anchors@[j] == anchor;
            assert(!placements@.placed.contains_key(anchors@[j]));
        }
    }
}

/// Forget the relative placements that go by `keys`.
fn drop_relatives(placements: &mut Placements, keys: &Vec<PlacementKey>, touched: &mut Vec<u32>)
    requires
        old(placements).wf(),
    ensures
        final(placements).wf(),
        final(placements)@ == old(placements)@.with_relatives(final(placements)@.relatives),
        final(placements)@.relatives.submap_of(old(placements)@.relatives),
        forall|key: PlacementKey| #[trigger]
            old(placements)@.relatives.contains_key(key) ==> (
            final(placements)@.relatives.contains_key(key) <==> !keys@.contains(key)),
        forall|image: u32| #[trigger]
            final(touched)@.contains(image) <==> old(touched)@.contains(image) || exists|
                key: PlacementKey,
            | #[trigger]
                old(placements)@.relatives.contains_key(key) && keys@.contains(key) && key.image
                    == image,
{
    let ghost before = placements@;
    let mut i: usize = 0;
    while i < keys.len()
        invariant
            placements.wf(),
            i <= keys@.len(),
            placements@ == before.with_relatives(placements@.relatives),
            placements@.relatives.submap_of(before.relatives),
            forall|j: int|
                0 <= j < i ==> !placements@.relatives.contains_key(#[trigger] keys@[j]),
            forall|key: PlacementKey| #[trigger]
                before.relatives.contains_key(key) && !placements@.relatives.contains_key(key)
                    ==> keys@.contains(key) && touched@.contains(key.image),
            forall|image: u32| #[trigger]
                touched@.contains(image) ==> old(touched)@.contains(image) || exists|
                    key: PlacementKey,
                | #[trigger]
                    before.relatives.contains_key(key) && keys@.contains(key) && key.image == image,
            forall|image: u32|
                old(touched)@.contains(image) ==> #[trigger] touched@.contains(image),
        decreases keys@.len() - i,
    {
        let key = keys[i];
        let ghost held = placements@;
        if placements.drop_relative(key) {
            proof {
                lemma_push(touched@, key.image);
                assert(keys@.contains(key));
                assert(before.relatives.contains_key(key));
            }
            touched.push(key.image);
        }
        proof {
            assert forall|other: PlacementKey| #[trigger]
                before.relatives.contains_key(other) && !placements@.relatives.contains_key(
                    other,
                ) implies keys@.contains(other) && touched@.contains(other.image) by {
                if other != key {
                    assert(!held.relatives.contains_key(other));
                }
            }
        }
        i = i + 1;
    }
    proof {
        assert forall|key: PlacementKey| #[trigger]
            before.relatives.contains_key(key) && keys@.contains(
                key,
            ) implies !placements@.relatives.contains_key(key) by {
            let j = choose|j: int| 0 <= j < keys@.len() && keys@[j] == key;
            assert(!placements@.relatives.contains_key(keys@[j]));
        }
    }
}

impl Reach {
    /// Whether the data of `image` goes, the placements once all is done being
    /// `after`: it went with a parent, or with `free`, it was named.
    pub open spec fn frees(self, after: Laid, free: bool, image: u32) -> bool {
        &&& !after.shows(image)
        &&& {
            ||| exists|key: PlacementKey| #[trigger]
                self.left().relatives.contains_key(key) && !after.relatives.contains_key(key)
                    && key.image == image
            ||| free && (self.touches(image) || (self.target matches Target::Image {
                id,
                ..
            } && id == image))
        }
    }
}

impl Placements {
    /// Take the placements a delete names off the grid, and with `free`, let
    /// go of the data of each image it leaves with none: those are handed back.
    ///
    /// The ones named by position — every target but an image id, a range of
    /// them and a z-index — are looked for among those `located` on the screen
    /// alone, not in history.
    ///
    /// A relative placement goes with its parent, and an image left with no
    /// placement by that goes too, whatever `free` says.
    pub fn delete(&mut self, delete: Delete, located: &Located, cursor: GridPoint) -> (freed: Vec<
        u32,
    >)
        requires
            old(self).wf(),
        ensures
            final(self).wf(),
            ({
                let reach = Reach {
                    laid: old(self)@,
                    anchored: located.anchored@,
                    relatives: located.relatives@,
                    target: delete.target,
                    cursor,
                };
                &&& final(self)@ == reach.left().with_relatives(final(self)@.relatives)
                &&& reach.left().prunes_to(final(self)@.relatives)
                &&& forall|image: u32| #[trigger]
                    freed@.contains(image) <==> reach.frees(final(self)@, delete.free, image)
            }),
    {
        let ghost before = self@;
        let ghost reach = Reach {
            laid: before,
            anchored: located.anchored@,
            relatives: located.relatives@,
            target: delete.target,
            cursor,
        };
        let anchors = anchors_taken(self, located, delete.target, cursor);
        let keys = relatives_taken(self, located, delete.target, cursor);
        let mut touched: Vec<u32> = Vec::new();
        drop_virtuals(self, delete.target, &mut touched);
        let ghost touched1 = touched@;
        drop_anchors(self, &anchors, &mut touched);
        let ghost touched2 = touched@;
        drop_relatives(self, &keys, &mut touched);
        proof {
            assert(self@.placed =~= reach.left().placed);
            assert(self@.virtuals =~= reach.left().virtuals);
            assert(self@.relatives =~= reach.left().relatives);
            assert(self@ == reach.left());
            assert forall|image: u32| #[trigger] touched@.contains(image) <==> reach.touches(
                image,
            ) by {
                lemma_touches(reach, anchors@, keys@, image);
            }
        }
        let mut freed: Vec<u32> = Vec::new();
        prune(self, &mut freed);
        if !delete.free {
            return freed;
        }
        if let Target::Image { id, .. } = delete.target {
            proof {
                lemma_push(touched@, id);
            }
            touched.push(id);
        }
        let ghost orphaned = freed@;
        let mut i: usize = 0;
        while i < touched.len()
            invariant
                self.wf(),
                i <= touched@.len(),
                forall|image: u32| #[trigger]
                    freed@.contains(image) <==> orphaned.contains(image) || (!self@.shows(image)
                        && exists|j: int| 0 <= j < i && #[trigger] touched@[j] == image),
            decreases touched@.len() - i,
        {
            let image = touched[i];
            if !self.shown(image) {
                proof {
                    lemma_push(freed@, image);
                }
                freed.push(image);
            }
            i = i + 1;
        }
        proof {
            assert forall|image: u32| #[trigger] freed@.contains(image) <==> reach.frees(
                self@,
                delete.free,
                image,
            ) by {
                if touched@.contains(image) {
                    let j = choose|j: int| 0 <= j < touched@.len() && touched@[j] == image;
                    assert(touched@[j] == image);
                }
            }
        }
        freed
    }
}

/// What was touched, said over the lists of what went.
proof fn lemma_touches(reach: Reach, anchors: Seq<u32>, keys: Seq<PlacementKey>, image: u32)
    requires
        forall|anchor: u32| #[trigger]
            reach.laid.placed.contains_key(anchor) ==> (anchors.contains(anchor)
                <==> reach.takes_anchor(anchor)),
        forall|key: PlacementKey| #[trigger]
            reach.laid.relatives.contains_key(key) ==> (keys.contains(key)
                <==> reach.takes_relative(key)),
    ensures
        reach.touches(image) <==> {
            ||| exists|key: PlacementKey| #[trigger]
                reach.laid.virtuals.contains_key(key) && reach.target.names_virtual(key)
                    && key.image == image
            ||| exists|anchor: u32| #[trigger]
                reach.laid.placed.contains_key(anchor) && anchors.contains(anchor)
                    && reach.laid.placed[anchor].image == image
            ||| exists|key: PlacementKey| #[trigger]
                reach.laid.relatives.contains_key(key) && keys.contains(key) && key.image == image
        },
{
    if exists|key: PlacementKey| #[trigger]
        reach.laid.virtuals.contains_key(key) && reach.target.names_virtual(key) && key.image
            == image {
        let key = choose|key: PlacementKey| #[trigger]
            reach.laid.virtuals.contains_key(key) && reach.target.names_virtual(key) && key.image
                == image;
        assert(reach.takes_virtual(key));
    }
    if exists|anchor: u32| #[trigger]
        reach.laid.placed.contains_key(anchor) && anchors.contains(anchor)
            && reach.laid.placed[anchor].image == image {
        let anchor = choose|anchor: u32| #[trigger]
            reach.laid.placed.contains_key(anchor) && anchors.contains(anchor)
                && reach.laid.placed[anchor].image == image;
        assert(reach.takes_anchor(anchor));
    }
    if exists|key: PlacementKey| #[trigger]
        reach.laid.relatives.contains_key(key) && keys.contains(key) && key.image == image {
        let key = choose|key: PlacementKey| #[trigger]
            reach.laid.relatives.contains_key(key) && keys.contains(key) && key.image == image;
        assert(reach.takes_relative(key));
    }
    if exists|anchor: u32| #[trigger]
        reach.takes_anchor(anchor) && reach.laid.placed[anchor].image == image {
        let anchor = choose|anchor: u32| #[trigger]
            reach.takes_anchor(anchor) && reach.laid.placed[anchor].image == image;
        assert(reach.laid.placed.contains_key(anchor));
    }
    if exists|key: PlacementKey| #[trigger] reach.takes_virtual(key) && key.image == image {
        let key = choose|key: PlacementKey| #[trigger]
            reach.takes_virtual(key) && key.image == image;
        assert(reach.laid.virtuals.contains_key(key));
    }
    if exists|key: PlacementKey| #[trigger] reach.takes_relative(key) && key.image == image {
        let key = choose|key: PlacementKey| #[trigger]
            reach.takes_relative(key) && key.image == image;
        assert(reach.laid.relatives.contains_key(key));
    }
}

} // verus!
