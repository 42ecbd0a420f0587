//! The images on the grid: what each placement is, where it is found, and
//! which go when a program takes some away.

use vstd::prelude::*;

use crate::terminal::anchors;
use crate::terminal::anchors::{anchor_pairs, is_anchor, ANCHOR, ANCHOR_COLUMN, ANCHOR_MAX};
use crate::terminal::table;
use crate::terminal::table::{Key, Table};

verus! {

/// What names a placement: its image, and the client's placement id, zero when
/// it named none.
#[derive(Debug, Clone, Copy, PartialEq, Eq, Structural)]
pub struct PlacementKey {
    pub image: u32,
    pub placement: u32,
}

impl Key for PlacementKey {
    open spec fn number(self) -> u64 {
        (self.image * 0x1_0000_0000 + self.placement) as u64
    }

    proof fn one_number(a: Self, b: Self) {
    }

    fn hashed(&self) -> (n: u64) {
        self.image as u64 * 0x1_0000_0000 + self.placement as u64
    }
}

/// A rectangle in cells, fractional where an offset or a letterbox puts an
/// edge inside one. Each number is held as its bit pattern: the rectangle is
/// measured and drawn by the host, and only carried here.
#[derive(Debug, Clone, Copy, PartialEq, Eq, Structural)]
pub struct Frame {
    pub x: u32,
    pub y: u32,
    pub width: u32,
    pub height: u32,
}

/// A rectangle in an image's pixels, inside the image.
#[derive(Debug, Clone, Copy, PartialEq, Eq, Structural)]
pub struct Source {
    pub x: u32,
    pub y: u32,
    pub width: u32,
    pub height: u32,
}

/// Where an image sits on the grid: its top-left cell in viewport
/// coordinates, and how many cells it covers.
#[derive(Debug, Clone, Copy, PartialEq, Eq)]
pub struct Placement {
    pub row: usize,
    pub col: usize,
    pub cols: u16,
    pub rows: u16,
    /// The id of the image to paint here.
    pub image: u32,
    /// Where the picture is drawn, in cells from the top-left cell of the box
    /// it was placed in. It can run past the placement's own cells, which
    /// paint clips to.
    pub frame: Frame,
    /// The cell of that box this placement starts at: its column and its row.
    /// Zero and zero but for a slice of a virtual placement, whose frame is
    /// drawn that far to the left and up.
    pub slice: (u32, u32),
    /// The part of the image drawn into [`Self::frame`].
    pub source: Source,
    /// Negative is under the text, and below `i32::MIN / 2` under
    /// non-default cell backgrounds too. Zero and up is over the text.
    pub z: i32,
}

/// What a placement holds that the grid cannot: its size, and which image it
/// shows. Its *position* is the anchored cell.
#[derive(Debug, Clone, Copy, PartialEq, Eq, Structural)]
pub struct Placed {
    pub image: u32,
    /// The client's placement id, zero when it named none.
    pub placement: u32,
    pub cols: u16,
    pub rows: u16,
    pub frame: Frame,
    pub source: Source,
    pub z: i32,
}

impl Placed {
    pub open spec fn named(self) -> PlacementKey {
        PlacementKey { image: self.image, placement: self.placement }
    }

    fn key(&self) -> (key: PlacementKey)
        ensures
            key == self.named(),
    {
        PlacementKey { image: self.image, placement: self.placement }
    }

    /// The placement, found with its top-left cell at `row` and `col`.
    pub open spec fn at(self, row: int, col: int) -> Placement {
        Placement {
            row: row as usize,
            col: col as usize,
            cols: self.cols,
            rows: self.rows,
            image: self.image,
            frame: self.frame,
            slice: (0, 0),
            source: self.source,
            z: self.z,
        }
    }
}

/// A virtual placement: the box of `cols` by `rows` cells its placeholders
/// tile, and where the picture sits in it.
#[derive(Debug, Clone, Copy, PartialEq, Eq, Structural)]
pub struct Virtual {
    pub cols: u16,
    pub rows: u16,
    pub frame: Frame,
    pub source: Source,
    pub z: i32,
}

/// A placement positioned off another one: `offset` cells from its parent's
/// top-left cell.
#[derive(Debug, Clone, Copy, PartialEq, Eq)]
pub struct Relative {
    pub parent: PlacementKey,
    pub offset: (i32, i32),
    pub cols: u16,
    pub rows: u16,
    pub frame: Frame,
    pub source: Source,
    pub z: i32,
}

/// The cell of a virtual placement's box that a placeholder cell shows.
#[derive(Debug, Clone, Copy, PartialEq, Eq, Structural)]
pub struct Slot {
    pub image: u32,
    /// Zero where the cell names no placement.
    pub placement: u32,
    pub row: u32,
    pub col: u32,
}

/// Where the cursor goes once an image is placed.
#[derive(Debug, Clone, Copy, PartialEq, Eq, Structural)]
pub enum CursorMovement {
    /// Past the image.
    After,
    /// Nowhere.
    Stay,
}

/// A request to put an image on the grid.
#[derive(Debug, Clone, Copy, PartialEq, Eq, Structural)]
pub struct Display {
    pub image: u32,
    pub placement: u32,
    /// The parent of a relative placement, zero where there is none.
    pub parent_image: u32,
    pub parent_placement: u32,
    pub parent_offset_x: i32,
    pub parent_offset_y: i32,
    /// Whether the placement is virtual, shown by placeholder cells.
    pub unicode: bool,
    pub source_x: u32,
    pub source_y: u32,
    /// The part of the image to show, zero for what is left of it.
    pub source_width: u32,
    pub source_height: u32,
    pub z: i32,
    /// Which replies the client wants: all, failures alone, or none.
    pub quiet: u8,
    pub cursor_movement: CursorMovement,
}

impl Display {
    pub open spec fn named(self) -> PlacementKey {
        PlacementKey { image: self.image, placement: self.placement }
    }

    /// How many rows a placement of `rows` rows reserves: all of them where the
    /// cursor goes past it, and none where it stays.
    pub open spec fn reserves(self, rows: u16) -> nat {
        if self.cursor_movement == CursorMovement::After {
            rows as nat
        } else {
            0
        }
    }

    pub open spec fn parent(self) -> PlacementKey {
        PlacementKey { image: self.parent_image, placement: self.parent_placement }
    }

    /// The part of an image of `width` by `height` pixels that is shown. None
    /// where nothing of it is.
    pub open spec fn clipped(self, width: u32, height: u32) -> Option<Source> {
        let x = if self.source_x <= width {
            self.source_x
        } else {
            width
        };
        let y = if self.source_y <= height {
            self.source_y
        } else {
            height
        };
        let source = Source {
            x,
            y,
            width: if self.source_width == 0 || self.source_width > width - x {
                (width - x) as u32
            } else {
                self.source_width
            },
            height: if self.source_height == 0 || self.source_height > height - y {
                (height - y) as u32
            } else {
                self.source_height
            },
        };
        if source.width == 0 || source.height == 0 {
            None
        } else {
            Some(source)
        }
    }

    /// The part of an image of `width` by `height` pixels that is shown, which
    /// lies inside the image. None where nothing of it is.
    pub fn clip(&self, width: u32, height: u32) -> (source: Option<Source>)
        ensures
            source == self.clipped(width, height),
            source matches Some(source) ==> source.x + source.width <= width && source.y
                + source.height <= height,
    {
        let x = if self.source_x <= width {
            self.source_x
        } else {
            width
        };
        let y = if self.source_y <= height {
            self.source_y
        } else {
            height
        };
        let source = Source {
            x,
            y,
            width: if self.source_width == 0 || self.source_width > width - x {
                width - x
            } else {
                self.source_width
            },
            height: if self.source_height == 0 || self.source_height > height - y {
                height - y
            } else {
                self.source_height
            },
        };
        if source.width == 0 || source.height == 0 {
            None
        } else {
            Some(source)
        }
    }
}

/// The cells a display covers, at least one either way, with its frame and
/// source.
#[derive(Debug, Clone, Copy, PartialEq, Eq, Structural)]
pub struct Extent {
    pub cols: u16,
    pub rows: u16,
    pub frame: Frame,
    pub source: Source,
}

/// Why a placement was refused.
#[derive(Debug, Clone, Copy, PartialEq, Eq, Structural)]
pub enum Refusal {
    /// A virtual placement sits nowhere, so it can hang off nothing.
    Virtual,
    /// No placement goes by the parent's name.
    NoParent,
    /// The placement would be an ancestor of itself.
    Cycle,
    /// The chain of parents is too long.
    TooDeep,
}

impl Refusal {
    /// The error a client is told.
    pub open spec fn told(self) -> Seq<char> {
        match self {
            Refusal::Virtual => "EINVAL:a virtual placement cannot be relative"@,
            Refusal::NoParent => "ENOPARENT"@,
            Refusal::Cycle => "ECYCLE"@,
            Refusal::TooDeep => "ETOODEEP"@,
        }
    }

    /// The error a client is told.
    pub fn message(&self) -> (text: &'static str)
        ensures
            text@ == self.told(),
    {
        match self {
            Refusal::Virtual => "EINVAL:a virtual placement cannot be relative",
            Refusal::NoParent => "ENOPARENT",
            Refusal::Cycle => "ECYCLE",
            Refusal::TooDeep => "ETOODEEP",
        }
    }
}

/// The longest chain of relative placements, counting the one being made.
pub const MAX_RELATIVE_DEPTH: usize = 8;

/// The placements a terminal keeps, as mathematical values.
#[verifier::ext_equal]
pub struct Laid {
    /// Anchored placements by anchor id.
    pub placed: Map<u32, Placed>,
    pub next_anchor: u32,
    pub virtuals: Map<PlacementKey, Virtual>,
    pub relatives: Map<PlacementKey, Relative>,
}

/// The placement `n` parents above `key`, or the last there is.
pub open spec fn up(
    relatives: Map<PlacementKey, Relative>,
    key: PlacementKey,
    n: nat,
) -> PlacementKey
    decreases n,
{
    if n == 0 {
        key
    } else {
        let below = up(relatives, key, (n - 1) as nat);
        if relatives.contains_key(below) {
            relatives[below].parent
        } else {
            below
        }
    }
}

/// Whether the chain of parents above `key` ends within `n` steps.
pub open spec fn rooted(
    relatives: Map<PlacementKey, Relative>,
    key: PlacementKey,
    n: nat,
) -> bool {
    !relatives.contains_key(up(relatives, key, n))
}

/// Whether the chain of parents above `key` ends.
pub open spec fn ends(relatives: Map<PlacementKey, Relative>, key: PlacementKey) -> bool {
    exists|n: nat| #[trigger] rooted(relatives, key, n)
}

/// Every chain of parents ends.
pub open spec fn acyclic(relatives: Map<PlacementKey, Relative>) -> bool {
    forall|key: PlacementKey| #[trigger] ends(relatives, key)
}

/// How many relative placements stand on the chain from `key` upward.
pub open spec fn height(relatives: Map<PlacementKey, Relative>, key: PlacementKey) -> nat {
    choose|n: nat| #[trigger]
        rooted(relatives, key, n) && forall|m: nat| m < n ==> !#[trigger] rooted(relatives, key, m)
}

/// Whether `key` is `of` or stands above it.
pub open spec fn above(
    relatives: Map<PlacementKey, Relative>,
    of: PlacementKey,
    key: PlacementKey,
) -> bool {
    exists|n: nat| #[trigger] up(relatives, of, n) == key
}

impl Laid {
    /// Whether any placement, of any kind, goes by `key`.
    pub open spec fn has(self, key: PlacementKey) -> bool {
        ||| exists|anchor: u32| #[trigger]
            self.placed.contains_key(anchor) && self.placed[anchor].named() == key
        ||| self.virtuals.contains_key(key)
        ||| self.relatives.contains_key(key)
    }

    /// Whether any placement, of any kind, shows `image`.
    pub open spec fn shows(self, image: u32) -> bool {
        ||| exists|anchor: u32| #[trigger]
            self.placed.contains_key(anchor) && self.placed[anchor].image == image
        ||| exists|key: PlacementKey| #[trigger]
            self.virtuals.contains_key(key) && key.image == image
        ||| exists|key: PlacementKey| #[trigger]
            self.relatives.contains_key(key) && key.image == image
    }

    /// The placements without the anchored ones that go by `key`.
    pub open spec fn unplaced(self, key: PlacementKey) -> Laid {
        Laid {
            placed: Map::new(
                |anchor: u32|
                    self.placed.contains_key(anchor) && self.placed[anchor].named() != key,
                |anchor: u32| self.placed[anchor],
            ),
            ..self
        }
    }

    pub open spec fn wf(self) -> bool {
        &&& acyclic(self.relatives)
        &&& self.next_anchor <= ANCHOR_MAX
        &&& forall|anchor: u32| #[trigger] self.placed.contains_key(anchor) ==> anchor < ANCHOR_MAX
    }

    /// Why a relative placement is refused, if it is.
    pub open spec fn refusal(self, display: Display) -> Option<Refusal> {
        if display.unicode {
            Some(Refusal::Virtual)
        } else if !self.has(display.parent()) {
            Some(Refusal::NoParent)
        } else if above(self.relatives, display.parent(), display.named()) {
            Some(Refusal::Cycle)
        } else if height(self.relatives, display.parent()) + 1 > MAX_RELATIVE_DEPTH {
            Some(Refusal::TooDeep)
        } else {
            None
        }
    }

    /// The placements once one hangs off its parent.
    pub open spec fn related(self, display: Display, extent: Extent) -> Laid {
        let key = display.named();
        Laid {
            virtuals: self.virtuals.remove(key),
            relatives: self.relatives.insert(
                key,
                Relative {
                    parent: display.parent(),
                    offset: (display.parent_offset_x, display.parent_offset_y),
                    cols: extent.cols,
                    rows: extent.rows,
                    frame: extent.frame,
                    source: extent.source,
                    z: display.z,
                },
            ),
            ..self.unplaced(key)
        }
    }
}

/// Past its end a chain stays where it is.
proof fn lemma_rooted_stays(
    relatives: Map<PlacementKey, Relative>,
    key: PlacementKey,
    n: nat,
    m: nat,
)
    requires
        rooted(relatives, key, n),
        n <= m,
    ensures
        up(relatives, key, m) == up(relatives, key, n),
        rooted(relatives, key, m),
    decreases m,
{
    if n < m {
        lemma_rooted_stays(relatives, key, n, (m - 1) as nat);
    }
}

/// A chain that ends has a height.
proof fn lemma_height(relatives: Map<PlacementKey, Relative>, key: PlacementKey, n: nat)
    requires
        rooted(relatives, key, n),
        forall|m: nat| m < n ==> !#[trigger] rooted(relatives, key, m),
    ensures
        height(relatives, key) == n,
{
    let h = height(relatives, key);
    assert(rooted(relatives, key, h) && forall|m: nat| m < h ==> !#[trigger] rooted(
        relatives,
        key,
        m,
    ));
    if h < n {
        assert(!rooted(relatives, key, h));
    } else if n < h {
        assert(!rooted(relatives, key, n));
    }
}

/// One step up, then `n` more.
proof fn lemma_up_from_parent(
    relatives: Map<PlacementKey, Relative>,
    key: PlacementKey,
    n: nat,
)
    requires
        relatives.contains_key(key),
    ensures
        up(relatives, relatives[key].parent, n) == up(relatives, key, n + 1),
    decreases n,
{
    if n == 0 {
        reveal_with_fuel(up, 2);
        assert(up(relatives, key, 0) == key);
    } else {
        lemma_up_from_parent(relatives, key, (n - 1) as nat);
    }
}

/// A chain in a smaller map runs along the chain in the larger one, until it
/// ends.
proof fn lemma_up_smaller(
    less: Map<PlacementKey, Relative>,
    more: Map<PlacementKey, Relative>,
    key: PlacementKey,
    n: nat,
)
    requires
        less.submap_of(more),
    ensures
        up(less, key, n) == up(more, key, n) || rooted(less, key, n),
    decreases n,
{
    if n > 0 {
        lemma_up_smaller(less, more, key, (n - 1) as nat);
    }
}

/// Taking placements away makes no cycle.
pub proof fn removal_keeps_chains_ending(
    less: Map<PlacementKey, Relative>,
    more: Map<PlacementKey, Relative>,
)
    requires
        acyclic(more),
        less.submap_of(more),
    ensures
        acyclic(less),
{
    assert forall|key: PlacementKey| #[trigger] ends(less, key) by {
        assert(ends(more, key));
        let n = choose|n: nat| #[trigger] rooted(more, key, n);
        lemma_up_smaller(less, more, key, n);
        assert(rooted(less, key, n));
    }
}

/// A chain that never meets `key` is no different once `key` hangs elsewhere.
proof fn lemma_up_elsewhere(
    relatives: Map<PlacementKey, Relative>,
    key: PlacementKey,
    relative: Relative,
    from: PlacementKey,
    n: nat,
)
    requires
        forall|m: nat| m < n ==> #[trigger] up(relatives, from, m) != key,
    ensures
        up(relatives.insert(key, relative), from, n) == up(relatives, from, n),
    decreases n,
{
    if n > 0 {
        lemma_up_elsewhere(relatives, key, relative, from, (n - 1) as nat);
        assert(up(relatives, from, (n - 1) as nat) != key);
    }
}

/// `n` steps up, then `m` more.
proof fn lemma_up_adds(
    relatives: Map<PlacementKey, Relative>,
    key: PlacementKey,
    n: nat,
    m: nat,
)
    ensures
        up(relatives, up(relatives, key, n), m) == up(relatives, key, n + m),
    decreases m,
{
    if m > 0 {
        lemma_up_adds(relatives, key, n, (m - 1) as nat);
    }
}

/// Hanging a placement off one that does not hang off it makes no cycle.
pub proof fn relating_keeps_chains_ending(
    relatives: Map<PlacementKey, Relative>,
    key: PlacementKey,
    relative: Relative,
)
    requires
        acyclic(relatives),
        !above(relatives, relative.parent, key),
    ensures
        acyclic(relatives.insert(key, relative)),
{
    let after = relatives.insert(key, relative);
    let parent = relative.parent;
    // The parent's chain is what it was, and ends.
    assert(ends(relatives, parent));
    let p = choose|n: nat| #[trigger] rooted(relatives, parent, n);
    assert forall|m: nat| m < p implies #[trigger] up(relatives, parent, m) != key by {}
    lemma_up_elsewhere(relatives, key, relative, parent, p);
    assert(up(relatives, parent, p) != key);
    assert(rooted(after, parent, p));
    assert forall|from: PlacementKey| #[trigger] ends(after, from) by {
        assert(ends(relatives, from));
        let n = choose|n: nat| #[trigger] rooted(relatives, from, n);
        if exists|m: nat| m <= n && #[trigger] up(relatives, from, m) == key {
            lemma_first(relatives, from, key, n);
            let m = choose|m: nat|
                m <= n && #[trigger] up(relatives, from, m) == key && forall|k: nat|
                    k < m ==> #[trigger] up(relatives, from, k) != key;
            lemma_up_elsewhere(relatives, key, relative, from, m);
            assert(up(after, from, m) == key);
            lemma_up_adds(after, from, m, 1);
            assert(up(after, key, 1) == parent) by {
                reveal_with_fuel(up, 2);
            }
            lemma_up_adds(after, from, m + 1, p);
            assert(rooted(after, from, m + 1 + p));
        } else {
            lemma_up_elsewhere(relatives, key, relative, from, n);
            assert(up(relatives, from, n) != key);
            assert(rooted(after, from, n));
        }
    }
}

/// The first time a chain meets `key`.
proof fn lemma_first(
    relatives: Map<PlacementKey, Relative>,
    from: PlacementKey,
    key: PlacementKey,
    n: nat,
)
    requires
        exists|m: nat| m <= n && #[trigger] up(relatives, from, m) == key,
    ensures
        exists|m: nat|
            m <= n && #[trigger] up(relatives, from, m) == key && forall|k: nat|
                k < m ==> #[trigger] up(relatives, from, k) != key,
    decreases n,
{
    let m = choose|m: nat| m <= n && #[trigger] up(relatives, from, m) == key;
    if exists|k: nat| k < m && #[trigger] up(relatives, from, k) == key {
        let k = choose|k: nat| k < m && #[trigger] up(relatives, from, k) == key;
        assert(m > 0);
        assert(k <= (m - 1) as nat);
        lemma_first(relatives, from, key, (m - 1) as nat);
        let first = choose|i: nat|
            i <= (m - 1) as nat && #[trigger] up(relatives, from, i) == key && forall|k: nat|
                k < i ==> #[trigger] up(relatives, from, k) != key;
        assert(first <= n && up(relatives, from, first) == key);
    }
}

/// The placements a terminal keeps. The grid holds where each anchored one is;
/// this holds what it is.
#[derive(Debug)]
pub struct Placements {
    /// Live placements by anchor id.
    placed: Table<u32, Placed>,
    next_anchor: u32,
    /// Virtual placements by image and placement id. They sit nowhere on the
    /// grid: placeholder cells name them.
    virtuals: Table<PlacementKey, Virtual>,
    /// Relative placements by image and placement id. They sit nowhere on the
    /// grid either: each frame finds them from their parent.
    relatives: Table<PlacementKey, Relative>,
}

impl View for Placements {
    type V = Laid;

    closed spec fn view(&self) -> Laid {
        Laid {
            placed: self.placed@,
            next_anchor: self.next_anchor,
            virtuals: self.virtuals@,
            relatives: self.relatives@,
        }
    }
}

impl Placements {
    pub closed spec fn wf(&self) -> bool {
        &&& self.placed.wf()
        &&& self.virtuals.wf()
        &&& self.relatives.wf()
        &&& self@.wf()
    }

    /// The relative placements, in the order they are looked for.
    pub closed spec fn order(&self) -> Seq<(PlacementKey, Relative)> {
        self.relatives.list()
    }

    /// What holds of every set of placements.
    pub proof fn lemma_laid(&self)
        requires
            self.wf(),
        ensures
            self@.wf(),
    {
    }

    pub fn new() -> (placements: Placements)
        ensures
            placements.wf(),
            placements@ == (Laid {
                placed: Map::empty(),
                next_anchor: 0,
                virtuals: Map::empty(),
                relatives: Map::empty(),
            }),
            placements.order() == Seq::<(PlacementKey, Relative)>::empty(),
    {
        let placements = Placements {
            placed: Table::new(),
            next_anchor: 0,
            virtuals: Table::new(),
            relatives: Table::new(),
        };
        proof {
            assert forall|key: PlacementKey| #[trigger] ends(placements@.relatives, key) by {
                assert(rooted(placements@.relatives, key, 0));
            }
        }
        placements
    }

    /// The same placements, kept apart from these.
    pub fn copy(&self) -> (placements: Placements)
        requires
            self.wf(),
        ensures
            placements.wf(),
            placements@ == self@,
            placements.order() == self.order(),
    {
        Placements {
            placed: self.placed.copy(),
            next_anchor: self.next_anchor,
            virtuals: self.virtuals.copy(),
            relatives: self.relatives.copy(),
        }
    }

    /// Whether any placement, of any kind, goes by `key`.
    pub fn contains(&self, key: PlacementKey) -> (yes: bool)
        requires
            self.wf(),
        ensures
            yes == self@.has(key),
    {
        let mut i: usize = 0;
        while i < self.placed.len()
            invariant
                self.wf(),
                i <= self.placed.list().len(),
                forall|j: int| 0 <= j < i ==> (#[trigger] self.placed.list()[j]).1.named() != key,
            decreases self.placed.list().len() - i,
        {
            let (anchor, placed) = self.placed.entry(i);
            if placed.key() == key {
                assert(self@.placed.contains_key(anchor));
                return true;
            }
            i = i + 1;
        }
        proof {
            self.placed.lemma_list();
            if exists|anchor: u32| #[trigger]
                self@.placed.contains_key(anchor) && self@.placed[anchor].named() == key {
                let anchor = choose|anchor: u32| #[trigger]
                    self@.placed.contains_key(anchor) && self@.placed[anchor].named() == key;
                let at = table::place_of(self.placed.list(), anchor);
                assert(self.placed.list()[at].1.named() != key);
            }
        }
        self.virtuals.contains(key) || self.relatives.contains(key)
    }

    /// Whether any placement, of any kind, shows `image`.
    pub fn shown(&self, image: u32) -> (yes: bool)
        requires
            self.wf(),
        ensures
            yes == self@.shows(image),
    {
        let mut i: usize = 0;
        while i < self.placed.len()
            invariant
                self.wf(),
                i <= self.placed.list().len(),
                forall|j: int| 0 <= j < i ==> (#[trigger] self.placed.list()[j]).1.image != image,
            decreases self.placed.list().len() - i,
        {
            let (anchor, placed) = self.placed.entry(i);
            if placed.image == image {
                assert(self@.placed.contains_key(anchor));
                return true;
            }
            i = i + 1;
        }
        let mut i: usize = 0;
        while i < self.virtuals.len()
            invariant
                self.wf(),
                i <= self.virtuals.list().len(),
                forall|j: int|
                    0 <= j < i ==> (#[trigger] self.virtuals.list()[j]).0.image != image,
            decreases self.virtuals.list().len() - i,
        {
            let (key, _) = self.virtuals.entry(i);
            if key.image == image {
                assert(self@.virtuals.contains_key(key));
                return true;
            }
            i = i + 1;
        }
        let mut i: usize = 0;
        while i < self.relatives.len()
            invariant
                self.wf(),
                i <= self.relatives.list().len(),
                forall|j: int|
                    0 <= j < i ==> (#[trigger] self.relatives.list()[j]).0.image != image,
            decreases self.relatives.list().len() - i,
        {
            let (key, _) = self.relatives.entry(i);
            if key.image == image {
                assert(self@.relatives.contains_key(key));
                return true;
            }
            i = i + 1;
        }
        proof {
            self.placed.lemma_list();
            self.virtuals.lemma_list();
            self.relatives.lemma_list();
            if exists|anchor: u32| #[trigger]
                self@.placed.contains_key(anchor) && self@.placed[anchor].image == image {
                let anchor = choose|anchor: u32| #[trigger]
                    self@.placed.contains_key(anchor) && self@.placed[anchor].image == image;
                let at = table::place_of(self.placed.list(), anchor);
                assert(self.placed.list()[at].1.image != image);
            }
            if exists|key: PlacementKey| #[trigger]
                self@.virtuals.contains_key(key) && key.image == image {
                let key = choose|key: PlacementKey| #[trigger]
                    self@.virtuals.contains_key(key) && key.image == image;
                let at = table::place_of(self.virtuals.list(), key);
                assert(self.virtuals.list()[at].0.image != image);
            }
            if exists|key: PlacementKey| #[trigger]
                self@.relatives.contains_key(key) && key.image == image {
                let key = choose|key: PlacementKey| #[trigger]
                    self@.relatives.contains_key(key) && key.image == image;
                let at = table::place_of(self.relatives.list(), key);
                assert(self.relatives.list()[at].0.image != image);
            }
        }
        false
    }

    /// Why a relative placement is refused, if it is.
    fn refused(&self, display: &Display) -> (refusal: Option<Refusal>)
        requires
            self.wf(),
        ensures
            refusal == self@.refusal(*display),
    {
        let key = PlacementKey { image: display.image, placement: display.placement };
        let parent = PlacementKey {
            image: display.parent_image,
            placement: display.parent_placement,
        };
        if display.unicode {
            return Some(Refusal::Virtual);
        }
        if !self.contains(parent) {
            return Some(Refusal::NoParent);
        }
        let ghost relatives = self@.relatives;
        proof {
            assert(ends(relatives, parent));
        }
        let ghost end = choose|n: nat| #[trigger] rooted(relatives, parent, n);
        // Counting the placement being made, and no further than it matters.
        let mut depth: usize = 1;
        let mut at = parent;
        let ghost mut n: nat = 0;
        loop
            invariant
                self.wf(),
                relatives == self@.relatives,
                rooted(relatives, parent, end),
                n <= end,
                at == up(relatives, parent, n),
                depth <= MAX_RELATIVE_DEPTH + 1,
                depth == n + 1 || (depth == MAX_RELATIVE_DEPTH + 1 && n >= MAX_RELATIVE_DEPTH),
                forall|m: nat| m < n ==> #[trigger] up(relatives, parent, m) != key,
                forall|m: nat| m < n ==> !#[trigger] rooted(relatives, parent, m),
                key == display.named(),
                parent == display.parent(),
                !display.unicode,
                self@.has(parent),
            ensures
                rooted(relatives, parent, n),
                up(relatives, parent, n) != key,
            decreases end - n,
        {
            if at == key {
                assert(above(relatives, parent, key));
                return Some(Refusal::Cycle);
            }
            match self.relatives.get(at) {
                Some(relative) => {
                    if depth <= MAX_RELATIVE_DEPTH {
                        depth = depth + 1;
                    }
                    at = relative.parent;
                    proof {
                        assert(!rooted(relatives, parent, n));
                        if n == end {
                            assert(false);
                        }
                        n = n + 1;
                    }
                },
                None => {
                    assert(rooted(relatives, parent, n));
                    break;
                },
            }
        }
        proof {
            lemma_height(relatives, parent, n);
            assert(!above(relatives, parent, key)) by {
                if above(relatives, parent, key) {
                    let m = choose|m: nat| #[trigger] up(relatives, parent, m) == key;
                    if m >= n {
                        lemma_rooted_stays(relatives, parent, n, m);
                    }
                }
            }
        }
        if depth > MAX_RELATIVE_DEPTH {
            return Some(Refusal::TooDeep);
        }
        None
    }

    /// Forget the anchored placements that go by `key`.
    fn unplace(&mut self, key: PlacementKey)
        requires
            old(self).wf(),
        ensures
            final(self).wf(),
            final(self)@ == old(self)@.unplaced(key),
            final(self).order() == old(self).order(),
    {
        let ghost before = self@;
        let mut i: usize = 0;
        while i < self.placed.len()
            invariant
                self.wf(),
                self.order() == old(self).order(),
                i <= self.placed.list().len(),
                before.wf(),
                self@ == (Laid { placed: self@.placed, ..before }),
                self@.placed.submap_of(before.placed),
                forall|anchor: u32| #[trigger]
                    before.placed.contains_key(anchor) && before.placed[anchor].named() != key
                        ==> self@.placed.contains_key(anchor),
                forall|j: int| 0 <= j < i ==> (#[trigger] self.placed.list()[j]).1.named() != key,
            decreases self.placed.list().len() - i,
        {
            let (anchor, placed) = self.placed.entry(i);
            if placed.key() == key {
                let ghost list = self.placed.list();
                let _ = self.placed.remove_at(i);
                proof {
                    assert forall|j: int| 0 <= j < i implies (
                    #[trigger] self.placed.list()[j]).1.named() != key by {
                        assert(self.placed.list()[j] == list[j]);
                    }
                }
            } else {
                i = i + 1;
            }
        }
        proof {
            self.placed.lemma_list();
            assert forall|anchor: u32| #[trigger] self@.placed.contains_key(anchor) implies
                self@.placed[anchor].named()
                != key by {
                let at = table::place_of(self.placed.list(), anchor);
                assert(self.placed.list()[at].1.named() != key);
            }
            assert forall|anchor: u32| self@.placed.contains_key(anchor) == (
            before.placed.contains_key(anchor) && before.placed[anchor].named() != key) by {}
            let after = before.unplaced(key).placed;
            assert forall|anchor: u32| self@.placed.dom().contains(anchor)
                == after.dom().contains(anchor) by {
                assert(after.dom().contains(anchor) == (before.placed.contains_key(anchor)
                    && before.placed[anchor].named() != key));
                if self@.placed.contains_key(anchor) {
                    assert(before.placed.contains_key(anchor));
                    assert(before.placed[anchor].named() != key);
                }
            }
            assert(self@.placed.dom() =~= after.dom());
            assert(self@.placed =~= after);
        }
    }

    /// Hang a placement off the parent it names.
    pub fn relate(&mut self, display: Display, extent: Option<Extent>) -> (done: Result<
        (),
        Refusal,
    >)
        requires
            old(self).wf(),
        ensures
            final(self).wf(),
            done == (match old(self)@.refusal(display) {
                Some(refusal) => Err::<(), Refusal>(refusal),
                None => Ok(()),
            }),
            final(self)@ == (if done is Ok && extent is Some {
                old(self)@.related(display, extent->0)
            } else {
                old(self)@
            }),
    {
        if let Some(refusal) = self.refused(&display) {
            return Err(refusal);
        }
        let Some(extent) = extent else {
            return Ok(());
        };
        let key = PlacementKey { image: display.image, placement: display.placement };
        let relative = Relative {
            parent: PlacementKey {
                image: display.parent_image,
                placement: display.parent_placement,
            },
            offset: (display.parent_offset_x, display.parent_offset_y),
            cols: extent.cols,
            rows: extent.rows,
            frame: extent.frame,
            source: extent.source,
            z: display.z,
        };
        proof {
            relating_keeps_chains_ending(self@.relatives, key, relative);
        }
        self.unplace(key);
        let _ = self.virtuals.remove(key);
        self.relatives.insert(key, relative);
        Ok(())
    }

    /// Put a placement where its display asks: off its parent, in the cells of
    /// its placeholders, or at the cursor of a grid of `columns` by `lines`.
    /// The last is left to the grid, which is told the cells to cover.
    ///
    /// A placement replaces the one the image already has under the same
    /// placement id, zero included.
    pub fn place(
        &mut self,
        display: Display,
        extent: Option<Extent>,
        columns: u16,
        lines: u16,
    ) -> (done: Result<Option<Covered>, Refusal>)
        requires
            old(self).wf(),
            columns >= 1,
            lines >= 1,
        ensures
            final(self).wf(),
            done == old(self)@.covered(display, extent, columns, lines),
            final(self)@ == old(self)@.after(display, extent),
    {
        if display.parent_image != 0 {
            return match self.relate(display, extent) {
                Ok(()) => Ok(None),
                Err(refusal) => Err(refusal),
            };
        }
        let Some(extent) = extent else {
            return Ok(None);
        };
        let key = PlacementKey { image: display.image, placement: display.placement };
        let ghost before = self@;
        let _ = self.relatives.remove(key);
        proof {
            removal_keeps_chains_ending(self@.relatives, before.relatives);
        }
        if display.unicode {
            self.virtuals.insert(
                key,
                Virtual {
                    cols: extent.cols,
                    rows: extent.rows,
                    frame: extent.frame,
                    source: extent.source,
                    z: display.z,
                },
            );
            return Ok(None);
        }
        Ok(
            Some(
                Covered {
                    cols: clamp(extent.cols, columns),
                    rows: clamp(extent.rows, lines),
                    frame: extent.frame,
                    source: extent.source,
                },
            ),
        )
    }

    /// The anchor id for a new placement. It takes the place of the one the
    /// image had under the same placement id, and of whatever wore the id
    /// last: ids are reused once the ring wraps.
    pub fn claim(&mut self, display: Display) -> (anchor: u32)
        requires
            old(self).wf(),
        ensures
            final(self).wf(),
            anchor == old(self)@.next_anchor % ANCHOR_MAX,
            final(self)@ == old(self)@.claimed(display.named()),
    {
        let key = PlacementKey { image: display.image, placement: display.placement };
        self.unplace(key);
        let anchor = self.next_anchor % ANCHOR_MAX;
        self.next_anchor = anchor + 1;
        let _ = self.placed.remove(anchor);
        anchor
    }

    /// Remember what the placement under `anchor` is.
    pub fn settle(&mut self, anchor: u32, display: Display, covered: Covered)
        requires
            old(self).wf(),
            anchor < ANCHOR_MAX,
        ensures
            final(self).wf(),
            final(self)@ == old(self)@.settled(anchor, display, covered),
    {
        self.placed.insert(
            anchor,
            Placed {
                image: display.image,
                placement: display.placement,
                cols: covered.cols,
                rows: covered.rows,
                frame: covered.frame,
                source: covered.source,
                z: display.z,
            },
        );
        proof {
            assert forall|other: u32| #[trigger] self@.placed.contains_key(other) implies other
                < ANCHOR_MAX by {
                if other != anchor {
                    assert(old(self)@.placed.contains_key(other));
                }
            }
        }
    }

    /// The marks still worth keeping on a cell: those that are no anchor, then
    /// the pairs of placements still live.
    pub fn kept(&self, marks: &[char]) -> (kept: Vec<char>)
        requires
            self.wf(),
        ensures
            kept@ == self@.keeps(marks@),
    {
        let mut kept: Vec<char> = Vec::new();
        let mut i: usize = 0;
        assert(marks@.subrange(0, 0).filter(|mark: char| !anchors::anchors(mark)) =~= Seq::empty())
            by {
            reveal(Seq::filter);
        }
        while i < marks.len()
            invariant
                i <= marks.len(),
                kept@ == anchors::plain(marks@.subrange(0, i as int)),
            decreases marks.len() - i,
        {
            proof {
                reveal(Seq::filter);
                assert(marks@.subrange(0, i + 1).drop_last() =~= marks@.subrange(0, i as int));
            }
            if !is_anchor(marks[i]) {
                kept.push(marks[i]);
            }
            i = i + 1;
        }
        assert(marks@.subrange(0, i as int) =~= marks@);
        let pairs = anchor_pairs(marks);
        let mut j: usize = 0;
        assert(kept@ + live(self@.placed, pairs@, 0) =~= kept@);
        while j < pairs.len()
            invariant
                self.wf(),
                j <= pairs@.len(),
                pairs@ == anchors::pairs(marks@),
                kept@ == anchors::plain(marks@) + live(self@.placed, pairs@, j as int),
            decreases pairs@.len() - j,
        {
            let (anchor, column) = pairs[j];
            let ghost before = kept@;
            proof {
                lemma_pairs_bounded(marks@, marks@.len() as int, j as int);
            }
            if self.placed.contains(anchor) {
                if let Some(mark) = char::from_u32(ANCHOR + anchor) {
                    proof {
                        anchors::lemma_char_of(mark);
                    }
                    kept.push(mark);
                }
                if let Some(column) = column {
                    if let Some(mark) = char::from_u32(ANCHOR_COLUMN + column as u32) {
                        proof {
                            anchors::lemma_char_of(mark);
                        }
                        kept.push(mark);
                    }
                }
                proof {
                    assert(kept@ =~= before + pair_marks(anchor, column));
                }
            }
            j = j + 1;
            proof {
                assert(kept@ =~= anchors::plain(marks@) + live(self@.placed, pairs@, j as int));
            }
        }
        kept
    }
}

/// Whether `key` is the virtual placement of `image` with the lowest id.
pub open spec fn is_lowest(
    virtuals: Map<PlacementKey, Virtual>,
    image: u32,
    key: PlacementKey,
) -> bool {
    &&& virtuals.contains_key(key)
    &&& key.image == image
    &&& forall|other: PlacementKey| #[trigger]
        virtuals.contains_key(other) && other.image == image ==> key.placement <= other.placement
}

impl Placements {
    /// The anchored placement under `anchor`.
    pub fn placed_under(&self, anchor: u32) -> (placed: Option<Placed>)
        requires
            self.wf(),
        ensures
            placed is Some <==> self@.placed.contains_key(anchor),
            placed is Some ==> placed->0 == self@.placed[anchor],
    {
        self.placed.get(anchor)
    }

    /// The virtual placement that goes by `key`.
    pub fn virtual_named(&self, key: PlacementKey) -> (found: Option<Virtual>)
        requires
            self.wf(),
        ensures
            found is Some <==> self@.virtuals.contains_key(key),
            found is Some ==> found->0 == self@.virtuals[key],
    {
        self.virtuals.get(key)
    }

    /// Whether there is any virtual placement.
    pub fn has_virtuals(&self) -> (yes: bool)
        requires
            self.wf(),
        ensures
            yes == exists|key: PlacementKey| #[trigger] self@.virtuals.contains_key(key),
    {
        proof {
            self.virtuals.lemma_list();
            if self.virtuals.list().len() > 0 {
                table::lemma_entry(self.virtuals.list(), 0);
                assert(self@.virtuals.contains_key(self.virtuals.list()[0].0));
            }
        }
        self.virtuals.len() > 0
    }

    /// The virtual placement of `image` with the lowest id.
    pub fn lowest_virtual(&self, image: u32) -> (lowest: Option<PlacementKey>)
        requires
            self.wf(),
        ensures
            lowest matches Some(key) ==> is_lowest(self@.virtuals, image, key),
            lowest is None ==> forall|key: PlacementKey| #[trigger]
                self@.virtuals.contains_key(key) ==> key.image != image,
    {
        let mut lowest: Option<PlacementKey> = None;
        let mut i: usize = 0;
        while i < self.virtuals.len()
            invariant
                self.wf(),
                i <= self.virtuals.list().len(),
                lowest matches Some(key) ==> self@.virtuals.contains_key(key) && key.image == image,
                forall|j: int|
                    0 <= j < i && (#[trigger] self.virtuals.list()[j]).0.image == image ==> (
                    lowest matches Some(key) && key.placement
                        <= self.virtuals.list()[j].0.placement),
            decreases self.virtuals.list().len() - i,
        {
            let (key, _) = self.virtuals.entry(i);
            if key.image == image {
                lowest =
                match lowest {
                    Some(held) => if held.placement <= key.placement {
                        Some(held)
                    } else {
                        Some(key)
                    },
                    None => Some(key),
                };
            }
            i = i + 1;
        }
        proof {
            self.virtuals.lemma_list();
            let list = self.virtuals.list();
            assert forall|key: PlacementKey| #[trigger]
                self@.virtuals.contains_key(key) && key.image == image implies (
            lowest matches Some(held) && held.placement <= key.placement) by {
                let at = table::place_of(list, key);
                assert(list[at].0 == key);
            }
        }
        lowest
    }

    /// The relative placement that goes by `key`.
    pub fn relative_named(&self, key: PlacementKey) -> (found: Option<Relative>)
        requires
            self.wf(),
        ensures
            found is Some <==> self@.relatives.contains_key(key),
            found is Some ==> found->0 == self@.relatives[key],
    {
        self.relatives.get(key)
    }

    /// How many relative placements there are.
    pub fn relative_count(&self) -> (n: usize)
        ensures
            n == self.order().len(),
    {
        self.relatives.len()
    }

    /// The relative placement at a place in the order.
    pub fn relative_at(&self, i: usize) -> (entry: (PlacementKey, Relative))
        requires
            self.wf(),
            i < self.order().len(),
        ensures
            entry == self.order()[i as int],
            self@.relatives.contains_key(entry.0),
            self@.relatives[entry.0] == entry.1,
    {
        self.relatives.entry(i)
    }

    /// How many anchored placements there are.
    pub fn placed_count(&self) -> (n: usize)
        ensures
            n == self.anchors().len(),
    {
        self.placed.len()
    }

    /// The anchored placements, in the order they are looked at.
    pub closed spec fn anchors(&self) -> Seq<(u32, Placed)> {
        self.placed.list()
    }

    /// The anchored placement at a place in the order.
    pub fn placed_at(&self, i: usize) -> (entry: (u32, Placed))
        requires
            self.wf(),
            i < self.anchors().len(),
        ensures
            entry == self.anchors()[i as int],
            self@.placed.contains_key(entry.0),
            self@.placed[entry.0] == entry.1,
    {
        self.placed.entry(i)
    }

    /// The virtual placements, in the order they are looked at.
    pub closed spec fn boxes(&self) -> Seq<(PlacementKey, Virtual)> {
        self.virtuals.list()
    }

    /// How many virtual placements there are.
    pub fn virtual_count(&self) -> (n: usize)
        ensures
            n == self.boxes().len(),
    {
        self.virtuals.len()
    }

    /// The virtual placement at a place in the order.
    pub fn virtual_at(&self, i: usize) -> (entry: (PlacementKey, Virtual))
        requires
            self.wf(),
            i < self.boxes().len(),
        ensures
            entry == self.boxes()[i as int],
            self@.virtuals.contains_key(entry.0),
            self@.virtuals[entry.0] == entry.1,
    {
        self.virtuals.entry(i)
    }

    /// The placements are listed once each.
    pub proof fn lemma_lists(&self)
        requires
            self.wf(),
        ensures
            table::distinct(self.anchors()),
            self@.placed == table::mapped(self.anchors()),
            table::distinct(self.boxes()),
            self@.virtuals == table::mapped(self.boxes()),
    {
        self.placed.lemma_list();
        self.virtuals.lemma_list();
    }

    /// Forget the anchored placement under `anchor`.
    pub fn drop_placed(&mut self, anchor: u32) -> (placed: Option<Placed>)
        requires
            old(self).wf(),
        ensures
            final(self).wf(),
            final(self)@ == (Laid { placed: old(self)@.placed.remove(anchor), ..old(self)@ }),
            placed is Some <==> old(self)@.placed.contains_key(anchor),
            placed is Some ==> placed->0 == old(self)@.placed[anchor],
            final(self).boxes() == old(self).boxes(),
    {
        self.placed.remove(anchor)
    }

    /// Forget the virtual placement at a place in the order.
    pub fn drop_virtual_at(&mut self, i: usize) -> (key: PlacementKey)
        requires
            old(self).wf(),
            i < old(self).boxes().len(),
        ensures
            final(self).wf(),
            key == old(self).boxes()[i as int].0,
            final(self).boxes() == old(self).boxes().remove(i as int),
            old(self)@.virtuals.contains_key(key),
            final(self)@ == (Laid { virtuals: old(self)@.virtuals.remove(key), ..old(self)@ }),
    {
        let (key, _) = self.virtuals.remove_at(i);
        key
    }

    /// Forget the relative placement that goes by `key`.
    pub fn drop_relative(&mut self, key: PlacementKey) -> (gone: bool)
        requires
            old(self).wf(),
        ensures
            final(self).wf(),
            final(self)@ == (Laid { relatives: old(self)@.relatives.remove(key), ..old(self)@ }),
            gone == old(self)@.relatives.contains_key(key),
            gone ==> final(self).order().len() < old(self).order().len(),
    {
        let gone = self.relatives.remove(key).is_some();
        proof {
            removal_keeps_chains_ending(self@.relatives, old(self)@.relatives);
        }
        gone
    }

    /// The relative placements are listed once each.
    pub proof fn lemma_order(&self)
        requires
            self.wf(),
        ensures
            table::distinct(self.order()),
            self@.relatives == table::mapped(self.order()),
    {
        self.relatives.lemma_list();
    }
}

/// A number of cells, at least one and at most `most`.
fn clamp(n: u16, most: u16) -> (clamped: u16)
    requires
        most >= 1,
    ensures
        clamped == clamped_to(n, most),
{
    if n < 1 {
        1
    } else if n > most {
        most
    } else {
        n
    }
}

/// A number of cells, at least one and at most `most`.
pub open spec fn clamped_to(n: u16, most: u16) -> u16 {
    if n < 1 {
        1
    } else if n > most {
        most
    } else {
        n
    }
}

/// The cells an anchored placement covers, with its frame and source.
#[derive(Debug, Clone, Copy, PartialEq, Eq, Structural)]
pub struct Covered {
    pub cols: u16,
    pub rows: u16,
    pub frame: Frame,
    pub source: Source,
}

impl Laid {
    /// The cells a display covers at the cursor of a grid of `columns` by
    /// `lines`, if it goes there.
    pub open spec fn covered(
        self,
        display: Display,
        extent: Option<Extent>,
        columns: u16,
        lines: u16,
    ) -> Result<Option<Covered>, Refusal> {
        if display.parent_image != 0 {
            match self.refusal(display) {
                Some(refusal) => Err(refusal),
                None => Ok(None),
            }
        } else if display.unicode || extent is None {
            Ok(None)
        } else {
            Ok(
                Some(
                    Covered {
                        cols: clamped_to(extent->0.cols, columns),
                        rows: clamped_to(extent->0.rows, lines),
                        frame: extent->0.frame,
                        source: extent->0.source,
                    },
                ),
            )
        }
    }

    /// The placements once a display has been asked for, but for what only
    /// the grid can do.
    pub open spec fn after(self, display: Display, extent: Option<Extent>) -> Laid {
        let key = display.named();
        match extent {
            None => self,
            Some(extent) => if display.parent_image != 0 {
                if self.refusal(display) is None {
                    self.related(display, extent)
                } else {
                    self
                }
            } else if display.unicode {
                Laid {
                    relatives: self.relatives.remove(key),
                    virtuals: self.virtuals.insert(
                        key,
                        Virtual {
                            cols: extent.cols,
                            rows: extent.rows,
                            frame: extent.frame,
                            source: extent.source,
                            z: display.z,
                        },
                    ),
                    ..self
                }
            } else {
                Laid { relatives: self.relatives.remove(key), ..self }
            },
        }
    }

    /// The placements once an anchor id is claimed for `key`.
    pub open spec fn claimed(self, key: PlacementKey) -> Laid {
        let anchor = self.next_anchor % ANCHOR_MAX;
        let unplaced = self.unplaced(key);
        Laid {
            placed: unplaced.placed.remove(anchor),
            next_anchor: (anchor + 1) as u32,
            ..unplaced
        }
    }

    /// The placements with a new one under `anchor`.
    pub open spec fn settled(self, anchor: u32, display: Display, covered: Covered) -> Laid {
        Laid {
            placed: self.placed.insert(
                anchor,
                Placed {
                    image: display.image,
                    placement: display.placement,
                    cols: covered.cols,
                    rows: covered.rows,
                    frame: covered.frame,
                    source: covered.source,
                    z: display.z,
                },
            ),
            ..self
        }
    }

    /// The marks still worth keeping on a cell: those that are no anchor, then
    /// the pairs of placements still live.
    pub open spec fn keeps(self, marks: Seq<char>) -> Seq<char> {
        let pairs = anchors::pairs(marks);
        anchors::plain(marks) + live(self.placed, pairs, pairs.len() as int)
    }
}

/// The marks of a pair: an anchor, and the column behind it where it is known.
pub open spec fn pair_marks(anchor: u32, column: Option<usize>) -> Seq<char> {
    match column {
        Some(column) => seq![
            anchors::char_of(ANCHOR + anchor),
            anchors::char_of(ANCHOR_COLUMN + column),
        ],
        None => seq![anchors::char_of(ANCHOR + anchor)],
    }
}

/// The marks of the first `n` pairs, but for those of placements that are gone.
pub open spec fn live(
    placed: Map<u32, Placed>,
    pairs: Seq<(u32, Option<usize>)>,
    n: int,
) -> Seq<char>
    decreases n,
{
    if n <= 0 {
        Seq::empty()
    } else if placed.contains_key(pairs[n - 1].0) {
        live(placed, pairs, n - 1) + pair_marks(pairs[n - 1].0, pairs[n - 1].1)
    } else {
        live(placed, pairs, n - 1)
    }
}

/// What a pair names is in range.
pub proof fn lemma_pairs_bounded(marks: Seq<char>, n: int, j: int)
    requires
        0 <= n <= marks.len(),
        0 <= j < anchors::pairs_to(marks, n).len(),
    ensures
        anchors::pairs_to(marks, n)[j].0 < ANCHOR_MAX,
        anchors::pairs_to(marks, n)[j].1 matches Some(column) ==> column
            < anchors::ANCHOR_COLUMN_MAX,
    decreases n,
{
    if n > 0 && j < anchors::pairs_to(marks, n - 1).len() {
        lemma_pairs_bounded(marks, n - 1, j);
    }
}

/// Whether no two anchored placements go by one name.
pub open spec fn one_each(placed: Map<u32, Placed>) -> bool {
    forall|a: u32, b: u32|
        #![trigger placed.contains_key(a), placed.contains_key(b)]
        placed.contains_key(a) && placed.contains_key(b) && placed[a].named() == placed[b].named()
            ==> a == b
}

/// A placement replaces the one its image has under the same placement id, zero
/// included: it is then the only one on the grid by that name, and where no
/// name was used twice before, none is after.
pub proof fn a_name_is_placed_once(laid: Laid, display: Display, covered: Covered)
    ensures
        ({
            let anchor = (laid.next_anchor % ANCHOR_MAX) as u32;
            let after = laid.claimed(display.named()).settled(anchor, display, covered);
            &&& after.placed.contains_key(anchor)
            &&& after.placed[anchor].named() == display.named()
            &&& forall|other: u32| #[trigger]
                after.placed.contains_key(other) && after.placed[other].named()
                    == display.named() ==> other == anchor
            &&& one_each(laid.placed) ==> one_each(after.placed)
        }),
{
}

/// What hangs off a parent is nowhere else: no anchored placement goes by its
/// name any more, and no virtual one.
pub proof fn a_relative_is_placed_nowhere_else(laid: Laid, display: Display, extent: Extent)
    ensures
        ({
            let after = laid.related(display, extent);
            &&& after.relatives.contains_key(display.named())
            &&& after.relatives[display.named()].parent == display.parent()
            &&& !after.virtuals.contains_key(display.named())
            &&& forall|anchor: u32| #[trigger]
                after.placed.contains_key(anchor) ==> after.placed[anchor].named()
                    != display.named()
        }),
{
}

} // verus!
