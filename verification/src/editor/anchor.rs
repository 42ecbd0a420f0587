//! Positions that outlive the edits under them.
//!
//! A comment or a highlight is anchored to a range of text, and that range has
//! to move when the text around it does. What it *says* — a thread's replies,
//! a highlight's note, who made either — is the app's. What is here is the
//! range, its wash, and what keeps it over the same words.
//!
//! Mapping is **left-sticky**: text typed at the end of a range joins it, text
//! typed at the start does not. Both ends take the same arithmetic, so there is
//! no bias to pick per end and no second rule to keep in step with the first.

use vstd::prelude::*;

use crate::markdown::doc::{Cursor, Part, Selection, Span};
use crate::markdown::overlay::Annotation;

verus! {

/// The app's key for a comment or a highlight. Opaque — nothing here looks
/// inside one.
#[derive(Debug, Clone, Copy, PartialEq, Eq, Hash, PartialOrd, Ord, Structural)]
pub struct AnchorId(pub u64);

/// A range in the document, and which wash it paints.
#[derive(Debug, Clone, Copy, PartialEq, Eq, Structural)]
pub struct Anchor {
    pub id: AnchorId,
    pub range: Selection,
    pub state: Annotation,
}

/// What one replacement did: the range that went, where the caret is after
/// it, and how many blocks the document grew by.
#[derive(Debug, Clone, Copy, PartialEq, Eq, Structural)]
pub struct Splice {
    pub removed: Selection,
    pub caret: Cursor,
    pub blocks: isize,
}

/// What one step of a mutation did to the positions in a document.
///
/// Every edit hands back a list of these, empty for an edit that moved
/// nothing. Silent is the one thing it must not be: an anchor mapped through
/// the wrong shift points at the wrong words and nothing complains.
#[derive(Debug, Clone, Copy, PartialEq, Eq, Structural)]
pub enum Delta {
    /// Text went in, out, or both.
    Spliced(Splice),
    /// A run of blocks left `at`, and arrived at `to` unless it went away.
    Moved { at: Span, to: Option<usize> },
    /// Blocks appeared at `at`, pushing everything from there down.
    Opened { at: usize, count: usize },
}

/// How many blocks a run holds.
pub open spec fn run_of(span: Span) -> int {
    if span.start <= span.end {
        span.end - span.start
    } else {
        0
    }
}

/// A place as plain numbers: a block, one of its texts, and a byte of that.
pub struct Place {
    pub block: int,
    pub part: Part,
    pub offset: int,
}

impl Place {
    /// Whether the numbers are ones a position can hold.
    pub open spec fn fits(self) -> bool {
        0 <= self.block <= usize::MAX && 0 <= self.offset <= usize::MAX
    }

    pub open spec fn cursor(self) -> Cursor {
        Cursor { block: self.block as usize, part: self.part, offset: self.offset as usize }
    }

    pub open spec fn of(at: Cursor) -> Place {
        Place { block: at.block as int, part: at.part, offset: at.offset as int }
    }
}

impl Delta {
    /// Where a position ends up, and none when the block under it went away.
    pub open spec fn place(self, at: Cursor) -> Option<Place> {
        match self {
            Delta::Spliced(splice) => {
                let (start, end) = splice.removed.ends();
                if at.before(start) {
                    Some(Place::of(at))
                } else if !end.before(at) {
                    // Inside what went, the seam is the only place left to be.
                    Some(Place::of(splice.caret))
                } else if at.block == end.block && at.part == end.part {
                    // Past it in the same text, the seam moved by what
                    // replaced it.
                    Some(
                        Place {
                            offset: splice.caret.offset + (at.offset - end.offset),
                            ..Place::of(splice.caret)
                        },
                    )
                } else if 0 <= at.block + splice.blocks <= usize::MAX {
                    // Further down the document, only the block count moved.
                    Some(Place { block: at.block + splice.blocks, ..Place::of(at) })
                } else {
                    None
                }
            },
            Delta::Moved { at: span, to } => if span.has(at.block as int) {
                match to {
                    Some(to) => Some(Place { block: to + (at.block - span.start), ..Place::of(at) }),
                    None => None,
                }
            } else {
                // Drained before it was put back, and `to` is already counted
                // against the hole that left — so this is too.
                let pulled = if at.block >= span.end {
                    at.block - run_of(span)
                } else {
                    at.block as int
                };
                let block = match to {
                    Some(to) => if pulled >= to {
                        pulled + run_of(span)
                    } else {
                        pulled
                    },
                    None => pulled,
                };
                Some(Place { block, ..Place::of(at) })
            },
            Delta::Opened { at: opened, count } => Some(
                Place {
                    block: if at.block >= opened {
                        at.block + count
                    } else {
                        at.block as int
                    },
                    ..Place::of(at)
                },
            ),
        }
    }

    /// Whether a position that ends up somewhere can be held there.
    pub open spec fn fits(self, at: Cursor) -> bool {
        self.place(at) matches Some(place) ==> place.fits()
    }

    /// Whether a position that ends up somewhere can be held there.
    pub fn holds(&self, at: Cursor) -> (yes: bool)
        ensures
            yes == self.fits(at),
    {
        match self {
            Delta::Spliced(splice) => {
                let (start, end) = splice.removed.ordered();
                if at.is_before(&start) || !end.is_before(&at) || at.block != end.block || at.part
                    != end.part {
                    true
                } else {
                    splice.caret.offset.checked_add(at.offset - end.offset).is_some()
                }
            },
            Delta::Moved { at: span, to } => {
                let Some(to) = to else {
                    return true;
                };
                if span.start <= at.block && at.block < span.end {
                    return to.checked_add(at.block - span.start).is_some();
                }
                let run = if span.start <= span.end {
                    span.end - span.start
                } else {
                    0
                };
                let pulled = if at.block >= span.end {
                    at.block - run
                } else {
                    at.block
                };
                pulled < *to || pulled.checked_add(run).is_some()
            },
            Delta::Opened { at: opened, count } => at.block < *opened || at.block.checked_add(
                *count,
            ).is_some(),
        }
    }

    /// Where a position ends up.
    pub open spec fn moved(self, at: Cursor) -> Option<Cursor> {
        match self.place(at) {
            Some(place) => Some(place.cursor()),
            None => None,
        }
    }

    /// Where `at` ends up, and `None` when the block under it went away.
    pub fn cursor(&self, at: Cursor) -> (to: Option<Cursor>)
        requires
            self.fits(at),
        ensures
            to == self.moved(at),
    {
        match self {
            Delta::Spliced(splice) => {
                let (start, end) = splice.removed.ordered();
                if at.is_before(&start) {
                    return Some(at);
                }
                if !end.is_before(&at) {
                    return Some(splice.caret);
                }
                if at.block == end.block && at.part == end.part {
                    return Some(
                        Cursor {
                            offset: splice.caret.offset + (at.offset - end.offset),
                            ..splice.caret
                        },
                    );
                }
                match at.block.checked_add_signed(splice.blocks) {
                    Some(block) => Some(Cursor { block, ..at }),
                    None => None,
                }
            },
            Delta::Moved { at: span, to } => {
                if span.start <= at.block && at.block < span.end {
                    return match to {
                        Some(to) => Some(Cursor { block: *to + (at.block - span.start), ..at }),
                        None => None,
                    };
                }
                let run = if span.start <= span.end {
                    span.end - span.start
                } else {
                    0
                };
                let pulled = if at.block >= span.end {
                    at.block - run
                } else {
                    at.block
                };
                let block = match to {
                    Some(to) => if pulled >= *to {
                        pulled + run
                    } else {
                        pulled
                    },
                    None => pulled,
                };
                Some(Cursor { block, ..at })
            },
            Delta::Opened { at: opened, count } => Some(
                Cursor {
                    block: if at.block >= *opened {
                        at.block + *count
                    } else {
                        at.block
                    },
                    ..at
                },
            ),
        }
    }
}

impl Anchor {
    pub fn new(id: AnchorId, range: Selection) -> (anchor: Anchor)
        ensures
            anchor == (Anchor { id, range, state: Annotation::Open }),
    {
        Anchor { id, range, state: Annotation::default() }
    }

    /// Whether the words this pointed at are gone.
    ///
    /// Detached rather than dropped: whether that reads as "outdated" or as
    /// "resolved" is the app's call, and deleting it here would take the choice
    /// away.
    pub fn detached(&self) -> (yes: bool)
        ensures
            yes == (self.range.anchor == self.range.head),
    {
        self.range.is_collapsed()
    }

    /// Whether both ends can be held where a delta puts them.
    #[verifier::opaque]
    pub open spec fn follows(self, delta: Delta) -> bool {
        delta.fits(self.range.ends().0) && delta.fits(self.range.ends().1)
    }

    /// The anchor after a delta: each end moved, the earlier one first. With
    /// one end gone there is no range left, and it is held at the other.
    #[verifier::opaque]
    pub open spec fn after(self, delta: Delta) -> Anchor {
        let (start, end) = self.range.ends();
        Anchor {
            range: match (delta.moved(start), delta.moved(end)) {
                (Some(start), Some(end)) => if end.before(start) {
                    Selection { anchor: end, head: start }
                } else {
                    Selection { anchor: start, head: end }
                },
                (Some(at), None) => Selection { anchor: at, head: at },
                (None, Some(at)) => Selection { anchor: at, head: at },
                (None, None) => {
                    let at = Cursor { block: 0, part: Part::Body, offset: 0 };
                    Selection { anchor: at, head: at }
                },
            },
            ..self
        }
    }

    pub fn map(&mut self, delta: &Delta)
        requires
            old(self).follows(*delta),
        ensures
            *final(self) == old(self).after(*delta),
    {
        reveal(Anchor::follows);
        reveal(Anchor::after);
        let (start, end) = self.range.ordered();
        self.range =
        match (delta.cursor(start), delta.cursor(end)) {
            (Some(start), Some(end)) => if end.is_before(&start) {
                Selection::new(end, start)
            } else {
                Selection::new(start, end)
            },
            (Some(at), None) => Selection::at(at),
            (None, Some(at)) => Selection::at(at),
            (None, None) => Selection::at(Cursor::default()),
        };
    }

    /// The anchor after the first `n` of some deltas.
    pub open spec fn after_all(self, deltas: Seq<Delta>, n: int) -> Anchor
        decreases n,
    {
        if n <= 0 {
            self
        } else {
            self.after_all(deltas, n - 1).after(deltas[n - 1])
        }
    }

    /// Whether the ends can be held where each of some deltas puts them.
    pub fn can_follow(&self, deltas: &Vec<Delta>) -> (yes: bool)
        ensures
            yes == self.follows_all(deltas@, deltas@.len() as int),
    {
        let mut after = *self;
        let mut n: usize = 0;
        while n < deltas.len()
            invariant
                n <= deltas@.len(),
                self.follows_all(deltas@, n as int),
                after == self.after_all(deltas@, n as int),
            decreases deltas@.len() - n,
        {
            reveal(Anchor::follows);
            let (start, end) = after.range.ordered();
            if !deltas[n].holds(start) || !deltas[n].holds(end) {
                assert(!self.after_all(deltas@, n as int).follows(deltas@[n as int]));
                return false;
            }
            after.map(&deltas[n]);
            n = n + 1;
        }
        true
    }

    /// Whether the ends can be held where each of the first `n` of some deltas
    /// puts them.
    pub open spec fn follows_all(self, deltas: Seq<Delta>, n: int) -> bool {
        forall|i: int| 0 <= i < n ==> self.after_all(deltas, i).follows(#[trigger] deltas[i])
    }
}

/// What is typed at a position: nothing went, and the caret is past it.
pub open spec fn typed(at: Cursor, n: nat) -> Delta {
    Delta::Spliced(
        Splice {
            removed: Selection { anchor: at, head: at },
            caret: Cursor { offset: (at.offset + n) as usize, ..at },
            blocks: 0,
        },
    )
}

/// Typing is left-sticky. What is ahead of it stays; what is past it in the
/// same text is carried along; text typed at the start of a range stays
/// outside it and text typed at its end joins it, since a position where the
/// typing was is past it afterwards. No other text moves.
pub proof fn typing_carries_what_follows(typed_at: Cursor, n: nat, at: Cursor)
    requires
        typed_at.offset + n <= usize::MAX,
        at.offset + n <= usize::MAX,
    ensures
        ({
            let same = at.block == typed_at.block && at.part == typed_at.part;
            typed(typed_at, n).moved(at) == Some(
                if same && at.offset >= typed_at.offset {
                    Cursor { offset: (at.offset + n) as usize, ..at }
                } else {
                    at
                },
            )
        }),
{
}

/// A range typed into keeps its start and gives way at its end; one typed at
/// keeps the words it had.
pub proof fn a_range_keeps_its_words(anchor: Anchor, typed_at: Cursor, n: nat)
    requires
        anchor.range.anchor.before(anchor.range.head),
        anchor.range.anchor.block == anchor.range.head.block,
        anchor.range.anchor.part == anchor.range.head.part,
        typed_at.block == anchor.range.anchor.block,
        typed_at.part == anchor.range.anchor.part,
        typed_at.offset + n <= usize::MAX,
        anchor.range.head.offset + n <= usize::MAX,
    ensures
        ({
            let (start, end) = (anchor.range.anchor, anchor.range.head);
            let after = anchor.after(typed(typed_at, n)).range;
            &&& after.anchor.offset == (if typed_at.offset <= start.offset {
                start.offset + n
            } else {
                start.offset as int
            })
            &&& after.head.offset == (if typed_at.offset <= end.offset {
                end.offset + n
            } else {
                end.offset as int
            })
            &&& after.anchor.block == start.block && after.head.block == start.block
        }),
{
    reveal(Anchor::after);
}

/// Text that went takes the positions in it to the seam: an anchor over nothing
/// but what went is detached.
pub proof fn a_range_whose_words_went_is_detached(anchor: Anchor, splice: Splice)
    requires
        !anchor.range.ends().0.before(splice.removed.ends().0),
        !splice.removed.ends().1.before(anchor.range.ends().1),
    ensures
        ({
            let after = anchor.after(Delta::Spliced(splice));
            after.range.anchor == splice.caret && after.range.head == splice.caret
        }),
{
    reveal(Anchor::after);
    let (start, end) = anchor.range.ends();
    crate::markdown::doc::positions_are_ordered(start, end, splice.removed.ends().1);
    crate::markdown::doc::positions_are_ordered(splice.removed.ends().0, start, end);
    crate::markdown::doc::positions_are_ordered(splice.removed.ends().1, end, start);
    crate::markdown::doc::positions_are_ordered(anchor.range.anchor, anchor.range.head, start);
    crate::markdown::doc::positions_are_ordered(end, start, splice.removed.ends().0);
}

/// An anchor with no words never gets any: detached, it stays so.
pub proof fn a_detached_anchor_stays_detached(anchor: Anchor, delta: Delta)
    requires
        anchor.range.anchor == anchor.range.head,
    ensures
        ({
            let after = anchor.after(delta);
            after.range.anchor == after.range.head
        }),
{
    reveal(Anchor::after);
    if let Some(at) = delta.moved(anchor.range.anchor) {
        crate::markdown::doc::positions_are_ordered(at, at, at);
    }
}

/// A block that moves takes its positions with it: the block is another, the
/// text and the byte the same.
pub proof fn a_moved_block_takes_its_positions(span: Span, to: usize, at: Cursor)
    requires
        span.has(at.block as int),
        to + (at.block - span.start) <= usize::MAX,
    ensures
        (Delta::Moved { at: span, to: Some(to) }).moved(at) == Some(
            Cursor { block: (to + (at.block - span.start)) as usize, ..at },
        ),
{
}

/// Moving blocks there and back leaves every position where it was.
pub proof fn a_move_can_be_undone(span: Span, to: usize, at: Cursor)
    requires
        span.start < span.end,
        to + (span.end - span.start) <= usize::MAX,
        at.block + (span.end - span.start) <= usize::MAX,
    ensures
        ({
            let there = Delta::Moved { at: span, to: Some(to) };
            let back = Delta::Moved {
                at: Span { start: to, end: (to + (span.end - span.start)) as usize },
                to: Some(span.start),
            };
            there.moved(at) matches Some(moved) && back.moved(moved) == Some(at)
        }),
{
}

} // verus!
