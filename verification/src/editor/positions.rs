//! Where an edit leaves the positions in a document, and the past it leaves
//! behind it.

use vstd::prelude::*;

use crate::editor::anchor::{Anchor, Delta, Splice};
use crate::editor::history::{EditKind, Past, Step, DEFAULT_UNDO_LIMIT};
use crate::editor::surface::Editor;
use crate::editor::typing;
use crate::markdown::doc::{Cursor, Doc, Part, Selection, Span};

verus! {

/// A replacement leaves what is ahead of it, closes what it took up to the
/// caret, and keeps what follows in the same text as far behind the caret as it
/// was behind the end of what went. Another text below is in a block further
/// down by as many as the document grew, its byte the same.
pub proof fn a_replacement_moves_what_follows_it(splice: Splice, start: Cursor, end: Cursor, at: Cursor)
    requires
        !end.before(start),
        splice.removed == (Selection { anchor: start, head: end }) || splice.removed == (
        Selection { anchor: end, head: start }),
        at.offset + splice.caret.offset <= usize::MAX,
        0 <= at.block + splice.blocks <= usize::MAX,
    ensures
        ({
            let moved = Delta::Spliced(splice).moved(at);
            &&& at.before(start) ==> moved == Some(at)
            &&& !at.before(start) && !end.before(at) ==> moved == Some(splice.caret)
            &&& end.before(at) && at.block == end.block && at.part == end.part ==> (
            moved matches Some(to) && to.block == splice.caret.block && to.part
                == splice.caret.part && to.offset - splice.caret.offset == at.offset - end.offset)
            &&& end.before(at) && !(at.block == end.block && at.part == end.part) ==> (
            moved matches Some(to) && to.block - at.block == splice.blocks && to.part == at.part
                && to.offset == at.offset)
        }),
{
    crate::markdown::doc::positions_are_ordered(start, end, at);
    crate::markdown::doc::positions_are_ordered(end, start, at);
}

/// A document that shrank past a position's block has no place left for it.
pub proof fn a_position_past_what_is_left_goes_away(splice: Splice, at: Cursor)
    requires
        splice.removed.ends().1.before(at),
        at.block != splice.removed.ends().1.block,
        at.block + splice.blocks < 0,
    ensures
        Delta::Spliced(splice).moved(at) is None,
{
    crate::markdown::doc::positions_are_ordered(
        splice.removed.anchor,
        splice.removed.head,
        splice.removed.anchor,
    );
    crate::markdown::doc::positions_are_ordered(
        splice.removed.ends().0,
        splice.removed.ends().1,
        at,
    );
}

/// Blocks that open push down what was there and everything below it, and
/// nothing above.
pub proof fn blocks_that_open_push_down_the_rest(opened: usize, count: usize, at: Cursor)
    requires
        at.block + count <= usize::MAX,
    ensures
        ({
            let moved = (Delta::Opened { at: opened, count }).moved(at);
            &&& moved matches Some(to) && to.part == at.part && to.offset == at.offset
            &&& at.block < opened ==> moved->0.block == at.block
            &&& at.block >= opened ==> moved->0.block == at.block + count
        }),
{
}

/// Blocks that go take their positions with them, and pull up what is below.
pub proof fn blocks_that_go_pull_up_the_rest(span: Span, at: Cursor)
    requires
        span.start <= span.end,
    ensures
        ({
            let moved = (Delta::Moved { at: span, to: None }).moved(at);
            &&& moved is None <==> span.start <= at.block < span.end
            &&& at.block < span.start ==> moved == Some(at)
            &&& at.block >= span.end ==> (moved matches Some(to) && to.part == at.part && to.offset
                == at.offset && to.block == at.block - (span.end - span.start))
        }),
{
}

/// Blocks that move change places with those they pass, and leave the rest: a
/// run carried down comes behind what it passed, and one carried up before it.
pub proof fn blocks_that_move_pass_the_others(span: Span, to: usize, at: Cursor)
    requires
        span.start < span.end,
        to + (span.end - span.start) <= usize::MAX,
        at.block + (span.end - span.start) <= usize::MAX,
    ensures
        ({
            let count = span.end - span.start;
            let moved = (Delta::Moved { at: span, to: Some(to) }).moved(at);
            &&& moved matches Some(there) && there.part == at.part && there.offset == at.offset
            &&& span.start <= at.block < span.end ==> moved->0.block - to == at.block - span.start
            &&& at.block < span.start && at.block < to ==> moved->0.block == at.block
            &&& at.block < span.start && at.block >= to ==> moved->0.block == at.block + count
            &&& at.block >= span.end && at.block - count < to ==> moved->0.block == at.block - count
            &&& at.block >= span.end && at.block - count >= to ==> moved->0.block == at.block
        }),
{
}

/// An anchor keeps its name and its wash through every change, and its range is
/// between where its two ends went, the earlier one first. With one end gone it
/// is held at the other.
pub proof fn an_anchor_goes_where_its_ends_go(anchor: Anchor, delta: Delta)
    ensures
        ({
            let after = anchor.after(delta);
            let (from, to) = (
                delta.moved(anchor.range.anchor),
                delta.moved(anchor.range.head),
            );
            &&& after.id == anchor.id && after.state == anchor.state
            &&& !after.range.head.before(after.range.anchor)
            &&& from matches Some(a) ==> to matches Some(b) ==> (after.range.anchor == a
                && after.range.head == b) || (after.range.anchor == b && after.range.head == a)
            &&& from matches Some(a) ==> to is None ==> after.range.anchor == a && after.range.head
                == a
            &&& to matches Some(b) ==> from is None ==> after.range.anchor == b && after.range.head
                == b
        }),
{
    reveal(Anchor::after);
    let after = anchor.after(delta);
    crate::markdown::doc::positions_are_ordered(
        after.range.anchor,
        after.range.head,
        after.range.anchor,
    );
}

/// The steps of an edit are followed one after another: with one more, an
/// anchor is where that one takes it from where the others left it, and with
/// none it is where it was.
pub proof fn an_anchor_follows_each_step_in_turn(anchor: Anchor, deltas: Seq<Delta>, delta: Delta)
    ensures
        anchor.after_all(Seq::empty(), 0) == anchor,
        anchor.after_all(deltas.push(delta), (deltas.len() + 1) as int) == anchor.after_all(
            deltas,
            deltas.len() as int,
        ).after(delta),
{
    let all = deltas.push(delta);
    lemma_same_steps(anchor, all, deltas, deltas.len() as int);
}

proof fn lemma_same_steps(anchor: Anchor, a: Seq<Delta>, b: Seq<Delta>, n: int)
    requires
        n <= a.len(),
        n <= b.len(),
        forall|i: int| 0 <= i < n ==> a[i] == b[i],
    ensures
        anchor.after_all(a, n) == anchor.after_all(b, n),
    decreases n,
{
    if n > 0 {
        lemma_same_steps(anchor, a, b, n - 1);
    }
}

/// Every anchor is taken through the whole of an edit, and none is lost or put
/// in another's place.
pub proof fn each_anchor_is_taken_through_an_edit(anchors: Seq<Anchor>, deltas: Seq<Delta>, i: int)
    requires
        0 <= i < anchors.len(),
    ensures
        crate::editor::surface::mapped(anchors, deltas).len() == anchors.len(),
        crate::editor::surface::mapped(anchors, deltas)[i] == anchors[i].after_all(
            deltas,
            deltas.len() as int,
        ),
{
}

/// Bytes taken out of a text close up: what was in them is at the seam, what
/// followed comes back by as many, and what was ahead and every other text stay
/// where they are.
pub proof fn bytes_taken_out_close_up(text: Cursor, range: Span, at: Cursor)
    requires
        range.start <= range.end,
    ensures
        ({
            let moved = typing::taken_from(text, range).moved(at);
            let same = at.block == text.block && at.part == text.part;
            &&& !same ==> moved == Some(at)
            &&& moved matches Some(to) && to.block == at.block && to.part == at.part
            &&& same && at.offset <= range.start ==> moved->0.offset == at.offset
            &&& same && range.start <= at.offset <= range.end ==> moved->0.offset == range.start
            &&& same && at.offset >= range.end ==> moved->0.offset == at.offset - (range.end
                - range.start)
        }),
{
}

/// A split leaves what is ahead of the caret, starts the new block with what
/// followed it, and pushes everything below down by one.
pub proof fn a_split_carries_what_follows_into_its_own_block(at: Cursor, new: usize, other: Cursor)
    requires
        other.block < usize::MAX,
    ensures
        Editor::splitting(None, at, new).len() == 1,
        ({
            let moved = Editor::splitting(None, at, new)[0].moved(other);
            let same = other.block == at.block && other.part == at.part;
            &&& other.before(at) ==> moved == Some(other)
            &&& same && other.offset >= at.offset ==> moved == Some(
                Cursor { block: new, part: Part::Body, offset: (other.offset - at.offset) as usize },
            )
            &&& other.block > at.block ==> moved == Some(
                Cursor { block: (other.block + 1) as usize, ..other },
            )
        }),
        forall|cleared: Splice| #[trigger]
            Editor::splitting(Some(cleared), at, new) == seq![Delta::Spliced(cleared)]
                + Editor::splitting(None, at, new),
{
    crate::markdown::doc::positions_are_ordered(at, other, at);
    assert forall|cleared: Splice| #[trigger]
        Editor::splitting(Some(cleared), at, new) == seq![Delta::Spliced(cleared)]
            + Editor::splitting(None, at, new) by {
        assert(Editor::splitting(Some(cleared), at, new) =~= seq![Delta::Spliced(cleared)]
            + Editor::splitting(None, at, new));
    }
}

/// A merge at the start of a block puts what the caret was ahead of where the
/// caret landed, and pulls up everything below by as many blocks as went.
pub proof fn a_merge_joins_what_follows_to_where_it_landed(
    before: Editor,
    doc: Doc,
    head: Cursor,
    other: Cursor,
)
    requires
        head.before(before.selection.head),
        before.doc.blocks@.len() <= isize::MAX,
        doc.blocks@.len() <= before.doc.blocks@.len(),
        other.block < before.doc.blocks@.len(),
        other.offset + head.offset <= usize::MAX,
        before.doc.blocks@.len() - doc.blocks@.len() <= before.selection.head.block,
    ensures
        Editor::merging(before, doc, None).len() == 0,
        Editor::merging(before, doc, Some(head)).len() == 1,
        ({
            let caret = before.selection.head;
            let moved = Editor::merging(before, doc, Some(head))[0].moved(other);
            let same = other.block == caret.block && other.part == caret.part;
            &&& other.before(head) ==> moved == Some(other)
            &&& same && other.offset >= caret.offset ==> moved == Some(
                Cursor { offset: (head.offset + (other.offset - caret.offset)) as usize, ..head },
            )
            &&& other.block > caret.block ==> (moved matches Some(to) && to.part == other.part
                && to.offset == other.offset && to.block == other.block - (
            before.doc.blocks@.len() - doc.blocks@.len()))
        }),
{
    let caret = before.selection.head;
    crate::markdown::doc::positions_are_ordered(head, caret, other);
    crate::markdown::doc::positions_are_ordered(caret, other, head);
    crate::markdown::doc::positions_are_ordered(other, head, caret);
}

/// Rebuilding what is selected closes it up to where the caret is put, and
/// moves everything in the blocks below by as many as the document grew.
pub proof fn rebuilding_moves_the_blocks_below(
    before: Editor,
    doc: Doc,
    head: Cursor,
    other: Cursor,
)
    requires
        before.doc.blocks@.len() <= isize::MAX,
        doc.blocks@.len() <= isize::MAX,
        0 <= other.block + (doc.blocks@.len() - before.doc.blocks@.len()) <= usize::MAX,
    ensures
        ({
            let (start, end) = before.selection.ends();
            let moved = Editor::rebuilding(before, doc, head).moved(other);
            &&& other.before(start) ==> moved == Some(other)
            &&& !other.before(start) && !end.before(other) ==> moved == Some(head)
            &&& other.block > end.block ==> (moved matches Some(to) && to.part == other.part
                && to.offset == other.offset && to.block - other.block == doc.blocks@.len()
                - before.doc.blocks@.len())
        }),
{
    let (start, end) = before.selection.ends();
    crate::markdown::doc::positions_are_ordered(start, end, other);
    crate::markdown::doc::positions_are_ordered(end, other, start);
    crate::markdown::doc::positions_are_ordered(
        before.selection.anchor,
        before.selection.head,
        other,
    );
}

/// A block given over to its link has only its start left of the text it held,
/// and no other block's positions move.
pub proof fn a_block_turned_has_only_its_start(ix: usize, held: usize, at: Cursor)
    ensures
        at.block != ix ==> Editor::turning(ix, held).moved(at) == Some(at),
        at.block == ix && at.part == Part::Body && at.offset <= held ==> Editor::turning(
            ix,
            held,
        ).moved(at) == Some(Cursor { block: ix, part: Part::Body, offset: 0 }),
{
}

/// Only a run of one kind is one step. After an edit, another joins it just
/// where it is of the same kind, neither is structural, nothing is selected,
/// and it starts where the first left the caret.
pub proof fn only_a_run_of_one_kind_is_one_step(
    past: Past,
    kind: EditKind,
    first: Step,
    landed: Selection,
    next: EditKind,
    selection: Selection,
)
    requires
        past.stacks.wf(),
        past.stacks.limit > 0,
    ensures
        past.recorded(kind, first).landed(kind, landed).joins(next, selection) <==> (next == kind
            && kind != EditKind::Structure && selection.anchor == selection.head && selection.head
            == landed.head),
{
}

/// The oldest step is let go of first. A past that is full keeps every step but
/// its oldest and takes the new one; one that is not keeps them all.
pub proof fn the_oldest_step_is_let_go_of_first(past: Past, kind: EditKind, moment: Step, i: int)
    requires
        past.stacks.wf(),
        past.stacks.limit > 0,
        !past.joins(kind, moment.selection),
        0 <= i < past.stacks.undo.len(),
    ensures
        ({
            let (was, is) = (past.stacks.undo, past.recorded(kind, moment).stacks.undo);
            &&& is.last() == moment
            &&& past.recorded(kind, moment).stacks.limit == past.stacks.limit
            &&& was.len() < past.stacks.limit ==> is.len() == was.len() + 1 && is[i] == was[i]
            &&& was.len() == past.stacks.limit ==> is.len() == was.len() && (i > 0 ==> is[i - 1]
                == was[i])
        }),
{
}

/// A step back and a step on move one moment between the two stacks, and touch
/// no other.
pub proof fn a_step_moves_one_moment(past: Past, now: Step, i: int)
    ensures
        past.stacks.undo.len() > 0 ==> {
            let back = past.stepped_back(now);
            &&& back.stacks.undo.len() == past.stacks.undo.len() - 1
            &&& 0 <= i < back.stacks.undo.len() ==> back.stacks.undo[i] == past.stacks.undo[i]
            &&& back.stacks.redo.len() == past.stacks.redo.len() + 1
            &&& back.stacks.redo.last() == now
            &&& 0 <= i < past.stacks.redo.len() ==> back.stacks.redo[i] == past.stacks.redo[i]
        },
        past.stacks.redo.len() > 0 ==> {
            let on = past.stepped_on(now);
            &&& on.stacks.redo.len() == past.stacks.redo.len() - 1
            &&& 0 <= i < on.stacks.redo.len() ==> on.stacks.redo[i] == past.stacks.redo[i]
            &&& on.stacks.undo.len() == past.stacks.undo.len() + 1
            &&& on.stacks.undo.last() == now
            &&& 0 <= i < past.stacks.undo.len() ==> on.stacks.undo[i] == past.stacks.undo[i]
        },
        past.stepped_back(now).last is None,
        past.stepped_on(now).last is None,
        past.interrupted().stacks == past.stacks,
{
}

/// A document keeps a hundred steps, and starts with none.
pub proof fn a_document_keeps_a_hundred_steps()
    ensures
        Past::new(DEFAULT_UNDO_LIMIT as nat).stacks.limit == 100,
        Past::new(DEFAULT_UNDO_LIMIT as nat).stacks.undo.len() == 0,
        Past::new(DEFAULT_UNDO_LIMIT as nat).stacks.redo.len() == 0,
        Past::new(DEFAULT_UNDO_LIMIT as nat).last is None,
{
}

} // verus!
