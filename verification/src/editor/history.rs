//! Undo and redo, as coalesced snapshots.
//!
//! A whole [`Doc`] per step rather than a diff: a document held in memory is
//! small next to the machinery a transaction log needs, and a snapshot cannot
//! be wrong about what it restores. Steps, not keystrokes — a run of typing
//! coalesces into one, so the limit is deeper than it looks.
//!
//! Coalescing is by **adjacency rather than by a pause**, so there is no timing
//! threshold to invent: the next edit joins the last group when it is the same
//! kind and picks up where that one left off. Anything else — a motion, a
//! structural change, a click — starts a new group.

use vstd::prelude::*;

use crate::editor::anchor::Anchor;
use crate::markdown::doc::{Cursor, Doc, Selection};

verus! {

/// How many steps a document keeps.
///
/// Deeper than a text field's, because a document is the thing people actually
/// walk backwards through, and bounded because an unbounded history of a
/// growing document is a slow leak nothing reclaims.
pub const DEFAULT_UNDO_LIMIT: usize = 100;

/// What an edit did, so a run of the same kind can coalesce into one step
/// instead of giving the document back a character at a time.
#[derive(Debug, Clone, Copy, PartialEq, Eq, Structural)]
pub enum EditKind {
    Insert,
    Delete,
    /// Anything structural — a split, an indent, a block turned into another.
    /// Never coalesces: these are the steps a reader wants to land on.
    Structure,
}

/// Which form the document is being edited in.
#[derive(Clone, Copy, Debug, PartialEq, Eq, Structural)]
pub enum Mode {
    /// The document as it reads.
    Blocks,
    /// The markdown a save would write, in one editable text.
    Source,
}

impl Default for Mode {
    fn default() -> (mode: Mode)
        ensures
            mode == Mode::Blocks,
    {
        Mode::Blocks
    }
}

/// The state a step restores, which is a whole moment rather than a diff.
#[derive(Clone, Debug, PartialEq, Eq)]
pub struct Step {
    pub doc: Doc,
    /// Which form the document was being edited in, so a step back across a
    /// switch to the source lands in the form it was taken in.
    pub mode: Mode,
    pub selection: Selection,
    /// Carried with the document because an undo replaces it wholesale: there
    /// is no delta to map an anchor through, so the anchors of that moment have
    /// to be the ones that come back.
    pub anchors: Vec<Anchor>,
}

/// Two stacks of moments: those to step back to, and those stepped back from.
pub struct SnapshotHistory<T> {
    undo: Vec<T>,
    redo: Vec<T>,
    limit: usize,
}

/// What a [`SnapshotHistory`] holds, the latest last.
#[verifier::ext_equal]
pub struct Stacks<T> {
    pub undo: Seq<T>,
    pub redo: Seq<T>,
    pub limit: nat,
}

impl<T> Stacks<T> {
    pub open spec fn new(limit: nat) -> Stacks<T> {
        Stacks { undo: Seq::empty(), redo: Seq::empty(), limit }
    }

    /// No more is kept than the limit says.
    pub open spec fn wf(self) -> bool {
        self.undo.len() + self.redo.len() <= self.limit
    }

    /// A moment recorded, the oldest let go of where there is no room.
    pub open spec fn recorded(self, moment: T) -> Stacks<T> {
        let all = self.undo.push(moment);
        Stacks {
            undo: if all.len() > self.limit {
                all.skip(1)
            } else {
                all
            },
            redo: Seq::empty(),
            limit: self.limit,
        }
    }

    /// A step back from `now`.
    pub open spec fn stepped_back(self, now: T) -> Stacks<T> {
        Stacks { undo: self.undo.drop_last(), redo: self.redo.push(now), limit: self.limit }
    }

    /// A step forward from `now`.
    pub open spec fn stepped_on(self, now: T) -> Stacks<T> {
        Stacks { undo: self.undo.push(now), redo: self.redo.drop_last(), limit: self.limit }
    }
}

impl<T> View for SnapshotHistory<T> {
    type V = Stacks<T>;

    closed spec fn view(&self) -> Stacks<T> {
        Stacks { undo: self.undo@, redo: self.redo@, limit: self.limit as nat }
    }
}

impl<T> SnapshotHistory<T> {
    pub fn new(limit: usize) -> (history: SnapshotHistory<T>)
        ensures
            history@ == Stacks::<T>::new(limit as nat),
            history@.wf(),
    {
        let history = SnapshotHistory { undo: Vec::new(), redo: Vec::new(), limit };
        assert(history@ =~= Stacks::<T>::new(limit as nat));
        history
    }

    pub fn can_undo(&self) -> (yes: bool)
        ensures
            yes == (self@.undo.len() > 0),
    {
        self.undo.len() > 0
    }

    pub fn can_redo(&self) -> (yes: bool)
        ensures
            yes == (self@.redo.len() > 0),
    {
        self.redo.len() > 0
    }

    /// An edit: the moment before it, where it is one to come back to. Either
    /// way there is nothing left to step forward to.
    pub fn record(&mut self, moment: Option<T>)
        requires
            old(self)@.wf(),
        ensures
            final(self)@.wf(),
            final(self)@ == (match moment {
                Some(moment) => old(self)@.recorded(moment),
                None => Stacks { redo: Seq::empty(), ..old(self)@ },
            }),
    {
        self.redo.clear();
        if let Some(moment) = moment {
            self.undo.push(moment);
            if self.undo.len() > self.limit {
                let _ = self.undo.remove(0);
                assert(self.undo@ =~= old(self)@.undo.push(moment).skip(1));
            }
        }
        assert(self.redo@ =~= Seq::empty());
    }

    /// Step back from `now`, to the last moment recorded, where there is one.
    pub fn undo(&mut self, now: T) -> (previous: Option<T>)
        requires
            old(self)@.wf(),
        ensures
            final(self)@.wf(),
            old(self)@.undo.len() > 0 ==> previous == Some(old(self)@.undo.last()) && final(self)@
                == old(self)@.stepped_back(now),
            old(self)@.undo.len() == 0 ==> previous is None && final(self)@ == old(self)@,
    {
        match self.undo.pop() {
            Some(previous) => {
                self.redo.push(now);
                Some(previous)
            },
            None => None,
        }
    }

    /// Step forward from `now`, to the last moment stepped back from, where
    /// there is one.
    pub fn redo(&mut self, now: T) -> (next: Option<T>)
        requires
            old(self)@.wf(),
        ensures
            final(self)@.wf(),
            old(self)@.redo.len() > 0 ==> next == Some(old(self)@.redo.last()) && final(self)@
                == old(self)@.stepped_on(now),
            old(self)@.redo.len() == 0 ==> next is None && final(self)@ == old(self)@,
    {
        match self.redo.pop() {
            Some(next) => {
                self.undo.push(now);
                Some(next)
            },
            None => None,
        }
    }
}

/// The steps of a document, and what decides whether the next edit is another.
pub struct History {
    snapshots: SnapshotHistory<Step>,
    /// The kind of the last edit and where it *left* the caret, which is what
    /// decides whether the next edit joins that group or starts a new one.
    last: Option<(EditKind, Cursor)>,
}

/// What a [`History`] holds.
#[verifier::ext_equal]
pub struct Past {
    pub stacks: Stacks<Step>,
    pub last: Option<(EditKind, Cursor)>,
}

impl Past {
    pub open spec fn new(limit: nat) -> Past {
        Past { stacks: Stacks::new(limit), last: None }
    }

    /// Whether an edit continues the group the last one opened — same kind,
    /// same text, and picking up exactly where that one stopped.
    pub open spec fn joins(self, kind: EditKind, selection: Selection) -> bool {
        &&& kind != EditKind::Structure
        &&& self.stacks.undo.len() > 0
        &&& self.last == Some((kind, selection.head))
        &&& selection.anchor == selection.head
    }

    /// The past once the moment before an edit is recorded.
    pub open spec fn recorded(self, kind: EditKind, moment: Step) -> Past {
        if self.joins(kind, moment.selection) {
            Past { stacks: Stacks { redo: Seq::empty(), ..self.stacks }, last: self.last }
        } else {
            Past { stacks: self.stacks.recorded(moment), last: None }
        }
    }

    /// The past once an edit has left the caret somewhere.
    pub open spec fn landed(self, kind: EditKind, selection: Selection) -> Past {
        Past {
            last: if kind == EditKind::Structure {
                None
            } else {
                Some((kind, selection.head))
            },
            ..self
        }
    }

    /// The past once something that is no edit has happened.
    pub open spec fn interrupted(self) -> Past {
        Past { last: None, ..self }
    }

    pub open spec fn stepped_back(self, now: Step) -> Past {
        Past { stacks: self.stacks.stepped_back(now), last: None }
    }

    pub open spec fn stepped_on(self, now: Step) -> Past {
        Past { stacks: self.stacks.stepped_on(now), last: None }
    }
}

impl View for History {
    type V = Past;

    closed spec fn view(&self) -> Past {
        Past { stacks: self.snapshots@, last: self.last }
    }
}

impl Default for History {
    fn default() -> (history: History)
        ensures
            history@ == Past::new(DEFAULT_UNDO_LIMIT as nat),
            history@.stacks.wf(),
    {
        History::with_limit(DEFAULT_UNDO_LIMIT)
    }
}

impl History {
    pub fn with_limit(limit: usize) -> (history: History)
        ensures
            history@ == Past::new(limit as nat),
            history@.stacks.wf(),
    {
        History { snapshots: SnapshotHistory::new(limit), last: None }
    }

    /// Record the state *before* an edit of `kind`; [`History::landed`] closes
    /// it afterwards. A run of insertions leaves one step, so undo gives back
    /// the word rather than the letter.
    pub fn record(&mut self, kind: EditKind, moment: Step)
        requires
            old(self)@.stacks.wf(),
        ensures
            final(self)@ == old(self)@.recorded(kind, moment),
            final(self)@.stacks.wf(),
    {
        if self.joins(kind, moment.selection) {
            self.snapshots.record(None);
        } else {
            self.snapshots.record(Some(moment));
            self.last = None;
        }
    }

    /// Close the edit, noting where it left the caret. The next edit joins this
    /// group only if it starts from exactly here.
    pub fn landed(&mut self, kind: EditKind, selection: Selection)
        ensures
            final(self)@ == old(self)@.landed(kind, selection),
    {
        self.last =
        if kind == EditKind::Structure {
            None
        } else {
            Some((kind, selection.head))
        };
    }

    fn joins(&self, kind: EditKind, selection: Selection) -> (yes: bool)
        ensures
            yes == self@.joins(kind, selection),
    {
        if kind == EditKind::Structure || !self.snapshots.can_undo() {
            return false;
        }
        match self.last {
            Some((last, at)) => last == kind && at == selection.head && selection.is_collapsed(),
            None => false,
        }
    }

    /// Anything that is not an edit ends the group — a motion, a click, a
    /// focus change. Without this, typing a word, clicking elsewhere and typing
    /// again would undo as one step across two places.
    pub fn interrupt(&mut self)
        ensures
            final(self)@ == old(self)@.interrupted(),
    {
        self.last = None;
    }

    /// Whether there is a step back to take.
    pub fn can_undo(&self) -> (yes: bool)
        ensures
            yes == (self@.stacks.undo.len() > 0),
    {
        self.snapshots.can_undo()
    }

    /// Whether there is a step forward to take.
    pub fn can_redo(&self) -> (yes: bool)
        ensures
            yes == (self@.stacks.redo.len() > 0),
    {
        self.snapshots.can_redo()
    }

    /// Step back, handing the caller the state to restore. Keeps what it was
    /// given to step forward to. With nothing to undo, nothing happens.
    pub fn undo(&mut self, now: Step) -> (previous: Option<Step>)
        requires
            old(self)@.stacks.wf(),
        ensures
            final(self)@.stacks.wf(),
            old(self)@.stacks.undo.len() > 0 ==> previous == Some(old(self)@.stacks.undo.last())
                && final(self)@ == old(self)@.stepped_back(now),
            old(self)@.stacks.undo.len() == 0 ==> previous is None && final(self)@ == old(self)@,
    {
        let previous = self.snapshots.undo(now);
        if previous.is_some() {
            self.last = None;
        }
        previous
    }

    /// Step forward, where there is a step to take.
    pub fn redo(&mut self, now: Step) -> (next: Option<Step>)
        requires
            old(self)@.stacks.wf(),
        ensures
            final(self)@.stacks.wf(),
            old(self)@.stacks.redo.len() > 0 ==> next == Some(old(self)@.stacks.redo.last())
                && final(self)@ == old(self)@.stepped_on(now),
            old(self)@.stacks.redo.len() == 0 ==> next is None && final(self)@ == old(self)@,
    {
        let next = self.snapshots.redo(now);
        if next.is_some() {
            self.last = None;
        }
        next
    }
}

/// An edit can be taken back: the moment before it is the one undo restores.
pub proof fn an_edit_can_be_undone(past: Past, kind: EditKind, moment: Step, landed: Selection)
    requires
        past.stacks.wf(),
        past.stacks.limit > 0,
        !past.joins(kind, moment.selection),
    ensures
        ({
            let after = past.recorded(kind, moment).landed(kind, landed);
            after.stacks.undo.len() > 0 && after.stacks.undo.last() == moment
        }),
{
}

/// Undo and redo take each other back: what a step back left is what the step
/// forward restores, and the rest of the past is as it was.
pub proof fn undo_then_redo_restores(past: Past, now: Step)
    requires
        past.stacks.undo.len() > 0,
    ensures
        ({
            let previous = past.stacks.undo.last();
            let back = past.stepped_back(now);
            &&& back.stacks.redo.len() > 0
            &&& back.stacks.redo.last() == now
            &&& back.stepped_on(previous) == past.interrupted()
        }),
{
    let previous = past.stacks.undo.last();
    let back = past.stepped_back(now).stepped_on(previous);
    assert(back.stacks.undo =~= past.stacks.undo);
    assert(back.stacks.redo =~= past.stacks.redo);
}

/// A run of typing is one step: an edit of the same kind that starts where the
/// last one left the caret adds none, so undo gives back the word.
pub proof fn a_run_of_typing_is_one_step(
    past: Past,
    kind: EditKind,
    first: Step,
    second: Step,
)
    requires
        past.stacks.wf(),
        past.stacks.limit > 0,
        kind != EditKind::Structure,
        second.selection.anchor == second.selection.head,
    ensures
        ({
            let once = past.recorded(kind, first).landed(kind, second.selection);
            once.recorded(kind, second).stacks.undo == once.stacks.undo
        }),
{
}

/// An edit leaves nothing to step forward to.
pub proof fn an_edit_ends_redo(past: Past, kind: EditKind, moment: Step)
    ensures
        past.recorded(kind, moment).stacks.redo.len() == 0,
{
}

/// A motion between two edits parts them: the second is a step of its own.
pub proof fn a_motion_parts_two_edits(past: Past, kind: EditKind, moment: Step)
    ensures
        !past.interrupted().joins(kind, moment.selection),
{
}

/// A structural change joins nothing, and nothing joins it.
pub proof fn a_structural_edit_stands_alone(
    past: Past,
    kind: EditKind,
    moment: Step,
    landed: Selection,
)
    ensures
        !past.joins(EditKind::Structure, moment.selection),
        !past.landed(EditKind::Structure, landed).joins(kind, moment.selection),
{
}

} // verus!
