//! The app's half of a comment. The editor holds the range and maps it through
//! every edit; what it says, and who said it, lives here.

use vstd::prelude::*;

use crate::editor::anchor::{Anchor, AnchorId};
use crate::markdown::doc::Selection;
use crate::markdown::overlay::Annotation;
use crate::text::string_of;

verus! {

/// A thread, keyed to the editor's anchor by its id.
#[derive(Clone, Debug, PartialEq, Eq)]
pub struct Thread {
    pub id: AnchorId,
    pub body: String,
}

/// The threads of a document.
pub struct Threads {
    pub threads: Vec<Thread>,
    /// The one whose range paints as [`Annotation::Active`].
    pub open: Option<AnchorId>,
    /// Ids are the app's to mint — the editor never looks inside one.
    pub next: u64,
}

/// One thread as listed.
#[derive(Clone, Copy, Debug, PartialEq, Eq, Structural)]
pub struct ThreadRow {
    pub id: AnchorId,
    /// Whether the words it pointed at are gone. The thread is kept, because
    /// whether that reads as outdated or resolved is the app's call.
    pub detached: bool,
    pub open: bool,
    /// What a click on it selects: the words it is about, while they are there.
    pub range: Option<Selection>,
}

/// The ten digits.
pub const DIGITS: [char; 10] = ['0', '1', '2', '3', '4', '5', '6', '7', '8', '9'];

/// A number in decimal digits.
pub open spec fn written(n: nat) -> Seq<char>
    decreases n,
{
    if n < 10 {
        seq![DIGITS[n as int]]
    } else {
        written(n / 10).push(DIGITS[(n % 10) as int])
    }
}

fn push_number(out: &mut Vec<char>, n: usize)
    ensures
        final(out)@ == old(out)@ + written(n as nat),
    decreases n,
{
    if n >= 10 {
        push_number(out, n / 10);
    }
    out.push(DIGITS[n % 10]);
    assert(out@ =~= old(out)@ + written(n as nat));
}

/// What the `n`th thread says: the word and its number.
pub open spec fn note(n: nat) -> Seq<char> {
    seq!['N', 'o', 't', 'e', ' '] + written(n)
}

/// The first of some anchors that a thread is keyed to, from the `i`th on.
pub open spec fn anchor_of(anchors: Seq<Anchor>, id: AnchorId, i: int) -> Option<Anchor>
    decreases anchors.len() - i,
{
    if i < 0 || i >= anchors.len() {
        None
    } else if anchors[i].id == id {
        Some(anchors[i])
    } else {
        anchor_of(anchors, id, i + 1)
    }
}

/// A thread as listed.
pub open spec fn row_of(thread: Thread, open: Option<AnchorId>, anchors: Seq<Anchor>) -> ThreadRow {
    let anchor = anchor_of(anchors, thread.id, 0);
    let attached = anchor matches Some(anchor) && anchor.range.anchor != anchor.range.head;
    ThreadRow {
        id: thread.id,
        detached: !attached,
        open: open == Some(thread.id),
        range: if attached {
            Some(anchor->0.range)
        } else {
            None
        },
    }
}

/// The anchors with the open thread's the lit one.
pub open spec fn lit(anchors: Seq<Anchor>, open: Option<AnchorId>) -> Seq<Anchor> {
    Seq::new(
        anchors.len(),
        |i: int|
            Anchor {
                state: if open == Some(anchors[i].id) {
                    Annotation::Active
                } else {
                    Annotation::Open
                },
                ..anchors[i]
            },
    )
}

impl Default for Threads {
    fn default() -> (threads: Threads)
        ensures
            threads.threads@.len() == 0,
            threads.open is None,
            threads.next == 0,
    {
        Threads { threads: Vec::new(), open: None, next: 0 }
    }
}

impl Threads {
    /// Every id is minted once, and none has been that is yet to be.
    pub open spec fn wf(&self) -> bool {
        &&& forall|i: int|
            0 <= i < self.threads@.len() ==> (#[trigger] self.threads@[i]).id.0 < self.next
        &&& forall|i: int, j: int|
            0 <= i < j < self.threads@.len() ==> (#[trigger] self.threads@[i]).id != (
            #[trigger] self.threads@[j]).id
    }

    /// Comment on a selection: a thread here, and the anchor it is keyed to.
    /// Nothing where nothing is selected.
    pub fn comment(&mut self, selection: Selection) -> (anchor: Option<Anchor>)
        requires
            old(self).wf(),
            old(self).next < u64::MAX,
            old(self).threads@.len() < usize::MAX,
        ensures
            final(self).wf(),
            selection.anchor == selection.head ==> anchor is None && *final(self) == *old(self),
            selection.anchor != selection.head ==> {
                let id = AnchorId(old(self).next);
                &&& anchor == Some(Anchor { id, range: selection, state: Annotation::Open })
                &&& final(self).open == Some(id)
                &&& final(self).next == old(self).next + 1
                &&& final(self).threads@.len() == old(self).threads@.len() + 1
                &&& final(self).threads@.drop_last() == old(self).threads@
                &&& final(self).threads@.last().id == id
                &&& final(self).threads@.last().body@ == note(old(self).threads@.len() + 1)
            },
    {
        if selection.is_collapsed() {
            return None;
        }
        let id = AnchorId(self.next);
        self.next = self.next + 1;
        let mut body: Vec<char> = Vec::new();
        body.push('N');
        body.push('o');
        body.push('t');
        body.push('e');
        body.push(' ');
        push_number(&mut body, self.threads.len() + 1);
        assert(body@ =~= note(self.threads@.len() + 1));
        self.threads.push(Thread { id, body: string_of(&body) });
        self.open = Some(id);
        assert(self.threads@.drop_last() =~= old(self).threads@);
        Some(Anchor::new(id, selection))
    }

    /// The anchors repainted, so that the open thread's is the lit one.
    pub fn light(&self, anchors: &Vec<Anchor>) -> (lit_anchors: Vec<Anchor>)
        ensures
            lit_anchors@ == lit(anchors@, self.open),
    {
        let mut out: Vec<Anchor> = Vec::new();
        let mut i: usize = 0;
        while i < anchors.len()
            invariant
                i <= anchors@.len(),
                out@ == lit(anchors@, self.open).take(i as int),
            decreases anchors@.len() - i,
        {
            let anchor = anchors[i];
            let active = match self.open {
                Some(id) => id == anchor.id,
                None => false,
            };
            let state = if active {
                Annotation::Active
            } else {
                Annotation::Open
            };
            out.push(Anchor { state, ..anchor });
            assert(out@ =~= lit(anchors@, self.open).take(i + 1));
            i = i + 1;
        }
        assert(out@ =~= lit(anchors@, self.open));
        out
    }

    /// A press inside a comment's range, or a click on its thread, opens it.
    pub fn activate(&mut self, id: AnchorId)
        requires
            old(self).wf(),
        ensures
            final(self).wf(),
            *final(self) == (Threads { open: Some(id), ..*old(self) }),
    {
        self.open = Some(id);
    }

    /// The threads, each showing whether its words are still there.
    pub fn comments(&self, anchors: &Vec<Anchor>) -> (rows: Vec<ThreadRow>)
        ensures
            rows@.len() == self.threads@.len(),
            forall|i: int|
                0 <= i < rows@.len() ==> #[trigger] rows@[i] == row_of(
                    self.threads@[i],
                    self.open,
                    anchors@,
                ),
    {
        let mut rows: Vec<ThreadRow> = Vec::new();
        let mut i: usize = 0;
        while i < self.threads.len()
            invariant
                i <= self.threads@.len(),
                rows@.len() == i,
                forall|j: int|
                    0 <= j < i ==> #[trigger] rows@[j] == row_of(
                        self.threads@[j],
                        self.open,
                        anchors@,
                    ),
            decreases self.threads@.len() - i,
        {
            let id = self.threads[i].id;
            let mut range: Option<Selection> = None;
            if let Some(anchor) = find(anchors, id) {
                if !anchor.detached() {
                    range = Some(anchor.range);
                }
            }
            let open = match self.open {
                Some(open) => open == id,
                None => false,
            };
            rows.push(ThreadRow { id, detached: range.is_none(), open, range });
            i = i + 1;
        }
        rows
    }
}

/// The anchor a thread is keyed to.
fn find(anchors: &Vec<Anchor>, id: AnchorId) -> (anchor: Option<Anchor>)
    ensures
        anchor == anchor_of(anchors@, id, 0),
{
    let mut i: usize = 0;
    while i < anchors.len()
        invariant
            i <= anchors@.len(),
            anchor_of(anchors@, id, 0) == anchor_of(anchors@, id, i as int),
        decreases anchors@.len() - i,
    {
        if anchors[i].id == id {
            return Some(anchors[i]);
        }
        i = i + 1;
    }
    None
}

} // verus!
