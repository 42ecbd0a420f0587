//! What a reader of the comments, and someone at the bar, can count on.

use vstd::prelude::*;

use crate::editor::anchor::{Anchor, AnchorId};
use crate::editor::dispatch::{meaning, Command, MarkChord};
use crate::gallery::comments;
use crate::gallery::comments::Thread;
use crate::gallery::ribbon;
use crate::markdown::model::MarkView;
use crate::markdown::overlay::Annotation;

verus! {

/// What some decimal digits are worth.
pub open spec fn worth(digits: Seq<char>) -> int
    decreases digits.len(),
{
    if digits.len() == 0 {
        0
    } else {
        worth(digits.drop_last()) * 10 + (digits.last() as int - 48)
    }
}

/// A note goes by its number, in digits that are worth it and do not begin with
/// a needless zero.
pub proof fn a_note_goes_by_its_number(n: nat)
    ensures
        worth(comments::written(n)) == n,
        comments::written(n).len() > 0,
        forall|i: int|
            0 <= i < comments::written(n).len() ==> '0' <= #[trigger] comments::written(n)[i]
                <= '9',
        n > 0 ==> comments::written(n)[0] != '0',
        comments::note(n).len() == 5 + comments::written(n).len(),
        comments::note(n).skip(5) == comments::written(n),
        comments::note(n)[0] == 'N' && comments::note(n)[1] == 'o' && comments::note(n)[2] == 't'
            && comments::note(n)[3] == 'e' && comments::note(n)[4] == ' ',
    decreases n,
{
    let digits = comments::written(n);
    if n >= 10 {
        a_note_goes_by_its_number(n / 10);
        assert(digits.drop_last() =~= comments::written(n / 10));
    } else {
        reveal_with_fuel(worth, 2);
        assert(digits.drop_last() =~= Seq::<char>::empty());
    }
    assert(comments::note(n).skip(5) =~= comments::written(n));
}

/// A thread is keyed to the first anchor with its id, and to none where no
/// anchor has it.
pub proof fn a_thread_is_keyed_to_the_first_anchor_with_its_id(
    anchors: Seq<Anchor>,
    id: AnchorId,
    from: int,
    i: int,
)
    requires
        0 <= from <= i,
        i <= anchors.len(),
        forall|j: int| from <= j < i ==> (#[trigger] anchors[j]).id != id,
    ensures
        i < anchors.len() && anchors[i].id == id ==> comments::anchor_of(anchors, id, from) == Some(
            anchors[i],
        ),
        i == anchors.len() ==> comments::anchor_of(anchors, id, from) is None,
    decreases i - from,
{
    if from < i {
        assert(anchors[from].id != id);
        a_thread_is_keyed_to_the_first_anchor_with_its_id(anchors, id, from + 1, i);
    }
}

/// A thread is listed under its id, open where it is the open one. While the
/// words it is about are there it selects them; once they are gone, or its
/// anchor is, it is detached and selects nothing.
pub proof fn a_thread_selects_the_words_it_is_about(
    thread: Thread,
    open: Option<AnchorId>,
    anchors: Seq<Anchor>,
    i: int,
)
    requires
        0 <= i < anchors.len(),
        anchors[i].id == thread.id,
        forall|j: int| 0 <= j < i ==> (#[trigger] anchors[j]).id != thread.id,
    ensures
        ({
            let row = comments::row_of(thread, open, anchors);
            let range = anchors[i].range;
            &&& row.id == thread.id
            &&& row.open <==> open == Some(thread.id)
            &&& row.detached <==> range.anchor == range.head
            &&& range.anchor != range.head ==> row.range == Some(range)
            &&& range.anchor == range.head ==> row.range is None
        }),
{
    a_thread_is_keyed_to_the_first_anchor_with_its_id(anchors, thread.id, 0, i);
}

/// A thread with no anchor is listed as detached.
pub proof fn a_thread_with_no_anchor_is_detached(
    thread: Thread,
    open: Option<AnchorId>,
    anchors: Seq<Anchor>,
)
    requires
        forall|j: int| 0 <= j < anchors.len() ==> (#[trigger] anchors[j]).id != thread.id,
    ensures
        comments::row_of(thread, open, anchors).id == thread.id,
        comments::row_of(thread, open, anchors).detached,
        comments::row_of(thread, open, anchors).range is None,
        comments::row_of(thread, open, anchors).open <==> open == Some(thread.id),
{
    a_thread_is_keyed_to_the_first_anchor_with_its_id(
        anchors,
        thread.id,
        0,
        anchors.len() as int,
    );
}

/// The open thread's anchor is the lit one, and no other is. None moves.
pub proof fn the_open_threads_anchor_is_lit(
    anchors: Seq<Anchor>,
    open: Option<AnchorId>,
    i: int,
)
    requires
        0 <= i < anchors.len(),
    ensures
        comments::lit(anchors, open).len() == anchors.len(),
        comments::lit(anchors, open)[i].id == anchors[i].id,
        comments::lit(anchors, open)[i].range == anchors[i].range,
        open == Some(anchors[i].id) ==> comments::lit(anchors, open)[i].state
            == Annotation::Active,
        open != Some(anchors[i].id) ==> comments::lit(anchors, open)[i].state == Annotation::Open,
{
}

/// A button toggles the mark that the chord its tooltip prints does: the two
/// cannot disagree. The app's own marks have no chord, and go by their keys.
pub proof fn a_button_does_what_its_chord_does(i: int)
    requires
        0 <= i < ribbon::cluster().len(),
    ensures
        ({
            let button = ribbon::cluster()[i];
            let chord = |chord: MarkChord|
                button.action matches Some(action) && meaning(action) == Command::Mark(chord);
            &&& button.mark == MarkView::Bold <==> chord(MarkChord::Bold)
            &&& button.mark == MarkView::Italic <==> chord(MarkChord::Italic)
            &&& button.mark == MarkView::Strike <==> chord(MarkChord::Strike)
            &&& button.mark == MarkView::Code <==> chord(MarkChord::Code)
            &&& button.action is None <==> button.mark is Custom
            &&& button.mark matches MarkView::Custom(name) ==> button.key == name
            &&& button.mark == MarkView::Bold ==> button.key == "bold"@ && button.label == "Bold"@
            &&& button.mark == MarkView::Italic ==> button.key == "italic"@ && button.label
                == "Italic"@
            &&& button.mark == MarkView::Strike ==> button.key == "strike"@ && button.label
                == "Strikethrough"@
            &&& button.mark == MarkView::Code ==> button.key == "code"@ && button.label == "Code"@
            &&& button.mark == MarkView::Custom("highlight"@) ==> button.label == "Highlight"@
            &&& button.mark == MarkView::Custom("underline"@) ==> button.label == "Underline"@
        }),
{
    reveal_strlit("highlight");
    reveal_strlit("underline");
    assert("highlight"@[0] != "underline"@[0]);
}

/// Each mark has a button of its own.
pub proof fn each_mark_has_its_button(i: int, j: int)
    requires
        0 <= i < j < ribbon::cluster().len(),
    ensures
        ribbon::cluster()[i].mark != ribbon::cluster()[j].mark,
        ribbon::cluster().len() == 6,
        ribbon::cluster()[4].mark == MarkView::Custom("highlight"@),
        ribbon::cluster()[5].mark == MarkView::Custom("underline"@),
{
    reveal_strlit("highlight");
    reveal_strlit("underline");
    assert("highlight"@[0] != "underline"@[0]);
}

} // verus!
