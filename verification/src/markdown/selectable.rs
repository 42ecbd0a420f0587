//! Text you can select with the pointer and copy out of.

use vstd::prelude::*;
use vstd::slice::slice_subrange;

use crate::markdown::doc::{Cursor, Doc, Span};
use crate::text;
use crate::text::{char_at, chars_of, string_of};

verus! {

/// What the pointer did over the text.
#[derive(Debug, Clone, Copy, PartialEq, Eq)]
pub enum Pointer {
    /// Pressed here — the start of a selection.
    Down(Cursor),
    /// Moved here with the button still down.
    Move(Cursor),
    /// Let go. Whatever the selection had become is what it is.
    Up,
}

/// What a pointer event is.
#[derive(Debug, Clone, Copy, PartialEq, Eq, Structural)]
pub enum Gesture {
    /// A press of the left button on the text.
    Press,
    /// A move anywhere in the window, the left button down or not.
    Move { left: bool },
    /// A release of the left button, on the text or off it.
    Release,
}

/// What a pointer event over the text is reported as, `hit` being the position
/// nearest it. A move only extends a selection that a press started, which is
/// what `dragging` says: the ordinary way to select to the end of a paragraph
/// is to let go past the edge of it, so a drag off the text goes on extending.
pub fn reported(gesture: Gesture, dragging: bool, hit: Option<Cursor>) -> (pointer: Option<Pointer>)
    ensures
        pointer == (match (gesture, hit) {
            (Gesture::Press, Some(at)) => Some(Pointer::Down(at)),
            (Gesture::Move { left: true }, Some(at)) if dragging => Some(Pointer::Move(at)),
            (Gesture::Release, _) => Some(Pointer::Up),
            _ => None,
        }),
{
    match (gesture, hit) {
        (Gesture::Press, Some(at)) => Some(Pointer::Down(at)),
        (Gesture::Move { left: true }, Some(at)) => if dragging {
            Some(Pointer::Move(at))
        } else {
            None
        },
        (Gesture::Release, _) => Some(Pointer::Up),
        _ => None,
    }
}

/// The chord that copies, where a text can be selected and not edited.
pub fn copy_chord(on_mac: bool) -> (chord: &'static str)
    ensures
        chord@ == (if on_mac {
            "cmd-c"@
        } else {
            "ctrl-c"@
        }),
{
    if on_mac {
        "cmd-c"
    } else {
        "ctrl-c"
    }
}

/// The text of some bytes of a document, where those are whole characters of a
/// text it has.
pub open spec fn slice_of(doc: Doc, at: Cursor, span: Span) -> Option<Seq<char>> {
    if at.block < doc.blocks@.len() && doc.blocks@[at.block as int].text_in(at.part) is Some {
        let body = doc.blocks@[at.block as int].text_in(at.part)->0.text@;
        if span.start <= span.end && text::on_boundary(body, span.start as int)
            && text::on_boundary(body, span.end as int) {
            Some(between(body, span.start as int, span.end as int))
        } else {
            None
        }
    } else {
        None
    }
}

/// The characters from one byte of a text to another.
pub open spec fn between(body: Seq<char>, start: int, end: int) -> Seq<char> {
    body.subrange(
        choose|i: int| 0 <= i <= body.len() && #[trigger] text::byte_at(body, i) == start,
        choose|i: int| 0 <= i <= body.len() && #[trigger] text::byte_at(body, i) == end,
    )
}

/// The texts of the first `n` spans, a newline between each.
pub open spec fn pasted(doc: Doc, spans: Seq<(Cursor, Span)>, n: int) -> Option<Seq<char>>
    decreases n,
{
    if n <= 0 {
        None
    } else {
        let before = pasted(doc, spans, n - 1);
        match (before, slice_of(doc, spans[n - 1].0, spans[n - 1].1)) {
            (Some(before), Some(slice)) => Some(before.push('\n') + slice),
            (None, slice) => slice,
            (before, None) => before,
        }
    }
}

/// The text a selection covers, as it would be pasted: `spans` is the bytes it
/// covers of each text — a paragraph, a cell, a line of a fence — and a newline
/// between them is what puts a multi-block selection back together.
pub fn copied(doc: &Doc, spans: &Vec<(Cursor, Span)>) -> (copied: String)
    ensures
        copied@ == (match pasted(*doc, spans@, spans@.len() as int) {
            Some(text) => text,
            None => Seq::empty(),
        }),
{
    let mut out: Vec<char> = Vec::new();
    let mut any = false;
    let mut n: usize = 0;
    while n < spans.len()
        invariant
            n <= spans@.len(),
            any == (pasted(*doc, spans@, n as int) is Some),
            any ==> out@ == pasted(*doc, spans@, n as int)->0,
            !any ==> out@.len() == 0,
        decreases spans@.len() - n,
    {
        let (at, span) = spans[n];
        if let Some(slice) = slice(doc, at, span) {
            if any {
                out.push('\n');
            }
            let mut slice = slice;
            let ghost before = out@;
            out.append(&mut slice);
            any = true;
        }
        n = n + 1;
        proof {
            assert(any ==> out@ =~= pasted(*doc, spans@, n as int)->0);
        }
    }
    proof {
        assert(!any ==> out@ =~= Seq::empty());
    }
    string_of(&out)
}

/// The text of some bytes of a document, where those are whole characters of a
/// text it has.
pub(crate) fn slice(doc: &Doc, at: Cursor, span: Span) -> (slice: Option<Vec<char>>)
    ensures
        slice is Some <==> slice_of(*doc, at, span) is Some,
        slice matches Some(slice) ==> slice@ == slice_of(*doc, at, span)->0,
{
    if at.block >= doc.blocks.len() {
        return None;
    }
    let Some(body) = doc.blocks[at.block].text_at(at.part) else {
        return None;
    };
    let chars = chars_of(body.text.as_str());
    if span.start > span.end {
        return None;
    }
    let Some(i) = char_at(&chars, span.start) else {
        return None;
    };
    let Some(j) = char_at(&chars, span.end) else {
        return None;
    };
    proof {
        let start = choose|i: int|
            0 <= i <= chars@.len() && #[trigger] text::byte_at(chars@, i) == span.start;
        text::lemma_boundary_unique(chars@, i as int, start);
        let end = choose|i: int|
            0 <= i <= chars@.len() && #[trigger] text::byte_at(chars@, i) == span.end;
        text::lemma_boundary_unique(chars@, j as int, end);
        if j < i {
            text::lemma_byte_at_order(chars@, j as int, i as int);
        }
    }
    Some(vstd::slice::slice_to_vec(slice_subrange(&chars, i, j)))
}

} // verus!
