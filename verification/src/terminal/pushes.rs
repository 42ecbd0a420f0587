//! What a program that pushes and pops can count on: which of its sequences
//! are taken for a push or a pop, and what each leaves on the stacks.

use vstd::prelude::*;

use crate::terminal::watch;
use crate::terminal::watch::{Key, Number, Param, Phase, Stacks};

verus! {

/// What some decimal digits are worth.
pub open spec fn worth(digits: Seq<u8>) -> int
    decreases digits.len(),
{
    if digits.len() == 0 {
        0
    } else {
        worth(digits.drop_last()) * 10 + (digits.last() - 0x30)
    }
}

/// Whether a text is decimal digits.
pub open spec fn all_digits(text: Seq<u8>) -> bool {
    forall|i: int| 0 <= i < text.len() ==> 0x30 <= #[trigger] text[i] <= 0x39
}

/// The number of a sequence: what its digits are worth, or the largest a
/// parameter can be.
pub open spec fn capped(n: int) -> int {
    if n > 65535 {
        65535
    } else {
        n
    }
}

/// A text is read a byte at a time, whatever parts it comes in.
pub proof fn parts_are_read_one_after_another(phase: Phase, first: Seq<u8>, second: Seq<u8>)
    ensures
        phase.read(Seq::empty()) == phase,
        phase.read(first + second) == phase.read(first).read(second),
    decreases second.len(),
{
    if second.len() == 0 {
        assert(first + second =~= first);
    } else {
        parts_are_read_one_after_another(phase, first, second.drop_last());
        assert((first + second).drop_last() =~= first + second.drop_last());
        assert((first + second).last() == second.last());
    }
}

proof fn lemma_worth_positive(digits: Seq<u8>)
    requires
        all_digits(digits),
    ensures
        worth(digits) >= 0,
    decreases digits.len(),
{
    if digits.len() > 0 {
        assert forall|i: int| 0 <= i < digits.drop_last().len() implies 0x30
            <= #[trigger] digits.drop_last()[i] <= 0x39 by {
            assert(digits.drop_last()[i] == digits[i]);
        }
        lemma_worth_positive(digits.drop_last());
        assert(digits[digits.len() - 1] == digits.last());
    }
}

proof fn lemma_digits(phase: Phase, digits: Seq<u8>)
    requires
        all_digits(digits),
        phase matches Phase::Control { first: 0, ended: 0, .. },
    ensures
        phase.read(digits) == (Phase::Control {
            mark: phase->mark,
            first: capped(worth(digits)) as u16,
            ended: 0,
        }),
    decreases digits.len(),
{
    if digits.len() > 0 {
        let fewer = digits.drop_last();
        assert forall|i: int| 0 <= i < fewer.len() implies 0x30 <= #[trigger] fewer[i]
            <= 0x39 by {
            assert(fewer[i] == digits[i]);
        }
        lemma_digits(phase, fewer);
        lemma_worth_positive(fewer);
        assert(digits[digits.len() - 1] == digits.last());
    }
}

proof fn lemma_marked(phase: Phase, mark: u8, digits: Seq<u8>)
    requires
        mark == 0x3c || mark == 0x3e,
        all_digits(digits),
    ensures
        phase.read(seq![0x1bu8, 0x5b, mark] + digits) == (Phase::Control {
            mark,
            first: capped(worth(digits)) as u16,
            ended: 0,
        }),
{
    let start = seq![0x1bu8, 0x5b, mark];
    reveal_with_fuel(Phase::read, 4);
    assert(start.drop_last() =~= seq![0x1bu8, 0x5b]);
    assert(start.drop_last().drop_last() =~= seq![0x1bu8]);
    assert(start.drop_last().drop_last().drop_last() =~= Seq::<u8>::empty());
    assert(phase.read(start) == (Phase::Control { mark, first: 0, ended: 0 }));
    parts_are_read_one_after_another(phase, start, digits);
    lemma_digits(phase.read(start), digits);
}

/// A program pushes with `ESC [ > n u`, whatever the number.
pub proof fn a_push_is_written_with_a_greater_than(phase: Phase, digits: Seq<u8>)
    requires
        all_digits(digits),
    ensures
        phase.read(seq![0x1bu8, 0x5b, 0x3e] + digits).key(0x75) == Some(Key::Push),
{
    lemma_marked(phase, 0x3e, digits);
}

/// A program pops as many as it says with `ESC [ < n u`, and one where it says
/// none.
pub proof fn a_pop_is_written_with_a_less_than(phase: Phase, digits: Seq<u8>)
    requires
        all_digits(digits),
    ensures
        phase.read(seq![0x1bu8, 0x5b, 0x3c] + digits).key(0x75) matches Some(Key::Pop(n)) && n == (
        if worth(digits) == 0 {
            1
        } else {
            capped(worth(digits))
        }),
{
    lemma_marked(phase, 0x3c, digits);
    lemma_worth_positive(digits);
}

/// A program pushes its title with `ESC [ 22 t` and pops it with `ESC [ 23 t`,
/// and does neither with another number.
pub proof fn titles_are_pushed_and_popped_by_number(phase: Phase, digits: Seq<u8>)
    requires
        all_digits(digits),
        digits.len() > 0,
    ensures
        ({
            let key = phase.read(seq![0x1bu8, 0x5b] + digits).key(0x74);
            &&& key == Some(Key::PushTitle) <==> worth(digits) == 22
            &&& key == Some(Key::PopTitle) <==> worth(digits) == 23
            &&& worth(digits) != 22 && worth(digits) != 23 ==> key is None
        }),
{
    let start = seq![0x1bu8, 0x5b];
    reveal_with_fuel(Phase::read, 3);
    assert(start.drop_last() =~= seq![0x1bu8]);
    assert(start.drop_last().drop_last() =~= Seq::<u8>::empty());
    assert(phase.read(start) == Phase::Bracket);
    parts_are_read_one_after_another(phase, start, digits);
    lemma_bracket_digits(digits);
    lemma_worth_positive(digits);
}

proof fn lemma_bracket_digits(digits: Seq<u8>)
    requires
        all_digits(digits),
        digits.len() > 0,
    ensures
        Phase::Bracket.read(digits) == (Phase::Control {
            mark: 0,
            first: capped(worth(digits)) as u16,
            ended: 0,
        }),
    decreases digits.len(),
{
    let fewer = digits.drop_last();
    assert forall|i: int| 0 <= i < fewer.len() implies 0x30 <= #[trigger] fewer[i] <= 0x39 by {
        assert(fewer[i] == digits[i]);
    }
    assert(digits[digits.len() - 1] == digits.last());
    lemma_worth_positive(fewer);
    if fewer.len() > 0 {
        lemma_bracket_digits(fewer);
    } else {
        assert(Phase::Bracket.read(fewer) == Phase::Bracket);
    }
}

/// Parameters behind the first leave it as it was, up to the thirty-second:
/// a sequence with more does nothing.
pub proof fn the_first_parameter_is_the_one_that_counts(
    mark: u8,
    first: u16,
    ended: u8,
    byte: u8,
)
    requires
        byte == 0x3a || byte == 0x3b || 0x30 <= byte <= 0x39,
    ensures
        ({
            let phase = Phase::Control { mark, first, ended };
            let next = phase.next(byte);
            &&& (byte == 0x3a || byte == 0x3b) && ended < 32 ==> next == (Phase::Control {
                mark,
                first,
                ended: (ended + 1) as u8,
            })
            &&& (byte == 0x3a || byte == 0x3b) && ended >= 32 ==> next == phase
            &&& 0x30 <= byte <= 0x39 && ended > 0 ==> next == phase
            &&& ended >= 32 ==> phase.key(0x75) is None && phase.key(0x74) is None
        }),
        Phase::Bracket.next(0x3a) == (Phase::Control { mark: 0, first: 0, ended: 1 }),
        Phase::Bracket.next(0x3b) == (Phase::Control { mark: 0, first: 0, ended: 1 }),
        Phase::Bracket.next(0x3d) == (Phase::Control { mark: 0x3d, first: 0, ended: 0 }),
        Phase::Bracket.next(0x3f) == (Phase::Control { mark: 0x3f, first: 0, ended: 0 }),
{
}

/// Nothing else touches the stacks but `ESC c`, which puts everything back.
pub proof fn nothing_else_touches_the_stacks(phase: Phase, byte: u8)
    ensures
        Phase::Escape.key(0x63) == Some(Key::Reset),
        phase.key(byte) == Some(Key::Reset) ==> phase == Phase::Escape && byte == 0x63,
        phase.key(byte) == Some(Key::Push) ==> byte == 0x75 && phase is Control && phase->mark
            == 0x3e,
        phase.key(byte) is Some && phase.key(byte)->0 is Pop ==> byte == 0x75 && phase is Control
            && phase->mark == 0x3c,
        phase.key(byte) == Some(Key::PushTitle) || phase.key(byte) == Some(Key::PopTitle) ==> byte
            == 0x74 && phase is Control && phase->mark == 0,
        phase.key(byte) is Some ==> phase is Escape || phase is Control,
{
}

/// An escape begins a sequence anywhere. A cancel or a substitute breaks one
/// off; any other control, and what is no ASCII, is passed over in it.
pub proof fn a_sequence_goes_on_past_controls(phase: Phase, byte: u8)
    ensures
        phase.next(0x1b) == Phase::Escape,
        phase.next(0x18) == Phase::Text,
        phase.next(0x1a) == Phase::Text,
        Phase::Text.next(byte) == (if byte == 0x1b {
            Phase::Escape
        } else {
            Phase::Text
        }),
        (phase is Escape || phase is Bracket || phase is Control) && (byte < 0x18 || byte == 0x19
            || 0x1c <= byte < 0x20 || byte >= 0x7f) ==> phase.next(byte) == phase,
        (phase is Command || phase is Colors) && (byte < 0x07 || 0x07 < byte < 0x18 || byte == 0x19
            || 0x1c <= byte < 0x20) ==> phase.next(byte) == phase,
        phase is Command || phase is Colors ==> phase.next(0x07) == Phase::Text,
        phase is Bracket && (0x20 <= byte < 0x30 || 0x40 <= byte < 0x7f) ==> phase.next(byte)
            == Phase::Text,
        phase is Control && (0x20 <= byte < 0x30 || 0x3c <= byte < 0x7f) ==> phase.next(byte)
            == Phase::Text,
        phase is Escape && 0x20 <= byte < 0x7f && byte != 0x5b && byte != 0x5d ==> phase.next(byte)
            == Phase::Text,
        Phase::Escape.next(0x5b) == Phase::Bracket,
        Phase::Escape.next(0x5d) == Phase::Command(Number::Empty),
{
}

/// The commands that take colors are four, ten, eleven and twelve.
pub proof fn colors_are_set_by_four_commands(a: u8, b: u8)
    requires
        a >= 0x20,
        b >= 0x20,
    ensures
        ({
            let after = |phase: Phase| phase.next(0x3b) == (Phase::Colors {
                ended: 1,
                param: Param::Empty,
            });
            let one = Phase::Command(Number::Empty).next(a);
            &&& a != 0x3b ==> (after(one) <==> a == 0x34)
            &&& a != 0x3b && b != 0x3b ==> (after(one.next(b)) <==> a == 0x31 && 0x30 <= b <= 0x32)
            &&& !after(Phase::Command(Number::Empty))
        }),
{
}

/// A color written `#` holds twenty-two digits, and the next is one too many.
/// Each `;` begins a parameter anew, up to the fifteenth.
pub proof fn a_color_holds_so_many_digits(ended: u8, digits: Seq<u8>, byte: u8)
    requires
        forall|i: int| 0 <= i < digits.len() ==> #[trigger] digits[i] >= 0x20 && digits[i] != 0x3b,
        byte >= 0x20,
        byte != 0x3b,
    ensures
        ({
            let hex = (Phase::Colors { ended, param: Param::Empty }).next(0x23).read(digits);
            &&& hex.is_full(byte) <==> digits.len() >= 22
            &&& !hex.is_full(0x3b)
            &&& ended < 15 ==> hex.next(0x3b) == (Phase::Colors {
                ended: (ended + 1) as u8,
                param: Param::Empty,
            })
            &&& ended >= 15 ==> hex.next(0x3b) == Phase::Text
        }),
        byte != 0x23 ==> (Phase::Colors { ended, param: Param::Empty }).next(byte) == (
        Phase::Colors { ended, param: Param::Else }),
        (Phase::Colors { ended, param: Param::Else }).next(byte) == (Phase::Colors {
            ended,
            param: Param::Else,
        }),
{
    lemma_hex(ended, digits);
}

proof fn lemma_hex(ended: u8, digits: Seq<u8>)
    requires
        forall|i: int| 0 <= i < digits.len() ==> #[trigger] digits[i] >= 0x20 && digits[i] != 0x3b,
    ensures
        (Phase::Colors { ended, param: Param::Empty }).next(0x23).read(digits) == (Phase::Colors {
            ended,
            param: Param::Hex(
                if digits.len() < 22 {
                    digits.len() as u8
                } else {
                    22
                },
            ),
        }),
    decreases digits.len(),
{
    if digits.len() > 0 {
        let fewer = digits.drop_last();
        assert forall|i: int| 0 <= i < fewer.len() implies #[trigger] fewer[i] >= 0x20 && fewer[i]
            != 0x3b by {
            assert(fewer[i] == digits[i]);
        }
        lemma_hex(ended, fewer);
        assert(digits[digits.len() - 1] == digits.last());
    }
}

/// A text is calm up to the first byte that does something to the stacks, is a
/// digit too many, or begins a sequence behind something else; and no further.
pub proof fn a_text_is_calm_up_to_what_is_not(phase: Phase, text: Seq<u8>, i: int)
    requires
        0 <= i < text.len(),
    ensures
        ({
            let before = phase.read(text.take(i));
            let stirs = before.key(text[i]) is Some || before.is_full(text[i]) || (text[i] == 0x1b
                && i > 0);
            &&& i < phase.calm(text) ==> !stirs
            &&& i == phase.calm(text) ==> stirs
        }),
        phase.calm(text) <= text.len(),
        phase.run(text) >= 1,
        phase.calm(text) >= 1 ==> phase.run(text) == phase.calm(text),
        phase.calm(text) == 0 ==> phase.run(text) == 1,
    decreases text.len(),
{
    let before = text.drop_last();
    phase.lemma_calm_len(text);
    phase.lemma_calm_len(before);
    if i < before.len() {
        a_text_is_calm_up_to_what_is_not(phase, before, i);
        assert(before.take(i) =~= text.take(i));
        assert(before[i] == text[i]);
    } else {
        assert(text.take(i) =~= before);
    }
}

/// A push is one more on the screen that is shown, and from the four thousand
/// and ninety-seventh on takes a title; a pop is so many fewer, down to none.
/// The other screen's modes stay as they are.
pub proof fn a_push_is_one_more_and_a_pop_so_many_fewer(stacks: Stacks, alt: bool, n: u16)
    requires
        stacks.shown(alt) < isize::MAX,
    ensures
        stacks.shown(true) == stacks.alt && stacks.shown(false) == stacks.main,
        ({
            let pushed = stacks.keyed(alt, Key::Push);
            let popped = stacks.keyed(alt, Key::Pop(n));
            let room = stacks.shown(alt) < 4096 || stacks.titles > 0;
            &&& stacks.keyboard ==> (stacks.has_room(alt, Key::Push) <==> room)
            &&& stacks.keyboard && room ==> {
                &&& pushed.shown(alt) == stacks.shown(alt) + 1
                &&& pushed.shown(!alt) == stacks.shown(!alt)
                &&& pushed.titles == stacks.titles - (if stacks.shown(alt) < 4096 {
                    0int
                } else {
                    1
                })
                &&& pushed.keyboard
            }
            &&& stacks.keyboard ==> {
                &&& n <= stacks.shown(alt) ==> popped.shown(alt) + n == stacks.shown(alt)
                &&& n > stacks.shown(alt) ==> popped.shown(alt) == 0
                &&& popped.shown(!alt) == stacks.shown(!alt)
                &&& popped.titles == stacks.titles && popped.keyboard
            }
            &&& !stacks.keyboard ==> pushed == stacks && popped == stacks && stacks.has_room(
                alt,
                Key::Push,
            )
        }),
{
}

/// A title pushed is one more, up to four thousand and ninety-six; one popped is
/// one fewer, down to none. Neither touches the modes, and there is always room
/// for it. A reset leaves nothing.
pub proof fn a_title_is_one_more_or_one_fewer(stacks: Stacks, alt: bool, n: u16)
    ensures
        ({
            let pushed = stacks.keyed(alt, Key::PushTitle);
            let popped = stacks.keyed(alt, Key::PopTitle);
            let reset = stacks.keyed(alt, Key::Reset);
            &&& stacks.titles < 4096 ==> pushed.titles == stacks.titles + 1
            &&& stacks.titles >= 4096 ==> pushed.titles == stacks.titles
            &&& stacks.titles > 0 ==> popped.titles == stacks.titles - 1
            &&& stacks.titles == 0 ==> popped.titles == 0
            &&& pushed.main == stacks.main && pushed.alt == stacks.alt && pushed.keyboard
                == stacks.keyboard
            &&& popped.main == stacks.main && popped.alt == stacks.alt && popped.keyboard
                == stacks.keyboard
            &&& reset.main == 0 && reset.alt == 0 && reset.titles == 0 && reset.keyboard
                == stacks.keyboard
            &&& stacks.has_room(alt, Key::PushTitle) && stacks.has_room(alt, Key::PopTitle)
                && stacks.has_room(alt, Key::Reset) && stacks.has_room(alt, Key::Pop(n))
        }),
{
}

/// A run moves the stacks where it is the last byte of a sequence that does,
/// and then as that sequence does.
pub proof fn a_run_moves_the_stacks_by_its_key(
    stacks: Stacks,
    alt: bool,
    phase: Phase,
    run: Seq<u8>,
)
    requires
        run.len() > 0,
    ensures
        run.len() > 1 ==> stacks.after(alt, phase, run) == stacks,
        run.len() == 1 && phase.key(run[0]) is None ==> stacks.after(alt, phase, run) == stacks,
        run.len() == 1 ==> (phase.key(run[0]) matches Some(key) ==> stacks.after(alt, phase, run)
            == stacks.keyed(alt, key)),
{
}

/// A run is handed over as it is where there is room for what it does. A push
/// with no room is cancelled, and a digit too many left out.
pub proof fn a_push_with_no_room_is_cancelled(phase: Phase, stacks: Stacks, alt: bool, byte: u8)
    requires
        stacks.shown(alt) < isize::MAX,
    ensures
        ({
            let run = seq![byte];
            let handed = watch::handed(phase, stacks, alt, run);
            let full = stacks.keyboard && stacks.shown(alt) >= 4096 && stacks.titles == 0;
            &&& phase.key(byte) == Some(Key::Push) && full ==> handed == seq![0x18u8]
            &&& phase.key(byte) == Some(Key::Push) && !full ==> handed == run
            &&& phase.key(byte) is Some && phase.key(byte) != Some(Key::Push) ==> handed == run
            &&& phase.key(byte) is None && phase.is_full(byte) ==> handed.len() == 0
            &&& phase.key(byte) is None && !phase.is_full(byte) ==> handed == run
        }),
{
    let run = seq![byte];
    assert(run.drop_last() =~= Seq::<u8>::empty());
    assert(phase.calm(Seq::<u8>::empty()) == 0);
    assert(phase.read(Seq::<u8>::empty()) == phase);
    assert(run.last() == byte);
}

} // verus!
