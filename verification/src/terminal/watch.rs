//! What a terminal is about to be told to push, counted ahead of it.
//!
//! A program may push keyboard modes, and titles, and pop them again. A full
//! stack of modes makes room by taking a title from the other stack, whether
//! there is one or not. So the bytes are followed here as far as that asks: to
//! the sequences that push and pop. The one other thing a terminal cannot be
//! handed whole is a color of more digits than a number holds.

use vstd::prelude::*;

verus! {

/// The byte that begins a sequence.
pub const ESC: u8 = 0x1b;

/// The byte that breaks a sequence off.
pub const CAN: u8 = 0x18;

/// The modes, and the titles, a stack holds before it makes room.
pub const STACK: usize = 4096;

/// The parameters of a control sequence past which it is ignored.
pub const PARAMS: u8 = 32;

/// The parameters of a command past which they are dropped.
pub const COMMAND_PARAMS: u8 = 16;

/// The digits of a color that is written `#`: eight to each of its three
/// parts, and the last takes in what is left over.
pub const DIGITS: u8 = 22;

/// What a command's number reads so far.
#[derive(Debug, Clone, Copy, PartialEq, Eq, Structural)]
pub enum Number {
    Empty,
    One,
    /// Four, ten, eleven or twelve: a command that takes colors.
    Colors,
}

/// What a parameter of a command that takes colors reads so far.
#[derive(Debug, Clone, Copy, PartialEq, Eq, Structural)]
pub enum Param {
    Empty,
    /// `#`, and this many digits.
    Hex(u8),
    Else,
}

/// Where a parser is.
#[derive(Debug, Clone, Copy, PartialEq, Eq, Structural)]
pub enum Phase {
    /// In text, or in a sequence that neither pushes, pops nor sets a color.
    Text,
    /// Behind an escape.
    Escape,
    /// Behind the bracket of a control sequence.
    Bracket,
    /// In the parameters of a control sequence: the mark they begin with, or
    /// zero, the first of them, and how many have ended.
    Control { mark: u8, first: u16, ended: u8 },
    /// In the number of a command.
    Command(Number),
    /// In the parameters of a command that takes colors, of which this many
    /// have ended, the number included.
    Colors { ended: u8, param: Param },
}

/// What a sequence does to the stacks.
#[derive(Debug, Clone, Copy, PartialEq, Eq, Structural)]
pub enum Key {
    Push,
    Pop(u16),
    PushTitle,
    PopTitle,
    /// Everything is as it was at the start.
    Reset,
}

/// The digit a byte is.
pub open spec fn is_digit(byte: u8) -> bool {
    0x30 <= byte <= 0x39
}

/// A number with one more digit, or the largest there is.
pub open spec fn extended(first: u16, byte: u8) -> u16 {
    if first * 10 + (byte - 0x30) > u16::MAX {
        u16::MAX
    } else {
        (first * 10 + (byte - 0x30)) as u16
    }
}

/// Whether a sequence goes on as if a byte were not there: a control that
/// neither begins one nor breaks it off, or a byte that is no ASCII.
pub open spec fn passed_over(byte: u8) -> bool {
    (byte < 0x20 && byte != ESC && byte != CAN && byte != 0x1a) || byte >= 0x7f
}

/// Whether a byte is part of a command's parameter.
pub open spec fn is_put(byte: u8) -> bool {
    byte >= 0x20 && byte != 0x3b
}

impl Number {
    /// The number, a byte on: none of those that matter begins otherwise.
    pub open spec fn put(self, byte: u8) -> Option<Number> {
        match self {
            Number::Empty => if byte == 0x34 {
                Some(Number::Colors)
            } else if byte == 0x31 {
                Some(Number::One)
            } else {
                None
            },
            Number::One => if 0x30 <= byte <= 0x32 {
                Some(Number::Colors)
            } else {
                None
            },
            Number::Colors => None,
        }
    }
}

impl Param {
    /// The parameter, a byte on.
    pub open spec fn put(self, byte: u8) -> Param {
        match self {
            Param::Empty => if byte == 0x23 {
                Param::Hex(0)
            } else {
                Param::Else
            },
            Param::Hex(digits) => if digits < DIGITS {
                Param::Hex((digits + 1) as u8)
            } else {
                Param::Hex(digits)
            },
            Param::Else => Param::Else,
        }
    }
}

impl Phase {
    /// Where a parser is, a byte on.
    pub open spec fn next(self, byte: u8) -> Phase {
        if byte == ESC {
            Phase::Escape
        } else {
            match self {
                Phase::Text => Phase::Text,
                Phase::Escape => if passed_over(byte) {
                    self
                } else if byte == 0x5b {
                    Phase::Bracket
                } else if byte == 0x5d {
                    Phase::Command(Number::Empty)
                } else {
                    Phase::Text
                },
                Phase::Bracket => if passed_over(byte) {
                    self
                } else if is_digit(byte) {
                    Phase::Control { mark: 0, first: extended(0, byte), ended: 0 }
                } else if byte == 0x3a || byte == 0x3b {
                    Phase::Control { mark: 0, first: 0, ended: 1 }
                } else if 0x3c <= byte <= 0x3f {
                    Phase::Control { mark: byte, first: 0, ended: 0 }
                } else {
                    Phase::Text
                },
                Phase::Control { mark, first, ended } => if passed_over(byte) {
                    self
                } else if is_digit(byte) {
                    if ended == 0 {
                        Phase::Control { mark, first: extended(first, byte), ended }
                    } else {
                        self
                    }
                } else if byte == 0x3a || byte == 0x3b {
                    if ended < PARAMS {
                        Phase::Control { mark, first, ended: (ended + 1) as u8 }
                    } else {
                        self
                    }
                } else {
                    Phase::Text
                },
                Phase::Command(number) => if is_put(byte) {
                    match number.put(byte) {
                        Some(number) => Phase::Command(number),
                        None => Phase::Text,
                    }
                } else if byte == 0x3b {
                    if number == Number::Colors {
                        Phase::Colors { ended: 1, param: Param::Empty }
                    } else {
                        Phase::Text
                    }
                } else if passed_over(byte) && byte != 0x07 {
                    self
                } else {
                    Phase::Text
                },
                Phase::Colors { ended, param } => if is_put(byte) {
                    Phase::Colors { ended, param: param.put(byte) }
                } else if byte == 0x3b {
                    if ended + 1 < COMMAND_PARAMS {
                        Phase::Colors { ended: (ended + 1) as u8, param: Param::Empty }
                    } else {
                        Phase::Text
                    }
                } else if passed_over(byte) && byte != 0x07 {
                    self
                } else {
                    Phase::Text
                },
            }
        }
    }

    /// Where a parser is, a text on.
    pub open spec fn read(self, text: Seq<u8>) -> Phase
        decreases text.len(),
    {
        if text.len() == 0 {
            self
        } else {
            self.read(text.drop_last()).next(text.last())
        }
    }

    /// What a byte does to the stacks, where it ends a sequence that does.
    pub open spec fn key(self, byte: u8) -> Option<Key> {
        match self {
            Phase::Escape => if byte == 0x63 {
                Some(Key::Reset)
            } else {
                None
            },
            Phase::Control { mark, first, ended } => if ended >= PARAMS {
                None
            } else if mark == 0x3e && byte == 0x75 {
                Some(Key::Push)
            } else if mark == 0x3c && byte == 0x75 {
                Some(
                    Key::Pop(
                        if first == 0 {
                            1
                        } else {
                            first
                        },
                    ),
                )
            } else if mark == 0 && byte == 0x74 && first == 22 {
                Some(Key::PushTitle)
            } else if mark == 0 && byte == 0x74 && first == 23 {
                Some(Key::PopTitle)
            } else {
                None
            },
            _ => None,
        }
    }

    /// Whether a byte is a digit too many of a color.
    pub open spec fn is_full(self, byte: u8) -> bool {
        self matches Phase::Colors { param: Param::Hex(digits), .. } && digits >= DIGITS && is_put(
            byte,
        )
    }

    /// How much of a text comes before anything it does to the stacks, before a
    /// digit too many, and before another sequence begins.
    pub open spec fn calm(self, text: Seq<u8>) -> nat
        decreases text.len(),
    {
        if text.len() == 0 {
            0
        } else {
            let before = text.drop_last();
            let phase = self.read(before);
            if self.calm(before) < before.len() || phase.key(text.last()) is Some || phase.is_full(
                text.last(),
            ) || (text.last() == ESC && before.len() > 0) {
                self.calm(before)
            } else {
                text.len()
            }
        }
    }

    /// How much of a text a parser is handed at once.
    pub open spec fn run(self, text: Seq<u8>) -> nat {
        if self.calm(text) == 0 {
            1
        } else {
            self.calm(text)
        }
    }
}

/// What a terminal's stacks hold: the modes pushed on its main screen, those
/// on the alternate one, and the titles. Without the keyboard protocol no modes
/// are pushed.
#[derive(Debug, Clone, Copy, PartialEq, Eq, Structural)]
pub struct Stacks {
    pub keyboard: bool,
    pub main: usize,
    pub alt: usize,
    pub titles: usize,
}

impl Stacks {
    /// The modes pushed on the screen that is shown.
    pub open spec fn shown(self, alt: bool) -> usize {
        if alt {
            self.alt
        } else {
            self.main
        }
    }

    /// The stacks with so many modes on the screen that is shown.
    pub open spec fn with_shown(self, alt: bool, modes: usize) -> Stacks {
        if alt {
            Stacks { alt: modes, ..self }
        } else {
            Stacks { main: modes, ..self }
        }
    }

    /// Whether there is room for what a sequence pushes. Where a stack of modes
    /// is full it is a title that makes room, so that there has to be one.
    pub open spec fn has_room(self, alt: bool, key: Key) -> bool {
        key == Key::Push && self.keyboard ==> self.shown(alt) < isize::MAX && (self.shown(alt)
            < STACK || self.titles > 0)
    }

    /// The stacks once a sequence is done with them.
    pub open spec fn keyed(self, alt: bool, key: Key) -> Stacks {
        match key {
            Key::Push => if !self.keyboard {
                self
            } else {
                let stacks = self.with_shown(alt, (self.shown(alt) + 1) as usize);
                if self.shown(alt) < STACK {
                    stacks
                } else {
                    Stacks { titles: (self.titles - 1) as usize, ..stacks }
                }
            },
            Key::Pop(n) => if !self.keyboard {
                self
            } else if n < self.shown(alt) {
                self.with_shown(alt, (self.shown(alt) - n) as usize)
            } else {
                self.with_shown(alt, 0)
            },
            Key::PushTitle => if self.titles < STACK {
                Stacks { titles: (self.titles + 1) as usize, ..self }
            } else {
                self
            },
            Key::PopTitle => if self.titles > 0 {
                Stacks { titles: (self.titles - 1) as usize, ..self }
            } else {
                self
            },
            Key::Reset => Stacks { main: 0, alt: 0, titles: 0, ..self },
        }
    }

    /// The stacks once a run of a text is done with them.
    pub open spec fn after(self, alt: bool, phase: Phase, run: Seq<u8>) -> Stacks {
        if run.len() == 1 && phase.key(run[0]) is Some {
            self.keyed(alt, phase.key(run[0])->0)
        } else {
            self
        }
    }
}

/// Whether a run of a text can be handed to a parser and a terminal as it is:
/// it is calm, or the last byte of a sequence that the stacks have room for.
pub open spec fn allowed(phase: Phase, stacks: Stacks, alt: bool, run: Seq<u8>) -> bool {
    phase.calm(run) == run.len() || (run.len() == 1 && phase.key(run[0]) is Some && stacks.has_room(
        alt,
        phase.key(run[0])->0,
    ))
}

/// What a parser is handed of a run of a text: the run, but for a push that
/// there is no room for, which is broken off, and for a digit too many, which
/// is left out.
pub open spec fn handed(phase: Phase, stacks: Stacks, alt: bool, run: Seq<u8>) -> Seq<u8> {
    if allowed(phase, stacks, alt, run) {
        run
    } else if phase.key(run[0]) is Some {
        seq![CAN]
    } else {
        Seq::empty()
    }
}

impl Number {
    /// The number, a byte on.
    fn step(self, byte: u8) -> (number: Option<Number>)
        ensures
            number == self.put(byte),
    {
        match self {
            Number::Empty => if byte == 0x34 {
                Some(Number::Colors)
            } else if byte == 0x31 {
                Some(Number::One)
            } else {
                None
            },
            Number::One => if 0x30 <= byte && byte <= 0x32 {
                Some(Number::Colors)
            } else {
                None
            },
            Number::Colors => None,
        }
    }
}

impl Param {
    /// The parameter, a byte on.
    fn step(self, byte: u8) -> (param: Param)
        ensures
            param == self.put(byte),
    {
        match self {
            Param::Empty => if byte == 0x23 {
                Param::Hex(0)
            } else {
                Param::Else
            },
            Param::Hex(digits) => if digits < DIGITS {
                Param::Hex(digits + 1)
            } else {
                Param::Hex(digits)
            },
            Param::Else => Param::Else,
        }
    }
}

/// Whether a sequence goes on as if a byte were not there.
fn is_passed_over(byte: u8) -> (yes: bool)
    ensures
        yes == passed_over(byte),
{
    (byte < 0x20 && byte != ESC && byte != CAN && byte != 0x1a) || byte >= 0x7f
}

/// A number with one more digit, or the largest there is.
fn extend(first: u16, byte: u8) -> (number: u16)
    requires
        is_digit(byte),
    ensures
        number == extended(first, byte),
{
    let number: u32 = first as u32 * 10 + (byte - 0x30) as u32;
    if number > u16::MAX as u32 {
        u16::MAX
    } else {
        number as u16
    }
}

impl Phase {
    /// Where a parser is, a byte on.
    pub(crate) fn step(self, byte: u8) -> (phase: Phase)
        ensures
            phase == self.next(byte),
    {
        if byte == ESC {
            return Phase::Escape;
        }
        match self {
            Phase::Text => Phase::Text,
            Phase::Escape => if is_passed_over(byte) {
                self
            } else if byte == 0x5b {
                Phase::Bracket
            } else if byte == 0x5d {
                Phase::Command(Number::Empty)
            } else {
                Phase::Text
            },
            Phase::Bracket => if is_passed_over(byte) {
                self
            } else if 0x30 <= byte && byte <= 0x39 {
                Phase::Control { mark: 0, first: extend(0, byte), ended: 0 }
            } else if byte == 0x3a || byte == 0x3b {
                Phase::Control { mark: 0, first: 0, ended: 1 }
            } else if 0x3c <= byte && byte <= 0x3f {
                Phase::Control { mark: byte, first: 0, ended: 0 }
            } else {
                Phase::Text
            },
            Phase::Control { mark, first, ended } => if is_passed_over(byte) {
                self
            } else if 0x30 <= byte && byte <= 0x39 {
                if ended == 0 {
                    Phase::Control { mark, first: extend(first, byte), ended }
                } else {
                    self
                }
            } else if byte == 0x3a || byte == 0x3b {
                if ended < PARAMS {
                    Phase::Control { mark, first, ended: ended + 1 }
                } else {
                    self
                }
            } else {
                Phase::Text
            },
            Phase::Command(_) | Phase::Colors { .. } => self.step_command(byte),
        }
    }

    /// Where a parser in a command is, a byte on.
    fn step_command(self, byte: u8) -> (phase: Phase)
        requires
            self is Command || self is Colors,
            byte != ESC,
        ensures
            phase == self.next(byte),
    {
        if byte < 0x20 {
            return if is_passed_over(byte) && byte != 0x07 {
                self
            } else {
                Phase::Text
            };
        }
        match self {
            Phase::Command(number) => if byte == 0x3b {
                match number {
                    Number::Colors => Phase::Colors { ended: 1, param: Param::Empty },
                    _ => Phase::Text,
                }
            } else {
                match number.step(byte) {
                    Some(number) => Phase::Command(number),
                    None => Phase::Text,
                }
            },
            Phase::Colors { ended, param } => if byte == 0x3b {
                if ended < COMMAND_PARAMS - 1 {
                    Phase::Colors { ended: ended + 1, param: Param::Empty }
                } else {
                    Phase::Text
                }
            } else {
                Phase::Colors { ended, param: param.step(byte) }
            },
            _ => self,
        }
    }

    /// What a byte does to the stacks, where it ends a sequence that does.
    fn pressed(self, byte: u8) -> (key: Option<Key>)
        ensures
            key == self.key(byte),
    {
        match self {
            Phase::Escape => if byte == 0x63 {
                Some(Key::Reset)
            } else {
                None
            },
            Phase::Control { mark, first, ended } => if ended >= PARAMS {
                None
            } else if mark == 0x3e && byte == 0x75 {
                Some(Key::Push)
            } else if mark == 0x3c && byte == 0x75 {
                if first == 0 {
                    Some(Key::Pop(1))
                } else {
                    Some(Key::Pop(first))
                }
            } else if mark == 0 && byte == 0x74 && first == 22 {
                Some(Key::PushTitle)
            } else if mark == 0 && byte == 0x74 && first == 23 {
                Some(Key::PopTitle)
            } else {
                None
            },
            _ => None,
        }
    }

    /// Whether a byte is a digit too many of a color.
    fn fills(self, byte: u8) -> (yes: bool)
        ensures
            yes == self.is_full(byte),
    {
        match self {
            Phase::Colors { param: Param::Hex(digits), .. } => digits >= DIGITS && byte >= 0x20
                && byte != 0x3b,
            _ => false,
        }
    }

    /// A text is calm for no longer than it is.
    pub proof fn lemma_calm_len(self, text: Seq<u8>)
        ensures
            self.calm(text) <= text.len(),
        decreases text.len(),
    {
        if text.len() > 0 {
            self.lemma_calm_len(text.drop_last());
        }
    }

    /// What comes behind the calm part of a text does not make it longer.
    proof fn lemma_calm_take(self, text: Seq<u8>, n: int)
        requires
            0 <= n <= text.len(),
            self.calm(text.take(n)) < n,
        ensures
            self.calm(text) == self.calm(text.take(n)),
        decreases text.len(),
    {
        if n == text.len() {
            assert(text.take(n) =~= text);
        } else {
            assert(text.drop_last().take(n) =~= text.take(n));
            self.lemma_calm_take(text.drop_last(), n);
        }
    }

    /// How much of a text, from `at`, a parser is handed at once.
    pub(crate) fn run_from(self, text: &[u8], at: usize) -> (end: usize)
        requires
            at < text@.len(),
        ensures
            at < end <= text@.len(),
            end - at == self.run(text@.skip(at as int)),
            end - at > 1 ==> self.calm(text@.subrange(at as int, end as int)) == end - at,
    {
        let ghost rest = text@.skip(at as int);
        let mut end = at;
        let mut phase = self;
        while end < text.len()
            invariant
                at <= end <= text@.len(),
                at < text@.len(),
                rest == text@.skip(at as int),
                phase == self.read(rest.take(end - at)),
                self.calm(rest.take(end - at)) == end - at,
            decreases text@.len() - end,
        {
            let byte = text[end];
            let ghost longer = rest.take(end - at + 1);
            assert(longer.drop_last() =~= rest.take(end - at));
            assert(longer.last() == byte);
            if phase.pressed(byte).is_some() || phase.fills(byte) || (byte == ESC && end > at) {
                proof {
                    self.lemma_calm_take(rest, end - at + 1);
                    assert(text@.subrange(at as int, end as int) =~= rest.take(end - at));
                }
                return if end == at {
                    at + 1
                } else {
                    end
                };
            }
            phase = phase.step(byte);
            end += 1;
        }
        proof {
            assert(rest.take(end - at) =~= rest);
            assert(text@.subrange(at as int, end as int) =~= rest);
        }
        end
    }
}

impl Stacks {
    /// Whether there is room for what a sequence pushes.
    fn takes(self, alt: bool, key: Key) -> (yes: bool)
        ensures
            yes == self.has_room(alt, key),
    {
        let shown = if alt {
            self.alt
        } else {
            self.main
        };
        match key {
            Key::Push => !self.keyboard || (shown < isize::MAX as usize && (shown < STACK
                || self.titles > 0)),
            _ => true,
        }
    }

    /// The stacks with so many modes on the screen that is shown.
    fn set_shown(self, alt: bool, modes: usize) -> (stacks: Stacks)
        ensures
            stacks == self.with_shown(alt, modes),
    {
        if alt {
            Stacks { alt: modes, ..self }
        } else {
            Stacks { main: modes, ..self }
        }
    }

    /// The stacks once a sequence is done with them.
    fn press(self, alt: bool, key: Key) -> (stacks: Stacks)
        requires
            self.has_room(alt, key),
        ensures
            stacks == self.keyed(alt, key),
    {
        let shown = if alt {
            self.alt
        } else {
            self.main
        };
        match key {
            Key::Push => if !self.keyboard {
                self
            } else {
                let stacks = self.set_shown(alt, shown + 1);
                if shown < STACK {
                    stacks
                } else {
                    Stacks { titles: self.titles - 1, ..stacks }
                }
            },
            Key::Pop(n) => if !self.keyboard {
                self
            } else if (n as usize) < shown {
                self.set_shown(alt, shown - n as usize)
            } else {
                self.set_shown(alt, 0)
            },
            Key::PushTitle => if self.titles < STACK {
                Stacks { titles: self.titles + 1, ..self }
            } else {
                self
            },
            Key::PopTitle => if self.titles > 0 {
                Stacks { titles: self.titles - 1, ..self }
            } else {
                self
            },
            Key::Reset => Stacks { main: 0, alt: 0, titles: 0, ..self },
        }
    }
}

/// Where a parser is and what a terminal's stacks hold.
#[derive(Debug, Clone, Copy, PartialEq, Eq, Structural)]
pub struct Watch {
    pub phase: Phase,
    pub stacks: Stacks,
}

impl Watch {
    /// What a parser is handed of a byte that is alone in its run.
    pub(crate) fn weigh(&self, alt: bool, byte: u8) -> (given: Option<u8>)
        ensures
            given matches Some(given) ==> handed(self.phase, self.stacks, alt, seq![byte])
                == seq![given] && allowed(self.phase, self.stacks, alt, seq![given]),
            given is None ==> handed(self.phase, self.stacks, alt, seq![byte]) == Seq::<u8>::empty(),
    {
        let given = match self.phase.pressed(byte) {
            Some(key) => if self.stacks.takes(alt, key) {
                Some(byte)
            } else {
                Some(CAN)
            },
            None => if self.phase.fills(byte) {
                None
            } else {
                Some(byte)
            },
        };
        proof {
            reveal_with_fuel(Phase::calm, 2);
            reveal_with_fuel(Phase::read, 2);
            assert(seq![byte].drop_last() =~= Seq::<u8>::empty());
            assert(seq![CAN].drop_last() =~= Seq::<u8>::empty());
        }
        given
    }

    /// A run of a text has been handed over.
    pub(crate) fn follow(&mut self, alt: bool, run: &[u8])
        requires
            run@.len() > 0,
            allowed(old(self).phase, old(self).stacks, alt, run@),
        ensures
            final(self).phase == old(self).phase.read(run@),
            final(self).stacks == old(self).stacks.after(alt, old(self).phase, run@),
    {
        proof {
            reveal_with_fuel(Phase::calm, 2);
            if run@.len() == 1 {
                assert(run@.drop_last() =~= Seq::<u8>::empty());
            }
        }
        if run.len() == 1 {
            if let Some(key) = self.phase.pressed(run[0]) {
                self.stacks = self.stacks.press(alt, key);
            }
        }
        let ghost phase = self.phase;
        let ghost stacks = self.stacks;
        let mut at: usize = 0;
        assert(run@.take(0) =~= Seq::<u8>::empty());
        while at < run.len()
            invariant
                at <= run@.len(),
                self.phase == phase.read(run@.take(at as int)),
                self.stacks == stacks,
            decreases run@.len() - at,
        {
            assert(run@.take(at + 1).drop_last() =~= run@.take(at as int));
            self.phase = self.phase.step(run[at]);
            at += 1;
        }
        assert(run@.take(at as int) =~= run@);
    }
}

/// What a parser is not handed of a run as it is: a push onto a full stack of
/// modes, which is broken off, and a digit too many of a color, which is left
/// out. What it is handed in place of them is safe to hand over, and so is every
/// other run.
pub proof fn what_is_held_back(phase: Phase, stacks: Stacks, alt: bool, run: Seq<u8>)
    requires
        run.len() == 1 || (run.len() > 0 && phase.calm(run) == run.len()),
    ensures
        handed(phase, stacks, alt, run) != run ==> run.len() == 1,
        handed(phase, stacks, alt, run) != run && !phase.is_full(run[0]) ==> phase.key(run[0])
            == Some(Key::Push) && stacks.keyboard && stacks.shown(alt) >= STACK && handed(
            phase,
            stacks,
            alt,
            run,
        ) == seq![CAN],
        phase.is_full(run[0]) && run.len() == 1 ==> handed(phase, stacks, alt, run).len() == 0,
        handed(phase, stacks, alt, run).len() > 0 ==> allowed(
            phase,
            stacks,
            alt,
            handed(phase, stacks, alt, run),
        ),
{
    reveal_with_fuel(Phase::calm, 2);
    reveal_with_fuel(Phase::read, 2);
    assert(seq![CAN].drop_last() =~= Seq::<u8>::empty());
    if run.len() == 1 {
        assert(run.drop_last() =~= Seq::<u8>::empty());
    }
}

} // verus!
