//! The inline marks an app spells itself.
//!
//! The built-in marks — bold, italic, strike, code, links — have a spelling
//! CommonMark already reads. Underline, highlight and a colour do not, so an
//! app that wants them registers a name and the delimiter that spells it.
//!
//! A delimiter markdown already spells (`*`, `_`, `` ` ``, `~`, `[`) is yours to
//! avoid: CommonMark reads it first and the registration never fires.

use vstd::prelude::*;

use crate::text::same_text;

verus! {

/// The custom marks a document is read and written with.
#[derive(Clone, Debug, PartialEq, Eq)]
pub struct Marks {
    entries: Vec<Entry>,
}

/// A mark: the name it goes by, and what spells it.
#[derive(Clone, Debug, PartialEq, Eq)]
pub struct Entry {
    pub name: String,
    pub delimiter: String,
}

/// A mark, as mathematical values.
#[verifier::ext_equal]
pub struct EntryView {
    pub name: Seq<char>,
    pub delimiter: Seq<char>,
}

impl View for Entry {
    type V = EntryView;

    open spec fn view(&self) -> EntryView {
        EntryView { name: self.name@, delimiter: self.delimiter@ }
    }
}

impl View for Marks {
    type V = Seq<EntryView>;

    closed spec fn view(&self) -> Seq<EntryView> {
        self.entries@.map_values(|entry: Entry| entry@)
    }
}

/// Whether a name or a delimiter is already among `entries`.
pub open spec fn taken(entries: Seq<EntryView>, name: Seq<char>, delimiter: Seq<char>) -> bool {
    exists|i: int|
        0 <= i < entries.len() && ((#[trigger] entries[i]).name == name || entries[i].delimiter
            == delimiter)
}

/// Whether every name and every delimiter has one reading.
pub open spec fn unambiguous(entries: Seq<EntryView>) -> bool {
    &&& forall|i: int| 0 <= i < entries.len() ==> (#[trigger] entries[i]).delimiter.len() > 0
    &&& forall|i: int, j: int|
        0 <= i < j < entries.len() ==> (#[trigger] entries[i]).name != (#[trigger] entries[j]).name
            && entries[i].delimiter != entries[j].delimiter
}

/// The length that decides which delimiter is tried first.
pub open spec fn delimiter_len(entry: EntryView) -> usize {
    vstd::utf8::encode_utf8(entry.delimiter).len() as usize
}

/// Whether entry `a` is tried before entry `b`: its delimiter is longer, or as
/// long and it was added first.
pub open spec fn tried_before(entries: Seq<EntryView>, a: int, b: int) -> bool {
    let (long, short) = (delimiter_len(entries[a]), delimiter_len(entries[b]));
    long > short || (long == short && a < b)
}

impl Default for Marks {
    fn default() -> (marks: Marks)
        ensures
            marks@ == Seq::<EntryView>::empty(),
    {
        Marks::new()
    }
}

impl Marks {
    pub fn new() -> (marks: Marks)
        ensures
            marks@ == Seq::<EntryView>::empty(),
    {
        let marks = Marks { entries: Vec::new() };
        assert(marks@ =~= Seq::<EntryView>::empty());
        marks
    }

    /// Register `name`, spelled by `delimiter` on both sides — `==lit==`.
    ///
    /// An empty delimiter, or a second registration of a name or a delimiter
    /// already taken, is ignored: a registry that can hold two answers for one
    /// spelling has no reading of a document to offer.
    pub fn with(self, name: String, delimiter: String) -> (marks: Marks)
        ensures
            marks@ == (if delimiter@.len() == 0 || taken(self@, name@, delimiter@) {
                self@
            } else {
                self@.push(EntryView { name: name@, delimiter: delimiter@ })
            }),
            unambiguous(self@) ==> unambiguous(marks@),
    {
        let mut marks = self;
        let mut found = false;
        let mut i: usize = 0;
        while i < marks.entries.len()
            invariant
                marks == self,
                i <= marks.entries@.len(),
                found == exists|j: int|
                    0 <= j < i && ((#[trigger] marks@[j]).name == name@ || marks@[j].delimiter
                        == delimiter@),
            decreases marks.entries@.len() - i,
        {
            let entry = &marks.entries[i];
            assert(marks@[i as int] == entry@);
            if same_text(entry.name.as_str(), name.as_str()) || same_text(
                entry.delimiter.as_str(),
                delimiter.as_str(),
            ) {
                found = true;
            }
            i = i + 1;
        }
        if !delimiter.as_str().is_empty() && !found {
            let ghost entry = EntryView { name: name@, delimiter: delimiter@ };
            marks.entries.push(Entry { name, delimiter });
            proof {
                assert(marks@ =~= self@.push(entry));
                if unambiguous(self@) {
                    assert forall|i: int, j: int| 0 <= i < j < marks@.len() implies (
                    #[trigger] marks@[i]).name != (#[trigger] marks@[j]).name && marks@[i].delimiter
                        != marks@[j].delimiter by {
                        assert(marks@[i] == self@[i]);
                        if j < self@.len() {
                            assert(marks@[j] == self@[j]);
                        }
                    }
                }
            }
        }
        marks
    }

    pub fn is_empty(&self) -> (yes: bool)
        ensures
            yes == (self@.len() == 0),
    {
        self.entries.len() == 0
    }

    /// Every registered name, in the order they were added.
    pub fn names(&self) -> (names: Vec<&str>)
        ensures
            names@.len() == self@.len(),
            forall|i: int| 0 <= i < names@.len() ==> (#[trigger] names@[i])@ == self@[i].name,
    {
        let mut names: Vec<&str> = Vec::new();
        let mut i: usize = 0;
        while i < self.entries.len()
            invariant
                i <= self.entries@.len(),
                names@.len() == i,
                forall|j: int| 0 <= j < i ==> (#[trigger] names@[j])@ == self@[j].name,
            decreases self.entries@.len() - i,
        {
            names.push(self.entries[i].name.as_str());
            i = i + 1;
        }
        names
    }

    /// What spells `name`, for a caller writing its own markdown.
    pub fn delimiter(&self, name: &str) -> (delimiter: Option<&str>)
        ensures
            delimiter is None <==> forall|i: int|
                0 <= i < self@.len() ==> (#[trigger] self@[i]).name != name@,
            delimiter matches Some(delimiter) ==> exists|i: int|
                0 <= i < self@.len() && (#[trigger] self@[i]).name == name@ && self@[i].delimiter
                    == delimiter@ && forall|j: int|
                    0 <= j < i ==> (#[trigger] self@[j]).name != name@,
    {
        let mut i: usize = 0;
        while i < self.entries.len()
            invariant
                i <= self.entries@.len(),
                forall|j: int| 0 <= j < i ==> (#[trigger] self@[j]).name != name@,
            decreases self.entries@.len() - i,
        {
            assert(self@[i as int] == self.entries@[i as int]@);
            if same_text(self.entries[i].name.as_str(), name) {
                return Some(self.entries[i].delimiter.as_str());
            }
            i = i + 1;
        }
        None
    }

    /// The entries by the places they were added at, longest delimiter first —
    /// `===` has to be tried before `==` or it is never reached.
    pub fn sorted(&self) -> (order: Vec<usize>)
        ensures
            order@.len() == self@.len(),
            forall|i: int| 0 <= i < order@.len() ==> (#[trigger] order@[i]) < self@.len(),
            forall|i: int, j: int|
                0 <= i < j < order@.len() ==> tried_before(
                    self@,
                    #[trigger] order@[i] as int,
                    #[trigger] order@[j] as int,
                ),
    {
        let mut order: Vec<usize> = Vec::new();
        let mut n: usize = 0;
        while n < self.entries.len()
            invariant
                n <= self.entries@.len(),
                order@.len() == n,
                forall|i: int| 0 <= i < n ==> (#[trigger] order@[i]) < n,
                forall|i: int, j: int|
                    0 <= i < j < n ==> tried_before(
                        self@,
                        #[trigger] order@[i] as int,
                        #[trigger] order@[j] as int,
                    ),
            decreases self.entries@.len() - n,
        {
            let len = self.entries[n].delimiter.as_str().len();
            assert(len == delimiter_len(self@[n as int]));
            let mut at: usize = n;
            while at > 0 && self.entries[order[at - 1]].delimiter.as_str().len() < len
                invariant
                    n < self.entries@.len(),
                    at <= n,
                    order@.len() == n,
                    len == delimiter_len(self@[n as int]),
                    forall|i: int| 0 <= i < n ==> (#[trigger] order@[i]) < n,
                    forall|i: int|
                        at <= i < n ==> delimiter_len(self@[#[trigger] order@[i] as int]) < len,
                decreases at,
            {
                assert(order@[at - 1] < n);
                assert(self@[order@[at - 1] as int] == self.entries@[order@[at - 1] as int]@);
                at = at - 1;
            }
            let ghost before = order@;
            proof {
                if at > 0 {
                    assert(before[at - 1] < n);
                    assert(self@[before[at - 1] as int] == self.entries@[before[at - 1] as int]@);
                    assert(delimiter_len(self@[before[at - 1] as int]) >= len);
                }
            }
            order.insert(at, n);
            proof {
                assert forall|i: int, j: int| 0 <= i < j < n + 1 implies tried_before(
                    self@,
                    #[trigger] order@[i] as int,
                    #[trigger] order@[j] as int,
                ) by {
                    let from_i = if i < at {
                        i
                    } else {
                        i - 1
                    };
                    let from_j = if j < at {
                        j
                    } else {
                        j - 1
                    };
                    if i == at {
                        assert(order@[j] == before[j - 1]);
                    } else if j == at {
                        assert(order@[i] == before[i]);
                        assert(before[i] < n);
                        if i < at - 1 {
                            assert(tried_before(
                                self@,
                                before[i] as int,
                                before[at - 1] as int,
                            ));
                        }
                    } else {
                        assert(order@[i] == before[from_i]);
                        assert(order@[j] == before[from_j]);
                    }
                }
                assert forall|i: int| 0 <= i < n + 1 implies (#[trigger] order@[i]) < n + 1 by {
                    if i < at {
                        assert(order@[i] == before[i]);
                    } else if i > at {
                        assert(order@[i] == before[i - 1]);
                    }
                }
            }
            n = n + 1;
        }
        order
    }

    pub fn index(&self, ix: usize) -> (entry: Option<&Entry>)
        ensures
            entry is Some <==> ix < self@.len(),
            entry matches Some(entry) ==> entry@ == self@[ix as int],
    {
        if ix < self.entries.len() {
            Some(&self.entries[ix])
        } else {
            None
        }
    }

    /// Where an entry was added.
    pub fn position(&self, entry: &Entry) -> (ix: Option<usize>)
        ensures
            ix is None <==> forall|i: int| 0 <= i < self@.len() ==> #[trigger] self@[i] != entry@,
            ix matches Some(ix) ==> ix < self@.len() && self@[ix as int] == entry@ && forall|j: int|
                0 <= j < ix ==> #[trigger] self@[j] != entry@,
    {
        let mut i: usize = 0;
        while i < self.entries.len()
            invariant
                i <= self.entries@.len(),
                forall|j: int| 0 <= j < i ==> #[trigger] self@[j] != entry@,
            decreases self.entries@.len() - i,
        {
            assert(self@[i as int] == self.entries@[i as int]@);
            if same_text(self.entries[i].name.as_str(), entry.name.as_str()) && same_text(
                self.entries[i].delimiter.as_str(),
                entry.delimiter.as_str(),
            ) {
                return Some(i);
            }
            i = i + 1;
        }
        None
    }
}

/// A reader's highlight colour, by name — the set Apple Books and Notes offer.
///
/// A name rather than a colour value, so a highlight saved under one look
/// paints under another.
#[derive(Clone, Copy, Debug, PartialEq, Eq, Hash, Structural)]
#[non_exhaustive]
pub enum HighlightColor {
    Yellow,
    Green,
    Blue,
    Pink,
    Purple,
}

impl Default for HighlightColor {
    fn default() -> (color: HighlightColor)
        ensures
            color == HighlightColor::Yellow,
    {
        HighlightColor::Yellow
    }
}

/// Whether the look is dark or light.
#[derive(Clone, Copy, Debug, PartialEq, Eq, Hash, Structural)]
pub enum Appearance {
    Dark,
    Light,
}

impl HighlightColor {
    /// Every colour, in the order a picker shows them.
    pub const ALL: [HighlightColor; 5] = [
        HighlightColor::Yellow,
        HighlightColor::Green,
        HighlightColor::Blue,
        HighlightColor::Pink,
        HighlightColor::Purple,
    ];

    /// The name to store.
    pub open spec fn stored(self) -> Seq<char> {
        match self {
            HighlightColor::Yellow => "yellow"@,
            HighlightColor::Green => "green"@,
            HighlightColor::Blue => "blue"@,
            HighlightColor::Pink => "pink"@,
            HighlightColor::Purple => "purple"@,
        }
    }

    /// The name to store. Stable across releases; [`Self::from_name`] reads it
    /// back.
    pub fn name(self) -> (name: &'static str)
        ensures
            name@ == self.stored(),
    {
        match self {
            HighlightColor::Yellow => "yellow",
            HighlightColor::Green => "green",
            HighlightColor::Blue => "blue",
            HighlightColor::Pink => "pink",
            HighlightColor::Purple => "purple",
        }
    }

    /// The colour a name stands for, if it is one's.
    pub fn from_name(name: &str) -> (color: Option<HighlightColor>)
        ensures
            color matches Some(color) ==> color.stored() == name@,
            color is None ==> forall|color: HighlightColor| #[trigger] color.stored() != name@,
    {
        if same_text(name, HighlightColor::Yellow.name()) {
            Some(HighlightColor::Yellow)
        } else if same_text(name, HighlightColor::Green.name()) {
            Some(HighlightColor::Green)
        } else if same_text(name, HighlightColor::Blue.name()) {
            Some(HighlightColor::Blue)
        } else if same_text(name, HighlightColor::Pink.name()) {
            Some(HighlightColor::Pink)
        } else if same_text(name, HighlightColor::Purple.name()) {
            Some(HighlightColor::Purple)
        } else {
            proof {
                assert forall|color: HighlightColor| #[trigger] color.stored() != name@ by {
                    match color {
                        HighlightColor::Yellow => {},
                        HighlightColor::Green => {},
                        HighlightColor::Blue => {},
                        HighlightColor::Pink => {},
                        HighlightColor::Purple => {},
                    }
                }
            }
            None
        }
    }

    /// The colour itself, at full strength — Apple's system colour for the
    /// appearance, as `0xRRGGBB`. What a picker paints a swatch in.
    pub open spec fn hex(self, appearance: Appearance) -> u32 {
        let dark = appearance == Appearance::Dark;
        match self {
            HighlightColor::Yellow => if dark {
                0xFFD60A
            } else {
                0xFFCC00
            },
            HighlightColor::Green => if dark {
                0x32D74B
            } else {
                0x28CD41
            },
            HighlightColor::Blue => if dark {
                0x0A84FF
            } else {
                0x007AFF
            },
            HighlightColor::Pink => if dark {
                0xFF375F
            } else {
                0xFF2D55
            },
            HighlightColor::Purple => if dark {
                0xBF5AF2
            } else {
                0xAF52DE
            },
        }
    }
}

/// A [`HighlightColor`] itself, at full strength, as `0xRRGGBB`.
pub fn highlight_solid(color: HighlightColor, appearance: Appearance) -> (hex: u32)
    ensures
        hex == color.hex(appearance),
{
    match (color, appearance) {
        (HighlightColor::Yellow, Appearance::Dark) => 0xFFD60A,
        (HighlightColor::Yellow, Appearance::Light) => 0xFFCC00,
        (HighlightColor::Green, Appearance::Dark) => 0x32D74B,
        (HighlightColor::Green, Appearance::Light) => 0x28CD41,
        (HighlightColor::Blue, Appearance::Dark) => 0x0A84FF,
        (HighlightColor::Blue, Appearance::Light) => 0x007AFF,
        (HighlightColor::Pink, Appearance::Dark) => 0xFF375F,
        (HighlightColor::Pink, Appearance::Light) => 0xFF2D55,
        (HighlightColor::Purple, Appearance::Dark) => 0xBF5AF2,
        (HighlightColor::Purple, Appearance::Light) => 0xAF52DE,
    }
}

/// A colour as `0xRRGGBB`, laid over what is under it at so many hundredths of
/// its strength.
#[derive(Clone, Copy, Debug, PartialEq, Eq, Hash, Structural)]
pub struct Tint {
    pub hex: u32,
    pub percent: u8,
}

/// The shipped washes: [`highlight_solid`] at a fixed strength, translucent so
/// a selection over one still shows.
pub fn default_highlight(color: HighlightColor, appearance: Appearance) -> (tint: Tint)
    ensures
        tint == (Tint {
            hex: color.hex(appearance),
            percent: if appearance == Appearance::Dark {
                32
            } else {
                45
            },
        }),
{
    let percent = match appearance {
        Appearance::Dark => 32,
        Appearance::Light => 45,
    };
    Tint { hex: highlight_solid(color, appearance), percent }
}

/// No two colours are stored under one name, so a name reads back as the
/// colour it was stored for.
pub proof fn a_colour_reads_back_from_its_name(a: HighlightColor, b: HighlightColor)
    requires
        a.stored() == b.stored(),
    ensures
        a == b,
{
    reveal_strlit("yellow");
    reveal_strlit("green");
    reveal_strlit("blue");
    reveal_strlit("pink");
    reveal_strlit("purple");
    let name = a.stored();
    assert(name[0] == b.stored()[0]);
    assert(name[1] == b.stored()[1]);
}

} // verus!
