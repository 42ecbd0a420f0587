//! Strings and their characters.

use vstd::prelude::*;
use vstd::slice::slice_subrange;

verus! {

/// `String::push`: the character goes to the end of the string.
pub assume_specification[ String::push ](s: &mut String, c: char)
    ensures
        final(s)@ == old(s)@.push(c),
;

/// The characters of a text, which take no more bytes than can be counted.
pub fn chars_of(text: &str) -> (chars: Vec<char>)
    ensures
        chars@ == text@,
        byte_len(text@) <= usize::MAX,
{
    let _ = length(text);
    let mut chars: Vec<char> = Vec::new();
    for c in iter: text.chars()
        invariant
            iter.seq() == text@,
            chars@ == text@.subrange(0, iter.index() as int),
    {
        chars.push(c);
        assert(chars@ =~= text@.subrange(0, iter.index() + 1));
    }
    assert(chars@ =~= text@);
    chars
}

/// The text of some characters, which then take no more bytes than can be
/// counted.
pub fn string_of(chars: &[char]) -> (text: String)
    ensures
        text@ == chars@,
        byte_len(chars@) <= usize::MAX,
{
    let mut text = String::new();
    let mut i: usize = 0;
    while i < chars.len()
        invariant
            i <= chars@.len(),
            text@ == chars@.subrange(0, i as int),
        decreases chars@.len() - i,
    {
        text.push(chars[i]);
        i = i + 1;
        assert(text@ =~= chars@.subrange(0, i as int));
    }
    assert(text@ =~= chars@);
    let _ = length(text.as_str());
    text
}

/// How many bytes a character takes in UTF-8.
pub open spec fn width(c: char) -> nat {
    if (c as u32) < 0x80 {
        1
    } else if (c as u32) < 0x800 {
        2
    } else if (c as u32) < 0x1_0000 {
        3
    } else {
        4
    }
}

/// How many bytes a text takes in UTF-8.
pub open spec fn byte_len(text: Seq<char>) -> nat
    decreases text.len(),
{
    if text.len() == 0 {
        0
    } else {
        byte_len(text.drop_last()) + width(text.last())
    }
}

/// The byte the character at `i` starts at.
pub open spec fn byte_at(text: Seq<char>, i: int) -> nat {
    byte_len(text.subrange(0, i))
}

/// Whether byte `offset` of a text is where a character starts, or the end.
pub open spec fn on_boundary(text: Seq<char>, offset: int) -> bool {
    exists|i: int| 0 <= i <= text.len() && #[trigger] byte_at(text, i) == offset
}

/// The bytes of two texts, one behind the other.
pub proof fn lemma_byte_len_concat(a: Seq<char>, b: Seq<char>)
    ensures
        byte_len(a + b) == byte_len(a) + byte_len(b),
    decreases b.len(),
{
    if b.len() == 0 {
        assert(a + b =~= a);
    } else {
        assert((a + b).drop_last() =~= a + b.drop_last());
        lemma_byte_len_concat(a, b.drop_last());
    }
}

/// One character further is one character's bytes further.
pub proof fn lemma_byte_at_step(text: Seq<char>, i: int)
    requires
        0 <= i < text.len(),
    ensures
        byte_at(text, i + 1) == byte_at(text, i) + width(text[i]),
{
    assert(text.subrange(0, i + 1).drop_last() =~= text.subrange(0, i));
}

/// Later characters start at later bytes.
pub proof fn lemma_byte_at_order(text: Seq<char>, i: int, j: int)
    requires
        0 <= i <= j <= text.len(),
    ensures
        byte_at(text, i) + (j - i) <= byte_at(text, j),
    decreases j - i,
{
    if i < j {
        lemma_byte_at_order(text, i, j - 1);
        lemma_byte_at_step(text, j - 1);
    }
}

/// The byte past the last character is the length.
pub proof fn lemma_byte_at_end(text: Seq<char>)
    ensures
        byte_at(text, 0) == 0,
        byte_at(text, text.len() as int) == byte_len(text),
{
    assert(text.subrange(0, text.len() as int) =~= text);
}

/// How many bytes a character takes in UTF-8.
pub fn char_width(c: char) -> (n: usize)
    ensures
        n == width(c),
        1 <= n <= 4,
{
    let number = c as u32;
    if number < 0x80 {
        1
    } else if number < 0x800 {
        2
    } else if number < 0x1_0000 {
        3
    } else {
        4
    }
}

/// How many bytes a text takes.
pub fn length(text: &str) -> (n: usize)
    ensures
        n == byte_len(text@),
{
    proof {
        a_length_is_that_of_the_encoding(text@);
    }
    text.as_bytes().len()
}

/// How many bytes some characters take in UTF-8.
pub fn bytes_in(text: &[char]) -> (n: usize)
    requires
        byte_len(text@) <= usize::MAX,
    ensures
        n == byte_len(text@),
{
    let mut n: usize = 0;
    let mut i: usize = 0;
    proof {
        lemma_byte_at_end(text@);
    }
    while i < text.len()
        invariant
            i <= text@.len(),
            n == byte_at(text@, i as int),
            byte_len(text@) <= usize::MAX,
        decreases text@.len() - i,
    {
        proof {
            lemma_byte_at_step(text@, i as int);
            lemma_byte_at_order(text@, i + 1, text@.len() as int);
            lemma_byte_at_end(text@);
        }
        n = n + char_width(text[i]);
        i = i + 1;
    }
    n
}

/// Which character starts at byte `offset`, the end counted as one.
pub fn char_at(text: &[char], offset: usize) -> (index: Option<usize>)
    requires
        byte_len(text@) <= usize::MAX,
    ensures
        index is Some <==> on_boundary(text@, offset as int),
        index matches Some(i) ==> i <= text@.len() && byte_at(text@, i as int) == offset,
{
    let mut n: usize = 0;
    let mut i: usize = 0;
    proof {
        lemma_byte_at_end(text@);
    }
    while i < text.len()
        invariant
            i <= text@.len(),
            n == byte_at(text@, i as int),
            byte_len(text@) <= usize::MAX,
            forall|j: int| 0 <= j < i ==> #[trigger] byte_at(text@, j) != offset,
        decreases text@.len() - i,
    {
        if n == offset {
            return Some(i);
        }
        proof {
            lemma_byte_at_step(text@, i as int);
            lemma_byte_at_order(text@, i + 1, text@.len() as int);
            lemma_byte_at_end(text@);
        }
        n = n + char_width(text[i]);
        i = i + 1;
    }
    if n == offset {
        Some(i)
    } else {
        None
    }
}

/// A character starts at one byte alone.
pub proof fn lemma_boundary_unique(text: Seq<char>, i: int, j: int)
    requires
        0 <= i <= text.len(),
        0 <= j <= text.len(),
        byte_at(text, i) == byte_at(text, j),
    ensures
        i == j,
{
    if i < j {
        lemma_byte_at_order(text, i, j);
    } else {
        lemma_byte_at_order(text, j, i);
    }
}

/// Whether two runs of characters are the same.
pub fn same_chars(a: &[char], b: &[char]) -> (yes: bool)
    ensures
        yes == (a@ == b@),
{
    if a.len() != b.len() {
        return false;
    }
    let mut i: usize = 0;
    while i < a.len()
        invariant
            a@.len() == b@.len(),
            i <= a@.len(),
            forall|j: int| 0 <= j < i ==> a@[j] == b@[j],
        decreases a@.len() - i,
    {
        if a[i] != b[i] {
            return false;
        }
        i = i + 1;
    }
    assert(a@ =~= b@);
    true
}

/// Whether two texts are the same.
pub fn same_text(a: &str, b: &str) -> (yes: bool)
    ensures
        yes == (a@ == b@),
{
    same_chars(&chars_of(a), &chars_of(b))
}

/// The length of a text is that of its UTF-8.
pub proof fn a_length_is_that_of_the_encoding(text: Seq<char>)
    ensures
        byte_len(text) == vstd::utf8::encode_utf8(text).len(),
    decreases text.len(),
{
    if text.len() > 0 {
        let rest = text.drop_first();
        a_length_is_that_of_the_encoding(rest);
        assert(text =~= seq![text[0]] + rest);
        lemma_byte_len_concat(seq![text[0]], rest);
        reveal_with_fuel(byte_len, 2);
        assert(seq![text[0]].drop_last() =~= Seq::empty());
        vstd::utf8::char_is_scalar(text[0]);
    }
}

/// Whether a character is white space, as Unicode has it.
pub open spec fn is_space(c: char) -> bool {
    ||| '\u{9}' <= c <= '\u{d}'
    ||| c == '\u{20}' || c == '\u{85}' || c == '\u{a0}' || c == '\u{1680}'
    ||| '\u{2000}' <= c <= '\u{200a}'
    ||| c == '\u{2028}' || c == '\u{2029}' || c == '\u{202f}' || c == '\u{205f}' || c == '\u{3000}'
}

/// Whether a character is white space, as Unicode has it.
fn spaces(c: char) -> (yes: bool)
    ensures
        yes == is_space(c),
{
    ('\u{9}' <= c && c <= '\u{d}') || c == '\u{20}' || c == '\u{85}' || c == '\u{a0}' || c
        == '\u{1680}' || ('\u{2000}' <= c && c <= '\u{200a}') || c == '\u{2028}' || c == '\u{2029}'
        || c == '\u{202f}' || c == '\u{205f}' || c == '\u{3000}'
}

/// A text without the white space at its start.
pub open spec fn trimmed_start(text: Seq<char>) -> Seq<char>
    decreases text.len(),
{
    if text.len() > 0 && is_space(text[0]) {
        trimmed_start(text.skip(1))
    } else {
        text
    }
}

/// A text without the white space at its end.
pub open spec fn trimmed_end(text: Seq<char>) -> Seq<char>
    decreases text.len(),
{
    if text.len() > 0 && is_space(text.last()) {
        trimmed_end(text.drop_last())
    } else {
        text
    }
}

/// A text without the white space round it.
pub open spec fn trimmed(text: Seq<char>) -> Seq<char> {
    trimmed_end(trimmed_start(text))
}

/// A text without the white space round it.
pub fn trim(text: &str) -> (bare: String)
    ensures
        bare@ == trimmed(text@),
{
    let chars = chars_of(text);
    let mut start: usize = 0;
    assert(chars@.skip(0) =~= chars@);
    while start < chars.len() && spaces(chars[start])
        invariant
            start <= chars@.len(),
            trimmed_start(chars@.skip(start as int)) == trimmed_start(chars@),
        decreases chars@.len() - start,
    {
        assert(chars@.skip(start as int).skip(1) =~= chars@.skip(start + 1));
        start = start + 1;
    }
    let mut end = chars.len();
    assert(chars@.subrange(start as int, end as int) =~= chars@.skip(start as int));
    while end > start && spaces(chars[end - 1])
        invariant
            start <= end <= chars@.len(),
            trimmed_end(chars@.subrange(start as int, end as int)) == trimmed(chars@),
        decreases end - start,
    {
        assert(chars@.subrange(start as int, end as int).drop_last() =~= chars@.subrange(
            start as int,
            end - 1,
        ));
        end = end - 1;
    }
    string_of(slice_subrange(chars.as_slice(), start, end))
}

} // verus!
