//! Text as a sequence of characters.

use vstd::prelude::*;

verus! {

/// `String::push` appends one character.
pub assume_specification[ String::push ](text: &mut String, c: char)
    ensures
        final(text)@ == old(text)@.push(c),
;

/// A small letter `a` to `z`.
pub open spec fn is_small_letter(c: char) -> bool {
    'a' <= c <= 'z'
}

/// The small letter of a capital letter `A` to `Z`; every other character
/// itself.
pub open spec fn to_small(c: char) -> char {
    if 'A' <= c <= 'Z' {
        ((c as u32) + 32) as char
    } else {
        c
    }
}

/// The text with every capital letter `A` to `Z` made small.
pub open spec fn small_letters(text: Seq<char>) -> Seq<char> {
    Seq::new(text.len(), |i: int| to_small(text[i]))
}

/// The small letter of a capital letter; every other character itself.
pub fn small_char(c: char) -> (small: char)
    ensures
        small == to_small(c),
{
    if 'A' <= c && c <= 'Z' {
        let code = c as u32 + 32;
        code as u8 as char
    } else {
        c
    }
}

/// The characters with every capital letter made small.
pub fn small_chars(text: &[char]) -> (small: Vec<char>)
    ensures
        small@ == small_letters(text@),
{
    let mut small: Vec<char> = Vec::new();
    let mut i: usize = 0;
    while i < text.len()
        invariant
            i <= text.len(),
            small@ == small_letters(text@.take(i as int)),
        decreases text.len() - i,
    {
        small.push(small_char(text[i]));
        i += 1;
        assert(small@ =~= small_letters(text@.take(i as int)));
    }
    assert(text@.take(text@.len() as int) =~= text@);
    small
}

/// The characters of `text`, in order.
pub fn to_chars(text: &str) -> (chars: Vec<char>)
    ensures
        chars@ == text@,
{
    let mut chars: Vec<char> = Vec::new();
    for c in iter: text.chars()
        invariant
            iter.seq() == text@,
            chars@ == iter.seq().take(iter.index()),
    {
        chars.push(c);
        assert(iter.seq().take(iter.index() + 1) =~= iter.seq().take(iter.index()).push(c));
    }
    assert(text@.take(text@.len() as int) =~= text@);
    chars
}

/// The text made of `chars`.
pub fn from_chars(chars: &[char]) -> (text: String)
    ensures
        text@ == chars@,
{
    let mut text = String::new();
    let mut i: usize = 0;
    while i < chars.len()
        invariant
            i <= chars.len(),
            text@ == chars@.take(i as int),
        decreases chars.len() - i,
    {
        text.push(chars[i]);
        assert(chars@.take(i + 1) =~= chars@.take(i as int).push(chars@[i as int]));
        i += 1;
    }
    assert(chars@.take(chars@.len() as int) =~= chars@);
    text
}

} // verus!
