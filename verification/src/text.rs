use vstd::prelude::*;

verus! {

/// `String::push` of the standard library: the character is appended to the
/// end of the string, and nothing else of it changes.
pub assume_specification[ String::push ](text: &mut String, ch: char)
    ensures
        final(text)@ == old(text)@.push(ch),
;

/// `==` on `str` of the standard library: two texts are equal exactly when
/// they hold the same characters in the same order.
pub assume_specification[ <str as PartialEq>::eq ](a: &str, b: &str) -> (same: bool)
    ensures
        same == (a@ == b@),
;

/// The characters of a text, in order.
pub fn chars_of(text: &str) -> (symbols: Vec<char>)
    ensures
        symbols@ == text@,
{
    broadcast use vstd::string::group_string_axioms;

    let mut symbols: Vec<char> = Vec::new();
    for c in it: text.chars()
        invariant
            it.seq() == text@,
            symbols@ == text@.take(it.index()),
    {
        symbols.push(c);
    }
    symbols
}

/// The text made of the given characters, in order.
pub fn text_of(symbols: &Vec<char>) -> (text: String)
    ensures
        text@ == symbols@,
{
    let mut text = String::new();
    let mut i: usize = 0;
    while i < symbols.len()
        invariant
            i <= symbols.len(),
            text@ == symbols@.take(i as int),
        decreases symbols.len() - i,
    {
        text.push(symbols[i]);
        i += 1;
    }
    text
}

} // verus!
