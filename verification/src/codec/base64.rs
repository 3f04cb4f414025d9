//! Base64 with the standard alphabet and padding.

use vstd::prelude::*;

use crate::text::push_char;

verus! {

/// The character that stands for a six-bit number: `A` to `Z`, `a` to `z`,
/// `0` to `9`, `+` and `/`.
pub open spec fn symbol(index: int) -> char {
    if index < 26 {
        ((65 + index) as u8) as char
    } else if index < 52 {
        ((97 + (index - 26)) as u8) as char
    } else if index < 62 {
        ((48 + (index - 52)) as u8) as char
    } else if index == 62 {
        '+'
    } else {
        '/'
    }
}

/// The base64 text of a byte string: four characters for each three bytes,
/// the last group padded with `=`.
pub open spec fn encoded(bytes: Seq<u8>) -> Seq<char>
    decreases bytes.len(),
{
    if bytes.len() == 0 {
        Seq::empty()
    } else if bytes.len() == 1 {
        seq![symbol(bytes[0] as int / 4), symbol((bytes[0] as int % 4) * 16), '=', '=']
    } else if bytes.len() == 2 {
        seq![
            symbol(bytes[0] as int / 4),
            symbol((bytes[0] as int % 4) * 16 + bytes[1] as int / 16),
            symbol((bytes[1] as int % 16) * 4),
            '=',
        ]
    } else {
        seq![
            symbol(bytes[0] as int / 4),
            symbol((bytes[0] as int % 4) * 16 + bytes[1] as int / 16),
            symbol((bytes[1] as int % 16) * 4 + bytes[2] as int / 64),
            symbol(bytes[2] as int % 64),
        ] + encoded(bytes.skip(3))
    }
}

/// The character for a six-bit number.
fn symbol_of(index: u8) -> (c: char)
    requires
        index < 64,
    ensures
        c == symbol(index as int),
{
    if index < 26 {
        (65 + index) as char
    } else if index < 52 {
        (97 + (index - 26)) as char
    } else if index < 62 {
        (48 + (index - 52)) as char
    } else if index == 62 {
        '+'
    } else {
        '/'
    }
}

/// The base64 text of `bytes`.
pub fn encode(bytes: &[u8]) -> (text: String)
    ensures
        text@ == encoded(bytes@),
{
    let mut text = String::new();
    let mut i: usize = 0;
    assert(bytes@.skip(0) =~= bytes@);
    while bytes.len() - i >= 3
        invariant
            i <= bytes@.len(),
            encoded(bytes@) == text@ + encoded(bytes@.skip(i as int)),
        decreases bytes@.len() - i,
    {
        let b0 = bytes[i];
        let b1 = bytes[i + 1];
        let b2 = bytes[i + 2];
        let ghost rest = bytes@.skip(i as int);
        let ghost before = text@;
        push_char(&mut text, symbol_of(b0 / 4));
        push_char(&mut text, symbol_of((b0 % 4) * 16 + b1 / 16));
        push_char(&mut text, symbol_of((b1 % 16) * 4 + b2 / 64));
        push_char(&mut text, symbol_of(b2 % 64));
        assert(rest.skip(3) =~= bytes@.skip(i + 3));
        assert(text@ + encoded(rest.skip(3)) =~= before + encoded(rest));
        i += 3;
    }
    let ghost rest = bytes@.skip(i as int);
    let ghost before = text@;
    if bytes.len() - i == 1 {
        let b0 = bytes[i];
        push_char(&mut text, symbol_of(b0 / 4));
        push_char(&mut text, symbol_of((b0 % 4) * 16));
        push_char(&mut text, '=');
        push_char(&mut text, '=');
        assert(text@ =~= before + encoded(rest));
    } else if bytes.len() - i == 2 {
        let b0 = bytes[i];
        let b1 = bytes[i + 1];
        push_char(&mut text, symbol_of(b0 / 4));
        push_char(&mut text, symbol_of((b0 % 4) * 16 + b1 / 16));
        push_char(&mut text, symbol_of((b1 % 16) * 4));
        push_char(&mut text, '=');
        assert(text@ =~= before + encoded(rest));
    } else {
        assert(text@ =~= before + encoded(rest));
    }
    text
}

} // verus!
