//! The classes of input bytes.
//!
//! A byte below `0x80` is an ASCII character and its class is fixed by the
//! table in [`ascii_class`]. A byte from `0x80` up is read as the character
//! with that code point, and its class follows from that character's Unicode
//! properties.

use crate::unicode::{has_alphabetic, has_alphanumeric, has_white_space};
use vstd::prelude::*;

verus! {

/// The part a byte can play in the source text.
#[derive(Clone, Copy, Debug, PartialEq, Eq)]
pub enum ByteClass {
    /// Separates tokens and yields none.
    Blank,
    /// A decimal digit: starts a number, continues a number or a word.
    Digit,
    /// A letter or the underscore: starts and continues a word.
    Letter,
    /// Continues a word but cannot start one, such as a superscript digit.
    Mark,
    /// Anything else: an operator, a punctuation mark, or a byte that starts
    /// no token.
    Other,
}

pub open spec fn is_ascii_blank(b: u8) -> bool {
    b == 0x20 || 0x09 <= b <= 0x0D
}

pub open spec fn is_ascii_digit(b: u8) -> bool {
    0x30 <= b <= 0x39
}

pub open spec fn is_ascii_letter(b: u8) -> bool {
    0x41 <= b <= 0x5A || 0x61 <= b <= 0x7A || b == 0x5F
}

/// The class of an ASCII byte: space, tab, line feed, vertical tab, form feed
/// and carriage return are blank, `0` to `9` are digits, `A` to `Z`, `a` to `z`
/// and `_` are letters.
pub open spec fn ascii_class(b: u8) -> ByteClass {
    if is_ascii_blank(b) {
        ByteClass::Blank
    } else if is_ascii_digit(b) {
        ByteClass::Digit
    } else if is_ascii_letter(b) {
        ByteClass::Letter
    } else {
        ByteClass::Other
    }
}

/// The class of a character beyond ASCII, by its Unicode properties.
pub open spec fn unicode_class(c: char) -> ByteClass {
    if has_white_space(c) {
        ByteClass::Blank
    } else if has_alphabetic(c) {
        ByteClass::Letter
    } else if has_alphanumeric(c) {
        ByteClass::Mark
    } else {
        ByteClass::Other
    }
}

/// The class of an input byte.
pub open spec fn byte_class(b: u8) -> ByteClass {
    if b < 0x80 {
        ascii_class(b)
    } else {
        unicode_class(b as char)
    }
}

/// Whether a byte continues a word once a letter has started it.
pub open spec fn continues_word(b: u8) -> bool {
    byte_class(b) is Letter || byte_class(b) is Digit || byte_class(b) is Mark
}

/// Computes the class of an input byte.
pub fn classify(b: u8) -> (class: ByteClass)
    ensures
        class == byte_class(b),
{
    if b < 0x80 {
        if b == 0x20 || (0x09 <= b && b <= 0x0D) {
            ByteClass::Blank
        } else if 0x30 <= b && b <= 0x39 {
            ByteClass::Digit
        } else if (0x41 <= b && b <= 0x5A) || (0x61 <= b && b <= 0x7A) || b == 0x5F {
            ByteClass::Letter
        } else {
            ByteClass::Other
        }
    } else {
        let c = b as char;
        if c.is_whitespace() {
            ByteClass::Blank
        } else if c.is_alphabetic() {
            ByteClass::Letter
        } else if c.is_alphanumeric() {
            ByteClass::Mark
        } else {
            ByteClass::Other
        }
    }
}

} // verus!
