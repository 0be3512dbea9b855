//! Character classification used by the scanner.
//!
//! The language treats any Unicode whitespace character as insignificant
//! filler, while identifiers and digits are ASCII. Each class has a spec
//! definition and an executable test proved equal to it.

use vstd::prelude::*;

verus! {

/// A character with the Unicode `White_Space` property.
pub open spec fn is_whitespace_char(c: char) -> bool {
    let u = c as u32;
    (0x9 <= u && u <= 0xD) || u == 0x20 || u == 0x85 || u == 0xA0 || u == 0x1680 || (0x2000 <= u
        && u <= 0x200A) || u == 0x2028 || u == 0x2029 || u == 0x202F || u == 0x205F || u == 0x3000
}

/// A space or a horizontal tab: the only separators accepted where a keyword
/// must be followed by spacing on the same line.
pub open spec fn is_space_or_tab(c: char) -> bool {
    c == ' ' || c == '\t'
}

pub open spec fn is_ascii_digit_char(c: char) -> bool {
    '0' <= c && c <= '9'
}

pub open spec fn is_ascii_alphabetic_char(c: char) -> bool {
    ('a' <= c && c <= 'z') || ('A' <= c && c <= 'Z')
}

pub open spec fn is_ascii_alphanumeric_char(c: char) -> bool {
    is_ascii_alphabetic_char(c) || is_ascii_digit_char(c)
}

/// The numeric value of an ASCII digit.
pub open spec fn digit_value(c: char) -> int {
    c as int - '0' as int
}

/// Classes of characters the scanner can extract runs of.
#[derive(Clone, Copy, Debug, PartialEq, Eq, Structural)]
pub enum CharClass {
    /// Unicode whitespace.
    Whitespace,
    /// Space or horizontal tab only.
    SpaceTab,
    /// ASCII decimal digits.
    Digit,
    /// ASCII letters and digits.
    Alphanumeric,
    /// Anything except a closing parenthesis.
    NotClosingParen,
    /// Anything except a comma.
    NotComma,
}

impl CharClass {
    /// Whether `c` belongs to the class.
    pub open spec fn accepts_spec(self, c: char) -> bool {
        match self {
            CharClass::Whitespace => is_whitespace_char(c),
            CharClass::SpaceTab => is_space_or_tab(c),
            CharClass::Digit => is_ascii_digit_char(c),
            CharClass::Alphanumeric => is_ascii_alphanumeric_char(c),
            CharClass::NotClosingParen => c != ')',
            CharClass::NotComma => c != ',',
        }
    }

    /// Executable membership test for the class.
    pub fn accepts(self, c: char) -> (b: bool)
        ensures
            b == self.accepts_spec(c),
    {
        match self {
            CharClass::Whitespace => {
                let u = c as u32;
                (0x9 <= u && u <= 0xD) || u == 0x20 || u == 0x85 || u == 0xA0 || u == 0x1680 || (
                0x2000 <= u && u <= 0x200A) || u == 0x2028 || u == 0x2029 || u == 0x202F || u
                    == 0x205F || u == 0x3000
            },
            CharClass::SpaceTab => c == ' ' || c == '\t',
            CharClass::Digit => '0' <= c && c <= '9',
            CharClass::Alphanumeric => ('a' <= c && c <= 'z') || ('A' <= c && c <= 'Z') || ('0' <= c
                && c <= '9'),
            CharClass::NotClosingParen => c != ')',
            CharClass::NotComma => c != ',',
        }
    }
}

/// Executable test for an ASCII letter, used where only the first character
/// of an identifier is constrained.
pub fn is_alphabetic(c: char) -> (b: bool)
    ensures
        b == is_ascii_alphabetic_char(c),
{
    ('a' <= c && c <= 'z') || ('A' <= c && c <= 'Z')
}

} // verus!
