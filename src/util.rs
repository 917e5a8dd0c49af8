use vstd::prelude::*;

verus! {

/// Space, tab, newline and carriage return.
pub open spec fn white_space_spec(c: char) -> bool {
    c == ' ' || c == '\t' || c == '\n' || c == '\r'
}

/// An ASCII decimal digit.
pub open spec fn digit_spec(c: char) -> bool {
    '0' <= c && c <= '9'
}

/// An ASCII letter.
pub open spec fn alphabet_spec(c: char) -> bool {
    ('a' <= c && c <= 'z') || ('A' <= c && c <= 'Z')
}

/// A character that may appear in an identifier.
pub open spec fn identifier_spec(c: char) -> bool {
    alphabet_spec(c) || digit_spec(c) || c == '_'
}

/// Whether `c` is skipped between tokens.
pub fn is_white_space(c: char) -> (r: bool)
    ensures
        r == white_space_spec(c),
{
    c == ' ' || c == '\t' || c == '\n' || c == '\r'
}

/// Whether `c` ends a line.
pub fn is_line_break(c: char) -> (r: bool)
    ensures
        r == (c == '\n'),
{
    c == '\n'
}

/// Whether `c` is a decimal digit.
pub fn is_number(c: char) -> (r: bool)
    ensures
        r == digit_spec(c),
{
    '0' <= c && c <= '9'
}

/// Whether `c` may start a numeric literal: a digit, a sign `+` or a point.
pub fn is_start_of_number(c: char) -> (r: bool)
    ensures
        r == (digit_spec(c) || c == '+' || c == '.'),
{
    is_number(c) || c == '+' || c == '.'
}

/// Whether `c` is an ASCII letter.
pub fn is_alphabet(c: char) -> (r: bool)
    ensures
        r == alphabet_spec(c),
{
    ('a' <= c && c <= 'z') || ('A' <= c && c <= 'Z')
}

/// Whether `c` may appear in an identifier: a letter, a digit or `_`.
pub fn is_identifier(c: char) -> (r: bool)
    ensures
        r == identifier_spec(c),
{
    is_alphabet(c) || is_number(c) || c == '_'
}

} // verus!
