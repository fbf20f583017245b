use vstd::prelude::*;
use crate::token::ScanError;

verus! {

/// An ASCII decimal digit.
pub open spec fn digit(c: char) -> bool {
    '0' <= c && c <= '9'
}

/// An ASCII letter or the underscore: a character that may start an identifier.
pub open spec fn alpha(c: char) -> bool {
    ('a' <= c && c <= 'z') || ('A' <= c && c <= 'Z') || c == '_'
}

/// A character that may continue an identifier.
pub open spec fn alphanumeric(c: char) -> bool {
    digit(c) || alpha(c)
}

pub fn is_digit(x: char) -> (r: bool)
    ensures
        r == digit(x),
{
    '0' <= x && x <= '9'
}

pub fn is_alpha(x: char) -> (r: bool)
    ensures
        r == alpha(x),
{
    ('a' <= x && x <= 'z') || ('A' <= x && x <= 'Z') || x == '_'
}

pub fn is_alphanumeric(x: char) -> (r: bool)
    ensures
        r == alphanumeric(x),
{
    is_digit(x) || is_alpha(x)
}

/// Relies on `String::push`: appends one character at the end.
#[verifier::external_body]
pub(crate) fn push_char(s: &mut String, c: char)
    ensures
        final(s)@ == old(s)@.push(c),
{
    s.push(c);
}

/// The decimal digit for `d < 10`.
pub open spec fn digit_char(d: nat) -> char {
    if d == 0 {
        '0'
    } else if d == 1 {
        '1'
    } else if d == 2 {
        '2'
    } else if d == 3 {
        '3'
    } else if d == 4 {
        '4'
    } else if d == 5 {
        '5'
    } else if d == 6 {
        '6'
    } else if d == 7 {
        '7'
    } else if d == 8 {
        '8'
    } else {
        '9'
    }
}

/// The decimal text of `n`, without leading zeros.
pub open spec fn decimal(n: nat) -> Seq<char>
    decreases n,
{
    if n < 10 {
        seq![digit_char(n)]
    } else {
        decimal(n / 10).push(digit_char(n % 10))
    }
}

/// The text of a diagnostic: `[line <n>] Error <at>: <message>`.
pub open spec fn diagnostic_text(line: nat, at: Seq<char>, message: Seq<char>) -> Seq<char> {
    "[line "@ + decimal(line) + "] Error "@ + at + ": "@ + message
}

fn digit_of(d: usize) -> (c: char)
    requires
        d < 10,
    ensures
        c == digit_char(d as nat),
{
    match d {
        0 => '0',
        1 => '1',
        2 => '2',
        3 => '3',
        4 => '4',
        5 => '5',
        6 => '6',
        7 => '7',
        8 => '8',
        _ => '9',
    }
}

fn push_decimal(s: &mut String, n: usize)
    ensures
        final(s)@ == old(s)@ + decimal(n as nat),
    decreases n,
{
    if n >= 10 {
        push_decimal(s, n / 10);
    }
    push_char(s, digit_of(n % 10));
    assert(s@ =~= old(s)@ + decimal(n as nat));
}

/// The diagnostic for an error on `line`; `at` says where on the line, and may be empty.
pub fn report(line: usize, at: &str, message: &str) -> (r: String)
    ensures
        r@ == diagnostic_text(line as nat, at@, message@),
{
    let mut r = String::from_str("[line ");
    push_decimal(&mut r, line);
    r.append("] Error ");
    r.append(at);
    r.append(": ");
    r.append(message);
    r
}

/// A lexical error found on `line`, as the failure it signals to the caller.
pub fn error(line: usize, message: String) -> (r: Result<(), ScanError>)
    ensures
        r is Err,
        r->Err_0.line == line,
        r->Err_0.message@ == message@,
{
    Err(ScanError { line, message })
}

} // verus!
