use vstd::prelude::*;
use crate::token::{ScanErrorView, TokenType, TokenView};
use crate::utils::{alpha, alphanumeric, digit};

verus! {

/// The classes of characters that a lexeme's tail is made of.
pub enum Run {
    Digits,
    IdentTail,
    /// Anything up to a newline (a comment's body).
    NotNewline,
    /// Anything up to a double quote (a string's body).
    NotQuote,
}

pub open spec fn in_run(c: char, r: Run) -> bool {
    match r {
        Run::Digits => digit(c),
        Run::IdentTail => alphanumeric(c),
        Run::NotNewline => c != '\n',
        Run::NotQuote => c != '\"',
    }
}

/// The length of the longest run of characters of class `r` starting at `i`.
pub open spec fn run_len(src: Seq<char>, i: int, r: Run) -> nat
    decreases src.len() - i,
{
    if 0 <= i < src.len() && in_run(src[i], r) {
        1 + run_len(src, i + 1, r)
    } else {
        0
    }
}

/// The number of newline characters in `s`.
pub open spec fn newlines(s: Seq<char>) -> nat
    decreases s.len(),
{
    if s.len() == 0 {
        0
    } else {
        newlines(s.drop_last()) + if s.last() == '\n' {
            1nat
        } else {
            0nat
        }
    }
}

/// What one lexeme contributes to the output.
pub enum Outcome {
    /// Whitespace or a comment.
    Skip,
    Emit(TokenView),
    Fail(ScanErrorView),
}

/// One lexeme: where it ends, the line counter after it, and what it yields.
pub struct Lexeme {
    pub end: int,
    pub line: int,
    pub outcome: Outcome,
}

/// The result of scanning: the tokens, ending in `Eof`, and the errors, in order.
pub struct Lexed {
    pub tokens: Seq<TokenView>,
    pub errors: Seq<ScanErrorView>,
}

pub open spec fn single_kind(c: char) -> Option<TokenType> {
    if c == '(' {
        Some(TokenType::LeftParen)
    } else if c == ')' {
        Some(TokenType::RightParen)
    } else if c == '{' {
        Some(TokenType::LeftBrace)
    } else if c == '}' {
        Some(TokenType::RightBrace)
    } else if c == ',' {
        Some(TokenType::Comma)
    } else if c == '.' {
        Some(TokenType::Dot)
    } else if c == '-' {
        Some(TokenType::Minus)
    } else if c == '+' {
        Some(TokenType::Plus)
    } else if c == ';' {
        Some(TokenType::Semicolon)
    } else if c == '*' {
        Some(TokenType::Star)
    } else {
        None
    }
}

/// The kind of an identifier-shaped word: a keyword on an exact match, else `Identifier`.
pub open spec fn keyword_kind(text: Seq<char>) -> TokenType {
    if text == "and"@ {
        TokenType::And
    } else if text == "class"@ {
        TokenType::Class
    } else if text == "else"@ {
        TokenType::Else
    } else if text == "false"@ {
        TokenType::False
    } else if text == "for"@ {
        TokenType::For
    } else if text == "fun"@ {
        TokenType::Fun
    } else if text == "if"@ {
        TokenType::If
    } else if text == "nil"@ {
        TokenType::Nil
    } else if text == "or"@ {
        TokenType::Or
    } else if text == "print"@ {
        TokenType::Print
    } else if text == "return"@ {
        TokenType::Return
    } else if text == "super"@ {
        TokenType::Super
    } else if text == "this"@ {
        TokenType::This
    } else if text == "true"@ {
        TokenType::True
    } else if text == "var"@ {
        TokenType::Var
    } else if text == "while"@ {
        TokenType::While
    } else {
        TokenType::Identifier
    }
}

pub open spec fn unexpected_message(c: char) -> Seq<char> {
    "Unexpected character '"@ + seq![c] + "'"@
}

pub open spec fn unterminated_message() -> Seq<char> {
    "Unterminated string"@
}

/// A token without a literal spanning `src[start..end]`.
pub open spec fn plain(kind: TokenType, src: Seq<char>, start: int, end: int, line: int) -> Lexeme {
    Lexeme {
        end,
        line,
        outcome: Outcome::Emit(
            TokenView { kind, lexeme: src.subrange(start, end), literal: None, line },
        ),
    }
}

/// `src[pos]` is followed by `=`.
pub open spec fn followed_by_equal(src: Seq<char>, pos: int) -> bool {
    pos + 1 < src.len() && src[pos + 1] == '='
}

/// Maximal munch on `! = < >`: the two-character kind when `=` follows.
pub open spec fn one_or_two(
    src: Seq<char>,
    pos: int,
    line: int,
    single: TokenType,
    double: TokenType,
) -> Lexeme {
    if followed_by_equal(src, pos) {
        plain(double, src, pos, pos + 2, line)
    } else {
        plain(single, src, pos, pos + 1, line)
    }
}

/// A string literal opening at `pos`; its token carries the line of the opening quote.
pub open spec fn string_lexeme(src: Seq<char>, pos: int, line: int) -> Lexeme {
    let close = pos + 1 + run_len(src, pos + 1, Run::NotQuote);
    let body = src.subrange(pos + 1, close);
    let line_after = line + newlines(body);
    if close >= src.len() {
        Lexeme {
            end: close,
            line: line_after,
            outcome: Outcome::Fail(
                ScanErrorView { line: line_after, message: unterminated_message() },
            ),
        }
    } else {
        Lexeme {
            end: close + 1,
            line: line_after,
            outcome: Outcome::Emit(
                TokenView {
                    kind: TokenType::String,
                    lexeme: src.subrange(pos, close + 1),
                    literal: Some(body),
                    line,
                },
            ),
        }
    }
}

/// Where the integer part of a number starting at `pos` ends.
pub open spec fn integer_end(src: Seq<char>, pos: int) -> int {
    pos + 1 + run_len(src, pos + 1, Run::Digits)
}

/// A `.` at `e` that is followed by a digit, so that it belongs to the number.
pub open spec fn has_fraction(src: Seq<char>, e: int) -> bool {
    e + 1 < src.len() && src[e] == '.' && digit(src[e + 1])
}

pub open spec fn number_end(src: Seq<char>, pos: int) -> int {
    let e = integer_end(src, pos);
    if has_fraction(src, e) {
        e + 2 + run_len(src, e + 2, Run::Digits)
    } else {
        e
    }
}

pub open spec fn number_lexeme(src: Seq<char>, pos: int, line: int) -> Lexeme {
    let end = number_end(src, pos);
    let text = src.subrange(pos, end);
    Lexeme {
        end,
        line,
        outcome: Outcome::Emit(
            TokenView { kind: TokenType::Number, lexeme: text, literal: Some(text), line },
        ),
    }
}

pub open spec fn identifier_end(src: Seq<char>, pos: int) -> int {
    pos + 1 + run_len(src, pos + 1, Run::IdentTail)
}

pub open spec fn identifier_lexeme(src: Seq<char>, pos: int, line: int) -> Lexeme {
    let end = identifier_end(src, pos);
    plain(keyword_kind(src.subrange(pos, end)), src, pos, end, line)
}

/// The lexeme that starts at `pos` (with `0 <= pos < src.len()`), on line `line`.
pub open spec fn step(src: Seq<char>, pos: int, line: int) -> Lexeme {
    let c = src[pos];
    if single_kind(c) is Some {
        plain(single_kind(c)->0, src, pos, pos + 1, line)
    } else if c == '!' {
        one_or_two(src, pos, line, TokenType::Bang, TokenType::BangEqual)
    } else if c == '=' {
        one_or_two(src, pos, line, TokenType::Equal, TokenType::EqualEqual)
    } else if c == '<' {
        one_or_two(src, pos, line, TokenType::Less, TokenType::LessEqual)
    } else if c == '>' {
        one_or_two(src, pos, line, TokenType::Greater, TokenType::GreaterEqual)
    } else if c == '/' {
        if pos + 1 < src.len() && src[pos + 1] == '/' {
            Lexeme { end: pos + 2 + run_len(src, pos + 2, Run::NotNewline), line, outcome: Outcome::Skip }
        } else {
            plain(TokenType::Slash, src, pos, pos + 1, line)
        }
    } else if c == ' ' || c == '\r' || c == '\t' {
        Lexeme { end: pos + 1, line, outcome: Outcome::Skip }
    } else if c == '\n' {
        Lexeme { end: pos + 1, line: line + 1, outcome: Outcome::Skip }
    } else if c == '\"' {
        string_lexeme(src, pos, line)
    } else if digit(c) {
        number_lexeme(src, pos, line)
    } else if alpha(c) {
        identifier_lexeme(src, pos, line)
    } else {
        Lexeme {
            end: pos + 1,
            line,
            outcome: Outcome::Fail(ScanErrorView { line, message: unexpected_message(c) }),
        }
    }
}

pub open spec fn eof_token(line: int) -> TokenView {
    TokenView { kind: TokenType::Eof, lexeme: Seq::empty(), literal: None, line }
}

/// Scanning `src` from `pos` with the line counter at `line`.
pub open spec fn lex_from(src: Seq<char>, pos: int, line: int) -> Lexed
    decreases src.len() - pos,
    via lex_from_decreases
{
    if 0 <= pos < src.len() {
        let st = step(src, pos, line);
        let rest = lex_from(src, st.end, st.line);
        match st.outcome {
            Outcome::Skip => rest,
            Outcome::Emit(t) => Lexed { tokens: seq![t] + rest.tokens, errors: rest.errors },
            Outcome::Fail(e) => Lexed { tokens: rest.tokens, errors: seq![e] + rest.errors },
        }
    } else {
        Lexed { tokens: seq![eof_token(line)], errors: Seq::empty() }
    }
}

#[via_fn]
proof fn lex_from_decreases(src: Seq<char>, pos: int, line: int) {
    if 0 <= pos < src.len() {
        lemma_step_bounds(src, pos, line);
    }
}

pub proof fn lemma_run_len_bound(src: Seq<char>, i: int, r: Run)
    requires
        0 <= i,
    ensures
        i + run_len(src, i, r) <= src.len() || run_len(src, i, r) == 0,
    decreases src.len() - i,
{
    if 0 <= i < src.len() && in_run(src[i], r) {
        lemma_run_len_bound(src, i + 1, r);
    }
}

/// Every lexeme consumes at least one character and stays within the source.
pub proof fn lemma_step_bounds(src: Seq<char>, pos: int, line: int)
    requires
        0 <= pos < src.len(),
    ensures
        pos < step(src, pos, line).end <= src.len(),
{
    lemma_run_len_bound(src, pos + 1, Run::NotQuote);
    lemma_run_len_bound(src, pos + 1, Run::Digits);
    lemma_run_len_bound(src, pos + 1, Run::IdentTail);
    lemma_run_len_bound(src, pos + 2, Run::NotNewline);
    let e = integer_end(src, pos);
    lemma_run_len_bound(src, e + 2, Run::Digits);
}

/// Scanning a whole source text.
pub open spec fn scan(src: Seq<char>) -> Lexed {
    lex_from(src, 0, 1)
}

} // verus!
