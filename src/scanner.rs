use vstd::prelude::*;
use crate::model::{
    identifier_end, integer_end, keyword_kind, lemma_run_len_bound, lemma_step_bounds, lex_from, newlines, number_end,
    run_len, step, string_lexeme, unexpected_message, Outcome, Run,
};
use crate::token::{error_views, token_views, ScanError, Token, TokenType, TokenView};
use crate::utils::{self, push_char};

verus! {

/// Scans one source text into tokens.
pub struct Scanner {
    pub tokens: Vec<Token>,
    source: String,
    chars: Vec<char>,
    /// Index of the current lexeme's first character.
    start: usize,
    /// Line of the current lexeme's first character.
    start_line: usize,
    /// Index of the next character to consume.
    current: usize,
    line: usize,
}

/// The characters of `s`, in order.
fn chars_of(s: &String) -> (r: Vec<char>)
    ensures
        r@ == s@,
{
    let mut r: Vec<char> = Vec::new();
    for c in it: s.chars()
        invariant
            r@ == it.seq().take(it.index() as int),
    {
        r.push(c);
    }
    r
}

impl Scanner {
    /// The source text.
    pub closed spec fn text(&self) -> Seq<char> {
        self.source@
    }

    /// Index of the next character to consume.
    pub closed spec fn position(&self) -> int {
        self.current as int
    }

    /// The line counter.
    pub closed spec fn line_counter(&self) -> int {
        self.line as int
    }

    /// The tokens produced so far.
    pub closed spec fn produced(&self) -> Seq<TokenView> {
        token_views(self.tokens@)
    }

    /// The scanner's invariant: the cursor lies within the source, and the line
    /// counter is at least one and at most one more than the characters consumed.
    pub closed spec fn wf(&self) -> bool {
        &&& self.chars@ == self.source@
        &&& self.start <= self.current <= self.chars@.len() < usize::MAX
        &&& 1 <= self.start_line <= self.line <= self.current + 1
    }

    /// A scanner at the start of `source`, on line 1, with no tokens yet. The
    /// character count must leave room for the line counter in a `usize`, which
    /// every `String` does.
    pub fn new(source: String) -> (s: Scanner)
        requires
            source@.len() < usize::MAX,
        ensures
            s.wf(),
            s.text() == source@,
            s.position() == 0,
            s.line_counter() == 1,
            s.produced().len() == 0,
    {
        let chars = chars_of(&source);
        Scanner { tokens: Vec::new(), source, chars, start: 0, start_line: 1, current: 0, line: 1 }
    }

    fn is_at_end(&self) -> (r: bool)
        requires
            self.wf(),
        ensures
            r == (self.current >= self.chars@.len()),
    {
        self.current >= self.chars.len()
    }

    fn advance(&mut self) -> (c: char)
        requires
            old(self).wf(),
            old(self).current < old(self).chars@.len(),
        ensures
            *final(self) == (Scanner { current: (old(self).current + 1) as usize, ..*old(self) }),
            c == old(self).chars@[old(self).current as int],
    {
        let c = self.chars[self.current];
        self.current = self.current + 1;
        c
    }

    fn peek(&self) -> (c: char)
        requires
            self.wf(),
        ensures
            c == if self.current < self.chars@.len() {
                self.chars@[self.current as int]
            } else {
                '\0'
            },
    {
        if self.is_at_end() {
            return '\0';
        }
        self.chars[self.current]
    }

    fn peek_n(&self, n: usize) -> (c: char)
        requires
            self.wf(),
        ensures
            c == if self.current + n < self.chars@.len() {
                self.chars@[self.current + n]
            } else {
                '\0'
            },
    {
        if n >= self.chars.len() - self.current {
            return '\0';
        }
        self.chars[self.current + n]
    }

    /// Consumes the next character if it is `expected`.
    fn next_is(&mut self, expected: char) -> (r: bool)
        requires
            old(self).wf(),
        ensures
            r == (old(self).current < old(self).chars@.len() && old(self).chars@[old(self).current as int] == expected),
            *final(self) == (Scanner { current: if r { (old(self).current + 1) as usize } else { old(self).current }, ..*old(self) }),
    {
        if self.is_at_end() {
            return false;
        }
        if self.chars[self.current] != expected {
            return false;
        }
        self.current = self.current + 1;
        true
    }

    /// The source text between two indices.
    fn substring(&self, start: usize, end: usize) -> (r: String)
        requires
            self.wf(),
            start <= end <= self.chars@.len(),
        ensures
            r@ == self.source@.subrange(start as int, end as int),
    {
        let mut r = String::new();
        let mut i: usize = start;
        while i < end
            invariant
                self.wf(),
                start <= i <= end <= self.chars@.len(),
                r@ == self.chars@.subrange(start as int, i as int),
            decreases end - i,
        {
            push_char(&mut r, self.chars[i]);
            assert(self.chars@.subrange(start as int, i + 1) =~= self.chars@.subrange(start as int, i as int).push(self.chars@[i as int]));
            i = i + 1;
        }
        r
    }

    /// The text of the current lexeme.
    fn token_text(&self) -> (r: String)
        requires
            self.wf(),
        ensures
            r@ == self.source@.subrange(self.start as int, self.current as int),
    {
        self.substring(self.start, self.current)
    }

    /// Scans the whole remaining source: every lexeme in turn, then the `Eof` token.
    /// Scanning goes on past lexical errors; they are all returned, in order, once the
    /// source is exhausted, and the tokens of the well-formed lexemes are kept.
    pub fn scan_tokens(&mut self) -> (r: Result<(), Vec<ScanError>>)
        requires
            old(self).wf(),
        ensures
            final(self).wf(),
            final(self).text() == old(self).text(),
            final(self).position() == final(self).text().len(),
            ({
                let lexed = lex_from(old(self).text(), old(self).position(), old(self).line_counter());
                &&& final(self).produced() == old(self).produced() + lexed.tokens
                &&& r is Ok <==> lexed.errors.len() == 0
                &&& r is Err ==> error_views(r->Err_0@) == lexed.errors
            }),
    {
        let ghost src = self.source@;
        let ghost target = lex_from(src, self.current as int, self.line as int);
        let ghost before = token_views(self.tokens@);
        let mut errors: Vec<ScanError> = Vec::new();
        while !self.is_at_end()
            invariant
                self.wf(),
                src == self.source@,
                before + target.tokens == token_views(self.tokens@) + lex_from(
                    src,
                    self.current as int,
                    self.line as int,
                ).tokens,
                target.errors == error_views(errors@) + lex_from(
                    src,
                    self.current as int,
                    self.line as int,
                ).errors,
            decreases src.len() - self.current,
        {
            let ghost toks = token_views(self.tokens@);
            let ghost errs = error_views(errors@);
            let ghost pos = self.current as int;
            let ghost st = step(src, pos, self.line as int);
            let ghost rest = lex_from(src, st.end, st.line);
            self.start = self.current;
            self.start_line = self.line;
            let res = self.scan_token();
            match res {
                Ok(()) => {},
                Err(e) => {
                    errors.push(e);
                    assert(error_views(errors@) =~= errs.push(e@));
                },
            }
            proof {
                lemma_step_bounds(src, pos, st.line);
                match st.outcome {
                    Outcome::Skip => {},
                    Outcome::Emit(t) => {
                        assert(toks + (seq![t] + rest.tokens) =~= toks.push(t) + rest.tokens);
                    },
                    Outcome::Fail(e) => {
                        assert(errs + (seq![e] + rest.errors) =~= errs.push(e) + rest.errors);
                    },
                }
            }
        }
        let ghost toks = token_views(self.tokens@);
        let eof = Token {
            token_type: TokenType::Eof,
            lexeme: String::new(),
            literal: None,
            line: self.line,
        };
        self.tokens.push(eof);
        assert(token_views(self.tokens@) =~= toks.push(eof@));
        assert(eof@.lexeme =~= Seq::<char>::empty());
        assert(toks + seq![eof@] =~= toks.push(eof@));
        if errors.len() == 0 {
            Ok(())
        } else {
            Err(errors)
        }
    }

    /// Scans the lexeme that starts at the cursor.
    fn scan_token(&mut self) -> (r: Result<(), ScanError>)
        requires
            old(self).wf(),
            old(self).current < old(self).chars@.len(),
            old(self).start == old(self).current,
            old(self).start_line == old(self).line,
        ensures
            final(self).wf(),
            final(self).source == old(self).source,
            ({
                let st = step(old(self).source@, old(self).current as int, old(self).line as int);
                &&& final(self).current == st.end
                &&& final(self).line == st.line
                &&& match st.outcome {
                    Outcome::Skip => r is Ok && final(self).tokens@ == old(self).tokens@,
                    Outcome::Emit(t) => r is Ok && token_views(final(self).tokens@) == token_views(
                        old(self).tokens@,
                    ).push(t),
                    Outcome::Fail(e) => r is Err && r->Err_0@ == e && final(self).tokens@
                        == old(self).tokens@,
                }
            }),
    {
        let ghost src = self.source@;
        let ghost pos = self.current as int;
        let c = self.advance();
        match c {
            '(' => self.add_token(TokenType::LeftParen),
            ')' => self.add_token(TokenType::RightParen),
            '{' => self.add_token(TokenType::LeftBrace),
            '}' => self.add_token(TokenType::RightBrace),
            ',' => self.add_token(TokenType::Comma),
            '.' => self.add_token(TokenType::Dot),
            '-' => self.add_token(TokenType::Minus),
            '+' => self.add_token(TokenType::Plus),
            ';' => self.add_token(TokenType::Semicolon),
            '*' => self.add_token(TokenType::Star),
            '!' => {
                let token_type = if self.next_is('=') {
                    TokenType::BangEqual
                } else {
                    TokenType::Bang
                };
                self.add_token(token_type);
            },
            '=' => {
                let token_type = if self.next_is('=') {
                    TokenType::EqualEqual
                } else {
                    TokenType::Equal
                };
                self.add_token(token_type);
            },
            '<' => {
                let token_type = if self.next_is('=') {
                    TokenType::LessEqual
                } else {
                    TokenType::Less
                };
                self.add_token(token_type);
            },
            '>' => {
                let token_type = if self.next_is('=') {
                    TokenType::GreaterEqual
                } else {
                    TokenType::Greater
                };
                self.add_token(token_type);
            },
            '/' => {
                if self.next_is('/') {
                    // A comment runs to the end of the line and yields no token.
                    let ghost end = pos + 2 + run_len(src, pos + 2, Run::NotNewline);
                    proof {
                        lemma_run_len_bound(src, pos + 2, Run::NotNewline);
                    }
                    while self.peek() != '\n' && !self.is_at_end()
                        invariant
                            self.wf(),
                            src == self.chars@,
                            *self == (Scanner { current: self.current, ..*old(self) }),
                            pos + 2 <= self.current <= end <= src.len(),
                            self.current + run_len(src, self.current as int, Run::NotNewline) == end,
                        decreases src.len() - self.current,
                    {
                        self.advance();
                    }
                } else {
                    self.add_token(TokenType::Slash);
                }
            },
            ' ' | '\r' | '\t' => {},
            '\n' => {
                self.line = self.line + 1;
            },
            '\"' => {
                match self.string() {
                    Ok(literal) => self.add_token_literal(TokenType::String, literal),
                    Err(e) => {
                        return Err(e);
                    },
                }
            },
            _ => {
                if utils::is_digit(c) {
                    let literal = self.number();
                    self.add_token_literal(TokenType::Number, literal);
                } else if utils::is_alpha(c) {
                    self.identifier();
                    let token_type = self.keyword_type();
                    self.add_token(token_type);
                } else {
                    return utils::error(self.line, unexpected_character(c));
                }
            },
        }
        Ok(())
    }

    /// Appends a token without a literal for the current lexeme.
    fn add_token(&mut self, token_type: TokenType)
        requires
            old(self).wf(),
        ensures
            final(self).wf(),
            same_cursor(*final(self), *old(self)),
            token_views(final(self).tokens@) == token_views(old(self).tokens@).push(
                TokenView {
                    kind: token_type,
                    lexeme: old(self).source@.subrange(old(self).start as int, old(self).current as int),
                    literal: None,
                    line: old(self).start_line as int,
                },
            ),
    {
        let token = Token { token_type, lexeme: self.token_text(), literal: None, line: self.start_line };
        self.tokens.push(token);
        assert(token_views(self.tokens@) =~= token_views(old(self).tokens@).push(token@));
    }

    /// Appends a token with a literal for the current lexeme.
    fn add_token_literal(&mut self, token_type: TokenType, literal: String)
        requires
            old(self).wf(),
        ensures
            final(self).wf(),
            same_cursor(*final(self), *old(self)),
            token_views(final(self).tokens@) == token_views(old(self).tokens@).push(
                TokenView {
                    kind: token_type,
                    lexeme: old(self).source@.subrange(old(self).start as int, old(self).current as int),
                    literal: Some(literal@),
                    line: old(self).start_line as int,
                },
            ),
    {
        let token = Token {
            token_type,
            lexeme: self.token_text(),
            literal: Some(literal),
            line: self.start_line,
        };
        self.tokens.push(token);
        assert(token_views(self.tokens@) =~= token_views(old(self).tokens@).push(token@));
    }

    /// The rest of a string literal whose opening quote was just consumed. A string
    /// that reaches the end of the source is reported on the line where the source ends.
    fn string(&mut self) -> (r: Result<String, ScanError>)
        requires
            old(self).wf(),
            old(self).current == old(self).start + 1,
            old(self).line == old(self).start_line,
            old(self).line <= old(self).start + 1,
        ensures
            final(self).wf(),
            final(self).tokens == old(self).tokens,
            final(self).source == old(self).source,
            final(self).start == old(self).start,
            final(self).start_line == old(self).start_line,
            ({
                let st = string_lexeme(old(self).source@, old(self).start as int, old(self).line as int);
                &&& final(self).current == st.end
                &&& final(self).line == st.line
                &&& match st.outcome {
                    Outcome::Emit(t) => r is Ok && t.literal == Some(r->Ok_0@),
                    Outcome::Fail(e) => r is Err && r->Err_0@ == e,
                    Outcome::Skip => false,
                }
            }),
    {
        let ghost src = self.source@;
        let ghost pos = self.start as int;
        let ghost close = pos + 1 + run_len(src, pos + 1, Run::NotQuote);
        proof {
            lemma_run_len_bound(src, pos + 1, Run::NotQuote);
        }
        while self.peek() != '\"' && !self.is_at_end()
            invariant
                self.wf(),
                src == self.chars@,
                src == self.source@,
                pos == self.start,
                self.tokens == old(self).tokens,
                self.source == old(self).source,
                self.start == old(self).start,
                self.start_line == old(self).start_line,
                pos + 1 <= self.current <= close <= src.len(),
                self.current + run_len(src, self.current as int, Run::NotQuote) == close,
                old(self).line <= pos + 1,
                self.line == old(self).line + newlines(src.subrange(pos + 1, self.current as int)),
            decreases src.len() - self.current,
        {
            proof {
                lemma_newlines_bound(src.subrange(pos + 1, self.current as int));
                lemma_newlines_push(src, pos + 1, self.current as int);
            }
            if self.peek() == '\n' {
                self.line = self.line + 1;
            }
            self.advance();
        }
        if self.is_at_end() {
            let message = String::from_str("Unterminated string");
            if let Err(e) = utils::error(self.line, message) {
                return Err(e);
            }
        }
        proof {
            lemma_newlines_bound(src.subrange(pos + 1, self.current as int));
        }
        self.advance();
        Ok(self.substring(self.start + 1, self.current - 1))
    }

    /// The rest of a number literal whose first digit was just consumed.
    fn number(&mut self) -> (r: String)
        requires
            old(self).wf(),
            old(self).current == old(self).start + 1,
        ensures
            final(self).wf(),
            *final(self) == (Scanner { current: final(self).current, ..*old(self) }),
            final(self).current == number_end(old(self).source@, old(self).start as int),
            r@ == old(self).source@.subrange(old(self).start as int, final(self).current as int),
    {
        let ghost src = self.source@;
        let ghost pos = self.start as int;
        let ghost e = integer_end(src, pos);
        proof {
            lemma_run_len_bound(src, pos + 1, Run::Digits);
        }
        while utils::is_digit(self.peek())
            invariant
                self.wf(),
                src == self.chars@,
                *self == (Scanner { current: self.current, ..*old(self) }),
                pos + 1 <= self.current <= e <= src.len(),
                self.current + run_len(src, self.current as int, Run::Digits) == e,
            decreases src.len() - self.current,
        {
            self.advance();
        }
        if self.peek() == '.' && utils::is_digit(self.peek_n(1)) {
            // The `.` belongs to the number.
            self.advance();
            let ghost end = number_end(src, pos);
            proof {
                lemma_run_len_bound(src, e + 2, Run::Digits);
            }
            while utils::is_digit(self.peek())
                invariant
                    self.wf(),
                    src == self.chars@,
                    *self == (Scanner { current: self.current, ..*old(self) }),
                    e + 1 <= self.current <= end <= src.len(),
                    self.current + run_len(src, self.current as int, Run::Digits) == end,
                decreases src.len() - self.current,
            {
                self.advance();
            }
        }
        self.token_text()
    }

    /// The rest of an identifier or keyword whose first character was just consumed.
    fn identifier(&mut self) -> (r: String)
        requires
            old(self).wf(),
            old(self).current == old(self).start + 1,
        ensures
            final(self).wf(),
            *final(self) == (Scanner { current: final(self).current, ..*old(self) }),
            final(self).current == identifier_end(old(self).source@, old(self).start as int),
            r@ == old(self).source@.subrange(old(self).start as int, final(self).current as int),
    {
        let ghost src = self.source@;
        let ghost pos = self.start as int;
        let ghost e = identifier_end(src, pos);
        proof {
            lemma_run_len_bound(src, pos + 1, Run::IdentTail);
        }
        while utils::is_alphanumeric(self.peek())
            invariant
                self.wf(),
                src == self.chars@,
                *self == (Scanner { current: self.current, ..*old(self) }),
                pos + 1 <= self.current <= e <= src.len(),
                self.current + run_len(src, self.current as int, Run::IdentTail) == e,
            decreases src.len() - self.current,
        {
            self.advance();
        }
        self.token_text()
    }

    /// Whether the current lexeme is exactly `word`.
    fn lexeme_is(&self, word: &str) -> (r: bool)
        requires
            self.wf(),
        ensures
            r == (self.source@.subrange(self.start as int, self.current as int) == word@),
    {
        let ghost text = self.source@.subrange(self.start as int, self.current as int);
        let n = word.unicode_len();
        if self.current - self.start != n {
            return false;
        }
        let mut i: usize = 0;
        while i < n
            invariant
                self.wf(),
                n == word@.len(),
                self.current - self.start == n,
                text == self.chars@.subrange(self.start as int, self.current as int),
                i <= n,
                forall|j: int| 0 <= j < i ==> text[j] == word@[j],
            decreases n - i,
        {
            if self.chars[self.start + i] != word.get_char(i) {
                return false;
            }
            i = i + 1;
        }
        assert(text =~= word@);
        true
    }

    /// The kind of the identifier-shaped current lexeme.
    fn keyword_type(&self) -> (k: TokenType)
        requires
            self.wf(),
        ensures
            k == keyword_kind(self.source@.subrange(self.start as int, self.current as int)),
    {
        if self.lexeme_is("and") {
            TokenType::And
        } else if self.lexeme_is("class") {
            TokenType::Class
        } else if self.lexeme_is("else") {
            TokenType::Else
        } else if self.lexeme_is("false") {
            TokenType::False
        } else if self.lexeme_is("for") {
            TokenType::For
        } else if self.lexeme_is("fun") {
            TokenType::Fun
        } else if self.lexeme_is("if") {
            TokenType::If
        } else if self.lexeme_is("nil") {
            TokenType::Nil
        } else if self.lexeme_is("or") {
            TokenType::Or
        } else if self.lexeme_is("print") {
            TokenType::Print
        } else if self.lexeme_is("return") {
            TokenType::Return
        } else if self.lexeme_is("super") {
            TokenType::Super
        } else if self.lexeme_is("this") {
            TokenType::This
        } else if self.lexeme_is("true") {
            TokenType::True
        } else if self.lexeme_is("var") {
            TokenType::Var
        } else if self.lexeme_is("while") {
            TokenType::While
        } else {
            TokenType::Identifier
        }
    }
}

/// The message for a character that starts no lexeme.
fn unexpected_character(c: char) -> (m: String)
    ensures
        m@ == unexpected_message(c),
{
    let mut m = String::from_str("Unexpected character '");
    push_char(&mut m, c);
    m.append("'");
    m
}

/// Everything but the token list is the same.
spec fn same_cursor(a: Scanner, b: Scanner) -> bool {
    &&& a.source == b.source
    &&& a.chars == b.chars
    &&& a.start == b.start
    &&& a.start_line == b.start_line
    &&& a.current == b.current
    &&& a.line == b.line
}

proof fn lemma_newlines_bound(s: Seq<char>)
    ensures
        newlines(s) <= s.len(),
    decreases s.len(),
{
    if s.len() > 0 {
        lemma_newlines_bound(s.drop_last());
    }
}

/// Extending a span by one character counts that character's newline.
proof fn lemma_newlines_push(src: Seq<char>, a: int, i: int)
    requires
        0 <= a <= i < src.len(),
    ensures
        newlines(src.subrange(a, i + 1)) == newlines(src.subrange(a, i)) + if src[i] == '\n' {
            1nat
        } else {
            0nat
        },
{
    assert(src.subrange(a, i + 1).drop_last() =~= src.subrange(a, i));
}

} // verus!
