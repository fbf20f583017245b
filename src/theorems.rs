use vstd::prelude::*;
use crate::model::{
    in_run, integer_end, lemma_run_len_bound, lemma_step_bounds, lex_from, newlines, run_len, scan,
    step, Outcome, Run,
};
use crate::token::{TokenType, TokenView};
use crate::utils::{alpha, digit};

verus! {

/// The lexemes of `ts`, concatenated in order.
pub open spec fn lexemes(ts: Seq<TokenView>) -> Seq<char>
    decreases ts.len(),
{
    if ts.len() == 0 {
        Seq::empty()
    } else {
        ts[0].lexeme + lexemes(ts.drop_first())
    }
}

/// `src` from `i` on, without whitespace and comments outside string literals.
pub open spec fn meaningful_from(src: Seq<char>, i: int) -> Seq<char>
    decreases src.len() - i,
    via meaningful_from_decreases
{
    if 0 <= i < src.len() {
        let c = src[i];
        if c == ' ' || c == '\r' || c == '\t' || c == '\n' {
            meaningful_from(src, i + 1)
        } else if c == '/' && i + 1 < src.len() && src[i + 1] == '/' {
            meaningful_from(src, i + 2 + run_len(src, i + 2, Run::NotNewline))
        } else if c == '\"' {
            let close = i + 1 + run_len(src, i + 1, Run::NotQuote);
            if close < src.len() {
                src.subrange(i, close + 1) + meaningful_from(src, close + 1)
            } else {
                src.subrange(i, src.len() as int)
            }
        } else {
            seq![c] + meaningful_from(src, i + 1)
        }
    } else {
        Seq::empty()
    }
}

#[via_fn]
proof fn meaningful_from_decreases(src: Seq<char>, i: int) {
    if 0 <= i < src.len() {
        lemma_run_len_bound(src, i + 2, Run::NotNewline);
        lemma_run_len_bound(src, i + 1, Run::NotQuote);
    }
}

/// The source's content without whitespace and comments.
pub open spec fn meaningful(src: Seq<char>) -> Seq<char> {
    meaningful_from(src, 0)
}

/// A character at `k` that is neither whitespace, a quote, nor the start of a comment.
pub open spec fn plain_char(src: Seq<char>, k: int) -> bool {
    let c = src[k];
    &&& c != ' ' && c != '\r' && c != '\t' && c != '\n' && c != '\"'
    &&& !(c == '/' && k + 1 < src.len() && src[k + 1] == '/')
}

proof fn lemma_run_chars(src: Seq<char>, i: int, r: Run)
    requires
        0 <= i,
    ensures
        forall|k: int| i <= k < i + run_len(src, i, r) ==> in_run(#[trigger] src[k], r),
        run_len(src, i, r) == 0 || i + run_len(src, i, r) <= src.len(),
    decreases src.len() - i,
{
    lemma_run_len_bound(src, i, r);
    if 0 <= i < src.len() && in_run(src[i], r) {
        lemma_run_chars(src, i + 1, r);
        assert forall|k: int| i <= k < i + run_len(src, i, r) implies in_run(#[trigger] src[k], r) by {
            if k > i {
                assert(i + 1 <= k < i + 1 + run_len(src, i + 1, r));
            }
        }
    }
}

/// A run stops at the end of the source or at a character outside its class.
proof fn lemma_run_end(src: Seq<char>, i: int, r: Run)
    requires
        0 <= i,
    ensures
        i + run_len(src, i, r) < src.len() ==> !in_run(src[i + run_len(src, i, r)], r),
    decreases src.len() - i,
{
    if 0 <= i < src.len() && in_run(src[i], r) {
        lemma_run_end(src, i + 1, r);
    }
}

proof fn lemma_newlines_concat(a: Seq<char>, b: Seq<char>)
    ensures
        newlines(a + b) == newlines(a) + newlines(b),
    decreases b.len(),
{
    if b.len() == 0 {
        assert(a + b =~= a);
    } else {
        lemma_newlines_concat(a, b.drop_last());
        assert((a + b).drop_last() =~= a + b.drop_last());
    }
}

proof fn lemma_no_newlines(s: Seq<char>)
    requires
        forall|k: int| 0 <= k < s.len() ==> s[k] != '\n',
    ensures
        newlines(s) == 0,
    decreases s.len(),
{
    if s.len() > 0 {
        lemma_no_newlines(s.drop_last());
    }
}

/// Every token other than a string literal spans plain characters only.
proof fn lemma_token_span_plain(src: Seq<char>, pos: int, line: int)
    requires
        0 <= pos < src.len(),
        step(src, pos, line).outcome is Emit,
        step(src, pos, line).outcome->Emit_0.kind != TokenType::String,
    ensures
        forall|k: int| pos <= k < step(src, pos, line).end ==> plain_char(src, k),
{
    let c = src[pos];
    if digit(c) {
        lemma_run_chars(src, pos + 1, Run::Digits);
        let e = integer_end(src, pos);
        lemma_run_len_bound(src, pos + 1, Run::Digits);
        lemma_run_chars(src, e + 2, Run::Digits);
    } else if alpha(c) {
        lemma_run_chars(src, pos + 1, Run::IdentTail);
    }
}

/// The line counter after a lexeme counts the newlines that the lexeme holds.
proof fn lemma_step_newlines(src: Seq<char>, pos: int, line: int)
    requires
        0 <= pos < src.len(),
    ensures
        step(src, pos, line).line == line + newlines(src.subrange(pos, step(src, pos, line).end)),
{
    let st = step(src, pos, line);
    lemma_step_bounds(src, pos, line);
    let span = src.subrange(pos, st.end);
    let c = src[pos];
    if c == '\n' {
        assert(span.drop_last() =~= Seq::<char>::empty());
        assert(newlines(Seq::<char>::empty()) == 0);
        assert(newlines(span) == 1);
    } else if c == '\"' {
        let close = pos + 1 + run_len(src, pos + 1, Run::NotQuote);
        let body = src.subrange(pos + 1, close);
        lemma_no_newlines(seq![c]);
        lemma_newlines_concat(seq![c], body);
        if close >= src.len() {
            assert(span =~= seq![c] + body);
        } else {
            lemma_run_end(src, pos + 1, Run::NotQuote);
            let q = seq![src[close]];
            lemma_no_newlines(q);
            lemma_newlines_concat(seq![c] + body, q);
            assert(span =~= seq![c] + body + q);
        }
    } else if c == '/' && pos + 1 < src.len() && src[pos + 1] == '/' {
        lemma_run_chars(src, pos + 2, Run::NotNewline);
        assert forall|k: int| 0 <= k < span.len() implies span[k] != '\n' by {
            assert(span[k] == src[pos + k]);
        }
        lemma_no_newlines(span);
    } else if st.outcome is Emit {
        lemma_token_span_plain(src, pos, line);
        assert forall|k: int| 0 <= k < span.len() implies span[k] != '\n' by {
            assert(plain_char(src, pos + k));
        }
        lemma_no_newlines(span);
    } else {
        assert forall|k: int| 0 <= k < span.len() implies span[k] != '\n' by {
            assert(span[k] == src[pos + k]);
        }
        lemma_no_newlines(span);
    }
}

proof fn lemma_newlines_split(src: Seq<char>, a: int, b: int, c: int)
    requires
        0 <= a <= b <= c <= src.len(),
    ensures
        newlines(src.subrange(a, c)) == newlines(src.subrange(a, b)) + newlines(src.subrange(b, c)),
{
    lemma_newlines_concat(src.subrange(a, b), src.subrange(b, c));
    assert(src.subrange(a, c) =~= src.subrange(a, b) + src.subrange(b, c));
}

proof fn lemma_lex_from_eof(src: Seq<char>, pos: int, line: int)
    requires
        0 <= pos <= src.len(),
    ensures
        ({
            let ts = lex_from(src, pos, line).tokens;
            &&& ts.len() >= 1
            &&& ts.last().kind == TokenType::Eof
            &&& forall|i: int| 0 <= i < ts.len() - 1 ==> ts[i].kind != TokenType::Eof
            &&& ts.last().line == line + newlines(src.subrange(pos, src.len() as int))
            &&& forall|i: int, j: int| 0 <= i <= j < ts.len() ==> line <= #[trigger] ts[i].line <= #[trigger] ts[j].line
        }),
    decreases src.len() - pos,
{
    if pos < src.len() {
        let st = step(src, pos, line);
        lemma_step_bounds(src, pos, line);
        lemma_step_newlines(src, pos, line);
        lemma_newlines_split(src, pos, st.end, src.len() as int);
        lemma_lex_from_eof(src, st.end, st.line);
        let rest = lex_from(src, st.end, st.line).tokens;
        match st.outcome {
            Outcome::Emit(t) => {
                let ts = seq![t] + rest;
                assert(ts.last() == rest.last());
                assert forall|i: int| 0 <= i < ts.len() - 1 implies ts[i].kind != TokenType::Eof by {
                    if i > 0 {
                        assert(ts[i] == rest[i - 1]);
                    }
                }
                assert forall|i: int, j: int| 0 <= i <= j < ts.len() implies line <= #[trigger] ts[i].line
                    <= #[trigger] ts[j].line by {
                    if i > 0 {
                        assert(ts[i] == rest[i - 1]);
                    }
                    if j > 0 {
                        assert(ts[j] == rest[j - 1]);
                    }
                }
            },
            _ => {},
        }
    } else {
        assert(src.subrange(pos, src.len() as int) =~= Seq::<char>::empty());
    }
}

/// Scanning always ends in exactly one `Eof` token, and no other token is `Eof`.
pub proof fn lemma_single_eof_last(src: Seq<char>)
    ensures
        scan(src).tokens.len() >= 1,
        scan(src).tokens.last().kind == TokenType::Eof,
        forall|i: int| 0 <= i < scan(src).tokens.len() - 1 ==> scan(src).tokens[i].kind != TokenType::Eof,
{
    lemma_lex_from_eof(src, 0, 1);
}

/// Token lines never decrease, and each newline of the source, inside a string literal
/// or not, advances the line counter once: the `Eof` token stands on line one plus the
/// number of newlines in the source.
pub proof fn lemma_lines(src: Seq<char>)
    ensures
        forall|i: int, j: int|
            0 <= i <= j < scan(src).tokens.len() ==> 1 <= #[trigger] scan(src).tokens[i].line
                <= #[trigger] scan(src).tokens[j].line,
        scan(src).tokens.last().line == 1 + newlines(src),
{
    lemma_lex_from_eof(src, 0, 1);
    assert(src.subrange(0, src.len() as int) =~= src);
}

/// Over plain characters, the meaningful content is the characters themselves.
proof fn lemma_plain_span(src: Seq<char>, a: int, b: int)
    requires
        0 <= a <= b <= src.len(),
        forall|k: int| a <= k < b ==> plain_char(src, k),
    ensures
        meaningful_from(src, a) == src.subrange(a, b) + meaningful_from(src, b),
    decreases b - a,
{
    if a < b {
        lemma_plain_span(src, a + 1, b);
        assert(plain_char(src, a));
        let head = seq![src[a]];
        assert(meaningful_from(src, a) == head + meaningful_from(src, a + 1));
        assert(src.subrange(a, b) =~= head + src.subrange(a + 1, b));
        assert(head + (src.subrange(a + 1, b) + meaningful_from(src, b)) =~= (head + src.subrange(
            a + 1,
            b,
        )) + meaningful_from(src, b));
    } else {
        assert(src.subrange(a, b) + meaningful_from(src, b) =~= meaningful_from(src, b));
    }
}

proof fn lemma_lexemes_from(src: Seq<char>, pos: int, line: int)
    requires
        0 <= pos <= src.len(),
        lex_from(src, pos, line).errors.len() == 0,
    ensures
        lexemes(lex_from(src, pos, line).tokens) == meaningful_from(src, pos),
    decreases src.len() - pos,
{
    if pos < src.len() {
        let st = step(src, pos, line);
        lemma_step_bounds(src, pos, line);
        let rest = lex_from(src, st.end, st.line);
        match st.outcome {
            Outcome::Skip => {
                lemma_lexemes_from(src, st.end, st.line);
                assert(meaningful_from(src, pos) == meaningful_from(src, st.end));
            },
            Outcome::Emit(t) => {
                lemma_lexemes_from(src, st.end, st.line);
                assert((seq![t] + rest.tokens).drop_first() =~= rest.tokens);
                assert(lexemes(seq![t] + rest.tokens) == t.lexeme + lexemes(rest.tokens));
                if t.kind != TokenType::String {
                    lemma_token_span_plain(src, pos, line);
                    lemma_plain_span(src, pos, st.end);
                } else {
                    assert(src[pos] == '\"');
                    assert(meaningful_from(src, pos) == t.lexeme + meaningful_from(src, st.end));
                }
                assert(lex_from(src, pos, line).tokens == seq![t] + rest.tokens);
            },
            Outcome::Fail(e) => {
                assert((seq![e] + rest.errors).len() > 0);
            },
        }
    } else {
        let ts = lex_from(src, pos, line).tokens;
        assert(ts.drop_first() =~= Seq::<TokenView>::empty());
        assert(lexemes(ts.drop_first()) == Seq::<char>::empty());
        assert(ts[0].lexeme + Seq::<char>::empty() =~= Seq::<char>::empty());
    }
}

/// When a source scans without lexical errors, the lexemes of its tokens, concatenated
/// in order, give back the source without its whitespace and comments.
pub proof fn lemma_lexemes_round_trip(src: Seq<char>)
    requires
        scan(src).errors.len() == 0,
    ensures
        lexemes(scan(src).tokens) == meaningful(src),
{
    lemma_lexemes_from(src, 0, 1);
}

} // verus!
