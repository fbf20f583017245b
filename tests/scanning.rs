use lox::scanner::Scanner;
use lox::token::{ScanError, Token, TokenType};

fn scan(source: &str) -> (Vec<Token>, Result<(), Vec<ScanError>>) {
    let mut scanner = Scanner::new(source.to_string());
    let result = scanner.scan_tokens();
    (scanner.tokens, result)
}

fn kinds(tokens: &[Token]) -> Vec<TokenType> {
    tokens.iter().map(|t| t.token_type).collect()
}

fn lexemes(tokens: &[Token]) -> Vec<String> {
    tokens.iter().map(|t| t.lexeme.clone()).collect()
}

#[test]
fn empty_source_gives_only_eof() {
    let (tokens, result) = scan("");
    assert!(result.is_ok());
    assert_eq!(tokens.len(), 1);
    assert_eq!(tokens[0].token_type, TokenType::Eof);
    assert_eq!(tokens[0].lexeme, "");
    assert_eq!(tokens[0].literal, None);
    assert_eq!(tokens[0].line, 1);
}

#[test]
fn eof_is_last_and_unique() {
    for source in ["", "x", "1 + 2", "\"abc", "@#", "// only a comment", "a\n\nb", "!= == <= >="] {
        let (tokens, _) = scan(source);
        let n = tokens.len();
        assert!(n >= 1);
        assert_eq!(tokens[n - 1].token_type, TokenType::Eof);
        assert!(tokens[..n - 1].iter().all(|t| t.token_type != TokenType::Eof));
    }
}

#[test]
fn single_character_tokens() {
    let (tokens, result) = scan("(){},.-+;*");
    assert!(result.is_ok());
    assert_eq!(
        kinds(&tokens),
        vec![
            TokenType::LeftParen,
            TokenType::RightParen,
            TokenType::LeftBrace,
            TokenType::RightBrace,
            TokenType::Comma,
            TokenType::Dot,
            TokenType::Minus,
            TokenType::Plus,
            TokenType::Semicolon,
            TokenType::Star,
            TokenType::Eof,
        ]
    );
    assert_eq!(lexemes(&tokens)[..10].concat(), "(){},.-+;*");
}

#[test]
fn bang_equal_is_one_token() {
    let (tokens, result) = scan("!=");
    assert!(result.is_ok());
    assert_eq!(kinds(&tokens), vec![TokenType::BangEqual, TokenType::Eof]);
    assert_eq!(tokens[0].lexeme, "!=");
}

#[test]
fn bang_before_other_character_is_bang() {
    let (tokens, _) = scan("!a");
    assert_eq!(kinds(&tokens), vec![TokenType::Bang, TokenType::Identifier, TokenType::Eof]);
    assert_eq!(tokens[0].lexeme, "!");
    let (tokens, _) = scan("!");
    assert_eq!(kinds(&tokens), vec![TokenType::Bang, TokenType::Eof]);
    let (tokens, _) = scan("! =");
    assert_eq!(kinds(&tokens), vec![TokenType::Bang, TokenType::Equal, TokenType::Eof]);
}

#[test]
fn one_and_two_character_operators() {
    let (tokens, result) = scan("= == < <= > >= ===");
    assert!(result.is_ok());
    assert_eq!(
        kinds(&tokens),
        vec![
            TokenType::Equal,
            TokenType::EqualEqual,
            TokenType::Less,
            TokenType::LessEqual,
            TokenType::Greater,
            TokenType::GreaterEqual,
            TokenType::EqualEqual,
            TokenType::Equal,
            TokenType::Eof,
        ]
    );
}

#[test]
fn comment_yields_no_token() {
    let (tokens, result) = scan("// hello\n1");
    assert!(result.is_ok());
    assert_eq!(kinds(&tokens), vec![TokenType::Number, TokenType::Eof]);
    assert_eq!(tokens[0].lexeme, "1");
    assert_eq!(tokens[0].line, 2);
    assert_eq!(tokens[1].line, 2);
}

#[test]
fn comment_at_end_and_slash() {
    let (tokens, _) = scan("a / b // rest");
    assert_eq!(
        kinds(&tokens),
        vec![TokenType::Identifier, TokenType::Slash, TokenType::Identifier, TokenType::Eof]
    );
    assert_eq!(tokens[3].line, 1);
}

#[test]
fn trailing_dot_is_not_part_of_number() {
    let (tokens, result) = scan("123.");
    assert!(result.is_ok());
    assert_eq!(kinds(&tokens), vec![TokenType::Number, TokenType::Dot, TokenType::Eof]);
    assert_eq!(tokens[0].lexeme, "123");
    assert_eq!(tokens[0].literal, Some("123".to_string()));
    assert_eq!(tokens[1].lexeme, ".");
}

#[test]
fn number_with_fraction() {
    let (tokens, _) = scan("3.25.x 7");
    assert_eq!(
        kinds(&tokens),
        vec![TokenType::Number, TokenType::Dot, TokenType::Identifier, TokenType::Number, TokenType::Eof]
    );
    assert_eq!(tokens[0].lexeme, "3.25");
    assert_eq!(tokens[0].literal, Some("3.25".to_string()));
    assert_eq!(tokens[0].literal.as_ref().unwrap().parse::<f64>().unwrap(), 3.25);
    assert_eq!(tokens[3].literal, Some("7".to_string()));
}

#[test]
fn string_spanning_two_lines() {
    let (tokens, result) = scan("\"ab\ncd\"");
    assert!(result.is_ok());
    assert_eq!(kinds(&tokens), vec![TokenType::String, TokenType::Eof]);
    assert_eq!(tokens[0].lexeme, "\"ab\ncd\"");
    assert_eq!(tokens[0].literal, Some("ab\ncd".to_string()));
    assert_eq!(tokens[0].line, 1);
    assert_eq!(tokens[1].line, 2);
}

#[test]
fn string_keeps_backslashes_and_other_text() {
    let (tokens, _) = scan("\"a\\n h\u{e9}\" x");
    assert_eq!(tokens[0].literal, Some("a\\n h\u{e9}".to_string()));
    assert_eq!(tokens[1].lexeme, "x");
}

#[test]
fn unterminated_string_is_reported() {
    let (tokens, result) = scan("\"abc");
    assert_eq!(kinds(&tokens), vec![TokenType::Eof]);
    let errors = result.unwrap_err();
    assert_eq!(errors.len(), 1);
    assert_eq!(errors[0].line, 1);
    assert_eq!(errors[0].message, "Unterminated string");
    assert_eq!(errors[0].diagnostic(), "[line 1] Error : Unterminated string");
}

#[test]
fn unterminated_string_reports_line_where_input_ends() {
    let (tokens, result) = scan("x \"a\nb\n");
    assert_eq!(kinds(&tokens), vec![TokenType::Identifier, TokenType::Eof]);
    let errors = result.unwrap_err();
    assert_eq!(errors[0].line, 3);
    assert_eq!(tokens[1].line, 3);
}

#[test]
fn keyword_needs_the_whole_word() {
    let (tokens, result) = scan("forest");
    assert!(result.is_ok());
    assert_eq!(kinds(&tokens), vec![TokenType::Identifier, TokenType::Eof]);
    assert_eq!(tokens[0].lexeme, "forest");
    assert_eq!(tokens[0].literal, None);
}

#[test]
fn every_keyword() {
    let (tokens, result) =
        scan("and class else false for fun if nil or print return super this true var while For _x9");
    assert!(result.is_ok());
    assert_eq!(
        kinds(&tokens),
        vec![
            TokenType::And,
            TokenType::Class,
            TokenType::Else,
            TokenType::False,
            TokenType::For,
            TokenType::Fun,
            TokenType::If,
            TokenType::Nil,
            TokenType::Or,
            TokenType::Print,
            TokenType::Return,
            TokenType::Super,
            TokenType::This,
            TokenType::True,
            TokenType::Var,
            TokenType::While,
            TokenType::Identifier,
            TokenType::Identifier,
            TokenType::Eof,
        ]
    );
    assert_eq!(tokens[17].lexeme, "_x9");
}

#[test]
fn unexpected_character_is_reported_and_scanning_goes_on() {
    let (tokens, result) = scan("@");
    assert_eq!(kinds(&tokens), vec![TokenType::Eof]);
    let errors = result.unwrap_err();
    assert_eq!(errors.len(), 1);
    assert_eq!(errors[0].message, "Unexpected character '@'");
    assert_eq!(errors[0].line, 1);

    let (tokens, result) = scan("1 @\n# 2");
    assert_eq!(kinds(&tokens), vec![TokenType::Number, TokenType::Number, TokenType::Eof]);
    let errors = result.unwrap_err();
    assert_eq!(errors.len(), 2);
    assert_eq!(errors[0].message, "Unexpected character '@'");
    assert_eq!(errors[1].message, "Unexpected character '#'");
    assert_eq!(errors[1].line, 2);
    assert_eq!(errors[1].diagnostic(), "[line 2] Error : Unexpected character '#'");
}

#[test]
fn lines_never_decrease_and_count_newlines() {
    let source = "a\nb\n\n\"s\n\"\nc";
    let (tokens, _) = scan(source);
    let lines: Vec<usize> = tokens.iter().map(|t| t.line).collect();
    assert_eq!(lines, vec![1, 2, 4, 6, 6]);
    assert!(lines.windows(2).all(|w| w[0] <= w[1]));
    assert_eq!(tokens.last().unwrap().line, 1 + source.matches('\n').count());
}

#[test]
fn lexemes_give_back_the_meaningful_source() {
    let (tokens, result) = scan("var x = (1 + 2.5); // sum\n\tprint x >= \"a b\";\r\n");
    assert!(result.is_ok());
    assert_eq!(lexemes(&tokens).concat(), "varx=(1+2.5);printx>=\"a b\";");
}

#[test]
fn token_descriptions() {
    let (tokens, _) = scan("x 1.5 \"hi\" ;");
    assert_eq!(tokens[0].describe(), "Identifier x");
    assert_eq!(tokens[1].describe(), "Number 1.5 1.5");
    assert_eq!(tokens[2].describe(), "String \"hi\" hi");
    assert_eq!(tokens[3].describe(), "Semicolon ;");
    assert_eq!(tokens[4].describe(), "Eof ");
    assert_eq!(TokenType::GreaterEqual.name(), "GreaterEqual");
}
