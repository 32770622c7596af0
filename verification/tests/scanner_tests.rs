use compiler::scanner::Scanner;
use compiler::token::TokenType;

fn test_tokens(scanner: &mut Scanner, values: Vec<&str>, tokens: Vec<TokenType>) {
    for i in 0..values.len() {
        let result = scanner.scan_token();
        assert_eq!(result.kind, *tokens.get(i).unwrap());
        assert_eq!(result.src, *values.get(i).unwrap());
    }
}

#[test]
fn scan_empty_source() {
    let source = "";
    let mut scanner = Scanner::new(source);
    let result = scanner.scan_token();
    assert_eq!(result.kind, TokenType::Eof);
}

#[test]
fn scan_unexpected_character() {
    let source = "~";
    let mut scanner = Scanner::new(source);

    let result = scanner.scan_token();
    assert_eq!(result.kind, TokenType::Error);
    assert_eq!(result.src, "Unexpected character.");

    let result = scanner.scan_token();
    assert_eq!(result.kind, TokenType::Eof);
}

#[test]
fn scan_whitespaces() {
    let source = "   \n\n ; comment\n; comment two";
    let mut scanner = Scanner::new(source);
    let result = scanner.scan_token();
    assert_eq!(result.kind, TokenType::Eof);
}

#[test]
fn scan_multiline_comment() {
    let source = ";# comment line1\n line2\n line3 #;";
    let mut scanner = Scanner::new(source);
    let result = scanner.scan_token();
    assert_eq!(result.kind, TokenType::Eof);
}

#[test]
fn scan_identifier() {
    let ids = vec![
        "x1", "_", "_a", "hello", "=", "+", "-", "*", "/", "\\", "&", "%", "$", "_", "!", "<",
        ">", "?", "'",
    ];
    let tokens: Vec<TokenType> = std::iter::repeat(TokenType::Identifier)
        .take(ids.len())
        .collect();
    let source = ids.join(" ");
    let mut scanner = Scanner::new(source.as_str());

    test_tokens(&mut scanner, ids, tokens);
    let result = scanner.scan_token();
    assert_eq!(result.kind, TokenType::Eof);
}

#[test]
fn scan_keyword() {
    let ids = vec![":keyword", ":120", ":0Hello"];
    let tokens: Vec<TokenType> = std::iter::repeat(TokenType::Keyword)
        .take(ids.len())
        .collect();
    let source = ids.join(" ");
    let mut scanner = Scanner::new(source.as_str());

    test_tokens(&mut scanner, ids, tokens);
    let result = scanner.scan_token();
    assert_eq!(result.kind, TokenType::Eof);
}

#[test]
fn scan_value_identifiers() {
    let ids = vec!["true", "false"];
    let tokens = vec![TokenType::True, TokenType::False];
    let source = ids.join(" ");
    let mut scanner = Scanner::new(source.as_str());

    test_tokens(&mut scanner, ids, tokens);
    let result = scanner.scan_token();
    assert_eq!(result.kind, TokenType::Eof);
}

#[test]
fn scan_symbols() {
    let ids = vec!["(", ")", "{", "}", "[", "]", "#"];
    let tokens = vec![
        TokenType::LeftParen,
        TokenType::RightParen,
        TokenType::LeftBrace,
        TokenType::RightBrace,
        TokenType::LeftSquare,
        TokenType::RightSquare,
        TokenType::Dispatch,
    ];
    let source = ids.join(" ");
    let mut scanner = Scanner::new(source.as_str());

    test_tokens(&mut scanner, ids, tokens);
    let result = scanner.scan_token();
    assert_eq!(result.kind, TokenType::Eof);
}

#[test]
fn scan_number() {
    let nums = vec!["-42", "-1.5", "0", "42", "42.5", "1/3"];
    let tokens = vec![
        TokenType::IntegerNumber,
        TokenType::FloatNumber,
        TokenType::IntegerNumber,
        TokenType::IntegerNumber,
        TokenType::FloatNumber,
        TokenType::FractionNumber,
    ];
    let source = nums.join(" ");
    let mut scanner = Scanner::new(source.as_str());

    test_tokens(&mut scanner, nums, tokens);
    let result = scanner.scan_token();
    assert_eq!(result.kind, TokenType::Eof);
}

#[test]
fn scan_string() {
    let cases = vec!["\"\"", "\"hello world\"", "\"multi\nline\nstring\n\""];
    let tokens = vec![TokenType::String, TokenType::String, TokenType::String];
    let source = cases.join(" ");
    let mut scanner = Scanner::new(source.as_str());

    for i in 0..cases.len() {
        let result = scanner.scan_token();
        let case = *cases.get(i).unwrap();
        assert_eq!(result.kind, *tokens.get(i).unwrap());
        assert_eq!(result.src, case[1..case.len() - 1]); // remove quotes
    }

    let result = scanner.scan_token();
    assert_eq!(result.kind, TokenType::Eof);
}

#[test]
fn scan_invalid_string() {
    let cases = vec!["\"Invalid string"];
    let source = cases.join(" ");
    let mut scanner = Scanner::new(source.as_str());

    let result = scanner.scan_token();
    assert_eq!(result.kind, TokenType::Error);
    assert_eq!(result.src, "Unterminated string");

    let result = scanner.scan_token();
    assert_eq!(result.kind, TokenType::Eof);
}

#[test]
fn scan_lines() {
    let source = "\"multi\nline\nstring\n\"";
    let mut scanner = Scanner::new(source);

    let result = scanner.scan_token();
    assert_eq!(result.kind, TokenType::String);
    assert_eq!(result.src, "multi\nline\nstring\n");
    assert_eq!(result.line, 4);

    let result = scanner.scan_token();
    assert_eq!(result.kind, TokenType::Eof);
    assert_eq!(result.line, 4);
}

#[test]
fn scan_lone_colon() {
    let mut scanner = Scanner::new(":");
    let result = scanner.scan_token();
    assert_eq!(result.kind, TokenType::Identifier);
    assert_eq!(result.src, ":");
    assert_eq!(scanner.scan_token().kind, TokenType::Eof);
}

#[test]
fn scan_minus_at_end() {
    let mut scanner = Scanner::new("-");
    let result = scanner.scan_token();
    assert_eq!(result.kind, TokenType::Identifier);
    assert_eq!(result.src, "-");
    assert_eq!(scanner.scan_token().kind, TokenType::Eof);
}

#[test]
fn scan_unterminated_fraction() {
    let mut scanner = Scanner::new("1/)");
    let result = scanner.scan_token();
    assert_eq!(result.kind, TokenType::Error);
    assert_eq!(result.src, "Unterminated fraction number");
}

#[test]
fn scan_after_block_comment() {
    let mut scanner = Scanner::new(";# note #; true");
    let result = scanner.scan_token();
    assert_eq!(result.kind, TokenType::True);
    assert_eq!(result.src, "true");
    assert_eq!(scanner.scan_token().kind, TokenType::Eof);
}

#[test]
fn scan_unterminated_block_comment_runs_to_end() {
    let mut scanner = Scanner::new(";# never closed");
    let result = scanner.scan_token();
    assert_eq!(result.kind, TokenType::Eof);
}

#[test]
fn scan_comma_is_whitespace() {
    let mut scanner = Scanner::new("a, b");
    assert_eq!(scanner.scan_token().src, "a");
    assert_eq!(scanner.scan_token().src, "b");
    assert_eq!(scanner.scan_token().kind, TokenType::Eof);
}
