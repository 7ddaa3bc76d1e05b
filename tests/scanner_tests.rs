use rlox::error_reporter::Location;
use rlox::scanner::Scanner;
use rlox::tokens::{Object, Token, TokenType};

fn scan(source: &str) -> (Vec<Token>, Scanner) {
    let mut scanner = Scanner::new(source.to_string());
    let tokens = scanner.scan_tokens();
    (tokens, scanner)
}

fn kinds(tokens: &[Token]) -> Vec<TokenType> {
    tokens.iter().map(|t| t.token_type).collect()
}

#[test]
fn test_scanner_simple() {
    let source = String::from("print \"hello\";");
    let mut scanner = Scanner::new(source);
    let tokens = scanner.scan_tokens();

    assert_eq!(tokens.len(), 4);
    assert_eq!(tokens[0].token_type, TokenType::Print);
    assert_eq!(tokens[1].literal, Some(Object::String("hello".to_string())));
    assert_eq!(tokens[2].token_type, TokenType::Semicolon);
    assert_eq!(tokens[3].token_type, TokenType::Eof);
}

#[test]
fn test_scanner_binary() {
    let source = String::from("1 != 2;");
    let mut scanner = Scanner::new(source);
    let tokens = scanner.scan_tokens();

    assert_eq!(tokens.len(), 5);
    assert_eq!(tokens[0].token_type, TokenType::Number);
    assert_eq!(tokens[1].token_type, TokenType::BangEqual);
    assert_eq!(tokens[2].token_type, TokenType::Number);
}

#[test]
fn two_character_operators_scan_as_one_token() {
    let cases = [
        ("!=", TokenType::BangEqual),
        ("==", TokenType::EqualEqual),
        ("<=", TokenType::LessEqual),
        (">=", TokenType::GreaterEqual),
    ];
    for (text, kind) in cases {
        let (tokens, _) = scan(text);
        assert_eq!(kinds(&tokens), vec![kind, TokenType::Eof]);
        assert_eq!(tokens[0].lexeme, text);
    }
}

#[test]
fn one_character_prefixes_stay_single() {
    let (tokens, _) = scan("! = < > /");
    assert_eq!(
        kinds(&tokens),
        vec![
            TokenType::Bang,
            TokenType::Equal,
            TokenType::Less,
            TokenType::Greater,
            TokenType::Slash,
            TokenType::Eof
        ]
    );
}

#[test]
fn trailing_dot_is_not_part_of_number() {
    let (tokens, scanner) = scan("123.");
    assert_eq!(kinds(&tokens), vec![TokenType::Number, TokenType::Dot, TokenType::Eof]);
    assert_eq!(tokens[0].lexeme, "123");
    assert_eq!(tokens[0].literal, Some(Object::Number("123".to_string())));
    assert_eq!(tokens[1].lexeme, ".");
    assert!(!scanner.error_reporter.had_error);
}

#[test]
fn fractional_number_keeps_its_digits() {
    let (tokens, _) = scan("45.67");
    assert_eq!(kinds(&tokens), vec![TokenType::Number, TokenType::Eof]);
    assert_eq!(tokens[0].literal, Some(Object::Number("45.67".to_string())));
}

#[test]
fn keywords_and_identifiers() {
    let (tokens, _) = scan("and class else false for fun if nil or print return super this true var while whiles _x a1");
    assert_eq!(
        kinds(&tokens),
        vec![
            TokenType::And,
            TokenType::Class,
            TokenType::Else,
            TokenType::False,
            TokenType::For,
            TokenType::Fun,
            TokenType::If,
            TokenType::Nil,
            TokenType::Or,
            TokenType::Print,
            TokenType::Return,
            TokenType::Super,
            TokenType::This,
            TokenType::True,
            TokenType::Var,
            TokenType::While,
            TokenType::Identifier,
            TokenType::Identifier,
            TokenType::Identifier,
            TokenType::Eof
        ]
    );
    assert_eq!(tokens[16].lexeme, "whiles");
    assert_eq!(tokens[17].lexeme, "_x");
    assert_eq!(tokens[18].lexeme, "a1");
}

#[test]
fn non_ascii_letters_form_identifiers() {
    let (tokens, scanner) = scan("var été = 1;");
    assert_eq!(tokens[1].token_type, TokenType::Identifier);
    assert_eq!(tokens[1].lexeme, "été");
    assert!(!scanner.error_reporter.had_error);
}

#[test]
fn comments_and_whitespace_emit_nothing() {
    let (tokens, _) = scan("// a comment\n\t 1 // another\r\n");
    assert_eq!(kinds(&tokens), vec![TokenType::Number, TokenType::Eof]);
    assert_eq!(tokens[0].line, 2);
    assert_eq!(tokens[1].line, 3);
}

#[test]
fn string_across_lines_counts_newlines() {
    let (tokens, _) = scan("\"a\nb\" x");
    assert_eq!(tokens[0].token_type, TokenType::String);
    assert_eq!(tokens[0].lexeme, "\"a\nb\"");
    assert_eq!(tokens[0].literal, Some(Object::String("a\nb".to_string())));
    assert_eq!(tokens[0].line, 2);
    assert_eq!(tokens[1].line, 2);
}

#[test]
fn unterminated_string_is_reported_and_scanning_ends() {
    let (tokens, scanner) = scan("1 \"abc");
    assert_eq!(kinds(&tokens), vec![TokenType::Number, TokenType::Eof]);
    assert!(scanner.error_reporter.had_error);
    assert_eq!(scanner.error_reporter.diagnostics.len(), 1);
    let d = &scanner.error_reporter.diagnostics[0];
    assert_eq!(d.message, "Unterminated string.");
    assert_eq!(d.location, Location::Line);
    assert_eq!(d.line, 1);
}

#[test]
fn unexpected_character_is_reported_and_scanning_goes_on() {
    let (tokens, scanner) = scan("1 @ 2\n#");
    assert_eq!(kinds(&tokens), vec![TokenType::Number, TokenType::Number, TokenType::Eof]);
    assert_eq!(scanner.error_reporter.diagnostics.len(), 2);
    assert_eq!(scanner.error_reporter.diagnostics[0].message, "Unexpected character.");
    assert_eq!(scanner.error_reporter.diagnostics[0].line, 1);
    assert_eq!(scanner.error_reporter.diagnostics[1].line, 2);
}

#[test]
fn empty_source_gives_only_the_end_marker() {
    let (tokens, scanner) = scan("");
    assert_eq!(kinds(&tokens), vec![TokenType::Eof]);
    assert_eq!(tokens[0].lexeme, "");
    assert_eq!(tokens[0].line, 1);
    assert!(!scanner.error_reporter.had_error);
}

#[test]
fn scanning_twice_gives_the_same_tokens() {
    let text = "var a = \"x\"; { print a + 1.5; } // end";
    let (first, _) = scan(text);
    let (second, _) = scan(text);
    assert_eq!(first, second);
}
