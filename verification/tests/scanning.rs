use lox::scanner::scanner::{get_substr, is_alpha, is_digit, new, Scanner};
use lox::scanner::token::{LiteralType, TokenType};

fn scan(source: &str) -> (Vec<lox::scanner::token::Token>, Scanner) {
    let mut scanner = new(String::from(source));
    let tokens = scanner.scan_tokens();
    (tokens, scanner)
}

fn kinds(source: &str) -> Vec<TokenType> {
    let (tokens, _) = scan(source);
    tokens.iter().map(|t| t.token_type).collect()
}

#[test]
fn whitespace_and_comments_scan_to_eof_only() {
    let (tokens, scanner) = scan("  \t\r\n// a comment\n   // another");
    assert_eq!(tokens.len(), 1);
    assert_eq!(tokens[0].token_type, TokenType::EOF);
    assert!(!scanner.error);
    assert!(scanner.errors.is_empty());
}

#[test]
fn empty_source_scans_to_eof_only() {
    let (tokens, scanner) = scan("");
    assert_eq!(tokens.len(), 1);
    assert_eq!(tokens[0].token_type, TokenType::EOF);
    assert_eq!(tokens[0].line, 1);
    assert!(!scanner.error);
}

#[test]
fn number_literal_is_the_text_parsed_as_a_double() {
    for text in ["0", "1", "42", "3.14", "0.5", "123.456", "999999999"] {
        let (tokens, _) = scan(text);
        assert_eq!(tokens[0].token_type, TokenType::NUMBER);
        assert_eq!(tokens[0].lexeme, text);
        match tokens[0].literal {
            LiteralType::Float(bits) => {
                assert_eq!(bits, text.parse::<f64>().unwrap().to_bits(), "literal of {}", text);
            }
            _ => panic!("number token without a number literal"),
        }
    }
}

#[test]
fn trailing_point_is_not_consumed() {
    let (tokens, _) = scan("123.");
    assert_eq!(tokens[0].token_type, TokenType::NUMBER);
    assert_eq!(tokens[0].lexeme, "123");
    assert_eq!(tokens[1].token_type, TokenType::DOT);
    assert_eq!(tokens[2].token_type, TokenType::EOF);
}

#[test]
fn operators_use_maximal_munch() {
    assert_eq!(
        kinds("!= == <= >= < > = !"),
        vec![
            TokenType::BANG_EQUAL,
            TokenType::EQUAL_EQUAL,
            TokenType::LESS_EQUAL,
            TokenType::GREATER_EQUAL,
            TokenType::LESS,
            TokenType::GREATER,
            TokenType::EQUAL,
            TokenType::BANG,
            TokenType::EOF,
        ]
    );
}

#[test]
fn punctuation_tokens() {
    assert_eq!(
        kinds("(){},.-+;*/"),
        vec![
            TokenType::LEFT_PAREN,
            TokenType::RIGHT_PAREN,
            TokenType::LEFT_BRACE,
            TokenType::RIGHT_BRACE,
            TokenType::COMMA,
            TokenType::DOT,
            TokenType::MINUS,
            TokenType::PLUS,
            TokenType::SEMICOLON,
            TokenType::STAR,
            TokenType::SLASH,
            TokenType::EOF,
        ]
    );
}

#[test]
fn string_literal_excludes_quotes_and_tracks_lines() {
    let (tokens, _) = scan("\"a\nb\"");
    assert_eq!(tokens[0].token_type, TokenType::STRING);
    assert_eq!(tokens[0].lexeme, "\"a\nb\"");
    match &tokens[0].literal {
        LiteralType::String(s) => assert_eq!(s, "a\nb"),
        _ => panic!("string token without a string literal"),
    }
    assert_eq!(tokens[0].line, 2);
}

#[test]
fn unterminated_string_is_a_scan_error() {
    let (tokens, scanner) = scan("\"abc");
    assert!(scanner.error);
    assert_eq!(scanner.errors.len(), 1);
    assert_eq!(scanner.errors[0].message, "Unterminated string literal");
    assert_eq!(scanner.errors[0].line, 1);
    assert_eq!(tokens.len(), 1);
    assert_eq!(tokens[0].token_type, TokenType::EOF);
}

#[test]
fn unexpected_character_is_reported_and_scanning_continues() {
    let (tokens, scanner) = scan("@ 7;");
    assert!(scanner.error);
    assert_eq!(scanner.errors.len(), 1);
    assert_eq!(scanner.errors[0].message, "Unexpected character. @");
    assert_eq!(scanner.errors[0].line, 1);
    assert_eq!(tokens[0].token_type, TokenType::NUMBER);
    assert_eq!(tokens[1].token_type, TokenType::SEMICOLON);
    assert_eq!(tokens[2].token_type, TokenType::EOF);
}

#[test]
fn error_lines_count_newlines() {
    let (_, scanner) = scan("1;\n2;\n@");
    assert_eq!(scanner.errors.len(), 1);
    assert_eq!(scanner.errors[0].line, 3);
}

#[test]
fn keywords_and_identifiers_are_classified() {
    assert_eq!(
        kinds("and class else false for fun if nil or print return super this true var while"),
        vec![
            TokenType::AND,
            TokenType::CLASS,
            TokenType::ELSE,
            TokenType::FALSE,
            TokenType::FOR,
            TokenType::FUN,
            TokenType::IF,
            TokenType::NIL,
            TokenType::OR,
            TokenType::PRINT,
            TokenType::RETURN,
            TokenType::SUPER,
            TokenType::THIS,
            TokenType::TRUE,
            TokenType::VAR,
            TokenType::WHILE,
            TokenType::EOF,
        ]
    );
    assert_eq!(kinds("iffy _x x1"), vec![
        TokenType::IDENTIFIER,
        TokenType::IDENTIFIER,
        TokenType::IDENTIFIER,
        TokenType::EOF,
    ]);
}

#[test]
fn comment_runs_to_end_of_line() {
    let (tokens, _) = scan("// hi\n42;");
    assert_eq!(tokens[0].token_type, TokenType::NUMBER);
    assert_eq!(tokens[0].line, 2);
    assert_eq!(tokens[1].token_type, TokenType::SEMICOLON);
    assert_eq!(tokens[2].token_type, TokenType::EOF);
}

#[test]
fn eof_carries_last_line() {
    let (tokens, _) = scan("1;\n\n2;\n");
    assert_eq!(tokens.last().unwrap().token_type, TokenType::EOF);
    assert_eq!(tokens.last().unwrap().line, 4);
}

#[test]
fn get_substr_takes_and_clamps() {
    assert_eq!(get_substr(&String::from("hello"), 1, 3), "ell");
    assert_eq!(get_substr(&String::from("hi"), 1, 10), "i");
    assert_eq!(get_substr(&String::from("hi"), 5, 2), "");
    assert_eq!(get_substr(&String::from("hello"), 0, 5), "hello");
}

#[test]
fn digit_and_alpha_classification() {
    assert!(is_digit('0'));
    assert!(is_digit('9'));
    assert!(!is_digit('a'));
    assert!(!is_digit('/'));
    assert!(is_alpha('a'));
    assert!(is_alpha('Z'));
    assert!(is_alpha('_'));
    assert!(!is_alpha('1'));
    assert!(!is_alpha(' '));
}
