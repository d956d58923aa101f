use lox::scanner::{Scanner, Token, TokenType};
use lox::{Diagnostic, Lox};

fn scan(source: &str) -> (Vec<Token>, Lox) {
    let mut scanner = Scanner::new(String::from(source));
    let mut lox = Lox::new();
    let tokens = scanner.scan_tokens(&mut lox).clone();
    (tokens, lox)
}

#[test]
fn punctuation_single_chars() {
    let (tokens, lox) = scan("(){},.-+;/*");
    let expected = [
        TokenType::LeftParen,
        TokenType::RightParen,
        TokenType::LeftBrace,
        TokenType::RightBrace,
        TokenType::Comma,
        TokenType::Dot,
        TokenType::Minus,
        TokenType::Plus,
        TokenType::Semicolon,
        TokenType::Slash,
        TokenType::Star,
    ];
    assert_eq!(tokens.len(), expected.len() + 1);
    for (i, kind) in expected.iter().enumerate() {
        assert_eq!(tokens[i]._type, *kind);
        assert_eq!(tokens[i].lexeme, "(){},.-+;/*".as_bytes()[i..i + 1].to_vec());
        assert_eq!(tokens[i].literal, None);
        assert_eq!(tokens[i].line, 1);
    }
    assert_eq!(tokens[expected.len()]._type, TokenType::Eof);
    assert!(!lox.had_error);
    assert!(lox.diagnostics.is_empty());
}

#[test]
fn compound_operators() {
    let (tokens, lox) = scan("!===<=>=");
    assert_eq!(tokens.len(), 5);
    assert_eq!(tokens[0]._type, TokenType::BangEqual);
    assert_eq!(tokens[0].lexeme, b"!=".to_vec());
    assert_eq!(tokens[1]._type, TokenType::EqualEqual);
    assert_eq!(tokens[1].lexeme, b"==".to_vec());
    assert_eq!(tokens[2]._type, TokenType::LessEqual);
    assert_eq!(tokens[2].lexeme, b"<=".to_vec());
    assert_eq!(tokens[3]._type, TokenType::GreaterEqual);
    assert_eq!(tokens[3].lexeme, b">=".to_vec());
    assert_eq!(tokens[4]._type, TokenType::Eof);
    assert!(!lox.had_error);
}

#[test]
fn compound_is_one_token_not_two() {
    let (tokens, _) = scan("!=");
    assert_eq!(tokens.len(), 2);
    assert_eq!(tokens[0]._type, TokenType::BangEqual);
    assert_eq!(tokens[0].lexeme, b"!=".to_vec());
    assert_eq!(tokens[1]._type, TokenType::Eof);
}

#[test]
fn simple_operator_rescans_next_byte() {
    let (tokens, lox) = scan("!*");
    assert_eq!(tokens.len(), 3);
    assert_eq!(tokens[0]._type, TokenType::Bang);
    assert_eq!(tokens[0].lexeme, b"!".to_vec());
    assert_eq!(tokens[1]._type, TokenType::Star);
    assert_eq!(tokens[1].lexeme, b"*".to_vec());
    assert_eq!(tokens[2]._type, TokenType::Eof);
    assert!(!lox.had_error);

    let (tokens, _) = scan("<(");
    assert_eq!(tokens.len(), 3);
    assert_eq!(tokens[0]._type, TokenType::Less);
    assert_eq!(tokens[1]._type, TokenType::LeftParen);
}

#[test]
fn simple_operator_at_end_of_input() {
    let (tokens, lox) = scan(">");
    assert_eq!(tokens.len(), 2);
    assert_eq!(tokens[0]._type, TokenType::Greater);
    assert_eq!(tokens[0].lexeme, b">".to_vec());
    assert_eq!(tokens[1]._type, TokenType::Eof);
    assert!(!lox.had_error);
}

#[test]
fn line_attribution_counts_newlines() {
    let (tokens, lox) = scan("(\n)\n\n<");
    assert_eq!(tokens.len(), 4);
    assert_eq!(tokens[0]._type, TokenType::LeftParen);
    assert_eq!(tokens[0].line, 1);
    assert_eq!(tokens[1]._type, TokenType::RightParen);
    assert_eq!(tokens[1].line, 2);
    assert_eq!(tokens[2]._type, TokenType::Less);
    assert_eq!(tokens[2].line, 4);
    assert_eq!(tokens[3]._type, TokenType::Eof);
    assert_eq!(tokens[3].line, 4);
    assert!(!lox.had_error);
}

#[test]
fn empty_source_scans_to_lone_sentinel() {
    let (tokens, lox) = scan("");
    assert_eq!(tokens.len(), 1);
    assert_eq!(tokens[0]._type, TokenType::Eof);
    assert_eq!(tokens[0].lexeme, Vec::<u8>::new());
    assert_eq!(tokens[0].literal, None);
    assert_eq!(tokens[0].line, 1);
    assert!(!lox.had_error);
    assert!(lox.diagnostics.is_empty());
}

#[test]
fn unrecognized_character_is_reported_and_skipped() {
    let (tokens, lox) = scan("(@)");
    assert_eq!(tokens.len(), 3);
    assert_eq!(tokens[0]._type, TokenType::LeftParen);
    assert_eq!(tokens[1]._type, TokenType::RightParen);
    assert_eq!(tokens[2]._type, TokenType::Eof);
    assert!(lox.had_error);
    assert_eq!(lox.diagnostics, vec![Diagnostic { line: 1, ch: b'@' }]);
}

#[test]
fn diagnostics_carry_their_lines() {
    let (tokens, lox) = scan("@\n@");
    assert_eq!(tokens.len(), 1);
    assert_eq!(tokens[0]._type, TokenType::Eof);
    assert_eq!(tokens[0].line, 2);
    assert!(lox.had_error);
    assert_eq!(
        lox.diagnostics,
        vec![
            Diagnostic { line: 1, ch: b'@' },
            Diagnostic { line: 2, ch: b'@' }
        ]
    );
}

#[test]
fn sentinel_line_is_final_line() {
    let (tokens, _) = scan("(\n");
    assert_eq!(tokens.len(), 2);
    assert_eq!(tokens[0]._type, TokenType::LeftParen);
    assert_eq!(tokens[0].line, 1);
    assert_eq!(tokens[1]._type, TokenType::Eof);
    assert_eq!(tokens[1].line, 2);
}

#[test]
fn scanning_twice_yields_identical_sequences() {
    let source = "({!=@\n<=.})";
    let (tokens_a, lox_a) = scan(source);
    let (tokens_b, lox_b) = scan(source);
    assert_eq!(tokens_a, tokens_b);
    assert_eq!(lox_a.diagnostics, lox_b.diagnostics);
    assert_eq!(lox_a.had_error, lox_b.had_error);
}

#[test]
fn mixed_input_exact_sequence() {
    let (tokens, lox) = scan("{!=@\n<;");
    assert_eq!(tokens.len(), 5);
    assert_eq!(tokens[0]._type, TokenType::LeftBrace);
    assert_eq!(tokens[0].line, 1);
    assert_eq!(tokens[1]._type, TokenType::BangEqual);
    assert_eq!(tokens[1].lexeme, b"!=".to_vec());
    assert_eq!(tokens[1].line, 1);
    assert_eq!(tokens[2]._type, TokenType::Less);
    assert_eq!(tokens[2].line, 2);
    assert_eq!(tokens[3]._type, TokenType::Semicolon);
    assert_eq!(tokens[3].line, 2);
    assert_eq!(tokens[4]._type, TokenType::Eof);
    assert_eq!(lox.diagnostics, vec![Diagnostic { line: 1, ch: b'@' }]);
    assert!(lox.had_error);
}

#[test]
fn token_new_keeps_its_fields() {
    let token = Token::new(TokenType::Plus, b"+".to_vec(), None, 7);
    assert_eq!(token._type, TokenType::Plus);
    assert_eq!(token.lexeme, b"+".to_vec());
    assert_eq!(token.literal, None);
    assert_eq!(token.line, 7);
}

#[test]
fn lox_starts_clean_and_records_errors() {
    let lox = Lox::new();
    assert!(!lox.had_error);
    assert!(lox.diagnostics.is_empty());

    let lox = Lox::default();
    assert!(!lox.had_error);
    assert!(lox.diagnostics.is_empty());

    let mut lox = Lox::new();
    lox.error(3, b'#');
    assert!(lox.had_error);
    assert_eq!(lox.diagnostics, vec![Diagnostic { line: 3, ch: b'#' }]);
}
