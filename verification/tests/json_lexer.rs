use schematch::json::data::{Location, Token, TokenKind};
use schematch::json::error::{SchemaError, SchemaErrors};
use schematch::json::lexer::Lexer;

fn token(kind: TokenKind, start: usize, end: usize) -> Token {
    Token { kind, location: Location { start, end } }
}

fn identifier(text: &str) -> TokenKind {
    TokenKind::Identifier(text.to_string())
}

#[test]
fn lexes_object_schema_with_byte_spans() {
    let mut lexer = Lexer::new("{id: string}");
    assert_eq!(
        lexer.token(),
        Ok(vec![
            token(TokenKind::LeftBrace, 0, 1),
            token(identifier("id"), 1, 3),
            token(TokenKind::Colon, 3, 4),
            token(identifier("string"), 5, 11),
            token(TokenKind::RightBrace, 11, 12),
            token(TokenKind::EOF, 12, 12),
        ])
    );
}

#[test]
fn lexes_every_punctuation_character() {
    let mut lexer = Lexer::new("{}:,<>|");
    assert_eq!(
        lexer.token(),
        Ok(vec![
            token(TokenKind::LeftBrace, 0, 1),
            token(TokenKind::RightBrace, 1, 2),
            token(TokenKind::Colon, 2, 3),
            token(TokenKind::Comma, 3, 4),
            token(TokenKind::LessThan, 4, 5),
            token(TokenKind::GreaterThan, 5, 6),
            token(TokenKind::VerticalBar, 6, 7),
            token(TokenKind::EOF, 7, 7),
        ])
    );
}

#[test]
fn empty_text_is_one_eof_token() {
    let mut lexer = Lexer::new("");
    assert_eq!(lexer.token(), Ok(vec![token(TokenKind::EOF, 0, 0)]));
}

#[test]
fn blanks_are_spaces_and_newlines() {
    let mut lexer = Lexer::new(" \n a \n");
    assert_eq!(
        lexer.token(),
        Ok(vec![token(identifier("a"), 3, 4), token(TokenKind::EOF, 6, 6)])
    );
}

#[test]
fn tab_is_no_blank() {
    let mut lexer = Lexer::new("a\tb");
    assert_eq!(
        lexer.token(),
        Err(SchemaErrors(vec![SchemaError::UnexpectedCharacter {
            text: "\t".to_string(),
            location: Location { start: 1, end: 2 },
        }]))
    );
}

#[test]
fn quoted_identifiers_resolve_escapes() {
    let mut lexer = Lexer::new(r#"'a b' "c'd" 'e\'f' "g\"h" ''"#);
    assert_eq!(
        lexer.token(),
        Ok(vec![
            token(identifier("a b"), 0, 5),
            token(identifier("c'd"), 6, 11),
            token(identifier("e'f"), 12, 18),
            token(identifier("g\"h"), 19, 25),
            token(identifier(""), 26, 28),
            token(TokenKind::EOF, 28, 28),
        ])
    );
}

#[test]
fn bare_identifier_is_a_maximal_run() {
    let mut lexer = Lexer::new("user_id2|x");
    assert_eq!(
        lexer.token(),
        Ok(vec![
            token(identifier("user_id2"), 0, 8),
            token(TokenKind::VerticalBar, 8, 9),
            token(identifier("x"), 9, 10),
            token(TokenKind::EOF, 10, 10),
        ])
    );
}

#[test]
fn spans_count_bytes_not_characters() {
    let mut lexer = Lexer::new("é: 'äö'");
    assert_eq!(
        lexer.token(),
        Ok(vec![
            token(identifier("é"), 0, 2),
            token(TokenKind::Colon, 2, 3),
            token(identifier("äö"), 4, 10),
            token(TokenKind::EOF, 10, 10),
        ])
    );
}

#[test]
fn unexpected_character_is_reported_with_its_span() {
    let mut lexer = Lexer::new("{a: #}");
    assert_eq!(
        lexer.token(),
        Err(SchemaErrors(vec![SchemaError::UnexpectedCharacter {
            text: "#".to_string(),
            location: Location { start: 4, end: 5 },
        }]))
    );
}

#[test]
fn escape_of_another_character_is_unexpected() {
    let mut lexer = Lexer::new(r"x 'a\nb'");
    assert_eq!(
        lexer.token(),
        Err(SchemaErrors(vec![SchemaError::UnexpectedCharacter {
            text: "n".to_string(),
            location: Location { start: 2, end: 6 },
        }]))
    );
}

#[test]
fn escape_of_the_other_quote_is_unexpected() {
    let mut lexer = Lexer::new(r#"'a\"'"#);
    assert_eq!(
        lexer.token(),
        Err(SchemaErrors(vec![SchemaError::UnexpectedCharacter {
            text: "\"".to_string(),
            location: Location { start: 0, end: 4 },
        }]))
    );
}

#[test]
fn unterminated_string_spans_to_the_end() {
    let mut lexer = Lexer::new("a 'bcd");
    assert_eq!(
        lexer.token(),
        Err(SchemaErrors(vec![SchemaError::UnterminatedString {
            location: Location { start: 2, end: 6 },
        }]))
    );
}

#[test]
fn backslash_at_the_end_is_unterminated() {
    let mut lexer = Lexer::new("\"ab\\");
    assert_eq!(
        lexer.token(),
        Err(SchemaErrors(vec![SchemaError::UnterminatedString {
            location: Location { start: 0, end: 4 },
        }]))
    );
}

#[test]
fn lexer_stops_at_the_first_fault() {
    let mut lexer = Lexer::new("# ! ?");
    assert_eq!(
        lexer.token(),
        Err(SchemaErrors(vec![SchemaError::UnexpectedCharacter {
            text: "#".to_string(),
            location: Location { start: 0, end: 1 },
        }]))
    );
}

#[test]
fn read_next_token_moves_token_by_token() {
    let mut lexer = Lexer::new("a :");
    assert_eq!(lexer.offset(), 0);
    assert_eq!(lexer.read_next_token(), Ok(token(identifier("a"), 0, 1)));
    assert_eq!(lexer.offset(), 1);
    assert_eq!(lexer.read_next_token(), Ok(token(TokenKind::Colon, 2, 3)));
    assert_eq!(lexer.read_next_token(), Ok(token(TokenKind::EOF, 3, 3)));
    assert_eq!(lexer.read_next_token(), Ok(token(TokenKind::EOF, 3, 3)));
}

#[test]
fn read_next_token_stays_on_a_fault() {
    let mut lexer = Lexer::new("a ?");
    assert_eq!(lexer.read_next_token(), Ok(token(identifier("a"), 0, 1)));
    let fault = SchemaError::UnexpectedCharacter {
        text: "?".to_string(),
        location: Location { start: 2, end: 3 },
    };
    assert_eq!(lexer.read_next_token(), Err(fault));
    assert_eq!(lexer.offset(), 1);
}

#[test]
fn token_kinds_compare_by_text() {
    assert!(identifier("a").same(&identifier("a")));
    assert!(!identifier("a").same(&identifier("b")));
    assert!(!identifier("a").same(&TokenKind::Colon));
    assert!(TokenKind::EOF.same(&TokenKind::EOF));
    assert_eq!(identifier("abc").clone(), identifier("abc"));
}

#[test]
fn marks_decide_what_a_bare_identifier_is() {
    let mut lexer = Lexer::with_marks("ab-c d", vec![true, true, true, true, false, true]);
    assert_eq!(
        lexer.token(),
        Ok(vec![
            token(identifier("ab-c"), 0, 4),
            token(identifier("d"), 5, 6),
            token(TokenKind::EOF, 6, 6),
        ])
    );
    let mut lexer = Lexer::with_marks("ab", vec![true]);
    assert_eq!(
        lexer.token(),
        Err(SchemaErrors(vec![SchemaError::UnexpectedCharacter {
            text: "b".to_string(),
            location: Location { start: 1, end: 2 },
        }]))
    );
    let mut lexer = Lexer::with_marks("{a}", vec![true, true, false]);
    assert_eq!(
        lexer.token(),
        Ok(vec![
            token(TokenKind::LeftBrace, 0, 1),
            token(identifier("a"), 1, 2),
            token(TokenKind::RightBrace, 2, 3),
            token(TokenKind::EOF, 3, 3),
        ])
    );
}
