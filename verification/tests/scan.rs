//! Scanner tests: token kinds, line counting, strings and escapes.

use froggi::markup::scan::{Scanner, TokenKind};
use froggi::{ErrorKind, ScanError};

#[test]
fn single_byte_tokens() {
    let mut scanner = Scanner::new("( ) { } ^ & # * | % $");
    let expected = [
        TokenKind::LeftParen,
        TokenKind::RightParen,
        TokenKind::LeftBrace,
        TokenKind::RightBrace,
        TokenKind::Link,
        TokenKind::Blob,
        TokenKind::Anchor,
        TokenKind::Text,
        TokenKind::VBox,
        TokenKind::Inline,
        TokenKind::Box,
    ];
    for kind in expected {
        assert_eq!(scanner.next_token().unwrap().kind(), kind);
    }
    assert_eq!(scanner.next_token().unwrap().kind(), TokenKind::End);
    assert_eq!(scanner.next_token().unwrap().kind(), TokenKind::End);
}

#[test]
fn word_builtins() {
    let mut scanner = Scanner::new("box vbox text inline footnote");
    assert_eq!(scanner.next_token().unwrap().kind(), TokenKind::Box);
    assert_eq!(scanner.next_token().unwrap().kind(), TokenKind::VBox);
    assert_eq!(scanner.next_token().unwrap().kind(), TokenKind::Text);
    assert_eq!(scanner.next_token().unwrap().kind(), TokenKind::Inline);
    assert_eq!(scanner.next_token().unwrap().kind(), TokenKind::Identifier);
}

#[test]
fn line_counting() {
    // The line of every token is one more than the newlines before it.
    let mut scanner = Scanner::new("a\nb\n  c (\n)");
    let a = scanner.next_token().unwrap();
    assert_eq!((a.kind(), a.line()), (TokenKind::Identifier, 1));
    let b = scanner.next_token().unwrap();
    assert_eq!((b.kind(), b.line()), (TokenKind::Identifier, 2));
    let c = scanner.next_token().unwrap();
    assert_eq!((c.kind(), c.line()), (TokenKind::Identifier, 3));
    let open = scanner.next_token().unwrap();
    assert_eq!((open.kind(), open.line()), (TokenKind::LeftParen, 3));
    let close = scanner.next_token().unwrap();
    assert_eq!((close.kind(), close.line()), (TokenKind::RightParen, 4));
}

#[test]
fn newlines_inside_strings_count() {
    let mut scanner = Scanner::new("\"x\ny\" z");
    let s = scanner.next_token().unwrap();
    assert_eq!((s.kind(), s.line()), (TokenKind::String, 1));
    let z = scanner.next_token().unwrap();
    assert_eq!((z.kind(), z.line()), (TokenKind::Identifier, 2));
}

#[test]
fn string_lexeme_keeps_quotes() {
    let mut scanner = Scanner::new("\"hi\"");
    let token = scanner.next_token().unwrap();
    assert_eq!(token.kind(), TokenKind::String);
    // The raw lexeme keeps the quotes; the text strips them.
    assert_eq!(token.lexeme, b"\"hi\"".to_vec());
    assert_eq!(token.lexeme(), b"hi".to_vec());
}

#[test]
fn sigil_ends_identifier() {
    let mut scanner = Scanner::new("abc^def");
    assert_eq!(scanner.next_token().unwrap().lexeme(), b"abc".to_vec());
    assert_eq!(scanner.next_token().unwrap().kind(), TokenKind::Link);
    assert_eq!(scanner.next_token().unwrap().lexeme(), b"def".to_vec());
}

#[test]
fn peek_matches_next() {
    let mut scanner = Scanner::new("(a \"b\")");
    for _ in 0..5 {
        let peeked = scanner.peek_token(0).unwrap();
        let taken = scanner.next_token().unwrap();
        assert_eq!(peeked, taken);
    }
}

#[test]
fn unterminated_string() {
    let mut scanner = Scanner::new("\"abc");
    let err = scanner.next_token().unwrap_err();
    match err.kind() {
        ErrorKind::ScanError { error, .. } => {
            assert_eq!(*error, ScanError::UnterminatedString { start_line: 1 });
        }
        _ => panic!(),
    }
}

#[test]
fn escape_decoding() {
    // The lexeme of "\n" decodes to a single newline byte.
    let mut scanner = Scanner::new("\"\\n\"");
    let token = scanner.next_token().unwrap();
    assert_eq!(token.decode_text().unwrap(), vec![b'\n']);

    let mut scanner = Scanner::new("\"a\\tb\\\\c\\\"d\"");
    let token = scanner.next_token().unwrap();
    assert_eq!(token.decode_text().unwrap(), b"a\tb\\c\"d".to_vec());
}

#[test]
fn unknown_escape_code() {
    let mut scanner = Scanner::new("\"\\q\"");
    let err = scanner.next_token().unwrap_err();
    match err.kind() {
        ErrorKind::ScanError { error, .. } => {
            assert_eq!(*error, ScanError::UnknownEscapeCode { code: 'q' });
        }
        _ => panic!(),
    }
}
