use literature::bibtex::error::ParseError;
use literature::bibtex::lexer::{Lexer, Token, TokenKind, Tokens};

fn token(kind: TokenKind, line: usize, col: usize) -> Token {
    Token { kind, line, col }
}

fn ident(name: &str, line: usize, col: usize) -> Token {
    token(TokenKind::Ident(String::from(name)), line, col)
}

fn collect(tokens: &Tokens) -> Vec<Token> {
    let mut all = Vec::new();
    let mut i = 0;
    while let Some(t) = tokens.get(i) {
        all.push(t.clone());
        i += 1;
    }
    assert_eq!(all.len(), tokens.len());
    all
}

#[test]
fn tokens_with_their_places() {
    let mut lexer = Lexer::new("@book{k-1,\n  year = 2020 # (x) \"\n}");
    let tokens = lexer.tokenize().unwrap();
    assert_eq!(
        collect(&tokens),
        vec![
            token(TokenKind::At, 1, 1),
            ident("book", 1, 2),
            token(TokenKind::OpenBrace, 1, 6),
            ident("k-1", 1, 7),
            token(TokenKind::Comma, 1, 10),
            ident("year", 2, 3),
            token(TokenKind::Equals, 2, 8),
            ident("2020", 2, 10),
            token(TokenKind::Hash, 2, 15),
            token(TokenKind::OpenParen, 2, 17),
            ident("x", 2, 18),
            token(TokenKind::CloseParen, 2, 19),
            token(TokenKind::Quote, 2, 21),
            token(TokenKind::CloseBrace, 3, 1),
            token(TokenKind::Eof, 3, 2),
        ]
    );
}

#[test]
fn blank_input_gives_the_end_token() {
    let tokens = Lexer::new("").tokenize().unwrap();
    assert_eq!(collect(&tokens), vec![token(TokenKind::Eof, 1, 1)]);
    let tokens = Lexer::new(" \n % c\n\t").tokenize().unwrap();
    assert_eq!(collect(&tokens), vec![token(TokenKind::Eof, 3, 2)]);
}

#[test]
fn comments_are_not_tokens() {
    let tokens = Lexer::new("a % b c @\nd%e").tokenize().unwrap();
    assert_eq!(
        collect(&tokens),
        vec![ident("a", 1, 1), ident("d", 2, 1), token(TokenKind::Eof, 2, 4)]
    );
}

#[test]
fn a_character_that_starts_no_token() {
    assert_eq!(
        Lexer::new("title = {A. B}").tokenize(),
        Err(ParseError::UnexpectedCharacter { expected: '@', found: '.', line: 1, col: 11 })
    );
    assert_eq!(
        Lexer::new("a\n \\% b").tokenize(),
        Err(ParseError::UnexpectedCharacter { expected: '@', found: '\\', line: 2, col: 2 })
    );
}

#[test]
fn token_by_token() {
    let mut lexer = Lexer::new("x =\ny");
    assert_eq!(lexer.next_token(), Ok(ident("x", 1, 1)));
    assert_eq!(lexer.advance(), Some(' '));
    assert_eq!(lexer.advance(), Some('='));
    lexer.skip_whitespace();
    assert_eq!(lexer.next_token(), Ok(ident("y", 2, 1)));
    assert_eq!(lexer.advance(), None);
    assert_eq!(lexer.next_token(), Ok(token(TokenKind::Eof, 2, 2)));
    assert_eq!(lexer.next_token(), Ok(token(TokenKind::Eof, 2, 2)));
    let rest = lexer.tokenize().unwrap();
    assert_eq!(collect(&rest), vec![token(TokenKind::Eof, 2, 2)]);
}

#[test]
fn end_token_is_eof() {
    assert!(TokenKind::Eof.is_eof());
    assert!(!TokenKind::At.is_eof());
    assert!(!TokenKind::Ident(String::from("eof")).is_eof());
}

#[test]
fn stream_grows_by_push() {
    let mut tokens = Tokens::new();
    assert_eq!(tokens.len(), 0);
    assert_eq!(tokens.get(0), None);
    tokens.push(token(TokenKind::Comma, 4, 2));
    tokens.push(token(TokenKind::Eof, 4, 3));
    assert_eq!(tokens.len(), 2);
    assert_eq!(tokens.get(0), Some(&token(TokenKind::Comma, 4, 2)));
    assert_eq!(tokens.get(1), Some(&token(TokenKind::Eof, 4, 3)));
    assert_eq!(tokens.get(2), None);
}

#[test]
fn scanner_stands_at_the_fault() {
    let mut lexer = Lexer::new("a = . b");
    assert!(lexer.tokenize().is_err());
    assert_eq!(lexer.advance(), Some('.'));
    let mut lexer = Lexer::new("a = b ");
    assert!(lexer.tokenize().is_ok());
    assert_eq!(lexer.advance(), None);
}
