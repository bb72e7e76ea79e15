use calc::lexer::Lexer;
use calc::lexer::Token;
use calc::lexer::TokenKind;

fn lex(s: &str) -> Vec<Token> {
    let mut lexer = Lexer::new(s);
    let mut tkns: Vec<Token> = vec![];
    loop {
        match lexer.next().unwrap() {
            Some(t) => tkns.push(t),
            None => break,
        }
    }
    tkns
}

#[test]
fn numbers() {
    let tkns = lex("2 3.14");
    assert_eq!(tkns.len(), 2);
    assert_eq!(
        tkns[0],
        Token::new(TokenKind::Number, "2".to_owned(), 0, 1, 1, 1)
    );
    assert_eq!(
        tkns[1],
        Token::new(TokenKind::Number, "3.14".to_owned(), 2, 6, 1, 3)
    );
}

#[test]
fn operators() {
    let tkns = lex("+-*/^()");
    assert_eq!(tkns.len(), 7);
    assert_eq!(
        tkns[0],
        Token::new(TokenKind::Plus, "+".to_owned(), 0, 1, 1, 1)
    );
    assert_eq!(
        tkns[1],
        Token::new(TokenKind::Minus, "-".to_owned(), 1, 2, 1, 2)
    );
    assert_eq!(
        tkns[2],
        Token::new(TokenKind::Times, "*".to_owned(), 2, 3, 1, 3)
    );
    assert_eq!(
        tkns[3],
        Token::new(TokenKind::Divide, "/".to_owned(), 3, 4, 1, 4)
    );
    assert_eq!(
        tkns[4],
        Token::new(TokenKind::Exponent, "^".to_owned(), 4, 5, 1, 5)
    );
    assert_eq!(
        tkns[5],
        Token::new(TokenKind::LParen, "(".to_owned(), 5, 6, 1, 6)
    );
    assert_eq!(
        tkns[6],
        Token::new(TokenKind::RParen, ")".to_owned(), 6, 7, 1, 7)
    );
}

#[test]
fn identifier() {
    let tkns = lex("abc");
    assert_eq!(tkns.len(), 1);
    assert_eq!(
        tkns[0],
        Token::new(TokenKind::Identifier, "abc".to_owned(), 0, 3, 1, 1)
    );
}

#[test]
fn eof() {
    let tkns = lex("");
    assert_eq!(tkns.len(), 0);
}

#[test]
fn newline_positions() {
    let tkns = lex("2\n 3");
    assert_eq!(tkns.len(), 2);
    assert_eq!(
        tkns[0],
        Token::new(TokenKind::Number, "2".to_owned(), 0, 1, 1, 1)
    );
    assert_eq!(
        tkns[1],
        Token::new(TokenKind::Number, "3".to_owned(), 3, 4, 2, 2)
    );
}

#[test]
fn lex_error_unknown_character() {
    let mut lexer = Lexer::new("1 $");
    assert_eq!(
        lexer.next().unwrap().unwrap(),
        Token::new(TokenKind::Number, "1".to_owned(), 0, 1, 1, 1)
    );
    assert_eq!(lexer.next(), Err("Unexpected input: $ (1:3)".to_owned()));
}

#[test]
fn lex_error_trailing_decimal_point() {
    let mut lexer = Lexer::new("1.");
    assert_eq!(lexer.next(), Err("Unexpected input: . (1:2)".to_owned()));
}

#[test]
fn lex_error_decimal_point_before_letter() {
    let mut lexer = Lexer::new("12.x");
    assert_eq!(lexer.next(), Err("Unexpected input: . (1:3)".to_owned()));
}

#[test]
fn lex_error_is_idempotent() {
    let mut lexer = Lexer::new("#");
    let first = lexer.peek();
    let second = lexer.peek();
    assert_eq!(first, Err("Unexpected input: # (1:1)".to_owned()));
    assert_eq!(first, second);
}

#[test]
fn peek_is_idempotent() {
    let mut lexer = Lexer::new("7 8");
    let first = lexer.peek().unwrap().unwrap();
    let second = lexer.peek().unwrap().unwrap();
    assert_eq!(first, second);
    assert_eq!(
        lexer.next().unwrap().unwrap(),
        Token::new(TokenKind::Number, "7".to_owned(), 0, 1, 1, 1)
    );
}

#[test]
fn expect_matches_kind() {
    let mut lexer = Lexer::new("(1");
    let t = lexer.expect(TokenKind::LParen).unwrap();
    assert_eq!(t, Token::new(TokenKind::LParen, "(".to_owned(), 0, 1, 1, 1));
    assert_eq!(
        lexer.expect(TokenKind::RParen),
        Err("Unexpected token \"1\" (Number) (1:2)".to_owned())
    );
}

#[test]
fn expect_at_end_of_input() {
    let mut lexer = Lexer::new("   ");
    assert_eq!(
        lexer.expect(TokenKind::Number),
        Err("Unexpected EOF".to_owned())
    );
}

#[test]
fn token_error_message() {
    let t = Token::new(TokenKind::Number, "12".to_owned(), 0, 2, 3, 14);
    assert_eq!(t.error(), "Unexpected token \"12\" (Number) (3:14)");
    let u = Token::new(TokenKind::Identifier, "abc".to_owned(), 0, 3, 12, 345);
    assert_eq!(u.error(), "Unexpected token \"abc\" (Identifier) (12:345)");
}
