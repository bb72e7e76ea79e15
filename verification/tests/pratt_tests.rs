use calc::ast::Node;
use calc::ast::Num;
use calc::lexer::Lexer;
use calc::lexer::Token;
use calc::lexer::TokenKind;
use calc::pratt::Pratt;

#[test]
fn pratt_number() {
    let mut p = Pratt::new(Lexer::new("1"));
    let ast = p.expr(0).unwrap();
    assert_eq!(ast, Node::Number(Num::Literal("1".to_owned())));
}

#[test]
fn pratt_plus_times() {
    let mut p = Pratt::new(Lexer::new("1+2*3"));
    let ast = p.expr(0).unwrap();
    assert_eq!(
        ast,
        Node::Binary(
            Box::new(Node::Number(Num::Literal("1".to_owned()))),
            Box::new(Token::new(TokenKind::Plus, "+".to_owned(), 1, 2, 1, 2)),
            Box::new(Node::Binary(
                Box::new(Node::Number(Num::Literal("2".to_owned()))),
                Box::new(Token::new(TokenKind::Times, "*".to_owned(), 3, 4, 1, 4)),
                Box::new(Node::Number(Num::Literal("3".to_owned())))
            ))
        )
    );
}

#[test]
fn pratt_times_plus() {
    let mut p = Pratt::new(Lexer::new("1*2+3"));
    let ast = p.expr(0).unwrap();
    assert_eq!(
        ast,
        Node::Binary(
            Box::new(Node::Binary(
                Box::new(Node::Number(Num::Literal("1".to_owned()))),
                Box::new(Token::new(TokenKind::Times, "*".to_owned(), 1, 2, 1, 2)),
                Box::new(Node::Number(Num::Literal("2".to_owned())))
            )),
            Box::new(Token::new(TokenKind::Plus, "+".to_owned(), 3, 4, 1, 4)),
            Box::new(Node::Number(Num::Literal("3".to_owned()))),
        )
    );
}

#[test]
fn pratt_parens() {
    let mut p = Pratt::new(Lexer::new("1*(2+3)"));
    let ast = p.expr(0).unwrap();
    assert_eq!(
        ast,
        Node::Binary(
            Box::new(Node::Number(Num::Literal("1".to_owned()))),
            Box::new(Token::new(TokenKind::Times, "*".to_owned(), 1, 2, 1, 2)),
            Box::new(Node::Binary(
                Box::new(Node::Number(Num::Literal("2".to_owned()))),
                Box::new(Token::new(TokenKind::Plus, "+".to_owned(), 4, 5, 1, 5)),
                Box::new(Node::Number(Num::Literal("3".to_owned()))),
            )),
        )
    );
}

#[test]
fn pratt_rassoc() {
    let mut p = Pratt::new(Lexer::new("1^2^3"));
    let ast = p.expr(0).unwrap();
    assert_eq!(
        ast,
        Node::Binary(
            Box::new(Node::Number(Num::Literal("1".to_owned()))),
            Box::new(Token::new(TokenKind::Exponent, "^".to_owned(), 1, 2, 1, 2)),
            Box::new(Node::Binary(
                Box::new(Node::Number(Num::Literal("2".to_owned()))),
                Box::new(Token::new(TokenKind::Exponent, "^".to_owned(), 3, 4, 1, 4)),
                Box::new(Node::Number(Num::Literal("3".to_owned()))),
            )),
        )
    );
}

#[test]
fn pratt_rejects_identifier() {
    let mut p = Pratt::new(Lexer::new("pi"));
    assert_eq!(
        p.expr(0),
        Err("Unexpected token in NUD context: pi".to_owned())
    );
}
