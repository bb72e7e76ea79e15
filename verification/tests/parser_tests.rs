use calc::ast::Node;
use calc::ast::Num;
use calc::ast::eval;
use calc::lexer::Lexer;
use calc::lexer::Token;
use calc::lexer::TokenKind;
use calc::parser::Parser;
use calc::ast::Func;
use calc::ast::Op;

fn num_value(n: &Num) -> f64 {
    match n {
        Num::Literal(s) => s.parse::<f64>().unwrap(),
        Num::Pi => std::f64::consts::PI,
        Num::E => std::f64::consts::E,
    }
}

fn apply(f: &Func, x: f64) -> f64 {
    match f {
        Func::Abs => x.abs(),
        Func::Acos => x.acos(),
        Func::Asin => x.asin(),
        Func::Atan => x.atan(),
        Func::Ceil => x.ceil(),
        Func::Cos => x.cos(),
        Func::Floor => x.floor(),
        Func::Ln => x.ln(),
        Func::Log => x.log10(),
        Func::Log2 => x.log2(),
        Func::Sin => x.sin(),
        Func::Tan => x.tan(),
    }
}

fn run(ops: &[Op]) -> f64 {
    let mut stack: Vec<f64> = Vec::new();
    for op in ops {
        match op {
            Op::Push(n) => stack.push(num_value(n)),
            Op::Neg => {
                let x = stack.pop().unwrap();
                stack.push(-x);
            }
            Op::Add => {
                let b = stack.pop().unwrap();
                let a = stack.pop().unwrap();
                stack.push(a + b);
            }
            Op::Sub => {
                let b = stack.pop().unwrap();
                let a = stack.pop().unwrap();
                stack.push(a - b);
            }
            Op::Mul => {
                let b = stack.pop().unwrap();
                let a = stack.pop().unwrap();
                stack.push(a * b);
            }
            Op::Div => {
                let b = stack.pop().unwrap();
                let a = stack.pop().unwrap();
                stack.push(a / b);
            }
            Op::Pow => {
                let b = stack.pop().unwrap();
                let a = stack.pop().unwrap();
                stack.push(a.powf(b));
            }
            Op::Apply(f) => {
                let x = stack.pop().unwrap();
                stack.push(apply(f, x));
            }
        }
    }
    stack.pop().unwrap()
}

#[test]
fn parser_number() {
    let mut p = Parser::new(Lexer::new("1"));
    let ast = p.expr(0).unwrap();
    assert_eq!(ast, Node::Number(Num::Literal("1".to_owned())));
}

#[test]
fn parser_plus_times() {
    let mut p = Parser::new(Lexer::new("1+2*3"));
    let ast = p.expr(0).unwrap();
    assert_eq!(
        ast,
        Node::Binary(
            Box::new(Node::Number(Num::Literal("1".to_owned()))),
            Box::new(Token::new(TokenKind::Plus, "+".to_owned(), 1, 2, 1, 2)),
            Box::new(Node::Binary(
                Box::new(Node::Number(Num::Literal("2".to_owned()))),
                Box::new(Token::new(TokenKind::Times, "*".to_owned(), 3, 4, 1, 4)),
                Box::new(Node::Number(Num::Literal("3".to_owned())))
            ))
        )
    );
}

#[test]
fn parser_times_plus() {
    let mut p = Parser::new(Lexer::new("1*2+3"));
    let ast = p.expr(0).unwrap();
    assert_eq!(
        ast,
        Node::Binary(
            Box::new(Node::Binary(
                Box::new(Node::Number(Num::Literal("1".to_owned()))),
                Box::new(Token::new(TokenKind::Times, "*".to_owned(), 1, 2, 1, 2)),
                Box::new(Node::Number(Num::Literal("2".to_owned())))
            )),
            Box::new(Token::new(TokenKind::Plus, "+".to_owned(), 3, 4, 1, 4)),
            Box::new(Node::Number(Num::Literal("3".to_owned()))),
        )
    );
}

#[test]
fn parser_parens() {
    let mut p = Parser::new(Lexer::new("1*(2+3)"));
    let ast = p.expr(0).unwrap();
    assert_eq!(
        ast,
        Node::Binary(
            Box::new(Node::Number(Num::Literal("1".to_owned()))),
            Box::new(Token::new(TokenKind::Times, "*".to_owned(), 1, 2, 1, 2)),
            Box::new(Node::Binary(
                Box::new(Node::Number(Num::Literal("2".to_owned()))),
                Box::new(Token::new(TokenKind::Plus, "+".to_owned(), 4, 5, 1, 5)),
                Box::new(Node::Number(Num::Literal("3".to_owned()))),
            )),
        )
    );
}

#[test]
fn parser_rassoc() {
    let mut p = Parser::new(Lexer::new("1^2^3"));
    let ast = p.expr(0).unwrap();
    assert_eq!(
        ast,
        Node::Binary(
            Box::new(Node::Number(Num::Literal("1".to_owned()))),
            Box::new(Token::new(TokenKind::Exponent, "^".to_owned(), 1, 2, 1, 2)),
            Box::new(Node::Binary(
                Box::new(Node::Number(Num::Literal("2".to_owned()))),
                Box::new(Token::new(TokenKind::Exponent, "^".to_owned(), 3, 4, 1, 4)),
                Box::new(Node::Number(Num::Literal("3".to_owned()))),
            )),
        )
    );
}

#[test]
fn pi() {
    let mut p = Parser::new(Lexer::new("pi"));
    let ast = p.expr(0).unwrap();
    assert_eq!(ast, Node::Number(Num::Pi));
}

#[test]
fn e() {
    let mut p = Parser::new(Lexer::new("e"));
    let ast = p.expr(0).unwrap();
    assert_eq!(ast, Node::Number(Num::E));
}

#[test]
fn func() {
    let mut p = Parser::new(Lexer::new("sin(pi/6)"));
    let ast = p.expr(0).unwrap();
    let ops = eval(ast).unwrap();
    assert_eq!(run(&ops), (std::f64::consts::PI / 6_f64).sin());
}

#[test]
fn parse_rejects_trailing_tokens() {
    let mut p = Parser::new(Lexer::new("1 2"));
    assert_eq!(
        p.parse(),
        Err("Unexpected token \"2\" (Number) (1:3)".to_owned())
    );
}

#[test]
fn parse_rejects_stray_rparen() {
    let mut p = Parser::new(Lexer::new("1)"));
    assert_eq!(
        p.parse(),
        Err("Unexpected token \")\" (RParen) (1:2)".to_owned())
    );
}

#[test]
fn function_call_needs_parens() {
    let mut p = Parser::new(Lexer::new("abs"));
    assert_eq!(p.parse(), Err("Unexpected EOF".to_owned()));
    let mut q = Parser::new(Lexer::new("abs 1"));
    assert_eq!(
        q.parse(),
        Err("Unexpected token \"1\" (Number) (1:5)".to_owned())
    );
}
