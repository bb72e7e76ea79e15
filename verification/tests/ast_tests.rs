use calc::ast::Func;
use calc::ast::Node;
use calc::ast::Num;
use calc::ast::Op;
use calc::ast::eval;
use calc::lexer::Token;
use calc::lexer::TokenKind;

fn num_value(n: &Num) -> f64 {
    match n {
        Num::Literal(s) => s.parse::<f64>().unwrap(),
        Num::Pi => std::f64::consts::PI,
        Num::E => std::f64::consts::E,
    }
}

fn apply(f: &Func, x: f64) -> f64 {
    match f {
        Func::Abs => x.abs(),
        Func::Acos => x.acos(),
        Func::Asin => x.asin(),
        Func::Atan => x.atan(),
        Func::Ceil => x.ceil(),
        Func::Cos => x.cos(),
        Func::Floor => x.floor(),
        Func::Ln => x.ln(),
        Func::Log => x.log10(),
        Func::Log2 => x.log2(),
        Func::Sin => x.sin(),
        Func::Tan => x.tan(),
    }
}

fn run(ops: &[Op]) -> f64 {
    let mut stack: Vec<f64> = Vec::new();
    for op in ops {
        match op {
            Op::Push(n) => stack.push(num_value(n)),
            Op::Neg => {
                let x = stack.pop().unwrap();
                stack.push(-x);
            }
            Op::Add => {
                let b = stack.pop().unwrap();
                let a = stack.pop().unwrap();
                stack.push(a + b);
            }
            Op::Sub => {
                let b = stack.pop().unwrap();
                let a = stack.pop().unwrap();
                stack.push(a - b);
            }
            Op::Mul => {
                let b = stack.pop().unwrap();
                let a = stack.pop().unwrap();
                stack.push(a * b);
            }
            Op::Div => {
                let b = stack.pop().unwrap();
                let a = stack.pop().unwrap();
                stack.push(a / b);
            }
            Op::Pow => {
                let b = stack.pop().unwrap();
                let a = stack.pop().unwrap();
                stack.push(a.powf(b));
            }
            Op::Apply(f) => {
                let x = stack.pop().unwrap();
                stack.push(apply(f, x));
            }
        }
    }
    stack.pop().unwrap()
}

#[test]
fn ast_number() {
    let ops = eval(Node::Number(Num::Literal("3.14".to_owned()))).unwrap();
    assert_eq!(run(&ops), 3.14_f64);
}

#[test]
fn unary() {
    let num = Box::new(Node::Number(Num::Literal("3.14".to_owned())));
    let ops = eval(Node::Unary(
        Box::new(Token::new(TokenKind::Minus, "-".to_owned(), 0, 0, 0, 0)),
        num,
    ))
    .unwrap();
    assert_eq!(run(&ops), -3.14_f64);
}

#[test]
fn binary() {
    let _3 = Box::new(Node::Number(Num::Literal("3".to_owned())));
    let _4 = Box::new(Node::Number(Num::Literal("4".to_owned())));
    let times = Box::new(Token::new(TokenKind::Times, "*".to_owned(), 0, 0, 0, 0));
    let ops = eval(Node::Binary(_3, times, _4)).unwrap();
    assert_eq!(run(&ops), 12_f64);
}

#[test]
fn application() {
    let pi = Box::new(Node::Number(Num::Pi));
    let ops = eval(Node::Application("cos".to_owned(), pi)).unwrap();
    assert_eq!(run(&ops), -1_f64);
}

#[test]
fn eval_emits_postorder_program() {
    let tree = Node::Binary(
        Box::new(Node::Number(Num::Literal("1".to_owned()))),
        Box::new(Token::new(TokenKind::Plus, "+".to_owned(), 1, 2, 1, 2)),
        Box::new(Node::Binary(
            Box::new(Node::Number(Num::Literal("2".to_owned()))),
            Box::new(Token::new(TokenKind::Times, "*".to_owned(), 3, 4, 1, 4)),
            Box::new(Node::Number(Num::Literal("3".to_owned()))),
        )),
    );
    let ops = eval(tree).unwrap();
    assert_eq!(
        ops,
        vec![
            Op::Push(Num::Literal("1".to_owned())),
            Op::Push(Num::Literal("2".to_owned())),
            Op::Push(Num::Literal("3".to_owned())),
            Op::Mul,
            Op::Add,
        ]
    );
}

#[test]
fn unary_plus_is_identity() {
    let ops = eval(Node::Unary(
        Box::new(Token::new(TokenKind::Plus, "+".to_owned(), 0, 0, 0, 0)),
        Box::new(Node::Number(Num::Literal("5".to_owned()))),
    ))
    .unwrap();
    assert_eq!(ops, vec![Op::Push(Num::Literal("5".to_owned()))]);
}

#[test]
fn not_a_unary_operator() {
    let r = eval(Node::Unary(
        Box::new(Token::new(TokenKind::Times, "*".to_owned(), 0, 0, 0, 0)),
        Box::new(Node::Number(Num::Literal("1".to_owned()))),
    ));
    assert_eq!(r, Err("Not a unary operator".to_owned()));
}

#[test]
fn not_a_binary_operator() {
    let r = eval(Node::Binary(
        Box::new(Node::Number(Num::Literal("1".to_owned()))),
        Box::new(Token::new(TokenKind::LParen, "(".to_owned(), 0, 0, 0, 0)),
        Box::new(Node::Number(Num::Literal("2".to_owned()))),
    ));
    assert_eq!(r, Err("Not a binary operator".to_owned()));
}

#[test]
fn application_log_base_two() {
    // "log2" cannot be written in source text, since an identifier is a
    // run of letters and a digit ends it; the function is still
    // reachable through a tree built directly.
    let ops = eval(Node::Application(
        "log2".to_owned(),
        Box::new(Node::Number(Num::Literal("8".to_owned()))),
    ))
    .unwrap();
    assert_eq!(run(&ops), 3_f64);
}

#[test]
fn unknown_function_in_tree() {
    let r = eval(Node::Application(
        "frobnicate".to_owned(),
        Box::new(Node::Number(Num::Literal("1".to_owned()))),
    ));
    assert_eq!(r, Err("Unknown function \"frobnicate\"".to_owned()));
}
