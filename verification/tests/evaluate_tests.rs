use calc::ast::Func;
use calc::ast::Num;
use calc::ast::Op;
use calc::evaluate;

fn num_value(n: &Num) -> f64 {
    match n {
        Num::Literal(s) => s.parse::<f64>().unwrap(),
        Num::Pi => std::f64::consts::PI,
        Num::E => std::f64::consts::E,
    }
}

fn apply(f: &Func, x: f64) -> f64 {
    match f {
        Func::Abs => x.abs(),
        Func::Acos => x.acos(),
        Func::Asin => x.asin(),
        Func::Atan => x.atan(),
        Func::Ceil => x.ceil(),
        Func::Cos => x.cos(),
        Func::Floor => x.floor(),
        Func::Ln => x.ln(),
        Func::Log => x.log10(),
        Func::Log2 => x.log2(),
        Func::Sin => x.sin(),
        Func::Tan => x.tan(),
    }
}

fn run(ops: &[Op]) -> f64 {
    let mut stack: Vec<f64> = Vec::new();
    for op in ops {
        match op {
            Op::Push(n) => stack.push(num_value(n)),
            Op::Neg => {
                let x = stack.pop().unwrap();
                stack.push(-x);
            }
            Op::Add => {
                let b = stack.pop().unwrap();
                let a = stack.pop().unwrap();
                stack.push(a + b);
            }
            Op::Sub => {
                let b = stack.pop().unwrap();
                let a = stack.pop().unwrap();
                stack.push(a - b);
            }
            Op::Mul => {
                let b = stack.pop().unwrap();
                let a = stack.pop().unwrap();
                stack.push(a * b);
            }
            Op::Div => {
                let b = stack.pop().unwrap();
                let a = stack.pop().unwrap();
                stack.push(a / b);
            }
            Op::Pow => {
                let b = stack.pop().unwrap();
                let a = stack.pop().unwrap();
                stack.push(a.powf(b));
            }
            Op::Apply(f) => {
                let x = stack.pop().unwrap();
                stack.push(apply(f, x));
            }
        }
    }
    stack.pop().unwrap()
}

fn eval_f64(s: &str) -> Result<f64, String> {
    evaluate(s).map(|ops| run(&ops))
}

#[test]
fn literal_evaluates_to_its_parsed_value() {
    assert_eq!(eval_f64("0").unwrap(), "0".parse::<f64>().unwrap());
    assert_eq!(eval_f64("42").unwrap(), "42".parse::<f64>().unwrap());
    assert_eq!(eval_f64("12.34").unwrap(), "12.34".parse::<f64>().unwrap());
    assert_eq!(eval_f64("007").unwrap(), "007".parse::<f64>().unwrap());
    assert_eq!(eval_f64("0.5").unwrap(), "0.5".parse::<f64>().unwrap());
}

#[test]
fn literal_program_is_one_push() {
    let ops = evaluate("12.34").unwrap();
    assert_eq!(ops, vec![Op::Push(Num::Literal("12.34".to_owned()))]);
}

#[test]
fn subtraction_is_left_associative() {
    assert_eq!(eval_f64("1-2-3").unwrap(), -4_f64);
}

#[test]
fn exponentiation_is_right_associative() {
    assert_eq!(eval_f64("2^3^2").unwrap(), 512_f64);
}

#[test]
fn multiplication_binds_tighter_than_addition() {
    assert_eq!(eval_f64("1+2*3").unwrap(), 7_f64);
    assert_eq!(eval_f64("1*2+3").unwrap(), 5_f64);
}

#[test]
fn parentheses_override_precedence() {
    assert_eq!(eval_f64("(1+2)*3").unwrap(), 9_f64);
}

#[test]
fn unary_minus_binds_loosest() {
    // A sign parses its operand at binding power 0, so it absorbs the
    // whole rest of the expression: -2^2 is -(2^2) and -2+3 is -(2+3).
    assert_eq!(eval_f64("-2^2").unwrap(), -4_f64);
    assert_eq!(eval_f64("-2+3").unwrap(), -5_f64);
    assert_eq!(eval_f64("(-2)+3").unwrap(), 1_f64);
}

#[test]
fn constants() {
    assert!((eval_f64("pi").unwrap() - 3.14159265358979_f64).abs() < 1e-12);
    assert!((eval_f64("e").unwrap() - 2.71828182845905_f64).abs() < 1e-12);
}

#[test]
fn functions() {
    assert_eq!(eval_f64("cos(pi)").unwrap(), -1_f64);
    assert_eq!(eval_f64("sin(0)").unwrap(), 0_f64);
    assert_eq!(eval_f64("abs(0-3)").unwrap(), 3_f64);
    assert_eq!(eval_f64("floor(2.7)").unwrap(), 2_f64);
    assert_eq!(eval_f64("ceil(2.2)").unwrap(), 3_f64);
    assert_eq!(eval_f64("log(100)").unwrap(), 2_f64);
    assert_eq!(eval_f64("ln(e)").unwrap(), 1_f64);
}

#[test]
fn unknown_function() {
    assert_eq!(eval_f64("foo(1)"), Err("Unknown function \"foo\"".to_owned()));
}

#[test]
fn malformed_input() {
    assert_eq!(eval_f64(""), Err("Unexpected EOF".to_owned()));
    assert_eq!(eval_f64("+"), Err("Unexpected EOF".to_owned()));
    assert_eq!(eval_f64("(1+2"), Err("Expected ')'".to_owned()));
    assert_eq!(eval_f64("1+"), Err("Unexpected EOF".to_owned()));
}

#[test]
fn division_by_zero_yields_infinity() {
    assert_eq!(eval_f64("1/0").unwrap(), f64::INFINITY);
}

#[test]
fn lexical_error_reports_position() {
    assert_eq!(eval_f64("1 + $"), Err("Unexpected input: $ (1:5)".to_owned()));
}

#[test]
fn whitespace_is_skipped() {
    assert_eq!(eval_f64(" 1 \t+\t 2 ").unwrap(), 3_f64);
}

#[test]
fn newline_counts_as_whitespace_and_lines_are_tracked() {
    assert_eq!(eval_f64("1 +\n2").unwrap(), 3_f64);
    assert_eq!(eval_f64("1 +\n$"), Err("Unexpected input: $ (2:1)".to_owned()));
}
