//! A small calculator library: a tokenizer, a precedence-climbing parser and
//! an evaluator for arithmetic expressions written as one line of text.
//!
//! The pipeline runs strictly forward: text becomes a token stream, the token
//! stream becomes an expression tree, and the tree is reduced to a
//! straight-line program of stack-machine operations.  Running that program
//! over machine doubles is the one step left to the embedding application,
//! since this library keeps to exact values.

use vstd::prelude::*;

pub mod ast;
pub mod lexer;
pub mod parser;
pub mod pratt;

verus! {

/// The cursor at the start of a source line: offset 0, line 1, column 1.
pub open spec fn start_cursor() -> lexer::Cursor {
    lexer::Cursor { pos: 0, line: 1, column: 1 }
}

/// The token stream of a whole source line.
pub open spec fn spec_tokens(s: Seq<char>) -> lexer::StreamModel {
    lexer::stream_from(s, start_cursor())
}

/// What the whole pipeline yields on a source line: tokenize, parse,
/// evaluate; the first error anywhere is the result.
pub open spec fn spec_evaluate(s: Seq<char>) -> ast::EvalOut {
    match parser::spec_parse(spec_tokens(s)) {
        parser::ParseOut::Done { node, rest } => ast::spec_eval(node),
        parser::ParseOut::Fail(m) => ast::EvalOut::Fail(m),
    }
}

/// Tokenize, parse and evaluate one line of text: the straight-line
/// program of the expression, or the first error, exactly as
/// `spec_evaluate` says.  Folding the program over machine doubles is
/// left to the embedder.
pub fn evaluate(source: &str) -> (r: Result<Vec<ast::Op>, String>)
    requires
        source@.len() < usize::MAX,
    ensures
        ({
            match spec_evaluate(source@) {
                ast::EvalOut::Prog(p) => r matches Ok(v) && v.deep_view() == p,
                ast::EvalOut::Fail(m) => r matches Err(msg) && msg@ == m,
            }
        }),
{
    let lx = lexer::Lexer::new(source);
    let mut ps = parser::Parser::new(lx);
    match ps.parse() {
        Err(e) => Err(e),
        Ok(node) => ast::eval(node),
    }
}

/// A whole line that is one well-formed decimal literal: a run of digits,
/// optionally followed by a decimal point and another run of digits.
pub open spec fn is_literal_text(s: Seq<char>) -> bool {
    let d = lexer::digits_end(s, 0);
    &&& s.len() > 0
    &&& lexer::is_digit_char(s[0])
    &&& (d == s.len() || (d < s.len() && s[d] == '.' && d + 1 < s.len() && lexer::digits_end(
        s,
        d + 1,
    ) == s.len()))
}

/// Law: a line that is exactly one well-formed decimal literal evaluates
/// to the one-operation program that pushes that literal, text unchanged.
/// Reading the literal as a machine double is then the embedder's fold,
/// so the pipeline returns precisely the parsed value of the literal.
pub proof fn lemma_literal_evaluates_to_itself(s: Seq<char>)
    requires
        is_literal_text(s),
    ensures
        spec_evaluate(s) == ast::EvalOut::Prog(
            seq![ast::SpecOp::Push(ast::SpecNum::Literal(s))],
        ),
{
    let cur = start_cursor();
    let n = s.len() as int;
    let d = lexer::digits_end(s, 0);
    lexer::lemma_digits_end(s, 0);
    if d < s.len() {
        lexer::lemma_digits_end(s, d + 1);
        lexer::lemma_digits_end(s, d + 2);
    }
    assert(lexer::skip_ws(s, cur) == cur);
    assert(lexer::scan_at(s, cur) == lexer::token_at(s, cur, lexer::TokenKind::Number, n));
    let tok = lexer::SpecToken {
        kind: lexer::TokenKind::Number,
        text: s.subrange(0, n),
        start: 0,
        end: n,
        line: 1,
        column: 1,
    };
    let next = lexer::Cursor { pos: n, line: 1, column: 1 + n };
    assert(lexer::next_token(s, cur) == (lexer::Scan::Tok { token: tok, next }));
    lexer::lemma_stream_step(s, cur, tok, next);
    assert(lexer::skip_ws(s, next) == next);
    assert(lexer::scan_at(s, next) is End);
    assert(lexer::stream_from(s, next) == lexer::StreamModel {
        toks: Seq::<lexer::SpecToken>::empty(),
        bad: None::<lexer::SpecLexError>,
    });
    let m = spec_tokens(s);
    assert(m.toks =~= seq![tok]);
    assert(m.bad is None);
    let rest = lexer::stream_tail(m);
    assert(rest.toks =~= Seq::<lexer::SpecToken>::empty());
    assert(tok.text =~= s);
    assert(parser::spec_nud(tok, rest) == (parser::ParseOut::Done {
        node: ast::SpecNode::Number(ast::SpecNum::Literal(s)),
        rest,
    }));
    let node = ast::SpecNode::Number(ast::SpecNum::Literal(s));
    assert(parser::spec_led_loop(node, rest, 0) == (parser::ParseOut::Done { node, rest }));
    assert(parser::spec_expr(m, 0) == (parser::ParseOut::Done { node, rest }));
    assert(parser::spec_parse(m) == (parser::ParseOut::Done { node, rest }));
    assert(ast::spec_eval(node) == ast::EvalOut::Prog(
        seq![ast::SpecOp::Push(ast::SpecNum::Literal(s))],
    ));
}

} // verus!
