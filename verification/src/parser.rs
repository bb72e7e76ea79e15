//! Precedence-climbing parser: turns the token stream into an expression
//! tree, resolving precedence, associativity, unary sign, parentheses,
//! constants and function-call syntax with one token of lookahead.
//!
//! The executable parser is verified against a definitional model:
//! `spec_nud` says what a token in prefix position produces, `spec_led`
//! what an infix operator does to an already-parsed left operand, and
//! `spec_expr` ties them together around the binding-power loop.  Binding
//! powers: `+ -` bind at 10 and `* /` at 20, both left-associative; `^`
//! binds at 30 and associates to the right (its right operand is parsed
//! at one less than its own power); a unary sign parses its operand at
//! power 0, so it binds loosest.

use vstd::prelude::*;

use crate::ast::Node;
use crate::ast::Num;
use crate::ast::SpecNode;
use crate::ast::SpecNum;
use crate::ast::str_eq;
use crate::lexer::Lexer;
use crate::lexer::SpecToken;
use crate::lexer::StreamModel;
use crate::lexer::Token;
use crate::lexer::TokenKind;
use crate::lexer::eof_msg;
use crate::lexer::lex_error_msg;
use crate::lexer::stream_tail;
use crate::lexer::token_error_msg;
use vstd::pervasive::unreached;
use vstd::string::StringExecFns;

verus! {

/// What parsing yields: a tree together with the unconsumed rest of the
/// stream, or an error message.
#[verifier::ext_equal]
pub ghost enum ParseOut {
    Done { node: SpecNode, rest: StreamModel },
    Fail(Seq<char>),
}

/// The message reported for a parenthesized form left unclosed.
pub open spec fn rparen_msg() -> Seq<char> {
    "Expected ')'"@
}

/// The binding power of a token: how eagerly it claims operands.  A
/// closing parenthesis terminates (0); additive operators bind at 10,
/// multiplicative at 20, exponentiation at 30; an opening parenthesis
/// and the operand tokens stand above every operator.
pub open spec fn spec_bp(k: TokenKind) -> int {
    match k {
        TokenKind::RParen => 0,
        TokenKind::Plus => 10,
        TokenKind::Minus => 10,
        TokenKind::Times => 20,
        TokenKind::Divide => 20,
        TokenKind::Exponent => 30,
        TokenKind::LParen => 40,
        _ => 100,
    }
}

/// What a token produces in prefix position: a number literal becomes a
/// leaf; a sign wraps the expression parsed at power 0; an identifier is
/// a constant or, followed by a parenthesized argument, a function call;
/// a parenthesis wraps an inner expression and requires its close; any
/// other token cannot open an expression.  `m` is the stream after the
/// token itself.
pub open spec fn spec_nud(t: SpecToken, m: StreamModel) -> ParseOut
    decreases m.toks.len(), 1int,
{
    if t.kind == TokenKind::Number {
        ParseOut::Done { node: SpecNode::Number(SpecNum::Literal(t.text)), rest: m }
    } else if t.kind == TokenKind::Plus || t.kind == TokenKind::Minus {
        match spec_expr(m, 0) {
            ParseOut::Done { node, rest } => ParseOut::Done {
                node: SpecNode::Unary(t, Box::new(node)),
                rest,
            },
            ParseOut::Fail(msg) => ParseOut::Fail(msg),
        }
    } else if t.kind == TokenKind::Identifier {
        if t.text == "e"@ {
            ParseOut::Done { node: SpecNode::Number(SpecNum::E), rest: m }
        } else if t.text == "pi"@ {
            ParseOut::Done { node: SpecNode::Number(SpecNum::Pi), rest: m }
        } else {
            if m.toks.len() > 0 && m.toks[0].kind == TokenKind::LParen {
                match spec_expr(stream_tail(m), 0) {
                    ParseOut::Done { node, rest } => {
                        if rest.toks.len() > 0 && rest.toks[0].kind == TokenKind::RParen {
                            ParseOut::Done {
                                node: SpecNode::Application(t.text, Box::new(node)),
                                rest: stream_tail(rest),
                            }
                        } else if rest.toks.len() > 0 {
                            ParseOut::Fail(token_error_msg(rest.toks[0]))
                        } else if rest.bad is Some {
                            ParseOut::Fail(lex_error_msg(rest.bad->0))
                        } else {
                            ParseOut::Fail(eof_msg())
                        }
                    },
                    ParseOut::Fail(msg) => ParseOut::Fail(msg),
                }
            } else if m.toks.len() > 0 {
                ParseOut::Fail(token_error_msg(m.toks[0]))
            } else if m.bad is Some {
                ParseOut::Fail(lex_error_msg(m.bad->0))
            } else {
                ParseOut::Fail(eof_msg())
            }
        }
    } else if t.kind == TokenKind::LParen {
        match spec_expr(m, 0) {
            ParseOut::Done { node, rest } => {
                if rest.toks.len() > 0 && rest.toks[0].kind == TokenKind::RParen {
                    ParseOut::Done { node, rest: stream_tail(rest) }
                } else if rest.toks.len() == 0 && rest.bad is Some {
                    ParseOut::Fail(lex_error_msg(rest.bad->0))
                } else {
                    ParseOut::Fail(rparen_msg())
                }
            },
            ParseOut::Fail(msg) => ParseOut::Fail(msg),
        }
    } else {
        ParseOut::Fail(token_error_msg(t))
    }
}

/// What an infix operator does to an already-parsed left operand: the
/// four additive and multiplicative operators parse their right operand
/// at their own power (left associativity), exponentiation at one less
/// (right associativity); any other token cannot stand infix.  `m` is
/// the stream after the operator token, `obp` its binding power.
pub open spec fn spec_led(left: SpecNode, op: SpecToken, m: StreamModel, obp: int) -> ParseOut
    decreases m.toks.len(), 1int,
{
    if op.kind == TokenKind::Plus || op.kind == TokenKind::Minus || op.kind == TokenKind::Times
        || op.kind == TokenKind::Divide {
        match spec_expr(m, obp) {
            ParseOut::Done { node, rest } => ParseOut::Done {
                node: SpecNode::Binary(Box::new(left), op, Box::new(node)),
                rest,
            },
            ParseOut::Fail(msg) => ParseOut::Fail(msg),
        }
    } else if op.kind == TokenKind::Exponent {
        match spec_expr(m, obp - 1) {
            ParseOut::Done { node, rest } => ParseOut::Done {
                node: SpecNode::Binary(Box::new(left), op, Box::new(node)),
                rest,
            },
            ParseOut::Fail(msg) => ParseOut::Fail(msg),
        }
    } else {
        ParseOut::Fail(token_error_msg(op))
    }
}

/// The binding-power loop around a parsed left operand: while the next
/// token binds tighter than `rbp`, absorb it as an infix operator; stop
/// at the end of the stream or at a token that binds no tighter.  A
/// lexical error surfacing where the next token would be is an error.
pub open spec fn spec_led_loop(left: SpecNode, m: StreamModel, rbp: int) -> ParseOut
    decreases m.toks.len(), 2int,
{
    if m.toks.len() == 0 {
        match m.bad {
            Some(e) => ParseOut::Fail(lex_error_msg(e)),
            None => ParseOut::Done { node: left, rest: m },
        }
    } else {
        let t = m.toks[0];
        if rbp >= spec_bp(t.kind) {
            ParseOut::Done { node: left, rest: m }
        } else {
            match spec_led(left, t, stream_tail(m), spec_bp(t.kind)) {
                ParseOut::Done { node, rest } => {
                    if rest.toks.len() < m.toks.len() {
                        spec_led_loop(node, rest, rbp)
                    } else {
                        // never reached: parsing only consumes tokens
                        // (lemma_led_monotone)
                        ParseOut::Fail(Seq::empty())
                    }
                },
                ParseOut::Fail(msg) => ParseOut::Fail(msg),
            }
        }
    }
}

/// One expression parsed at minimum binding power `rbp`: the first token
/// in prefix position, then the binding-power loop.  An empty stream is
/// an error, a premature lexical error likewise.
pub open spec fn spec_expr(m: StreamModel, rbp: int) -> ParseOut
    decreases m.toks.len(), 0int,
{
    if m.toks.len() == 0 {
        match m.bad {
            Some(e) => ParseOut::Fail(lex_error_msg(e)),
            None => ParseOut::Fail(eof_msg()),
        }
    } else {
        let t = m.toks[0];
        match spec_nud(t, stream_tail(m)) {
            ParseOut::Done { node, rest } => {
                if rest.toks.len() < m.toks.len() {
                    spec_led_loop(node, rest, rbp)
                } else {
                    // never reached: parsing only consumes tokens
                    // (lemma_nud_monotone)
                    ParseOut::Fail(Seq::empty())
                }
            },
            ParseOut::Fail(msg) => ParseOut::Fail(msg),
        }
    }
}

/// A whole input parsed: one expression at power 0, with nothing but the
/// end of the stream allowed to follow it.
pub open spec fn spec_parse(m: StreamModel) -> ParseOut {
    match spec_expr(m, 0) {
        ParseOut::Done { node, rest } => {
            if rest.toks.len() > 0 {
                ParseOut::Fail(token_error_msg(rest.toks[0]))
            } else if rest.bad is Some {
                ParseOut::Fail(lex_error_msg(rest.bad->0))
            } else {
                ParseOut::Done { node, rest }
            }
        },
        ParseOut::Fail(msg) => ParseOut::Fail(msg),
    }
}

/// Prefix parsing consumes tokens, never produces them.
pub proof fn lemma_nud_monotone(t: SpecToken, m: StreamModel)
    ensures
        spec_nud(t, m) matches ParseOut::Done { node, rest } ==> rest.toks.len() <= m.toks.len(),
    decreases m.toks.len(), 1int,
{
    if t.kind == TokenKind::Plus || t.kind == TokenKind::Minus {
        lemma_expr_monotone(m, 0);
    } else if t.kind == TokenKind::Identifier {
        if m.toks.len() > 0 && m.toks[0].kind == TokenKind::LParen {
            lemma_expr_monotone(stream_tail(m), 0);
        }
    } else if t.kind == TokenKind::LParen {
        lemma_expr_monotone(m, 0);
    }
}

/// Infix parsing consumes at least the right operand.
pub proof fn lemma_led_monotone(left: SpecNode, op: SpecToken, m: StreamModel, obp: int)
    ensures
        spec_led(left, op, m, obp) matches ParseOut::Done { node, rest } ==> rest.toks.len()
            < m.toks.len(),
    decreases m.toks.len(), 1int,
{
    if op.kind == TokenKind::Plus || op.kind == TokenKind::Minus || op.kind == TokenKind::Times
        || op.kind == TokenKind::Divide {
        lemma_expr_monotone(m, obp);
    } else if op.kind == TokenKind::Exponent {
        lemma_expr_monotone(m, obp - 1);
    }
}

/// The binding-power loop consumes tokens, never produces them.
pub proof fn lemma_led_loop_monotone(left: SpecNode, m: StreamModel, rbp: int)
    ensures
        spec_led_loop(left, m, rbp) matches ParseOut::Done { node, rest } ==> rest.toks.len()
            <= m.toks.len(),
    decreases m.toks.len(), 2int,
{
    if m.toks.len() > 0 {
        let t = m.toks[0];
        if rbp < spec_bp(t.kind) {
            lemma_led_monotone(left, t, stream_tail(m), spec_bp(t.kind));
            match spec_led(left, t, stream_tail(m), spec_bp(t.kind)) {
                ParseOut::Done { node, rest } => {
                    lemma_led_loop_monotone(node, rest, rbp);
                },
                ParseOut::Fail(_) => {},
            }
        }
    }
}

/// Parsing an expression consumes at least one token.
pub proof fn lemma_expr_monotone(m: StreamModel, rbp: int)
    ensures
        spec_expr(m, rbp) matches ParseOut::Done { node, rest } ==> rest.toks.len()
            < m.toks.len(),
    decreases m.toks.len(), 0int,
{
    if m.toks.len() > 0 {
        let t = m.toks[0];
        lemma_nud_monotone(t, stream_tail(m));
        match spec_nud(t, stream_tail(m)) {
            ParseOut::Done { node, rest } => {
                lemma_led_loop_monotone(node, rest, rbp);
            },
            ParseOut::Fail(_) => {},
        }
    }
}

/// The parser: pulls tokens from the lexer and climbs precedence.
pub struct Parser<'a> {
    lexer: Lexer<'a>,
}

impl<'a> Parser<'a> {
    /// The parser's invariant: its lexer's.
    pub closed spec fn wf(self) -> bool {
        self.lexer.wf()
    }

    /// The tokens not yet consumed.
    pub closed spec fn stream(self) -> StreamModel {
        self.lexer.stream()
    }

    /// Wrap a lexer.
    pub fn new(lexer: Lexer<'a>) -> (p: Parser<'a>)
        ensures
            p.wf() == lexer.wf(),
            p.stream() == lexer.stream(),
    {
        Parser { lexer }
    }

    /// The binding power of a token.
    pub fn bp(&self, t: &Token) -> (r: usize)
        ensures
            r as int == spec_bp(t@.kind),
    {
        match t.kind {
            TokenKind::RParen => 0,
            TokenKind::Plus => 10,
            TokenKind::Minus => 10,
            TokenKind::Times => 20,
            TokenKind::Divide => 20,
            TokenKind::Exponent => 30,
            TokenKind::LParen => 40,
            _ => 100,
        }
    }

    /// Parse the token `t` in prefix position: exactly `spec_nud`.
    pub fn nud(&mut self, t: Box<Token>, _bp: usize) -> (r: Result<Node, String>)
        requires
            old(self).wf(),
        ensures
            final(self).wf(),
            ({
                match spec_nud(t@, old(self).stream()) {
                    ParseOut::Done { node, rest } => r matches Ok(n) && n@ == node && final(self).stream() == rest,
                    ParseOut::Fail(m) => r matches Err(msg) && msg@ == m,
                }
            }),
        decreases old(self).stream().toks.len(), 1int,
    {
        match t.kind {
            TokenKind::Number => {
                let tok = *t;
                Ok(Node::Number(Num::Literal(tok.value)))
            },
            TokenKind::Plus | TokenKind::Minus => {
                match self.expr(0) {
                    Ok(right) => Ok(Node::Unary(t, Box::new(right))),
                    Err(e) => Err(e),
                }
            },
            TokenKind::Identifier => {
                if str_eq(t.value.as_str(), "e") {
                    Ok(Node::Number(Num::E))
                } else if str_eq(t.value.as_str(), "pi") {
                    Ok(Node::Number(Num::Pi))
                } else {
                    match self.lexer.expect(TokenKind::LParen) {
                        Err(e) => Err(e),
                        Ok(_) => {
                            match self.expr(0) {
                                Err(e) => Err(e),
                                Ok(arg) => {
                                    match self.lexer.expect(TokenKind::RParen) {
                                        Err(e) => Err(e),
                                        Ok(_) => {
                                            let tok = *t;
                                            Ok(Node::Application(tok.value, Box::new(arg)))
                                        },
                                    }
                                },
                            }
                        },
                    }
                }
            },
            TokenKind::LParen => {
                match self.expr(0) {
                    Err(e) => Err(e),
                    Ok(right) => {
                        match self.lexer.next() {
                            Err(e) => Err(e),
                            Ok(Some(tok2)) => {
                                if tok2.kind == TokenKind::RParen {
                                    Ok(right)
                                } else {
                                    Err(String::from_str("Expected ')'"))
                                }
                            },
                            Ok(None) => Err(String::from_str("Expected ')'")),
                        }
                    },
                }
            },
            _ => Err(t.error()),
        }
    }

    /// Combine `left` with the infix operator `op` and what follows:
    /// exactly `spec_led`.
    pub fn led(&mut self, left: Node, op: Box<Token>, bp: usize) -> (r: Result<Node, String>)
        requires
            old(self).wf(),
            op@.kind == TokenKind::Exponent ==> 1 <= bp,
        ensures
            final(self).wf(),
            ({
                match spec_led(left@, op@, old(self).stream(), bp as int) {
                    ParseOut::Done { node, rest } => r matches Ok(n) && n@ == node && final(self).stream() == rest,
                    ParseOut::Fail(m) => r matches Err(msg) && msg@ == m,
                }
            }),
        decreases old(self).stream().toks.len(), 1int,
    {
        match op.kind {
            TokenKind::Plus | TokenKind::Minus | TokenKind::Times | TokenKind::Divide => {
                match self.expr(bp) {
                    Ok(right) => Ok(Node::Binary(Box::new(left), op, Box::new(right))),
                    Err(e) => Err(e),
                }
            },
            TokenKind::Exponent => {
                match self.expr(bp - 1) {
                    Ok(right) => Ok(Node::Binary(Box::new(left), op, Box::new(right))),
                    Err(e) => Err(e),
                }
            },
            _ => Err(op.error()),
        }
    }

    /// Parse one expression at minimum binding power `rbp`: exactly
    /// `spec_expr`.
    pub fn expr(&mut self, rbp: usize) -> (r: Result<Node, String>)
        requires
            old(self).wf(),
        ensures
            final(self).wf(),
            ({
                match spec_expr(old(self).stream(), rbp as int) {
                    ParseOut::Done { node, rest } => r matches Ok(n) && n@ == node && final(self).stream() == rest,
                    ParseOut::Fail(m) => r matches Err(msg) && msg@ == m,
                }
            }),
        decreases old(self).stream().toks.len(), 0int,
    {
        let ghost m0 = self.stream();
        let first = match self.lexer.next() {
            Err(e) => {
                return Err(e);
            },
            Ok(None) => {
                return Err(String::from_str("Unexpected EOF"));
            },
            Ok(Some(t)) => t,
        };
        let first_bp = self.bp(&first);
        proof {
            lemma_nud_monotone(m0.toks[0], stream_tail(m0));
        }
        let mut left = match self.nud(Box::new(first), first_bp) {
            Ok(n) => n,
            Err(e) => {
                return Err(e);
            },
        };
        loop
            invariant
                self.wf(),
                m0 == old(self).stream(),
                self.stream().toks.len() < m0.toks.len(),
                spec_expr(m0, rbp as int) == spec_led_loop(left@, self.stream(), rbp as int),
            ensures
                spec_expr(m0, rbp as int) == (ParseOut::Done {
                    node: left@,
                    rest: self.stream(),
                }),
            decreases self.stream().toks.len(),
        {
            let ghost cur = self.stream();
            match self.lexer.peek() {
                Err(e) => {
                    return Err(e);
                },
                Ok(None) => {
                    break ;
                },
                Ok(Some(p)) => {
                    if rbp >= self.bp(&p) {
                        break ;
                    }
                },
            }
            let op = match self.lexer.next() {
                Ok(Some(t)) => t,
                _ => unreached(),
            };
            let op_bp = self.bp(&op);
            proof {
                lemma_led_monotone(left@, op@, stream_tail(cur), op_bp as int);
            }
            left = match self.led(left, Box::new(op), op_bp) {
                Ok(n) => n,
                Err(e) => {
                    return Err(e);
                },
            };
        }
        Ok(left)
    }

    /// Parse the whole input: one expression, with nothing allowed to
    /// follow it.  Exactly `spec_parse` of the token stream.
    pub fn parse(&mut self) -> (r: Result<Node, String>)
        requires
            old(self).wf(),
        ensures
            final(self).wf(),
            ({
                match spec_parse(old(self).stream()) {
                    ParseOut::Done { node, rest } => r matches Ok(n) && n@ == node,
                    ParseOut::Fail(m) => r matches Err(msg) && msg@ == m,
                }
            }),
    {
        match self.expr(0) {
            Err(e) => Err(e),
            Ok(node) => {
                match self.lexer.next() {
                    Err(e) => Err(e),
                    Ok(Some(t)) => Err(t.error()),
                    Ok(None) => Ok(node),
                }
            },
        }
    }
}

} // verus!
