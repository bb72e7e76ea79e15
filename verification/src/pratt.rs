//! A minimal precedence-climbing parser: the same binding-power algorithm
//! as the full parser, restricted to numbers, unary sign, the five
//! operators and parentheses.  It knows no identifiers, so no constants
//! and no function calls: an identifier in prefix position is an error.
//!
//! It is verified against its own definitional model, `pratt_expr` and
//! friends, in the same way the full parser is.

use vstd::prelude::*;

use crate::ast::Node;
use crate::ast::Num;
use crate::ast::SpecNode;
use crate::ast::SpecNum;
use crate::lexer::Lexer;
use crate::lexer::SpecToken;
use crate::lexer::StreamModel;
use crate::lexer::Token;
use crate::lexer::TokenKind;
use crate::lexer::eof_msg;
use crate::lexer::lex_error_msg;
use crate::lexer::stream_tail;
use crate::parser::ParseOut;
use crate::parser::rparen_msg;
use crate::parser::spec_bp;
use vstd::pervasive::unreached;
use vstd::string::StringExecFns;

verus! {

/// The message for a token that cannot open an expression here.
pub open spec fn pratt_nud_msg(t: SpecToken) -> Seq<char> {
    "Unexpected token in NUD context: "@ + t.text
}

/// The message for a token that cannot stand infix here.
pub open spec fn pratt_led_msg(t: SpecToken) -> Seq<char> {
    "Unexpected token in LED context: "@ + t.text
}

/// What a token produces in prefix position: a number literal becomes a
/// leaf, a sign wraps the expression parsed at power 0, a parenthesis
/// wraps an inner expression and requires its close; anything else,
/// identifiers included, is an error.  `m` is the stream after the token.
pub open spec fn pratt_nud(t: SpecToken, m: StreamModel) -> ParseOut
    decreases m.toks.len(), 1int,
{
    if t.kind == TokenKind::Number {
        ParseOut::Done { node: SpecNode::Number(SpecNum::Literal(t.text)), rest: m }
    } else if t.kind == TokenKind::Plus || t.kind == TokenKind::Minus {
        match pratt_expr(m, 0) {
            ParseOut::Done { node, rest } => ParseOut::Done {
                node: SpecNode::Unary(t, Box::new(node)),
                rest,
            },
            ParseOut::Fail(msg) => ParseOut::Fail(msg),
        }
    } else if t.kind == TokenKind::LParen {
        match pratt_expr(m, 0) {
            ParseOut::Done { node, rest } => {
                if rest.toks.len() > 0 && rest.toks[0].kind == TokenKind::RParen {
                    ParseOut::Done { node, rest: stream_tail(rest) }
                } else if rest.toks.len() == 0 && rest.bad is Some {
                    ParseOut::Fail(lex_error_msg(rest.bad->0))
                } else {
                    ParseOut::Fail(rparen_msg())
                }
            },
            ParseOut::Fail(msg) => ParseOut::Fail(msg),
        }
    } else {
        ParseOut::Fail(pratt_nud_msg(t))
    }
}

/// What an infix operator does to an already-parsed left operand: as in
/// the full parser, the right operand is parsed at the operator's own
/// power, one less for exponentiation; any other token is an error.
pub open spec fn pratt_led(left: SpecNode, op: SpecToken, m: StreamModel, obp: int) -> ParseOut
    decreases m.toks.len(), 1int,
{
    if op.kind == TokenKind::Plus || op.kind == TokenKind::Minus || op.kind == TokenKind::Times
        || op.kind == TokenKind::Divide {
        match pratt_expr(m, obp) {
            ParseOut::Done { node, rest } => ParseOut::Done {
                node: SpecNode::Binary(Box::new(left), op, Box::new(node)),
                rest,
            },
            ParseOut::Fail(msg) => ParseOut::Fail(msg),
        }
    } else if op.kind == TokenKind::Exponent {
        match pratt_expr(m, obp - 1) {
            ParseOut::Done { node, rest } => ParseOut::Done {
                node: SpecNode::Binary(Box::new(left), op, Box::new(node)),
                rest,
            },
            ParseOut::Fail(msg) => ParseOut::Fail(msg),
        }
    } else {
        ParseOut::Fail(pratt_led_msg(op))
    }
}

/// The binding-power loop, as in the full parser.
pub open spec fn pratt_led_loop(left: SpecNode, m: StreamModel, rbp: int) -> ParseOut
    decreases m.toks.len(), 2int,
{
    if m.toks.len() == 0 {
        match m.bad {
            Some(e) => ParseOut::Fail(lex_error_msg(e)),
            None => ParseOut::Done { node: left, rest: m },
        }
    } else {
        let t = m.toks[0];
        if rbp >= spec_bp(t.kind) {
            ParseOut::Done { node: left, rest: m }
        } else {
            match pratt_led(left, t, stream_tail(m), spec_bp(t.kind)) {
                ParseOut::Done { node, rest } => {
                    if rest.toks.len() < m.toks.len() {
                        pratt_led_loop(node, rest, rbp)
                    } else {
                        // never reached: parsing only consumes tokens
                        // (lemma_pratt_led_monotone)
                        ParseOut::Fail(Seq::empty())
                    }
                },
                ParseOut::Fail(msg) => ParseOut::Fail(msg),
            }
        }
    }
}

/// One expression parsed at minimum binding power `rbp`.
pub open spec fn pratt_expr(m: StreamModel, rbp: int) -> ParseOut
    decreases m.toks.len(), 0int,
{
    if m.toks.len() == 0 {
        match m.bad {
            Some(e) => ParseOut::Fail(lex_error_msg(e)),
            None => ParseOut::Fail(eof_msg()),
        }
    } else {
        let t = m.toks[0];
        match pratt_nud(t, stream_tail(m)) {
            ParseOut::Done { node, rest } => {
                if rest.toks.len() < m.toks.len() {
                    pratt_led_loop(node, rest, rbp)
                } else {
                    // never reached: parsing only consumes tokens
                    // (lemma_pratt_nud_monotone)
                    ParseOut::Fail(Seq::empty())
                }
            },
            ParseOut::Fail(msg) => ParseOut::Fail(msg),
        }
    }
}

/// Prefix parsing consumes tokens, never produces them.
pub proof fn lemma_pratt_nud_monotone(t: SpecToken, m: StreamModel)
    ensures
        pratt_nud(t, m) matches ParseOut::Done { node, rest } ==> rest.toks.len() <= m.toks.len(),
    decreases m.toks.len(), 1int,
{
    if t.kind == TokenKind::Plus || t.kind == TokenKind::Minus || t.kind == TokenKind::LParen {
        lemma_pratt_expr_monotone(m, 0);
    }
}

/// Infix parsing consumes at least the right operand.
pub proof fn lemma_pratt_led_monotone(left: SpecNode, op: SpecToken, m: StreamModel, obp: int)
    ensures
        pratt_led(left, op, m, obp) matches ParseOut::Done { node, rest } ==> rest.toks.len()
            < m.toks.len(),
    decreases m.toks.len(), 1int,
{
    if op.kind == TokenKind::Plus || op.kind == TokenKind::Minus || op.kind == TokenKind::Times
        || op.kind == TokenKind::Divide {
        lemma_pratt_expr_monotone(m, obp);
    } else if op.kind == TokenKind::Exponent {
        lemma_pratt_expr_monotone(m, obp - 1);
    }
}

/// The binding-power loop consumes tokens, never produces them.
pub proof fn lemma_pratt_led_loop_monotone(left: SpecNode, m: StreamModel, rbp: int)
    ensures
        pratt_led_loop(left, m, rbp) matches ParseOut::Done { node, rest } ==> rest.toks.len()
            <= m.toks.len(),
    decreases m.toks.len(), 2int,
{
    if m.toks.len() > 0 {
        let t = m.toks[0];
        if rbp < spec_bp(t.kind) {
            lemma_pratt_led_monotone(left, t, stream_tail(m), spec_bp(t.kind));
            match pratt_led(left, t, stream_tail(m), spec_bp(t.kind)) {
                ParseOut::Done { node, rest } => {
                    lemma_pratt_led_loop_monotone(node, rest, rbp);
                },
                ParseOut::Fail(_) => {},
            }
        }
    }
}

/// Parsing an expression consumes at least one token.
pub proof fn lemma_pratt_expr_monotone(m: StreamModel, rbp: int)
    ensures
        pratt_expr(m, rbp) matches ParseOut::Done { node, rest } ==> rest.toks.len()
            < m.toks.len(),
    decreases m.toks.len(), 0int,
{
    if m.toks.len() > 0 {
        let t = m.toks[0];
        lemma_pratt_nud_monotone(t, stream_tail(m));
        match pratt_nud(t, stream_tail(m)) {
            ParseOut::Done { node, rest } => {
                lemma_pratt_led_loop_monotone(node, rest, rbp);
            },
            ParseOut::Fail(_) => {},
        }
    }
}

/// The minimal parser: a lexer and the binding-power climb.
pub struct Pratt<'a> {
    lexer: Lexer<'a>,
}

impl<'a> Pratt<'a> {
    /// The parser's invariant: its lexer's.
    pub closed spec fn wf(self) -> bool {
        self.lexer.wf()
    }

    /// The tokens not yet consumed.
    pub closed spec fn stream(self) -> StreamModel {
        self.lexer.stream()
    }

    /// Wrap a lexer.
    pub fn new(lexer: Lexer<'a>) -> (p: Pratt<'a>)
        ensures
            p.wf() == lexer.wf(),
            p.stream() == lexer.stream(),
    {
        Pratt { lexer }
    }

    /// The binding power of a token; the same table as the full parser's.
    pub fn bp(&self, t: &Token) -> (r: usize)
        ensures
            r as int == spec_bp(t@.kind),
    {
        match t.kind {
            TokenKind::RParen => 0,
            TokenKind::Plus => 10,
            TokenKind::Minus => 10,
            TokenKind::Times => 20,
            TokenKind::Divide => 20,
            TokenKind::Exponent => 30,
            TokenKind::LParen => 40,
            _ => 100,
        }
    }

    /// Whether the stream has ended cleanly: no token and no pending
    /// lexical error ahead.
    fn next_is_eof(&mut self) -> (b: bool)
        requires
            old(self).wf(),
        ensures
            final(self).wf(),
            final(self).stream() == old(self).stream(),
            b == (old(self).stream().toks.len() == 0 && old(self).stream().bad is None),
    {
        match self.lexer.peek() {
            Ok(None) => true,
            _ => false,
        }
    }

    /// Parse the token `t` in prefix position: exactly `pratt_nud`.
    pub fn nud(&mut self, t: &Token, _bp: usize) -> (r: Result<Node, String>)
        requires
            old(self).wf(),
        ensures
            final(self).wf(),
            ({
                match pratt_nud(t@, old(self).stream()) {
                    ParseOut::Done { node, rest } => r matches Ok(n) && n@ == node && final(self).stream() == rest,
                    ParseOut::Fail(m) => r matches Err(msg) && msg@ == m,
                }
            }),
        decreases old(self).stream().toks.len(), 1int,
    {
        match t.kind {
            TokenKind::Number => Ok(Node::Number(Num::Literal(t.value.clone()))),
            TokenKind::Plus | TokenKind::Minus => {
                match self.expr(0) {
                    Ok(right) => Ok(Node::Unary(Box::new(t.clone()), Box::new(right))),
                    Err(e) => Err(e),
                }
            },
            TokenKind::LParen => {
                match self.expr(0) {
                    Err(e) => Err(e),
                    Ok(right) => {
                        match self.lexer.next() {
                            Err(e) => Err(e),
                            Ok(Some(tok2)) => {
                                if tok2.kind == TokenKind::RParen {
                                    Ok(right)
                                } else {
                                    Err(String::from_str("Expected ')'"))
                                }
                            },
                            Ok(None) => Err(String::from_str("Expected ')'")),
                        }
                    },
                }
            },
            _ => {
                let mut s = String::from_str("Unexpected token in NUD context: ");
                s.append(t.value.as_str());
                proof {
                    assert(s@ =~= pratt_nud_msg(t@));
                }
                Err(s)
            },
        }
    }

    /// Combine `left` with the infix operator `op`: exactly `pratt_led`.
    pub fn led(&mut self, left: Node, op: &Token, bp: usize) -> (r: Result<Node, String>)
        requires
            old(self).wf(),
            op@.kind == TokenKind::Exponent ==> 1 <= bp,
        ensures
            final(self).wf(),
            ({
                match pratt_led(left@, op@, old(self).stream(), bp as int) {
                    ParseOut::Done { node, rest } => r matches Ok(n) && n@ == node && final(self).stream() == rest,
                    ParseOut::Fail(m) => r matches Err(msg) && msg@ == m,
                }
            }),
        decreases old(self).stream().toks.len(), 1int,
    {
        match op.kind {
            TokenKind::Plus | TokenKind::Minus | TokenKind::Times | TokenKind::Divide => {
                match self.expr(bp) {
                    Ok(right) => Ok(
                        Node::Binary(Box::new(left), Box::new(op.clone()), Box::new(right)),
                    ),
                    Err(e) => Err(e),
                }
            },
            TokenKind::Exponent => {
                match self.expr(bp - 1) {
                    Ok(right) => Ok(
                        Node::Binary(Box::new(left), Box::new(op.clone()), Box::new(right)),
                    ),
                    Err(e) => Err(e),
                }
            },
            _ => {
                let mut s = String::from_str("Unexpected token in LED context: ");
                s.append(op.value.as_str());
                proof {
                    assert(s@ =~= pratt_led_msg(op@));
                }
                Err(s)
            },
        }
    }

    /// Parse one expression at minimum binding power `rbp`: exactly
    /// `pratt_expr`.
    pub fn expr(&mut self, rbp: usize) -> (r: Result<Node, String>)
        requires
            old(self).wf(),
        ensures
            final(self).wf(),
            ({
                match pratt_expr(old(self).stream(), rbp as int) {
                    ParseOut::Done { node, rest } => r matches Ok(n) && n@ == node && final(self).stream() == rest,
                    ParseOut::Fail(m) => r matches Err(msg) && msg@ == m,
                }
            }),
        decreases old(self).stream().toks.len(), 0int,
    {
        let ghost m0 = self.stream();
        let first = match self.lexer.next() {
            Err(e) => {
                return Err(e);
            },
            Ok(None) => {
                return Err(String::from_str("Unexpected EOF"));
            },
            Ok(Some(t)) => t,
        };
        let first_bp = self.bp(&first);
        proof {
            lemma_pratt_nud_monotone(m0.toks[0], stream_tail(m0));
        }
        let mut left = match self.nud(&first, first_bp) {
            Ok(n) => n,
            Err(e) => {
                return Err(e);
            },
        };
        if self.next_is_eof() {
            return Ok(left);
        }
        loop
            invariant
                self.wf(),
                m0 == old(self).stream(),
                self.stream().toks.len() < m0.toks.len(),
                pratt_expr(m0, rbp as int) == pratt_led_loop(left@, self.stream(), rbp as int),
            ensures
                pratt_expr(m0, rbp as int) == (ParseOut::Done {
                    node: left@,
                    rest: self.stream(),
                }),
            decreases self.stream().toks.len(),
        {
            let ghost cur = self.stream();
            match self.lexer.peek() {
                Err(e) => {
                    return Err(e);
                },
                Ok(None) => {
                    break ;
                },
                Ok(Some(p)) => {
                    if rbp >= self.bp(&p) {
                        break ;
                    }
                },
            }
            let op = match self.lexer.next() {
                Ok(Some(t)) => t,
                _ => unreached(),
            };
            let op_bp = self.bp(&op);
            proof {
                lemma_pratt_led_monotone(left@, op@, stream_tail(cur), op_bp as int);
            }
            left = match self.led(left, &op, op_bp) {
                Ok(n) => n,
                Err(e) => {
                    return Err(e);
                },
            };
        }
        Ok(left)
    }
}

} // verus!
