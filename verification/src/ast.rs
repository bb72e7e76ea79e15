//! Expression trees and their evaluation.
//!
//! A tree is built bottom-up by the parser and consumed once.  Because the
//! library keeps to exact values, evaluation does not produce a machine
//! double directly: `eval` reduces the tree to a straight-line program of
//! stack operations in strict left-to-right, depth-first order, deciding
//! every dispatch (which operator, which named function) and every error
//! along the way.  Running the program over doubles is a mechanical fold
//! that the embedding application performs.

use vstd::prelude::*;
use vstd::string::StrSliceExecFns;
use vstd::string::StringExecFns;

use crate::lexer::SpecToken;
use crate::lexer::Token;
use crate::lexer::TokenKind;

verus! {

/// A numeric leaf: a literal exactly as written in the source, or one of
/// the two named constants.
#[derive(Debug)]
pub enum Num {
    Literal(String),
    Pi,
    E,
}

/// Mathematical image of a numeric leaf.
#[verifier::ext_equal]
pub ghost enum SpecNum {
    Literal(Seq<char>),
    Pi,
    E,
}

impl View for Num {
    type V = SpecNum;

    open spec fn view(&self) -> SpecNum {
        match self {
            Num::Literal(s) => SpecNum::Literal(s@),
            Num::Pi => SpecNum::Pi,
            Num::E => SpecNum::E,
        }
    }
}

/// An expression tree.  Each parent owns its children exclusively; the
/// operator tokens are kept so that error reports can point into the
/// source.
#[derive(Debug)]
pub enum Node {
    Number(Num),
    Unary(Box<Token>, Box<Node>),
    Binary(Box<Node>, Box<Token>, Box<Node>),
    Application(String, Box<Node>),
}

/// Mathematical image of an expression tree.
#[verifier::ext_equal]
pub ghost enum SpecNode {
    Number(SpecNum),
    Unary(SpecToken, Box<SpecNode>),
    Binary(Box<SpecNode>, SpecToken, Box<SpecNode>),
    Application(Seq<char>, Box<SpecNode>),
}

/// Mathematical image of a tree, computed leaf-up.
pub open spec fn node_model(n: Node) -> SpecNode
    decreases n,
{
    match n {
        Node::Number(num) => SpecNode::Number(num@),
        Node::Unary(op, x) => SpecNode::Unary(op@, Box::new(node_model(*x))),
        Node::Binary(l, op, r) => SpecNode::Binary(
            Box::new(node_model(*l)),
            op@,
            Box::new(node_model(*r)),
        ),
        Node::Application(name, arg) => SpecNode::Application(name@, Box::new(node_model(*arg))),
    }
}

impl View for Node {
    type V = SpecNode;

    open spec fn view(&self) -> SpecNode {
        node_model(*self)
    }
}

impl PartialEq for Num {
    fn eq(&self, other: &Num) -> (r: bool) {
        match (self, other) {
            (Num::Literal(a), Num::Literal(b)) => *a == *b,
            (Num::Pi, Num::Pi) => true,
            (Num::E, Num::E) => true,
            _ => false,
        }
    }
}

impl vstd::std_specs::cmp::PartialEqSpecImpl for Num {
    open spec fn obeys_eq_spec() -> bool {
        true
    }

    open spec fn eq_spec(&self, other: &Num) -> bool {
        self@ == other@
    }
}

/// Structural equality of two trees: equal kinds, tokens, names and
/// children throughout.
pub fn node_eq(a: &Node, b: &Node) -> (r: bool)
    ensures
        r == (a@ == b@),
    decreases a,
{
    match (a, b) {
        (Node::Number(x), Node::Number(y)) => x == y,
        (Node::Unary(op1, x1), Node::Unary(op2, x2)) => **op1 == **op2 && node_eq(x1, x2),
        (Node::Binary(l1, op1, r1), Node::Binary(l2, op2, r2)) => node_eq(l1, l2) && **op1
            == **op2 && node_eq(r1, r2),
        (Node::Application(n1, a1), Node::Application(n2, a2)) => *n1 == *n2 && node_eq(a1, a2),
        _ => false,
    }
}

impl PartialEq for Node {
    fn eq(&self, other: &Node) -> (r: bool) {
        node_eq(self, other)
    }
}

impl vstd::std_specs::cmp::PartialEqSpecImpl for Node {
    open spec fn obeys_eq_spec() -> bool {
        true
    }

    open spec fn eq_spec(&self, other: &Node) -> bool {
        self@ == other@
    }
}

/// The single-argument functions the evaluator knows.
#[derive(Clone, Copy, Debug, PartialEq, Eq, Structural)]
pub enum Func {
    Abs,
    Acos,
    Asin,
    Atan,
    Ceil,
    Cos,
    Floor,
    Ln,
    Log,
    Log2,
    Sin,
    Tan,
}

/// One operation of the straight-line program `eval` produces.  `Push`
/// places a number on the stack; `Neg` negates the top; the five binary
/// operations replace the two topmost values, the deeper one being the
/// left operand; `Apply` replaces the top with the named function of it.
#[derive(Debug)]
pub enum Op {
    Push(Num),
    Neg,
    Add,
    Sub,
    Mul,
    Div,
    Pow,
    Apply(Func),
}

/// Mathematical image of one operation.
#[verifier::ext_equal]
pub ghost enum SpecOp {
    Push(SpecNum),
    Neg,
    Add,
    Sub,
    Mul,
    Div,
    Pow,
    Apply(Func),
}

impl View for Op {
    type V = SpecOp;

    open spec fn view(&self) -> SpecOp {
        match self {
            Op::Push(n) => SpecOp::Push(n@),
            Op::Neg => SpecOp::Neg,
            Op::Add => SpecOp::Add,
            Op::Sub => SpecOp::Sub,
            Op::Mul => SpecOp::Mul,
            Op::Div => SpecOp::Div,
            Op::Pow => SpecOp::Pow,
            Op::Apply(f) => SpecOp::Apply(*f),
        }
    }
}

impl DeepView for Op {
    type V = SpecOp;

    open spec fn deep_view(&self) -> SpecOp {
        self.view()
    }
}

impl PartialEq for Op {
    fn eq(&self, other: &Op) -> (r: bool) {
        match (self, other) {
            (Op::Push(a), Op::Push(b)) => a == b,
            (Op::Neg, Op::Neg) => true,
            (Op::Add, Op::Add) => true,
            (Op::Sub, Op::Sub) => true,
            (Op::Mul, Op::Mul) => true,
            (Op::Div, Op::Div) => true,
            (Op::Pow, Op::Pow) => true,
            (Op::Apply(f), Op::Apply(g)) => f == g,
            _ => false,
        }
    }
}

impl vstd::std_specs::cmp::PartialEqSpecImpl for Op {
    open spec fn obeys_eq_spec() -> bool {
        true
    }

    open spec fn eq_spec(&self, other: &Op) -> bool {
        self@ == other@
    }
}

/// What evaluation yields: a program, or an error message.
#[verifier::ext_equal]
pub ghost enum EvalOut {
    Prog(Seq<SpecOp>),
    Fail(Seq<char>),
}

/// The message for an operator token that is no unary operator.
pub open spec fn not_unary_msg() -> Seq<char> {
    "Not a unary operator"@
}

/// The message for an operator token that is no binary operator.
pub open spec fn not_binary_msg() -> Seq<char> {
    "Not a binary operator"@
}

/// The message for a function name the evaluator does not know.
pub open spec fn unknown_function_msg(name: Seq<char>) -> Seq<char> {
    "Unknown function \""@ + name + "\""@
}

/// The stack operation a binary operator token stands for, if any.
pub open spec fn binop_of_kind(k: TokenKind) -> Option<SpecOp> {
    match k {
        TokenKind::Plus => Some(SpecOp::Add),
        TokenKind::Minus => Some(SpecOp::Sub),
        TokenKind::Times => Some(SpecOp::Mul),
        TokenKind::Divide => Some(SpecOp::Div),
        TokenKind::Exponent => Some(SpecOp::Pow),
        _ => None,
    }
}

/// The function a name denotes, if the evaluator knows it.
pub open spec fn func_of_name(name: Seq<char>) -> Option<Func> {
    if name == "abs"@ {
        Some(Func::Abs)
    } else if name == "acos"@ {
        Some(Func::Acos)
    } else if name == "asin"@ {
        Some(Func::Asin)
    } else if name == "atan"@ {
        Some(Func::Atan)
    } else if name == "ceil"@ {
        Some(Func::Ceil)
    } else if name == "cos"@ {
        Some(Func::Cos)
    } else if name == "floor"@ {
        Some(Func::Floor)
    } else if name == "ln"@ {
        Some(Func::Ln)
    } else if name == "log"@ {
        Some(Func::Log)
    } else if name == "log2"@ {
        Some(Func::Log2)
    } else if name == "sin"@ {
        Some(Func::Sin)
    } else if name == "tan"@ {
        Some(Func::Tan)
    } else {
        None
    }
}

/// What evaluating a tree yields: the postorder program of its
/// operations, or the first error found in strict left-to-right,
/// depth-first order.  A unary plus contributes no operation; a unary
/// operator other than plus or minus, or a binary operator token that is
/// none of the five, is an internal error; an unknown function name is a
/// user-facing error, found before its argument is considered.
pub open spec fn spec_eval(n: SpecNode) -> EvalOut
    decreases n,
{
    match n {
        SpecNode::Number(v) => EvalOut::Prog(seq![SpecOp::Push(v)]),
        SpecNode::Unary(op, x) => {
            if op.kind == TokenKind::Minus {
                match spec_eval(*x) {
                    EvalOut::Prog(p) => EvalOut::Prog(p.push(SpecOp::Neg)),
                    EvalOut::Fail(m) => EvalOut::Fail(m),
                }
            } else if op.kind == TokenKind::Plus {
                spec_eval(*x)
            } else {
                EvalOut::Fail(not_unary_msg())
            }
        },
        SpecNode::Binary(l, op, r) => {
            match binop_of_kind(op.kind) {
                Some(o) => match spec_eval(*l) {
                    EvalOut::Prog(pl) => match spec_eval(*r) {
                        EvalOut::Prog(pr) => EvalOut::Prog(pl + pr + seq![o]),
                        EvalOut::Fail(m) => EvalOut::Fail(m),
                    },
                    EvalOut::Fail(m) => EvalOut::Fail(m),
                },
                None => EvalOut::Fail(not_binary_msg()),
            }
        },
        SpecNode::Application(name, arg) => {
            match func_of_name(name) {
                Some(f) => match spec_eval(*arg) {
                    EvalOut::Prog(p) => EvalOut::Prog(p.push(SpecOp::Apply(f))),
                    EvalOut::Fail(m) => EvalOut::Fail(m),
                },
                None => EvalOut::Fail(unknown_function_msg(name)),
            }
        },
    }
}

/// The net change one operation makes to the size of the value stack.
pub open spec fn op_effect(o: SpecOp) -> int {
    match o {
        SpecOp::Push(_) => 1,
        SpecOp::Neg => 0,
        SpecOp::Apply(_) => 0,
        _ => -1,
    }
}

/// How many values one operation pops before pushing its result.
pub open spec fn op_needs(o: SpecOp) -> int {
    match o {
        SpecOp::Push(_) => 0,
        SpecOp::Neg => 1,
        SpecOp::Apply(_) => 1,
        _ => 2,
    }
}

/// The net change a whole program makes to the size of the value stack.
pub open spec fn net_effect(p: Seq<SpecOp>) -> int
    decreases p.len(),
{
    if p.len() == 0 {
        0
    } else {
        op_effect(p[0]) + net_effect(p.drop_first())
    }
}

/// A program runs without underflow from a stack of `depth` values:
/// every operation finds the values it pops.
pub open spec fn runs_from(p: Seq<SpecOp>, depth: int) -> bool
    decreases p.len(),
{
    p.len() == 0 || (depth >= op_needs(p[0]) && runs_from(
        p.drop_first(),
        depth + op_effect(p[0]),
    ))
}

/// The net effect of one program after another is the sum of the two.
proof fn lemma_net_effect_concat(a: Seq<SpecOp>, b: Seq<SpecOp>)
    ensures
        net_effect(a + b) == net_effect(a) + net_effect(b),
    decreases a.len(),
{
    if a.len() == 0 {
        assert(a + b =~= b);
    } else {
        assert((a + b).drop_first() =~= a.drop_first() + b);
        lemma_net_effect_concat(a.drop_first(), b);
    }
}

/// Two programs in sequence run exactly when the first runs and the
/// second runs from the depth the first leaves behind.
proof fn lemma_runs_from_concat(a: Seq<SpecOp>, b: Seq<SpecOp>, depth: int)
    ensures
        runs_from(a + b, depth) == (runs_from(a, depth) && runs_from(b, depth + net_effect(a))),
    decreases a.len(),
{
    if a.len() == 0 {
        assert(a + b =~= b);
    } else {
        assert((a + b).drop_first() =~= a.drop_first() + b);
        lemma_runs_from_concat(a.drop_first(), b, depth + op_effect(a[0]));
    }
}

/// A one-operation program needs what its operation pops and changes
/// the depth by its effect.
proof fn lemma_single_op(o: SpecOp, depth: int)
    ensures
        net_effect(seq![o]) == op_effect(o),
        runs_from(seq![o], depth) == (depth >= op_needs(o)),
{
    let p = seq![o];
    assert(p.len() == 1);
    assert(p[0] == o);
    assert(p.drop_first() =~= Seq::<SpecOp>::empty());
    assert(net_effect(p.drop_first()) == 0);
    assert(runs_from(p.drop_first(), depth + op_effect(o)));
    assert(net_effect(p) == op_effect(o) + net_effect(p.drop_first()));
    assert(runs_from(p, depth) == (depth >= op_needs(o) && runs_from(
        p.drop_first(),
        depth + op_effect(o),
    )));
}

/// Law: the program of a successfully evaluated tree is stack-safe.
/// Folded over a value stack of any starting depth, it never pops a
/// value that is not there, and it leaves exactly one more value than it
/// found: the lone result the embedder takes.
pub proof fn lemma_eval_program_balanced(n: SpecNode, depth: int)
    requires
        spec_eval(n) is Prog,
        depth >= 0,
    ensures
        runs_from(spec_eval(n)->Prog_0, depth),
        net_effect(spec_eval(n)->Prog_0) == 1,
    decreases n,
{
    match n {
        SpecNode::Number(v) => {
            lemma_single_op(SpecOp::Push(v), depth);
        },
        SpecNode::Unary(op, x) => {
            lemma_eval_program_balanced(*x, depth);
            if op.kind == TokenKind::Minus {
                let q = spec_eval(*x)->Prog_0;
                assert(q.push(SpecOp::Neg) =~= q + seq![SpecOp::Neg]);
                lemma_net_effect_concat(q, seq![SpecOp::Neg]);
                lemma_runs_from_concat(q, seq![SpecOp::Neg], depth);
                lemma_single_op(SpecOp::Neg, depth + 1);
            }
        },
        SpecNode::Binary(l, op, r) => {
            let o = binop_of_kind(op.kind)->0;
            lemma_eval_program_balanced(*l, depth);
            lemma_eval_program_balanced(*r, depth + 1);
            let pl = spec_eval(*l)->Prog_0;
            let pr = spec_eval(*r)->Prog_0;
            lemma_net_effect_concat(pl, pr);
            lemma_runs_from_concat(pl, pr, depth);
            lemma_net_effect_concat(pl + pr, seq![o]);
            lemma_runs_from_concat(pl + pr, seq![o], depth);
            lemma_single_op(o, depth + 2);
        },
        SpecNode::Application(name, arg) => {
            lemma_eval_program_balanced(*arg, depth);
            let f = func_of_name(name)->0;
            let q = spec_eval(*arg)->Prog_0;
            assert(q.push(SpecOp::Apply(f)) =~= q + seq![SpecOp::Apply(f)]);
            lemma_net_effect_concat(q, seq![SpecOp::Apply(f)]);
            lemma_runs_from_concat(q, seq![SpecOp::Apply(f)], depth);
            lemma_single_op(SpecOp::Apply(f), depth + 1);
        },
    }
}

/// Character-for-character equality of two string slices.
pub fn str_eq(a: &str, b: &str) -> (r: bool)
    ensures
        r == (a@ == b@),
{
    let la = a.unicode_len();
    let lb = b.unicode_len();
    if la != lb {
        proof {
            assert(a@ != b@);
        }
        return false;
    }
    let mut i: usize = 0;
    while i < la
        invariant
            la == a@.len(),
            la == b@.len(),
            i <= la,
            forall|j: int| 0 <= j < i ==> a@[j] == b@[j],
        decreases la - i,
    {
        if a.get_char(i) != b.get_char(i) {
            return false;
        }
        i = i + 1;
    }
    proof {
        assert(a@ =~= b@);
    }
    true
}

/// The function a name denotes, executably.
fn func_for(name: &str) -> (r: Option<Func>)
    ensures
        r == func_of_name(name@),
{
    if str_eq(name, "abs") {
        Some(Func::Abs)
    } else if str_eq(name, "acos") {
        Some(Func::Acos)
    } else if str_eq(name, "asin") {
        Some(Func::Asin)
    } else if str_eq(name, "atan") {
        Some(Func::Atan)
    } else if str_eq(name, "ceil") {
        Some(Func::Ceil)
    } else if str_eq(name, "cos") {
        Some(Func::Cos)
    } else if str_eq(name, "floor") {
        Some(Func::Floor)
    } else if str_eq(name, "ln") {
        Some(Func::Ln)
    } else if str_eq(name, "log") {
        Some(Func::Log)
    } else if str_eq(name, "log2") {
        Some(Func::Log2)
    } else if str_eq(name, "sin") {
        Some(Func::Sin)
    } else if str_eq(name, "tan") {
        Some(Func::Tan)
    } else {
        None
    }
}

/// Reduce a tree to its straight-line program, or to the first error:
/// exactly `spec_eval` of the tree.
pub fn eval(node: Node) -> (r: Result<Vec<Op>, String>)
    ensures
        ({
            match spec_eval(node@) {
                EvalOut::Prog(p) => r matches Ok(v) && v.deep_view() == p,
                EvalOut::Fail(m) => r matches Err(msg) && msg@ == m,
            }
        }),
    decreases node,
{
    let ghost g = node@;
    match node {
        Node::Number(n) => {
            let ghost nv = n@;
            let mut v: Vec<Op> = Vec::new();
            v.push(Op::Push(n));
            proof {
                assert(v.deep_view() =~= seq![SpecOp::Push(nv)]);
            }
            Ok(v)
        },
        Node::Unary(op, x) => {
            if op.kind == TokenKind::Minus {
                match eval(*x) {
                    Ok(mut p) => {
                        let ghost pv = p.deep_view();
                        p.push(Op::Neg);
                        proof {
                            assert(p.deep_view() =~= pv.push(SpecOp::Neg));
                        }
                        Ok(p)
                    },
                    Err(m) => Err(m),
                }
            } else if op.kind == TokenKind::Plus {
                eval(*x)
            } else {
                Err(String::from_str("Not a unary operator"))
            }
        },
        Node::Binary(l, op, r2) => {
            let o: Option<Op> = match op.kind {
                TokenKind::Plus => Some(Op::Add),
                TokenKind::Minus => Some(Op::Sub),
                TokenKind::Times => Some(Op::Mul),
                TokenKind::Divide => Some(Op::Div),
                TokenKind::Exponent => Some(Op::Pow),
                _ => None,
            };
            match o {
                None => Err(String::from_str("Not a binary operator")),
                Some(b) => match eval(*l) {
                    Err(m) => Err(m),
                    Ok(mut pl) => match eval(*r2) {
                        Err(m) => Err(m),
                        Ok(mut pr) => {
                            let ghost plv = pl.deep_view();
                            let ghost prv = pr.deep_view();
                            let ghost bv = b@;
                            pl.append(&mut pr);
                            pl.push(b);
                            proof {
                                assert(pl.deep_view() =~= plv + prv + seq![bv]);
                            }
                            Ok(pl)
                        },
                    },
                },
            }
        },
        Node::Application(name, arg) => {
            match func_for(name.as_str()) {
                Some(f) => match eval(*arg) {
                    Err(m) => Err(m),
                    Ok(mut p) => {
                        let ghost pv = p.deep_view();
                        p.push(Op::Apply(f));
                        proof {
                            assert(p.deep_view() =~= pv.push(SpecOp::Apply(f)));
                        }
                        Ok(p)
                    },
                },
                None => {
                    let mut s = String::from_str("Unknown function \"");
                    s.append(name.as_str());
                    s.append("\"");
                    proof {
                        assert(s@ =~= unknown_function_msg(name@));
                    }
                    Err(s)
                },
            }
        },
    }
}

} // verus!
