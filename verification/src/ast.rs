//! The parser: builds a syntax tree from the token sequence under a
//! fixed operator-precedence grammar.
//!
//! ```text
//! program := func stmt*
//! func    := FUNCCALL stmt?  |  stmt
//! stmt    := RETURN expr  |  FUNCCALL stmt?  |  expr ';'*
//! expr    := assign
//! assign  := add ('=' assign)?
//! add     := mul (('+'|'-') mul)*
//! mul     := unary (('*'|'/') unary)*
//! unary   := ('+'|'-')? primary
//! primary := '(' expr ')' | '$' '(' stmt ')' | '$' word
//!          | '"' any* '"' | '\'' any* '\'' | word | number
//! ```

use vstd::prelude::*;
use vstd::string::StringExecFns;
use crate::logger::{LoggerRepository, LoggerInteractor, DefaultLoggerRepository};
use crate::token::{Tokenizer, TokenView, tok_text, at2};
use crate::interpreter::InterpreterError;

verus! {

/// What a syntax-tree node is.
#[derive(Debug, PartialEq)]
pub enum AbstractSyntaxTreeKind {
    ADD,
    SUB,
    MUL,
    DIV,
    ASSIGN,
    LOCALVARIABLE(String),
    NUM(i32),
    STRING(String),
    FUNC(String),
    RETURN,
}

/// A node and its ordered children. Arity follows from the kind: the
/// four operators and assignment have two children, `return` one, a
/// function call none or one, leaves none; the evaluator checks this
/// rather than the type enforcing it.
#[derive(Debug, PartialEq)]
pub struct AbstractSyntaxTreeNode(pub AbstractSyntaxTreeKind, pub Vec<AbstractSyntaxTreeNode>);

/// The mathematical image of a node kind.
pub enum AstKindView {
    Add,
    Sub,
    Mul,
    Div,
    Assign,
    LocalVariable(Seq<char>),
    Num(i32),
    Text(Seq<char>),
    Func(Seq<char>),
    Return,
}

/// The mathematical image of a tree.
pub struct AstView {
    pub kind: AstKindView,
    pub children: Seq<AstView>,
}

pub open spec fn kind_v(k: AbstractSyntaxTreeKind) -> AstKindView {
    match k {
        AbstractSyntaxTreeKind::ADD => AstKindView::Add,
        AbstractSyntaxTreeKind::SUB => AstKindView::Sub,
        AbstractSyntaxTreeKind::MUL => AstKindView::Mul,
        AbstractSyntaxTreeKind::DIV => AstKindView::Div,
        AbstractSyntaxTreeKind::ASSIGN => AstKindView::Assign,
        AbstractSyntaxTreeKind::LOCALVARIABLE(s) => AstKindView::LocalVariable(s@),
        AbstractSyntaxTreeKind::NUM(x) => AstKindView::Num(x),
        AbstractSyntaxTreeKind::STRING(s) => AstKindView::Text(s@),
        AbstractSyntaxTreeKind::FUNC(s) => AstKindView::Func(s@),
        AbstractSyntaxTreeKind::RETURN => AstKindView::Return,
    }
}

pub open spec fn ast_v(n: AbstractSyntaxTreeNode) -> AstView
    decreases n,
{
    AstView { kind: kind_v(n.0), children: nodes_v(n.1@) }
}

/// The images of a sequence of trees.
pub open spec fn nodes_v(s: Seq<AbstractSyntaxTreeNode>) -> Seq<AstView>
    decreases s,
{
    if s.len() == 0 {
        Seq::empty()
    } else {
        seq![ast_v(s[0])] + nodes_v(s.subrange(1, s.len() as int))
    }
}

pub proof fn lemma_nodes_v(s: Seq<AbstractSyntaxTreeNode>)
    ensures
        nodes_v(s) == s.map_values(|n: AbstractSyntaxTreeNode| ast_v(n)),
    decreases s.len(),
{
    if s.len() == 0 {
        assert(nodes_v(s) =~= s.map_values(|n: AbstractSyntaxTreeNode| ast_v(n)));
    } else {
        let t = s.subrange(1, s.len() as int);
        lemma_nodes_v(t);
        assert(nodes_v(s) =~= s.map_values(|n: AbstractSyntaxTreeNode| ast_v(n))) by {
            assert forall|i: int| 0 <= i < s.len() implies nodes_v(s)[i] == ast_v(s[i]) by {
                if i > 0 {
                    assert(nodes_v(s)[i] == nodes_v(t)[i - 1]);
                    assert(t[i - 1] == s[i]);
                }
            }
        }
    }
}

impl View for AbstractSyntaxTreeNode {
    type V = AstView;

    open spec fn view(&self) -> AstView {
        ast_v(*self)
    }
}

pub open spec fn av_leaf(k: AstKindView) -> AstView {
    AstView { kind: k, children: Seq::empty() }
}

pub open spec fn av_un(k: AstKindView, c: AstView) -> AstView {
    AstView { kind: k, children: seq![c] }
}

pub open spec fn av_bin(k: AstKindView, l: AstView, r: AstView) -> AstView {
    AstView { kind: k, children: seq![l, r] }
}

impl AbstractSyntaxTreeNode {
    /// A binary node.
    pub fn create(
        kind: AbstractSyntaxTreeKind,
        lhs: AbstractSyntaxTreeNode,
        rhs: AbstractSyntaxTreeNode,
    ) -> (n: AbstractSyntaxTreeNode)
        ensures
            n@ == av_bin(kind_v(kind), lhs@, rhs@),
    {
        let ghost lv = ast_v(lhs);
        let ghost rv = ast_v(rhs);
        let mut children: Vec<AbstractSyntaxTreeNode> = Vec::new();
        children.push(lhs);
        children.push(rhs);
        let n = AbstractSyntaxTreeNode(kind, children);
        proof {
            lemma_nodes_v(n.1@);
            assert(n.1@.map_values(|c: AbstractSyntaxTreeNode| ast_v(c)) =~= seq![lv, rv]);
        }
        n
    }

    /// A number leaf.
    pub fn num(value: i32) -> (n: AbstractSyntaxTreeNode)
        ensures
            n@ == av_leaf(AstKindView::Num(value)),
    {
        let n = AbstractSyntaxTreeNode(AbstractSyntaxTreeKind::NUM(value), Vec::new());
        proof {
            lemma_nodes_v(n.1@);
            assert(n.1@.map_values(|c: AbstractSyntaxTreeNode| ast_v(c)) =~= Seq::<
                AstView,
            >::empty());
        }
        n
    }

    /// A string leaf.
    pub fn string(value: String) -> (n: AbstractSyntaxTreeNode)
        ensures
            n@ == av_leaf(AstKindView::Text(value@)),
    {
        let n = AbstractSyntaxTreeNode(AbstractSyntaxTreeKind::STRING(value), Vec::new());
        proof {
            lemma_nodes_v(n.1@);
            assert(n.1@.map_values(|c: AbstractSyntaxTreeNode| ast_v(c)) =~= Seq::<
                AstView,
            >::empty());
        }
        n
    }

    /// A call node with one argument.
    pub fn func(value: String, rhs: AbstractSyntaxTreeNode) -> (n: AbstractSyntaxTreeNode)
        ensures
            n@ == av_un(AstKindView::Func(value@), rhs@),
    {
        let ghost rv = ast_v(rhs);
        let mut children: Vec<AbstractSyntaxTreeNode> = Vec::new();
        children.push(rhs);
        let n = AbstractSyntaxTreeNode(AbstractSyntaxTreeKind::FUNC(value), children);
        proof {
            lemma_nodes_v(n.1@);
            assert(n.1@.map_values(|c: AbstractSyntaxTreeNode| ast_v(c)) =~= seq![rv]);
        }
        n
    }

    /// A call node without an argument.
    pub fn func_no_arg(value: String) -> (n: AbstractSyntaxTreeNode)
        ensures
            n@ == av_leaf(AstKindView::Func(value@)),
    {
        let n = AbstractSyntaxTreeNode(AbstractSyntaxTreeKind::FUNC(value), Vec::new());
        proof {
            lemma_nodes_v(n.1@);
            assert(n.1@.map_values(|c: AbstractSyntaxTreeNode| ast_v(c)) =~= Seq::<
                AstView,
            >::empty());
        }
        n
    }

    /// A variable-reference leaf.
    pub fn variable(value: String) -> (n: AbstractSyntaxTreeNode)
        ensures
            n@ == av_leaf(AstKindView::LocalVariable(value@)),
    {
        let n = AbstractSyntaxTreeNode(AbstractSyntaxTreeKind::LOCALVARIABLE(value), Vec::new());
        proof {
            lemma_nodes_v(n.1@);
            assert(n.1@.map_values(|c: AbstractSyntaxTreeNode| ast_v(c)) =~= Seq::<
                AstView,
            >::empty());
        }
        n
    }

    /// A `return` node.
    pub fn return_node(rhs: AbstractSyntaxTreeNode) -> (n: AbstractSyntaxTreeNode)
        ensures
            n@ == av_un(AstKindView::Return, rhs@),
    {
        let ghost rv = ast_v(rhs);
        let mut children: Vec<AbstractSyntaxTreeNode> = Vec::new();
        children.push(rhs);
        let n = AbstractSyntaxTreeNode(AbstractSyntaxTreeKind::RETURN, children);
        proof {
            lemma_nodes_v(n.1@);
            assert(n.1@.map_values(|c: AbstractSyntaxTreeNode| ast_v(c)) =~= seq![rv]);
        }
        n
    }
}

/// Whether the token at `pos` is the reserved symbol `op`.
pub open spec fn is_res_at(toks: Seq<TokenView>, pos: int, op: char) -> bool {
    at2(toks, pos) matches TokenView::Reserved(s) && s == seq![op]
}

/// The views of the one-symbol string literals, as character sequences.
pub proof fn lemma_op_literals()
    ensures
        "+"@ == seq!['+'],
        "-"@ == seq!['-'],
        "*"@ == seq!['*'],
        "/"@ == seq!['/'],
        "("@ == seq!['('],
        ")"@ == seq![')'],
        "="@ == seq!['='],
        ";"@ == seq![';'],
        "$"@ == seq!['$'],
        "\""@ == seq!['"'],
        "'"@ == seq!['\''],
{
    reveal_strlit("+");
    reveal_strlit("-");
    reveal_strlit("*");
    reveal_strlit("/");
    reveal_strlit("(");
    reveal_strlit(")");
    reveal_strlit("=");
    reveal_strlit(";");
    reveal_strlit("$");
    reveal_strlit("\"");
    reveal_strlit("'");
    assert("+"@ =~= seq!['+']);
    assert("-"@ =~= seq!['-']);
    assert("*"@ =~= seq!['*']);
    assert("/"@ =~= seq!['/']);
    assert("("@ =~= seq!['(']);
    assert(")"@ =~= seq![')']);
    assert("="@ =~= seq!['=']);
    assert(";"@ =~= seq![';']);
    assert("$"@ =~= seq!['$']);
    assert("\""@ =~= seq!['"']);
    assert("'"@ =~= seq!['\'']);
}

/// Clamps a parser position into `[lo, hi]`; parsing functions only
/// ever yield positions in that range, so the clamp changes nothing and
/// only carries the bound.
pub open spec fn nxt(lo: int, p: int, hi: int) -> int {
    if lo <= p <= hi {
        p
    } else {
        hi
    }
}

/// `primary := '(' expr ')' | '$' '(' stmt ')' | '$' word | quoted | word | number`
///
/// An empty parenthesized expression and a `(` whose `)` never comes
/// are structurally malformed; a token that can start no primary is
/// merely unexpected.
pub open spec fn sp_primary(toks: Seq<TokenView>, pos: int) -> (Result<
    AstView,
    InterpreterError,
>, int)
    decreases toks.len() - pos, 3int,
{
    let len = toks.len() as int;
    if !(0 <= pos <= len) {
        (Err(InterpreterError::Unknown), pos)
    } else if is_res_at(toks, pos, '$') {
        if is_res_at(toks, pos + 1, '(') {
            let (r, p0) = sp_func(toks, pos + 2);
            let p = nxt(pos + 2, p0, len);
            if is_res_at(toks, p, ')') {
                (r, p + 1)
            } else {
                (Err(InterpreterError::SyntaxError), p)
            }
        } else {
            match at2(toks, pos + 1) {
                TokenView::Text(s) => (Ok(av_leaf(AstKindView::LocalVariable(s))), pos + 2),
                _ => (Err(InterpreterError::SyntaxError), pos + 1),
            }
        }
    } else if is_res_at(toks, pos, '(') {
        if is_res_at(toks, pos + 1, ')') {
            (Err(InterpreterError::SyntaxError), pos + 2)
        } else {
            let (r, p0) = sp_expr(toks, pos + 1);
            let p = nxt(pos + 1, p0, len);
            if is_res_at(toks, p, ')') {
                (r, p + 1)
            } else {
                (Err(InterpreterError::SyntaxError), p)
            }
        }
    } else if is_res_at(toks, pos, '"') {
        let (r, p) = sp_quote(toks, pos + 1, '"');
        match r {
            Ok(s) => (Ok(av_leaf(AstKindView::Text(s))), p),
            Err(e) => (Err(e), p),
        }
    } else if is_res_at(toks, pos, '\'') {
        let (r, p) = sp_quote(toks, pos + 1, '\'');
        match r {
            Ok(s) => (Ok(av_leaf(AstKindView::Text(s))), p),
            Err(e) => (Err(e), p),
        }
    } else {
        match at2(toks, pos) {
            TokenView::Text(s) => (Ok(av_leaf(AstKindView::Text(s))), pos + 1),
            TokenView::Num(x) => (Ok(av_leaf(AstKindView::Num(x))), pos + 1),
            _ => (Err(InterpreterError::Unexpected), pos),
        }
    }
}

/// The raw text between a quote and its closing mate, token texts
/// concatenated; an unclosed quote is malformed.
pub open spec fn sp_quote(toks: Seq<TokenView>, pos: int, q: char) -> (Result<
    Seq<char>,
    InterpreterError,
>, int)
    decreases toks.len() - pos, 0int,
{
    let len = toks.len() as int;
    if !(0 <= pos <= len) {
        (Err(InterpreterError::Unknown), pos)
    } else if is_res_at(toks, pos, q) {
        (Ok(Seq::empty()), pos + 1)
    } else if at2(toks, pos) is Eof {
        (Err(InterpreterError::SyntaxError), pos)
    } else {
        let t = tok_text(at2(toks, pos));
        let (r, p) = sp_quote(toks, pos + 1, q);
        match r {
            Ok(s) => (Ok(t + s), p),
            Err(e) => (Err(e), p),
        }
    }
}

/// `unary := ('+'|'-')? primary`, a leading minus read as `0 - primary`.
pub open spec fn sp_unary(toks: Seq<TokenView>, pos: int) -> (Result<AstView, InterpreterError>, int)
    decreases toks.len() - pos, 4int,
{
    let len = toks.len() as int;
    if !(0 <= pos <= len) {
        (Err(InterpreterError::Unknown), pos)
    } else if is_res_at(toks, pos, '+') {
        sp_primary(toks, pos + 1)
    } else if is_res_at(toks, pos, '-') {
        let (r, p) = sp_primary(toks, pos + 1);
        match r {
            Ok(n) => (Ok(av_bin(AstKindView::Sub, av_leaf(AstKindView::Num(0)), n)), p),
            Err(e) => (Err(e), p),
        }
    } else {
        sp_primary(toks, pos)
    }
}

/// The `(('*'|'/') unary)*` tail, folded left onto `acc`.
pub open spec fn sp_mul_more(toks: Seq<TokenView>, acc: AstView, pos: int) -> (Result<
    AstView,
    InterpreterError,
>, int)
    decreases toks.len() - pos, 5int,
{
    let len = toks.len() as int;
    if !(0 <= pos <= len) {
        (Err(InterpreterError::Unknown), pos)
    } else if is_res_at(toks, pos, '*') {
        let (r, q0) = sp_unary(toks, pos + 1);
        let q = nxt(pos + 1, q0, len);
        match r {
            Ok(m) => sp_mul_more(toks, av_bin(AstKindView::Mul, acc, m), q),
            Err(e) => (Err(e), q),
        }
    } else if is_res_at(toks, pos, '/') {
        let (r, q0) = sp_unary(toks, pos + 1);
        let q = nxt(pos + 1, q0, len);
        match r {
            Ok(m) => sp_mul_more(toks, av_bin(AstKindView::Div, acc, m), q),
            Err(e) => (Err(e), q),
        }
    } else {
        (Ok(acc), pos)
    }
}

/// `mul := unary (('*'|'/') unary)*`, left associative.
pub open spec fn sp_mul(toks: Seq<TokenView>, pos: int) -> (Result<AstView, InterpreterError>, int)
    decreases toks.len() - pos, 6int,
{
    let len = toks.len() as int;
    if !(0 <= pos <= len) {
        (Err(InterpreterError::Unknown), pos)
    } else {
        let (r, p0) = sp_unary(toks, pos);
        let p = nxt(pos, p0, len);
        match r {
            Ok(n) => sp_mul_more(toks, n, p),
            Err(e) => (Err(e), p),
        }
    }
}

/// The `(('+'|'-') mul)*` tail, folded left onto `acc`.
pub open spec fn sp_add_more(toks: Seq<TokenView>, acc: AstView, pos: int) -> (Result<
    AstView,
    InterpreterError,
>, int)
    decreases toks.len() - pos, 7int,
{
    let len = toks.len() as int;
    if !(0 <= pos <= len) {
        (Err(InterpreterError::Unknown), pos)
    } else if is_res_at(toks, pos, '+') {
        let (r, q0) = sp_mul(toks, pos + 1);
        let q = nxt(pos + 1, q0, len);
        match r {
            Ok(m) => sp_add_more(toks, av_bin(AstKindView::Add, acc, m), q),
            Err(e) => (Err(e), q),
        }
    } else if is_res_at(toks, pos, '-') {
        let (r, q0) = sp_mul(toks, pos + 1);
        let q = nxt(pos + 1, q0, len);
        match r {
            Ok(m) => sp_add_more(toks, av_bin(AstKindView::Sub, acc, m), q),
            Err(e) => (Err(e), q),
        }
    } else {
        (Ok(acc), pos)
    }
}

/// `add := mul (('+'|'-') mul)*`, left associative.
pub open spec fn sp_add(toks: Seq<TokenView>, pos: int) -> (Result<AstView, InterpreterError>, int)
    decreases toks.len() - pos, 8int,
{
    let len = toks.len() as int;
    if !(0 <= pos <= len) {
        (Err(InterpreterError::Unknown), pos)
    } else {
        let (r, p0) = sp_mul(toks, pos);
        let p = nxt(pos, p0, len);
        match r {
            Ok(n) => sp_add_more(toks, n, p),
            Err(e) => (Err(e), p),
        }
    }
}

/// `assign := add ('=' assign)?`, right associative.
pub open spec fn sp_assign(toks: Seq<TokenView>, pos: int) -> (Result<
    AstView,
    InterpreterError,
>, int)
    decreases toks.len() - pos, 9int,
{
    let len = toks.len() as int;
    if !(0 <= pos <= len) {
        (Err(InterpreterError::Unknown), pos)
    } else {
        let (r, p0) = sp_add(toks, pos);
        let p = nxt(pos, p0, len);
        match r {
            Ok(n) => if is_res_at(toks, p, '=') {
                let (r2, q0) = sp_assign(toks, p + 1);
                let q = nxt(p + 1, q0, len);
                match r2 {
                    Ok(m) => (Ok(av_bin(AstKindView::Assign, n, m)), q),
                    Err(e) => (Err(e), q),
                }
            } else {
                (Ok(n), p)
            },
            Err(e) => (Err(e), p),
        }
    }
}

/// `expr := assign`
pub open spec fn sp_expr(toks: Seq<TokenView>, pos: int) -> (Result<AstView, InterpreterError>, int)
    decreases toks.len() - pos, 10int,
{
    let len = toks.len() as int;
    if !(0 <= pos <= len) {
        (Err(InterpreterError::Unknown), pos)
    } else {
        sp_assign(toks, pos)
    }
}

/// The position after a run of `;` tokens.
pub open spec fn sp_semis(toks: Seq<TokenView>, pos: int) -> int
    decreases toks.len() - pos, 0int,
{
    let len = toks.len() as int;
    if !(0 <= pos <= len) {
        pos
    } else if is_res_at(toks, pos, ';') {
        sp_semis(toks, pos + 1)
    } else {
        pos
    }
}

/// A statement before its trailing semicolons.
pub open spec fn sp_stmt_core(toks: Seq<TokenView>, pos: int) -> (Result<
    AstView,
    InterpreterError,
>, int)
    decreases toks.len() - pos, 11int,
{
    let len = toks.len() as int;
    if !(0 <= pos <= len) {
        (Err(InterpreterError::Unknown), pos)
    } else if at2(toks, pos) is Return {
        let (r, p0) = sp_expr(toks, pos + 1);
        let p = nxt(pos + 1, p0, len);
        match r {
            Ok(n) => (Ok(av_un(AstKindView::Return, n)), p),
            Err(e) => (Err(e), p),
        }
    } else {
        match at2(toks, pos) {
            TokenView::Funccall(f) => {
                if at2(toks, pos + 1) is Eof {
                    (Ok(av_leaf(AstKindView::Func(f))), pos + 1)
                } else if is_res_at(toks, pos + 1, ';') {
                    (Ok(av_leaf(AstKindView::Func(f))), pos + 2)
                } else {
                    let (r, q0) = sp_stmt(toks, pos + 1);
                    let q = nxt(pos + 1, q0, len);
                    match r {
                        Ok(n) => (Ok(av_un(AstKindView::Func(f), n)), q),
                        Err(e) => (Err(e), q),
                    }
                }
            },
            _ => sp_expr(toks, pos),
        }
    }
}

/// `stmt := RETURN expr | FUNCCALL stmt? | expr`, then any `;`s.
pub open spec fn sp_stmt(toks: Seq<TokenView>, pos: int) -> (Result<AstView, InterpreterError>, int)
    decreases toks.len() - pos, 12int,
{
    let len = toks.len() as int;
    if !(0 <= pos <= len) {
        (Err(InterpreterError::Unknown), pos)
    } else {
        let (r, p0) = sp_stmt_core(toks, pos);
        let p = nxt(pos, p0, len);
        match r {
            Ok(n) => (Ok(n), sp_semis(toks, p)),
            Err(e) => (Err(e), p),
        }
    }
}

/// `func := FUNCCALL stmt? | stmt`
pub open spec fn sp_func(toks: Seq<TokenView>, pos: int) -> (Result<AstView, InterpreterError>, int)
    decreases toks.len() - pos, 13int,
{
    let len = toks.len() as int;
    if !(0 <= pos <= len) {
        (Err(InterpreterError::Unknown), pos)
    } else {
        match at2(toks, pos) {
            TokenView::Funccall(f) => {
                if at2(toks, pos + 1) is Eof {
                    (Ok(av_leaf(AstKindView::Func(f))), pos + 1)
                } else if is_res_at(toks, pos + 1, ';') {
                    (Ok(av_leaf(AstKindView::Func(f))), pos + 2)
                } else {
                    let (r, q0) = sp_stmt(toks, pos + 1);
                    let q = nxt(pos + 1, q0, len);
                    match r {
                        Ok(n) => (Ok(av_un(AstKindView::Func(f), n)), q),
                        Err(e) => (Err(e), q),
                    }
                }
            },
            _ => sp_stmt(toks, pos),
        }
    }
}

/// The `stmt*` tail of a program, one tree per statement.
pub open spec fn sp_stmts(toks: Seq<TokenView>, pos: int) -> (Result<
    Seq<AstView>,
    InterpreterError,
>, int)
    decreases toks.len() - pos, 14int,
{
    let len = toks.len() as int;
    if !(0 <= pos <= len) {
        (Err(InterpreterError::Unknown), pos)
    } else if at2(toks, pos) is Eof {
        (Ok(Seq::empty()), pos)
    } else {
        let (r, p0) = sp_stmt(toks, pos);
        let p = if pos < p0 <= len {
            p0
        } else {
            len
        };
        match r {
            Ok(n) => {
                let (r2, q) = sp_stmts(toks, p);
                match r2 {
                    Ok(rest) => (Ok(seq![n] + rest), q),
                    Err(e) => (Err(e), q),
                }
            },
            Err(e) => (Err(e), p),
        }
    }
}

/// What parsing from `pos` on yields: the leading function call or
/// statement, then one tree per further statement. An empty line is a
/// structurally malformed program.
pub open spec fn sp_program(toks: Seq<TokenView>, pos: int) -> Result<Seq<AstView>, InterpreterError> {
    let len = toks.len() as int;
    if at2(toks, pos) is Eof {
        Err(InterpreterError::SyntaxError)
    } else {
        let (r, p0) = sp_func(toks, pos);
        let p = nxt(pos, p0, len);
        match r {
            Ok(n) => {
                let (r2, _q) = sp_stmts(toks, p);
                match r2 {
                    Ok(rest) => Ok(seq![n] + rest),
                    Err(e) => Err(e),
                }
            },
            Err(e) => Err(e),
        }
    }
}

/// The parser: owns the tokenizer whose cursor it advances.
#[derive(Debug)]
pub struct AstBuilder<T> where T: LoggerRepository + Clone {
    tokenizer: Tokenizer<T>,
    logger: LoggerInteractor<T>,
}

impl AstBuilder<DefaultLoggerRepository> {
    pub fn init(tokenizer: Tokenizer<DefaultLoggerRepository>) -> (b: AstBuilder<
        DefaultLoggerRepository,
    >)
        ensures
            b.toks() == tokenizer.toks(),
            b.at() == tokenizer.at(),
            b.src() == tokenizer.src(),
            b.wf() == tokenizer.wf(),
    {
        AstBuilder::init_with_logger(tokenizer, DefaultLoggerRepository {  })
    }
}

impl<T: LoggerRepository + Clone> AstBuilder<T> {
    /// The tokens being parsed.
    pub closed spec fn toks(&self) -> Seq<TokenView> {
        self.tokenizer.toks()
    }

    /// The cursor position.
    pub closed spec fn at(&self) -> int {
        self.tokenizer.at()
    }

    /// The source text the tokens came from.
    pub closed spec fn src(&self) -> Seq<char> {
        self.tokenizer.src()
    }

    pub closed spec fn wf(&self) -> bool {
        self.tokenizer.wf()
    }

    fn new(tokenizer: Tokenizer<T>, logger: T) -> (b: AstBuilder<T>)
        ensures
            b.toks() == tokenizer.toks(),
            b.at() == tokenizer.at(),
            b.src() == tokenizer.src(),
            b.wf() == tokenizer.wf(),
    {
        AstBuilder { tokenizer, logger: LoggerInteractor::new(logger) }
    }

    pub fn init_with_logger(tokenizer: Tokenizer<T>, logger: T) -> (b: AstBuilder<T>)
        ensures
            b.toks() == tokenizer.toks(),
            b.at() == tokenizer.at(),
            b.src() == tokenizer.src(),
            b.wf() == tokenizer.wf(),
    {
        AstBuilder::new(tokenizer, logger)
    }

    /// Parses the whole token sequence into the program's trees.
    pub fn build(&mut self) -> (r: Result<Vec<AbstractSyntaxTreeNode>, InterpreterError>)
        requires
            old(self).wf(),
        ensures
            final(self).wf(),
            final(self).toks() == old(self).toks(),
            final(self).src() == old(self).src(),
            match r {
                Ok(ns) => sp_program(old(self).toks(), old(self).at()) matches Ok(vs) && nodes_v(
                    ns@,
                ) == vs,
                Err(e) => sp_program(old(self).toks(), old(self).at()) matches Err(e2) && e2 == e,
            },
    {
        self.program()
    }

    #[verifier::rlimit(100)]
    fn program(&mut self) -> (r: Result<Vec<AbstractSyntaxTreeNode>, InterpreterError>)
        requires
            old(self).wf(),
        ensures
            final(self).wf(),
            final(self).toks() == old(self).toks(),
            final(self).src() == old(self).src(),
            match r {
                Ok(ns) => sp_program(old(self).toks(), old(self).at()) matches Ok(vs) && nodes_v(
                    ns@,
                ) == vs,
                Err(e) => sp_program(old(self).toks(), old(self).at()) matches Err(e2) && e2 == e,
            },
        decreases old(self).toks().len() - old(self).at(), 15int,
    {
        self.logger.print("program");
        proof {
            lemma_op_literals();
        }
        let ghost t = old(self).toks();
        let ghost pos0 = old(self).at();
        if self.tokenizer.at_eof() {
            proof {
                assert(at2(t, pos0) is Eof);
            }
            return Err(InterpreterError::SyntaxError);
        }
        proof {
            assert(!(at2(t, pos0) is Eof));
        }
        let mut code: Vec<AbstractSyntaxTreeNode> = Vec::new();
        let first = match self.func() {
            Ok(n) => n,
            Err(e) => {
                return Err(e);
            },
        };
        let ghost firstv = ast_v(first);
        code.push(first);
        proof {
            lemma_nodes_v(code@);
            assert(nodes_v(code@) =~= seq![firstv]);
        }
        loop
            invariant_except_break
                self.wf(),
                self.toks() == t,
                t == old(self).toks(),
                pos0 == old(self).at(),
                self.src() == old(self).src(),
                !(at2(t, pos0) is Eof),
                pos0 < self.at() <= t.len(),
                code@.len() >= 1,
                ({
                    let (r2, _q) = sp_stmts(t, self.at());
                    match r2 {
                        Ok(rest) => sp_program(t, pos0) matches Ok(vs) && vs == nodes_v(code@)
                            + rest,
                        Err(e) => sp_program(t, pos0) matches Err(e2) && e2 == e,
                    }
                }),
            ensures
                self.wf(),
                self.toks() == t,
                self.src() == old(self).src(),
                sp_program(t, pos0) matches Ok(vs) && vs == nodes_v(code@),
            decreases t.len() - self.at(),
        {
            if self.tokenizer.at_eof() {
                proof {
                    assert(at2(t, self.at()) is Eof);
                    assert(sp_stmts(t, self.at()).0 == Ok::<Seq<AstView>, InterpreterError>(
                        Seq::empty(),
                    ));
                    assert(nodes_v(code@) + Seq::<AstView>::empty() =~= nodes_v(code@));
                }
                break ;
            }
            let ghost p = self.at();
            proof {
                assert(at2(t, p) != TokenView::Eof);
            }
            let n = match self.stmt() {
                Ok(n) => n,
                Err(e) => {
                    proof {
                        assert(sp_stmts(t, p).0 == Err::<Seq<AstView>, InterpreterError>(e));
                    }
                    return Err(e);
                },
            };
            let ghost nv = ast_v(n);
            let ghost before = code@;
            code.push(n);
            proof {
                lemma_nodes_v(before);
                lemma_nodes_v(code@);
                assert(nodes_v(code@) =~= nodes_v(before).push(nv));
                let (r2, _q) = sp_stmts(t, self.at());
                match r2 {
                    Ok(rest2) => {
                        assert(sp_stmts(t, p).0 == Ok::<Seq<AstView>, InterpreterError>(
                            seq![nv] + rest2,
                        ));
                        assert(nodes_v(before) + (seq![nv] + rest2) =~= nodes_v(code@) + rest2);
                    },
                    Err(e2) => {
                        assert(sp_stmts(t, p).0 == Err::<Seq<AstView>, InterpreterError>(e2));
                    },
                }
            }
        }
        Ok(code)
    }

    #[verifier::rlimit(100)]
    fn func(&mut self) -> (r: Result<AbstractSyntaxTreeNode, InterpreterError>)
        requires
            old(self).wf(),
        ensures
            final(self).wf(),
            final(self).toks() == old(self).toks(),
            final(self).src() == old(self).src(),
            final(self).at() >= old(self).at(),
            ({
                let (sr, sp) = sp_func(old(self).toks(), old(self).at());
                final(self).at() == sp && (match r {
                    Ok(n) => sr matches Ok(m) && n@ == m && final(self).at() > old(self).at(),
                    Err(e) => sr matches Err(e2) && e2 == e,
                })
            }),
        decreases old(self).toks().len() - old(self).at(), 13int,
    {
        self.logger.print("func");
        let ghost t = old(self).toks();
        let ghost pos0 = old(self).at();
        proof {
            lemma_op_literals();
        }
        match self.tokenizer.consume_funccall() {
            Some(s2) => {
                proof {
                    assert(at2(t, pos0) matches TokenView::Funccall(f) && f == s2@);
                }
                if self.tokenizer.at_eof() {
                    proof {
                        assert(at2(t, pos0 + 1) is Eof);
                        assert(sp_func(t, pos0) == (
                            Ok::<AstView, InterpreterError>(av_leaf(AstKindView::Func(s2@))),
                            pos0 + 1,
                        ));
                    }
                    Ok(AbstractSyntaxTreeNode::func_no_arg(s2))
                } else if self.tokenizer.consume(";") {
                    proof {
                        assert(!(at2(t, pos0 + 1) is Eof));
                        assert(is_res_at(t, pos0 + 1, ';'));
                        assert(sp_func(t, pos0) == (
                            Ok::<AstView, InterpreterError>(av_leaf(AstKindView::Func(s2@))),
                            pos0 + 2,
                        ));
                    }
                    Ok(AbstractSyntaxTreeNode::func_no_arg(s2))
                } else {
                    proof {
                        assert(!(at2(t, pos0 + 1) is Eof));
                        assert(!is_res_at(t, pos0 + 1, ';'));
                    }
                    match self.stmt() {
                        Ok(n) => {
                            proof {
                                let (rs, q0) = sp_stmt(t, pos0 + 1);
                                assert(rs matches Ok(m) && m == n@);
                                assert(q0 == self.at() as int);
                                assert(nxt(pos0 + 1, q0, t.len() as int) == q0);
                                assert(sp_func(t, pos0) == (
                                    Ok::<AstView, InterpreterError>(
                                        av_un(AstKindView::Func(s2@), n@),
                                    ),
                                    q0,
                                ));
                            }
                            Ok(AbstractSyntaxTreeNode::func(s2, n))
                        },
                        Err(e) => {
                            proof {
                                let (rs, q0) = sp_stmt(t, pos0 + 1);
                                assert(rs matches Err(e2) && e2 == e);
                                assert(nxt(pos0 + 1, q0, t.len() as int) == q0);
                                assert(sp_func(t, pos0) == (
                                    Err::<AstView, InterpreterError>(e),
                                    q0,
                                ));
                            }
                            Err(e)
                        },
                    }
                }
            },
            None => {
                let r = self.stmt();
                proof {
                    assert(!(at2(t, pos0) is Funccall));
                    assert(sp_func(t, pos0) == sp_stmt(t, pos0));
                }
                r
            },
        }
    }

    #[verifier::rlimit(100)]
    fn stmt(&mut self) -> (r: Result<AbstractSyntaxTreeNode, InterpreterError>)
        requires
            old(self).wf(),
        ensures
            final(self).wf(),
            final(self).toks() == old(self).toks(),
            final(self).src() == old(self).src(),
            final(self).at() >= old(self).at(),
            ({
                let (sr, sp) = sp_stmt(old(self).toks(), old(self).at());
                final(self).at() == sp && (match r {
                    Ok(n) => sr matches Ok(m) && n@ == m && final(self).at() > old(self).at(),
                    Err(e) => sr matches Err(e2) && e2 == e,
                })
            }),
        decreases old(self).toks().len() - old(self).at(), 12int,
    {
        self.logger.print("stmt");
        proof {
            lemma_op_literals();
        }
        let ghost t = old(self).toks();
        let ghost pos0 = old(self).at();
        let core = if self.tokenizer.consume_return() {
            match self.expr() {
                Ok(n) => Ok(AbstractSyntaxTreeNode::return_node(n)),
                Err(e) => Err(e),
            }
        } else {
            match self.tokenizer.consume_funccall() {
                Some(s2) => {
                    if self.tokenizer.at_eof() {
                        Ok(AbstractSyntaxTreeNode::func_no_arg(s2))
                    } else if self.tokenizer.consume(";") {
                        Ok(AbstractSyntaxTreeNode::func_no_arg(s2))
                    } else {
                        match self.stmt() {
                            Ok(n) => Ok(AbstractSyntaxTreeNode::func(s2, n)),
                            Err(e) => Err(e),
                        }
                    }
                },
                None => self.expr(),
            }
        };
        match core {
            Ok(node) => {
                proof {
                    let (sr, sp) = sp_stmt_core(t, pos0);
                    assert(sr matches Ok(m) && node@ == m && self.at() == sp);
                }
                let ghost mid = self.at();
                loop
                    invariant_except_break
                        self.wf(),
                        self.toks() == t,
                        t == old(self).toks(),
                        self.src() == old(self).src(),
                        mid <= self.at() < t.len(),
                        sp_semis(t, mid) == sp_semis(t, self.at()),
                    ensures
                        self.wf(),
                        self.toks() == t,
                        self.src() == old(self).src(),
                        self.at() == sp_semis(t, mid),
                        self.at() >= mid,
                    decreases t.len() - self.at(),
                {
                    let ghost here = self.at();
                    proof {
                        lemma_op_literals();
                    }
                    if !self.tokenizer.consume(";") {
                        proof {
                            assert(sp_semis(t, here) == here);
                        }
                        break ;
                    }
                    proof {
                        assert(is_res_at(t, here, ';'));
                        assert(sp_semis(t, here) == sp_semis(t, here + 1));
                    }
                }
                Ok(node)
            },
            Err(e) => Err(e),
        }
    }

    fn expr(&mut self) -> (r: Result<AbstractSyntaxTreeNode, InterpreterError>)
        requires
            old(self).wf(),
        ensures
            final(self).wf(),
            final(self).toks() == old(self).toks(),
            final(self).src() == old(self).src(),
            final(self).at() >= old(self).at(),
            ({
                let (sr, sp) = sp_expr(old(self).toks(), old(self).at());
                final(self).at() == sp && (match r {
                    Ok(n) => sr matches Ok(m) && n@ == m && final(self).at() > old(self).at(),
                    Err(e) => sr matches Err(e2) && e2 == e,
                })
            }),
        decreases old(self).toks().len() - old(self).at(), 10int,
    {
        self.logger.print("expr");
        proof {
            lemma_op_literals();
        }
        self.assign()
    }

    #[verifier::rlimit(100)]
    fn assign(&mut self) -> (r: Result<AbstractSyntaxTreeNode, InterpreterError>)
        requires
            old(self).wf(),
        ensures
            final(self).wf(),
            final(self).toks() == old(self).toks(),
            final(self).src() == old(self).src(),
            final(self).at() >= old(self).at(),
            ({
                let (sr, sp) = sp_assign(old(self).toks(), old(self).at());
                final(self).at() == sp && (match r {
                    Ok(n) => sr matches Ok(m) && n@ == m && final(self).at() > old(self).at(),
                    Err(e) => sr matches Err(e2) && e2 == e,
                })
            }),
        decreases old(self).toks().len() - old(self).at(), 9int,
    {
        self.logger.print("assign");
        let ghost t = old(self).toks();
        let ghost pos0 = old(self).at();
        proof {
            lemma_op_literals();
        }
        let node = match self.add() {
            Ok(n) => n,
            Err(e) => {
                proof {
                    let (ra, p0) = sp_add(t, pos0);
                    assert(ra matches Err(e2) && e2 == e);
                    assert(nxt(pos0, p0, t.len() as int) == p0);
                    assert(sp_assign(t, pos0) == (Err::<AstView, InterpreterError>(e), p0));
                }
                return Err(e);
            },
        };
        let ghost p = self.at();
        proof {
            let (ra, p0) = sp_add(t, pos0);
            assert(ra matches Ok(m) && m == node@);
            assert(p0 == p);
            assert(nxt(pos0, p0, t.len() as int) == p0);
        }
        if self.tokenizer.consume("=") {
            proof {
                assert(is_res_at(t, p, '='));
            }
            match self.assign() {
                Ok(rhs) => {
                    proof {
                        let (r2, q0) = sp_assign(t, p + 1);
                        assert(r2 matches Ok(m2) && m2 == rhs@);
                        assert(q0 == self.at() as int);
                        assert(nxt(p + 1, q0, t.len() as int) == q0);
                        assert(sp_assign(t, pos0) == (
                            Ok::<AstView, InterpreterError>(
                                av_bin(AstKindView::Assign, node@, rhs@),
                            ),
                            q0,
                        ));
                    }
                    Ok(AbstractSyntaxTreeNode::create(AbstractSyntaxTreeKind::ASSIGN, node, rhs))
                },
                Err(e) => {
                    proof {
                        let (r2, q0) = sp_assign(t, p + 1);
                        assert(r2 matches Err(e2) && e2 == e);
                        assert(nxt(p + 1, q0, t.len() as int) == q0);
                        assert(sp_assign(t, pos0) == (Err::<AstView, InterpreterError>(e), q0));
                    }
                    Err(e)
                },
            }
        } else {
            proof {
                assert(!is_res_at(t, p, '='));
                assert(sp_assign(t, pos0) == (Ok::<AstView, InterpreterError>(node@), p));
            }
            Ok(node)
        }
    }

    #[verifier::rlimit(100)]
    fn add(&mut self) -> (r: Result<AbstractSyntaxTreeNode, InterpreterError>)
        requires
            old(self).wf(),
        ensures
            final(self).wf(),
            final(self).toks() == old(self).toks(),
            final(self).src() == old(self).src(),
            final(self).at() >= old(self).at(),
            ({
                let (sr, sp) = sp_add(old(self).toks(), old(self).at());
                final(self).at() == sp && (match r {
                    Ok(n) => sr matches Ok(m) && n@ == m && final(self).at() > old(self).at(),
                    Err(e) => sr matches Err(e2) && e2 == e,
                })
            }),
        decreases old(self).toks().len() - old(self).at(), 8int,
    {
        self.logger.print("add");
        let ghost t = old(self).toks();
        let ghost pos0 = old(self).at();
        proof {
            lemma_op_literals();
        }
        let mut node = match self.mul() {
            Ok(n) => n,
            Err(e) => {
                proof {
                    let (ru, p0) = sp_mul(t, pos0);
                    assert(ru matches Err(e2) && e2 == e);
                    assert(nxt(pos0, p0, t.len() as int) == p0);
                    assert(sp_add(t, pos0) == (Err::<AstView, InterpreterError>(e), p0));
                }
                return Err(e);
            },
        };
        proof {
            let (ru, p0) = sp_mul(t, pos0);
            assert(ru matches Ok(m) && m == node@);
            assert(p0 == self.at() as int);
            assert(nxt(pos0, p0, t.len() as int) == p0);
            assert(sp_add(t, pos0) == sp_add_more(t, node@, p0));
        }
        loop
            invariant_except_break
                self.wf(),
                self.toks() == t,
                t == old(self).toks(),
                pos0 == old(self).at(),
                self.src() == old(self).src(),
                pos0 < self.at() < t.len(),
                sp_add(t, pos0) == sp_add_more(t, node@, self.at() as int),
            ensures
                self.wf(),
                self.toks() == t,
                self.src() == old(self).src(),
                pos0 < self.at() <= t.len(),
                sp_add(t, pos0) == (Ok::<AstView, InterpreterError>(node@), self.at() as int),
            decreases t.len() - self.at(),
        {
            let ghost here = self.at();
            proof {
                lemma_op_literals();
            }
            if self.tokenizer.consume("+") {
                proof {
                    assert(is_res_at(t, here, '+'));
                }
                match self.mul() {
                    Ok(rhs) => {
                        proof {
                            let (ru, q0) = sp_mul(t, here + 1);
                            assert(ru matches Ok(m) && m == rhs@);
                            assert(q0 == self.at() as int);
                            assert(nxt(here + 1, q0, t.len() as int) == q0);
                            assert(sp_add_more(t, node@, here) == sp_add_more(
                                t,
                                av_bin(AstKindView::Add, node@, rhs@),
                                q0,
                            ));
                        }
                        node = AbstractSyntaxTreeNode::create(
                            AbstractSyntaxTreeKind::ADD,
                            node,
                            rhs,
                        );
                    },
                    Err(e) => {
                        proof {
                            let (ru, q0) = sp_mul(t, here + 1);
                            assert(ru matches Err(e2) && e2 == e);
                            assert(nxt(here + 1, q0, t.len() as int) == q0);
                            assert(sp_add_more(t, node@, here) == (
                                Err::<AstView, InterpreterError>(e),
                                q0,
                            ));
                        }
                        return Err(e);
                    },
                }
            } else if self.tokenizer.consume("-") {
                proof {
                    assert(!is_res_at(t, here, '+'));
                    assert(is_res_at(t, here, '-'));
                }
                match self.mul() {
                    Ok(rhs) => {
                        proof {
                            let (ru, q0) = sp_mul(t, here + 1);
                            assert(ru matches Ok(m) && m == rhs@);
                            assert(q0 == self.at() as int);
                            assert(nxt(here + 1, q0, t.len() as int) == q0);
                            assert(sp_add_more(t, node@, here) == sp_add_more(
                                t,
                                av_bin(AstKindView::Sub, node@, rhs@),
                                q0,
                            ));
                        }
                        node = AbstractSyntaxTreeNode::create(
                            AbstractSyntaxTreeKind::SUB,
                            node,
                            rhs,
                        );
                    },
                    Err(e) => {
                        proof {
                            let (ru, q0) = sp_mul(t, here + 1);
                            assert(ru matches Err(e2) && e2 == e);
                            assert(nxt(here + 1, q0, t.len() as int) == q0);
                            assert(sp_add_more(t, node@, here) == (
                                Err::<AstView, InterpreterError>(e),
                                q0,
                            ));
                        }
                        return Err(e);
                    },
                }
            } else {
                proof {
                    assert(!is_res_at(t, here, '+'));
                    assert(!is_res_at(t, here, '-'));
                    assert(sp_add_more(t, node@, here) == (
                        Ok::<AstView, InterpreterError>(node@),
                        here,
                    ));
                }
                break ;
            }
        }
        Ok(node)
    }

    #[verifier::rlimit(100)]
    fn mul(&mut self) -> (r: Result<AbstractSyntaxTreeNode, InterpreterError>)
        requires
            old(self).wf(),
        ensures
            final(self).wf(),
            final(self).toks() == old(self).toks(),
            final(self).src() == old(self).src(),
            final(self).at() >= old(self).at(),
            ({
                let (sr, sp) = sp_mul(old(self).toks(), old(self).at());
                final(self).at() == sp && (match r {
                    Ok(n) => sr matches Ok(m) && n@ == m && final(self).at() > old(self).at(),
                    Err(e) => sr matches Err(e2) && e2 == e,
                })
            }),
        decreases old(self).toks().len() - old(self).at(), 6int,
    {
        self.logger.print("mul");
        let ghost t = old(self).toks();
        let ghost pos0 = old(self).at();
        proof {
            lemma_op_literals();
        }
        let mut node = match self.unary() {
            Ok(n) => n,
            Err(e) => {
                proof {
                    let (ru, p0) = sp_unary(t, pos0);
                    assert(ru matches Err(e2) && e2 == e);
                    assert(nxt(pos0, p0, t.len() as int) == p0);
                    assert(sp_mul(t, pos0) == (Err::<AstView, InterpreterError>(e), p0));
                }
                return Err(e);
            },
        };
        proof {
            let (ru, p0) = sp_unary(t, pos0);
            assert(ru matches Ok(m) && m == node@);
            assert(p0 == self.at() as int);
            assert(nxt(pos0, p0, t.len() as int) == p0);
            assert(sp_mul(t, pos0) == sp_mul_more(t, node@, p0));
        }
        loop
            invariant_except_break
                self.wf(),
                self.toks() == t,
                t == old(self).toks(),
                pos0 == old(self).at(),
                self.src() == old(self).src(),
                pos0 < self.at() < t.len(),
                sp_mul(t, pos0) == sp_mul_more(t, node@, self.at() as int),
            ensures
                self.wf(),
                self.toks() == t,
                self.src() == old(self).src(),
                pos0 < self.at() <= t.len(),
                sp_mul(t, pos0) == (Ok::<AstView, InterpreterError>(node@), self.at() as int),
            decreases t.len() - self.at(),
        {
            let ghost here = self.at();
            proof {
                lemma_op_literals();
            }
            if self.tokenizer.consume("*") {
                proof {
                    assert(is_res_at(t, here, '*'));
                }
                match self.unary() {
                    Ok(rhs) => {
                        proof {
                            let (ru, q0) = sp_unary(t, here + 1);
                            assert(ru matches Ok(m) && m == rhs@);
                            assert(q0 == self.at() as int);
                            assert(nxt(here + 1, q0, t.len() as int) == q0);
                            assert(sp_mul_more(t, node@, here) == sp_mul_more(
                                t,
                                av_bin(AstKindView::Mul, node@, rhs@),
                                q0,
                            ));
                        }
                        node = AbstractSyntaxTreeNode::create(
                            AbstractSyntaxTreeKind::MUL,
                            node,
                            rhs,
                        );
                    },
                    Err(e) => {
                        proof {
                            let (ru, q0) = sp_unary(t, here + 1);
                            assert(ru matches Err(e2) && e2 == e);
                            assert(nxt(here + 1, q0, t.len() as int) == q0);
                            assert(sp_mul_more(t, node@, here) == (
                                Err::<AstView, InterpreterError>(e),
                                q0,
                            ));
                        }
                        return Err(e);
                    },
                }
            } else if self.tokenizer.consume("/") {
                proof {
                    assert(!is_res_at(t, here, '*'));
                    assert(is_res_at(t, here, '/'));
                }
                match self.unary() {
                    Ok(rhs) => {
                        proof {
                            let (ru, q0) = sp_unary(t, here + 1);
                            assert(ru matches Ok(m) && m == rhs@);
                            assert(q0 == self.at() as int);
                            assert(nxt(here + 1, q0, t.len() as int) == q0);
                            assert(sp_mul_more(t, node@, here) == sp_mul_more(
                                t,
                                av_bin(AstKindView::Div, node@, rhs@),
                                q0,
                            ));
                        }
                        node = AbstractSyntaxTreeNode::create(
                            AbstractSyntaxTreeKind::DIV,
                            node,
                            rhs,
                        );
                    },
                    Err(e) => {
                        proof {
                            let (ru, q0) = sp_unary(t, here + 1);
                            assert(ru matches Err(e2) && e2 == e);
                            assert(nxt(here + 1, q0, t.len() as int) == q0);
                            assert(sp_mul_more(t, node@, here) == (
                                Err::<AstView, InterpreterError>(e),
                                q0,
                            ));
                        }
                        return Err(e);
                    },
                }
            } else {
                proof {
                    assert(!is_res_at(t, here, '*'));
                    assert(!is_res_at(t, here, '/'));
                    assert(sp_mul_more(t, node@, here) == (
                        Ok::<AstView, InterpreterError>(node@),
                        here,
                    ));
                }
                break ;
            }
        }
        Ok(node)
    }

    #[verifier::rlimit(100)]
    fn unary(&mut self) -> (r: Result<AbstractSyntaxTreeNode, InterpreterError>)
        requires
            old(self).wf(),
        ensures
            final(self).wf(),
            final(self).toks() == old(self).toks(),
            final(self).src() == old(self).src(),
            final(self).at() >= old(self).at(),
            ({
                let (sr, sp) = sp_unary(old(self).toks(), old(self).at());
                final(self).at() == sp && (match r {
                    Ok(n) => sr matches Ok(m) && n@ == m && final(self).at() > old(self).at(),
                    Err(e) => sr matches Err(e2) && e2 == e,
                })
            }),
        decreases old(self).toks().len() - old(self).at(), 4int,
    {
        self.logger.print("unary");
        let ghost t = old(self).toks();
        let ghost pos0 = old(self).at();
        proof {
            lemma_op_literals();
        }
        if self.tokenizer.consume("+") {
            let r = self.primary();
            proof {
                assert(is_res_at(t, pos0, '+'));
                assert(sp_unary(t, pos0) == sp_primary(t, pos0 + 1));
            }
            r
        } else if self.tokenizer.consume("-") {
            proof {
                assert(!is_res_at(t, pos0, '+'));
                assert(is_res_at(t, pos0, '-'));
            }
            match self.primary() {
                Ok(n) => {
                    proof {
                        let (rp, p) = sp_primary(t, pos0 + 1);
                        assert(rp matches Ok(m) && m == n@);
                        assert(sp_unary(t, pos0) == (
                            Ok::<AstView, InterpreterError>(
                                av_bin(AstKindView::Sub, av_leaf(AstKindView::Num(0)), n@),
                            ),
                            p,
                        ));
                    }
                    Ok(
                        AbstractSyntaxTreeNode::create(
                            AbstractSyntaxTreeKind::SUB,
                            AbstractSyntaxTreeNode::num(0),
                            n,
                        ),
                    )
                },
                Err(e) => {
                    proof {
                        let (rp, p) = sp_primary(t, pos0 + 1);
                        assert(rp matches Err(e2) && e2 == e);
                        assert(sp_unary(t, pos0) == (Err::<AstView, InterpreterError>(e), p));
                    }
                    Err(e)
                },
            }
        } else {
            let r = self.primary();
            proof {
                assert(!is_res_at(t, pos0, '+'));
                assert(!is_res_at(t, pos0, '-'));
                assert(sp_unary(t, pos0) == sp_primary(t, pos0));
            }
            r
        }
    }

    #[verifier::rlimit(100)]
    fn primary(&mut self) -> (r: Result<AbstractSyntaxTreeNode, InterpreterError>)
        requires
            old(self).wf(),
        ensures
            final(self).wf(),
            final(self).toks() == old(self).toks(),
            final(self).src() == old(self).src(),
            final(self).at() >= old(self).at(),
            ({
                let (sr, sp) = sp_primary(old(self).toks(), old(self).at());
                final(self).at() == sp && (match r {
                    Ok(n) => sr matches Ok(m) && n@ == m && final(self).at() > old(self).at(),
                    Err(e) => sr matches Err(e2) && e2 == e,
                })
            }),
        decreases old(self).toks().len() - old(self).at(), 3int,
    {
        self.logger.print("primary");
        proof {
            lemma_op_literals();
        }
        let ghost t = old(self).toks();
        let ghost pos0 = old(self).at();
        if self.tokenizer.consume("$") {
            if self.tokenizer.consume("(") {
                let node = self.func();
                match self.tokenizer.expect(")") {
                    Ok(()) => node,
                    Err(_) => Err(InterpreterError::SyntaxError),
                }
            } else {
                match self.tokenizer.consume_strings() {
                    Some(v) => Ok(AbstractSyntaxTreeNode::variable(v)),
                    None => Err(InterpreterError::SyntaxError),
                }
            }
        } else if self.tokenizer.consume("(") {
            if self.tokenizer.consume(")") {
                return Err(InterpreterError::SyntaxError);
            }
            let node = self.expr();
            match self.tokenizer.expect(")") {
                Ok(()) => node,
                Err(_) => Err(InterpreterError::SyntaxError),
            }
        } else if self.tokenizer.consume("\"") {
            match self.quoted("\"", Ghost('"')) {
                Ok(s2) => Ok(AbstractSyntaxTreeNode::string(s2)),
                Err(e) => Err(e),
            }
        } else if self.tokenizer.consume("'") {
            match self.quoted("'", Ghost('\'')) {
                Ok(s2) => Ok(AbstractSyntaxTreeNode::string(s2)),
                Err(e) => Err(e),
            }
        } else {
            match self.tokenizer.consume_strings() {
                Some(s2) => Ok(AbstractSyntaxTreeNode::string(s2)),
                None => {
                    match self.tokenizer.expect_number() {
                        Ok(x) => Ok(AbstractSyntaxTreeNode::num(x)),
                        Err(e) => Err(e),
                    }
                },
            }
        }
    }

    /// Collects token texts up to the closing quote.
    #[verifier::rlimit(100)]
    fn quoted(&mut self, q: &str, Ghost(qc): Ghost<char>) -> (r: Result<String, InterpreterError>)
        requires
            old(self).wf(),
            q@ == seq![qc],
        ensures
            final(self).wf(),
            final(self).toks() == old(self).toks(),
            final(self).src() == old(self).src(),
            final(self).at() >= old(self).at(),
            ({
                let (sr, sp) = sp_quote(old(self).toks(), old(self).at(), qc);
                final(self).at() == sp && (match r {
                    Ok(s2) => sr matches Ok(u) && s2@ == u && final(self).at() > old(self).at(),
                    Err(e) => sr matches Err(e2) && e2 == e,
                })
            }),
        decreases old(self).toks().len() - old(self).at(), 0int,
    {
        let ghost t = old(self).toks();
        let ghost qs = old(self).at();
        let mut s2 = String::new();
        proof {
            match sp_quote(t, qs, qc).0 {
                Ok(u) => {
                    assert(s2@ + u =~= u);
                },
                Err(_) => {},
            }
        }
        loop
            invariant_except_break
                self.wf(),
                self.toks() == t,
                t == old(self).toks(),
                qs == old(self).at(),
                q@ == seq![qc],
                self.src() == old(self).src(),
                qs <= self.at() < t.len(),
                ({
                    let a = sp_quote(t, qs, qc);
                    let b = sp_quote(t, self.at() as int, qc);
                    a.1 == b.1 && (match (a.0, b.0) {
                        (Ok(u), Ok(u2)) => u == s2@ + u2,
                        (Err(e), Err(e2)) => e == e2,
                        _ => false,
                    })
                }),
            ensures
                self.wf(),
                self.toks() == t,
                self.src() == old(self).src(),
                qs < self.at() <= t.len(),
                sp_quote(t, qs, qc) == (Ok::<Seq<char>, InterpreterError>(s2@), self.at() as int),
            decreases t.len() - self.at(),
        {
            let ghost here = self.at();
            if self.tokenizer.consume(q) {
                proof {
                    assert(is_res_at(t, here, qc));
                    assert(sp_quote(t, here, qc) == (
                        Ok::<Seq<char>, InterpreterError>(Seq::empty()),
                        here + 1,
                    ));
                    assert(s2@ + Seq::<char>::empty() =~= s2@);
                }
                break ;
            }
            if self.tokenizer.at_eof() {
                proof {
                    assert(at2(t, here) is Eof);
                    assert(sp_quote(t, here, qc) == (
                        Err::<Seq<char>, InterpreterError>(InterpreterError::SyntaxError),
                        here,
                    ));
                }
                return Err(InterpreterError::SyntaxError);
            }
            let piece = self.tokenizer.consume_any();
            let ghost old_s2 = s2@;
            s2.append(piece.as_str());
            proof {
                assert(!is_res_at(t, here, qc));
                assert(!(at2(t, here) is Eof));
                assert(sp_quote(t, here, qc).0 == (match sp_quote(t, here + 1, qc).0 {
                    Ok(u) => Ok::<Seq<char>, InterpreterError>(tok_text(at2(t, here)) + u),
                    Err(e) => Err(e),
                }));
                match sp_quote(t, here + 1, qc).0 {
                    Ok(u) => {
                        assert(old_s2 + (tok_text(at2(t, here)) + u) =~= s2@ + u);
                    },
                    Err(_) => {},
                }
            }
        }
        Ok(s2)
    }
}

} // verus!
