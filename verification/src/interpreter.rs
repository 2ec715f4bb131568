//! The interpreter facade: one error taxonomy shared by every stage,
//! and the session object driving tokenizer, parser and evaluator.

use vstd::prelude::*;
use crate::logger::{LoggerRepository, LoggerInteractor, DefaultLoggerRepository};
use crate::machine::{LiteralView, lit_text};
use crate::token::{Tokenizer, TokenView, sp_tokenize, lemma_tokenize_numeral, all_ascii_digits};
use crate::ast::{AstBuilder, AstView, AstKindView, av_leaf, sp_program, nodes_v};
use crate::stackmachine::{StackMachine, sp_exec};
use crate::text::{dec_of, dec_i32, dec_val, lemma_dec_of};

verus! {

pub type InterpreterResult = Result<Option<String>, InterpreterError>;

/// The one error taxonomy shared by tokenizer, parser and evaluator.
#[derive(Debug, PartialEq)]
pub enum InterpreterError {
    /// Failure of an unknown kind.
    Unknown,
    /// The parser expected a specific symbol or a number and found
    /// something else.
    Unexpected,
    /// The tokenizer met a character no rule matches.
    Untokenized,
    /// A structurally malformed program.
    SyntaxError,
    /// The source text could not be read as a program: a numeral too
    /// large for a value.
    InvalidSource,
    /// Arithmetic could not be carried out: an operator node of an
    /// unknown kind, or a division with no representable result.
    CalculationError,
    /// The operand stack was empty where a value was expected.
    ZeroStack,
    /// An operator had no registered implementation.
    UndefinedFunction,
    /// A variable was read that was never assigned.
    UndefinedVariable,
    /// An operator was applied to operands whose kinds do not match it.
    TypeMismatch,
    /// The left side of an assignment is not a variable.
    InvalidLVariable,
    /// The right side of an assignment or of a `return` is missing.
    InvalidRValue,
}

/// Evaluating the program's trees in order, under one environment and
/// one stack; the program's value is the last tree's value.
pub open spec fn sp_exec_list(
    ns: Seq<AstView>,
    env: Map<Seq<char>, LiteralView>,
    st: Seq<LiteralView>,
) -> (Result<LiteralView, InterpreterError>, Map<Seq<char>, LiteralView>, Seq<LiteralView>)
    decreases ns.len(),
{
    if ns.len() == 0 {
        (Err(InterpreterError::Unknown), env, st)
    } else {
        let (r, e1, s1) = sp_exec(ns[0], env, st);
        if ns.len() == 1 {
            (r, e1, s1)
        } else {
            match r {
                Ok(_) => sp_exec_list(ns.subrange(1, ns.len() as int), e1, s1),
                Err(er) => (Err(er), e1, s1),
            }
        }
    }
}

/// What one line does to a session: tokenize, parse, evaluate each
/// tree, and print the last value; the first failure aborts the line
/// and is returned unchanged.
pub open spec fn sp_interpret(
    s: Seq<char>,
    env: Map<Seq<char>, LiteralView>,
    st: Seq<LiteralView>,
) -> (Result<Seq<char>, InterpreterError>, Map<Seq<char>, LiteralView>, Seq<LiteralView>) {
    match sp_tokenize(s) {
        Err(e) => (Err(e), env, st),
        Ok(ts) => match sp_program(ts, 0) {
            Err(e) => (Err(e), env, st),
            Ok(ns) => {
                let (r, e2, s2) = sp_exec_list(ns, env, st);
                match r {
                    Ok(v) => (Ok(lit_text(v)), e2, s2),
                    Err(e) => (Err(e), e2, s2),
                }
            },
        },
    }
}

/// An interpreter session: one evaluator (environment and stack) kept
/// across `interpret` calls.
pub struct Interpreter<T> where T: LoggerRepository + Clone {
    logger: LoggerInteractor<T>,
    machine: StackMachine<T>,
}

impl Interpreter<DefaultLoggerRepository> {
    pub fn init() -> (it: Interpreter<DefaultLoggerRepository>)
        ensures
            it.env() == Map::<Seq<char>, LiteralView>::empty(),
            it.stacks() == Seq::<LiteralView>::empty(),
    {
        Interpreter::init_with_logger(DefaultLoggerRepository {  })
    }
}

impl<T: LoggerRepository + Clone> Interpreter<T> {
    /// The session's variable environment.
    pub closed spec fn env(&self) -> Map<Seq<char>, LiteralView> {
        self.machine.env()
    }

    /// The session's operand stack.
    pub closed spec fn stacks(&self) -> Seq<LiteralView> {
        self.machine.stacks()
    }

    fn new(logger: T) -> (it: Interpreter<T>)
        ensures
            it.env() == Map::<Seq<char>, LiteralView>::empty(),
            it.stacks() == Seq::<LiteralView>::empty(),
    {
        let machine = StackMachine::init_with_logger(logger.clone());
        Interpreter { logger: LoggerInteractor::new(logger), machine }
    }

    pub fn init_with_logger(logger: T) -> (it: Interpreter<T>)
        ensures
            it.env() == Map::<Seq<char>, LiteralView>::empty(),
            it.stacks() == Seq::<LiteralView>::empty(),
    {
        Interpreter::new(logger)
    }

    /// Runs one line against this session.
    #[verifier::rlimit(100)]
    pub fn interpret(&mut self, s: &str) -> (r: InterpreterResult)
        ensures
            ({
                let (sr, e2, st2) = sp_interpret(s@, old(self).env(), old(self).stacks());
                final(self).env() == e2 && final(self).stacks() == st2 && (match r {
                    Ok(out) => out matches Some(txt) && sr matches Ok(u) && txt@ == u,
                    Err(e) => sr matches Err(ex) && ex == e,
                })
            }),
    {
        let mut tokenizer = Tokenizer::init_with_logger(self.logger.get());
        match tokenizer.tokenize(s) {
            Ok(()) => {},
            Err(e) => {
                return Err(e);
            },
        }
        let ghost ts = tokenizer.toks();
        let mut builder = AstBuilder::init_with_logger(tokenizer, self.logger.get());
        let code = match builder.build() {
            Ok(c) => c,
            Err(e) => {
                return Err(e);
            },
        };
        let ghost vs = nodes_v(code@);
        let ghost env0 = self.env();
        let ghost st0 = self.stacks();
        proof {
            assert(sp_program(ts, 0) matches Ok(nsv) && nsv == vs);
            assert(vs.len() >= 1);
            crate::ast::lemma_nodes_v(code@);
        }
        let first = &code[0];
        let mut val = match self.machine.execute(first) {
            Ok(v) => v,
            Err(e) => {
                proof {
                    assert(vs[0] == crate::ast::ast_v(code@[0]));
                    assert(sp_exec_list(vs, env0, st0) == (
                        Err::<LiteralView, InterpreterError>(e),
                        self.env(),
                        self.stacks(),
                    ));
                }
                return Err(e);
            },
        };
        let mut i: usize = 1;
        loop
            invariant_except_break
                1 <= i <= code@.len(),
                sp_tokenize(s@) == Ok::<Seq<TokenView>, InterpreterError>(ts),
                sp_program(ts, 0) == Ok::<Seq<AstView>, InterpreterError>(vs),
                vs == nodes_v(code@),
                vs.len() == code@.len(),
                env0 == old(self).env(),
                st0 == old(self).stacks(),
                forall|j: int| 0 <= j < code@.len() ==> vs[j] == crate::ast::ast_v(
                    #[trigger] code@[j],
                ),
                sp_exec_list(vs, env0, st0) == (if i < vs.len() {
                    sp_exec_list(vs.subrange(i as int, vs.len() as int), self.env(), self.stacks())
                } else {
                    (
                        Ok::<LiteralView, InterpreterError>(val@),
                        self.env(),
                        self.stacks(),
                    )
                }),
            ensures
                sp_exec_list(vs, env0, st0) == (
                    Ok::<LiteralView, InterpreterError>(val@),
                    self.env(),
                    self.stacks(),
                ),
            decreases code@.len() - i,
        {
            if i >= code.len() {
                break ;
            }
            let ghost rest = vs.subrange(i as int, vs.len() as int);
            proof {
                assert(rest[0] == vs[i as int]);
                assert(rest.len() == vs.len() - i);
                assert(rest.subrange(1, rest.len() as int) =~= vs.subrange(
                    i as int + 1,
                    vs.len() as int,
                ));
            }
            match self.machine.execute(&code[i]) {
                Ok(v) => {
                    val = v;
                },
                Err(e) => {
                    proof {
                        assert(sp_exec_list(vs, env0, st0) == (
                            Err::<LiteralView, InterpreterError>(e),
                            self.env(),
                            self.stacks(),
                        ));
                    }
                    return Err(e);
                },
            }
            i += 1;
        }
        Ok(Some(val.to_text()))
    }
}

/// Any line holding just a decimal numeral evaluates to that number,
/// printed back exactly as it was written, in any session state, which
/// it leaves unchanged but for the number pushed onto the stack.
pub proof fn lemma_numeral_round_trip(
    n: int,
    env: Map<Seq<char>, LiteralView>,
    st: Seq<LiteralView>,
)
    requires
        0 <= n <= 0x7fffffff,
    ensures
        sp_interpret(dec_of(n as nat), env, st) == (
            Ok::<Seq<char>, InterpreterError>(dec_of(n as nat)),
            env,
            st.push(LiteralView::Num(n as i32)),
        ),
{
    let s = dec_of(n as nat);
    lemma_dec_of(n as nat);
    assert(dec_val(s) == n);
    lemma_tokenize_numeral(s);
    let ts = seq![TokenView::Num(n as i32), TokenView::Eof];
    assert(sp_tokenize(s) == Ok::<Seq<TokenView>, InterpreterError>(ts));
    let leaf = av_leaf(AstKindView::Num(n as i32));
    assert(crate::token::at2(ts, 0) == TokenView::Num(n as i32));
    assert(crate::token::at2(ts, 1) == TokenView::Eof);
    assert(crate::ast::sp_primary(ts, 0) == (Ok::<AstView, InterpreterError>(leaf), 1int));
    assert(crate::ast::sp_unary(ts, 0) == (Ok::<AstView, InterpreterError>(leaf), 1int));
    assert(crate::ast::sp_mul_more(ts, leaf, 1) == (Ok::<AstView, InterpreterError>(leaf), 1int));
    assert(crate::ast::sp_mul(ts, 0) == (Ok::<AstView, InterpreterError>(leaf), 1int));
    assert(crate::ast::sp_add_more(ts, leaf, 1) == (Ok::<AstView, InterpreterError>(leaf), 1int));
    assert(crate::ast::sp_add(ts, 0) == (Ok::<AstView, InterpreterError>(leaf), 1int));
    assert(crate::ast::sp_assign(ts, 0) == (Ok::<AstView, InterpreterError>(leaf), 1int));
    assert(crate::ast::sp_expr(ts, 0) == (Ok::<AstView, InterpreterError>(leaf), 1int));
    assert(crate::ast::sp_stmt_core(ts, 0) == (Ok::<AstView, InterpreterError>(leaf), 1int));
    assert(crate::ast::sp_semis(ts, 1) == 1int);
    assert(crate::ast::sp_stmt(ts, 0) == (Ok::<AstView, InterpreterError>(leaf), 1int));
    assert(crate::ast::sp_func(ts, 0) == (Ok::<AstView, InterpreterError>(leaf), 1int));
    assert(crate::ast::sp_stmts(ts, 1) == (
        Ok::<Seq<AstView>, InterpreterError>(Seq::<AstView>::empty()),
        1int,
    ));
    assert(sp_program(ts, 0) == Ok::<Seq<AstView>, InterpreterError>(seq![leaf])) by {
        assert(seq![leaf] + Seq::<AstView>::empty() =~= seq![leaf]);
    }
    assert(sp_exec(leaf, env, st) == (
        Ok::<LiteralView, InterpreterError>(LiteralView::Num(n as i32)),
        env,
        st.push(LiteralView::Num(n as i32)),
    ));
    assert(sp_exec_list(seq![leaf], env, st) == (
        Ok::<LiteralView, InterpreterError>(LiteralView::Num(n as i32)),
        env,
        st.push(LiteralView::Num(n as i32)),
    ));
    assert(lit_text(LiteralView::Num(n as i32)) == dec_i32(n));
    assert(dec_i32(n) == s);
}

/// A line holding a character that no token rule covers — not
/// whitespace, not a reserved symbol, not alphanumeric, not numeric —
/// always fails, and leaves the session as it was.
pub proof fn lemma_untokenizable_line(
    s: Seq<char>,
    i: int,
    env: Map<Seq<char>, LiteralView>,
    st: Seq<LiteralView>,
)
    requires
        0 <= i < s.len(),
        !crate::text::is_ws_char(s[i]),
        !crate::token::is_reserved_char(s[i]),
        !crate::text::is_alnum_char(s[i]),
        !crate::text::is_numeric_char(s[i]),
    ensures
        ({
            let (r, e2, s2) = sp_interpret(s, env, st);
            r is Err && e2 == env && s2 == st
        }),
{
    crate::token::lemma_tokenize_untokenizable(s, i);
}

/// The text a line parses to is a function of the text alone.
pub open spec fn sp_parse_text(s: Seq<char>) -> Result<Seq<AstView>, InterpreterError> {
    match sp_tokenize(s) {
        Ok(ts) => sp_program(ts, 0),
        Err(e) => Err(e),
    }
}

/// Tokenizing and parsing are deterministic: two fresh sessions given
/// the same text build structurally identical trees, so re-running a
/// line can differ only through the environment the session carries.
pub proof fn lemma_build_deterministic(
    s1: Seq<char>,
    s2: Seq<char>,
    r1: Result<Seq<AstView>, InterpreterError>,
    r2: Result<Seq<AstView>, InterpreterError>,
)
    requires
        s1 == s2,
        r1 == sp_parse_text(s1),
        r2 == sp_parse_text(s2),
    ensures
        r1 == r2,
{
}

} // verus!
