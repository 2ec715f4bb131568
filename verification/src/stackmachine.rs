//! The evaluator: walks a syntax tree, keeping an operand stack and a
//! name-to-value environment, and applies the arithmetic operators.

use vstd::prelude::*;
use crate::logger::{LoggerRepository, LoggerInteractor, DefaultLoggerRepository};
use crate::machine::{Literal, LiteralView, lits_v, lemma_lits_v_push};
use crate::ast::{AbstractSyntaxTreeKind, AbstractSyntaxTreeNode, AstKindView, AstView, ast_v};
use crate::operator::{sp_op_stack, sp_add_f, sp_sub_f, sp_mul_f, sp_div_f};
use crate::interpreter::InterpreterError;
use crate::text::str_eq;

verus! {

/// The environment a variable list denotes: later entries shadow
/// earlier ones.
pub open spec fn env_map_of(s: Seq<(String, Literal)>) -> Map<Seq<char>, LiteralView>
    decreases s.len(),
{
    if s.len() == 0 {
        Map::empty()
    } else {
        env_map_of(s.drop_last()).insert(s.last().0@, s.last().1@)
    }
}

proof fn lemma_env_found(s: Seq<(String, Literal)>, k: Seq<char>, i: int)
    requires
        0 <= i < s.len(),
        s[i].0@ == k,
        forall|j: int| i < j < s.len() ==> (#[trigger] s[j]).0@ != k,
    ensures
        env_map_of(s).contains_key(k),
        env_map_of(s)[k] == s[i].1@,
    decreases s.len(),
{
    if i == s.len() - 1 {
    } else {
        assert(s.drop_last()[i] == s[i]);
        assert forall|j: int| i < j < s.drop_last().len() implies (#[trigger] s.drop_last()[j]).0@
            != k by {
            assert(s.drop_last()[j] == s[j]);
        }
        lemma_env_found(s.drop_last(), k, i);
        assert(s.last().0@ != k);
    }
}

proof fn lemma_env_absent(s: Seq<(String, Literal)>, k: Seq<char>)
    requires
        forall|j: int| 0 <= j < s.len() ==> (#[trigger] s[j]).0@ != k,
    ensures
        !env_map_of(s).contains_key(k),
    decreases s.len(),
{
    if s.len() > 0 {
        assert forall|j: int| 0 <= j < s.drop_last().len() implies (#[trigger] s.drop_last()[j]).0@
            != k by {
            assert(s.drop_last()[j] == s[j]);
        }
        lemma_env_absent(s.drop_last(), k);
        assert(s.last().0@ != k);
    }
}

/// What applying an operator node to the stack yields; an unrecognized
/// node kind at this stage cannot be computed.
pub open spec fn sp_dispatch(
    k: AstKindView,
    env: Map<Seq<char>, LiteralView>,
    st: Seq<LiteralView>,
) -> (Result<LiteralView, InterpreterError>, Map<Seq<char>, LiteralView>, Seq<LiteralView>) {
    match k {
        AstKindView::Add => {
            let (r, st2) = sp_op_stack(st, sp_add_f());
            (r, env, st2)
        },
        AstKindView::Sub => {
            let (r, st2) = sp_op_stack(st, sp_sub_f());
            (r, env, st2)
        },
        AstKindView::Mul => {
            let (r, st2) = sp_op_stack(st, sp_mul_f());
            (r, env, st2)
        },
        AstKindView::Div => {
            let (r, st2) = sp_op_stack(st, sp_div_f());
            (r, env, st2)
        },
        _ => (Err(InterpreterError::CalculationError), env, st),
    }
}

/// What evaluating one tree does: the result, the environment after,
/// and the operand stack after. Leaves push their value; assignment
/// stores the right side under the left side's name; a variable reads
/// the environment; `return` passes its child through; operators
/// evaluate both children and combine the two stack tops.
pub open spec fn sp_exec(
    n: AstView,
    env: Map<Seq<char>, LiteralView>,
    st: Seq<LiteralView>,
) -> (Result<LiteralView, InterpreterError>, Map<Seq<char>, LiteralView>, Seq<LiteralView>)
    decreases n,
{
    match n.kind {
        AstKindView::Num(x) => (Ok(LiteralView::Num(x)), env, st.push(LiteralView::Num(x))),
        AstKindView::Text(s) => (Ok(LiteralView::Text(s)), env, st.push(LiteralView::Text(s))),
        AstKindView::Assign => {
            if n.children.len() == 0 {
                (Err(InterpreterError::InvalidLVariable), env, st)
            } else if n.children.len() == 1 {
                (Err(InterpreterError::InvalidRValue), env, st)
            } else {
                match n.children[0].kind {
                    AstKindView::LocalVariable(vname) => {
                        let (r, e1, s1) = sp_exec(n.children[1], env, st);
                        match r {
                            Ok(v) => (Ok(v), e1.insert(vname, v), s1),
                            Err(er) => (Err(er), e1, s1),
                        }
                    },
                    _ => (Err(InterpreterError::InvalidLVariable), env, st),
                }
            }
        },
        AstKindView::LocalVariable(x) => {
            if env.contains_key(x) {
                (Ok(env[x]), env, st.push(env[x]))
            } else {
                (Err(InterpreterError::UndefinedVariable), env, st)
            }
        },
        AstKindView::Return => {
            if n.children.len() == 0 {
                (Err(InterpreterError::InvalidRValue), env, st)
            } else {
                sp_exec(n.children[0], env, st)
            }
        },
        _ => {
            if n.children.len() >= 1 {
                let (r1, e1, s1) = sp_exec(n.children[0], env, st);
                match r1 {
                    Err(er) => (Err(er), e1, s1),
                    Ok(_) => {
                        if n.children.len() >= 2 {
                            let (r2, e2, s2) = sp_exec(n.children[1], e1, s1);
                            match r2 {
                                Err(er) => (Err(er), e2, s2),
                                Ok(_) => sp_dispatch(n.kind, e2, s2),
                            }
                        } else {
                            sp_dispatch(n.kind, e1, s1)
                        }
                    },
                }
            } else {
                sp_dispatch(n.kind, env, st)
            }
        },
    }
}

/// The tree-walking stack machine: one operand stack and one variable
/// environment, shared across a whole session.
pub struct StackMachine<T> where T: LoggerRepository + Clone {
    stack: Vec<Literal>,
    variables: Vec<(String, Literal)>,
    logger: LoggerInteractor<T>,
}

impl StackMachine<DefaultLoggerRepository> {
    pub fn init() -> (m: StackMachine<DefaultLoggerRepository>)
        ensures
            m.env() == Map::<Seq<char>, LiteralView>::empty(),
            m.stacks() == Seq::<LiteralView>::empty(),
    {
        StackMachine::init_with_logger(DefaultLoggerRepository {  })
    }
}

impl<T: LoggerRepository + Clone> StackMachine<T> {
    /// The environment as a map.
    pub closed spec fn env(&self) -> Map<Seq<char>, LiteralView> {
        env_map_of(self.variables@)
    }

    /// The operand stack, bottom first.
    pub closed spec fn stacks(&self) -> Seq<LiteralView> {
        lits_v(self.stack@)
    }

    fn new(logger: T) -> (m: StackMachine<T>)
        ensures
            m.env() == Map::<Seq<char>, LiteralView>::empty(),
            m.stacks() == Seq::<LiteralView>::empty(),
    {
        let m = StackMachine {
            stack: Vec::new(),
            variables: Vec::new(),
            logger: LoggerInteractor::new(logger),
        };
        proof {
            assert(m.stacks() =~= Seq::<LiteralView>::empty());
        }
        m
    }

    pub fn init_with_logger(logger: T) -> (m: StackMachine<T>)
        ensures
            m.env() == Map::<Seq<char>, LiteralView>::empty(),
            m.stacks() == Seq::<LiteralView>::empty(),
    {
        StackMachine::new(logger)
    }

    /// The latest value assigned under `name`, if any.
    fn find_variable(&self, name: &str) -> (r: Option<Literal>)
        ensures
            match r {
                Some(l) => self.env().contains_key(name@) && l@ == self.env()[name@],
                None => !self.env().contains_key(name@),
            },
    {
        let mut i = self.variables.len();
        while i > 0
            invariant
                i <= self.variables.len(),
                forall|j: int|
                    i <= j < self.variables@.len() ==> (#[trigger] self.variables@[j]).0@ != name@,
            decreases i,
        {
            i = i - 1;
            if str_eq(self.variables[i].0.as_str(), name) {
                proof {
                    lemma_env_found(self.variables@, name@, i as int);
                }
                return Some(self.variables[i].1.duplicate());
            }
        }
        proof {
            lemma_env_absent(self.variables@, name@);
        }
        None
    }

    /// Evaluates one tree against this machine's environment and stack.
    pub fn execute(&mut self, node: &AbstractSyntaxTreeNode) -> (r: Result<
        Literal,
        InterpreterError,
    >)
        ensures
            ({
                let (sr, e2, st2) = sp_exec(ast_v(*node), old(self).env(), old(self).stacks());
                final(self).env() == e2 && final(self).stacks() == st2 && (match r {
                    Ok(l) => sr matches Ok(v) && l@ == v,
                    Err(e) => sr matches Err(ex) && ex == e,
                })
            }),
        decreases *node,
    {
        let ghost n = ast_v(*node);
        let ghost env0 = self.env();
        let ghost st0 = self.stacks();
        proof {
            crate::ast::lemma_nodes_v(node.1@);
        }
        match &node.0 {
            AbstractSyntaxTreeKind::NUM(x) => {
                let ghost pre = self.stack@;
                self.stack.push(Literal::NUM(*x));
                proof {
                    assert(lits_v(self.stack@) =~= lits_v(pre).push(
                        LiteralView::Num(node.0->NUM_0),
                    ));
                }
                Ok(Literal::NUM(*x))
            },
            AbstractSyntaxTreeKind::STRING(x) => {
                let l = Literal::STRING(x.clone());
                let out = l.duplicate();
                let ghost pre = self.stack@;
                let ghost lsnap: Literal = l;
                self.stack.push(l);
                proof {
                    assert(self.stack@ == pre.push(lsnap));
                    assert(lsnap@ == LiteralView::Text(node.0->STRING_0@));
                    assert(lits_v(self.stack@) =~= lits_v(pre).push(lsnap@));
                }
                Ok(out)
            },
            AbstractSyntaxTreeKind::ASSIGN => {
                if node.1.len() == 0 {
                    return Err(InterpreterError::InvalidLVariable);
                }
                if node.1.len() == 1 {
                    proof {
                        assert(n.children.len() == 1);
                    }
                    return Err(InterpreterError::InvalidRValue);
                }
                proof {
                    crate::ast::lemma_nodes_v(node.1@);
                    assert(n.children[0] == ast_v(node.1@[0]));
                    assert(n.children[1] == ast_v(node.1@[1]));
                }
                match &node.1[0].0 {
                    AbstractSyntaxTreeKind::LOCALVARIABLE(vname) => {
                        let ghost vn = node.1@[0].0->LOCALVARIABLE_0@;
                        let name = vname.clone();
                        match self.execute(&node.1[1]) {
                            Ok(vdata) => {
                                let out = vdata.duplicate();
                                let ghost prevars = self.variables@;
                                let ghost vdv = vdata@;
                                self.variables.push((name, vdata));
                                proof {
                                    let vs = self.variables@;
                                    assert(vs.drop_last() =~= prevars);
                                    assert(vs.last().0@ == vn);
                                    assert(vs.last().1@ == vdv);
                                    assert(env_map_of(vs) == env_map_of(prevars).insert(vn, vdv));
                                }
                                Ok(out)
                            },
                            Err(e) => Err(e),
                        }
                    },
                    _ => {
                        proof {
                            assert(!(n.children[0].kind is LocalVariable));
                        }
                        Err(InterpreterError::InvalidLVariable)
                    },
                }
            },
            AbstractSyntaxTreeKind::LOCALVARIABLE(x) => {
                match self.find_variable(x.as_str()) {
                    Some(v) => {
                        let out = v.duplicate();
                        let ghost pre = self.stack@;
                        let ghost vsnap: Literal = v;
                        self.stack.push(v);
                        proof {
                            assert(self.stack@ == pre.push(vsnap));
                            assert(lits_v(self.stack@) =~= lits_v(pre).push(vsnap@));
                        }
                        Ok(out)
                    },
                    None => Err(InterpreterError::UndefinedVariable),
                }
            },
            AbstractSyntaxTreeKind::RETURN => {
                if node.1.len() == 0 {
                    return Err(InterpreterError::InvalidRValue);
                }
                proof {
                    crate::ast::lemma_nodes_v(node.1@);
                    assert(n.children[0] == ast_v(node.1@[0]));
                }
                self.execute(&node.1[0])
            },
            _ => {
                proof {
                    crate::ast::lemma_nodes_v(node.1@);
                }
                if node.1.len() >= 1 {
                    match self.execute(&node.1[0]) {
                        Ok(_) => {},
                        Err(e) => {
                            return Err(e);
                        },
                    }
                    if node.1.len() >= 2 {
                        match self.execute(&node.1[1]) {
                            Ok(_) => {},
                            Err(e) => {
                                return Err(e);
                            },
                        }
                    }
                }
                let opres = match &node.0 {
                    AbstractSyntaxTreeKind::ADD => crate::operator::add(&mut self.stack),
                    AbstractSyntaxTreeKind::SUB => crate::operator::sub(&mut self.stack),
                    AbstractSyntaxTreeKind::MUL => crate::operator::mul(&mut self.stack),
                    AbstractSyntaxTreeKind::DIV => crate::operator::div(&mut self.stack),
                    _ => {
                        self.logger.print("unreachable here");
                        return Err(InterpreterError::CalculationError);
                    },
                };
                match opres {
                    Ok(l) => Ok(l),
                    Err(e) => Err(e),
                }
            },
        }
    }
}

} // verus!
