//! The four arithmetic operators, each acting on the operand stack:
//! pop the right operand, pop the left operand, push the result.

use vstd::prelude::*;
use crate::machine::{Literal, LiteralView, lits_v, lemma_lits_v_push, lemma_lits_v_drop_last};
use crate::interpreter::InterpreterError;

verus! {

/// What one operator application does to a stack of values: pop two
/// (top = right operand), combine with `f`, push the result. With fewer
/// than two values the stack underflows; with operands that are not both
/// numbers the two values are consumed and the operation fails.
pub open spec fn sp_op_stack(
    sv: Seq<LiteralView>,
    f: spec_fn(i32, i32) -> Result<i32, InterpreterError>,
) -> (Result<LiteralView, InterpreterError>, Seq<LiteralView>) {
    if sv.len() == 0 {
        (Err(InterpreterError::ZeroStack), sv)
    } else if sv.len() == 1 {
        (Err(InterpreterError::ZeroStack), sv.drop_last())
    } else {
        let a = sv.last();
        let b = sv[sv.len() - 2];
        let rest = sv.drop_last().drop_last();
        match (b, a) {
            (LiteralView::Num(y), LiteralView::Num(x)) => match f(y, x) {
                Ok(v) => (Ok(LiteralView::Num(v)), rest.push(LiteralView::Num(v))),
                Err(e) => (Err(e), rest),
            },
            _ => (Err(InterpreterError::TypeMismatch), rest),
        }
    }
}

pub open spec fn sp_add_f() -> spec_fn(i32, i32) -> Result<i32, InterpreterError> {
    |y: i32, x: i32| Ok(y.wrapping_add(x))
}

pub open spec fn sp_sub_f() -> spec_fn(i32, i32) -> Result<i32, InterpreterError> {
    |y: i32, x: i32| Ok(y.wrapping_sub(x))
}

pub open spec fn sp_mul_f() -> spec_fn(i32, i32) -> Result<i32, InterpreterError> {
    |y: i32, x: i32| Ok(y.wrapping_mul(x))
}

pub open spec fn sp_div_f() -> spec_fn(i32, i32) -> Result<i32, InterpreterError> {
    |y: i32, x: i32|
        match y.checked_div(x) {
            Some(v) => Ok(v),
            None => Err(InterpreterError::CalculationError),
        }
}

pub fn add(stack: &mut Vec<Literal>) -> (r: Result<Literal, InterpreterError>)
    ensures
        ({
            let (sr, sv) = sp_op_stack(lits_v(old(stack)@), sp_add_f());
            lits_v(final(stack)@) == sv && (match r {
                Ok(l) => sr matches Ok(v) && l@ == v,
                Err(e) => sr == Err::<LiteralView, InterpreterError>(e),
            })
        }),
{
    let a = match stack.pop() {
        Some(v) => v,
        None => {
            return Err(InterpreterError::ZeroStack);
        },
    };
    proof {
        lemma_lits_v_drop_last(old(stack)@);
    }
    let b = match stack.pop() {
        Some(v) => v,
        None => {
            return Err(InterpreterError::ZeroStack);
        },
    };
    proof {
        lemma_lits_v_drop_last(old(stack)@.drop_last());
    }
    match (a, b) {
        (Literal::NUM(x), Literal::NUM(y)) => {
            let s = Literal::NUM(y.wrapping_add(x));
            stack.push(s.duplicate());
            proof {
                lemma_lits_v_push(old(stack)@.drop_last().drop_last(), s);
            }
            Ok(s)
        },
        _ => Err(InterpreterError::TypeMismatch),
    }
}

pub fn sub(stack: &mut Vec<Literal>) -> (r: Result<Literal, InterpreterError>)
    ensures
        ({
            let (sr, sv) = sp_op_stack(lits_v(old(stack)@), sp_sub_f());
            lits_v(final(stack)@) == sv && (match r {
                Ok(l) => sr matches Ok(v) && l@ == v,
                Err(e) => sr == Err::<LiteralView, InterpreterError>(e),
            })
        }),
{
    let a = match stack.pop() {
        Some(v) => v,
        None => {
            return Err(InterpreterError::ZeroStack);
        },
    };
    proof {
        lemma_lits_v_drop_last(old(stack)@);
    }
    let b = match stack.pop() {
        Some(v) => v,
        None => {
            return Err(InterpreterError::ZeroStack);
        },
    };
    proof {
        lemma_lits_v_drop_last(old(stack)@.drop_last());
    }
    match (a, b) {
        (Literal::NUM(x), Literal::NUM(y)) => {
            let s = Literal::NUM(y.wrapping_sub(x));
            stack.push(s.duplicate());
            proof {
                lemma_lits_v_push(old(stack)@.drop_last().drop_last(), s);
            }
            Ok(s)
        },
        _ => Err(InterpreterError::TypeMismatch),
    }
}

pub fn mul(stack: &mut Vec<Literal>) -> (r: Result<Literal, InterpreterError>)
    ensures
        ({
            let (sr, sv) = sp_op_stack(lits_v(old(stack)@), sp_mul_f());
            lits_v(final(stack)@) == sv && (match r {
                Ok(l) => sr matches Ok(v) && l@ == v,
                Err(e) => sr == Err::<LiteralView, InterpreterError>(e),
            })
        }),
{
    let a = match stack.pop() {
        Some(v) => v,
        None => {
            return Err(InterpreterError::ZeroStack);
        },
    };
    proof {
        lemma_lits_v_drop_last(old(stack)@);
    }
    let b = match stack.pop() {
        Some(v) => v,
        None => {
            return Err(InterpreterError::ZeroStack);
        },
    };
    proof {
        lemma_lits_v_drop_last(old(stack)@.drop_last());
    }
    match (a, b) {
        (Literal::NUM(x), Literal::NUM(y)) => {
            let s = Literal::NUM(y.wrapping_mul(x));
            stack.push(s.duplicate());
            proof {
                lemma_lits_v_push(old(stack)@.drop_last().drop_last(), s);
            }
            Ok(s)
        },
        _ => Err(InterpreterError::TypeMismatch),
    }
}

pub fn div(stack: &mut Vec<Literal>) -> (r: Result<Literal, InterpreterError>)
    ensures
        ({
            let (sr, sv) = sp_op_stack(lits_v(old(stack)@), sp_div_f());
            lits_v(final(stack)@) == sv && (match r {
                Ok(l) => sr matches Ok(v) && l@ == v,
                Err(e) => sr == Err::<LiteralView, InterpreterError>(e),
            })
        }),
{
    let a = match stack.pop() {
        Some(v) => v,
        None => {
            return Err(InterpreterError::ZeroStack);
        },
    };
    proof {
        lemma_lits_v_drop_last(old(stack)@);
    }
    let b = match stack.pop() {
        Some(v) => v,
        None => {
            return Err(InterpreterError::ZeroStack);
        },
    };
    proof {
        lemma_lits_v_drop_last(old(stack)@.drop_last());
    }
    match (a, b) {
        (Literal::NUM(x), Literal::NUM(y)) => {
            match y.checked_div(x) {
                Some(q) => {
                    let s = Literal::NUM(q);
                    stack.push(s.duplicate());
                    proof {
                        lemma_lits_v_push(old(stack)@.drop_last().drop_last(), s);
                    }
                    Ok(s)
                },
                None => Err(InterpreterError::CalculationError),
            }
        },
        _ => Err(InterpreterError::TypeMismatch),
    }
}

} // verus!
