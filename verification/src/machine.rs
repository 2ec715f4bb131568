//! The tagged runtime value used by the evaluator, its environment and
//! its operand stack.

use vstd::prelude::*;
use crate::text::{dec_i32, i32_to_string};

verus! {

/// A runtime value. Only integers take part in arithmetic; strings are
/// carried through unchanged.
#[derive(Debug, PartialEq)]
pub enum Literal {
    NUM(i32),
    STRING(String),
}

/// The mathematical image of a `Literal`.
pub enum LiteralView {
    Num(i32),
    Text(Seq<char>),
}

impl View for Literal {
    type V = LiteralView;

    open spec fn view(&self) -> LiteralView {
        match self {
            Literal::NUM(x) => LiteralView::Num(*x),
            Literal::STRING(s) => LiteralView::Text(s@),
        }
    }
}

/// The printed form of a value: decimal text for a number, the text
/// itself for a string.
pub open spec fn lit_text(v: LiteralView) -> Seq<char> {
    match v {
        LiteralView::Num(x) => dec_i32(x as int),
        LiteralView::Text(s) => s,
    }
}

/// The images of a stack of values, bottom first.
pub open spec fn lits_v(s: Seq<Literal>) -> Seq<LiteralView> {
    s.map_values(|l: Literal| l@)
}

pub proof fn lemma_lits_v_push(s: Seq<Literal>, l: Literal)
    ensures
        lits_v(s.push(l)) == lits_v(s).push(l@),
{
    assert(lits_v(s.push(l)) =~= lits_v(s).push(l@));
}

pub proof fn lemma_lits_v_drop_last(s: Seq<Literal>)
    requires
        s.len() >= 1,
    ensures
        lits_v(s.drop_last()) == lits_v(s).drop_last(),
{
    assert(lits_v(s.drop_last()) =~= lits_v(s).drop_last());
}

impl Literal {
    /// A copy of this value.
    pub fn duplicate(&self) -> (r: Literal)
        ensures
            r@ == self@,
    {
        match self {
            Literal::NUM(x) => Literal::NUM(*x),
            Literal::STRING(s) => Literal::STRING(s.clone()),
        }
    }

    /// The printed form of this value.
    pub fn to_text(&self) -> (s: String)
        ensures
            s@ == lit_text(self@),
    {
        match self {
            Literal::NUM(x) => i32_to_string(*x),
            Literal::STRING(s) => s.clone(),
        }
    }
}

} // verus!
