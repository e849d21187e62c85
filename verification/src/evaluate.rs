use vstd::prelude::*;

use crate::reducer::expr_solver;
use crate::reducer::num_of;
use crate::reducer::solve_spec;
use crate::tokenizer::expr_parser;
use crate::tokenizer::tokenize_spec;
use crate::tokenizer::ExprError;
use crate::tokens::models;
use crate::tokens::Token;
use crate::tokens::TokenModel;
use crate::tokens::Value;
use crate::tokens::ValueModel;

verus! {

/// The outcome of the whole pipeline: tokenize, reduce the three
/// precedence tiers, and read the single residual value.
pub open spec fn evaluate_spec(s: Seq<char>) -> Result<ValueModel, ExprError> {
    match tokenize_spec(s) {
        Ok(toks) => Ok(num_of(solve_spec(toks)[0])),
        Err(e) => Err(e),
    }
}

/// Evaluates the expression: tokenizes it and reduces the token
/// sequence tier by tier until a single value is left, which it
/// returns. The value records every reduction that was performed;
/// folding it numerically is left to the caller.
pub fn evaluate(expr: &str) -> (r: Result<Value, ExprError>)
    ensures
        match r {
            Ok(v) => evaluate_spec(expr@) == Ok::<ValueModel, ExprError>(v.model()),
            Err(e) => evaluate_spec(expr@) == Err::<ValueModel, ExprError>(e),
        },
{
    let toks = match expr_parser(expr) {
        Ok(t) => t,
        Err(e) => {
            return Err(e);
        },
    };
    let mut solved = expr_solver(toks);
    let ghost sm = models(solved@);
    let first = solved.remove(0);
    proof {
        assert(first.model() == sm[0]);
    }
    match first {
        Token::Number(v) => Ok(v),
        Token::Operator(_) => unreached(),
    }
}

} // verus!
