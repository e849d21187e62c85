use vstd::prelude::*;

use crate::tokens::models;
use crate::tokens::op_in;
use crate::tokens::wf_tokens;
use crate::tokens::Operator;
use crate::tokens::Token;
use crate::tokens::TokenModel;
use crate::tokens::Value;
use crate::tokens::ValueModel;

verus! {

/// The value held by a number token. Falls back to an arbitrary value
/// on operator tokens, which callers rule out.
pub open spec fn num_of(t: TokenModel) -> ValueModel {
    match t {
        TokenModel::Number(v) => v,
        TokenModel::Operator(_) => arbitrary(),
    }
}

/// The operator held by an operator token. Falls back to an arbitrary
/// value on number tokens, which callers rule out.
pub open spec fn op_of(t: TokenModel) -> Operator {
    match t {
        TokenModel::Operator(op) => op,
        TokenModel::Number(_) => arbitrary(),
    }
}

/// Whether `op` belongs to the precedence tier `{t1, t2}`. A
/// single-operator tier is written with `t1 == t2`.
pub open spec fn in_tier(op: Operator, t1: Operator, t2: Operator) -> bool {
    op == t1 || op == t2
}

/// The number token produced by reducing the triple `l op r`.
pub open spec fn combined(l: ValueModel, op: Operator, r: ValueModel) -> TokenModel {
    TokenModel::Number(ValueModel::App(Box::new(l), op, Box::new(r)))
}

/// One left-to-right pass over `rest`, with `done` the part already
/// scanned. A number moves across unchanged; an operator of the tier
/// consumes the number before it (the last of `done`) and the number
/// after it, leaving their combination; any other operator moves
/// across. On well-formed sequences the guards of the reducing branch
/// always hold; they make the definition total.
pub open spec fn tier_step(
    done: Seq<TokenModel>,
    rest: Seq<TokenModel>,
    t1: Operator,
    t2: Operator,
) -> Seq<TokenModel>
    decreases rest.len(),
{
    if rest.len() == 0 {
        done
    } else {
        match rest[0] {
            TokenModel::Number(_) => tier_step(done.push(rest[0]), rest.drop_first(), t1, t2),
            TokenModel::Operator(op) => {
                if in_tier(op, t1, t2) && done.len() >= 1 && done.last() is Number
                    && rest.len() >= 2 && rest[1] is Number {
                    tier_step(
                        done.drop_last().push(combined(num_of(done.last()), op, num_of(rest[1]))),
                        rest.skip(2),
                        t1,
                        t2,
                    )
                } else {
                    tier_step(done.push(rest[0]), rest.drop_first(), t1, t2)
                }
            },
        }
    }
}

/// The result of one full pass that reduces every operator of the tier
/// `{t1, t2}`, left to right.
pub open spec fn solve_tier_spec(s: Seq<TokenModel>, t1: Operator, t2: Operator) -> Seq<
    TokenModel,
> {
    tier_step(Seq::empty(), s, t1, t2)
}

/// The three precedence tiers in order: all powers first, then
/// multiplications and divisions, then additions and subtractions,
/// each pass left to right.
pub open spec fn solve_spec(s: Seq<TokenModel>) -> Seq<TokenModel> {
    solve_tier_spec(
        solve_tier_spec(
            solve_tier_spec(s, Operator::Pow, Operator::Pow),
            Operator::Mul,
            Operator::Div,
        ),
        Operator::Add,
        Operator::Sub,
    )
}

/// A reduction triple: two numeric operands and the arithmetic
/// operator between them. The sentinel `Equal` never forms a triple.
pub struct Operation {
    pub first_number: Value,
    pub operator: Operator,
    pub second_number: Value,
}

impl Operation {
    /// Collapses the triple into a single value recording the
    /// operation. The numeric folding of the finished tree happens
    /// outside the verified library.
    pub fn eval(self) -> (r: Value)
        requires
            self.operator != Operator::Equal,
        ensures
            r.model() == ValueModel::App(
                Box::new(self.first_number.model()),
                self.operator,
                Box::new(self.second_number.model()),
            ),
    {
        Value::App(Box::new(self.first_number), self.operator, Box::new(self.second_number))
    }
}

/// One reduction pass over the token sequence for the tier `{t1, t2}`:
/// scans left to right, carrying the output built so far; each tier
/// operator consumes the number built just before it and the number
/// after it and leaves their combination in place.
fn solve_pair(input: Vec<Token>, t1: Operator, t2: Operator) -> (out: Vec<Token>)
    requires
        t1 != Operator::Equal,
        t2 != Operator::Equal,
        wf_tokens(models(input@)),
    ensures
        models(out@) == solve_tier_spec(models(input@), t1, t2),
        wf_tokens(models(out@)),
        forall|op: Operator| #[trigger]
            op_in(models(out@), op) && op != Operator::Equal ==> !in_tier(op, t1, t2) && op_in(
                models(input@),
                op,
            ),
{
    let ghost orig: Seq<TokenModel> = models(input@);
    let mut rest = input;
    let mut out: Vec<Token> = Vec::new();
    proof {
        assert(models(out@) =~= Seq::<TokenModel>::empty());
        assert(models(out@) + models(rest@) =~= orig);
    }
    while rest.len() > 0
        invariant
            t1 != Operator::Equal,
            t2 != Operator::Equal,
            wf_tokens(orig),
            wf_tokens(models(out@) + models(rest@)),
            tier_step(models(out@), models(rest@), t1, t2) == solve_tier_spec(orig, t1, t2),
            forall|op: Operator| #[trigger]
                op_in(models(out@), op) && op != Operator::Equal ==> !in_tier(op, t1, t2)
                    && op_in(orig, op),
            forall|op: Operator| #[trigger] op_in(models(rest@), op) ==> op_in(orig, op),
        decreases rest.len(),
    {
        let ghost pre_out: Seq<TokenModel> = models(out@);
        let ghost pre_rest: Seq<TokenModel> = models(rest@);
        let ghost s: Seq<TokenModel> = pre_out + pre_rest;
        let ghost n: int = pre_out.len() as int;
        let t = rest.remove(0);
        proof {
            assert(models(rest@) =~= pre_rest.drop_first());
            assert(t.model() == pre_rest[0]);
            assert(s[n] == pre_rest[0]);
        }
        match t {
            Token::Number(v) => {
                out.push(Token::Number(v));
                proof {
                    assert(models(out@) =~= pre_out.push(pre_rest[0]));
                    assert(models(out@) + models(rest@) =~= s);
                    assert(tier_step(models(out@), models(rest@), t1, t2) == tier_step(
                        pre_out,
                        pre_rest,
                        t1,
                        t2,
                    ));
                    assert forall|op: Operator| #[trigger]
                        op_in(models(out@), op) && op != Operator::Equal implies !in_tier(
                        op,
                        t1,
                        t2,
                    ) && op_in(orig, op) by {
                        let i = choose|i: int|
                            0 <= i < models(out@).len() && models(out@)[i]
                                == TokenModel::Operator(op);
                        assert(i < pre_out.len());
                        assert(op_in(pre_out, op));
                    }
                    assert forall|op: Operator| #[trigger] op_in(models(rest@), op) implies op_in(
                        orig,
                        op,
                    ) by {
                        let i = choose|i: int|
                            0 <= i < models(rest@).len() && models(rest@)[i]
                                == TokenModel::Operator(op);
                        assert(pre_rest[i + 1] == TokenModel::Operator(op));
                        assert(op_in(pre_rest, op));
                    }
                }
            },
            Token::Operator(op) => {
                if op == t1 || op == t2 {
                    proof {
                        // The operator sits at an odd position that is not the
                        // last, so a number stands on each side of it.
                        assert(n % 2 == 1) by {
                            if n % 2 == 0 {
                                assert(s[n] is Number);
                            }
                        }
                        assert(n < s.len() - 1) by {
                            if n == s.len() - 1 {
                                assert(s[s.len() - 1] == TokenModel::Operator(Operator::Equal));
                            }
                        }
                        assert(pre_out.len() >= 1);
                        assert((n - 1) % 2 == 0);
                        assert(s[n - 1] is Number);
                        assert(pre_out.last() == s[n - 1]);
                        assert(pre_rest.len() >= 2);
                        assert((n + 1) % 2 == 0);
                        assert(s[n + 1] is Number);
                        assert(pre_rest[1] == s[n + 1]);
                        assert(rest@.len() >= 1);
                    }
                    let popped = out.pop();
                    let l = match popped {
                        Some(Token::Number(lv)) => lv,
                        _ => unreached(),
                    };
                    let rt = rest.remove(0);
                    let r = match rt {
                        Token::Number(rv) => rv,
                        Token::Operator(_) => unreached(),
                    };
                    let node = Operation { first_number: l, operator: op, second_number: r }.eval();
                    out.push(Token::Number(node));
                    proof {
                        assert(models(out@) =~= pre_out.drop_last().push(
                            combined(num_of(pre_out.last()), op, num_of(pre_rest[1])),
                        ));
                        assert(models(rest@) =~= pre_rest.skip(2));
                        assert(tier_step(models(out@), models(rest@), t1, t2) == tier_step(
                            pre_out,
                            pre_rest,
                            t1,
                            t2,
                        ));
                        let s2 = models(out@) + models(rest@);
                        assert(s.len() % 2 == 0);
                        assert(s.len() >= n + 3);
                        assert(s.len() >= 4);
                        assert(s2.len() == s.len() - 2);
                        assert forall|i: int| 0 <= i < s2.len() implies s2[i] == (if i < n - 1 {
                            s[i]
                        } else if i == n - 1 {
                            combined(num_of(s[n - 1]), op, num_of(s[n + 1]))
                        } else {
                            s[i + 2]
                        }) by {
                            if i < n - 1 {
                                assert(s2[i] == pre_out.drop_last()[i]);
                            } else if i == n - 1 {
                            } else {
                                assert(s2[i] == pre_rest.skip(2)[i - n]);
                                assert(pre_rest.skip(2)[i - n] == pre_rest[i - n + 2]);
                                assert(pre_rest[i - n + 2] == s[i + 2]);
                            }
                        }
                        assert(wf_tokens(s2)) by {
                            assert(s2.len() >= 2);
                            assert(s2.len() % 2 == 0);
                            assert forall|i: int| 0 <= i < s2.len() && i % 2 == 0 implies #[trigger]
                            s2[i] is Number by {
                                if i < n - 1 {
                                    assert(s2[i] == s[i]);
                                } else if i > n - 1 {
                                    assert(s2[i] == s[i + 2]);
                                }
                            }
                            assert forall|i: int| 0 <= i < s2.len() && i % 2 == 1 implies #[trigger]
                            s2[i] is Operator by {
                                if i < n - 1 {
                                    assert(s2[i] == s[i]);
                                } else {
                                    assert(i > n - 1);
                                    assert(s2[i] == s[i + 2]);
                                }
                            }
                            assert(s2.len() - 1 > n - 1);
                            assert(s2[s2.len() - 1] == s[s.len() - 1]);
                            assert forall|i: int| 0 <= i < s2.len() - 1 && i % 2 == 1 implies
                                #[trigger] s2[i] != TokenModel::Operator(Operator::Equal) by {
                                if i < n - 1 {
                                    assert(s2[i] == s[i]);
                                } else {
                                    assert(i > n - 1);
                                    assert(s2[i] == s[i + 2]);
                                    assert(i + 2 < s.len() - 1);
                                }
                            }
                        }
                        assert forall|opk: Operator| #[trigger]
                            op_in(models(out@), opk) && opk != Operator::Equal implies !in_tier(
                            opk,
                            t1,
                            t2,
                        ) && op_in(orig, opk) by {
                            let i = choose|i: int|
                                0 <= i < models(out@).len() && models(out@)[i]
                                    == TokenModel::Operator(opk);
                            assert(i < pre_out.len() - 1);
                            assert(pre_out[i] == TokenModel::Operator(opk));
                            assert(op_in(pre_out, opk));
                        }
                        assert forall|opk: Operator| #[trigger] op_in(models(rest@), opk) implies op_in(
                            orig,
                            opk,
                        ) by {
                            let i = choose|i: int|
                                0 <= i < models(rest@).len() && models(rest@)[i]
                                    == TokenModel::Operator(opk);
                            assert(pre_rest[i + 2] == TokenModel::Operator(opk));
                            assert(op_in(pre_rest, opk));
                        }
                    }
                } else {
                    out.push(Token::Operator(op));
                    proof {
                        assert(models(out@) =~= pre_out.push(pre_rest[0]));
                        assert(models(out@) + models(rest@) =~= s);
                        assert(tier_step(models(out@), models(rest@), t1, t2) == tier_step(
                            pre_out,
                            pre_rest,
                            t1,
                            t2,
                        ));
                        assert forall|opk: Operator| #[trigger]
                            op_in(models(out@), opk) && opk != Operator::Equal implies !in_tier(
                            opk,
                            t1,
                            t2,
                        ) && op_in(orig, opk) by {
                            let i = choose|i: int|
                                0 <= i < models(out@).len() && models(out@)[i]
                                    == TokenModel::Operator(opk);
                            if i < pre_out.len() {
                                assert(op_in(pre_out, opk));
                            } else {
                                assert(models(out@)[i] == pre_rest[0]);
                                assert(op_in(pre_rest, opk));
                            }
                        }
                        assert forall|opk: Operator| #[trigger] op_in(models(rest@), opk) implies op_in(
                            orig,
                            opk,
                        ) by {
                            let i = choose|i: int|
                                0 <= i < models(rest@).len() && models(rest@)[i]
                                    == TokenModel::Operator(opk);
                            assert(pre_rest[i + 1] == TokenModel::Operator(opk));
                            assert(op_in(pre_rest, opk));
                        }
                    }
                }
            },
        }
    }
    proof {
        assert(models(rest@) =~= Seq::<TokenModel>::empty());
        assert(models(out@) + models(rest@) =~= models(out@));
    }
    out
}

/// Reduces every occurrence of the single operator `operation_type`,
/// left to right, leaving all other tokens in place.
pub fn solve_operations(expr: Vec<Token>, operation_type: Operator) -> (out: Vec<Token>)
    requires
        operation_type != Operator::Equal,
        wf_tokens(models(expr@)),
    ensures
        models(out@) == solve_tier_spec(models(expr@), operation_type, operation_type),
        wf_tokens(models(out@)),
        forall|op: Operator| #[trigger]
            op_in(models(out@), op) && op != Operator::Equal ==> op != operation_type && op_in(
                models(expr@),
                op,
            ),
{
    solve_pair(expr, operation_type, operation_type)
}

/// Reduces every multiplication and division, left to right.
pub fn solve_muls_and_divs(expr: Vec<Token>) -> (out: Vec<Token>)
    requires
        wf_tokens(models(expr@)),
    ensures
        models(out@) == solve_tier_spec(models(expr@), Operator::Mul, Operator::Div),
        wf_tokens(models(out@)),
        forall|op: Operator| #[trigger]
            op_in(models(out@), op) && op != Operator::Equal ==> op != Operator::Mul && op
                != Operator::Div && op_in(models(expr@), op),
{
    solve_pair(expr, Operator::Mul, Operator::Div)
}

/// Reduces every addition and subtraction, left to right.
pub fn solve_adds_and_subs(expr: Vec<Token>) -> (out: Vec<Token>)
    requires
        wf_tokens(models(expr@)),
    ensures
        models(out@) == solve_tier_spec(models(expr@), Operator::Add, Operator::Sub),
        wf_tokens(models(out@)),
        forall|op: Operator| #[trigger]
            op_in(models(out@), op) && op != Operator::Equal ==> op != Operator::Add && op
                != Operator::Sub && op_in(models(expr@), op),
{
    solve_pair(expr, Operator::Add, Operator::Sub)
}

/// Runs the three precedence tiers in order. On a well-formed token
/// sequence every arithmetic operator is consumed, so exactly one
/// number token remains, followed by the `Equal` sentinel.
pub fn expr_solver(expr: Vec<Token>) -> (out: Vec<Token>)
    requires
        wf_tokens(models(expr@)),
    ensures
        models(out@) == solve_spec(models(expr@)),
        wf_tokens(models(out@)),
        out@.len() == 2,
        models(out@)[0] is Number,
        models(out@)[1] == TokenModel::Operator(Operator::Equal),
{
    let ghost m0: Seq<TokenModel> = models(expr@);
    let e1 = solve_operations(expr, Operator::Pow);
    let ghost m1: Seq<TokenModel> = models(e1@);
    let e2 = solve_muls_and_divs(e1);
    let ghost m2: Seq<TokenModel> = models(e2@);
    let e3 = solve_adds_and_subs(e2);
    proof {
        let m3 = models(e3@);
        assert(m3.len() == 2) by {
            if m3.len() != 2 {
                assert(m3.len() >= 4);
                assert(m3[1] is Operator);
                let op = op_of(m3[1]);
                assert(m3[1] == TokenModel::Operator(op));
                assert(op_in(m3, op));
                assert(op != Operator::Equal);
                assert(op != Operator::Add && op != Operator::Sub && op_in(m2, op));
                assert(op != Operator::Mul && op != Operator::Div && op_in(m1, op));
                assert(op != Operator::Pow);
                assert(false);
            }
        }
    }
    e3
}

} // verus!
