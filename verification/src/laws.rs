use vstd::prelude::*;

use crate::evaluate::evaluate_spec;
use crate::reducer::combined;
use crate::reducer::in_tier;
use crate::reducer::solve_spec;
use crate::reducer::solve_tier_spec;
use crate::reducer::tier_step;
use crate::tokenizer::ExprError;
use crate::tokens::Operator;
use crate::tokens::TokenModel;
use crate::tokens::ValueModel;

verus! {

/// A leading number token moves across the scan unchanged.
proof fn lemma_step_number(
    done: Seq<TokenModel>,
    v: ValueModel,
    rest: Seq<TokenModel>,
    t1: Operator,
    t2: Operator,
)
    ensures
        tier_step(done, seq![TokenModel::Number(v)] + rest, t1, t2) == tier_step(
            done.push(TokenModel::Number(v)),
            rest,
            t1,
            t2,
        ),
{
    let s = seq![TokenModel::Number(v)] + rest;
    assert(s[0] == TokenModel::Number(v));
    assert(s.drop_first() =~= rest);
}

/// A leading operator outside the tier moves across the scan
/// unchanged.
proof fn lemma_step_operator(
    done: Seq<TokenModel>,
    op: Operator,
    rest: Seq<TokenModel>,
    t1: Operator,
    t2: Operator,
)
    requires
        !in_tier(op, t1, t2),
    ensures
        tier_step(done, seq![TokenModel::Operator(op)] + rest, t1, t2) == tier_step(
            done.push(TokenModel::Operator(op)),
            rest,
            t1,
            t2,
        ),
{
    let s = seq![TokenModel::Operator(op)] + rest;
    assert(s[0] == TokenModel::Operator(op));
    assert(s.drop_first() =~= rest);
}

/// A leading operator of the tier consumes the number just scanned
/// and the number after it, leaving their combination.
proof fn lemma_step_reduce(
    done: Seq<TokenModel>,
    l: ValueModel,
    op: Operator,
    r: ValueModel,
    rest: Seq<TokenModel>,
    t1: Operator,
    t2: Operator,
)
    requires
        in_tier(op, t1, t2),
    ensures
        tier_step(
            done.push(TokenModel::Number(l)),
            seq![TokenModel::Operator(op), TokenModel::Number(r)] + rest,
            t1,
            t2,
        ) == tier_step(done.push(combined(l, op, r)), rest, t1, t2),
{
    let d = done.push(TokenModel::Number(l));
    let s = seq![TokenModel::Operator(op), TokenModel::Number(r)] + rest;
    assert(s[0] == TokenModel::Operator(op));
    assert(s[1] == TokenModel::Number(r));
    assert(d.last() == TokenModel::Number(l));
    assert(d.drop_last() =~= done);
    assert(s.skip(2) =~= rest);
}

/// A pass whose tier has no occurrence in the sequence leaves it
/// untouched.
proof fn lemma_pass_untouched(
    done: Seq<TokenModel>,
    rest: Seq<TokenModel>,
    t1: Operator,
    t2: Operator,
)
    requires
        forall|i: int|
            0 <= i < rest.len() ==> ((#[trigger] rest[i]) matches TokenModel::Operator(op)
                ==> !in_tier(op, t1, t2)),
    ensures
        tier_step(done, rest, t1, t2) == done + rest,
    decreases rest.len(),
{
    if rest.len() == 0 {
        assert(done + rest =~= done);
    } else {
        assert(rest[0] matches TokenModel::Operator(op) ==> !in_tier(op, t1, t2));
        assert forall|i: int|
            0 <= i < rest.drop_first().len() implies ((#[trigger] rest.drop_first()[i]) matches
            TokenModel::Operator(op) ==> !in_tier(op, t1, t2)) by {
            assert(rest.drop_first()[i] == rest[i + 1]);
        }
        lemma_pass_untouched(done.push(rest[0]), rest.drop_first(), t1, t2);
        assert(done.push(rest[0]) + rest.drop_first() =~= done + rest);
    }
}

/// Precedence law: in `a + b * c` the multiplication binds tighter,
/// so the reduction yields `a + (b * c)`.
pub proof fn lemma_precedence_add_mul(a: ValueModel, b: ValueModel, c: ValueModel)
    ensures
        solve_spec(
            seq![
                TokenModel::Number(a),
                TokenModel::Operator(Operator::Add),
                TokenModel::Number(b),
                TokenModel::Operator(Operator::Mul),
                TokenModel::Number(c),
                TokenModel::Operator(Operator::Equal),
            ],
        ) == seq![
            TokenModel::Number(
                ValueModel::App(
                    Box::new(a),
                    Operator::Add,
                    Box::new(ValueModel::App(Box::new(b), Operator::Mul, Box::new(c))),
                ),
            ),
            TokenModel::Operator(Operator::Equal),
        ],
{
    let e = Seq::<TokenModel>::empty();
    let s0 = seq![
        TokenModel::Number(a),
        TokenModel::Operator(Operator::Add),
        TokenModel::Number(b),
        TokenModel::Operator(Operator::Mul),
        TokenModel::Number(c),
        TokenModel::Operator(Operator::Equal),
    ];
    let bc = ValueModel::App(Box::new(b), Operator::Mul, Box::new(c));
    assert(solve_tier_spec(s0, Operator::Pow, Operator::Pow) == s0) by {
        lemma_pass_untouched(e, s0, Operator::Pow, Operator::Pow);
        assert(e + s0 =~= s0);
    }
    let s1 = seq![
        TokenModel::Number(a),
        TokenModel::Operator(Operator::Add),
        TokenModel::Number(bc),
        TokenModel::Operator(Operator::Equal),
    ];
    assert(solve_tier_spec(s0, Operator::Mul, Operator::Div) == s1) by {
        let r1 = seq![
            TokenModel::Operator(Operator::Add),
            TokenModel::Number(b),
            TokenModel::Operator(Operator::Mul),
            TokenModel::Number(c),
            TokenModel::Operator(Operator::Equal),
        ];
        assert(s0 =~= seq![TokenModel::Number(a)] + r1);
        lemma_step_number(e, a, r1, Operator::Mul, Operator::Div);
        let d1 = e.push(TokenModel::Number(a));
        let r2 = seq![
            TokenModel::Number(b),
            TokenModel::Operator(Operator::Mul),
            TokenModel::Number(c),
            TokenModel::Operator(Operator::Equal),
        ];
        assert(r1 =~= seq![TokenModel::Operator(Operator::Add)] + r2);
        lemma_step_operator(d1, Operator::Add, r2, Operator::Mul, Operator::Div);
        let d2 = d1.push(TokenModel::Operator(Operator::Add));
        let r3 = seq![
            TokenModel::Operator(Operator::Mul),
            TokenModel::Number(c),
            TokenModel::Operator(Operator::Equal),
        ];
        assert(r2 =~= seq![TokenModel::Number(b)] + r3);
        lemma_step_number(d2, b, r3, Operator::Mul, Operator::Div);
        let r4 = seq![TokenModel::Operator(Operator::Equal)];
        assert(r3 =~= seq![
            TokenModel::Operator(Operator::Mul),
            TokenModel::Number(c),
        ] + r4);
        lemma_step_reduce(d2, b, Operator::Mul, c, r4, Operator::Mul, Operator::Div);
        let d3 = d2.push(combined(b, Operator::Mul, c));
        assert(r4 =~= seq![TokenModel::Operator(Operator::Equal)] + e);
        lemma_step_operator(d3, Operator::Equal, e, Operator::Mul, Operator::Div);
        let d4 = d3.push(TokenModel::Operator(Operator::Equal));
        assert(tier_step(d4, e, Operator::Mul, Operator::Div) == d4);
        assert(d4 =~= s1);
    }
    assert(solve_tier_spec(s1, Operator::Add, Operator::Sub) == seq![
        TokenModel::Number(ValueModel::App(Box::new(a), Operator::Add, Box::new(bc))),
        TokenModel::Operator(Operator::Equal),
    ]) by {
        let r1 = seq![
            TokenModel::Operator(Operator::Add),
            TokenModel::Number(bc),
            TokenModel::Operator(Operator::Equal),
        ];
        assert(s1 =~= seq![TokenModel::Number(a)] + r1);
        lemma_step_number(e, a, r1, Operator::Add, Operator::Sub);
        let r2 = seq![TokenModel::Operator(Operator::Equal)];
        assert(r1 =~= seq![
            TokenModel::Operator(Operator::Add),
            TokenModel::Number(bc),
        ] + r2);
        lemma_step_reduce(e, a, Operator::Add, bc, r2, Operator::Add, Operator::Sub);
        let d1 = e.push(combined(a, Operator::Add, bc));
        assert(r2 =~= seq![TokenModel::Operator(Operator::Equal)] + e);
        lemma_step_operator(d1, Operator::Equal, e, Operator::Add, Operator::Sub);
        let d2 = d1.push(TokenModel::Operator(Operator::Equal));
        assert(tier_step(d2, e, Operator::Add, Operator::Sub) == d2);
        assert(d2 =~= seq![
            TokenModel::Number(ValueModel::App(Box::new(a), Operator::Add, Box::new(bc))),
            TokenModel::Operator(Operator::Equal),
        ]);
    }
}

/// Precedence law: in `a * b + c` the multiplication binds tighter,
/// so the reduction yields `(a * b) + c`.
pub proof fn lemma_precedence_mul_add(a: ValueModel, b: ValueModel, c: ValueModel)
    ensures
        solve_spec(
            seq![
                TokenModel::Number(a),
                TokenModel::Operator(Operator::Mul),
                TokenModel::Number(b),
                TokenModel::Operator(Operator::Add),
                TokenModel::Number(c),
                TokenModel::Operator(Operator::Equal),
            ],
        ) == seq![
            TokenModel::Number(
                ValueModel::App(
                    Box::new(ValueModel::App(Box::new(a), Operator::Mul, Box::new(b))),
                    Operator::Add,
                    Box::new(c),
                ),
            ),
            TokenModel::Operator(Operator::Equal),
        ],
{
    let e = Seq::<TokenModel>::empty();
    let s0 = seq![
        TokenModel::Number(a),
        TokenModel::Operator(Operator::Mul),
        TokenModel::Number(b),
        TokenModel::Operator(Operator::Add),
        TokenModel::Number(c),
        TokenModel::Operator(Operator::Equal),
    ];
    let ab = ValueModel::App(Box::new(a), Operator::Mul, Box::new(b));
    assert(solve_tier_spec(s0, Operator::Pow, Operator::Pow) == s0) by {
        lemma_pass_untouched(e, s0, Operator::Pow, Operator::Pow);
        assert(e + s0 =~= s0);
    }
    let s1 = seq![
        TokenModel::Number(ab),
        TokenModel::Operator(Operator::Add),
        TokenModel::Number(c),
        TokenModel::Operator(Operator::Equal),
    ];
    assert(solve_tier_spec(s0, Operator::Mul, Operator::Div) == s1) by {
        let r1 = seq![
            TokenModel::Operator(Operator::Mul),
            TokenModel::Number(b),
            TokenModel::Operator(Operator::Add),
            TokenModel::Number(c),
            TokenModel::Operator(Operator::Equal),
        ];
        assert(s0 =~= seq![TokenModel::Number(a)] + r1);
        lemma_step_number(e, a, r1, Operator::Mul, Operator::Div);
        let r2 = seq![
            TokenModel::Operator(Operator::Add),
            TokenModel::Number(c),
            TokenModel::Operator(Operator::Equal),
        ];
        assert(r1 =~= seq![
            TokenModel::Operator(Operator::Mul),
            TokenModel::Number(b),
        ] + r2);
        lemma_step_reduce(e, a, Operator::Mul, b, r2, Operator::Mul, Operator::Div);
        let d1 = e.push(combined(a, Operator::Mul, b));
        let r3 = seq![TokenModel::Number(c), TokenModel::Operator(Operator::Equal)];
        assert(r2 =~= seq![TokenModel::Operator(Operator::Add)] + r3);
        lemma_step_operator(d1, Operator::Add, r3, Operator::Mul, Operator::Div);
        let d2 = d1.push(TokenModel::Operator(Operator::Add));
        let r4 = seq![TokenModel::Operator(Operator::Equal)];
        assert(r3 =~= seq![TokenModel::Number(c)] + r4);
        lemma_step_number(d2, c, r4, Operator::Mul, Operator::Div);
        let d3 = d2.push(TokenModel::Number(c));
        assert(r4 =~= seq![TokenModel::Operator(Operator::Equal)] + e);
        lemma_step_operator(d3, Operator::Equal, e, Operator::Mul, Operator::Div);
        let d4 = d3.push(TokenModel::Operator(Operator::Equal));
        assert(tier_step(d4, e, Operator::Mul, Operator::Div) == d4);
        assert(d4 =~= s1);
    }
    assert(solve_tier_spec(s1, Operator::Add, Operator::Sub) == seq![
        TokenModel::Number(ValueModel::App(Box::new(ab), Operator::Add, Box::new(c))),
        TokenModel::Operator(Operator::Equal),
    ]) by {
        let r1 = seq![
            TokenModel::Operator(Operator::Add),
            TokenModel::Number(c),
            TokenModel::Operator(Operator::Equal),
        ];
        assert(s1 =~= seq![TokenModel::Number(ab)] + r1);
        lemma_step_number(e, ab, r1, Operator::Add, Operator::Sub);
        let r2 = seq![TokenModel::Operator(Operator::Equal)];
        assert(r1 =~= seq![
            TokenModel::Operator(Operator::Add),
            TokenModel::Number(c),
        ] + r2);
        lemma_step_reduce(e, ab, Operator::Add, c, r2, Operator::Add, Operator::Sub);
        let d1 = e.push(combined(ab, Operator::Add, c));
        assert(r2 =~= seq![TokenModel::Operator(Operator::Equal)] + e);
        lemma_step_operator(d1, Operator::Equal, e, Operator::Add, Operator::Sub);
        let d2 = d1.push(TokenModel::Operator(Operator::Equal));
        assert(tier_step(d2, e, Operator::Add, Operator::Sub) == d2);
        assert(d2 =~= seq![
            TokenModel::Number(ValueModel::App(Box::new(ab), Operator::Add, Box::new(c))),
            TokenModel::Operator(Operator::Equal),
        ]);
    }
}

/// Left-associativity law: `a - b - c` reduces as `(a - b) - c`.
pub proof fn lemma_left_assoc_sub(a: ValueModel, b: ValueModel, c: ValueModel)
    ensures
        solve_spec(
            seq![
                TokenModel::Number(a),
                TokenModel::Operator(Operator::Sub),
                TokenModel::Number(b),
                TokenModel::Operator(Operator::Sub),
                TokenModel::Number(c),
                TokenModel::Operator(Operator::Equal),
            ],
        ) == seq![
            TokenModel::Number(
                ValueModel::App(
                    Box::new(ValueModel::App(Box::new(a), Operator::Sub, Box::new(b))),
                    Operator::Sub,
                    Box::new(c),
                ),
            ),
            TokenModel::Operator(Operator::Equal),
        ],
{
    let e = Seq::<TokenModel>::empty();
    let s0 = seq![
        TokenModel::Number(a),
        TokenModel::Operator(Operator::Sub),
        TokenModel::Number(b),
        TokenModel::Operator(Operator::Sub),
        TokenModel::Number(c),
        TokenModel::Operator(Operator::Equal),
    ];
    let ab = ValueModel::App(Box::new(a), Operator::Sub, Box::new(b));
    assert(solve_tier_spec(s0, Operator::Pow, Operator::Pow) == s0) by {
        lemma_pass_untouched(e, s0, Operator::Pow, Operator::Pow);
        assert(e + s0 =~= s0);
    }
    assert(solve_tier_spec(s0, Operator::Mul, Operator::Div) == s0) by {
        lemma_pass_untouched(e, s0, Operator::Mul, Operator::Div);
        assert(e + s0 =~= s0);
    }
    assert(solve_tier_spec(s0, Operator::Add, Operator::Sub) == seq![
        TokenModel::Number(ValueModel::App(Box::new(ab), Operator::Sub, Box::new(c))),
        TokenModel::Operator(Operator::Equal),
    ]) by {
        let r1 = seq![
            TokenModel::Operator(Operator::Sub),
            TokenModel::Number(b),
            TokenModel::Operator(Operator::Sub),
            TokenModel::Number(c),
            TokenModel::Operator(Operator::Equal),
        ];
        assert(s0 =~= seq![TokenModel::Number(a)] + r1);
        lemma_step_number(e, a, r1, Operator::Add, Operator::Sub);
        let r2 = seq![
            TokenModel::Operator(Operator::Sub),
            TokenModel::Number(c),
            TokenModel::Operator(Operator::Equal),
        ];
        assert(r1 =~= seq![
            TokenModel::Operator(Operator::Sub),
            TokenModel::Number(b),
        ] + r2);
        lemma_step_reduce(e, a, Operator::Sub, b, r2, Operator::Add, Operator::Sub);
        let r3 = seq![TokenModel::Operator(Operator::Equal)];
        assert(r2 =~= seq![
            TokenModel::Operator(Operator::Sub),
            TokenModel::Number(c),
        ] + r3);
        lemma_step_reduce(e, ab, Operator::Sub, c, r3, Operator::Add, Operator::Sub);
        let d1 = e.push(combined(ab, Operator::Sub, c));
        assert(r3 =~= seq![TokenModel::Operator(Operator::Equal)] + e);
        lemma_step_operator(d1, Operator::Equal, e, Operator::Add, Operator::Sub);
        let d2 = d1.push(TokenModel::Operator(Operator::Equal));
        assert(tier_step(d2, e, Operator::Add, Operator::Sub) == d2);
        assert(d2 =~= seq![
            TokenModel::Number(ValueModel::App(Box::new(ab), Operator::Sub, Box::new(c))),
            TokenModel::Operator(Operator::Equal),
        ]);
    }
}

/// Left-associativity law for exponentiation: `a ^ b ^ c` reduces as
/// `(a ^ b) ^ c`, not as `a ^ (b ^ c)`. The left-to-right tier scan
/// makes the power tier left-associative as well; this is part of the
/// documented behaviour and is preserved as it stands.
pub proof fn lemma_left_assoc_pow(a: ValueModel, b: ValueModel, c: ValueModel)
    ensures
        solve_spec(
            seq![
                TokenModel::Number(a),
                TokenModel::Operator(Operator::Pow),
                TokenModel::Number(b),
                TokenModel::Operator(Operator::Pow),
                TokenModel::Number(c),
                TokenModel::Operator(Operator::Equal),
            ],
        ) == seq![
            TokenModel::Number(
                ValueModel::App(
                    Box::new(ValueModel::App(Box::new(a), Operator::Pow, Box::new(b))),
                    Operator::Pow,
                    Box::new(c),
                ),
            ),
            TokenModel::Operator(Operator::Equal),
        ],
{
    let e = Seq::<TokenModel>::empty();
    let s0 = seq![
        TokenModel::Number(a),
        TokenModel::Operator(Operator::Pow),
        TokenModel::Number(b),
        TokenModel::Operator(Operator::Pow),
        TokenModel::Number(c),
        TokenModel::Operator(Operator::Equal),
    ];
    let ab = ValueModel::App(Box::new(a), Operator::Pow, Box::new(b));
    let s1 = seq![
        TokenModel::Number(ValueModel::App(Box::new(ab), Operator::Pow, Box::new(c))),
        TokenModel::Operator(Operator::Equal),
    ];
    assert(solve_tier_spec(s0, Operator::Pow, Operator::Pow) == s1) by {
        let r1 = seq![
            TokenModel::Operator(Operator::Pow),
            TokenModel::Number(b),
            TokenModel::Operator(Operator::Pow),
            TokenModel::Number(c),
            TokenModel::Operator(Operator::Equal),
        ];
        assert(s0 =~= seq![TokenModel::Number(a)] + r1);
        lemma_step_number(e, a, r1, Operator::Pow, Operator::Pow);
        let r2 = seq![
            TokenModel::Operator(Operator::Pow),
            TokenModel::Number(c),
            TokenModel::Operator(Operator::Equal),
        ];
        assert(r1 =~= seq![
            TokenModel::Operator(Operator::Pow),
            TokenModel::Number(b),
        ] + r2);
        lemma_step_reduce(e, a, Operator::Pow, b, r2, Operator::Pow, Operator::Pow);
        let r3 = seq![TokenModel::Operator(Operator::Equal)];
        assert(r2 =~= seq![
            TokenModel::Operator(Operator::Pow),
            TokenModel::Number(c),
        ] + r3);
        lemma_step_reduce(e, ab, Operator::Pow, c, r3, Operator::Pow, Operator::Pow);
        let d1 = e.push(combined(ab, Operator::Pow, c));
        assert(r3 =~= seq![TokenModel::Operator(Operator::Equal)] + e);
        lemma_step_operator(d1, Operator::Equal, e, Operator::Pow, Operator::Pow);
        let d2 = d1.push(TokenModel::Operator(Operator::Equal));
        assert(tier_step(d2, e, Operator::Pow, Operator::Pow) == d2);
        assert(d2 =~= s1);
    }
    assert(solve_tier_spec(s1, Operator::Mul, Operator::Div) == s1) by {
        lemma_pass_untouched(e, s1, Operator::Mul, Operator::Div);
        assert(e + s1 =~= s1);
    }
    assert(solve_tier_spec(s1, Operator::Add, Operator::Sub) == s1) by {
        lemma_pass_untouched(e, s1, Operator::Add, Operator::Sub);
        assert(e + s1 =~= s1);
    }
}

/// Evaluation is pure: the outcome is a function of the expression
/// text alone, so two evaluations of the same text agree.
pub proof fn lemma_evaluate_deterministic(
    s: Seq<char>,
    r1: Result<ValueModel, ExprError>,
    r2: Result<ValueModel, ExprError>,
)
    requires
        r1 == evaluate_spec(s),
        r2 == evaluate_spec(s),
    ensures
        r1 == r2,
{
}

} // verus!
