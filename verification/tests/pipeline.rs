use calc::evaluate::evaluate;
use calc::reducer::solve_adds_and_subs;
use calc::reducer::solve_muls_and_divs;
use calc::reducer::solve_operations;
use calc::reducer::expr_solver;
use calc::reducer::Operation;
use calc::tokenizer::expr_parser;
use calc::tokenizer::parse_number;
use calc::tokenizer::ExprError;
use calc::tokens::Operator;
use calc::tokens::Token;
use calc::tokens::Value;

/// Folds a finished value tree into a machine float, applying the
/// recorded operations with IEEE semantics.
fn fold(v: &Value) -> f64 {
    match v {
        Value::Lit(chars) => {
            let text: String = chars.iter().collect();
            text.parse::<f64>().unwrap()
        }
        Value::App(l, op, r) => {
            let a = fold(l);
            let b = fold(r);
            match op {
                Operator::Add => a + b,
                Operator::Sub => a - b,
                Operator::Mul => a * b,
                Operator::Div => a / b,
                Operator::Pow => a.powf(b),
                Operator::Equal => unreachable!(),
            }
        }
    }
}

/// Evaluates an expression all the way to a float.
fn eval_num(expr: &str) -> f64 {
    fold(&evaluate(expr).unwrap())
}

fn lit(text: &str) -> Value {
    Value::Lit(text.chars().collect())
}

#[test]
fn tokenize_three_plus_four() {
    let toks = expr_parser("3+4").unwrap();
    assert_eq!(
        toks,
        vec![
            Token::Number(lit("3")),
            Token::Operator(Operator::Add),
            Token::Number(lit("4")),
            Token::Operator(Operator::Equal),
        ]
    );
    // the numeric substrings parse to 3.0 and 4.0
    if let Token::Number(v) = &toks[0] {
        assert_eq!(fold(v), 3.0);
    } else {
        panic!("first token is not a number");
    }
    if let Token::Number(v) = &toks[2] {
        assert_eq!(fold(v), 4.0);
    } else {
        panic!("third token is not a number");
    }
}

#[test]
fn tokenized_sequence_is_even_and_ends_with_equal() {
    for expr in ["3+4", "1*2*3*4", "7", " 2 ^ 8 - 1 ", "10/5-3+2.5"] {
        let toks = expr_parser(expr).unwrap();
        assert_eq!(toks.len() % 2, 0);
        assert_eq!(*toks.last().unwrap(), Token::Operator(Operator::Equal));
    }
}

#[test]
fn evaluate_sample_expression() {
    assert_eq!(eval_num("3*4-9/3+3.0+3/3*12*30+2.0^2.0"), 376.0);
}

#[test]
fn evaluate_sample_expression_with_spaces() {
    assert_eq!(eval_num("3 * 4 - 9 / 3 + 3.0 + 3 / 3 * 12 * 30 + 2.0^2.0"), 376.0);
}

#[test]
fn precedence_of_multiplication() {
    assert_eq!(eval_num("2+3*4"), 14.0);
    assert_eq!(eval_num("2*3+4"), 10.0);
}

#[test]
fn left_associative_subtraction() {
    assert_eq!(eval_num("10-2-3"), 5.0);
}

#[test]
fn left_associative_power() {
    // (2^3)^2 = 64, not 2^(3^2) = 512
    assert_eq!(eval_num("2^3^2"), 64.0);
}

#[test]
fn division_by_zero_follows_float_semantics() {
    let r = eval_num("1/0");
    assert!(r.is_infinite() && r.is_sign_positive());
    assert!(eval_num("0/0").is_nan());
}

#[test]
fn malformed_number_between_operators() {
    // the substring between `+` and `*` is empty
    assert_eq!(evaluate("3+*4"), Err(ExprError::MalformedNumber));
}

#[test]
fn malformed_numbers_are_fatal() {
    assert_eq!(evaluate(""), Err(ExprError::MalformedNumber));
    assert_eq!(evaluate("3..4+1"), Err(ExprError::MalformedNumber));
    assert_eq!(evaluate("."), Err(ExprError::MalformedNumber));
    assert_eq!(evaluate("1+2+"), Err(ExprError::MalformedNumber));
    assert_eq!(evaluate("   "), Err(ExprError::MalformedNumber));
}

#[test]
fn unrecognized_operators_are_fatal() {
    assert_eq!(evaluate("3$4"), Err(ExprError::UnrecognizedOperator));
    // `=` never comes from user input; only the sentinel uses it
    assert_eq!(evaluate("3=4"), Err(ExprError::UnrecognizedOperator));
    // the malformed number to the left wins over the bad operator
    assert_eq!(evaluate("3..4$5"), Err(ExprError::MalformedNumber));
    // a trailing dot still makes a parsable number, so the operator decides
    assert_eq!(evaluate("3.$4"), Err(ExprError::UnrecognizedOperator));
}

#[test]
fn repeated_evaluation_is_identical() {
    let first = eval_num("3*4-9/3+3.0+3/3*12*30+2.0^2.0");
    let second = eval_num("3*4-9/3+3.0+3/3*12*30+2.0^2.0");
    assert_eq!(first.to_bits(), second.to_bits());
    let a = evaluate("1+2^3").unwrap();
    let b = evaluate("1+2^3").unwrap();
    assert_eq!(a, b);
}

#[test]
fn solver_reduces_to_value_and_sentinel() {
    let toks = expr_parser("2+3*4").unwrap();
    let solved = expr_solver(toks);
    assert_eq!(solved.len(), 2);
    assert_eq!(solved[1], Token::Operator(Operator::Equal));
    let expected = Value::App(
        Box::new(lit("2")),
        Operator::Add,
        Box::new(Value::App(Box::new(lit("3")), Operator::Mul, Box::new(lit("4")))),
    );
    assert_eq!(solved[0], Token::Number(expected));
}

#[test]
fn single_tier_passes() {
    let toks = expr_parser("2*3+4").unwrap();
    let after_muls = solve_muls_and_divs(toks);
    assert_eq!(
        after_muls,
        vec![
            Token::Number(Value::App(Box::new(lit("2")), Operator::Mul, Box::new(lit("3")))),
            Token::Operator(Operator::Add),
            Token::Number(lit("4")),
            Token::Operator(Operator::Equal),
        ]
    );
    let after_adds = solve_adds_and_subs(after_muls);
    assert_eq!(after_adds.len(), 2);

    let toks = expr_parser("2^5+1").unwrap();
    let after_pows = solve_operations(toks, Operator::Pow);
    assert_eq!(
        after_pows,
        vec![
            Token::Number(Value::App(Box::new(lit("2")), Operator::Pow, Box::new(lit("5")))),
            Token::Operator(Operator::Add),
            Token::Number(lit("1")),
            Token::Operator(Operator::Equal),
        ]
    );
}

#[test]
fn operator_tokenize_op_maps_characters() {
    assert_eq!(Operator::tokenize_op('+'), Operator::Add);
    assert_eq!(Operator::tokenize_op('-'), Operator::Sub);
    assert_eq!(Operator::tokenize_op('*'), Operator::Mul);
    assert_eq!(Operator::tokenize_op('/'), Operator::Div);
    assert_eq!(Operator::tokenize_op('^'), Operator::Pow);
    assert_eq!(Operator::tokenize_op('='), Operator::Equal);
}

#[test]
fn token_constructors() {
    assert_eq!(Token::tokenize_number(lit("7")), Token::Number(lit("7")));
    assert_eq!(Token::tokenize_op('*'), Token::Operator(Operator::Mul));
}

#[test]
fn operation_eval_records_the_triple() {
    let op = Operation {
        first_number: lit("9"),
        operator: Operator::Div,
        second_number: lit("3"),
    };
    let v = op.eval();
    assert_eq!(v, Value::App(Box::new(lit("9")), Operator::Div, Box::new(lit("3"))));
    assert_eq!(fold(&v), 3.0);
}

#[test]
fn parse_number_trims_and_validates() {
    let chars: Vec<char> = " 12.5  ".chars().collect();
    let n = chars.len();
    assert_eq!(parse_number(&chars, 0, n), Ok(lit("12.5")));

    let bad: Vec<char> = "1.2.3".chars().collect();
    let n = bad.len();
    assert_eq!(parse_number(&bad, 0, n), Err(ExprError::MalformedNumber));

    let empty: Vec<char> = "  ".chars().collect();
    let n = empty.len();
    assert_eq!(parse_number(&empty, 0, n), Err(ExprError::MalformedNumber));

    // a decimal point needs at least one digit beside it
    let dot: Vec<char> = ".".chars().collect();
    assert_eq!(parse_number(&dot, 0, 1), Err(ExprError::MalformedNumber));
    let half: Vec<char> = ".5".chars().collect();
    assert_eq!(parse_number(&half, 0, 2), Ok(lit(".5")));
}

#[test]
fn whitespace_inside_a_number_is_malformed() {
    assert_eq!(evaluate("1 2+3"), Err(ExprError::MalformedNumber));
}
