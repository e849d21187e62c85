use vstd::prelude::*;

verus! {

/// The closed set of operator kinds. `Equal` is the end-of-expression
/// sentinel: every token sequence ends with it, and it is never the
/// target of a reduction.
#[derive(Clone, Copy, Debug, PartialEq, Eq, Structural)]
pub enum Operator {
    Add,
    Sub,
    Mul,
    Div,
    Pow,
    Equal,
}

/// A numeric value: either a validated numeric literal, kept as its
/// characters, or the application of an arithmetic operator to two
/// previously built values. The reducer never computes with machine
/// floats; it records each reduction as an `App` node, and callers fold
/// the finished tree numerically outside the verified library.
#[derive(Debug, PartialEq)]
pub enum Value {
    Lit(Vec<char>),
    App(Box<Value>, Operator, Box<Value>),
}

/// One element of a token sequence: an operator or a number.
#[derive(Debug, PartialEq)]
pub enum Token {
    Operator(Operator),
    Number(Value),
}

/// The mathematical shape of a `Value`: literals become character
/// sequences, applications stay applications.
pub enum ValueModel {
    Lit(Seq<char>),
    App(Box<ValueModel>, Operator, Box<ValueModel>),
}

/// The mathematical shape of a `Token`.
pub enum TokenModel {
    Operator(Operator),
    Number(ValueModel),
}

impl Value {
    pub open spec fn model(self) -> ValueModel
        decreases self,
    {
        match self {
            Value::Lit(text) => ValueModel::Lit(text@),
            Value::App(l, op, r) => ValueModel::App(
                Box::new((*l).model()),
                op,
                Box::new((*r).model()),
            ),
        }
    }
}

impl Token {
    pub open spec fn model(self) -> TokenModel {
        match self {
            Token::Operator(op) => TokenModel::Operator(op),
            Token::Number(v) => TokenModel::Number(v.model()),
        }
    }
}

/// The models of a sequence of tokens, element by element.
pub open spec fn models(s: Seq<Token>) -> Seq<TokenModel> {
    s.map_values(|t: Token| t.model())
}

/// A well-formed token sequence: numbers and operators strictly
/// alternate starting with a number, the sequence ends with the `Equal`
/// sentinel, and no other `Equal` appears. The length is therefore even
/// and at least two, with as many numbers as operators.
pub open spec fn wf_tokens(s: Seq<TokenModel>) -> bool {
    &&& s.len() >= 2
    &&& s.len() % 2 == 0
    &&& forall|i: int| 0 <= i < s.len() && i % 2 == 0 ==> #[trigger] s[i] is Number
    &&& forall|i: int| 0 <= i < s.len() && i % 2 == 1 ==> #[trigger] s[i] is Operator
    &&& s[s.len() - 1] == TokenModel::Operator(Operator::Equal)
    &&& forall|i: int| 0 <= i < s.len() - 1 && i % 2 == 1 ==>
            #[trigger] s[i] != TokenModel::Operator(Operator::Equal)
}

/// Whether the operator `op` occurs anywhere in the sequence.
pub open spec fn op_in(s: Seq<TokenModel>, op: Operator) -> bool {
    exists|i: int| 0 <= i < s.len() && s[i] == TokenModel::Operator(op)
}

/// An ASCII decimal digit.
pub open spec fn is_digit_char(c: char) -> bool {
    48 <= c as u32 && c as u32 <= 57
}

/// Whitespace that may surround a numeric substring.
pub open spec fn is_space_char(c: char) -> bool {
    c == ' ' || c == '\t' || c == '\n' || c == '\r'
}

/// An operator character: anything that is not a digit, not whitespace
/// and not a decimal point splits the expression.
pub open spec fn is_delim_char(c: char) -> bool {
    !is_digit_char(c) && !is_space_char(c) && c != '.'
}

/// One of the five arithmetic operator characters.
pub open spec fn is_arith_char(c: char) -> bool {
    c == '+' || c == '-' || c == '/' || c == '*' || c == '^'
}

/// A character the operator mapper accepts: the five arithmetic
/// characters plus the `=` sentinel.
pub open spec fn is_recognized_char(c: char) -> bool {
    is_arith_char(c) || c == '='
}

/// The operator kind a recognized character stands for.
pub open spec fn char_op(c: char) -> Operator {
    if c == '+' {
        Operator::Add
    } else if c == '-' {
        Operator::Sub
    } else if c == '/' {
        Operator::Div
    } else if c == '*' {
        Operator::Mul
    } else if c == '^' {
        Operator::Pow
    } else if c == '=' {
        Operator::Equal
    } else {
        arbitrary()
    }
}

impl Operator {
    /// Maps a recognized operator character to its kind. The `=` case
    /// serves only the end-of-expression sentinel; the tokenizer rejects
    /// `=` coming from user input before calling this.
    pub fn tokenize_op(op: char) -> (r: Operator)
        requires
            is_recognized_char(op),
        ensures
            r == char_op(op),
    {
        match op {
            '+' => Operator::Add,
            '-' => Operator::Sub,
            '/' => Operator::Div,
            '*' => Operator::Mul,
            '^' => Operator::Pow,
            '=' => Operator::Equal,
            _ => unreached(),
        }
    }
}

impl Token {
    /// Wraps a finished value as a number token.
    pub fn tokenize_number(val: Value) -> (r: Token)
        ensures
            r == Token::Number(val),
    {
        Token::Number(val)
    }

    /// Wraps a recognized operator character as an operator token.
    pub fn tokenize_op(op: char) -> (r: Token)
        requires
            is_recognized_char(op),
        ensures
            r == Token::Operator(char_op(op)),
    {
        Token::Operator(Operator::tokenize_op(op))
    }
}

} // verus!
