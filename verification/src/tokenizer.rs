use vstd::prelude::*;

use crate::tokens::char_op;
use crate::tokens::is_arith_char;
use crate::tokens::is_delim_char;
use crate::tokens::is_digit_char;
use crate::tokens::is_space_char;
use crate::tokens::models;
use crate::tokens::wf_tokens;
use crate::tokens::Operator;
use crate::tokens::Token;
use crate::tokens::TokenModel;
use crate::tokens::Value;
use crate::tokens::ValueModel;

verus! {

/// Why an expression was rejected. Every error aborts the whole
/// evaluation; there is no recovery or partial result.
#[derive(Clone, Copy, Debug, PartialEq, Eq, Structural)]
pub enum ExprError {
    /// A numeric substring is empty, has more than one decimal point,
    /// no digit at all, or a stray character.
    MalformedNumber,
    /// An operator character other than `+ - * / ^` stood between two
    /// numeric substrings.
    UnrecognizedOperator,
}

/// How many decimal points the sequence holds.
pub open spec fn count_dots(s: Seq<char>) -> int
    decreases s.len(),
{
    if s.len() == 0 {
        0
    } else {
        count_dots(s.drop_last()) + if s.last() == '.' {
            1int
        } else {
            0int
        }
    }
}

/// How many ASCII digits the sequence holds.
pub open spec fn count_digits(s: Seq<char>) -> int
    decreases s.len(),
{
    if s.len() == 0 {
        0
    } else {
        count_digits(s.drop_last()) + if is_digit_char(s.last()) {
            1int
        } else {
            0int
        }
    }
}

/// A parsable numeric literal: nonempty, nothing but digits and
/// decimal points, at least one digit, and at most one decimal point.
pub open spec fn valid_number(s: Seq<char>) -> bool {
    &&& s.len() > 0
    &&& forall|i: int| 0 <= i < s.len() ==> is_digit_char(#[trigger] s[i]) || s[i] == '.'
    &&& count_digits(s) >= 1
    &&& count_dots(s) <= 1
}

/// The sequence with its leading whitespace removed.
pub open spec fn trim_front(s: Seq<char>) -> Seq<char>
    decreases s.len(),
{
    if s.len() > 0 && is_space_char(s[0]) {
        trim_front(s.drop_first())
    } else {
        s
    }
}

/// The sequence with its trailing whitespace removed.
pub open spec fn trim_back(s: Seq<char>) -> Seq<char>
    decreases s.len(),
{
    if s.len() > 0 && is_space_char(s.last()) {
        trim_back(s.drop_last())
    } else {
        s
    }
}

/// The sequence with whitespace removed from both ends.
pub open spec fn trim_spec(s: Seq<char>) -> Seq<char> {
    trim_back(trim_front(s))
}

/// The position of the first operator character, or the length when
/// there is none.
pub open spec fn first_delim(s: Seq<char>) -> nat
    decreases s.len(),
{
    if s.len() == 0 {
        0
    } else if is_delim_char(s[0]) {
        0
    } else {
        1 + first_delim(s.drop_first())
    }
}

/// `first_delim` is the position `k` of the first operator character:
/// nothing before `k` is one, and `k` either holds one or is the end.
pub proof fn lemma_first_delim_is(s: Seq<char>, k: int)
    requires
        0 <= k <= s.len(),
        forall|i: int| 0 <= i < k ==> !is_delim_char(#[trigger] s[i]),
        k == s.len() || is_delim_char(s[k]),
    ensures
        first_delim(s) == k,
    decreases s.len(),
{
    if k == 0 {
    } else {
        assert(!is_delim_char(s[0]));
        assert forall|i: int| 0 <= i < k - 1 implies !is_delim_char(
            #[trigger] s.drop_first()[i],
        ) by {
            assert(s.drop_first()[i] == s[i + 1]);
        }
        if k < s.len() {
            assert(s.drop_first()[k - 1] == s[k]);
        }
        lemma_first_delim_is(s.drop_first(), k - 1);
    }
}

/// `trim_front` removes exactly the leading run of whitespace.
pub proof fn lemma_trim_front_is(s: Seq<char>, k: int)
    requires
        0 <= k <= s.len(),
        forall|i: int| 0 <= i < k ==> is_space_char(#[trigger] s[i]),
        k == s.len() || !is_space_char(s[k]),
    ensures
        trim_front(s) == s.skip(k),
    decreases s.len(),
{
    if k == 0 {
        assert(s.skip(0) =~= s);
    } else {
        assert(is_space_char(s[0]));
        assert forall|i: int| 0 <= i < k - 1 implies is_space_char(
            #[trigger] s.drop_first()[i],
        ) by {
            assert(s.drop_first()[i] == s[i + 1]);
        }
        if k < s.len() {
            assert(s.drop_first()[k - 1] == s[k]);
        }
        lemma_trim_front_is(s.drop_first(), k - 1);
        assert(s.drop_first().skip(k - 1) =~= s.skip(k));
    }
}

/// `trim_back` removes exactly the trailing run of whitespace.
pub proof fn lemma_trim_back_is(s: Seq<char>, k: int)
    requires
        0 <= k <= s.len(),
        forall|i: int| k <= i < s.len() ==> is_space_char(#[trigger] s[i]),
        k == 0 || !is_space_char(s[k - 1]),
    ensures
        trim_back(s) == s.take(k),
    decreases s.len(),
{
    if s.len() > 0 && is_space_char(s.last()) {
        assert(k < s.len());
        assert forall|i: int| k <= i < s.drop_last().len() implies is_space_char(
            #[trigger] s.drop_last()[i],
        ) by {
            assert(s.drop_last()[i] == s[i]);
        }
        lemma_trim_back_is(s.drop_last(), k);
        assert(s.drop_last().take(k) =~= s.take(k));
    } else {
        assert(k == s.len());
        assert(s.take(k) =~= s);
    }
}

/// What tokenizing the expression yields. The text up to the first
/// operator character is a numeric substring: trimmed of whitespace it
/// must parse as a number, and the operator character must be one of
/// the five arithmetic symbols; then the rest is tokenized in turn.
/// The last numeric substring is paired with the `Equal` sentinel.
/// Numbers are checked before the operator that follows them, so the
/// leftmost offence decides the error.
pub open spec fn tokenize_spec(s: Seq<char>) -> Result<Seq<TokenModel>, ExprError>
    decreases s.len(),
{
    let fd = first_delim(s);
    if fd >= s.len() {
        let piece = trim_spec(s);
        if valid_number(piece) {
            Ok(
                seq![
                    TokenModel::Number(ValueModel::Lit(piece)),
                    TokenModel::Operator(Operator::Equal),
                ],
            )
        } else {
            Err(ExprError::MalformedNumber)
        }
    } else {
        let piece = trim_spec(s.take(fd as int));
        let c = s[fd as int];
        if !valid_number(piece) {
            Err(ExprError::MalformedNumber)
        } else if !is_arith_char(c) {
            Err(ExprError::UnrecognizedOperator)
        } else {
            match tokenize_spec(s.skip(fd as int + 1)) {
                Ok(rest) => Ok(
                    seq![
                        TokenModel::Number(ValueModel::Lit(piece)),
                        TokenModel::Operator(char_op(c)),
                    ] + rest,
                ),
                Err(e) => Err(e),
            }
        }
    }
}

/// Whenever tokenizing succeeds, the token sequence is well-formed:
/// its length is even, numbers and operators alternate, and the final
/// token is the `Equal` sentinel.
pub proof fn lemma_tokenize_wf(s: Seq<char>)
    ensures
        tokenize_spec(s) matches Ok(toks) ==> wf_tokens(toks),
    decreases s.len(),
{
    let fd = first_delim(s);
    if fd >= s.len() {
    } else if tokenize_spec(s) is Ok {
        let c = s[fd as int];
        lemma_tokenize_wf(s.skip(fd as int + 1));
        let rest = tokenize_spec(s.skip(fd as int + 1))->Ok_0;
        let piece = trim_spec(s.take(fd as int));
        let toks = seq![
            TokenModel::Number(ValueModel::Lit(piece)),
            TokenModel::Operator(char_op(c)),
        ] + rest;
        assert(wf_tokens(toks)) by {
            assert(char_op(c) != Operator::Equal);
            assert forall|i: int| 0 <= i < toks.len() && i % 2 == 0 implies #[trigger] toks[i]
                is Number by {
                if i >= 2 {
                    assert(toks[i] == rest[i - 2]);
                }
            }
            assert forall|i: int| 0 <= i < toks.len() && i % 2 == 1 implies #[trigger] toks[i]
                is Operator by {
                if i >= 2 {
                    assert(toks[i] == rest[i - 2]);
                }
            }
            assert(toks[toks.len() - 1] == rest[rest.len() - 1]);
            assert forall|i: int| 0 <= i < toks.len() - 1 && i % 2 == 1 implies #[trigger] toks[i]
                != TokenModel::Operator(Operator::Equal) by {
                if i >= 2 {
                    assert(toks[i] == rest[i - 2]);
                }
            }
        }
    }
}

/// Whether `c` is an operator character: not a digit, not whitespace,
/// not a decimal point.
fn is_delim(c: char) -> (b: bool)
    ensures
        b == is_delim_char(c),
{
    let u = c as u32;
    let digit = 48 <= u && u <= 57;
    let space = c == ' ' || c == '\t' || c == '\n' || c == '\r';
    !digit && !space && c != '.'
}

/// Whether `c` is whitespace.
fn is_space(c: char) -> (b: bool)
    ensures
        b == is_space_char(c),
{
    c == ' ' || c == '\t' || c == '\n' || c == '\r'
}

/// Whether the characters of `chars` between `from` and `to` form a
/// parsable numeric literal.
fn check_number(chars: &Vec<char>, from: usize, to: usize) -> (b: bool)
    requires
        from <= to <= chars@.len(),
    ensures
        b == valid_number(chars@.subrange(from as int, to as int)),
{
    let ghost piece = chars@.subrange(from as int, to as int);
    if from == to {
        return false;
    }
    let mut dots: usize = 0;
    let mut digits: usize = 0;
    let mut ok = true;
    let mut k = from;
    while k < to
        invariant
            from <= k <= to <= chars@.len(),
            piece == chars@.subrange(from as int, to as int),
            dots <= k - from,
            digits <= k - from,
            dots == count_dots(chars@.subrange(from as int, k as int)),
            digits == count_digits(chars@.subrange(from as int, k as int)),
            ok == (forall|i: int|
                from <= i < k ==> is_digit_char(#[trigger] chars@[i]) || chars@[i] == '.'),
        decreases to - k,
    {
        let c = chars[k];
        let u = c as u32;
        if 48 <= u && u <= 57 {
            digits = digits + 1;
        } else if c == '.' {
            dots = dots + 1;
        } else {
            ok = false;
        }
        proof {
            let pre = chars@.subrange(from as int, k as int);
            let post = chars@.subrange(from as int, k as int + 1);
            assert(post.drop_last() =~= pre);
            assert(post.last() == chars@[k as int]);
        }
        k = k + 1;
    }
    proof {
        assert(piece =~= chars@.subrange(from as int, to as int));
        if ok {
            assert forall|i: int| 0 <= i < piece.len() implies is_digit_char(#[trigger] piece[i])
                || piece[i] == '.' by {
                assert(piece[i] == chars@[from + i]);
            }
        } else {
            let i = choose|i: int|
                from <= i < to && !(is_digit_char(chars@[i]) || chars@[i] == '.');
            assert(piece[i - from] == chars@[i]);
            assert(!valid_number(piece));
        }
    }
    ok && digits >= 1 && dots <= 1
}

/// Parses the numeric substring between `from` and `to`: trims the
/// whitespace around it, checks that what remains is a parsable
/// numeric literal, and keeps its characters as a literal value.
/// Rejects the substring as malformed otherwise.
pub fn parse_number(chars: &Vec<char>, from: usize, to: usize) -> (r: Result<Value, ExprError>)
    requires
        from <= to <= chars@.len(),
    ensures
        ({
            let piece = trim_spec(chars@.subrange(from as int, to as int));
            match r {
                Ok(v) => valid_number(piece) && v.model() == ValueModel::Lit(piece),
                Err(e) => !valid_number(piece) && e == ExprError::MalformedNumber,
            }
        }),
{
    let mut a = from;
    while a < to && is_space(chars[a])
        invariant
            from <= a <= to <= chars@.len(),
            forall|i: int| from <= i < a ==> is_space_char(#[trigger] chars@[i]),
        decreases to - a,
    {
        a = a + 1;
    }
    let mut b = to;
    while b > a && is_space(chars[b - 1])
        invariant
            a <= b <= to <= chars@.len(),
            forall|i: int| b <= i < to ==> is_space_char(#[trigger] chars@[i]),
        decreases b,
    {
        b = b - 1;
    }
    proof {
        let raw = chars@.subrange(from as int, to as int);
        assert forall|i: int| 0 <= i < a - from implies is_space_char(#[trigger] raw[i]) by {
            assert(raw[i] == chars@[from + i]);
        }
        if a < to {
            assert(raw[a - from] == chars@[a as int]);
        }
        lemma_trim_front_is(raw, a - from);
        let mid = chars@.subrange(a as int, to as int);
        assert(raw.skip(a - from) =~= mid);
        assert forall|i: int| b - a <= i < mid.len() implies is_space_char(#[trigger] mid[i]) by {
            assert(mid[i] == chars@[a + i]);
        }
        if b > a {
            assert(mid[b - a - 1] == chars@[b - 1]);
        }
        lemma_trim_back_is(mid, b - a);
        assert(mid.take(b - a) =~= chars@.subrange(a as int, b as int));
        assert(trim_spec(raw) == chars@.subrange(a as int, b as int));
    }
    if !check_number(chars, a, b) {
        return Err(ExprError::MalformedNumber);
    }
    let mut lit: Vec<char> = Vec::new();
    let mut k = a;
    while k < b
        invariant
            a <= k <= b <= chars@.len(),
            lit@ == chars@.subrange(a as int, k as int),
        decreases b - k,
    {
        lit.push(chars[k]);
        proof {
            assert(lit@ =~= chars@.subrange(a as int, k as int + 1));
        }
        k = k + 1;
    }
    Ok(Value::Lit(lit))
}

/// Collects the characters of a string.
fn str_to_chars(s: &str) -> (r: Vec<char>)
    ensures
        r@ == s@,
{
    let n = s.unicode_len();
    let mut v: Vec<char> = Vec::new();
    let mut i: usize = 0;
    while i < n
        invariant
            i <= n,
            n == s@.len(),
            v@ == s@.take(i as int),
        decreases n - i,
    {
        let c = s.get_char(i);
        v.push(c);
        proof {
            assert(v@ =~= s@.take(i as int + 1));
        }
        i = i + 1;
    }
    proof {
        assert(v@ =~= s@);
    }
    v
}

/// Relates the tokens of the whole expression to the part already
/// built (`done`) and the tokenization of the remaining suffix.
spec fn appended(
    full: Result<Seq<TokenModel>, ExprError>,
    done: Seq<TokenModel>,
    suffix: Result<Seq<TokenModel>, ExprError>,
) -> bool {
    match suffix {
        Ok(m) => full == Ok::<Seq<TokenModel>, ExprError>(done + m),
        Err(e) => full == Err::<Seq<TokenModel>, ExprError>(e),
    }
}

/// Tokenizes the expression: numeric substrings, delimited by operator
/// characters and trimmed of whitespace, become number tokens; the
/// operator characters between them become operator tokens; the
/// `Equal` sentinel closes the sequence. The first malformed numeric
/// substring or unrecognized operator character aborts with an error.
pub fn expr_parser(expr: &str) -> (r: Result<Vec<Token>, ExprError>)
    ensures
        match r {
            Ok(toks) => tokenize_spec(expr@) == Ok::<Seq<TokenModel>, ExprError>(models(toks@))
                && wf_tokens(models(toks@)),
            Err(e) => tokenize_spec(expr@) == Err::<Seq<TokenModel>, ExprError>(e),
        },
{
    let chars = str_to_chars(expr);
    let n = chars.len();
    let mut toks: Vec<Token> = Vec::new();
    let mut p: usize = 0;
    proof {
        assert(expr@.skip(0) =~= expr@);
        if tokenize_spec(expr@) is Ok {
            let m = tokenize_spec(expr@)->Ok_0;
            assert(models(toks@) + m =~= m);
        }
    }
    loop
        invariant
            chars@ == expr@,
            n == chars@.len(),
            p <= n,
            appended(tokenize_spec(expr@), models(toks@), tokenize_spec(expr@.skip(p as int))),
        decreases n - p,
    {
        let ghost done = models(toks@);
        let ghost suffix = expr@.skip(p as int);
        // scan to the next operator character
        let mut j = p;
        while j < n && !is_delim(chars[j])
            invariant
                p <= j <= n == chars@.len(),
                forall|i: int| p <= i < j ==> !is_delim_char(#[trigger] chars@[i]),
            decreases n - j,
        {
            j = j + 1;
        }
        proof {
            assert forall|i: int| 0 <= i < j - p implies !is_delim_char(#[trigger] suffix[i]) by {
                assert(suffix[i] == chars@[p + i]);
            }
            if j < n {
                assert(suffix[j - p] == chars@[j as int]);
            }
            lemma_first_delim_is(suffix, j - p);
            assert(suffix.take(j - p) =~= chars@.subrange(p as int, j as int));
        }
        let num = parse_number(&chars, p, j);
        let v = match num {
            Ok(v) => v,
            Err(e) => {
                proof {
                    if j == n {
                        assert(trim_spec(suffix) == trim_spec(
                            chars@.subrange(p as int, j as int),
                        )) by {
                            assert(suffix =~= chars@.subrange(p as int, j as int));
                        }
                    }
                    assert(tokenize_spec(suffix) == Err::<Seq<TokenModel>, ExprError>(
                        ExprError::MalformedNumber,
                    ));
                }
                return Err(e);
            },
        };
        toks.push(Token::tokenize_number(v));
        proof {
            assert(models(toks@) =~= done.push(TokenModel::Number(v.model())));
        }
        if j == n {
            proof {
                assert(suffix =~= chars@.subrange(p as int, j as int));
            }
            toks.push(Token::tokenize_op('='));
            proof {
                let piece = trim_spec(chars@.subrange(p as int, j as int));
                assert(char_op('=') == Operator::Equal);
                assert(tokenize_spec(suffix) == Ok::<Seq<TokenModel>, ExprError>(
                    seq![
                        TokenModel::Number(ValueModel::Lit(piece)),
                        TokenModel::Operator(Operator::Equal),
                    ],
                ));
                assert(models(toks@) =~= done + seq![
                    TokenModel::Number(ValueModel::Lit(piece)),
                    TokenModel::Operator(Operator::Equal),
                ]);
                lemma_tokenize_wf(expr@);
            }
            return Ok(toks);
        }
        let c = chars[j];
        if !(c == '+' || c == '-' || c == '/' || c == '*' || c == '^') {
            proof {
                assert(tokenize_spec(suffix) == Err::<Seq<TokenModel>, ExprError>(
                    ExprError::UnrecognizedOperator,
                ));
            }
            return Err(ExprError::UnrecognizedOperator);
        }
        toks.push(Token::tokenize_op(c));
        proof {
            let piece = trim_spec(chars@.subrange(p as int, j as int));
            assert(models(toks@) =~= done + seq![
                TokenModel::Number(ValueModel::Lit(piece)),
                TokenModel::Operator(char_op(c)),
            ]);
            assert(suffix.skip(j - p + 1) =~= expr@.skip(j + 1));
            let head = seq![
                TokenModel::Number(ValueModel::Lit(piece)),
                TokenModel::Operator(char_op(c)),
            ];
            match tokenize_spec(expr@.skip(j + 1)) {
                Ok(m) => {
                    assert(tokenize_spec(suffix) == Ok::<Seq<TokenModel>, ExprError>(head + m));
                    assert(done + (head + m) =~= (done + head) + m);
                },
                Err(e) => {
                    assert(tokenize_spec(suffix) == Err::<Seq<TokenModel>, ExprError>(e));
                },
            }
        }
        p = j + 1;
    }
}

} // verus!
