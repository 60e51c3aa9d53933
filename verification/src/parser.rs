//! The parser/evaluator: a four-layer recursive descent over the token
//! sequence that computes the value of the expression as it goes, with no
//! intermediate tree.
//!
//! Grammar, loosest to tightest binding, each binary level left-associative:
//!
//! ```text
//! expr           := additive
//! additive       := multiplicative (('+' | '-') multiplicative)*
//! multiplicative := unary (('*' | '/') unary)*
//! unary          := ('+' | '-') unary | primary
//! primary        := IntLiteral | '(' expr ')'
//! ```
//!
//! Arithmetic is on 32-bit signed integers with wraparound on overflow;
//! division truncates toward zero and rejects a zero divisor with
//! [`ParseError::DivisionByZero`].

use vstd::prelude::*;
use vstd::wrapping::i32_specs;
use crate::common::PeekableIterator;
use crate::lexer::spec_tokenize;
use crate::lexer::tokenize;
use crate::token::seq_model;
use crate::token::Token;
use crate::token::TokenModel;

verus! {

/// The ways an expression can be malformed.
///
/// `UnexpectedEndOfInput`: the tokens end where an operand is expected.
/// `UnexpectedToken`: a token stands where an operand is expected but is
/// neither an integer literal nor `'('`, or a token is left over after the
/// expression ends. `UnmatchedParenthesis`: a `'('` is not matched by a
/// `')'` where its sub-expression ends. `DivisionByZero`: a division has a
/// zero right-hand operand.
#[derive(Debug, Clone, Copy, PartialEq, Eq, Structural)]
pub enum ParseError {
    UnexpectedEndOfInput,
    UnexpectedToken,
    UnmatchedParenthesis,
    DivisionByZero,
}

/// The value of a 64-bit literal reduced into a 32-bit signed integer, by
/// truncation to the low 32 bits.
pub open spec fn crop_to_i32(n: u64) -> i32 {
    i32_specs::signed_crop(n as int)
}

/// Truncating integer division, the sign convention of the `/` operator on
/// machine integers: the quotient of the magnitudes, negated when the signs
/// of the operands differ.
pub open spec fn trunc_div(x: int, d: int) -> int {
    if x == 0 {
        0
    } else if x > 0 && d > 0 {
        x / d
    } else if x < 0 && d < 0 {
        (x * -1) / (d * -1)
    } else if x < 0 {
        ((x * -1) / d) * -1
    } else {
        (x / (d * -1)) * -1
    }
}

/// 32-bit truncating division with wraparound: the one overflowing quotient,
/// `i32::MIN / -1`, wraps back to `i32::MIN`.
pub open spec fn div_wrap(a: i32, b: i32) -> i32 {
    i32_specs::signed_crop(trunc_div(a as int, b as int))
}

proof fn lemma_signed_crop_identity(x: int)
    requires
        i32::MIN <= x <= i32::MAX,
    ensures
        i32_specs::signed_crop(x) == x,
{
    let range: int = 0x1_0000_0000;
    if x >= 0 {
        vstd::arithmetic::div_mod::lemma_small_mod(x as nat, range as nat);
    } else {
        vstd::arithmetic::div_mod::lemma_mod_multiples_vanish(1, x, range);
        vstd::arithmetic::div_mod::lemma_small_mod((x + range) as nat, range as nat);
    }
}

/// Reduces a 64-bit literal value into a 32-bit signed integer by truncation
/// to the low 32 bits.
fn literal_to_i32(n: u64) -> (r: i32)
    ensures
        r == crop_to_i32(n),
{
    let low: u64 = n % 0x1_0000_0000;
    if low >= 0x8000_0000 {
        let v: i64 = low as i64 - 0x1_0000_0000i64;
        v as i32
    } else {
        low as i32
    }
}

proof fn lemma_trunc_div_bounds(x: int, d: int)
    requires
        d != 0,
        -0x8000_0000 <= x <= 0x7fff_ffff,
    ensures
        -0x8000_0000 <= trunc_div(x, d) <= 0x8000_0000,
{
    let xm: int = if x < 0 {
        x * -1
    } else {
        x
    };
    let dm: int = if d < 0 {
        d * -1
    } else {
        d
    };
    if x != 0 {
        vstd::arithmetic::div_mod::lemma_div_pos_is_pos(xm, dm);
        vstd::arithmetic::div_mod::lemma_div_nonincreasing(xm, dm);
    }
}

/// Truncating 32-bit division; `i32::MIN / -1` wraps to `i32::MIN`.
fn div_i32(a: i32, b: i32) -> (r: i32)
    requires
        b != 0,
    ensures
        r == div_wrap(a, b),
{
    proof {
        lemma_trunc_div_bounds(a as int, b as int);
    }
    match a.checked_div(b) {
        Some(q) => {
            proof {
                lemma_signed_crop_identity(trunc_div(a as int, b as int));
            }
            q
        },
        None => {
            proof {
                assert(trunc_div(a as int, b as int) == 0x8000_0000int);
                vstd::arithmetic::div_mod::lemma_small_mod(
                    0x8000_0000nat,
                    0x1_0000_0000nat,
                );
                assert(i32_specs::signed_crop(0x8000_0000int) == i32::MIN);
            }
            i32::MIN
        },
    }
}

/// What parsing a `primary` at the head of `ts` yields: an integer literal's
/// value, or the value of a parenthesized sub-expression, together with the
/// tokens left over. Anything else in operand position is rejected.
pub open spec fn p_primary(ts: Seq<TokenModel>) -> Result<(i32, Seq<TokenModel>), ParseError>
    decreases ts.len(), 0int,
{
    if ts.len() == 0 {
        Err(ParseError::UnexpectedEndOfInput)
    } else {
        match ts[0] {
            TokenModel::Int(n) => Ok((crop_to_i32(n), ts.drop_first())),
            TokenModel::Other(c) => if c == '(' {
                match p_expr(ts.drop_first()) {
                    Ok((v, rest)) => if rest.len() > 0 && rest[0] == TokenModel::Other(')') {
                        Ok((v, rest.drop_first()))
                    } else {
                        Err(ParseError::UnmatchedParenthesis)
                    },
                    Err(e) => Err(e),
                }
            } else {
                Err(ParseError::UnexpectedToken)
            },
            TokenModel::Name(_) => Err(ParseError::UnexpectedToken),
        }
    }
}

/// What parsing a `unary` at the head of `ts` yields: any chain of sign
/// prefixes applied to a `primary`, with wrapping negation for each `'-'`.
pub open spec fn p_unary(ts: Seq<TokenModel>) -> Result<(i32, Seq<TokenModel>), ParseError>
    decreases ts.len(), 1int,
{
    if ts.len() == 0 {
        Err(ParseError::UnexpectedEndOfInput)
    } else if ts[0] == TokenModel::Other('+') {
        p_unary(ts.drop_first())
    } else if ts[0] == TokenModel::Other('-') {
        match p_unary(ts.drop_first()) {
            Ok((v, rest)) => Ok((i32_specs::wrapping_sub(0, v), rest)),
            Err(e) => Err(e),
        }
    } else {
        p_primary(ts)
    }
}

/// Folds `'*'` and `'/'` operations onto `acc`, left to right, as long as
/// such an operator stands at the head of `ts`.
pub open spec fn p_mul_tail(acc: i32, ts: Seq<TokenModel>) -> Result<
    (i32, Seq<TokenModel>),
    ParseError,
>
    decreases ts.len(), 3int,
{
    if ts.len() > 0 && (ts[0] == TokenModel::Other('*') || ts[0] == TokenModel::Other('/')) {
        match p_unary(ts.drop_first()) {
            Ok((v, rest)) => if ts[0] == TokenModel::Other('/') && v == 0 {
                Err(ParseError::DivisionByZero)
            } else if rest.len() < ts.len() {
                if ts[0] == TokenModel::Other('*') {
                    p_mul_tail(i32_specs::wrapping_mul(acc, v), rest)
                } else {
                    p_mul_tail(div_wrap(acc, v), rest)
                }
            } else {
                // never reached: parsing an operand always consumes a token
                Err(ParseError::UnexpectedToken)
            },
            Err(e) => Err(e),
        }
    } else {
        Ok((acc, ts))
    }
}

/// What parsing a `multiplicative` at the head of `ts` yields: a `unary`
/// followed by any number of `'*'` and `'/'` operations, left-associative.
pub open spec fn p_mul(ts: Seq<TokenModel>) -> Result<(i32, Seq<TokenModel>), ParseError>
    decreases ts.len(), 2int,
{
    match p_unary(ts) {
        Ok((v, rest)) => if rest.len() < ts.len() {
            p_mul_tail(v, rest)
        } else {
            // never reached: parsing an operand always consumes a token
            Err(ParseError::UnexpectedToken)
        },
        Err(e) => Err(e),
    }
}

/// Folds `'+'` and `'-'` operations onto `acc`, left to right, as long as
/// such an operator stands at the head of `ts`.
pub open spec fn p_add_tail(acc: i32, ts: Seq<TokenModel>) -> Result<
    (i32, Seq<TokenModel>),
    ParseError,
>
    decreases ts.len(), 5int,
{
    if ts.len() > 0 && (ts[0] == TokenModel::Other('+') || ts[0] == TokenModel::Other('-')) {
        match p_mul(ts.drop_first()) {
            Ok((v, rest)) => if rest.len() < ts.len() {
                if ts[0] == TokenModel::Other('+') {
                    p_add_tail(i32_specs::wrapping_add(acc, v), rest)
                } else {
                    p_add_tail(i32_specs::wrapping_sub(acc, v), rest)
                }
            } else {
                // never reached: parsing an operand always consumes a token
                Err(ParseError::UnexpectedToken)
            },
            Err(e) => Err(e),
        }
    } else {
        Ok((acc, ts))
    }
}

/// What parsing an `additive` at the head of `ts` yields: a `multiplicative`
/// followed by any number of `'+'` and `'-'` operations, left-associative.
pub open spec fn p_add(ts: Seq<TokenModel>) -> Result<(i32, Seq<TokenModel>), ParseError>
    decreases ts.len(), 4int,
{
    match p_mul(ts) {
        Ok((v, rest)) => if rest.len() < ts.len() {
            p_add_tail(v, rest)
        } else {
            // never reached: parsing an operand always consumes a token
            Err(ParseError::UnexpectedToken)
        },
        Err(e) => Err(e),
    }
}

/// What parsing an `expr` at the head of `ts` yields.
pub open spec fn p_expr(ts: Seq<TokenModel>) -> Result<(i32, Seq<TokenModel>), ParseError>
    decreases ts.len(), 6int,
{
    p_add(ts)
}

/// What evaluating the source text `s` yields: its tokens parsed as one
/// expression, with any leftover token rejected.
pub open spec fn spec_evaluate(s: Seq<char>) -> Result<i32, ParseError> {
    match p_expr(spec_tokenize(s)) {
        Ok((v, rest)) => if rest.len() == 0 {
            Ok(v)
        } else {
            Err(ParseError::UnexpectedToken)
        },
        Err(e) => Err(e),
    }
}

/// A cursor over a materialized token sequence: the tokens and the position
/// of the next one to yield.
pub struct TokenCursor {
    pub tokens: Vec<Token>,
    pub pos: usize,
}

impl TokenCursor {
    /// A cursor standing at the start of `tokens`.
    pub fn new(tokens: Vec<Token>) -> (c: TokenCursor)
        ensures
            c.tokens == tokens,
            c.pos == 0,
    {
        TokenCursor { tokens, pos: 0 }
    }
}

impl PeekableIterator for TokenCursor {
    type Item = Token;

    open spec fn remaining(&self) -> Seq<Token> {
        if self.pos as int <= self.tokens@.len() {
            self.tokens@.skip(self.pos as int)
        } else {
            Seq::empty()
        }
    }

    fn peek(&self) -> (r: Option<&Token>) {
        if self.pos < self.tokens.len() {
            Some(&self.tokens[self.pos])
        } else {
            None
        }
    }

    fn next(&mut self) -> (r: Option<Token>) {
        if self.pos < self.tokens.len() {
            let t = (&self.tokens[self.pos]).clone();
            self.pos = self.pos + 1;
            proof {
                assert(final(self).remaining() =~= old(self).remaining().drop_first());
            }
            Some(t)
        } else {
            None
        }
    }
}

proof fn lemma_model_drop_first(ts: Seq<Token>)
    requires
        ts.len() > 0,
    ensures
        seq_model(ts.drop_first()) == seq_model(ts).drop_first(),
{
    assert(seq_model(ts.drop_first()) =~= seq_model(ts).drop_first());
}

/// How one grammar layer relates its spec-level step `step` to what its
/// implementation did: `pre` and `post` are the remaining tokens before and
/// after the call, `r` the returned value. On success the layer returns the
/// step's value, leaves exactly the step's leftover tokens, and has consumed
/// at least one token; on failure it returns the step's error and has not
/// grown the stream.
pub open spec fn parse_step_post(
    step: Result<(i32, Seq<TokenModel>), ParseError>,
    pre: Seq<TokenModel>,
    post: Seq<TokenModel>,
    r: Result<i32, ParseError>,
) -> bool {
    match step {
        Ok((v, rest)) => r == Ok::<i32, ParseError>(v) && post == rest && post.len() < pre.len(),
        Err(e) => r == Err::<i32, ParseError>(e) && post.len() <= pre.len(),
    }
}

/// Parses a `primary`: an integer literal, or a parenthesized expression.
pub fn parse_expr3<I: PeekableIterator<Item = Token>>(tokens: &mut I) -> (r: Result<
    i32,
    ParseError,
>)
    ensures
        ({
            let pre = seq_model(old(tokens).remaining());
            let post = seq_model(final(tokens).remaining());
            parse_step_post(p_primary(pre), pre, post, r)
        }),
    decreases tokens.remaining().len(), 0int,
{
    let head_int: Option<u64> = match tokens.peek() {
        Some(t) => match t {
            Token::Int(n) => Some(*n),
            _ => None,
        },
        None => None,
    };
    if let Some(n) = head_int {
        proof {
            lemma_model_drop_first(tokens.remaining());
        }
        tokens.next();
        return Ok(literal_to_i32(n));
    }
    let head_char: Option<char> = match tokens.peek() {
        Some(t) => match t {
            Token::Other(c) => Some(*c),
            _ => None,
        },
        None => None,
    };
    if let Some(c) = head_char {
        if c == '(' {
            proof {
                lemma_model_drop_first(tokens.remaining());
            }
            tokens.next();
            match parse_expr(tokens) {
                Ok(v) => {
                    let close: Option<char> = match tokens.peek() {
                        Some(t) => match t {
                            Token::Other(c2) => Some(*c2),
                            _ => None,
                        },
                        None => None,
                    };
                    if let Some(c2) = close {
                        if c2 == ')' {
                            proof {
                                lemma_model_drop_first(tokens.remaining());
                            }
                            tokens.next();
                            return Ok(v);
                        }
                    }
                    return Err(ParseError::UnmatchedParenthesis);
                },
                Err(e) => return Err(e),
            }
        }
    }
    match tokens.peek() {
        None => Err(ParseError::UnexpectedEndOfInput),
        Some(_) => Err(ParseError::UnexpectedToken),
    }
}

/// Parses a `unary`: any chain of `'+'` and `'-'` sign prefixes, then a
/// `primary`; each `'-'` negates with wraparound.
pub fn parse_expr2<I: PeekableIterator<Item = Token>>(tokens: &mut I) -> (r: Result<
    i32,
    ParseError,
>)
    ensures
        ({
            let pre = seq_model(old(tokens).remaining());
            let post = seq_model(final(tokens).remaining());
            parse_step_post(p_unary(pre), pre, post, r)
        }),
    decreases tokens.remaining().len(), 1int,
{
    let sign: Option<char> = match tokens.peek() {
        Some(t) => match t {
            Token::Other(c) => Some(*c),
            _ => None,
        },
        None => None,
    };
    if let Some(c) = sign {
        if c == '+' {
            proof {
                lemma_model_drop_first(tokens.remaining());
            }
            tokens.next();
            return parse_expr2(tokens);
        }
        if c == '-' {
            proof {
                lemma_model_drop_first(tokens.remaining());
            }
            tokens.next();
            return match parse_expr2(tokens) {
                Ok(v) => Ok(0i32.wrapping_sub(v)),
                Err(e) => Err(e),
            };
        }
    }
    parse_expr3(tokens)
}

/// Parses a `multiplicative`: a `unary` followed by any number of `'*'` and
/// `'/'` operations, folded left to right with wraparound; a zero divisor is
/// rejected with `DivisionByZero`.
pub fn parse_expr1<I: PeekableIterator<Item = Token>>(tokens: &mut I) -> (r: Result<
    i32,
    ParseError,
>)
    ensures
        ({
            let pre = seq_model(old(tokens).remaining());
            let post = seq_model(final(tokens).remaining());
            parse_step_post(p_mul(pre), pre, post, r)
        }),
    decreases tokens.remaining().len(), 2int,
{
    let ghost pre = seq_model(tokens.remaining());
    let mut val: i32 = match parse_expr2(tokens) {
        Ok(v) => v,
        Err(e) => return Err(e),
    };
    loop
        invariant
            tokens.remaining().len() < old(tokens).remaining().len(),
            pre == seq_model(old(tokens).remaining()),
            p_mul(pre) == p_mul_tail(val, seq_model(tokens.remaining())),
            seq_model(tokens.remaining()).len() < pre.len(),
        ensures
            p_mul(pre) == Ok::<(i32, Seq<TokenModel>), ParseError>(
                (val, seq_model(tokens.remaining())),
            ),
            seq_model(tokens.remaining()).len() < pre.len(),
        decreases tokens.remaining().len(),
    {
        let mut op_char: char = ' ';
        let mut has_op: bool = false;
        match tokens.peek() {
            Some(t) => match t {
                Token::Other(c) => {
                    if *c == '*' || *c == '/' {
                        op_char = *c;
                        has_op = true;
                    }
                },
                _ => {},
            },
            None => {},
        }
        if !has_op {
            break;
        }
        proof {
            lemma_model_drop_first(tokens.remaining());
        }
        tokens.next();
        let rv: i32 = match parse_expr2(tokens) {
            Ok(v) => v,
            Err(e) => return Err(e),
        };
        if op_char == '/' {
            if rv == 0 {
                return Err(ParseError::DivisionByZero);
            }
            val = div_i32(val, rv);
        } else {
            val = val.wrapping_mul(rv);
        }
    }
    Ok(val)
}

/// Parses an `additive`: a `multiplicative` followed by any number of `'+'`
/// and `'-'` operations, folded left to right with wraparound.
pub fn parse_expr0<I: PeekableIterator<Item = Token>>(tokens: &mut I) -> (r: Result<
    i32,
    ParseError,
>)
    ensures
        ({
            let pre = seq_model(old(tokens).remaining());
            let post = seq_model(final(tokens).remaining());
            parse_step_post(p_add(pre), pre, post, r)
        }),
    decreases tokens.remaining().len(), 3int,
{
    let ghost pre = seq_model(tokens.remaining());
    let mut val: i32 = match parse_expr1(tokens) {
        Ok(v) => v,
        Err(e) => return Err(e),
    };
    loop
        invariant
            tokens.remaining().len() < old(tokens).remaining().len(),
            pre == seq_model(old(tokens).remaining()),
            p_add(pre) == p_add_tail(val, seq_model(tokens.remaining())),
            seq_model(tokens.remaining()).len() < pre.len(),
        ensures
            p_add(pre) == Ok::<(i32, Seq<TokenModel>), ParseError>(
                (val, seq_model(tokens.remaining())),
            ),
            seq_model(tokens.remaining()).len() < pre.len(),
        decreases tokens.remaining().len(),
    {
        let mut op_char: char = ' ';
        let mut has_op: bool = false;
        match tokens.peek() {
            Some(t) => match t {
                Token::Other(c) => {
                    if *c == '+' || *c == '-' {
                        op_char = *c;
                        has_op = true;
                    }
                },
                _ => {},
            },
            None => {},
        }
        if !has_op {
            break;
        }
        proof {
            lemma_model_drop_first(tokens.remaining());
        }
        tokens.next();
        let rv: i32 = match parse_expr1(tokens) {
            Ok(v) => v,
            Err(e) => return Err(e),
        };
        if op_char == '-' {
            val = val.wrapping_sub(rv);
        } else {
            val = val.wrapping_add(rv);
        }
    }
    Ok(val)
}

/// Parses an `expr`, the loosest grammar level.
pub fn parse_expr<I: PeekableIterator<Item = Token>>(tokens: &mut I) -> (r: Result<
    i32,
    ParseError,
>)
    ensures
        ({
            let pre = seq_model(old(tokens).remaining());
            let post = seq_model(final(tokens).remaining());
            parse_step_post(p_expr(pre), pre, post, r)
        }),
    decreases tokens.remaining().len(), 4int,
{
    parse_expr0(tokens)
}

/// Evaluates the expression in `s`: tokenizes it, parses it as one `expr`,
/// and rejects any leftover token. Returns the 32-bit value computed with
/// wraparound, or the first parse error met.
pub fn evaluate(s: &str) -> (r: Result<i32, ParseError>)
    ensures
        r == spec_evaluate(s@),
{
    let tokens = tokenize(s);
    let mut cursor = TokenCursor::new(tokens);
    proof {
        assert(cursor.remaining() =~= cursor.tokens@);
    }
    match parse_expr(&mut cursor) {
        Ok(v) => {
            match cursor.peek() {
                None => Ok(v),
                Some(_) => Err(ParseError::UnexpectedToken),
            }
        },
        Err(e) => Err(e),
    }
}

/// Evaluates the expression in `expr`; the historical name of [`evaluate`].
pub fn parse_expr_str(expr: &str) -> (r: Result<i32, ParseError>)
    ensures
        r == spec_evaluate(expr@),
{
    evaluate(expr)
}

} // verus!
