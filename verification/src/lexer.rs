//! The lexer: scans a character sequence left to right and produces the
//! ordered token sequence, discarding spaces.
//!
//! Classification at each position, first match wins: a decimal digit starts
//! an integer literal (a maximal run of digits, its value accumulated with
//! wraparound modulo 2^64); a space is discarded; an alphabetic character
//! starts a name (a maximal run of alphanumeric characters); any other
//! character becomes a single-character token of its own. The lexer is total:
//! no input is rejected.

use vstd::prelude::*;
use vstd::string::StrSliceExecFns;
use vstd::wrapping::u64_specs;
use crate::token::check_alphabetic;
use crate::token::check_decimal_digit;
use crate::token::decimal_digit_value;
use crate::token::digit_value;
use crate::token::is_decimal_digit;
use crate::token::seq_model;
use crate::token::unicode_alphabetic;
use crate::token::Token;
use crate::token::TokenModel;

verus! {

/// Whether `c` continues a name: alphabetic or a decimal digit.
pub open spec fn name_continues(c: char) -> bool {
    unicode_alphabetic(c) || is_decimal_digit(c)
}

/// The character class that forms an integer literal.
pub open spec fn digit_pred() -> spec_fn(char) -> bool {
    |c: char| is_decimal_digit(c)
}

/// The character class that continues a name.
pub open spec fn name_pred() -> spec_fn(char) -> bool {
    |c: char| name_continues(c)
}

/// The first position at or after `i` where `pred` stops holding, or the end
/// of `s`: the run `s[i .. run_end(s, i, pred)]` is maximal for `pred`.
pub open spec fn run_end(s: Seq<char>, i: int, pred: spec_fn(char) -> bool) -> int
    decreases s.len() - i,
{
    if 0 <= i < s.len() && pred(s[i]) {
        run_end(s, i + 1, pred)
    } else {
        i
    }
}

/// A run that starts at `i` ends between `i` and the end of `s`.
pub proof fn lemma_run_end_bounds(s: Seq<char>, i: int, pred: spec_fn(char) -> bool)
    requires
        0 <= i <= s.len(),
    ensures
        i <= run_end(s, i, pred) <= s.len(),
    decreases s.len() - i,
{
    if i < s.len() && pred(s[i]) {
        lemma_run_end_bounds(s, i + 1, pred);
    }
}

/// A maximal `pred`-run from `i` to `j` pins `run_end` down to `j`.
proof fn lemma_run_end_is(s: Seq<char>, i: int, j: int, pred: spec_fn(char) -> bool)
    requires
        0 <= i <= j <= s.len(),
        forall|k: int| i <= k < j ==> pred(s[k]),
        j == s.len() || !pred(s[j]),
    ensures
        run_end(s, i, pred) == j,
    decreases j - i,
{
    if i < j {
        assert(pred(s[i]));
        lemma_run_end_is(s, i + 1, j, pred);
    }
}

/// Where the integer literal starting at `i` ends.
pub open spec fn digit_run_end(s: Seq<char>, i: int) -> int {
    run_end(s, i, digit_pred())
}

/// Where the name starting at `i` ends.
pub open spec fn name_run_end(s: Seq<char>, i: int) -> int {
    run_end(s, i, name_pred())
}

/// The value of the digit run `s[i..j]`, accumulated left to right with
/// wraparound modulo 2^64.
pub open spec fn digits_value_wrapped(s: Seq<char>, i: int, j: int) -> u64
    decreases j - i,
{
    if i < j {
        u64_specs::wrapping_add(
            u64_specs::wrapping_mul(digits_value_wrapped(s, i, j - 1), 10),
            decimal_digit_value(s[j - 1]),
        )
    } else {
        0
    }
}

/// The exact decimal value of the digit run `s[i..j]`, as an unbounded
/// integer.
pub open spec fn digits_value(s: Seq<char>, i: int, j: int) -> int
    decreases j - i,
{
    if i < j {
        digits_value(s, i, j - 1) * 10 + decimal_digit_value(s[j - 1])
    } else {
        0
    }
}

/// The token sequence of `s` from position `i` on.
pub open spec fn spec_tokenize_from(s: Seq<char>, i: int) -> Seq<TokenModel>
    decreases s.len() - i,
{
    if !(0 <= i < s.len()) {
        Seq::empty()
    } else {
        let c = s[i];
        if is_decimal_digit(c) {
            let j: int = digit_run_end(s, i);
            proof {
                lemma_run_end_bounds(s, i + 1, digit_pred());
            }
            seq![TokenModel::Int(digits_value_wrapped(s, i, j))] + spec_tokenize_from(s, j)
        } else if c == ' ' {
            spec_tokenize_from(s, i + 1)
        } else if unicode_alphabetic(c) {
            let j: int = name_run_end(s, i);
            proof {
                lemma_run_end_bounds(s, i + 1, name_pred());
            }
            seq![TokenModel::Name(s.subrange(i, j))] + spec_tokenize_from(s, j)
        } else {
            seq![TokenModel::Other(c)] + spec_tokenize_from(s, i + 1)
        }
    }
}

/// The token sequence of the whole of `s`.
pub open spec fn spec_tokenize(s: Seq<char>) -> Seq<TokenModel> {
    spec_tokenize_from(s, 0)
}

proof fn lemma_seq_model_push(ts: Seq<Token>, t: Token)
    ensures
        seq_model(ts.push(t)) =~= seq_model(ts).push(t.deep_view()),
{
}

proof fn lemma_digits_value_nonneg(s: Seq<char>, i: int, j: int)
    ensures
        0 <= digits_value(s, i, j),
    decreases j - i,
{
    if i < j {
        lemma_digits_value_nonneg(s, i, j - 1);
    }
}

/// The wrapped accumulation of a digit run computes its exact decimal value
/// reduced modulo 2^64.
proof fn lemma_digits_value_wrapped_mod(s: Seq<char>, i: int, j: int)
    ensures
        digits_value_wrapped(s, i, j) == digits_value(s, i, j) % 0x1_0000_0000_0000_0000,
    decreases j - i,
{
    let m: int = 0x1_0000_0000_0000_0000;
    if i < j {
        lemma_digits_value_wrapped_mod(s, i, j - 1);
        lemma_digits_value_nonneg(s, i, j - 1);
        let dv: int = digits_value(s, i, j - 1);
        let x: u64 = digits_value_wrapped(s, i, j - 1);
        let d: u64 = decimal_digit_value(s[j - 1]);
        vstd::arithmetic::div_mod::lemma_mod_bound(dv, m);
        vstd::arithmetic::div_mod::lemma_mul_mod_noop_left(dv, 10, m);
        let y: u64 = u64_specs::wrapping_mul(x, 10);
        assert(y == (dv * 10) % m);
        vstd::arithmetic::div_mod::lemma_mod_bound(dv * 10, m);
        vstd::arithmetic::div_mod::lemma_small_mod(d as nat, m as nat);
        vstd::arithmetic::div_mod::lemma_add_mod_noop(dv * 10, d as int, m);
        if y + d > u64::MAX {
            vstd::arithmetic::div_mod::lemma_mod_multiples_vanish(1, y + d - m, m);
            vstd::arithmetic::div_mod::lemma_small_mod((y + d - m) as nat, m as nat);
        } else {
            vstd::arithmetic::div_mod::lemma_small_mod((y + d) as nat, m as nat);
        }
    } else {
        vstd::arithmetic::div_mod::lemma_small_mod(0nat, m as nat);
    }
}

/// A non-empty input made of decimal digits alone is tokenized as exactly one
/// integer token, whose value is the decimal interpretation of the digits
/// reduced modulo 2^64 — so, whenever that interpretation fits in 64 bits,
/// the decimal interpretation itself.
pub proof fn lemma_tokenize_digits(s: Seq<char>)
    requires
        s.len() > 0,
        forall|k: int| 0 <= k < s.len() ==> is_decimal_digit(s[k]),
    ensures
        spec_tokenize(s) == seq![
            TokenModel::Int(
                (digits_value(s, 0, s.len() as int) % 0x1_0000_0000_0000_0000) as u64,
            ),
        ],
        digits_value(s, 0, s.len() as int) <= u64::MAX ==> spec_tokenize(s) == seq![
            TokenModel::Int(digits_value(s, 0, s.len() as int) as u64),
        ],
{
    let len: int = s.len() as int;
    let m: int = 0x1_0000_0000_0000_0000;
    lemma_run_end_is(s, 0, len, digit_pred());
    lemma_digits_value_wrapped_mod(s, 0, len);
    lemma_digits_value_nonneg(s, 0, len);
    if digits_value(s, 0, len) <= u64::MAX {
        vstd::arithmetic::div_mod::lemma_small_mod(digits_value(s, 0, len) as nat, m as nat);
    }
    assert(spec_tokenize_from(s, len) =~= Seq::<TokenModel>::empty());
    assert(spec_tokenize(s) =~= seq![
        TokenModel::Int((digits_value(s, 0, len) % m) as u64),
    ]);
}

/// Whether `c` is a letter: alphabetic, and neither a decimal digit nor the
/// space character.
pub open spec fn is_letter(c: char) -> bool {
    unicode_alphabetic(c) && !is_decimal_digit(c) && c != ' '
}

/// A non-empty input of letters and digits that starts with a letter is
/// tokenized as exactly one name token spanning the whole input.
pub proof fn lemma_tokenize_name(s: Seq<char>)
    requires
        s.len() > 0,
        is_letter(s[0]),
        forall|k: int| 0 <= k < s.len() ==> is_letter(s[k]) || is_decimal_digit(s[k]),
    ensures
        spec_tokenize(s) == seq![TokenModel::Name(s)],
{
    let len: int = s.len() as int;
    assert(forall|k: int| 0 <= k < len ==> name_continues(s[k]));
    lemma_run_end_is(s, 0, len, name_pred());
    assert(s.subrange(0, len) =~= s);
    assert(spec_tokenize_from(s, len) =~= Seq::<TokenModel>::empty());
    assert(spec_tokenize(s) =~= seq![TokenModel::Name(s.subrange(0, len))]);
}

/// A space character contributes no token of its own.
pub proof fn lemma_space_emits_nothing(s: Seq<char>, i: int)
    requires
        0 <= i < s.len(),
        s[i] == ' ',
    ensures
        spec_tokenize_from(s, i) == spec_tokenize_from(s, i + 1),
{
}

/// Whether no token of `ts` is the space character passed through verbatim.
pub open spec fn all_non_space(ts: Seq<TokenModel>) -> bool {
    forall|k: int| 0 <= k < ts.len() ==> ts[k] != TokenModel::Other(' ')
}

/// The character itself. Naming a sequence element through a spec function
/// restores its typing facts to the prover, which indexing alone does not.
spec fn as_char(c: char) -> char {
    c
}

proof fn lemma_cons_non_space(h: TokenModel, rest: Seq<TokenModel>)
    requires
        h != TokenModel::Other(' '),
        all_non_space(rest),
    ensures
        all_non_space(seq![h] + rest),
{
    let combined = seq![h] + rest;
    assert forall|k: int| 0 <= k < combined.len() implies combined[k] != TokenModel::Other(
        ' ',
    ) by {
        if k == 0 {
            assert(combined[0] == h);
        } else {
            assert(combined[k] == rest[k - 1]);
        }
    }
}

proof fn lemma_tokenize_from_no_space(s: Seq<char>, i: int)
    ensures
        all_non_space(spec_tokenize_from(s, i)),
    decreases s.len() - i,
{
    if 0 <= i < s.len() {
        let c = s[i];
        if is_decimal_digit(c) {
            let j: int = digit_run_end(s, i);
            lemma_run_end_bounds(s, i + 1, digit_pred());
            lemma_tokenize_from_no_space(s, j);
            lemma_cons_non_space(
                TokenModel::Int(digits_value_wrapped(s, i, j)),
                spec_tokenize_from(s, j),
            );
            assert(spec_tokenize_from(s, i) == seq![
                TokenModel::Int(digits_value_wrapped(s, i, j)),
            ] + spec_tokenize_from(s, j));
        } else if c == ' ' {
            lemma_tokenize_from_no_space(s, i + 1);
        } else if unicode_alphabetic(c) {
            let j: int = name_run_end(s, i);
            lemma_run_end_bounds(s, i + 1, name_pred());
            lemma_tokenize_from_no_space(s, j);
            lemma_cons_non_space(TokenModel::Name(s.subrange(i, j)), spec_tokenize_from(s, j));
            assert(spec_tokenize_from(s, i) == seq![TokenModel::Name(s.subrange(i, j))]
                + spec_tokenize_from(s, j));
        } else {
            assert(as_char(c) == c);
            lemma_tokenize_from_no_space(s, i + 1);
            lemma_cons_non_space(TokenModel::Other(c), spec_tokenize_from(s, i + 1));
            assert(spec_tokenize_from(s, i) == seq![TokenModel::Other(c)] + spec_tokenize_from(
                s,
                i + 1,
            ));
        }
    }
}

/// Whitespace is never represented in the token sequence: no output token is
/// a space.
pub proof fn lemma_tokenize_no_space(s: Seq<char>)
    ensures
        all_non_space(spec_tokenize(s)),
{
    lemma_tokenize_from_no_space(s, 0);
}

/// Scans `s` into its token sequence. Total: every character lands in
/// exactly one token or is a discarded space, and integer literal values
/// wrap around modulo 2^64.
pub fn tokenize(s: &str) -> (tokens: Vec<Token>)
    ensures
        seq_model(tokens@) == spec_tokenize(s@),
{
    let n: usize = s.unicode_len();
    let mut tokens: Vec<Token> = Vec::new();
    let mut i: usize = 0;
    while i < n
        invariant
            i <= n,
            n == s@.len(),
            spec_tokenize(s@) == seq_model(tokens@) + spec_tokenize_from(s@, i as int),
        decreases n - i,
    {
        let c = s.get_char(i);
        let ghost tokens_before = tokens@;
        let ghost start: int = i as int;
        if check_decimal_digit(c) {
            let mut val: u64 = digit_value(c);
            let mut j: usize = i + 1;
            proof {
                assert(digits_value_wrapped(s@, start, start) == 0);
                assert(val == digits_value_wrapped(s@, start, start + 1));
            }
            loop
                invariant_except_break
                    start < j <= n,
                    n == s@.len(),
                    forall|k: int| start <= k < j ==> is_decimal_digit(s@[k]),
                    val == digits_value_wrapped(s@, start, j as int),
                ensures
                    start < j <= n,
                    forall|k: int| start <= k < j ==> is_decimal_digit(s@[k]),
                    val == digits_value_wrapped(s@, start, j as int),
                    j == n || !is_decimal_digit(s@[j as int]),
                decreases n - j,
            {
                if j >= n {
                    break;
                }
                let d = s.get_char(j);
                if !check_decimal_digit(d) {
                    break;
                }
                val = val.wrapping_mul(10).wrapping_add(digit_value(d));
                j = j + 1;
            }
            proof {
                lemma_run_end_is(s@, start, j as int, digit_pred());
            }
            tokens.push(Token::Int(val));
            proof {
                lemma_seq_model_push(tokens_before, Token::Int(val));
                assert(seq_model(tokens_before) + spec_tokenize_from(s@, start) =~= seq_model(
                    tokens@,
                ) + spec_tokenize_from(s@, j as int));
            }
            i = j;
        } else if c == ' ' {
            i = i + 1;
        } else if check_alphabetic(c) {
            let mut j: usize = i + 1;
            loop
                invariant_except_break
                    start < j <= n,
                    n == s@.len(),
                    forall|k: int| start <= k < j ==> name_continues(s@[k]),
                ensures
                    start < j <= n,
                    forall|k: int| start <= k < j ==> name_continues(s@[k]),
                    j == n || !name_continues(s@[j as int]),
                decreases n - j,
            {
                if j >= n {
                    break;
                }
                let d = s.get_char(j);
                let continues = if check_decimal_digit(d) {
                    true
                } else {
                    check_alphabetic(d)
                };
                if !continues {
                    break;
                }
                j = j + 1;
            }
            proof {
                lemma_run_end_is(s@, start, j as int, name_pred());
            }
            let text = s.substring_char(i, j).to_owned();
            tokens.push(Token::Name(text));
            proof {
                lemma_seq_model_push(tokens_before, Token::Name(text));
                assert(seq_model(tokens_before) + spec_tokenize_from(s@, start) =~= seq_model(
                    tokens@,
                ) + spec_tokenize_from(s@, j as int));
            }
            i = j;
        } else {
            tokens.push(Token::Other(c));
            proof {
                lemma_seq_model_push(tokens_before, Token::Other(c));
                assert(seq_model(tokens_before) + spec_tokenize_from(s@, start) =~= seq_model(
                    tokens@,
                ) + spec_tokenize_from(s@, start + 1));
            }
            i = i + 1;
        }
    }
    proof {
        assert(seq_model(tokens@) =~= spec_tokenize(s@));
    }
    tokens
}

} // verus!
