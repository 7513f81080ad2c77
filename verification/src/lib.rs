//! An arithmetic expression calculator.
//!
//! The library evaluates expressions given as text and returns a 32-bit
//! integer. It supports `+`, `-`, `*`, integer division `/`, parenthesized
//! grouping, and unary negation, with the usual precedence (multiplicative
//! over additive) and left-associativity inside each level.
//!
//! The pipeline has three stages, composed by [`calc`]:
//! lexical analysis ([`lexer::tokenize`]), syntax analysis
//! ([`parser::parse`]), and evaluation ([`evaluator::eval`]).
//!
//! Arithmetic semantics: addition, subtraction, multiplication, negation and
//! the accumulation of number literals all wrap around per two's complement
//! on `i32`, as does the one overflowing division (`i32::MIN / -1`).
//! Division truncates toward zero. A zero divisor has no such defined
//! result, so it is reported as [`Error::DivisionByZero`].

use vstd::prelude::*;

pub mod lexer;
pub mod parser;
pub mod evaluator;

verus! {

/// The ways an evaluation can fail. Every failure aborts the current call;
/// no partial result is returned.
#[derive(Clone, Copy, Debug, PartialEq, Eq, Structural)]
pub enum Error {
    /// A character of the input is none of: digit, `(`, `)`, `+`, `-`, `*`,
    /// `/`, whitespace.
    UnknownToken,
    /// The token sequence violates the grammar: a missing operand, a missing
    /// closing parenthesis, an operator in operand position, or trailing
    /// tokens after a complete expression.
    UnexpectedToken,
    /// The right operand of a division evaluated to zero.
    DivisionByZero,
}

/// The result of evaluating the text `s`: tokenize, parse, evaluate, in
/// that order, short-circuiting on the first failure. A pure function of
/// the text, so two evaluations of the same text agree.
pub open spec fn spec_calc(s: Seq<char>) -> Result<i32, Error> {
    match lexer::spec_tokenize(s) {
        Ok(toks) => match parser::spec_parse(toks) {
            Ok(tree) => evaluator::spec_eval(tree),
            Err(e) => Err(e),
        },
        Err(e) => Err(e),
    }
}

/// Evaluates an arithmetic expression given as text and returns the result
/// as an `i32`.
///
/// The text is tokenized, parsed and evaluated in order; the first failure
/// aborts the call. The result is [`spec_calc`] of the text exactly: on
/// every input this returns either `Ok` of the expression's value under
/// wrapping `i32` arithmetic with truncating division, or one of the three
/// documented errors.
pub fn calc(input: &str) -> (r: Result<i32, Error>)
    ensures
        r == spec_calc(input@),
{
    let tokens = match lexer::tokenize(input) {
        Ok(tokens) => tokens,
        Err(e) => {
            return Err(e);
        },
    };
    let tree = match parser::parse(tokens) {
        Ok(tree) => tree,
        Err(e) => {
            return Err(e);
        },
    };
    evaluator::eval(tree)
}

/// Error classification. An input whose characters the lexer all accepts —
/// digits, `( ) + - * /`, whitespace — evaluates to `Ok` or fails for one
/// of the two documented reasons past the lexer: a grammar violation
/// (`UnexpectedToken`) or a zero divisor (`DivisionByZero`). And the result
/// is `UnknownToken` exactly when some character is not accepted.
pub proof fn lemma_calc_errors_classified(s: Seq<char>)
    ensures
        (forall|j: int| 0 <= j < s.len() ==> lexer::is_known_char(s[j])) ==> (spec_calc(s) is Ok
            || spec_calc(s) == Err::<i32, Error>(Error::UnexpectedToken) || spec_calc(s) == Err::<
            i32,
            Error,
        >(Error::DivisionByZero)),
        (spec_calc(s) == Err::<i32, Error>(Error::UnknownToken)) <==> !(forall|j: int|
            0 <= j < s.len() ==> lexer::is_known_char(s[j])),
{
    lexer::lemma_tokenize_ok_iff_known(s);
    match lexer::spec_tokenize(s) {
        Ok(toks) => {
            parser::lemma_parse_err_is_unexpected(toks);
            match parser::spec_parse(toks) {
                Ok(tree) => {
                    evaluator::lemma_eval_err_is_division_by_zero(tree);
                },
                Err(_) => {},
            }
        },
        Err(_) => {},
    }
}

/// Whitespace insensitivity: inserting a whitespace character anywhere that
/// does not split one number literal's digit run in two leaves the result
/// of evaluation unchanged — so whitespace between tokens is insignificant.
/// Read right to left, removing such a character leaves it unchanged too.
pub proof fn lemma_calc_whitespace_insensitive(s: Seq<char>, k: int, w: char)
    requires
        0 <= k <= s.len(),
        lexer::is_unicode_whitespace(w),
        !lexer::is_digit_char(w),
        !lexer::is_symbol_char(w),
        !(0 < k < s.len() && lexer::is_digit_char(s[k - 1]) && lexer::is_digit_char(s[k])),
    ensures
        spec_calc(s.insert(k, w)) == spec_calc(s),
{
    lexer::lemma_tokenize_insert_whitespace(s, k, w);
}

/// Evaluation is deterministic: any two results obtained from the same
/// text — as every result of [`calc`] is, by its contract — are identical.
pub proof fn lemma_calc_deterministic(r1: Result<i32, Error>, r2: Result<i32, Error>, s: Seq<char>)
    requires
        r1 == spec_calc(s),
        r2 == spec_calc(s),
    ensures
        r1 == r2,
{
}

} // verus!
