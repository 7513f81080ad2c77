//! Lexical analysis: text to tokens.
//!
//! The lexer scans the input left to right, one character at a time.
//! Digit runs accumulate into a single `Number` token by positional base-10
//! accumulation (wrapping around `i32`); `(` and `)` both map to the single
//! `Paren` token (the grammar tells opening from closing by position);
//! `+ - * /` map to their operator tokens; whitespace is skipped; any other
//! character fails the whole call with `UnknownToken`.

use vstd::prelude::*;
use vstd::string::StrSliceExecFns;

use crate::Error;

verus! {

/// One lexical unit of the input text. Tokens carry no identity beyond
/// value equality.
#[derive(Clone, Copy, Debug, PartialEq, Eq, Structural)]
pub enum Token {
    /// A number literal.
    Number(i32),
    /// `(` or `)`; the grammar tells opening from closing by position.
    Paren,
    /// `+`
    Plus,
    /// `-`
    Minus,
    /// `*`
    Mul,
    /// `/`
    Div,
}

/// Whether `c` is an ASCII decimal digit.
pub open spec fn is_digit_char(c: char) -> bool {
    '0' as u32 <= c as u32 && c as u32 <= '9' as u32
}

/// The numeric value of a digit character.
pub open spec fn digit_val(c: char) -> i32
    recommends
        is_digit_char(c),
{
    (c as u32 - '0' as u32) as i32
}

/// Whether `c` is an ASCII decimal digit.
fn is_digit(c: char) -> (r: bool)
    ensures
        r == is_digit_char(c),
{
    let u = c as u32;
    ('0' as u32) <= u && u <= ('9' as u32)
}

/// The numeric value of a digit character.
fn digit_value(c: char) -> (r: i32)
    requires
        is_digit_char(c),
    ensures
        r == digit_val(c),
{
    ((c as u32) - ('0' as u32)) as i32
}

/// Whether `c` has the Unicode `White_Space` property, exactly as
/// `char::is_whitespace` decides it.
pub uninterp spec fn is_unicode_whitespace(c: char) -> bool;

/// Relies on `char::is_whitespace`: whether `c` has the Unicode
/// `White_Space` property, a function of the character alone.
#[verifier::external_body]
fn char_is_whitespace(c: char) -> (r: bool)
    ensures
        r == is_unicode_whitespace(c),
{
    c.is_whitespace()
}

/// Whether `c` is one of the six symbol characters the lexer knows.
pub open spec fn is_symbol_char(c: char) -> bool {
    c == '(' || c == ')' || c == '+' || c == '-' || c == '*' || c == '/'
}

/// The token a symbol character maps to.
pub open spec fn symbol_token(c: char) -> Token
    recommends
        is_symbol_char(c),
{
    if c == '(' || c == ')' {
        Token::Paren
    } else if c == '+' {
        Token::Plus
    } else if c == '-' {
        Token::Minus
    } else if c == '*' {
        Token::Mul
    } else {
        Token::Div
    }
}

/// A character the lexer accepts: a digit, one of `( ) + - * /`, or
/// whitespace.
pub open spec fn is_known_char(c: char) -> bool {
    is_digit_char(c) || is_symbol_char(c) || is_unicode_whitespace(c)
}

/// The accumulated value of a number literal after one more digit:
/// `acc * 10 + digit`, wrapping around `i32`.
pub open spec fn acc_digit(acc: i32, c: char) -> i32
    recommends
        is_digit_char(c),
{
    vstd::wrapping::i32_specs::wrapping_add(
        vstd::wrapping::i32_specs::wrapping_mul(acc, 10),
        digit_val(c),
    )
}

/// The number token, if any, whose digits ended just before the current
/// position.
pub open spec fn flush_pending(pending: Option<i32>) -> Seq<Token> {
    match pending {
        Some(v) => seq![Token::Number(v)],
        None => Seq::empty(),
    }
}

/// The tokens of `s` from position `i` on, given that `pending` holds the
/// accumulated value of a digit run that ends right before `i` (if one
/// does). The first character that is neither a digit, a symbol, nor
/// whitespace fails the whole result with `UnknownToken`.
pub open spec fn spec_tokenize_from(s: Seq<char>, i: int, pending: Option<i32>) -> Result<
    Seq<Token>,
    Error,
>
    decreases s.len() - i,
{
    if i < 0 || i >= s.len() {
        Ok(flush_pending(pending))
    } else if is_digit_char(s[i]) {
        let acc = match pending {
            Some(v) => acc_digit(v, s[i]),
            None => digit_val(s[i]),
        };
        spec_tokenize_from(s, i + 1, Some(acc))
    } else if is_symbol_char(s[i]) {
        match spec_tokenize_from(s, i + 1, None) {
            Ok(rest) => Ok(flush_pending(pending) + seq![symbol_token(s[i])] + rest),
            Err(e) => Err(e),
        }
    } else if is_unicode_whitespace(s[i]) {
        match spec_tokenize_from(s, i + 1, None) {
            Ok(rest) => Ok(flush_pending(pending) + rest),
            Err(e) => Err(e),
        }
    } else {
        Err(Error::UnknownToken)
    }
}

/// The token sequence of `s`, or `UnknownToken` on the first character the
/// lexer does not accept.
pub open spec fn spec_tokenize(s: Seq<char>) -> Result<Seq<Token>, Error> {
    spec_tokenize_from(s, 0, None)
}

/// A pending number token can be flushed once the character at `i` (if any)
/// is not a digit: the result is the pending `Number` followed by the tokens
/// of the rest, and that `Number` may equally be appended to tokens already
/// produced.
proof fn lemma_flush(s: Seq<char>, i: int, v: i32, toks: Seq<Token>)
    requires
        0 <= i,
        !(i < s.len() && is_digit_char(s[i])),
    ensures
        spec_tokenize_from(s, i, None) matches Ok(rest) ==> spec_tokenize_from(s, i, Some(v))
            == Ok::<Seq<Token>, Error>(seq![Token::Number(v)] + rest) && toks + (seq![
            Token::Number(v),
        ] + rest) == toks.push(Token::Number(v)) + rest,
        spec_tokenize_from(s, i, None) matches Err(e) ==> spec_tokenize_from(s, i, Some(v))
            == Err::<Seq<Token>, Error>(e),
{
    match spec_tokenize_from(s, i, None) {
        Ok(rest) => {
            assert(toks + (seq![Token::Number(v)] + rest) =~= toks.push(Token::Number(v))
                + rest);
            if i >= s.len() {
                assert(seq![Token::Number(v)] + Seq::<Token>::empty() =~= seq![Token::Number(v)]);
            } else if is_symbol_char(s[i]) {
                match spec_tokenize_from(s, i + 1, None) {
                    Ok(tail) => {
                        assert(seq![Token::Number(v)] + (Seq::<Token>::empty() + seq![
                            symbol_token(s[i]),
                        ] + tail) =~= seq![Token::Number(v)] + seq![symbol_token(s[i])] + tail);
                    },
                    Err(_) => {},
                }
            } else if is_unicode_whitespace(s[i]) {
                match spec_tokenize_from(s, i + 1, None) {
                    Ok(tail) => {
                        assert(seq![Token::Number(v)] + (Seq::<Token>::empty() + tail) =~= seq![
                            Token::Number(v),
                        ] + tail);
                    },
                    Err(_) => {},
                }
            }
        },
        Err(_) => {},
    }
}

/// Past an inserted character, tokenizing the widened text from `j` agrees
/// with tokenizing the original text from `j - 1`, whatever is pending.
proof fn lemma_tokenize_suffix_shift(s: Seq<char>, k: int, w: char, j: int, pending: Option<i32>)
    requires
        0 <= k <= s.len(),
        k + 1 <= j <= s.len() + 1,
    ensures
        spec_tokenize_from(s.insert(k, w), j, pending) == spec_tokenize_from(s, j - 1, pending),
    decreases s.len() + 1 - j,
{
    let t = s.insert(k, w);
    assert(t.len() == s.len() + 1);
    if j < t.len() {
        assert(t[j] == s[j - 1]);
        if is_digit_char(t[j]) {
            let acc = match pending {
                Some(v) => acc_digit(v, t[j]),
                None => digit_val(t[j]),
            };
            lemma_tokenize_suffix_shift(s, k, w, j + 1, Some(acc));
        } else if is_symbol_char(t[j]) || is_unicode_whitespace(t[j]) {
            lemma_tokenize_suffix_shift(s, k, w, j + 1, None);
        }
    }
}

/// Inserting the whitespace character `w` at position `k` leaves the tokens
/// from `i` on unchanged, provided `k` does not split a digit run (a digit
/// run reaching `k` is expressed by `pending`: it may be nonempty at `k`
/// only if no digit follows).
proof fn lemma_tokenize_insert_ws_from(s: Seq<char>, k: int, w: char, i: int, pending: Option<i32>)
    requires
        0 <= i <= k <= s.len(),
        is_unicode_whitespace(w),
        !is_digit_char(w),
        !is_symbol_char(w),
        i == k && pending is Some && k < s.len() ==> !is_digit_char(s[k]),
        i < k ==> !(0 < k < s.len() && is_digit_char(s[k - 1]) && is_digit_char(s[k])),
    ensures
        spec_tokenize_from(s.insert(k, w), i, pending) == spec_tokenize_from(s, i, pending),
    decreases k - i,
{
    let t = s.insert(k, w);
    assert(t.len() == s.len() + 1);
    if i == k {
        assert(t[k] == w);
        lemma_tokenize_suffix_shift(s, k, w, k + 1, None);
        match spec_tokenize_from(s, k, None) {
            Ok(rest) => {
                match pending {
                    Some(v) => {
                        lemma_flush(s, k, v, Seq::empty());
                    },
                    None => {
                        assert(Seq::<Token>::empty() + rest =~= rest);
                    },
                }
            },
            Err(_) => {
                match pending {
                    Some(v) => {
                        lemma_flush(s, k, v, Seq::empty());
                    },
                    None => {},
                }
            },
        }
    } else {
        assert(t[i] == s[i]);
        if is_digit_char(s[i]) {
            let acc = match pending {
                Some(v) => acc_digit(v, s[i]),
                None => digit_val(s[i]),
            };
            lemma_tokenize_insert_ws_from(s, k, w, i + 1, Some(acc));
        } else if is_symbol_char(s[i]) || is_unicode_whitespace(s[i]) {
            lemma_tokenize_insert_ws_from(s, k, w, i + 1, None);
        }
    }
}

/// Whitespace insensitivity of the lexer: inserting a whitespace character
/// anywhere between tokens — that is, anywhere that does not split one
/// number literal's digit run in two — leaves the token sequence unchanged.
/// Read right to left, removing such whitespace leaves it unchanged too.
pub proof fn lemma_tokenize_insert_whitespace(s: Seq<char>, k: int, w: char)
    requires
        0 <= k <= s.len(),
        is_unicode_whitespace(w),
        !is_digit_char(w),
        !is_symbol_char(w),
        !(0 < k < s.len() && is_digit_char(s[k - 1]) && is_digit_char(s[k])),
    ensures
        spec_tokenize(s.insert(k, w)) == spec_tokenize(s),
{
    lemma_tokenize_insert_ws_from(s, k, w, 0, None);
}

/// Tokenizing from `i` on succeeds exactly when every remaining character
/// is one the lexer accepts, whatever digits are pending; the only possible
/// failure is `UnknownToken`.
proof fn lemma_tokenize_from_ok_iff_known(s: Seq<char>, i: int, pending: Option<i32>)
    requires
        0 <= i <= s.len(),
    ensures
        (spec_tokenize_from(s, i, pending) is Ok) <==> (forall|j: int|
            i <= j < s.len() ==> is_known_char(s[j])),
        (spec_tokenize_from(s, i, pending) is Err) ==> spec_tokenize_from(s, i, pending) == Err::<
            Seq<Token>,
            Error,
        >(Error::UnknownToken),
    decreases s.len() - i,
{
    if i < s.len() {
        if is_digit_char(s[i]) {
            let acc = match pending {
                Some(v) => acc_digit(v, s[i]),
                None => digit_val(s[i]),
            };
            lemma_tokenize_from_ok_iff_known(s, i + 1, Some(acc));
        } else if is_symbol_char(s[i]) || is_unicode_whitespace(s[i]) {
            lemma_tokenize_from_ok_iff_known(s, i + 1, None);
        } else {
            assert(!is_known_char(s[i]));
        }
    }
}

/// Lexical soundness and completeness: tokenizing an input succeeds exactly
/// when each of its characters is a digit, one of `( ) + - * /`, or
/// whitespace; on any other input it fails with `UnknownToken`, the lexer's
/// only error.
pub proof fn lemma_tokenize_ok_iff_known(s: Seq<char>)
    ensures
        (spec_tokenize(s) is Ok) <==> (forall|j: int| 0 <= j < s.len() ==> is_known_char(s[j])),
        (spec_tokenize(s) is Err) ==> spec_tokenize(s) == Err::<Seq<Token>, Error>(
            Error::UnknownToken,
        ),
{
    lemma_tokenize_from_ok_iff_known(s, 0, None);
}

/// Turns the input text into tokens.
///
/// Digit runs accumulate into one `Number` token (`value = value * 10 +
/// digit`, wrapping around `i32`); `(` and `)` map to `Paren`; `+ - * /` map
/// to their operator tokens; whitespace is skipped; any other character
/// fails immediately with `UnknownToken`.
pub fn tokenize(input: &str) -> (r: Result<Vec<Token>, Error>)
    ensures
        (match r {
            Ok(tokens) => spec_tokenize(input@) == Ok::<Seq<Token>, Error>(tokens@),
            Err(e) => spec_tokenize(input@) == Err::<Seq<Token>, Error>(e),
        }),
{
    let mut tokens: Vec<Token> = Vec::new();
    let n: usize = input.unicode_len();
    let mut i: usize = 0;
    while i < n
        invariant
            n == input@.len(),
            i <= n,
            (match spec_tokenize_from(input@, i as int, None) {
                Ok(rest) => spec_tokenize(input@) == Ok::<Seq<Token>, Error>(tokens@ + rest),
                Err(e) => spec_tokenize(input@) == Err::<Seq<Token>, Error>(e),
            }),
        decreases n - i,
    {
        let c = input.get_char(i);
        if is_digit(c) {
            let ghost i0: int = i as int;
            let ghost tokens0: Seq<Token> = tokens@;
            let mut num: i32 = digit_value(c);
            i = i + 1;
            while i < n && is_digit(input.get_char(i))
                invariant
                    n == input@.len(),
                    i0 < i <= n,
                    spec_tokenize_from(input@, i0, None) == spec_tokenize_from(
                        input@,
                        i as int,
                        Some(num),
                    ),
                decreases n - i,
            {
                let d = digit_value(input.get_char(i));
                num = num.wrapping_mul(10).wrapping_add(d);
                i = i + 1;
            }
            proof {
                lemma_flush(input@, i as int, num, tokens0);
            }
            tokens.push(Token::Number(num));
        } else if c == '(' || c == ')' {
            proof {
                lemma_push_symbol(input@, i as int, tokens@);
            }
            tokens.push(Token::Paren);
            i = i + 1;
        } else if c == '+' {
            proof {
                lemma_push_symbol(input@, i as int, tokens@);
            }
            tokens.push(Token::Plus);
            i = i + 1;
        } else if c == '-' {
            proof {
                lemma_push_symbol(input@, i as int, tokens@);
            }
            tokens.push(Token::Minus);
            i = i + 1;
        } else if c == '*' {
            proof {
                lemma_push_symbol(input@, i as int, tokens@);
            }
            tokens.push(Token::Mul);
            i = i + 1;
        } else if c == '/' {
            proof {
                lemma_push_symbol(input@, i as int, tokens@);
            }
            tokens.push(Token::Div);
            i = i + 1;
        } else if char_is_whitespace(c) {
            proof {
                match spec_tokenize_from(input@, i as int + 1, None) {
                    Ok(rest) => {
                        assert(Seq::<Token>::empty() + rest =~= rest);
                    },
                    Err(_) => {},
                }
            }
            i = i + 1;
        } else {
            return Err(Error::UnknownToken);
        }
    }
    proof {
        assert(tokens@ + Seq::<Token>::empty() =~= tokens@);
    }
    Ok(tokens)
}

/// Appending the symbol token at position `i` keeps the loop's view of the
/// token list in step with the specification.
proof fn lemma_push_symbol(s: Seq<char>, i: int, toks: Seq<Token>)
    requires
        0 <= i < s.len(),
        !is_digit_char(s[i]),
        is_symbol_char(s[i]),
    ensures
        spec_tokenize_from(s, i + 1, None) matches Ok(rest) ==> spec_tokenize_from(s, i, None)
            == Ok::<Seq<Token>, Error>(seq![symbol_token(s[i])] + rest) && toks + (seq![
            symbol_token(s[i]),
        ] + rest) == toks.push(symbol_token(s[i])) + rest,
        spec_tokenize_from(s, i + 1, None) matches Err(e) ==> spec_tokenize_from(s, i, None)
            == Err::<Seq<Token>, Error>(e),
{
    match spec_tokenize_from(s, i + 1, None) {
        Ok(rest) => {
            assert(Seq::<Token>::empty() + seq![symbol_token(s[i])] + rest =~= seq![
                symbol_token(s[i]),
            ] + rest);
            assert(toks + (seq![symbol_token(s[i])] + rest) =~= toks.push(symbol_token(s[i]))
                + rest);
        },
        Err(_) => {},
    }
}

} // verus!

