//! Classification of the next token at the head of a text suffix.
//!
//! The specification model mirrors the rules in one place: a maximal run
//! of digit characters (decimal or hexadecimal, with `_` separators), an
//! optional type-width suffix checked longest-first, the single-character
//! symbols `+`, `=` and space, and end-of-input on an empty suffix.

use vstd::prelude::*;

verus! {

use crate::token::LexError;
use crate::token::Token;

/// A decimal digit `0`-`9`.
pub open spec fn is_digit(c: char) -> bool {
    '0' <= c && c <= '9'
}

/// A character of a decimal digit run: a digit or the `_` separator.
pub open spec fn is_dec_char(c: char) -> bool {
    is_digit(c) || c == '_'
}

/// A character of a hexadecimal digit run: `0`-`9`, `a`-`f`, `A`-`F`,
/// or the `_` separator.
pub open spec fn is_hex_char(c: char) -> bool {
    is_digit(c) || ('a' <= c && c <= 'f') || ('A' <= c && c <= 'F') || c == '_'
}

/// Length of the maximal prefix of `s` whose characters all satisfy `p`.
pub open spec fn run_len(s: Seq<char>, p: spec_fn(char) -> bool) -> nat
    decreases s.len(),
{
    if s.len() == 0 || !p(s[0]) {
        0
    } else {
        1 + run_len(s.skip(1), p)
    }
}

/// Length of the maximal decimal digit run at the head of `s`.
pub open spec fn dec_run_len(s: Seq<char>) -> nat {
    run_len(s, |c: char| is_dec_char(c))
}

/// Length of the maximal hexadecimal digit run at the head of `s`.
pub open spec fn hex_run_len(s: Seq<char>) -> nat {
    run_len(s, |c: char| is_hex_char(c))
}

/// The run length never exceeds the length of the text.
pub proof fn lemma_run_len_le(s: Seq<char>, p: spec_fn(char) -> bool)
    ensures
        run_len(s, p) <= s.len(),
    decreases s.len(),
{
    if s.len() != 0 && p(s[0]) {
        lemma_run_len_le(s.skip(1), p);
    }
}

/// The run length is the unique cut `n`: every character before `n`
/// satisfies `p`, and either the text ends at `n` or the character
/// there does not satisfy `p`.
pub proof fn lemma_run_len_is(s: Seq<char>, p: spec_fn(char) -> bool, n: nat)
    requires
        n <= s.len(),
        forall|j: int| 0 <= j < n ==> p(s[j]),
        n == s.len() || !p(s[n as int]),
    ensures
        run_len(s, p) == n,
    decreases n,
{
    if n == 0 {
        assert(s.len() == 0 || !p(s[0]));
    } else {
        assert(p(s[0]));
        lemma_run_len_is(s.skip(1), p, (n - 1) as nat);
    }
}

/// Length of the type-width suffix at the head of `s`: 4 for `u128` or
/// `u256`, 3 for `u64`, `u16` or `u32`, 2 for `u8`, and 0 when none of
/// these is present. Longer suffixes are checked first.
pub open spec fn suffix_len(s: Seq<char>) -> nat {
    if s.len() >= 4 && s[0] == 'u' && ((s[1] == '1' && s[2] == '2' && s[3] == '8') || (s[1]
        == '2' && s[2] == '5' && s[3] == '6')) {
        4
    } else if s.len() >= 3 && s[0] == 'u' && ((s[1] == '6' && s[2] == '4') || (s[1] == '1' && s[2]
        == '6') || (s[1] == '3' && s[2] == '2')) {
        3
    } else if s.len() >= 2 && s[0] == 'u' && s[1] == '8' {
        2
    } else {
        0
    }
}

/// The suffix begins a hexadecimal literal: a `0x` prefix with at least
/// one more character after it.
pub open spec fn hex_form(s: Seq<char>) -> bool {
    s.len() > 2 && s[0] == '0' && s[1] == 'x'
}

/// Classification succeeds on `s`: the suffix is empty or its first
/// character starts a number, `+`, `=` or a space.
pub open spec fn scan_ok(s: Seq<char>) -> bool {
    s.len() == 0 || is_digit(s[0]) || s[0] == '+' || s[0] == '=' || s[0] == ' '
}

/// Length of the token scanned at the head of `s`, assuming
/// classification succeeds.
pub open spec fn scan_len(s: Seq<char>) -> nat {
    if s.len() == 0 {
        0
    } else if is_digit(s[0]) {
        if hex_form(s) {
            let h = hex_run_len(s.skip(2));
            if h == 0 {
                1
            } else {
                2 + h + suffix_len(s.skip(2 + h as int))
            }
        } else {
            let d = dec_run_len(s);
            d + suffix_len(s.skip(d as int))
        }
    } else {
        1
    }
}

/// Kind of the token scanned at the head of `s`, assuming
/// classification succeeds.
pub open spec fn scan_token(s: Seq<char>) -> Token {
    if s.len() == 0 {
        Token::EOF
    } else if is_digit(s[0]) {
        if hex_form(s) {
            let h = hex_run_len(s.skip(2));
            if h == 0 {
                Token::NumValue
            } else if suffix_len(s.skip(2 + h as int)) > 0 {
                Token::NumTypedValue
            } else {
                Token::NumValue
            }
        } else {
            if suffix_len(s.skip(dec_run_len(s) as int)) > 0 {
                Token::NumTypedValue
            } else {
                Token::NumValue
            }
        }
    } else if s[0] == '+' {
        Token::Plus
    } else if s[0] == '=' {
        Token::Equal
    } else {
        Token::Space
    }
}

/// A scanned token never reaches past the end of the text, and consumes
/// at least one character whenever the suffix is non-empty and scans.
pub proof fn lemma_scan_len_bounds(s: Seq<char>)
    ensures
        scan_len(s) <= s.len(),
        s.len() > 0 && scan_ok(s) ==> 1 <= scan_len(s),
{
    if s.len() > 0 && is_digit(s[0]) {
        if hex_form(s) {
            lemma_run_len_le(s.skip(2), |c: char| is_hex_char(c));
        } else {
            lemma_run_len_le(s, |c: char| is_dec_char(c));
        }
    }
}

/// The whole suffix `s` scans to end-of-input without hitting an
/// invalid character.
pub open spec fn scannable(s: Seq<char>) -> bool
    decreases s.len(),
{
    if !scan_ok(s) {
        false
    } else if s.len() == 0 {
        true
    } else {
        proof {
            lemma_scan_len_bounds(s);
        }
        scannable(s.skip(scan_len(s) as int))
    }
}

/// Exec mirror of [`is_digit`]; also part of the original interface.
pub fn is_number(ch: char) -> (r: bool)
    ensures
        r == is_digit(ch),
{
    ch >= '0' && ch <= '9'
}

/// A blank character: space, tab or newline. (The classifier itself
/// accepts only the space; this broader test is part of the original
/// interface.)
pub fn is_blank(ch: char) -> (r: bool)
    ensures
        r == (ch == ' ' || ch == '\t' || ch == '\n'),
{
    ch == ' ' || ch == '\t' || ch == '\n'
}

/// Exec mirror of [`is_dec_char`].
fn is_dec_char_exec(c: char) -> (r: bool)
    ensures
        r == is_dec_char(c),
{
    is_number(c) || c == '_'
}

/// Exec mirror of [`is_hex_char`].
fn is_hex_char_exec(c: char) -> (r: bool)
    ensures
        r == is_hex_char(c),
{
    is_number(c) || (c >= 'a' && c <= 'f') || (c >= 'A' && c <= 'F') || c == '_'
}

/// Length of the maximal digit run at the head of `text`: hexadecimal
/// characters when `hex` is set, decimal characters otherwise.
fn scan_run(text: &str, hex: bool) -> (n: usize)
    ensures
        n as nat == if hex {
            hex_run_len(text@)
        } else {
            dec_run_len(text@)
        },
        n as nat <= text@.len(),
{
    let len = text.unicode_len();
    let mut i: usize = 0;
    loop
        invariant
            i <= len,
            len as nat == text@.len(),
            forall|j: int|
                0 <= j < i ==> if hex {
                    is_hex_char(text@[j])
                } else {
                    is_dec_char(text@[j])
                },
        ensures
            i <= len,
            forall|j: int|
                0 <= j < i ==> if hex {
                    is_hex_char(text@[j])
                } else {
                    is_dec_char(text@[j])
                },
            i == len || !(if hex {
                is_hex_char(text@[i as int])
            } else {
                is_dec_char(text@[i as int])
            }),
        decreases len - i,
    {
        if i >= len {
            break ;
        }
        let c = text.get_char(i);
        let in_run = if hex {
            is_hex_char_exec(c)
        } else {
            is_dec_char_exec(c)
        };
        if !in_run {
            break ;
        }
        i = i + 1;
    }
    proof {
        if hex {
            lemma_run_len_is(text@, |c: char| is_hex_char(c), i as nat);
        } else {
            lemma_run_len_is(text@, |c: char| is_dec_char(c), i as nat);
        }
    }
    i
}

/// Scans a maximal decimal digit run from the start of `text`, then a
/// type-width suffix right after it.
pub fn get_decimal_number(text: &str) -> (r: (Token, usize))
    ensures
        ({
            let d = dec_run_len(text@);
            let sl = suffix_len(text@.skip(d as int));
            &&& r.1 as nat == d + sl
            &&& r.0 == if sl > 0 {
                Token::NumTypedValue
            } else {
                Token::NumValue
            }
            &&& r.1 as nat <= text@.len()
        }),
{
    let num_text_len = scan_run(text, false);
    get_number_maybe_with_suffix(text, num_text_len)
}

/// Scans a maximal hexadecimal digit run from the start of `text` (the
/// part after a `0x` prefix), then a type-width suffix right after it.
/// A zero-length run yields a zero-length result, and the caller backs
/// off to the leading `0` alone.
pub fn get_hex_number(text: &str) -> (r: (Token, usize))
    ensures
        ({
            let h = hex_run_len(text@);
            let sl = suffix_len(text@.skip(h as int));
            if h == 0 {
                r == (Token::NumValue, 0usize)
            } else {
                &&& r.1 as nat == h + sl
                &&& r.0 == if sl > 0 {
                    Token::NumTypedValue
                } else {
                    Token::NumValue
                }
                &&& r.1 as nat <= text@.len()
            }
        }),
{
    let num_text_len = scan_run(text, true);
    if num_text_len == 0 {
        (Token::NumValue, 0)
    } else {
        get_number_maybe_with_suffix(text, num_text_len)
    }
}

/// Given the text of a number literal and the length of its digit run,
/// checks for a type-width suffix immediately after the run, testing
/// longer suffixes before shorter ones.
pub fn get_number_maybe_with_suffix(text: &str, num_text_len: usize) -> (r: (Token, usize))
    requires
        num_text_len as nat <= text@.len(),
    ensures
        ({
            let sl = suffix_len(text@.skip(num_text_len as int));
            &&& r.1 as nat == num_text_len + sl
            &&& r.0 == if sl > 0 {
                Token::NumTypedValue
            } else {
                Token::NumValue
            }
            &&& r.1 as nat <= text@.len()
        }),
{
    let len = text.unicode_len();
    let rest: usize = len - num_text_len;
    if rest >= 4 && text.get_char(num_text_len) == 'u' {
        let c1 = text.get_char(num_text_len + 1);
        let c2 = text.get_char(num_text_len + 2);
        let c3 = text.get_char(num_text_len + 3);
        if (c1 == '1' && c2 == '2' && c3 == '8') || (c1 == '2' && c2 == '5' && c3 == '6') {
            return (Token::NumTypedValue, num_text_len + 4);
        }
    }
    if rest >= 3 && text.get_char(num_text_len) == 'u' {
        let c1 = text.get_char(num_text_len + 1);
        let c2 = text.get_char(num_text_len + 2);
        if (c1 == '6' && c2 == '4') || (c1 == '1' && c2 == '6') || (c1 == '3' && c2 == '2') {
            return (Token::NumTypedValue, num_text_len + 3);
        }
    }
    if rest >= 2 && text.get_char(num_text_len) == 'u' {
        let c1 = text.get_char(num_text_len + 1);
        if c1 == '8' {
            return (Token::NumTypedValue, num_text_len + 2);
        }
    }
    (Token::NumValue, num_text_len)
}

/// Classifies the token at the head of `text`: its kind and its length.
/// Fails exactly when the first character matches no rule, and then
/// carries that character.
pub fn find_token(text: &str) -> (r: Result<(Token, usize), LexError>)
    ensures
        scan_ok(text@) ==> ({
            &&& r is Ok
            &&& r->Ok_0.0 == scan_token(text@)
            &&& r->Ok_0.1 as nat == scan_len(text@)
        }),
        !scan_ok(text@) ==> r == Err::<(Token, usize), LexError>(
            LexError::InvalidCharacter(text@[0]),
        ),
        scan_len(text@) <= text@.len(),
{
    proof {
        lemma_scan_len_bounds(text@);
    }
    let len = text.unicode_len();
    if len == 0 {
        return Ok((Token::EOF, 0));
    }
    let c = text.get_char(0);
    if is_number(c) {
        if len > 2 && c == '0' && text.get_char(1) == 'x' {
            let tail = text.substring_char(2, len);
            let (tok, hex_len) = get_hex_number(tail);
            if hex_len == 0 {
                Ok((Token::NumValue, 1))
            } else {
                Ok((tok, 2 + hex_len))
            }
        } else {
            Ok(get_decimal_number(text))
        }
    } else if c == '+' {
        Ok((Token::Plus, 1))
    } else if c == '=' {
        Ok((Token::Equal, 1))
    } else if c == ' ' {
        Ok((Token::Space, 1))
    } else {
        Err(LexError::InvalidCharacter(c))
    }
}

} // verus!
