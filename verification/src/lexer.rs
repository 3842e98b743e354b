//! Lexer for the signal-description mini-language.
//!
//! The whole input is tokenized before parsing begins. Keywords (`sin`,
//! `white`, `brown`, `pink`), the `|` separator and numeric literals
//! (integer or decimal) are recognized; whitespace separates tokens; any
//! other byte fails lexing at once, naming the byte and its position.
//!
//! `spec_lex_from` is the mathematical definition of the token stream; the
//! executable `lex` is proved to return exactly that stream.

use vstd::prelude::*;

verus! {

/// A numeric literal, exactly the decimal `mantissa / 10^scale`
/// (`440` is `{ mantissa: 440, scale: 0 }`; `2.5` is `{ mantissa: 25, scale: 1 }`).
#[derive(Clone, Copy, PartialEq, Eq, Structural, Debug)]
pub struct Number {
    pub mantissa: u64,
    pub scale: u64,
}

/// One token of the mini-language.
#[derive(Clone, Copy, PartialEq, Eq, Structural, Debug)]
pub enum Token {
    Sin,
    White,
    Brown,
    Pink,
    Pipe,
    Number(Number),
}

/// Why lexing failed.
#[derive(Clone, Copy, PartialEq, Eq, Structural, Debug)]
pub enum LexError {
    /// An unrecognized byte at this position (also: a word that is no
    /// keyword, reported at the word's start).
    BadChar { pos: usize, byte: u8 },
    /// A numeric literal starting here whose digits exceed a machine word.
    NumberTooLarge { pos: usize },
}

pub open spec fn is_ws(c: u8) -> bool {
    c == 32 || c == 9 || c == 10 || c == 13
}

pub open spec fn is_letter(c: u8) -> bool {
    97 <= c && c <= 122
}

pub open spec fn is_digit(c: u8) -> bool {
    48 <= c && c <= 57
}

/// First position at or after `i` that does not hold a lowercase letter.
pub open spec fn letter_run_end(s: Seq<u8>, i: nat) -> nat
    decreases s.len() - i,
{
    if i < s.len() && is_letter(s[i as int]) {
        letter_run_end(s, i + 1)
    } else {
        i
    }
}

/// First position at or after `i` that does not hold a digit.
pub open spec fn digit_run_end(s: Seq<u8>, i: nat) -> nat
    decreases s.len() - i,
{
    if i < s.len() && is_digit(s[i as int]) {
        digit_run_end(s, i + 1)
    } else {
        i
    }
}

/// The keyword token spelled by `s[i .. j)`, if any.
pub open spec fn keyword_at(s: Seq<u8>, i: int, j: int) -> Option<Token> {
    if j == i + 3 && s[i] == 115 && s[i + 1] == 105 && s[i + 2] == 110 {
        Some(Token::Sin)
    } else if j == i + 5 && s[i] == 119 && s[i + 1] == 104 && s[i + 2] == 105 && s[i + 3]
        == 116 && s[i + 4] == 101 {
        Some(Token::White)
    } else if j == i + 5 && s[i] == 98 && s[i + 1] == 114 && s[i + 2] == 111 && s[i + 3]
        == 119 && s[i + 4] == 110 {
        Some(Token::Brown)
    } else if j == i + 4 && s[i] == 112 && s[i + 1] == 105 && s[i + 2] == 110 && s[i + 3]
        == 107 {
        Some(Token::Pink)
    } else {
        None
    }
}

pub open spec fn digit_val(c: u8) -> nat {
    if is_digit(c) {
        (c - 48) as nat
    } else {
        0
    }
}

/// Value of the digit string `s[i .. j)`, most significant digit first.
pub open spec fn digits_val(s: Seq<u8>, i: int, j: int) -> nat
    decreases j - i,
{
    if j <= i {
        0
    } else {
        digits_val(s, i, j - 1) * 10 + digit_val(s[j - 1])
    }
}

pub open spec fn pow10(e: nat) -> nat
    decreases e,
{
    if e == 0 {
        1
    } else {
        10 * pow10((e - 1) as nat)
    }
}

/// Does the numeric literal starting at `i` carry a fractional part?
/// (A `.` counts only when a digit follows it directly.)
pub open spec fn has_frac(s: Seq<u8>, i: nat) -> bool {
    let j = digit_run_end(s, i);
    j + 1 < s.len() && s[j as int] == 46 && is_digit(s[(j + 1) as int])
}

/// End of the numeric literal starting at `i`.
pub open spec fn num_end(s: Seq<u8>, i: nat) -> nat {
    let j = digit_run_end(s, i);
    if has_frac(s, i) {
        digit_run_end(s, j + 1)
    } else {
        j
    }
}

/// Count of fractional digits of the literal starting at `i`.
pub open spec fn num_scale(s: Seq<u8>, i: nat) -> nat {
    let j = digit_run_end(s, i);
    if has_frac(s, i) {
        (digit_run_end(s, j + 1) - (j + 1)) as nat
    } else {
        0
    }
}

/// All digits of the literal starting at `i`, read as one integer.
pub open spec fn num_mantissa(s: Seq<u8>, i: nat) -> nat {
    let j = digit_run_end(s, i);
    if has_frac(s, i) {
        digits_val(s, i as int, j as int) * pow10(num_scale(s, i)) + digits_val(
            s,
            (j + 1) as int,
            digit_run_end(s, j + 1) as int,
        )
    } else {
        digits_val(s, i as int, j as int)
    }
}

pub open spec fn cons_token(t: Token, rest: Result<Seq<Token>, LexError>) -> Result<
    Seq<Token>,
    LexError,
> {
    match rest {
        Ok(r) => Ok(seq![t] + r),
        Err(e) => Err(e),
    }
}

/// The token stream of `s` from position `i` on.
pub open spec fn spec_lex_from(s: Seq<u8>, i: nat) -> Result<Seq<Token>, LexError>
    decreases s.len() - i,
    via spec_lex_from_dec
{
    if i >= s.len() {
        Ok(Seq::empty())
    } else {
        let c = s[i as int];
        if is_ws(c) {
            spec_lex_from(s, i + 1)
        } else if c == 124 {
            cons_token(Token::Pipe, spec_lex_from(s, i + 1))
        } else if is_letter(c) {
            let j = letter_run_end(s, i);
            match keyword_at(s, i as int, j as int) {
                Some(t) => cons_token(t, spec_lex_from(s, j)),
                None => Err(LexError::BadChar { pos: i as usize, byte: c }),
            }
        } else if is_digit(c) {
            if num_mantissa(s, i) > u64::MAX {
                Err(LexError::NumberTooLarge { pos: i as usize })
            } else {
                cons_token(
                    Token::Number(
                        Number {
                            mantissa: num_mantissa(s, i) as u64,
                            scale: num_scale(s, i) as u64,
                        },
                    ),
                    spec_lex_from(s, num_end(s, i)),
                )
            }
        } else {
            Err(LexError::BadChar { pos: i as usize, byte: c })
        }
    }
}

proof fn lemma_letter_run_bounds(s: Seq<u8>, i: nat)
    requires
        i <= s.len(),
    ensures
        i <= letter_run_end(s, i) <= s.len(),
    decreases s.len() - i,
{
    if i < s.len() && is_letter(s[i as int]) {
        lemma_letter_run_bounds(s, i + 1);
    }
}

proof fn lemma_digit_run_bounds(s: Seq<u8>, i: nat)
    requires
        i <= s.len(),
    ensures
        i <= digit_run_end(s, i) <= s.len(),
    decreases s.len() - i,
{
    if i < s.len() && is_digit(s[i as int]) {
        lemma_digit_run_bounds(s, i + 1);
    }
}

#[via_fn]
proof fn spec_lex_from_dec(s: Seq<u8>, i: nat) {
    if i < s.len() {
        let c = s[i as int];
        if is_letter(c) {
            lemma_letter_run_bounds(s, i + 1);
        }
        if is_digit(c) {
            lemma_digit_run_bounds(s, i + 1);
            if has_frac(s, i) {
                lemma_digit_run_bounds(s, digit_run_end(s, i) + 1);
            }
        }
    }
}

proof fn lemma_digits_val_mono(s: Seq<u8>, i: int, j: int, k: int)
    requires
        i <= j <= k,
    ensures
        digits_val(s, i, j) <= digits_val(s, i, k),
    decreases k - j,
{
    if j < k {
        lemma_digits_val_mono(s, i, j, k - 1);
    }
}

proof fn lemma_pow10_pos(e: nat)
    ensures
        pow10(e) >= 1,
    decreases e,
{
    if e > 0 {
        lemma_pow10_pos((e - 1) as nat);
    }
}

/// The value accumulated after reading the integer digits `s[start .. j)`
/// and the fractional digits `s[j + 1 .. k)`.
pub open spec fn frac_partial(s: Seq<u8>, start: int, j: int, k: int) -> nat {
    digits_val(s, start, j) * pow10((k - (j + 1)) as nat) + digits_val(s, j + 1, k)
}

proof fn lemma_frac_partial_step(s: Seq<u8>, start: int, j: int, k: int)
    requires
        start <= j,
        j + 1 <= k,
    ensures
        frac_partial(s, start, j, k + 1) == frac_partial(s, start, j, k) * 10 + digit_val(
            s[k],
        ),
{
    let a = digits_val(s, start, j);
    let p = pow10((k - (j + 1)) as nat);
    assert(pow10((k + 1 - (j + 1)) as nat) == 10 * p);
    assert(a * (10 * p) == (a * p) * 10) by (nonlinear_arith);
}

proof fn lemma_frac_partial_mono(s: Seq<u8>, start: int, j: int, k1: int, k2: int)
    requires
        start <= j,
        j + 1 <= k1 <= k2,
    ensures
        frac_partial(s, start, j, k1) <= frac_partial(s, start, j, k2),
    decreases k2 - k1,
{
    if k1 < k2 {
        lemma_frac_partial_mono(s, start, j, k1, k2 - 1);
        lemma_frac_partial_step(s, start, j, k2 - 1);
    }
}

proof fn lemma_mantissa_ge_int(s: Seq<u8>, i: nat)
    ensures
        num_mantissa(s, i) >= digits_val(s, i as int, digit_run_end(s, i) as int),
{
    if has_frac(s, i) {
        let a = digits_val(s, i as int, digit_run_end(s, i) as int);
        let p = pow10(num_scale(s, i));
        lemma_pow10_pos(num_scale(s, i));
        assert(a * p >= a * 1) by (nonlinear_arith)
            requires
                p >= 1,
                a >= 0,
        ;
    }
}

/// Does the loop's progress so far agree with the specified token stream?
pub open spec fn lex_inv(s: Seq<u8>, i: nat, done: Seq<Token>) -> bool {
    match spec_lex_from(s, i) {
        Ok(rest) => spec_lex_from(s, 0) == Ok::<Seq<Token>, LexError>(done + rest),
        Err(e) => spec_lex_from(s, 0) == Err::<Seq<Token>, LexError>(e),
    }
}

/// Tokenize the whole input: exactly the stream `spec_lex_from` defines.
pub fn lex(input: &Vec<u8>) -> (r: Result<Vec<Token>, LexError>)
    ensures
        match spec_lex_from(input@, 0) {
            Ok(toks) => r matches Ok(v) && v@ == toks,
            Err(e) => r matches Err(e2) && e2 == e,
        },
{
    let ghost s = input@;
    let n = input.len();
    let mut i: usize = 0;
    let mut toks: Vec<Token> = Vec::new();
    while i < n
        invariant
            i <= n,
            n == s.len(),
            s == input@,
            lex_inv(s, i as nat, toks@),
        decreases n - i,
    {
        let c = input[i];
        if c == 32 || c == 9 || c == 10 || c == 13 {
            proof {
                assert(is_ws(s[i as int]));
                assert(spec_lex_from(s, i as nat) == spec_lex_from(s, (i + 1) as nat));
            }
            i = i + 1;
        } else if c == 124 {
            proof {
                assert(spec_lex_from(s, i as nat) == cons_token(
                    Token::Pipe,
                    spec_lex_from(s, (i + 1) as nat),
                ));
                match spec_lex_from(s, (i + 1) as nat) {
                    Ok(rest2) => {
                        assert(toks@ + (seq![Token::Pipe] + rest2) =~= toks@.push(
                            Token::Pipe,
                        ) + rest2);
                    },
                    Err(e) => {},
                }
            }
            toks.push(Token::Pipe);
            i = i + 1;
        } else if c >= 97 && c <= 122 {
            let start = i;
            let mut j = i + 1;
            while j < n && input[j] >= 97 && input[j] <= 122
                invariant
                    start < j <= n,
                    n == s.len(),
                    s == input@,
                    letter_run_end(s, (start + 1) as nat) == letter_run_end(s, j as nat),
                decreases n - j,
            {
                j = j + 1;
            }
            // j is the end of the letter run that starts at `start`
            assert(letter_run_end(s, start as nat) == j);
            let len = j - start;
            let t_opt: Option<Token> = if len == 3 && input[start] == 115 && input[start + 1]
                == 105 && input[start + 2] == 110 {
                Some(Token::Sin)
            } else if len == 5 && input[start] == 119 && input[start + 1] == 104 && input[start
                + 2] == 105 && input[start + 3] == 116 && input[start + 4] == 101 {
                Some(Token::White)
            } else if len == 5 && input[start] == 98 && input[start + 1] == 114 && input[start
                + 2] == 111 && input[start + 3] == 119 && input[start + 4] == 110 {
                Some(Token::Brown)
            } else if len == 4 && input[start] == 112 && input[start + 1] == 105 && input[start
                + 2] == 110 && input[start + 3] == 107 {
                Some(Token::Pink)
            } else {
                None
            };
            match t_opt {
                Some(t) => {
                    proof {
                        assert(keyword_at(s, start as int, j as int) == Some(t));
                        assert(spec_lex_from(s, start as nat) == cons_token(
                            t,
                            spec_lex_from(s, j as nat),
                        ));
                        match spec_lex_from(s, j as nat) {
                            Ok(rest2) => {
                                assert(toks@ + (seq![t] + rest2) =~= toks@.push(t) + rest2);
                            },
                            Err(e) => {},
                        }
                    }
                    toks.push(t);
                    i = j;
                },
                None => {
                    proof {
                        assert(keyword_at(s, start as int, j as int) is None);
                        assert(spec_lex_from(s, start as nat) == Err::<Seq<Token>, LexError>(
                            LexError::BadChar { pos: start, byte: c },
                        ));
                    }
                    return Err(LexError::BadChar { pos: start, byte: c });
                },
            }
        } else if c >= 48 && c <= 57 {
            let start = i;
            let mut j = start;
            let mut m: u64 = 0;
            while j < n && input[j] >= 48 && input[j] <= 57
                invariant
                    start <= j <= n,
                    start < n,
                    i == start,
                    n == s.len(),
                    s == input@,
                    is_digit(s[start as int]),
                    lex_inv(s, start as nat, toks@),
                    digit_run_end(s, start as nat) == digit_run_end(s, j as nat),
                    m == digits_val(s, start as int, j as int),
                decreases n - j,
            {
                let d = (input[j] - 48) as u64;
                if m > 1844674407370955161 || (m == 1844674407370955161 && d > 5) {
                    proof {
                        assert(digit_val(s[j as int]) == d);
                        assert(digits_val(s, start as int, j + 1) == m * 10 + d);
                        assert(digits_val(s, start as int, j + 1) > u64::MAX);
                        lemma_digit_run_bounds(s, (j + 1) as nat);
                        assert(digit_run_end(s, start as nat) == digit_run_end(
                            s,
                            (j + 1) as nat,
                        ));
                        lemma_digits_val_mono(
                            s,
                            start as int,
                            j + 1,
                            digit_run_end(s, start as nat) as int,
                        );
                        lemma_mantissa_ge_int(s, start as nat);
                        assert(num_mantissa(s, start as nat) > u64::MAX);
                        assert(spec_lex_from(s, start as nat) == Err::<Seq<Token>, LexError>(
                            LexError::NumberTooLarge { pos: start },
                        ));
                    }
                    return Err(LexError::NumberTooLarge { pos: start });
                }
                m = m * 10 + d;
                j = j + 1;
            }
            // j is the end of the integer digit run; m its value
            assert(digit_run_end(s, start as nat) == j);
            let mut scale: u64 = 0;
            let mut end = j;
            let has_f = j < n - 1 && input[j] == 46 && input[j + 1] >= 48 && input[j + 1]
                <= 57;
            assert(has_f == has_frac(s, start as nat));
            if has_f {
                let ghost a = digits_val(s, start as int, j as int);
                proof {
                    assert(digits_val(s, (j + 1) as int, (j + 1) as int) == 0);
                    assert(pow10(0) == 1);
                    assert(frac_partial(s, start as int, j as int, (j + 1) as int) == a * 1);
                }
                let mut k = j + 1;
                while k < n && input[k] >= 48 && input[k] <= 57
                    invariant
                        j + 1 <= k <= n,
                        j < n,
                        start <= j,
                        start < n,
                        i == start,
                        n == s.len(),
                        s == input@,
                        is_digit(s[start as int]),
                        has_frac(s, start as nat),
                        lex_inv(s, start as nat, toks@),
                        digit_run_end(s, start as nat) == j,
                        digit_run_end(s, (j + 1) as nat) == digit_run_end(s, k as nat),
                        a == digits_val(s, start as int, j as int),
                        m == frac_partial(s, start as int, j as int, k as int),
                    decreases n - k,
                {
                    let d = (input[k] - 48) as u64;
                    proof {
                        lemma_frac_partial_step(s, start as int, j as int, k as int);
                        assert(digit_val(s[k as int]) == d);
                    }
                    if m > 1844674407370955161 || (m == 1844674407370955161 && d > 5) {
                        proof {
                            assert(frac_partial(s, start as int, j as int, k + 1) == m * 10
                                + d);
                            assert(frac_partial(s, start as int, j as int, k + 1)
                                > u64::MAX);
                            lemma_digit_run_bounds(s, (k + 1) as nat);
                            assert(digit_run_end(s, (j + 1) as nat) == digit_run_end(
                                s,
                                (k + 1) as nat,
                            ));
                            lemma_frac_partial_mono(
                                s,
                                start as int,
                                j as int,
                                k + 1,
                                digit_run_end(s, (j + 1) as nat) as int,
                            );
                            assert(num_mantissa(s, start as nat) == frac_partial(
                                s,
                                start as int,
                                j as int,
                                digit_run_end(s, (j + 1) as nat) as int,
                            ));
                            assert(num_mantissa(s, start as nat) > u64::MAX);
                            assert(spec_lex_from(s, start as nat) == Err::<
                                Seq<Token>,
                                LexError,
                            >(LexError::NumberTooLarge { pos: start }));
                        }
                        return Err(LexError::NumberTooLarge { pos: start });
                    }
                    m = m * 10 + d;
                    k = k + 1;
                }
                // k is the end of the fractional digit run
                assert(digit_run_end(s, (j + 1) as nat) == k);
                scale = (k - (j + 1)) as u64;
                end = k;
                proof {
                    assert(num_mantissa(s, start as nat) == m);
                    assert(num_scale(s, start as nat) == scale);
                    assert(num_end(s, start as nat) == end);
                }
            }
            proof {
                assert(num_mantissa(s, start as nat) == m);
                assert(num_scale(s, start as nat) == scale);
                assert(num_end(s, start as nat) == end);
                let tok = Token::Number(Number { mantissa: m, scale });
                assert(spec_lex_from(s, start as nat) == cons_token(
                    tok,
                    spec_lex_from(s, end as nat),
                ));
                match spec_lex_from(s, end as nat) {
                    Ok(rest2) => {
                        assert(toks@ + (seq![tok] + rest2) =~= toks@.push(tok) + rest2);
                    },
                    Err(e) => {},
                }
            }
            toks.push(Token::Number(Number { mantissa: m, scale }));
            i = end;
        } else {
            proof {
                assert(spec_lex_from(s, i as nat) == Err::<Seq<Token>, LexError>(
                    LexError::BadChar { pos: i, byte: c },
                ));
            }
            return Err(LexError::BadChar { pos: i, byte: c });
        }
    }
    proof {
        assert(toks@ + Seq::<Token>::empty() =~= toks@);
    }
    Ok(toks)
}

} // verus!
