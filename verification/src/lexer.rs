//! The grammar layer: lexical analysis of a dice-roll expression.
//!
//! The recognized tokens are unsigned decimal integers, dice literals
//! `NdM` (two numerals joined by `d` with no intervening space), the five
//! binary operator symbols, `-` (which the parser also reads as unary minus),
//! and grouping parentheses.  Whitespace between tokens is insignificant.
//! The token list always ends with an explicit end-of-input marker, so the
//! parser can report a position for errors at the end of the input.

use vstd::prelude::*;

use crate::errors::RollError;

verus! {

/// What one token is.
#[derive(Debug, Clone, Copy, PartialEq, Eq, Structural)]
pub enum TokenKind {
    /// An unsigned decimal integer.
    Integer(u32),
    /// A dice literal `NdM`: count, then faces.
    Dice(u32, u32),
    Add,
    Subtract,
    Multiply,
    Divide,
    Modulo,
    OpenParen,
    CloseParen,
    /// The end of the input.
    End,
}

/// One token, together with the character position where it starts (for the
/// `End` token: the input length).
#[derive(Debug, Clone, Copy, PartialEq, Eq, Structural)]
pub struct Token {
    pub kind: TokenKind,
    pub at: usize,
}

/// The whitespace characters that may separate tokens.
pub open spec fn is_space(c: char) -> bool {
    c == ' ' || c == '\t' || c == '\r' || c == '\n'
}

/// The decimal digit characters.
pub open spec fn is_digit(c: char) -> bool {
    ('0' as u32) <= (c as u32) && (c as u32) <= ('9' as u32)
}

/// The numeric value of one decimal digit character.
pub open spec fn digit_val(c: char) -> int
    recommends
        is_digit(c),
{
    (c as u32) - ('0' as u32)
}

/// The token kind of a single-character punctuation token, if `c` is one.
pub open spec fn punct_kind(c: char) -> Option<TokenKind> {
    if c == '+' {
        Some(TokenKind::Add)
    } else if c == '-' {
        Some(TokenKind::Subtract)
    } else if c == '*' {
        Some(TokenKind::Multiply)
    } else if c == '/' {
        Some(TokenKind::Divide)
    } else if c == '%' {
        Some(TokenKind::Modulo)
    } else if c == '(' {
        Some(TokenKind::OpenParen)
    } else if c == ')' {
        Some(TokenKind::CloseParen)
    } else {
        None
    }
}

/// The length of the maximal digit prefix of `s`.
pub open spec fn digits_len(s: Seq<char>) -> nat
    decreases s.len(),
{
    if s.len() > 0 && is_digit(s[0]) {
        (1 + digits_len(s.skip(1))) as nat
    } else {
        0
    }
}

/// The value of a sequence of digit characters, most significant first.
pub open spec fn digits_val(s: Seq<char>) -> int
    decreases s.len(),
{
    if s.len() == 0 {
        0
    } else {
        digits_val(s.drop_last()) * 10 + digit_val(s.last())
    }
}

/// The maximal digit prefix never extends past the end of the sequence.
proof fn lemma_digits_len_le(s: Seq<char>)
    ensures
        digits_len(s) <= s.len(),
    decreases s.len(),
{
    if s.len() > 0 && is_digit(s[0]) {
        lemma_digits_len_le(s.skip(1));
    }
}

/// `digits_len` is exactly the position of the first non-digit (or the
/// length, if every character is a digit).
proof fn lemma_digits_len_charac(s: Seq<char>, k: int)
    requires
        0 <= k <= s.len(),
        forall|i: int| 0 <= i < k ==> is_digit(#[trigger] s[i]),
        k == s.len() || !is_digit(s[k]),
    ensures
        digits_len(s) == k,
    decreases k,
{
    if k > 0 {
        lemma_digits_len_charac(s.skip(1), k - 1);
    }
}

/// The value of a digit sequence is non-negative.
proof fn lemma_digits_val_nonneg(s: Seq<char>)
    requires
        forall|i: int| 0 <= i < s.len() ==> is_digit(#[trigger] s[i]),
    ensures
        digits_val(s) >= 0,
    decreases s.len(),
{
    if s.len() > 0 {
        lemma_digits_val_nonneg(s.drop_last());
    }
}

/// The lexical model: the token list of the input suffix `s`, whose first
/// character sits at position `at` of the full input, or the first lexical
/// failure.  A numeral too large for `u32` is a `ParseError`; an unexpected
/// character, including a `d` not followed by a digit, is a `GrammarError`.
pub open spec fn spec_tokens(s: Seq<char>, at: int) -> Result<Seq<Token>, RollError>
    decreases s.len(),
    via spec_tokens_decreases
{
    if s.len() == 0 {
        Ok(seq![Token { kind: TokenKind::End, at: at as usize }])
    } else if is_space(s[0]) {
        spec_tokens(s.skip(1), at + 1)
    } else if punct_kind(s[0]) is Some {
        match spec_tokens(s.skip(1), at + 1) {
            Ok(rest) => Ok(
                seq![Token { kind: punct_kind(s[0])->Some_0, at: at as usize }] + rest,
            ),
            Err(e) => Err(e),
        }
    } else if is_digit(s[0]) {
        let n = digits_len(s) as int;
        if digits_val(s.take(n)) > u32::MAX {
            Err(RollError::ParseError { at: at as usize })
        } else {
            let count = digits_val(s.take(n)) as u32;
            if n < s.len() && s[n] == 'd' {
                let tail = s.skip(n + 1);
                let m = digits_len(tail) as int;
                if m == 0 {
                    Err(RollError::GrammarError { at: (at + n + 1) as usize })
                } else if digits_val(tail.take(m)) > u32::MAX {
                    Err(RollError::ParseError { at: (at + n + 1) as usize })
                } else {
                    let faces = digits_val(tail.take(m)) as u32;
                    match spec_tokens(s.skip(n + 1 + m), at + n + 1 + m) {
                        Ok(rest) => Ok(
                            seq![Token { kind: TokenKind::Dice(count, faces), at: at as usize }]
                                + rest,
                        ),
                        Err(e) => Err(e),
                    }
                }
            } else {
                match spec_tokens(s.skip(n), at + n) {
                    Ok(rest) => Ok(
                        seq![Token { kind: TokenKind::Integer(count), at: at as usize }] + rest,
                    ),
                    Err(e) => Err(e),
                }
            }
        }
    } else {
        Err(RollError::GrammarError { at: at as usize })
    }
}

#[via_fn]
proof fn spec_tokens_decreases(s: Seq<char>, at: int) {
    lemma_digits_len_le(s);
    if s.len() > 0 && is_digit(s[0]) {
        let n = digits_len(s) as int;
        if n < s.len() && s[n] == 'd' {
            lemma_digits_len_le(s.skip(n + 1));
        }
    }
}

/// The characters of `input`, as a vector.
fn to_char_vec(input: &str) -> (chars: Vec<char>)
    ensures
        chars@ == input@,
{
    let n = input.unicode_len();
    let mut chars: Vec<char> = Vec::new();
    let mut i: usize = 0;
    while i < n
        invariant
            i <= n,
            n == input@.len(),
            chars@ == input@.take(i as int),
        decreases n - i,
    {
        let c = input.get_char(i);
        chars.push(c);
        proof {
            assert(input@.take(i + 1) =~= input@.take(i as int).push(input@[i as int]));
        }
        i = i + 1;
    }
    proof {
        assert(input@.take(n as int) =~= input@);
    }
    chars
}

fn ch_is_space(c: char) -> (b: bool)
    ensures
        b == is_space(c),
{
    c == ' ' || c == '\t' || c == '\r' || c == '\n'
}

fn ch_is_digit(c: char) -> (b: bool)
    ensures
        b == is_digit(c),
{
    let u = c as u32;
    ('0' as u32) <= u && u <= ('9' as u32)
}

fn punct_token(c: char) -> (r: Option<TokenKind>)
    ensures
        r == punct_kind(c),
{
    if c == '+' {
        Some(TokenKind::Add)
    } else if c == '-' {
        Some(TokenKind::Subtract)
    } else if c == '*' {
        Some(TokenKind::Multiply)
    } else if c == '/' {
        Some(TokenKind::Divide)
    } else if c == '%' {
        Some(TokenKind::Modulo)
    } else if c == '(' {
        Some(TokenKind::OpenParen)
    } else if c == ')' {
        Some(TokenKind::CloseParen)
    } else {
        None
    }
}

/// Scan the maximal run of digits starting at `start`; report its end and
/// its value, or `None` for the value if it does not fit in a `u32`.
fn scan_number(chars: &Vec<char>, start: usize) -> (r: (Option<u32>, usize))
    requires
        start < chars@.len(),
        is_digit(chars@[start as int]),
    ensures
        ({
            let seg = chars@.skip(start as int);
            let n = digits_len(seg) as int;
            &&& start < r.1 <= chars@.len()
            &&& r.1 - start == n
            &&& (match r.0 {
                Some(v) => digits_val(seg.take(n)) == v,
                None => digits_val(seg.take(n)) > u32::MAX,
            })
        }),
{
    let ghost seg = chars@.skip(start as int);
    let mut j: usize = start;
    let mut acc: u64 = 0;
    let mut over: bool = false;
    while j < chars.len() && ch_is_digit(chars[j])
        invariant
            start <= j <= chars@.len(),
            seg == chars@.skip(start as int),
            forall|t: int| start <= t < j ==> is_digit(#[trigger] chars@[t]),
            !over ==> acc == digits_val(seg.take(j - start)) && acc <= u32::MAX as u64,
            over ==> digits_val(seg.take(j - start)) > u32::MAX,
        decreases chars@.len() - j,
    {
        let c = chars[j];
        let d: u32 = (c as u32) - ('0' as u32);
        proof {
            seq_take_one_more(seg, j - start);
            assert(digits_val(seg.take(j + 1 - start)) == digits_val(seg.take(j - start)) * 10
                + d);
            if over {
                lemma_digits_val_nonneg_prefix(seg, j - start);
            }
        }
        if !over {
            let next: u64 = acc * 10 + d as u64;
            if next > u32::MAX as u64 {
                over = true;
            } else {
                acc = next;
            }
        }
        j = j + 1;
    }
    proof {
        lemma_digits_len_charac(seg, j - start);
    }
    if over {
        (None, j)
    } else {
        (Some(acc as u32), j)
    }
}

/// One step of `take`: the prefix one longer drops to the shorter prefix.
proof fn seq_take_one_more(s: Seq<char>, k: int) -> (t: Seq<char>)
    requires
        0 <= k < s.len(),
    ensures
        t == s.take(k + 1),
        t.drop_last() == s.take(k),
        t.last() == s[k],
{
    let t = s.take(k + 1);
    assert(t.drop_last() =~= s.take(k));
    t
}

/// A digit prefix has a non-negative value.
proof fn lemma_digits_val_nonneg_prefix(s: Seq<char>, k: int)
    requires
        0 <= k <= s.len(),
        forall|i: int| 0 <= i < k ==> is_digit(#[trigger] s[i]),
    ensures
        digits_val(s.take(k)) >= 0,
{
    lemma_digits_val_nonneg(s.take(k));
}

/// The grammar front end: the tokenizer.
pub struct Calculator;

impl Calculator {
    /// Tokenize a raw dice-roll expression.  On success the returned list is
    /// the full token run of the input, ended by the end-of-input marker; on
    /// failure the error carries the offending character position.
    pub fn parse(input: &str) -> (r: Result<Vec<Token>, RollError>)
        ensures
            match r {
                Ok(ts) => spec_tokens(input@, 0) == Ok::<Seq<Token>, RollError>(ts@),
                Err(e) => spec_tokens(input@, 0) == Err::<Seq<Token>, RollError>(e),
            },
    {
        let chars = to_char_vec(input);
        let n = chars.len();
        let mut out: Vec<Token> = Vec::new();
        let mut i: usize = 0;
        proof {
            assert(input@.skip(0) =~= input@);
            if spec_tokens(input@, 0) is Ok {
                assert(out@ + spec_tokens(input@, 0)->Ok_0 =~= spec_tokens(input@, 0)->Ok_0);
            }
        }
        while i < n
            invariant
                i <= n,
                n == chars@.len(),
                chars@ == input@,
                match spec_tokens(input@.skip(i as int), i as int) {
                    Ok(rest) => spec_tokens(input@, 0) == Ok::<Seq<Token>, RollError>(out@ + rest),
                    Err(e) => spec_tokens(input@, 0) == Err::<Seq<Token>, RollError>(e),
                },
            decreases n - i,
        {
            let c = chars[i];
            let ghost suf = input@.skip(i as int);
            proof {
                assert(suf[0] == input@[i as int]);
            }
            if ch_is_space(c) {
                proof {
                    assert(suf.skip(1) =~= input@.skip(i + 1));
                }
                i = i + 1;
            } else if let Some(kind) = punct_token(c) {
                let tok = Token { kind, at: i };
                proof {
                    assert(suf.skip(1) =~= input@.skip(i + 1));
                    let inner = spec_tokens(input@.skip(i + 1), i + 1);
                    if inner is Ok {
                        assert(out@ + (seq![tok] + inner->Ok_0) =~= out@.push(tok)
                            + inner->Ok_0);
                    }
                }
                out.push(tok);
                i = i + 1;
            } else if ch_is_digit(c) {
                let (vopt, end) = scan_number(&chars, i);
                let ghost nd = digits_len(suf) as int;
                let v = match vopt {
                    Some(v) => v,
                    None => {
                        return Err(RollError::ParseError { at: i });
                    },
                };
                if end < n && chars[end] == 'd' {
                    proof {
                        assert(suf[nd] == input@[i + nd]);
                        assert(suf.skip(nd + 1) =~= input@.skip(end + 1));
                    }
                    if end + 1 < n && ch_is_digit(chars[end + 1]) {
                        let (fopt, end2) = scan_number(&chars, end + 1);
                        proof {
                            let tail = suf.skip(nd + 1);
                            assert(digits_len(tail) == end2 - (end + 1));
                            assert(tail.take(end2 - (end + 1)) =~= input@.skip(end + 1).take(
                                end2 - (end + 1)));
                        }
                        let f = match fopt {
                            Some(f) => f,
                            None => {
                                return Err(RollError::ParseError { at: end + 1 });
                            },
                        };
                        let tok = Token { kind: TokenKind::Dice(v, f), at: i };
                        proof {
                            assert(suf.skip(nd + 1 + (end2 - (end + 1))) =~= input@.skip(
                                end2 as int));
                            let inner = spec_tokens(input@.skip(end2 as int), end2 as int);
                            if inner is Ok {
                                assert(out@ + (seq![tok] + inner->Ok_0) =~= out@.push(tok)
                                    + inner->Ok_0);
                            }
                        }
                        out.push(tok);
                        i = end2;
                    } else {
                        proof {
                            let tail = suf.skip(nd + 1);
                            if end + 1 < n {
                                assert(tail[0] == input@[end + 1]);
                            }
                            assert(digits_len(tail) == 0);
                        }
                        return Err(RollError::GrammarError { at: end + 1 });
                    }
                } else {
                    let tok = Token { kind: TokenKind::Integer(v), at: i };
                    proof {
                        if nd < suf.len() {
                            assert(suf[nd] == input@[i + nd]);
                        }
                        assert(suf.skip(nd) =~= input@.skip(end as int));
                        let inner = spec_tokens(input@.skip(end as int), end as int);
                        if inner is Ok {
                            assert(out@ + (seq![tok] + inner->Ok_0) =~= out@.push(tok)
                                + inner->Ok_0);
                        }
                    }
                    out.push(tok);
                    i = end;
                }
            } else {
                return Err(RollError::GrammarError { at: i });
            }
        }
        let tok = Token { kind: TokenKind::End, at: i };
        proof {
            assert(input@.skip(i as int).len() == 0);
            assert(out@ + seq![tok] =~= out@.push(tok));
        }
        out.push(tok);
        Ok(out)
    }
}

} // verus!
