//! The tokenizer: turns one line of source text into an ordered token run,
//! and the program-extraction scan that finds the algorithm's first and
//! last marker lines.

use crate::num::{Num, NUM_BOUND};
use crate::tokens::{convert_to_keyword, spec_classify, spec_lower_char, spec_token_wf, spec_tokens_wf, Token, TokenS};
use vstd::prelude::*;

verus! {

/// An ASCII decimal digit.
pub open spec fn is_digit_char(c: char) -> bool {
    48 <= c as u32 && c as u32 <= 57
}

/// A character a numeric run is made of: a digit or a decimal point.
pub open spec fn is_num_char(c: char) -> bool {
    is_digit_char(c) || c == '.'
}

/// A character an alphanumeric run is made of: an ASCII letter or digit, or
/// any character beyond ASCII (so accented identifiers hold together).
pub open spec fn is_alnum_char(c: char) -> bool {
    ||| is_digit_char(c)
    ||| 97 <= c as u32 && c as u32 <= 122
    ||| 65 <= c as u32 && c as u32 <= 90
    ||| c as u32 >= 128
}

/// First position at or after `i` that is not part of a numeric run.
pub open spec fn num_run_end(s: Seq<char>, i: int) -> int
    decreases s.len() - i,
{
    if i < 0 || i >= s.len() || !is_num_char(s[i]) {
        i
    } else {
        num_run_end(s, i + 1)
    }
}

/// First position at or after `i` that is not part of an alphanumeric run.
pub open spec fn alnum_run_end(s: Seq<char>, i: int) -> int
    decreases s.len() - i,
{
    if i < 0 || i >= s.len() || !is_alnum_char(s[i]) {
        i
    } else {
        alnum_run_end(s, i + 1)
    }
}

/// First position at or after `i` holding the closing quote `q`, or the end
/// of the text.
pub open spec fn quote_end(s: Seq<char>, i: int, q: char) -> int
    decreases s.len() - i,
{
    if i < 0 || i >= s.len() {
        s.len() as int
    } else if s[i] == q {
        i
    } else {
        quote_end(s, i + 1, q)
    }
}

/// A run's end never lies before its start nor past the end of the text.
proof fn lemma_num_run_end_bounds(s: Seq<char>, i: int)
    requires
        0 <= i <= s.len(),
    ensures
        i <= num_run_end(s, i) <= s.len(),
    decreases s.len() - i,
{
    if i < s.len() && is_num_char(s[i]) {
        lemma_num_run_end_bounds(s, i + 1);
    }
}

/// A run's end never lies before its start nor past the end of the text.
proof fn lemma_alnum_run_end_bounds(s: Seq<char>, i: int)
    requires
        0 <= i <= s.len(),
    ensures
        i <= alnum_run_end(s, i) <= s.len(),
    decreases s.len() - i,
{
    if i < s.len() && is_alnum_char(s[i]) {
        lemma_alnum_run_end_bounds(s, i + 1);
    }
}

/// The closing-quote position never lies before the scan's start nor past
/// the end of the text.
pub(crate) proof fn lemma_quote_end_bounds(s: Seq<char>, i: int, q: char)
    requires
        0 <= i <= s.len(),
    ensures
        i <= quote_end(s, i, q) <= s.len(),
    decreases s.len() - i,
{
    if i < s.len() && s[i] != q {
        lemma_quote_end_bounds(s, i + 1, q);
    }
}

/// Exact value of the digit run `s[i..end]` as a fraction: digits before
/// the first point build the numerator, digits after it scale the
/// denominator by ten each. A numerator about to outgrow the representable
/// bound saturates at it, and fractional digits past the precision bound
/// are dropped.
pub open spec fn spec_num_accum(
    s: Seq<char>,
    i: int,
    end: int,
    n: int,
    d: int,
    seen_dot: bool,
) -> (int, int)
    decreases end - i,
{
    if i < 0 || i >= end || end > s.len() {
        (n, d)
    } else if s[i] == '.' {
        spec_num_accum(s, i + 1, end, n, d, true)
    } else {
        let dig = c_digit(s[i]);
        if dig < 0 || dig > 9 {
            spec_num_accum(s, i + 1, end, n, d, seen_dot)
        } else if !seen_dot {
            if n * 10 + dig <= NUM_BOUND {
                spec_num_accum(s, i + 1, end, n * 10 + dig, d, false)
            } else {
                spec_num_accum(s, i + 1, end, NUM_BOUND as int, d, false)
            }
        } else {
            if d * 10 <= NUM_BOUND && n * 10 + dig <= NUM_BOUND {
                spec_num_accum(s, i + 1, end, n * 10 + dig, d * 10, true)
            } else {
                spec_num_accum(s, i + 1, end, n, d, true)
            }
        }
    }
}

/// Numeric value of a digit character.
pub open spec fn c_digit(c: char) -> int {
    c as u32 - 48
}

/// How many decimal points the run `s[i..end]` holds.
pub open spec fn spec_count_dots(s: Seq<char>, i: int, end: int) -> int
    decreases end - i,
{
    if i < 0 || i >= end || end > s.len() {
        0
    } else {
        (if s[i] == '.' {
            1int
        } else {
            0int
        }) + spec_count_dots(s, i + 1, end)
    }
}

/// The number token a digit run denotes: its exact value, flagged as an
/// integer unless the run holds exactly one decimal point.
pub open spec fn spec_num_token(s: Seq<char>, i: int, end: int) -> TokenS {
    let nd = spec_num_accum(s, i, end, 0, 1, false);
    TokenS::Numero(Num { n: nd.0 as i64, d: nd.1 as i64 }, spec_count_dots(s, i, end) != 1)
}

/// The tokenizer, from position `i` with the tokens lexed so far.
///
/// Two-character operators (`==`, `<-`, `<=`, `>=`) take one character of
/// lookahead; a `-` directly after an assignment token fuses as the sign of
/// the following numeric run; quotes copy raw text to the matching quote
/// (or the end of the line); digit runs become numbers; alphanumeric runs
/// go to the classifier; anything else is silently skipped.
pub open spec fn spec_lex_from(s: Seq<char>, i: int, acc: Seq<TokenS>) -> Seq<TokenS>
    decreases s.len() - i,
    via spec_lex_from_decreases
{
    if i < 0 || i >= s.len() {
        acc
    } else {
        let c = s[i];
        if c == '=' {
            if i + 1 < s.len() && s[i + 1] == '=' {
                spec_lex_from(s, i + 2, acc.push(TokenS::Comparacion))
            } else {
                spec_lex_from(s, i + 1, acc.push(TokenS::Igual))
            }
        } else if c == '+' {
            spec_lex_from(s, i + 1, acc.push(TokenS::Suma))
        } else if c == '-' {
            if acc.len() > 0 && acc.last() == TokenS::Igual && i + 1 < s.len() && is_num_char(
                s[i + 1],
            ) {
                let end = num_run_end(s, i + 1);
                let nd = spec_num_accum(s, i + 1, end, 0, 1, false);
                let tok = TokenS::Numero(
                    Num { n: (-nd.0) as i64, d: nd.1 as i64 },
                    spec_count_dots(s, i + 1, end) != 1,
                );
                spec_lex_from(s, end, acc.push(tok))
            } else {
                spec_lex_from(s, i + 1, acc.push(TokenS::Resta))
            }
        } else if c == '*' {
            spec_lex_from(s, i + 1, acc.push(TokenS::Multiplicacion))
        } else if c == '/' {
            spec_lex_from(s, i + 1, acc.push(TokenS::Division))
        } else if c == '<' {
            if i + 1 < s.len() && s[i + 1] == '-' {
                spec_lex_from(s, i + 2, acc.push(TokenS::Igual))
            } else if i + 1 < s.len() && s[i + 1] == '=' {
                spec_lex_from(s, i + 2, acc.push(TokenS::MenorOIgual))
            } else {
                spec_lex_from(s, i + 1, acc.push(TokenS::MenorA))
            }
        } else if c == '>' {
            if i + 1 < s.len() && s[i + 1] == '=' {
                spec_lex_from(s, i + 2, acc.push(TokenS::MayorOIgual))
            } else {
                spec_lex_from(s, i + 1, acc.push(TokenS::MayorA))
            }
        } else if c == '(' {
            spec_lex_from(s, i + 1, acc.push(TokenS::AbrirParentesis))
        } else if c == ')' {
            spec_lex_from(s, i + 1, acc.push(TokenS::CerrarParentesis))
        } else if c == ',' {
            spec_lex_from(s, i + 1, acc.push(TokenS::SeparadorArgumento))
        } else if c == '"' || c == '\'' {
            let j = quote_end(s, i + 1, c);
            let next = if j + 1 <= s.len() {
                j + 1
            } else {
                s.len() as int
            };
            spec_lex_from(s, next, acc.push(TokenS::Cadena(s.subrange(i + 1, j))))
        } else if is_digit_char(c) {
            let end = num_run_end(s, i);
            spec_lex_from(s, end, acc.push(spec_num_token(s, i, end)))
        } else if is_alnum_char(c) {
            let end = alnum_run_end(s, i);
            spec_lex_from(s, end, acc.push(spec_classify(s.subrange(i, end))))
        } else {
            spec_lex_from(s, i + 1, acc)
        }
    }
}

#[via_fn]
proof fn spec_lex_from_decreases(s: Seq<char>, i: int, acc: Seq<TokenS>) {
    if 0 <= i < s.len() {
        if i + 1 <= s.len() {
            lemma_num_run_end_bounds(s, i + 1);
            lemma_alnum_run_end_bounds(s, i + 1);
            lemma_quote_end_bounds(s, i + 1, '"');
            lemma_quote_end_bounds(s, i + 1, '\'');
            lemma_quote_end_bounds(s, i + 1, s[i]);
        }
    }
}

/// The token run one line of source denotes.
pub open spec fn spec_lex(s: Seq<char>) -> Seq<TokenS> {
    spec_lex_from(s, 0, Seq::empty())
}

/// An ASCII decimal digit.
pub(crate) fn is_digit_exec(c: char) -> (r: bool)
    ensures
        r == is_digit_char(c),
{
    let u = c as u32;
    48 <= u && u <= 57
}

/// A digit or decimal point.
pub(crate) fn is_num_exec(c: char) -> (r: bool)
    ensures
        r == is_num_char(c),
{
    is_digit_exec(c) || c == '.'
}

/// An alphanumeric-run character.
fn is_alnum(c: char) -> (r: bool)
    ensures
        r == is_alnum_char(c),
{
    let u = c as u32;
    is_digit_exec(c) || (97 <= u && u <= 122) || (65 <= u && u <= 90) || u >= 128
}

/// Scans to the end of the numeric run starting at `i`.
fn find_num_run_end(code: &str, i: usize, len: usize) -> (e: usize)
    requires
        len == code@.len(),
        i <= len,
    ensures
        e as int == num_run_end(code@, i as int),
        i <= e <= len,
        i < len && is_num_char(code@[i as int]) ==> i < e,
    decreases len - i,
{
    if i < len && is_num_exec(code.get_char(i)) {
        find_num_run_end(code, i + 1, len)
    } else {
        i
    }
}

/// Scans to the end of the alphanumeric run starting at `i`.
fn find_alnum_run_end(code: &str, i: usize, len: usize) -> (e: usize)
    requires
        len == code@.len(),
        i <= len,
    ensures
        e as int == alnum_run_end(code@, i as int),
        i <= e <= len,
        i < len && is_alnum_char(code@[i as int]) ==> i < e,
    decreases len - i,
{
    if i < len && is_alnum(code.get_char(i)) {
        find_alnum_run_end(code, i + 1, len)
    } else {
        i
    }
}

/// Scans to the closing quote from `i` on, or to the end of the line.
pub(crate) fn find_quote_end(code: &str, i: usize, len: usize, q: char) -> (e: usize)
    requires
        len == code@.len(),
        i <= len,
    ensures
        e as int == quote_end(code@, i as int, q),
        i <= e <= len,
    decreases len - i,
{
    if i >= len {
        len
    } else if code.get_char(i) == q {
        i
    } else {
        find_quote_end(code, i + 1, len, q)
    }
}

/// The exact value of the digit run `code[start..end]` and its decimal
/// point count.
pub(crate) fn accumulate_number(code: &str, start: usize, end: usize) -> (r: (i64, i64, usize))
    requires
        end <= code@.len(),
        start <= end,
    ensures
        (r.0 as int, r.1 as int) == spec_num_accum(code@, start as int, end as int, 0, 1, false),
        r.2 as int == spec_count_dots(code@, start as int, end as int),
        0 <= r.0 <= NUM_BOUND,
        1 <= r.1 <= NUM_BOUND,
{
    let mut n: i64 = 0;
    let mut d: i64 = 1;
    let mut seen_dot = false;
    let mut dots: usize = 0;
    let mut i = start;
    while i < end
        invariant
            start <= i <= end,
            end <= code@.len(),
            0 <= n <= NUM_BOUND,
            1 <= d <= NUM_BOUND,
            dots <= i,
            spec_num_accum(code@, start as int, end as int, 0, 1, false) == spec_num_accum(
                code@,
                i as int,
                end as int,
                n as int,
                d as int,
                seen_dot,
            ),
            spec_count_dots(code@, start as int, end as int) == dots + spec_count_dots(
                code@,
                i as int,
                end as int,
            ),
        decreases end - i,
    {
        let c = code.get_char(i);
        if c == '.' {
            seen_dot = true;
            dots = dots + 1;
        } else {
            let dig = (c as u32) as i64 - 48;
            proof {
                assert(dig == c_digit(code@[i as int]));
            }
            if dig < 0 || dig > 9 {
            } else if !seen_dot {
                let nn: i128 = (n as i128) * 10 + (dig as i128);
                if nn <= NUM_BOUND as i128 {
                    n = nn as i64;
                } else {
                    n = NUM_BOUND;
                }
            } else {
                let nn: i128 = (n as i128) * 10 + (dig as i128);
                let dd: i128 = (d as i128) * 10;
                if dd <= NUM_BOUND as i128 && nn <= NUM_BOUND as i128 {
                    n = nn as i64;
                    d = dd as i64;
                }
            }
        }
        i = i + 1;
    }
    (n, d, dots)
}

/// The tokenizer and its helpers.
pub struct Lexer {}

impl Lexer {
    /// The number token for the digit run `code[start..end]`.
    fn parse_numeric(code: &str, start: usize, end: usize) -> (t: Token)
        requires
            end <= code@.len(),
            start <= end,
        ensures
            t@ == spec_num_token(code@, start as int, end as int),
            spec_token_wf(t@),
    {
        let (n, d, dots) = accumulate_number(code, start, end);
        Token::Numero(Num { n, d }, dots != 1)
    }

    /// The classified token for the alphanumeric run `code[start..end]`.
    fn parse_alphanumeric(code: &str, start: usize, end: usize) -> (t: Token)
        requires
            end <= code@.len(),
            start <= end,
        ensures
            t@ == spec_classify(code@.subrange(start as int, end as int)),
            spec_token_wf(t@),
    {
        let text = code.substring_char(start, end);
        let t = convert_to_keyword(String::from_str(text));
        proof {
            match t@ {
                TokenS::Numero(..) => {
                    assert(false);
                },
                _ => {},
            }
        }
        t
    }

    /// The raw string literal between the quotes, `code[start..end]`.
    fn parse_string(code: &str, start: usize, end: usize) -> (t: Token)
        requires
            end <= code@.len(),
            start <= end,
        ensures
            t@ == TokenS::Cadena(code@.subrange(start as int, end as int)),
    {
        let text = code.substring_char(start, end);
        Token::Cadena(String::from_str(text))
    }

    /// Turns one line of source text into its ordered token run.
    pub fn lex(code: &str) -> (tokens: Vec<Token>)
        ensures
            tokens.deep_view() == spec_lex(code@),
            spec_tokens_wf(tokens.deep_view()),
    {
        let ghost s = code@;
        let len = code.unicode_len();
        let mut tokens: Vec<Token> = Vec::new();
        proof {
            assert(tokens.deep_view() =~= Seq::<TokenS>::empty());
        }
        let mut i: usize = 0;
        while i < len
            invariant
                len == s.len(),
                i <= len,
                s == code@,
                spec_tokens_wf(tokens.deep_view()),
                spec_lex_from(s, 0, Seq::empty()) == spec_lex_from(s, i as int, tokens.deep_view()),
            decreases len - i,
        {
            let ghost acc0 = tokens.deep_view();
            let c = code.get_char(i);
            if c == '=' {
                if i + 1 < len && code.get_char(i + 1) == '=' {
                    tokens.push(Token::Comparacion);
                    proof {
                        assert(tokens.deep_view() =~= acc0.push(TokenS::Comparacion));
                    }
                    i = i + 2;
                } else {
                    tokens.push(Token::Igual);
                    proof {
                        assert(tokens.deep_view() =~= acc0.push(TokenS::Igual));
                    }
                    i = i + 1;
                }
            } else if c == '+' {
                tokens.push(Token::Suma);
                proof {
                    assert(tokens.deep_view() =~= acc0.push(TokenS::Suma));
                }
                i = i + 1;
            } else if c == '-' {
                let fuse = if tokens.len() > 0 {
                    match &tokens[tokens.len() - 1] {
                        Token::Igual => true,
                        _ => false,
                    }
                } else {
                    false
                };
                proof {
                    if tokens.len() > 0 {
                        assert(acc0.last() == tokens@[tokens@.len() - 1]@);
                    }
                }
                if fuse && i + 1 < len && is_num_exec(code.get_char(i + 1)) {
                    let end = find_num_run_end(code, i + 1, len);
                    let (n, d, dots) = accumulate_number(code, i + 1, end);
                    tokens.push(Token::Numero(Num { n: -n, d }, dots != 1));
                    proof {
                        assert(tokens.deep_view() =~= acc0.push(
                            TokenS::Numero(
                                Num {
                                    n: (-spec_num_accum(s, i + 1, end as int, 0, 1, false).0) as i64,
                                    d: spec_num_accum(s, i + 1, end as int, 0, 1, false).1 as i64,
                                },
                                spec_count_dots(s, i + 1, end as int) != 1,
                            ),
                        ));
                    }
                    i = end;
                } else {
                    tokens.push(Token::Resta);
                    proof {
                        assert(tokens.deep_view() =~= acc0.push(TokenS::Resta));
                    }
                    i = i + 1;
                }
            } else if c == '*' {
                tokens.push(Token::Multiplicacion);
                proof {
                    assert(tokens.deep_view() =~= acc0.push(TokenS::Multiplicacion));
                }
                i = i + 1;
            } else if c == '/' {
                tokens.push(Token::Division);
                proof {
                    assert(tokens.deep_view() =~= acc0.push(TokenS::Division));
                }
                i = i + 1;
            } else if c == '<' {
                if i + 1 < len && code.get_char(i + 1) == '-' {
                    tokens.push(Token::Igual);
                    proof {
                        assert(tokens.deep_view() =~= acc0.push(TokenS::Igual));
                    }
                    i = i + 2;
                } else if i + 1 < len && code.get_char(i + 1) == '=' {
                    tokens.push(Token::MenorOIgual);
                    proof {
                        assert(tokens.deep_view() =~= acc0.push(TokenS::MenorOIgual));
                    }
                    i = i + 2;
                } else {
                    tokens.push(Token::MenorA);
                    proof {
                        assert(tokens.deep_view() =~= acc0.push(TokenS::MenorA));
                    }
                    i = i + 1;
                }
            } else if c == '>' {
                if i + 1 < len && code.get_char(i + 1) == '=' {
                    tokens.push(Token::MayorOIgual);
                    proof {
                        assert(tokens.deep_view() =~= acc0.push(TokenS::MayorOIgual));
                    }
                    i = i + 2;
                } else {
                    tokens.push(Token::MayorA);
                    proof {
                        assert(tokens.deep_view() =~= acc0.push(TokenS::MayorA));
                    }
                    i = i + 1;
                }
            } else if c == '(' {
                tokens.push(Token::AbrirParentesis);
                proof {
                    assert(tokens.deep_view() =~= acc0.push(TokenS::AbrirParentesis));
                }
                i = i + 1;
            } else if c == ')' {
                tokens.push(Token::CerrarParentesis);
                proof {
                    assert(tokens.deep_view() =~= acc0.push(TokenS::CerrarParentesis));
                }
                i = i + 1;
            } else if c == ',' {
                tokens.push(Token::SeparadorArgumento);
                proof {
                    assert(tokens.deep_view() =~= acc0.push(TokenS::SeparadorArgumento));
                }
                i = i + 1;
            } else if c == '"' || c == '\'' {
                let j = find_quote_end(code, i + 1, len, c);
                let t = Lexer::parse_string(code, i + 1, j);
                tokens.push(t);
                proof {
                    assert(tokens.deep_view() =~= acc0.push(
                        TokenS::Cadena(s.subrange(i + 1, quote_end(s, i + 1, c))),
                    ));
                }
                if j < len {
                    i = j + 1;
                } else {
                    i = len;
                }
            } else if is_digit_exec(c) {
                let end = find_num_run_end(code, i, len);
                let t = Lexer::parse_numeric(code, i, end);
                tokens.push(t);
                proof {
                    assert(tokens.deep_view() =~= acc0.push(spec_num_token(s, i as int, end as int)));
                }
                i = end;
            } else if is_alnum(c) {
                let end = find_alnum_run_end(code, i, len);
                let t = Lexer::parse_alphanumeric(code, i, end);
                tokens.push(t);
                proof {
                    assert(tokens.deep_view() =~= acc0.push(
                        spec_classify(s.subrange(i as int, end as int)),
                    ));
                }
                i = end;
            } else {
                i = i + 1;
            }
        }
        tokens
    }
}

/// A case-insensitive match of the lowercase pattern `p` at position `j`.
pub open spec fn spec_ci_prefix_at(s: Seq<char>, j: int, p: Seq<char>) -> bool {
    j + p.len() <= s.len() && (forall|k: int|
        0 <= k < p.len() ==> spec_lower_char(s[j + k]) == p[k])
}

/// The position of the newline ending the line that starts at `i`, or the
/// end of the text.
pub open spec fn line_end(s: Seq<char>, i: int) -> int
    decreases s.len() - i,
{
    if i < 0 || i >= s.len() {
        s.len() as int
    } else if s[i] == '\n' {
        i
    } else {
        line_end(s, i + 1)
    }
}

/// The line's end never lies before its start nor past the end of the text.
proof fn lemma_line_end_bounds(s: Seq<char>, i: int)
    requires
        0 <= i <= s.len(),
    ensures
        i <= line_end(s, i) <= s.len(),
    decreases s.len() - i,
{
    if i < s.len() && s[i] != '\n' {
        lemma_line_end_bounds(s, i + 1);
    }
}

/// Scans the lines from position `i` (start of line number `line`) on,
/// remembering the last line starting with "algoritmo" and the last
/// starting with "finalgoritmo", case-insensitively.
pub open spec fn spec_find_algo(s: Seq<char>, i: int, line: int, start: int, end: int) -> (int, int)
    decreases s.len() - i,
    via spec_find_algo_decreases
{
    if i < 0 || i >= s.len() {
        (start, end)
    } else {
        let st = if spec_ci_prefix_at(s, i, "algoritmo"@) {
            line
        } else {
            start
        };
        let en = if !spec_ci_prefix_at(s, i, "algoritmo"@) && spec_ci_prefix_at(
            s,
            i,
            "finalgoritmo"@,
        ) {
            line
        } else {
            end
        };
        let le = line_end(s, i);
        let next = if le + 1 <= s.len() {
            le + 1
        } else {
            s.len() as int
        };
        spec_find_algo(s, next, line + 1, st, en)
    }
}

#[via_fn]
proof fn spec_find_algo_decreases(s: Seq<char>, i: int, line: int, start: int, end: int) {
    if 0 <= i < s.len() {
        lemma_line_end_bounds(s, i);
    }
}

/// The line numbers of the algorithm's start and end marker lines.
pub open spec fn spec_find_algorithm(s: Seq<char>) -> (int, int) {
    spec_find_algo(s, 0, 0, 0, 0)
}

/// A case-insensitive match of the lowercase pattern `p` at position `j`.
pub(crate) fn ci_prefix_at(code: &str, j: usize, len: usize, p: &str) -> (r: bool)
    requires
        len == code@.len(),
        j <= len,
    ensures
        r == spec_ci_prefix_at(code@, j as int, p@),
{
    let plen = p.unicode_len();
    if plen > len - j {
        return false;
    }
    let mut k: usize = 0;
    while k < plen
        invariant
            k <= plen,
            plen == p@.len(),
            len == code@.len(),
            j + plen <= len,
            forall|m: int| 0 <= m < k ==> spec_lower_char(code@[j + m]) == p@[m],
        decreases plen - k,
    {
        let sc = code.get_char(j + k);
        let lc = crate::tokens::lower_char(sc);
        if lc != p.get_char(k) {
            return false;
        }
        k = k + 1;
    }
    true
}

/// Scans to the end of the line starting at `i`.
fn find_line_end(code: &str, i: usize, len: usize) -> (e: usize)
    requires
        len == code@.len(),
        i <= len,
    ensures
        e as int == line_end(code@, i as int),
        i <= e <= len,
    decreases len - i,
{
    if i >= len {
        len
    } else if code.get_char(i) == '\n' {
        i
    } else {
        find_line_end(code, i + 1, len)
    }
}

/// Finds the line numbers of the last line beginning (case-insensitively)
/// with "algoritmo" and the last beginning with "finalgoritmo"; a marker
/// that never occurs reports line zero.
pub fn find_algorithm(code: &str) -> (r: (usize, usize))
    ensures
        (r.0 as int, r.1 as int) == spec_find_algorithm(code@),
{
    let ghost s = code@;
    let len = code.unicode_len();
    let mut i: usize = 0;
    let mut line: usize = 0;
    let mut algo_start: usize = 0;
    let mut algo_end: usize = 0;
    while i < len
        invariant
            len == s.len(),
            s == code@,
            i <= len,
            line <= i,
            spec_find_algo(s, 0, 0, 0, 0) == spec_find_algo(
                s,
                i as int,
                line as int,
                algo_start as int,
                algo_end as int,
            ),
        decreases len - i,
    {
        if ci_prefix_at(code, i, len, "algoritmo") {
            algo_start = line;
        } else if ci_prefix_at(code, i, len, "finalgoritmo") {
            algo_end = line;
        }
        let le = find_line_end(code, i, len);
        if le < len {
            i = le + 1;
        } else {
            i = len;
        }
        line = line + 1;
    }
    (algo_start, algo_end)
}

} // verus!
