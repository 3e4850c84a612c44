//! Scanning a source listing for function blocks: each line starting with
//! "Funcion" opens a block that runs to the next line starting with
//! "FinFuncion", and yields the function's name, its parameter list and
//! its body lines.

use crate::lexer::{find_quote_end, quote_end};
use crate::run::{
    is_ws_char, spec_comma_split, spec_comma_split_from, spec_trim_end_ws, spec_trim_ws,
};
use vstd::prelude::*;

verus! {

/// One function block found in a listing.
#[derive(Debug, Clone, PartialEq)]
pub struct Function {
    pub name: String,
    pub parameters: Vec<String>,
    pub body: Vec<String>,
    pub start: usize,
    pub end: usize,
}

/// Mathematical image of a function block.
pub struct FunctionS {
    pub name: Seq<char>,
    pub parameters: Seq<Seq<char>>,
    pub body: Seq<Seq<char>>,
    pub start: int,
    pub end: int,
}

impl View for Function {
    type V = FunctionS;

    open spec fn view(&self) -> FunctionS {
        FunctionS {
            name: self.name@,
            parameters: self.parameters.deep_view(),
            body: self.body.deep_view(),
            start: self.start as int,
            end: self.end as int,
        }
    }
}

impl DeepView for Function {
    type V = FunctionS;

    open spec fn deep_view(&self) -> FunctionS {
        self@
    }
}

/// `p` is an exact (case-sensitive) prefix of `s`.
pub open spec fn spec_starts_with(s: Seq<char>, p: Seq<char>) -> bool {
    p.len() <= s.len() && (forall|k: int| 0 <= k < p.len() ==> s[k] == p[k])
}

/// Trailing close-parentheses stripped.
pub open spec fn spec_trim_end_parens(s: Seq<char>) -> Seq<char>
    decreases s.len(),
{
    if s.len() > 0 && s.last() == ')' {
        spec_trim_end_parens(s.drop_last())
    } else {
        s
    }
}

/// Start of the whitespace-separated word that ends at `k`.
pub open spec fn spec_word_start(t: Seq<char>, k: int) -> int
    decreases k,
{
    if k <= 0 {
        0
    } else if k > t.len() {
        k
    } else if is_ws_char(t[k - 1]) {
        k
    } else {
        spec_word_start(t, k - 1)
    }
}

/// The last whitespace-separated word of `s` (empty when there is none).
pub open spec fn spec_last_word(s: Seq<char>) -> Seq<char> {
    let t = spec_trim_end_ws(s);
    t.subrange(spec_word_start(t, t.len() as int), t.len() as int)
}

/// The declared parameters: the text after the open parenthesis, trailing
/// close-parentheses stripped, split on commas, each piece trimmed.
pub open spec fn spec_function_params(tail: Seq<char>) -> Seq<Seq<char>> {
    spec_comma_split(spec_trim_end_parens(tail)).map_values(|q: Seq<char>| spec_trim_ws(q))
}

/// First line at or after `j` that starts with "FinFuncion", or the end of
/// the listing.
pub open spec fn spec_funcion_end(lines: Seq<Seq<char>>, j: int) -> int
    decreases lines.len() - j,
{
    if j < 0 || j >= lines.len() {
        lines.len() as int
    } else if spec_starts_with(lines[j], "FinFuncion"@) {
        j
    } else {
        spec_funcion_end(lines, j + 1)
    }
}

/// The function block opened by line `i`: named by the last word before
/// the parenthesis, with its parameters, and its body running from the
/// header line through the closing line inclusive.
pub open spec fn spec_function_at(lines: Seq<Seq<char>>, i: int, j: int) -> FunctionS {
    let line = lines[i];
    let p = quote_end(line, 0, '(');
    FunctionS {
        name: spec_last_word(line.take(p)),
        parameters: spec_function_params(line.skip(p + 1)),
        body: lines.subrange(i, j + 1),
        start: i,
        end: j,
    }
}

/// Every function block of the listing from line `i` on: each line
/// starting with "Funcion" and holding an open parenthesis yields one
/// block, provided a "FinFuncion" line follows it.
pub open spec fn spec_handle_functions(lines: Seq<Seq<char>>, i: int) -> Seq<FunctionS>
    decreases lines.len() - i,
{
    if i < 0 || i >= lines.len() {
        Seq::empty()
    } else {
        let rest = spec_handle_functions(lines, i + 1);
        let line = lines[i];
        if spec_starts_with(line, "Funcion"@) && quote_end(line, 0, '(') < line.len() {
            let j = spec_funcion_end(lines, i);
            if j < lines.len() {
                seq![spec_function_at(lines, i, j)] + rest
            } else {
                rest
            }
        } else {
            rest
        }
    }
}

/// `p` is an exact prefix of `s`.
fn starts_with_str(s: &str, p: &str) -> (r: bool)
    ensures
        r == spec_starts_with(s@, p@),
{
    let slen = s.unicode_len();
    let plen = p.unicode_len();
    if plen > slen {
        return false;
    }
    let mut k: usize = 0;
    while k < plen
        invariant
            k <= plen,
            plen == p@.len(),
            plen <= s@.len(),
            slen == s@.len(),
            forall|m: int| 0 <= m < k ==> s@[m] == p@[m],
        decreases plen - k,
    {
        if s.get_char(k) != p.get_char(k) {
            return false;
        }
        k = k + 1;
    }
    true
}

/// Trailing close-parentheses stripped.
fn trim_end_parens(s: &str) -> (r: String)
    ensures
        r@ == spec_trim_end_parens(s@),
{
    let len = s.unicode_len();
    let mut e: usize = len;
    proof {
        assert(s@.take(len as int) =~= s@);
    }
    while e > 0 && s.get_char(e - 1) == ')'
        invariant
            e <= len,
            len == s@.len(),
            spec_trim_end_parens(s@) == spec_trim_end_parens(s@.take(e as int)),
        decreases e,
    {
        proof {
            assert(s@.take(e as int).last() == s@[e as int - 1]);
            assert(s@.take(e as int).drop_last() =~= s@.take(e as int - 1));
        }
        e = e - 1;
    }
    proof {
        assert(spec_trim_end_parens(s@.take(e as int)) == s@.take(e as int));
    }
    String::from_str(s.substring_char(0, e))
}

/// An ASCII whitespace character.
fn is_ws_exec(c: char) -> (r: bool)
    ensures
        r == is_ws_char(c),
{
    c == ' ' || c == '\t' || c == '\r' || c == '\n'
}

/// The last whitespace-separated word of `s`.
fn last_word(s: &str) -> (r: String)
    ensures
        r@ == spec_last_word(s@),
{
    let len = s.unicode_len();
    let mut e: usize = len;
    proof {
        assert(s@.take(len as int) =~= s@);
    }
    while e > 0 && is_ws_exec(s.get_char(e - 1))
        invariant
            e <= len,
            len == s@.len(),
            spec_trim_end_ws(s@) == spec_trim_end_ws(s@.take(e as int)),
        decreases e,
    {
        proof {
            assert(s@.take(e as int).last() == s@[e as int - 1]);
            assert(s@.take(e as int).drop_last() =~= s@.take(e as int - 1));
        }
        e = e - 1;
    }
    proof {
        assert(spec_trim_end_ws(s@.take(e as int)) == s@.take(e as int));
    }
    let ghost t = s@.take(e as int);
    let mut k: usize = e;
    while k > 0 && !is_ws_exec(s.get_char(k - 1))
        invariant
            k <= e,
            e <= len,
            len == s@.len(),
            t == s@.take(e as int),
            spec_word_start(t, e as int) == spec_word_start(t, k as int),
        decreases k,
    {
        proof {
            assert(t[k as int - 1] == s@[k as int - 1]);
        }
        k = k - 1;
    }
    proof {
        if k > 0 {
            assert(t[k as int - 1] == s@[k as int - 1]);
        }
        assert(spec_word_start(t, k as int) == k as int);
        assert(s@.take(e as int).subrange(k as int, e as int) =~= s@.subrange(k as int, e as int));
    }
    String::from_str(s.substring_char(k, e))
}

/// Splits a parameter tail on commas and trims each piece.
fn function_params(tail: &str) -> (r: Vec<String>)
    ensures
        r.deep_view() == spec_function_params(tail@),
{
    let trimmed = trim_end_parens(tail);
    let s = trimmed.as_str();
    let ghost sv = s@;
    let len = s.unicode_len();
    let ghost pieces = spec_comma_split(sv);
    let mut out: Vec<String> = Vec::new();
    let mut start: usize = 0;
    let mut fin: bool = false;
    let ghost mut done: int = 0;
    proof {
        assert(pieces.skip(0) =~= pieces);
        assert(out.deep_view() =~= Seq::<Seq<char>>::empty());
    }
    while !fin
        invariant
            len == sv.len(),
            s@ == sv,
            sv == trimmed@,
            start <= len,
            0 <= done,
            pieces == spec_comma_split(sv),
            (!fin ==> spec_comma_split_from(sv, start as int) == pieces.skip(done) && done
                < pieces.len()),
            (fin ==> done == pieces.len()),
            out.deep_view() == pieces.take(done).map_values(|q: Seq<char>| spec_trim_ws(q)),
        decreases
                len - start,
                (if fin {
                    0int
                } else {
                    1int
                }),
    {
        let j = find_quote_end(s, start, len, ',');
        let piece = s.substring_char(start, j);
        proof {
            assert(piece@ =~= sv.subrange(start as int, j as int));
        }
        let trimmed_piece = crate::run::trim_ws(piece);
        let ghost piecev = sv.subrange(start as int, j as int);
        proof {
            assert(pieces.skip(done).first() == piecev) by {
                assert(spec_comma_split_from(sv, start as int)[0] == piecev);
            }
        }
        let ghost out0 = out.deep_view();
        out.push(trimmed_piece);
        let ghost done_old = done;
        proof {
            done = done + 1;
        }
        if j < len {
            start = j + 1;
        } else {
            fin = true;
        }
        proof {
            assert(out.deep_view() =~= out0.push(spec_trim_ws(piecev)));
            assert(pieces.skip(done_old).drop_first() =~= pieces.skip(done));
            assert(out0.push(spec_trim_ws(piecev)) =~= pieces.take(done).map_values(
                |q: Seq<char>| spec_trim_ws(q),
            ));
            if !fin {
                assert(spec_comma_split_from(sv, start as int) =~= pieces.skip(done));
            }
        }
    }
    proof {
        assert(pieces.take(pieces.len() as int) =~= pieces);
    }
    out
}

/// An owned copy of the lines `lines[from..to]`.
fn string_range(lines: &Vec<String>, from: usize, to: usize) -> (r: Vec<String>)
    requires
        from <= to <= lines@.len(),
    ensures
        r.deep_view() == lines.deep_view().subrange(from as int, to as int),
{
    let mut r: Vec<String> = Vec::new();
    proof {
        assert(r.deep_view() =~= lines.deep_view().subrange(from as int, from as int));
    }
    let mut i = from;
    while i < to
        invariant
            from <= i <= to,
            to <= lines@.len(),
            r.deep_view() == lines.deep_view().subrange(from as int, i as int),
        decreases to - i,
    {
        let ghost r0 = r.deep_view();
        r.push(lines[i].clone());
        i = i + 1;
        proof {
            assert(r.deep_view() =~= r0.push(lines.deep_view()[i as int - 1]));
            assert(r0.push(lines.deep_view()[i as int - 1]) =~= lines.deep_view().subrange(
                from as int,
                i as int,
            ));
        }
    }
    r
}

/// Finds every function block of the listing: each line starting with
/// "Funcion" and holding an open parenthesis opens a block that runs to
/// the next line starting with "FinFuncion"; a block with no such closing
/// line yields nothing.
pub fn handle_functions(lines: &Vec<String>) -> (r: Vec<Function>)
    ensures
        r.deep_view() == spec_handle_functions(lines.deep_view(), 0),
{
    let ghost linesv = lines.deep_view();
    let n = lines.len();
    let mut functions: Vec<Function> = Vec::new();
    let mut idx: usize = 0;
    proof {
        assert(functions.deep_view() =~= Seq::<FunctionS>::empty());
    }
    while idx < n
        invariant
            n == lines@.len(),
            idx <= n,
            linesv == lines.deep_view(),
            spec_handle_functions(linesv, 0) == functions.deep_view() + spec_handle_functions(
                linesv,
                idx as int,
            ),
        decreases n - idx,
    {
        let ghost f0 = functions.deep_view();
        proof {
            assert(linesv[idx as int] == lines@[idx as int]@);
        }
        let line = &lines[idx];
        let llen = line.as_str().unicode_len();
        if starts_with_str(line.as_str(), "Funcion") {
            let p = find_quote_end(line.as_str(), 0, llen, '(');
            if p < llen {
                let mut j = idx;
                while j < n && !starts_with_str(lines[j].as_str(), "FinFuncion")
                    invariant
                        idx <= j <= n,
                        n == lines@.len(),
                        linesv == lines.deep_view(),
                        spec_funcion_end(linesv, idx as int) == spec_funcion_end(
                            linesv,
                            j as int,
                        ),
                    decreases n - j,
                {
                    proof {
                        assert(linesv[j as int] == lines@[j as int]@);
                    }
                    j = j + 1;
                }
                proof {
                    if j < n {
                        assert(linesv[j as int] == lines@[j as int]@);
                        assert(spec_funcion_end(linesv, j as int) == j as int);
                    } else {
                        assert(spec_funcion_end(linesv, j as int) == linesv.len() as int);
                    }
                }
                if j < n {
                    let function_name = line.as_str().substring_char(0, p);
                    let tail = line.as_str().substring_char(p + 1, llen);
                    proof {
                        assert(function_name@ =~= linesv[idx as int].take(p as int));
                        assert(tail@ =~= linesv[idx as int].skip(p as int + 1));
                    }
                    let name = last_word(function_name);
                    let parameters = function_params(tail);
                    let body = string_range(lines, idx, j + 1);
                    let record = Function { name, parameters, body, start: idx, end: j };
                    functions.push(record);
                    proof {
                        assert(functions.deep_view() =~= f0.push(
                            spec_function_at(linesv, idx as int, j as int),
                        ));
                        assert(f0 + (seq![spec_function_at(linesv, idx as int, j as int)]
                            + spec_handle_functions(linesv, idx as int + 1))
                            =~= functions.deep_view() + spec_handle_functions(
                            linesv,
                            idx as int + 1,
                        ));
                    }
                }
            }
        }
        idx = idx + 1;
    }
    proof {
        assert(functions.deep_view() + Seq::<FunctionS>::empty() =~= functions.deep_view());
    }
    functions
}

} // verus!
