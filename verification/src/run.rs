//! Text substitution for write lines in the line-oriented front end: a
//! comma-separated argument list has its quotes stripped and any piece that
//! names a known variable replaced by that variable's value, and a
//! trailing "sin saltar" marker suppresses the final newline.

use crate::lexer::{find_quote_end, lemma_quote_end_bounds, quote_end, spec_ci_prefix_at};
use crate::num::{nat_digits_string, spec_nat_digits};
use vstd::prelude::*;

verus! {

/// A variable's printable content.
#[derive(Debug, Clone, PartialEq)]
pub enum VariableContent {
    Text(String),
    Int(i64),
    Bool(bool),
}

/// Mathematical image of a variable's content.
pub enum VariableContentS {
    Text(Seq<char>),
    Int(i64),
    Bool(bool),
}

impl View for VariableContent {
    type V = VariableContentS;

    open spec fn view(&self) -> VariableContentS {
        match self {
            VariableContent::Text(t) => VariableContentS::Text(t@),
            VariableContent::Int(i) => VariableContentS::Int(*i),
            VariableContent::Bool(b) => VariableContentS::Bool(*b),
        }
    }
}

impl DeepView for VariableContent {
    type V = VariableContentS;

    open spec fn deep_view(&self) -> VariableContentS {
        self@
    }
}

/// A named variable with its optional content.
#[derive(Debug, Clone, PartialEq)]
pub struct Variable {
    pub variable_name: String,
    pub content: Option<VariableContent>,
}

/// Mathematical image of a variable.
pub struct VariableS {
    pub variable_name: Seq<char>,
    pub content: Option<VariableContentS>,
}

impl View for Variable {
    type V = VariableS;

    open spec fn view(&self) -> VariableS {
        VariableS { variable_name: self.variable_name@, content: self.content.deep_view() }
    }
}

impl DeepView for Variable {
    type V = VariableS;

    open spec fn deep_view(&self) -> VariableS {
        self@
    }
}

/// The comma-separated pieces of `s` from position `i` on.
pub open spec fn spec_comma_split_from(s: Seq<char>, i: int) -> Seq<Seq<char>>
    decreases s.len() - i,
    via spec_comma_split_from_decreases
{
    if i < 0 || i > s.len() {
        Seq::empty()
    } else {
        let j = quote_end(s, i, ',');
        if j >= s.len() {
            seq![s.subrange(i, s.len() as int)]
        } else {
            seq![s.subrange(i, j)] + spec_comma_split_from(s, j + 1)
        }
    }
}

#[via_fn]
proof fn spec_comma_split_from_decreases(s: Seq<char>, i: int) {
    if 0 <= i <= s.len() {
        lemma_quote_end_bounds(s, i, ',');
    }
}

/// The comma-separated pieces of `s`.
pub open spec fn spec_comma_split(s: Seq<char>) -> Seq<Seq<char>> {
    spec_comma_split_from(s, 0)
}

/// Leading characters satisfying the predicate stripped: double quotes.
pub open spec fn spec_trim_start_quotes(s: Seq<char>) -> Seq<char>
    decreases s.len(),
{
    if s.len() > 0 && s[0] == '"' {
        spec_trim_start_quotes(s.drop_first())
    } else {
        s
    }
}

/// Trailing double quotes stripped.
pub open spec fn spec_trim_end_quotes(s: Seq<char>) -> Seq<char>
    decreases s.len(),
{
    if s.len() > 0 && s.last() == '"' {
        spec_trim_end_quotes(s.drop_last())
    } else {
        s
    }
}

/// Both ends stripped of double quotes.
pub open spec fn spec_trim_quotes(s: Seq<char>) -> Seq<char> {
    spec_trim_end_quotes(spec_trim_start_quotes(s))
}

/// An ASCII whitespace character.
pub open spec fn is_ws_char(c: char) -> bool {
    c == ' ' || c == '\t' || c == '\r' || c == '\n'
}

/// Leading whitespace stripped.
pub open spec fn spec_trim_start_ws(s: Seq<char>) -> Seq<char>
    decreases s.len(),
{
    if s.len() > 0 && is_ws_char(s[0]) {
        spec_trim_start_ws(s.drop_first())
    } else {
        s
    }
}

/// Trailing whitespace stripped.
pub open spec fn spec_trim_end_ws(s: Seq<char>) -> Seq<char>
    decreases s.len(),
{
    if s.len() > 0 && is_ws_char(s.last()) {
        spec_trim_end_ws(s.drop_last())
    } else {
        s
    }
}

/// Both ends stripped of whitespace.
pub open spec fn spec_trim_ws(s: Seq<char>) -> Seq<char> {
    spec_trim_end_ws(spec_trim_start_ws(s))
}

/// Trailing semicolons stripped.
pub open spec fn spec_trim_end_semis(s: Seq<char>) -> Seq<char>
    decreases s.len(),
{
    if s.len() > 0 && s.last() == ';' {
        spec_trim_end_semis(s.drop_last())
    } else {
        s
    }
}

/// Decimal text of a machine integer.
pub open spec fn spec_int_text(i: int) -> Seq<char> {
    if i == 0 {
        "0"@
    } else if i < 0 {
        "-"@ + spec_nat_digits((-i) as nat)
    } else {
        spec_nat_digits(i as nat)
    }
}

/// The printable text of a variable's content.
pub open spec fn spec_content_text(c: VariableContentS) -> Seq<char> {
    match c {
        VariableContentS::Text(t) => t,
        VariableContentS::Int(i) => spec_int_text(i as int),
        VariableContentS::Bool(b) => if b {
            "true"@
        } else {
            "false"@
        },
    }
}

/// The replacement for one quote-stripped piece: the content of the last
/// variable whose name equals the whitespace-trimmed piece, or the piece
/// itself when none matches (or the matching variable carries no content).
pub open spec fn spec_replace_one(arg: Seq<char>, vars: Seq<VariableS>) -> Seq<char>
    decreases vars.len(),
{
    if vars.len() == 0 {
        arg
    } else {
        let last = vars.last();
        if spec_trim_ws(arg) == last.variable_name {
            match last.content {
                Some(c) => spec_content_text(c),
                None => arg,
            }
        } else {
            spec_replace_one(arg, vars.drop_last())
        }
    }
}

/// All pieces run together.
pub open spec fn spec_join(pieces: Seq<Seq<char>>) -> Seq<char>
    decreases pieces.len(),
{
    if pieces.len() == 0 {
        Seq::empty()
    } else {
        pieces.first() + spec_join(pieces.drop_first())
    }
}

/// The whole substitution: split on commas, strip quotes, substitute
/// variable values, and run the pieces together.
pub open spec fn spec_replace_variables(input: Seq<char>, vars: Seq<VariableS>) -> Seq<char> {
    spec_join(
        spec_comma_split(input).map_values(
            |p: Seq<char>| spec_replace_one(spec_trim_quotes(p), vars),
        ),
    )
}

/// Every variable matched by some piece of the input carries content (the
/// substitution looks matched content up unconditionally).
pub open spec fn spec_vars_resolvable(input: Seq<char>, vars: Seq<VariableS>) -> bool {
    forall|p: int, v: int|
        0 <= p < spec_comma_split(input).len() && 0 <= v < vars.len() && spec_trim_ws(
            spec_trim_quotes(#[trigger] spec_comma_split(input)[p]),
        ) == (#[trigger] vars[v]).variable_name ==> vars[v].content is Some
}

/// Strips leading double quotes.
fn trim_start_quotes(s: &str) -> (r: String)
    ensures
        r@ == spec_trim_start_quotes(s@),
{
    let len = s.unicode_len();
    let mut i: usize = 0;
    proof {
        assert(s@.skip(0) =~= s@);
    }
    while i < len && s.get_char(i) == '"'
        invariant
            i <= len,
            len == s@.len(),
            spec_trim_start_quotes(s@) == spec_trim_start_quotes(s@.skip(i as int)),
        decreases len - i,
    {
        proof {
            assert(s@.skip(i as int)[0] == s@[i as int]);
            assert(s@.skip(i as int).drop_first() =~= s@.skip(i as int + 1));
        }
        i = i + 1;
    }
    proof {
        assert(spec_trim_start_quotes(s@.skip(i as int)) == s@.skip(i as int));
    }
    String::from_str(s.substring_char(i, len))
}

/// Strips trailing double quotes.
fn trim_end_quotes(s: &str) -> (r: String)
    ensures
        r@ == spec_trim_end_quotes(s@),
{
    let len = s.unicode_len();
    let mut e: usize = len;
    proof {
        assert(s@.take(len as int) =~= s@);
    }
    while e > 0 && s.get_char(e - 1) == '"'
        invariant
            e <= len,
            len == s@.len(),
            spec_trim_end_quotes(s@) == spec_trim_end_quotes(s@.take(e as int)),
        decreases e,
    {
        proof {
            assert(s@.take(e as int).last() == s@[e as int - 1]);
            assert(s@.take(e as int).drop_last() =~= s@.take(e as int - 1));
        }
        e = e - 1;
    }
    proof {
        assert(spec_trim_end_quotes(s@.take(e as int)) == s@.take(e as int));
    }
    String::from_str(s.substring_char(0, e))
}

/// An ASCII whitespace character.
fn is_ws(c: char) -> (r: bool)
    ensures
        r == is_ws_char(c),
{
    c == ' ' || c == '\t' || c == '\r' || c == '\n'
}

/// Strips whitespace from both ends.
pub(crate) fn trim_ws(s: &str) -> (r: String)
    ensures
        r@ == spec_trim_ws(s@),
{
    let len = s.unicode_len();
    let mut i: usize = 0;
    proof {
        assert(s@.skip(0) =~= s@);
    }
    while i < len && is_ws(s.get_char(i))
        invariant
            i <= len,
            len == s@.len(),
            spec_trim_start_ws(s@) == spec_trim_start_ws(s@.skip(i as int)),
        decreases len - i,
    {
        proof {
            assert(s@.skip(i as int)[0] == s@[i as int]);
            assert(s@.skip(i as int).drop_first() =~= s@.skip(i as int + 1));
        }
        i = i + 1;
    }
    proof {
        assert(spec_trim_start_ws(s@.skip(i as int)) == s@.skip(i as int));
    }
    let mut e: usize = len;
    proof {
        assert(s@.skip(i as int).take(len - i as int) =~= s@.skip(i as int));
    }
    while e > i && is_ws(s.get_char(e - 1))
        invariant
            i <= e <= len,
            len == s@.len(),
            spec_trim_start_ws(s@) == s@.skip(i as int),
            spec_trim_end_ws(s@.skip(i as int)) == spec_trim_end_ws(
                s@.skip(i as int).take(e - i as int),
            ),
        decreases e,
    {
        proof {
            assert(s@.skip(i as int).take(e - i as int).last() == s@[e as int - 1]);
            assert(s@.skip(i as int).take(e - i as int).drop_last() =~= s@.skip(i as int).take(
                e - 1 - i as int,
            ));
        }
        e = e - 1;
    }
    proof {
        if e > i {
            assert(s@.skip(i as int).take(e - i as int).last() == s@[e as int - 1]);
        }
        assert(spec_trim_end_ws(s@.skip(i as int).take(e - i as int)) == s@.skip(i as int).take(
            e - i as int,
        ));
        assert(s@.skip(i as int).take(e - i as int) =~= s@.subrange(i as int, e as int));
    }
    String::from_str(s.substring_char(i, e))
}

/// Strips trailing semicolons.
fn trim_end_semis(s: &str) -> (r: String)
    ensures
        r@ == spec_trim_end_semis(s@),
{
    let len = s.unicode_len();
    let mut e: usize = len;
    proof {
        assert(s@.take(len as int) =~= s@);
    }
    while e > 0 && s.get_char(e - 1) == ';'
        invariant
            e <= len,
            len == s@.len(),
            spec_trim_end_semis(s@) == spec_trim_end_semis(s@.take(e as int)),
        decreases e,
    {
        proof {
            assert(s@.take(e as int).last() == s@[e as int - 1]);
            assert(s@.take(e as int).drop_last() =~= s@.take(e as int - 1));
        }
        e = e - 1;
    }
    proof {
        assert(spec_trim_end_semis(s@.take(e as int)) == s@.take(e as int));
    }
    String::from_str(s.substring_char(0, e))
}

/// The printable text of a variable's content.
fn content_text(c: &VariableContent) -> (r: String)
    ensures
        r@ == spec_content_text(c@),
{
    match c {
        VariableContent::Text(t) => t.clone(),
        VariableContent::Int(i) => {
            if *i == 0 {
                String::from_str("0")
            } else if *i < 0 {
                let a: u128 = (-(*i as i128)) as u128;
                let ds = nat_digits_string(a);
                let mut r = String::from_str("-");
                r.append(ds.as_str());
                r
            } else {
                nat_digits_string(*i as u128)
            }
        },
        VariableContent::Bool(b) => if *b {
            String::from_str("true")
        } else {
            String::from_str("false")
        },
    }
}

/// Replaces each comma-separated, quote-stripped piece of `input` that
/// names a variable by that variable's printable content, and runs the
/// pieces together.
pub fn replace_variables(input: String, variables: Vec<Variable>) -> (r: String)
    requires
        spec_vars_resolvable(input@, variables.deep_view()),
    ensures
        r@ == spec_replace_variables(input@, variables.deep_view()),
{
    let ghost sv = input@;
    let ghost varsv = variables.deep_view();
    let s = input.as_str();
    let len = s.unicode_len();
    let mut out = String::new();
    let ghost pieces = spec_comma_split(sv);
    let mut start: usize = 0;
    let mut fin: bool = false;
    let ghost mut done: int = 0;
    proof {
        assert(pieces.skip(0) =~= pieces);
        assert(out@ + spec_join(
            pieces.map_values(|p: Seq<char>| spec_replace_one(spec_trim_quotes(p), varsv)),
        ) =~= spec_join(
            pieces.map_values(|p: Seq<char>| spec_replace_one(spec_trim_quotes(p), varsv)),
        ));
    }
    while !fin
        invariant
            len == sv.len(),
            sv == input@,
            s@ == sv,
            varsv == variables.deep_view(),
            start <= len,
            0 <= done,
            spec_vars_resolvable(sv, varsv),
            pieces == spec_comma_split(sv),
            (!fin ==> spec_comma_split_from(sv, start as int) == pieces.skip(done)
                && done < pieces.len()),
            (fin ==> done == pieces.len()),
            out@ + spec_join(
                pieces.skip(done).map_values(
                    |p: Seq<char>| spec_replace_one(spec_trim_quotes(p), varsv),
                ),
            ) == spec_replace_variables(sv, varsv),
        decreases
                len - start,
                (if fin {
                    0int
                } else {
                    1int
                }),
    {
        let j = find_quote_end(s, start, len, ',');
        let piece = s.substring_char(start, j);
        proof {
            assert(piece@ =~= sv.subrange(start as int, j as int));
        }
        let tq_start = trim_start_quotes(piece);
        let tq = trim_end_quotes(tq_start.as_str());
        let key = trim_ws(tq.as_str());
        let ghost piecev = sv.subrange(start as int, j as int);
        proof {
            assert(tq@ == spec_trim_quotes(piecev));
            assert(pieces.skip(done).first() == piecev) by {
                assert(spec_comma_split_from(sv, start as int)[0] == piecev);
            }
        }
        let mut replacement = tq.clone();
        proof {
            assert(varsv.take(0) =~= Seq::<VariableS>::empty());
        }
        let mut v: usize = 0;
        let nv = variables.len();
        while v < nv
            invariant
                nv == variables@.len(),
                v <= nv,
                varsv == variables.deep_view(),
                sv == input@,
                spec_vars_resolvable(sv, varsv),
                pieces == spec_comma_split(sv),
                0 <= done < pieces.len(),
                pieces[done] == piecev,
                tq@ == spec_trim_quotes(piecev),
                key@ == spec_trim_ws(tq@),
                replacement@ == spec_replace_one(tq@, varsv.take(v as int)),
            decreases nv - v,
        {
            proof {
                assert(varsv[v as int] == variables@[v as int]@);
                assert(varsv.take(v as int + 1).last() == varsv[v as int]);
                assert(varsv.take(v as int + 1).drop_last() =~= varsv.take(v as int));
            }
            if key == variables[v].variable_name {
                match &variables[v].content {
                    Some(c) => {
                        replacement = content_text(c);
                    },
                    None => {
                        proof {
                            assert(varsv[v as int].content is Some) by {
                                assert(spec_trim_ws(spec_trim_quotes(pieces[done]))
                                    == varsv[v as int].variable_name);
                            }
                            assert(false);
                        }
                    },
                }
            }
            v = v + 1;
        }
        proof {
            assert(varsv.take(nv as int) =~= varsv);
        }
        let ghost out_old = out@;
        out.append(replacement.as_str());
        let ghost done_old = done;
        proof {
            done = done + 1;
        }
        if j < len {
            start = j + 1;
        } else {
            fin = true;
        }
        proof {
            let mapped = pieces.skip(done_old).map_values(
                |p: Seq<char>| spec_replace_one(spec_trim_quotes(p), varsv),
            );
            assert(mapped.first() == spec_replace_one(spec_trim_quotes(piecev), varsv));
            assert(pieces.skip(done_old).drop_first() =~= pieces.skip(done));
            assert(mapped.drop_first() =~= pieces.skip(done).map_values(
                |p: Seq<char>| spec_replace_one(spec_trim_quotes(p), varsv),
            ));
            assert(out_old + (mapped.first() + spec_join(mapped.drop_first())) =~= out@
                + spec_join(
                pieces.skip(done).map_values(
                    |p: Seq<char>| spec_replace_one(spec_trim_quotes(p), varsv),
                ),
            ));
            if !fin {
                assert(spec_comma_split_from(sv, start as int) =~= pieces.skip(done));
            }
        }
    }
    proof {
        assert(pieces.skip(done) =~= Seq::<Seq<char>>::empty());
        assert(out@ + spec_join(
            pieces.skip(done).map_values(
                |p: Seq<char>| spec_replace_one(spec_trim_quotes(p), varsv),
            ),
        ) =~= out@);
    }
    out
}

/// The line ends, case-insensitively, with the "sin saltar" marker.
pub open spec fn spec_has_sin_saltar(args: Seq<char>) -> bool {
    args.len() >= 10 && spec_ci_prefix_at(args, args.len() - 10, "sin saltar"@)
}

/// The argument text a write line hands to substitution: trailing
/// semicolons stripped, and the trailing "sin saltar" marker (with the
/// separator before it) removed when present.
pub open spec fn spec_escribir_args(line: Seq<char>) -> Seq<char> {
    let args = spec_trim_end_semis(line);
    if spec_has_sin_saltar(args) {
        args.take(args.len() - 11)
    } else {
        args
    }
}

/// The rendered text of a write line: its substituted arguments, with a
/// newline unless the "sin saltar" marker suppressed it.
pub open spec fn spec_escribir_type(lines: Seq<Seq<char>>, vars: Seq<VariableS>) -> Seq<char>
    recommends
        lines.len() > 0,
{
    let args = spec_trim_end_semis(lines[0]);
    if spec_has_sin_saltar(args) {
        spec_replace_variables(args.take(args.len() - 11), vars)
    } else {
        spec_replace_variables(args, vars) + "\n"@
    }
}

/// Renders one write line: strips trailing semicolons, honors a trailing
/// case-insensitive "sin saltar" marker by dropping it together with the
/// separator before it and suppressing the newline, and substitutes
/// variable values into the remaining comma list.
pub fn escribir_type(input: &Vec<String>, variables: Vec<Variable>) -> (r: String)
    requires
        input@.len() > 0,
        spec_has_sin_saltar(spec_trim_end_semis(input.deep_view()[0])) ==> spec_trim_end_semis(
            input.deep_view()[0],
        ).len() >= 11,
        spec_vars_resolvable(spec_escribir_args(input.deep_view()[0]), variables.deep_view()),
    ensures
        r@ == spec_escribir_type(input.deep_view(), variables.deep_view()),
{
    proof {
        assert(input.deep_view()[0] == input@[0]@);
    }
    let first = &input[0];
    let args = trim_end_semis(first.as_str());
    let alen = args.as_str().unicode_len();
    let has_marker = if alen >= 10 {
        crate::lexer::ci_prefix_at(args.as_str(), alen - 10, alen, "sin saltar")
    } else {
        false
    };
    if has_marker {
        let kept = args.as_str().substring_char(0, alen - 11);
        proof {
            assert(kept@ =~= args@.take(args@.len() - 11));
        }
        replace_variables(String::from_str(kept), variables)
    } else {
        let mut out = replace_variables(args, variables);
        out.append("\n");
        out
    }
}

} // verus!
