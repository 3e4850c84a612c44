//! The statement interpreter: a single sequential pass over the statement
//! nodes, evaluating expressions against the variable store, emitting
//! output chunks, consuming input lines for reads, and recursing into
//! conditional bodies (re-built from their captured lines) when their
//! condition holds.

use crate::ast::{
    ast_size, build_ast, clone_tokens, lemma_build_ast_size, spec_ast_wf, spec_build_ast,
    spec_lines_wf, spec_node_wf, ASTNode, AstS,
};
use crate::error::{CodeError, ErrorKind, PossibleErrors};
use crate::lexer::{is_digit_char, is_num_char, spec_lex, Lexer};
use crate::memory::{spec_create, spec_set, spec_type_of_value, Memoria};
use crate::lexer::spec_num_accum;
use crate::num::{spec_num_is_integer, Num};
use crate::parser::{
    clone_token, postfix_stack_evaluator, shunting_yard, spec_postfix_eval, spec_shunting_yard,
};
use crate::tokens::{spec_ci_eq, spec_token_text, Token, TokenS, Type};
use vstd::prelude::*;

verus! {

/// Evaluation of an expression in two phases against a store snapshot.
pub open spec fn spec_eval(toks: Seq<TokenS>, mem: Map<Seq<char>, TokenS>) -> Result<
    Option<TokenS>,
    ErrorKind,
> {
    match spec_shunting_yard(toks, mem) {
        Ok(q) => Ok(spec_postfix_eval(q)),
        Err(e) => Err(e),
    }
}

/// Declares each name in turn, at the type's zero value.
pub open spec fn spec_create_all(
    mem: Map<Seq<char>, TokenS>,
    names: Seq<Seq<char>>,
    t: Type,
) -> Map<Seq<char>, TokenS>
    decreases names.len(),
{
    if names.len() == 0 {
        mem
    } else {
        spec_create_all(spec_create(mem, names.first(), t), names.drop_first(), t)
    }
}

/// A valid decimal body: nonempty, digits and at most one point, with at
/// least one digit.
pub open spec fn spec_valid_number_body(body: Seq<char>) -> bool {
    &&& body.len() > 0
    &&& forall|k: int| 0 <= k < body.len() ==> is_num_char(#[trigger] body[k])
    &&& crate::lexer::spec_count_dots(body, 0, body.len() as int) <= 1
    &&& exists|k: int| 0 <= k < body.len() && is_digit_char(#[trigger] body[k])
}

/// A whole input line read as a decimal number, with an optional leading
/// minus sign.
pub open spec fn spec_parse_number_line(line: Seq<char>) -> Option<Num> {
    let neg = line.len() > 0 && line[0] == '-';
    let body = if neg {
        line.drop_first()
    } else {
        line
    };
    if spec_valid_number_body(body) {
        let nd = spec_num_accum(body, 0, body.len() as int, 0, 1, false);
        Some(
            Num {
                n: if neg {
                    (-nd.0) as i64
                } else {
                    nd.0 as i64
                },
                d: nd.1 as i64,
            },
        )
    } else {
        None
    }
}

/// One input line parsed per the reading cell's declared kind: raw text
/// for characters, a decimal number for reals, a decimal number with zero
/// fractional part for integers, and the case-insensitive boolean literals
/// for logicals. `None` is a wrong-type failure.
pub open spec fn spec_parse_input(line: Seq<char>, t: Type) -> Option<TokenS> {
    match t {
        Type::Caracter => Some(TokenS::Cadena(line)),
        Type::Entero => match spec_parse_number_line(line) {
            Some(v) => if spec_num_is_integer(v) {
                Some(TokenS::Numero(v, true))
            } else {
                None
            },
            None => None,
        },
        Type::Real => match spec_parse_number_line(line) {
            Some(v) => Some(TokenS::Numero(v, false)),
            None => None,
        },
        Type::Logico => if spec_ci_eq(line, "verdadero"@) {
            Some(TokenS::Boolean(true))
        } else if spec_ci_eq(line, "falso"@) {
            Some(TokenS::Boolean(false))
        } else {
            None
        },
        Type::Ninguno => None,
    }
}

/// The value an If condition reduces to: the full two-phase evaluation
/// when it completes, otherwise the bare token of a one-token condition.
pub open spec fn spec_condition_value(cond: Seq<TokenS>, mem: Map<Seq<char>, TokenS>) -> Option<
    TokenS,
> {
    let base = if cond.len() == 1 {
        Some(cond[0])
    } else {
        None::<TokenS>
    };
    match spec_shunting_yard(cond, mem) {
        Ok(q) => match spec_postfix_eval(q) {
            Some(v) => Some(v),
            None => base,
        },
        Err(..) => base,
    }
}

/// Whether an If condition holds: a boolean result decides directly; an
/// unresolved variable result is re-resolved and its textual form compared
/// against "true"; everything else is false.
pub open spec fn spec_condition_truth(cond: Seq<TokenS>, mem: Map<Seq<char>, TokenS>) -> bool {
    match spec_condition_value(cond, mem) {
        Some(TokenS::Variable(name)) => if mem.contains_key(name) {
            spec_token_text(mem[name]) == "true"@
        } else {
            false
        },
        Some(TokenS::Boolean(b)) => b,
        _ => false,
    }
}

/// The whole effect of a (partial) run: the store and input cursor after,
/// the output chunks emitted, and the error that stopped it, if any.
pub struct RunOutcome {
    pub mem: Map<Seq<char>, TokenS>,
    pub pos: int,
    pub out: Seq<Seq<char>>,
    pub err: Option<ErrorKind>,
}

/// Reads one input line into each variable in turn: the cell's kind is
/// looked up, a "> " prompt is emitted, the next input line is parsed per
/// that kind, and the value is written back; an undeclared name, exhausted
/// input, or an unparsable line stops the run.
pub open spec fn spec_read_vars(
    vars: Seq<Seq<char>>,
    mem: Map<Seq<char>, TokenS>,
    inputs: Seq<Seq<char>>,
    pos: int,
) -> RunOutcome
    decreases vars.len(),
{
    if vars.len() == 0 {
        RunOutcome { mem, pos, out: Seq::empty(), err: None }
    } else {
        let name = vars.first();
        if !mem.contains_key(name) {
            RunOutcome { mem, pos, out: Seq::empty(), err: Some(ErrorKind::VariableNotFound(name)) }
        } else {
            match spec_type_of_value(mem[name]) {
                None => RunOutcome { mem, pos, out: Seq::empty(), err: Some(ErrorKind::WrongType) },
                Some(t) => {
                    if pos >= inputs.len() {
                        RunOutcome {
                            mem,
                            pos,
                            out: seq!["> "@],
                            err: Some(ErrorKind::MissingArguments),
                        }
                    } else {
                        match spec_parse_input(inputs[pos], t) {
                            None => RunOutcome {
                                mem,
                                pos: pos + 1,
                                out: seq!["> "@],
                                err: Some(ErrorKind::WrongType),
                            },
                            Some(v) => match spec_set(mem, name, v) {
                                Ok(m2) => {
                                    let rest = spec_read_vars(
                                        vars.drop_first(),
                                        m2,
                                        inputs,
                                        pos + 1,
                                    );
                                    RunOutcome {
                                        mem: rest.mem,
                                        pos: rest.pos,
                                        out: seq!["> "@] + rest.out,
                                        err: rest.err,
                                    }
                                },
                                Err(e) => RunOutcome {
                                    mem,
                                    pos: pos + 1,
                                    out: seq!["> "@],
                                    err: Some(e),
                                },
                            },
                        }
                    }
                },
            }
        }
    }
}

/// Sequential interpretation of a statement list: declarations populate
/// the store; assignments evaluate (falling back to the raw first token on
/// evaluator failure) and write; writes evaluate and emit the value's text
/// with a newline; reads consume input; a conditional whose condition
/// holds re-builds its captured body and runs it against the same store.
/// The first error stops the whole run.
pub open spec fn spec_run(
    nodes: Seq<AstS>,
    mem: Map<Seq<char>, TokenS>,
    inputs: Seq<Seq<char>>,
    pos: int,
) -> RunOutcome
    decreases ast_size(nodes), nodes.len(),
    via spec_run_decreases
{
    if nodes.len() == 0 {
        RunOutcome { mem, pos, out: Seq::empty(), err: None }
    } else {
        match nodes.first() {
            AstS::VariableDeclaration { names, var_type } => spec_run(
                nodes.drop_first(),
                spec_create_all(mem, names, var_type),
                inputs,
                pos,
            ),
            AstS::Assignment { name, expression } => {
                if expression.len() == 0 {
                    RunOutcome {
                        mem,
                        pos,
                        out: Seq::empty(),
                        err: Some(ErrorKind::IncompleteAssignment),
                    }
                } else {
                    let value = match spec_eval(expression, mem) {
                        Ok(Some(v)) => v,
                        _ => expression[0],
                    };
                    match spec_set(mem, name, value) {
                        Ok(m2) => spec_run(nodes.drop_first(), m2, inputs, pos),
                        Err(e) => RunOutcome { mem, pos, out: Seq::empty(), err: Some(e) },
                    }
                }
            },
            AstS::WriteStatement { expressions } => match spec_eval(expressions, mem) {
                Err(e) => RunOutcome { mem, pos, out: Seq::empty(), err: Some(e) },
                Ok(None) => RunOutcome {
                    mem,
                    pos,
                    out: Seq::empty(),
                    err: Some(ErrorKind::MissingArguments),
                },
                Ok(Some(v)) => {
                    let rest = spec_run(nodes.drop_first(), mem, inputs, pos);
                    RunOutcome {
                        mem: rest.mem,
                        pos: rest.pos,
                        out: seq![spec_token_text(v) + "\n"@] + rest.out,
                        err: rest.err,
                    }
                },
            },
            AstS::ReadStatement { variables } => {
                let rd = spec_read_vars(variables, mem, inputs, pos);
                if rd.err is Some {
                    rd
                } else {
                    let rest = spec_run(nodes.drop_first(), rd.mem, inputs, rd.pos);
                    RunOutcome {
                        mem: rest.mem,
                        pos: rest.pos,
                        out: rd.out + rest.out,
                        err: rest.err,
                    }
                }
            },
            AstS::IfStatement { condition, code } => {
                if !spec_condition_truth(condition, mem) {
                    spec_run(nodes.drop_first(), mem, inputs, pos)
                } else {
                    match spec_build_ast(code, 0) {
                        Err(e) => RunOutcome { mem, pos, out: Seq::empty(), err: Some(e) },
                        Ok(sub) => {
                            let inner = spec_run(sub, mem, inputs, pos);
                            if inner.err is Some {
                                inner
                            } else {
                                let rest = spec_run(
                                    nodes.drop_first(),
                                    inner.mem,
                                    inputs,
                                    inner.pos,
                                );
                                RunOutcome {
                                    mem: rest.mem,
                                    pos: rest.pos,
                                    out: inner.out + rest.out,
                                    err: rest.err,
                                }
                            }
                        },
                    }
                }
            },
        }
    }
}

#[via_fn]
proof fn spec_run_decreases(
    nodes: Seq<AstS>,
    mem: Map<Seq<char>, TokenS>,
    inputs: Seq<Seq<char>>,
    pos: int,
) {
    if nodes.len() > 0 {
        match nodes.first() {
            AstS::IfStatement { condition, code } => {
                match spec_build_ast(code, 0) {
                    Ok(sub) => {
                        lemma_build_ast_size(code, 0);
                        assert(code.skip(0) =~= code);
                    },
                    Err(..) => {},
                }
            },
            _ => {},
        }
    }
}

/// A conditional block whose condition evaluates false performs no store
/// mutation, consumes no input and emits no output.
pub proof fn lemma_if_false_no_mutation(
    condition: Seq<TokenS>,
    code: Seq<Seq<TokenS>>,
    mem: Map<Seq<char>, TokenS>,
    inputs: Seq<Seq<char>>,
    pos: int,
)
    requires
        !spec_condition_truth(condition, mem),
    ensures
        ({
            let o = spec_run(seq![AstS::IfStatement { condition, code }], mem, inputs, pos);
            o.mem == mem && o.pos == pos && o.out == Seq::<Seq<char>>::empty() && o.err is None
        }),
{
    let nodes = seq![AstS::IfStatement { condition, code }];
    assert(nodes.first() == AstS::IfStatement { condition, code });
    assert(nodes.drop_first() =~= Seq::<AstS>::empty());
    let o = spec_run(nodes, mem, inputs, pos);
    assert(o == spec_run(nodes.drop_first(), mem, inputs, pos));
    assert(o.mem == mem);
    assert(o.pos == pos);
    assert(o.out == Seq::<Seq<char>>::empty());
    assert(o.err is None);
}

/// A whole input line read as a decimal number, with an optional leading
/// minus sign.
fn parse_number_line(line: &str) -> (r: Option<Num>)
    ensures
        r == spec_parse_number_line(line@),
        r matches Some(v) ==> crate::num::num_wf(v),
{
    let len = line.unicode_len();
    let neg = len > 0 && line.get_char(0) == '-';
    let start: usize = if neg {
        1
    } else {
        0
    };
    let body = line.substring_char(start, len);
    proof {
        if neg {
            assert(body@ =~= line@.drop_first());
        } else {
            assert(body@ =~= line@);
        }
    }
    let blen = body.unicode_len();
    if blen == 0 {
        return None;
    }
    let mut all_num = true;
    let mut found_digit = false;
    let mut k: usize = 0;
    while k < blen
        invariant
            k <= blen,
            blen == body@.len(),
            all_num == (forall|m: int| 0 <= m < k ==> is_num_char(#[trigger] body@[m])),
            found_digit == (exists|m: int| 0 <= m < k && is_digit_char(#[trigger] body@[m])),
        decreases blen - k,
    {
        let c = body.get_char(k);
        let cn = crate::lexer::is_num_exec(c);
        let cd = crate::lexer::is_digit_exec(c);
        proof {
            if all_num && cn {
                assert(forall|m: int| 0 <= m < k + 1 ==> is_num_char(#[trigger] body@[m]));
            }
            if found_digit || cd {
                assert(exists|m: int| 0 <= m < k + 1 && is_digit_char(#[trigger] body@[m]));
            }
        }
        all_num = all_num && cn;
        found_digit = found_digit || cd;
        k = k + 1;
    }
    if !all_num || !found_digit {
        return None;
    }
    let (n, d, dots) = crate::lexer::accumulate_number(body, 0, blen);
    if dots > 1 {
        return None;
    }
    if neg {
        Some(Num { n: -n, d })
    } else {
        Some(Num { n, d })
    }
}

/// One input line parsed per the reading cell's declared kind.
fn parse_input(line: &str, t: Type) -> (r: Option<Token>)
    ensures
        r.deep_view() == spec_parse_input(line@, t),
        r matches Some(v) ==> crate::tokens::spec_token_wf(v@),
{
    match t {
        Type::Caracter => Some(Token::Cadena(String::from_str(line))),
        Type::Entero => match parse_number_line(line) {
            Some(v) => {
                if v.is_integer() {
                    Some(Token::Numero(v, true))
                } else {
                    None
                }
            },
            None => None,
        },
        Type::Real => match parse_number_line(line) {
            Some(v) => Some(Token::Numero(v, false)),
            None => None,
        },
        Type::Logico => {
            if crate::tokens::str_ci_eq(line, "verdadero") {
                Some(Token::Boolean(true))
            } else if crate::tokens::str_ci_eq(line, "falso") {
                Some(Token::Boolean(false))
            } else {
                None
            }
        },
        Type::Ninguno => None,
    }
}

/// The token lines a program's source lines denote, lines that lex to
/// nothing dropped before AST building.
pub open spec fn spec_code_of(lines: Seq<Seq<char>>) -> Seq<Seq<TokenS>>
    decreases lines.len(),
{
    if lines.len() == 0 {
        Seq::empty()
    } else {
        let t = spec_lex(lines.first());
        let rest = spec_code_of(lines.drop_first());
        if t.len() == 0 {
            rest
        } else {
            seq![t] + rest
        }
    }
}

/// The interpreter: the tokenized program and the variable store it owns
/// and mutates.
pub struct Interpreter {
    pub code: Vec<Vec<Token>>,
    pub memory: Memoria,
}

impl Interpreter {
    /// Tokenizes the given source lines, dropping lines that lex to
    /// nothing, and pairs them with an empty store.
    pub fn new(lines_of_code: &Vec<String>) -> (r: Interpreter)
        ensures
            r.code.deep_view() == spec_code_of(lines_of_code.deep_view()),
            spec_lines_wf(r.code.deep_view()),
            r.memory.wf(),
            r.memory@ == Map::<Seq<char>, TokenS>::empty(),
    {
        let ghost linesv = lines_of_code.deep_view();
        let mut code: Vec<Vec<Token>> = Vec::new();
        let mut i: usize = 0;
        proof {
            assert(code.deep_view() =~= Seq::<Seq<TokenS>>::empty());
            assert(linesv.skip(0) =~= linesv);
            assert(code.deep_view() + spec_code_of(linesv) =~= spec_code_of(linesv));
        }
        while i < lines_of_code.len()
            invariant
                i <= lines_of_code@.len(),
                linesv == lines_of_code.deep_view(),
                spec_lines_wf(code.deep_view()),
                spec_code_of(linesv) == code.deep_view() + spec_code_of(linesv.skip(i as int)),
            decreases lines_of_code@.len() - i,
        {
            let ghost code0 = code.deep_view();
            proof {
                assert(linesv.skip(i as int).first() == linesv[i as int]);
                assert(linesv.skip(i as int).drop_first() =~= linesv.skip(i as int + 1));
                assert(linesv[i as int] == lines_of_code@[i as int]@);
            }
            let toks = Lexer::lex(lines_of_code[i].as_str());
            if toks.len() > 0 {
                let ghost tv = toks.deep_view();
                code.push(toks);
                proof {
                    assert(code.deep_view() =~= code0.push(tv));
                    assert(code0 + (seq![tv] + spec_code_of(linesv.skip(i as int + 1)))
                        =~= code.deep_view() + spec_code_of(linesv.skip(i as int + 1)));
                    assert forall|k: int|
                        0 <= k < code.deep_view().len() implies crate::tokens::spec_tokens_wf(
                        #[trigger] code.deep_view()[k],
                    ) by {
                        if k < code0.len() {
                            assert(code.deep_view()[k] == code0[k]);
                        } else {
                            assert(code.deep_view()[k] == tv);
                        }
                    }
                }
            }
            i = i + 1;
        }
        proof {
            assert(spec_code_of(linesv.skip(linesv.len() as int)) =~= Seq::<Seq<TokenS>>::empty());
            assert(code.deep_view() + Seq::<Seq<TokenS>>::empty() =~= code.deep_view());
        }
        let memory = Memoria::new();
        Interpreter { code, memory }
    }
}

impl Interpreter {
    /// Runs a statement list against this interpreter's store, taking
    /// input lines from `inputs` (from position `*pos` on) and appending
    /// every emitted chunk to `output`; the first error stops the whole
    /// run and is returned.
    #[verifier::rlimit(100)]
    pub fn run(
        &mut self,
        ast: Vec<ASTNode>,
        inputs: &Vec<String>,
        pos: &mut usize,
        output: &mut Vec<String>,
    ) -> (r: Result<(), CodeError>)
        requires
            old(self).memory.wf(),
            spec_ast_wf(ast.deep_view()),
            *old(pos) <= inputs@.len(),
        ensures
            final(self).memory.wf(),
            final(self).code@ == old(self).code@,
            *final(pos) <= inputs@.len(),
            ({
                let o = spec_run(
                    ast.deep_view(),
                    old(self).memory@,
                    inputs.deep_view(),
                    *old(pos) as int,
                );
                &&& final(self).memory@ == o.mem
                &&& *final(pos) as int == o.pos
                &&& final(output).deep_view() == old(output).deep_view() + o.out
                &&& (match r {
                    Ok(..) => o.err is None,
                    Err(e) => o.err == Some(e@),
                })
            }),
        decreases ast_size(ast.deep_view()),
    {
        let ghost astv = ast.deep_view();
        let ghost m0 = self.memory@;
        let ghost p0 = *pos as int;
        let ghost out0 = output.deep_view();
        let ghost inputsv = inputs.deep_view();
        let n = ast.len();
        let mut i: usize = 0;
        proof {
            assert(astv.skip(0) =~= astv);
            assert(output.deep_view().skip(out0.len() as int) =~= Seq::<Seq<char>>::empty());
            assert(output.deep_view().take(out0.len() as int) =~= out0);
            assert(Seq::<Seq<char>>::empty() + spec_run(astv, m0, inputsv, p0).out =~= spec_run(
                astv,
                m0,
                inputsv,
                p0,
            ).out);
        }
        while i < n
            invariant
                n == ast@.len(),
                i <= n,
                astv == ast.deep_view(),
                inputsv == inputs.deep_view(),
                spec_ast_wf(astv),
                self.memory.wf(),
                self.code@ == old(self).code@,
                *pos <= inputs@.len(),
                out0.len() <= output.deep_view().len(),
                output.deep_view().take(out0.len() as int) == out0,
                out0 == old(output).deep_view(),
                m0 == old(self).memory@,
                p0 == *old(pos) as int,
                ({
                    let full = spec_run(astv, m0, inputsv, p0);
                    let rem = spec_run(astv.skip(i as int), self.memory@, inputsv, *pos as int);
                    &&& full.mem == rem.mem
                    &&& full.pos == rem.pos
                    &&& full.err == rem.err
                    &&& full.out == output.deep_view().skip(out0.len() as int) + rem.out
                }),
            decreases n - i,
        {
            let ghost iold = i as int;
            let ghost mem_a = self.memory@;
            let ghost pos_a = *pos as int;
            let ghost out_a = output.deep_view();
            proof {
                assert(astv.skip(iold).first() == astv[iold]);
                assert(astv.skip(iold).drop_first() =~= astv.skip(iold + 1));
                assert(astv[iold] == ast@[iold]@);
                assert(spec_node_wf(astv[iold]));
            }
            match &ast[i] {
                ASTNode::VariableDeclaration { names, var_type } => {
                    proof {
                        assert(astv[iold] == AstS::VariableDeclaration {
                            names: names.deep_view(),
                            var_type: *var_type,
                        });
                    }
                    let ghost namesv = names.deep_view();
                    let nn = names.len();
                    let mut jj: usize = 0;
                    proof {
                        assert(namesv.skip(0) =~= namesv);
                    }
                    while jj < nn
                        invariant
                            nn == names@.len(),
                            jj <= nn,
                            namesv == names.deep_view(),
                            self.memory.wf(),
                            self.code@ == old(self).code@,
                            spec_create_all(mem_a, namesv, *var_type) == spec_create_all(
                                self.memory@,
                                namesv.skip(jj as int),
                                *var_type,
                            ),
                        decreases nn - jj,
                    {
                        proof {
                            assert(namesv.skip(jj as int).first() == namesv[jj as int]);
                            assert(namesv.skip(jj as int).drop_first() =~= namesv.skip(
                                jj as int + 1,
                            ));
                            assert(namesv[jj as int] == names@[jj as int]@);
                        }
                        let name = names[jj].clone();
                        self.memory.create(name, *var_type);
                        jj = jj + 1;
                    }
                    proof {
                        assert(namesv.skip(nn as int) =~= Seq::<Seq<char>>::empty());
                        assert(spec_create_all(mem_a, namesv, *var_type) == self.memory@);
                    }
                    i = i + 1;
                },
                ASTNode::Assignment { name, expression } => {
                    proof {
                        assert(astv[iold] == AstS::Assignment {
                            name: name@,
                            expression: expression.deep_view(),
                        });
                    }
                    if expression.len() == 0 {
                        proof {
                            assert(output.deep_view().take(out0.len() as int) + output.deep_view()
                                .skip(out0.len() as int) =~= output.deep_view());
                            assert(output.deep_view().skip(out0.len() as int)
                                + Seq::<Seq<char>>::empty() =~= output.deep_view().skip(
                                out0.len() as int,
                            ));
                        }
                        return Err(CodeError { error: PossibleErrors::IncompleteAssignment });
                    }
                    let cloned = clone_tokens(expression);
                    proof {
                        assert(cloned.deep_view() =~= expression.deep_view());
                    }
                    let evaluated = match shunting_yard(cloned, &self.memory) {
                        Ok(q) => postfix_stack_evaluator(q),
                        Err(..) => None,
                    };
                    let value = match evaluated {
                        Some(v) => v,
                        None => clone_token(&expression[0]),
                    };
                    proof {
                        assert(expression.deep_view()[0] == expression@[0]@);
                    }
                    match self.memory.set(name.clone(), value) {
                        Ok(..) => {},
                        Err(e) => {
                            proof {
                                assert(output.deep_view().take(out0.len() as int)
                                    + output.deep_view().skip(out0.len() as int)
                                    =~= output.deep_view());
                                assert(output.deep_view().skip(out0.len() as int)
                                    + Seq::<Seq<char>>::empty() =~= output.deep_view().skip(
                                    out0.len() as int,
                                ));
                            }
                            return Err(e);
                        },
                    }
                    i = i + 1;
                },
                ASTNode::WriteStatement { expressions } => {
                    proof {
                        assert(astv[iold] == AstS::WriteStatement {
                            expressions: expressions.deep_view(),
                        });
                    }
                    let cloned = clone_tokens(expressions);
                    proof {
                        assert(cloned.deep_view() =~= expressions.deep_view());
                    }
                    let q = match shunting_yard(cloned, &self.memory) {
                        Ok(q) => q,
                        Err(e) => {
                            proof {
                                assert(output.deep_view().take(out0.len() as int)
                                    + output.deep_view().skip(out0.len() as int)
                                    =~= output.deep_view());
                                assert(output.deep_view().skip(out0.len() as int)
                                    + Seq::<Seq<char>>::empty() =~= output.deep_view().skip(
                                    out0.len() as int,
                                ));
                            }
                            return Err(e);
                        },
                    };
                    match postfix_stack_evaluator(q) {
                        None => {
                            proof {
                                assert(output.deep_view().take(out0.len() as int)
                                    + output.deep_view().skip(out0.len() as int)
                                    =~= output.deep_view());
                                assert(output.deep_view().skip(out0.len() as int)
                                    + Seq::<Seq<char>>::empty() =~= output.deep_view().skip(
                                    out0.len() as int,
                                ));
                            }
                            return Err(CodeError { error: PossibleErrors::MissingArguments });
                        },
                        Some(v) => {
                            let ghost vv = v@;
                            let mut text = v.get_as_string();
                            text.append("\n");
                            output.push(text);
                            proof {
                                assert(output.deep_view() =~= out_a.push(
                                    spec_token_text(vv) + "\n"@,
                                ));
                                assert(output.deep_view().take(out0.len() as int) =~= out0);
                                assert(output.deep_view().skip(out0.len() as int) =~= out_a.skip(
                                    out0.len() as int,
                                ).push(spec_token_text(vv) + "\n"@));
                                let rem2 = spec_run(
                                    astv.skip(iold + 1),
                                    self.memory@,
                                    inputsv,
                                    *pos as int,
                                );
                                assert(out_a.skip(out0.len() as int) + (seq![
                                    spec_token_text(vv) + "\n"@,
                                ] + rem2.out) =~= output.deep_view().skip(out0.len() as int)
                                    + rem2.out);
                            }
                            i = i + 1;
                        },
                    }
                },
                ASTNode::ReadStatement { variables } => {
                    proof {
                        assert(astv[iold] == AstS::ReadStatement {
                            variables: variables.deep_view(),
                        });
                    }
                    let ghost varsv = variables.deep_view();
                    let nv = variables.len();
                    let mut j: usize = 0;
                    proof {
                        assert(varsv.skip(0) =~= varsv);
                        assert(output.deep_view().skip(out_a.len() as int)
                            =~= Seq::<Seq<char>>::empty());
                        assert(Seq::<Seq<char>>::empty() + spec_read_vars(
                            varsv,
                            mem_a,
                            inputsv,
                            pos_a,
                        ).out =~= spec_read_vars(varsv, mem_a, inputsv, pos_a).out);
                        assert(output.deep_view().take(out_a.len() as int) =~= out_a);
                    }
                    while j < nv
                        invariant
                            nv == variables@.len(),
                            j <= nv,
                            varsv == variables.deep_view(),
                            inputsv == inputs.deep_view(),
                            self.memory.wf(),
                            self.code@ == old(self).code@,
                            *pos <= inputs@.len(),
                            out0.len() <= out_a.len() <= output.deep_view().len(),
                            output.deep_view().take(out_a.len() as int) == out_a,
                            out_a.take(out0.len() as int) == out0,
                            out0 == old(output).deep_view(),
                            m0 == old(self).memory@,
                            p0 == *old(pos) as int,
                            ({
                                let rdf = spec_read_vars(varsv, mem_a, inputsv, pos_a);
                                let rdr = spec_read_vars(
                                    varsv.skip(j as int),
                                    self.memory@,
                                    inputsv,
                                    *pos as int,
                                );
                                &&& rdf.mem == rdr.mem
                                &&& rdf.pos == rdr.pos
                                &&& rdf.err == rdr.err
                                &&& rdf.out == output.deep_view().skip(out_a.len() as int)
                                    + rdr.out
                            }),
                            ({
                                let full = spec_run(astv, m0, inputsv, p0);
                                let rem = spec_run(astv.skip(iold), mem_a, inputsv, pos_a);
                                &&& full.mem == rem.mem
                                &&& full.pos == rem.pos
                                &&& full.err == rem.err
                                &&& full.out == out_a.skip(out0.len() as int) + rem.out
                            }),
                            0 <= iold < astv.len(),
                            astv[iold] == (AstS::ReadStatement { variables: varsv }),
                            astv.skip(iold).first() == astv[iold],
                            astv.skip(iold).drop_first() == astv.skip(iold + 1),
                            astv == ast.deep_view(),
                            n == ast@.len(),
                            i as int == iold,
                            spec_ast_wf(astv),
                        decreases nv - j,
                    {
                        let ghost mem_b = self.memory@;
                        let ghost pos_b = *pos as int;
                        let ghost out_b = output.deep_view();
                        proof {
                            assert(varsv.skip(j as int).first() == varsv[j as int]);
                            assert(varsv.skip(j as int).drop_first() =~= varsv.skip(j as int + 1));
                            assert(varsv[j as int] == variables@[j as int]@);
                        }
                        let name = variables[j].clone();
                        let kind = match self.memory.get_type(name.clone()) {
                            Some(t) => t,
                            None => {
                                proof {
                                    self.memory.lemma_values_ok();
                                    assert(!self.memory@.contains_key(name@));
                                    assert(output.deep_view().take(out0.len() as int)
                                        =~= out0);
                                    assert(output.deep_view().take(out0.len() as int)
                                        + output.deep_view().skip(out0.len() as int)
                                        =~= output.deep_view());
                                    assert(out_a.skip(out0.len() as int) + (output.deep_view()
                                        .skip(out_a.len() as int) + Seq::<Seq<char>>::empty())
                                        =~= output.deep_view().skip(out0.len() as int));
                                }
                                return Err(
                                    CodeError { error: PossibleErrors::VariableNotFound(name) },
                                );
                            },
                        };
                        output.push(String::from_str("> "));
                        proof {
                            assert(output.deep_view() =~= out_b.push("> "@));
                            assert(output.deep_view().take(out_a.len() as int) =~= out_a);
                            assert(output.deep_view().take(out0.len() as int) =~= out0);
                            assert(output.deep_view().skip(out_a.len() as int) =~= out_b.skip(
                                out_a.len() as int,
                            ).push("> "@));
                        }
                        if *pos >= inputs.len() {
                            proof {
                                assert(output.deep_view().take(out0.len() as int)
                                    + output.deep_view().skip(out0.len() as int)
                                    =~= output.deep_view());
                                assert(out_b.skip(out_a.len() as int) + seq!["> "@]
                                    =~= output.deep_view().skip(out_a.len() as int));
                                assert(out_a.skip(out0.len() as int) + (output.deep_view().skip(
                                    out_a.len() as int,
                                ) + Seq::<Seq<char>>::empty()) =~= output.deep_view().skip(
                                    out0.len() as int,
                                ));
                            }
                            return Err(CodeError { error: PossibleErrors::MissingArguments });
                        }
                        let parsed = parse_input(inputs[*pos].as_str(), kind);
                        proof {
                            assert(inputsv[*pos as int] == inputs@[*pos as int]@);
                        }
                        *pos = *pos + 1;
                        match parsed {
                            None => {
                                proof {
                                    assert(output.deep_view().take(out0.len() as int)
                                        + output.deep_view().skip(out0.len() as int)
                                        =~= output.deep_view());
                                    assert(out_b.skip(out_a.len() as int) + seq!["> "@]
                                        =~= output.deep_view().skip(out_a.len() as int));
                                    assert(out_a.skip(out0.len() as int) + (output.deep_view()
                                        .skip(out_a.len() as int) + Seq::<Seq<char>>::empty())
                                        =~= output.deep_view().skip(out0.len() as int));
                                }
                                return Err(CodeError { error: PossibleErrors::WrongType });
                            },
                            Some(v) => {
                                match self.memory.set(name, v) {
                                    Ok(..) => {},
                                    Err(e) => {
                                        proof {
                                            assert(output.deep_view().take(out0.len() as int)
                                                + output.deep_view().skip(out0.len() as int)
                                                =~= output.deep_view());
                                            assert(out_b.skip(out_a.len() as int) + seq!["> "@]
                                                =~= output.deep_view().skip(out_a.len() as int));
                                            assert(out_a.skip(out0.len() as int) + (
                                            output.deep_view().skip(out_a.len() as int)
                                                + Seq::<Seq<char>>::empty())
                                                =~= output.deep_view().skip(out0.len() as int));
                                        }
                                        return Err(e);
                                    },
                                }
                            },
                        }
                        j = j + 1;
                        proof {
                            let rdr2 = spec_read_vars(
                                varsv.skip(j as int),
                                self.memory@,
                                inputsv,
                                *pos as int,
                            );
                            assert(out_b.skip(out_a.len() as int) + (seq!["> "@] + rdr2.out)
                                =~= output.deep_view().skip(out_a.len() as int) + rdr2.out);
                        }
                    }
                    proof {
                        assert(varsv.skip(nv as int) =~= Seq::<Seq<char>>::empty());
                        let rdf = spec_read_vars(varsv, mem_a, inputsv, pos_a);
                        assert(rdf.out =~= output.deep_view().skip(out_a.len() as int));
                        let rem2 = spec_run(astv.skip(iold + 1), self.memory@, inputsv, *pos as int);
                        assert(out_a.skip(out0.len() as int) + (rdf.out + rem2.out)
                            =~= output.deep_view().skip(out0.len() as int) + rem2.out);
                    }
                    i = i + 1;
                },
                ASTNode::IfStatement { condition, code } => {
                    proof {
                        assert(astv[iold] == AstS::IfStatement {
                            condition: condition.deep_view(),
                            code: code.deep_view(),
                        });
                    }
                    let ghost condv = condition.deep_view();
                    let mut result: Option<Token> = None;
                    if condition.len() == 1 {
                        result = Some(clone_token(&condition[0]));
                        proof {
                            assert(condv[0] == condition@[0]@);
                        }
                    }
                    let cloned = clone_tokens(condition);
                    proof {
                        assert(cloned.deep_view() =~= condv);
                    }
                    match shunting_yard(cloned, &self.memory) {
                        Ok(q) => {
                            match postfix_stack_evaluator(q) {
                                Some(v) => {
                                    result = Some(v);
                                },
                                None => {},
                            }
                        },
                        Err(..) => {},
                    }
                    proof {
                        assert(result.deep_view() == spec_condition_value(condv, self.memory@));
                    }
                    let conditional: bool = match result {
                        Some(Token::Variable(variable)) => {
                            match self.memory.get(variable) {
                                Some(value) => {
                                    proof {
                                        self.memory.lemma_values_ok();
                                    }
                                    let text = clone_token(value).get_as_string();
                                    let verdict = String::from_str("true");
                                    text == verdict
                                },
                                None => false,
                            }
                        },
                        Some(Token::Boolean(b)) => b,
                        _ => false,
                    };
                    proof {
                        assert(conditional == spec_condition_truth(condv, self.memory@));
                    }
                    if conditional {
                        let body = crate::ast::lines_range(code, 0, code.len());
                        proof {
                            assert(body.deep_view() =~= code.deep_view());
                        }
                        let if_ast = match build_ast(body) {
                            Ok(a) => a,
                            Err(e) => {
                                proof {
                                    assert(output.deep_view().take(out0.len() as int)
                                        + output.deep_view().skip(out0.len() as int)
                                        =~= output.deep_view());
                                    assert(output.deep_view().skip(out0.len() as int)
                                        + Seq::<Seq<char>>::empty() =~= output.deep_view().skip(
                                        out0.len() as int,
                                    ));
                                }
                                return Err(e);
                            },
                        };
                        proof {
                            lemma_build_ast_size(code.deep_view(), 0);
                            assert(code.deep_view().skip(0) =~= code.deep_view());
                            crate::ast::lemma_ast_size_bound(astv, iold);
                        }
                        let ghost out_before = output.deep_view();
                        match self.run(if_ast, inputs, pos, output) {
                            Ok(..) => {
                                proof {
                                    let inner = spec_run(if_ast.deep_view(), mem_a, inputsv, pos_a);
                                    assert(output.deep_view() =~= out_before + inner.out);
                                    assert(output.deep_view().take(out0.len() as int) =~= out0);
                                    let rem2 = spec_run(
                                        astv.skip(iold + 1),
                                        self.memory@,
                                        inputsv,
                                        *pos as int,
                                    );
                                    assert(out_a.skip(out0.len() as int) + (inner.out + rem2.out)
                                        =~= output.deep_view().skip(out0.len() as int)
                                        + rem2.out);
                                }
                            },
                            Err(e) => {
                                proof {
                                    let inner = spec_run(if_ast.deep_view(), mem_a, inputsv, pos_a);
                                    assert(output.deep_view() =~= out_before + inner.out);
                                    assert(output.deep_view().take(out0.len() as int) =~= out0);
                                    assert(output.deep_view().take(out0.len() as int)
                                        + output.deep_view().skip(out0.len() as int)
                                        =~= output.deep_view());
                                    assert(out_a.skip(out0.len() as int) + inner.out
                                        =~= output.deep_view().skip(out0.len() as int));
                                }
                                return Err(e);
                            },
                        }
                    }
                    i = i + 1;
                },
            }
        }
        proof {
            assert(astv.skip(n as int) =~= Seq::<AstS>::empty());
            assert(out0 + output.deep_view().skip(out0.len() as int) =~= output.deep_view());
        }
        Ok(())
    }
}

} // verus!
