//! The statement-level AST builder: groups the tokenized program into
//! statement nodes, dispatching on each line's leading token shape and
//! capturing conditional bodies verbatim for later re-parsing.

use crate::error::{CodeError, ErrorKind, PossibleErrors};
use crate::parser::clone_token;
use crate::tokens::{spec_tokens_wf, Keyword, Token, TokenS, Type};
use vstd::prelude::*;

verus! {

/// One parsed statement.
#[derive(Debug, Clone, PartialEq)]
pub enum ASTNode {
    VariableDeclaration { names: Vec<String>, var_type: Type },
    Assignment { name: String, expression: Vec<Token> },
    WriteStatement { expressions: Vec<Token> },
    ReadStatement { variables: Vec<String> },
    IfStatement { condition: Vec<Token>, code: Vec<Vec<Token>> },
}

/// Mathematical image of a statement node.
pub enum AstS {
    VariableDeclaration { names: Seq<Seq<char>>, var_type: Type },
    Assignment { name: Seq<char>, expression: Seq<TokenS> },
    WriteStatement { expressions: Seq<TokenS> },
    ReadStatement { variables: Seq<Seq<char>> },
    IfStatement { condition: Seq<TokenS>, code: Seq<Seq<TokenS>> },
}

impl View for ASTNode {
    type V = AstS;

    open spec fn view(&self) -> AstS {
        match self {
            ASTNode::VariableDeclaration { names, var_type } => AstS::VariableDeclaration {
                names: names.deep_view(),
                var_type: *var_type,
            },
            ASTNode::Assignment { name, expression } => AstS::Assignment {
                name: name@,
                expression: expression.deep_view(),
            },
            ASTNode::WriteStatement { expressions } => AstS::WriteStatement {
                expressions: expressions.deep_view(),
            },
            ASTNode::ReadStatement { variables } => AstS::ReadStatement {
                variables: variables.deep_view(),
            },
            ASTNode::IfStatement { condition, code } => AstS::IfStatement {
                condition: condition.deep_view(),
                code: code.deep_view(),
            },
        }
    }
}

impl DeepView for ASTNode {
    type V = AstS;

    open spec fn deep_view(&self) -> AstS {
        self@
    }
}

/// The variable names among a token run, in order.
pub open spec fn spec_names_of(toks: Seq<TokenS>) -> Seq<Seq<char>>
    decreases toks.len(),
{
    if toks.len() == 0 {
        Seq::empty()
    } else {
        let rest = spec_names_of(toks.drop_first());
        match toks.first() {
            TokenS::Variable(n) => seq![n] + rest,
            _ => rest,
        }
    }
}

/// A declaration's tail: the final two tokens must be the `Como` keyword
/// and a type; everything before them contributes its variable names.
pub open spec fn spec_parse_declaration(rest: Seq<TokenS>) -> Result<(Seq<Seq<char>>, Type), ErrorKind> {
    if rest.len() < 2 {
        Err(ErrorKind::MissingTypeOrUnvalidType)
    } else {
        match (rest[rest.len() - 2], rest[rest.len() - 1]) {
            (TokenS::Instruccion(Keyword::Como), TokenS::Tipo(t)) => Ok(
                (spec_names_of(rest.take(rest.len() - 2)), t),
            ),
            _ => Err(ErrorKind::MissingTypeOrUnvalidType),
        }
    }
}

/// A conditional header's tail: an open parenthesis, the condition, a close
/// parenthesis and the `Entonces` keyword.
pub open spec fn spec_extract_condition(rest: Seq<TokenS>) -> Result<Seq<TokenS>, ErrorKind> {
    if rest.len() >= 3 && rest[0] == TokenS::AbrirParentesis && rest[rest.len() - 2]
        == TokenS::CerrarParentesis && rest[rest.len() - 1] == TokenS::Instruccion(
        Keyword::Entonces,
    ) {
        Ok(rest.subrange(1, rest.len() - 2))
    } else {
        Err(ErrorKind::SyntaxError)
    }
}

/// Argument separators rewritten to the addition operator, so a
/// comma-joined write list evaluates as one combined value.
pub open spec fn spec_rewrite_separators(toks: Seq<TokenS>) -> Seq<TokenS> {
    toks.map_values(
        |t: TokenS|
            if t == TokenS::SeparadorArgumento {
                TokenS::Suma
            } else {
                t
            },
    )
}

/// The line holding exactly the `FinSi` keyword.
pub open spec fn spec_finsi_line() -> Seq<TokenS> {
    seq![TokenS::Instruccion(Keyword::FinSi)]
}

/// First line at or after `j` that is exactly `FinSi`, or the program's
/// end. The scan does not balance nested conditionals.
pub open spec fn spec_finsi_scan(code: Seq<Seq<TokenS>>, j: int) -> int
    decreases code.len() - j,
{
    if j < 0 || j >= code.len() {
        code.len() as int
    } else if code[j] == spec_finsi_line() {
        j
    } else {
        spec_finsi_scan(code, j + 1)
    }
}

/// The scan lands between its start and the program's end.
proof fn lemma_finsi_scan_bounds(code: Seq<Seq<TokenS>>, j: int)
    requires
        0 <= j <= code.len(),
    ensures
        j <= spec_finsi_scan(code, j) <= code.len(),
    decreases code.len() - j,
{
    if j < code.len() && code[j] != spec_finsi_line() {
        lemma_finsi_scan_bounds(code, j + 1);
    }
}

/// Builds the statement list from line `i` on. Dispatch is by the line's
/// leading token: a declaration, an assignment, a write, a read, a
/// conditional (whose body runs verbatim to the first `FinSi` line), or a
/// stray `FinSi` line (skipped); any other shape is a syntax error that
/// aborts the whole build.
pub open spec fn spec_build_ast(code: Seq<Seq<TokenS>>, i: int) -> Result<Seq<AstS>, ErrorKind>
    decreases code.len() - i,
    via spec_build_ast_decreases
{
    if i < 0 || i >= code.len() {
        Ok(Seq::empty())
    } else {
        let line = code[i];
        if line.len() == 0 {
            Err(ErrorKind::SyntaxError)
        } else {
            match line[0] {
                TokenS::Instruccion(Keyword::Definir) => match spec_parse_declaration(
                    line.drop_first(),
                ) {
                    Ok(nt) => match spec_build_ast(code, i + 1) {
                        Ok(rest) => Ok(
                            seq![AstS::VariableDeclaration { names: nt.0, var_type: nt.1 }] + rest,
                        ),
                        Err(e) => Err(e),
                    },
                    Err(e) => Err(e),
                },
                TokenS::Variable(name) => if line.len() >= 2 && line[1] == TokenS::Igual {
                    match spec_build_ast(code, i + 1) {
                        Ok(rest) => Ok(
                            seq![AstS::Assignment { name, expression: line.skip(2) }] + rest,
                        ),
                        Err(e) => Err(e),
                    }
                } else {
                    Err(ErrorKind::SyntaxError)
                },
                TokenS::Instruccion(Keyword::Escribir) => match spec_build_ast(code, i + 1) {
                    Ok(rest) => Ok(
                        seq![
                            AstS::WriteStatement {
                                expressions: spec_rewrite_separators(line.drop_first()),
                            },
                        ] + rest,
                    ),
                    Err(e) => Err(e),
                },
                TokenS::Instruccion(Keyword::Leer) => match spec_build_ast(code, i + 1) {
                    Ok(rest) => Ok(
                        seq![AstS::ReadStatement { variables: spec_names_of(line.drop_first()) }]
                            + rest,
                    ),
                    Err(e) => Err(e),
                },
                TokenS::Instruccion(Keyword::Si) => match spec_extract_condition(
                    line.drop_first(),
                ) {
                    Ok(cond) => {
                        let j = spec_finsi_scan(code, i + 1);
                        let body = code.subrange(i + 1, j);
                        let next = if j + 1 <= code.len() {
                            j + 1
                        } else {
                            code.len() as int
                        };
                        match spec_build_ast(code, next) {
                            Ok(rest) => Ok(
                                seq![AstS::IfStatement { condition: cond, code: body }] + rest,
                            ),
                            Err(e) => Err(e),
                        }
                    },
                    Err(e) => Err(e),
                },
                TokenS::Instruccion(Keyword::FinSi) => if line.len() == 1 {
                    spec_build_ast(code, i + 1)
                } else {
                    Err(ErrorKind::SyntaxError)
                },
                _ => Err(ErrorKind::SyntaxError),
            }
        }
    }
}

#[via_fn]
proof fn spec_build_ast_decreases(code: Seq<Seq<TokenS>>, i: int) {
    if 0 <= i < code.len() {
        lemma_finsi_scan_bounds(code, i + 1);
    }
}

/// All tokens of all lines are well-formed.
pub open spec fn spec_lines_wf(code: Seq<Seq<TokenS>>) -> bool {
    forall|i: int| 0 <= i < code.len() ==> spec_tokens_wf(#[trigger] code[i])
}

/// A node's tokens are all well-formed.
pub open spec fn spec_node_wf(n: AstS) -> bool {
    match n {
        AstS::Assignment { expression, .. } => spec_tokens_wf(expression),
        AstS::WriteStatement { expressions } => spec_tokens_wf(expressions),
        AstS::IfStatement { condition, code } => spec_tokens_wf(condition) && spec_lines_wf(code),
        _ => true,
    }
}

/// All nodes' tokens are well-formed.
pub open spec fn spec_ast_wf(nodes: Seq<AstS>) -> bool {
    forall|i: int| 0 <= i < nodes.len() ==> spec_node_wf(#[trigger] nodes[i])
}

/// Size of a token line, counting its tokens and the line itself.
pub open spec fn line_size(line: Seq<TokenS>) -> nat {
    line.len() + 1
}

/// Total size of a line group.
pub open spec fn lines_size(code: Seq<Seq<TokenS>>) -> nat
    decreases code.len(),
{
    if code.len() == 0 {
        0
    } else {
        line_size(code.first()) + lines_size(code.drop_first())
    }
}

/// Size of a statement node: only a conditional contributes, with its
/// stored body lines (re-parsed at execution time) plus one.
pub open spec fn node_size(n: AstS) -> nat {
    match n {
        AstS::IfStatement { code, .. } => 1 + lines_size(code),
        _ => 0,
    }
}

/// Total size of a statement list.
pub open spec fn ast_size(nodes: Seq<AstS>) -> nat
    decreases nodes.len(),
{
    if nodes.len() == 0 {
        0
    } else {
        node_size(nodes.first()) + ast_size(nodes.drop_first())
    }
}

/// Line-group size adds over concatenation.
proof fn lemma_lines_size_concat(a: Seq<Seq<TokenS>>, b: Seq<Seq<TokenS>>)
    ensures
        lines_size(a + b) == lines_size(a) + lines_size(b),
    decreases a.len(),
{
    if a.len() == 0 {
        assert(a + b =~= b);
    } else {
        assert((a + b).drop_first() =~= a.drop_first() + b);
        lemma_lines_size_concat(a.drop_first(), b);
    }
}

/// Statement-list size adds over concatenation.
proof fn lemma_ast_size_concat(a: Seq<AstS>, b: Seq<AstS>)
    ensures
        ast_size(a + b) == ast_size(a) + ast_size(b),
    decreases a.len(),
{
    if a.len() == 0 {
        assert(a + b =~= b);
    } else {
        assert((a + b).drop_first() =~= a.drop_first() + b);
        lemma_ast_size_concat(a.drop_first(), b);
    }
}

/// Each node's size is bounded by its whole list's size.
pub proof fn lemma_ast_size_bound(nodes: Seq<AstS>, i: int)
    requires
        0 <= i < nodes.len(),
    ensures
        node_size(nodes[i]) <= ast_size(nodes),
    decreases nodes.len(),
{
    if i > 0 {
        lemma_ast_size_bound(nodes.drop_first(), i - 1);
        assert(nodes.drop_first()[i - 1] == nodes[i]);
    }
}

/// What the builder makes of the lines from `i` on is never larger than
/// those lines: an If node stores its body lines verbatim, and the header
/// and terminator lines only shrink away. This bounds the interpreter's
/// recursive re-parsing of conditional bodies.
pub proof fn lemma_build_ast_size(code: Seq<Seq<TokenS>>, i: int)
    requires
        0 <= i <= code.len(),
    ensures
        spec_build_ast(code, i) matches Ok(nodes) ==> ast_size(nodes) <= lines_size(
            code.skip(i),
        ),
    decreases code.len() - i,
{
    if i < code.len() {
        let line = code[i];
        assert(code.skip(i).drop_first() =~= code.skip(i + 1));
        assert(code.skip(i).first() == line);
        if line.len() > 0 {
            match line[0] {
                TokenS::Instruccion(Keyword::Si) => {
                    match spec_extract_condition(line.drop_first()) {
                        Ok(cond) => {
                            lemma_finsi_scan_bounds(code, i + 1);
                            let j = spec_finsi_scan(code, i + 1);
                            let body = code.subrange(i + 1, j);
                            let next = if j + 1 <= code.len() {
                                j + 1
                            } else {
                                code.len() as int
                            };
                            lemma_build_ast_size(code, next);
                            assert(code.skip(i + 1) =~= body + code.skip(j));
                            lemma_lines_size_concat(body, code.skip(j));
                            if j < code.len() {
                                assert(code.skip(j).drop_first() =~= code.skip(j + 1));
                            }
                            match spec_build_ast(code, next) {
                                Ok(rest) => {
                                    let node = AstS::IfStatement { condition: cond, code: body };
                                    assert((seq![node] + rest).first() == node);
                                    assert((seq![node] + rest).drop_first() =~= rest);
                                },
                                Err(..) => {},
                            }
                        },
                        Err(..) => {},
                    }
                },
                _ => {
                    lemma_build_ast_size(code, i + 1);
                    match spec_build_ast(code, i + 1) {
                        Ok(rest) => {
                            match spec_build_ast(code, i) {
                                Ok(nodes) => {
                                    if nodes.len() > 0 {
                                        assert(nodes.drop_first() =~= rest || nodes == rest);
                                    }
                                },
                                Err(..) => {},
                            }
                        },
                        Err(..) => {},
                    }
                },
            }
        }
    }
}

/// Law of builder determinism: the AST is a function of the token stream
/// alone, so rebuilding from the same stream yields structurally identical
/// node sequences.
pub proof fn lemma_build_ast_deterministic(a: Seq<Seq<TokenS>>, b: Seq<Seq<TokenS>>)
    requires
        a == b,
    ensures
        spec_build_ast(a, 0) == spec_build_ast(b, 0),
{
}

/// An owned copy of a token line.
pub fn clone_tokens(v: &Vec<Token>) -> (r: Vec<Token>)
    ensures
        r@ == v@,
{
    let mut r: Vec<Token> = Vec::new();
    proof {
        assert(r@ =~= v@.take(0));
    }
    let mut i: usize = 0;
    while i < v.len()
        invariant
            i <= v@.len(),
            r@ == v@.take(i as int),
        decreases v@.len() - i,
    {
        r.push(clone_token(&v[i]));
        i = i + 1;
        proof {
            assert(r@ =~= v@.take(i as int));
        }
    }
    proof {
        assert(v@.take(v@.len() as int) =~= v@);
    }
    r
}

/// An owned copy of the tokens `line[from..to]`.
fn tokens_range(line: &Vec<Token>, from: usize, to: usize) -> (r: Vec<Token>)
    requires
        from <= to <= line@.len(),
    ensures
        r.deep_view() == line.deep_view().subrange(from as int, to as int),
{
    let mut r: Vec<Token> = Vec::new();
    proof {
        assert(r.deep_view() =~= line.deep_view().subrange(from as int, from as int));
    }
    let mut i = from;
    while i < to
        invariant
            from <= i <= to,
            to <= line@.len(),
            r.deep_view() == line.deep_view().subrange(from as int, i as int),
        decreases to - i,
    {
        let ghost r0 = r.deep_view();
        r.push(clone_token(&line[i]));
        i = i + 1;
        proof {
            assert(r.deep_view() =~= r0.push(line.deep_view()[i as int - 1]));
            assert(r0.push(line.deep_view()[i as int - 1]) =~= line.deep_view().subrange(
                from as int,
                i as int,
            ));
        }
    }
    r
}

/// An owned copy of the lines `code[from..to]`.
pub(crate) fn lines_range(code: &Vec<Vec<Token>>, from: usize, to: usize) -> (r: Vec<Vec<Token>>)
    requires
        from <= to <= code@.len(),
    ensures
        r.deep_view() == code.deep_view().subrange(from as int, to as int),
{
    let mut r: Vec<Vec<Token>> = Vec::new();
    proof {
        assert(r.deep_view() =~= code.deep_view().subrange(from as int, from as int));
    }
    let mut i = from;
    while i < to
        invariant
            from <= i <= to,
            to <= code@.len(),
            r.deep_view() == code.deep_view().subrange(from as int, i as int),
        decreases to - i,
    {
        let ghost r0 = r.deep_view();
        let copy = clone_tokens(&code[i]);
        proof {
            assert(copy.deep_view() =~= code@[i as int].deep_view());
        }
        r.push(copy);
        i = i + 1;
        proof {
            assert(r.deep_view() =~= r0.push(code.deep_view()[i as int - 1]));
            assert(r0.push(code.deep_view()[i as int - 1]) =~= code.deep_view().subrange(
                from as int,
                i as int,
            ));
        }
    }
    r
}

/// The variable names among the first `upto` tokens, in order.
fn collect_variable_names(tokens: &Vec<Token>, upto: usize) -> (r: Vec<String>)
    requires
        upto <= tokens@.len(),
    ensures
        r.deep_view() == spec_names_of(tokens.deep_view().take(upto as int)),
{
    let ghost dv = tokens.deep_view();
    let mut names: Vec<String> = Vec::new();
    proof {
        assert(names.deep_view() =~= Seq::<Seq<char>>::empty());
        assert(names.deep_view() + spec_names_of(dv.subrange(0, upto as int)) =~= spec_names_of(
            dv.subrange(0, upto as int),
        ));
        assert(dv.take(upto as int) =~= dv.subrange(0, upto as int));
    }
    let mut i: usize = 0;
    while i < upto
        invariant
            i <= upto,
            upto <= tokens@.len(),
            dv == tokens.deep_view(),
            spec_names_of(dv.take(upto as int)) == names.deep_view() + spec_names_of(
                dv.subrange(i as int, upto as int),
            ),
        decreases upto - i,
    {
        let ghost names0 = names.deep_view();
        proof {
            assert(dv.subrange(i as int, upto as int).drop_first() =~= dv.subrange(
                i as int + 1,
                upto as int,
            ));
            assert(dv.subrange(i as int, upto as int).first() == dv[i as int]);
        }
        match &tokens[i] {
            Token::Variable(name) => {
                names.push(name.clone());
                proof {
                    assert(names.deep_view() =~= names0.push(dv[i as int]->Variable_0));
                    assert(names0 + (seq![dv[i as int]->Variable_0] + spec_names_of(
                        dv.subrange(i as int + 1, upto as int),
                    )) =~= names.deep_view() + spec_names_of(
                        dv.subrange(i as int + 1, upto as int),
                    ));
                }
            },
            _ => {
            },
        }
        i = i + 1;
    }
    proof {
        assert(spec_names_of(dv.subrange(upto as int, upto as int)) =~= Seq::<Seq<char>>::empty());
        assert(names.deep_view() + Seq::<Seq<char>>::empty() =~= names.deep_view());
    }
    names
}

/// Argument separators rewritten to the addition operator.
fn rewrite_separators(tokens: &Vec<Token>) -> (r: Vec<Token>)
    ensures
        r.deep_view() == spec_rewrite_separators(tokens.deep_view()),
{
    let ghost dv = tokens.deep_view();
    let mut r: Vec<Token> = Vec::new();
    proof {
        assert(r.deep_view() =~= spec_rewrite_separators(dv.take(0)));
    }
    let mut i: usize = 0;
    while i < tokens.len()
        invariant
            i <= tokens@.len(),
            dv == tokens.deep_view(),
            r.deep_view() == spec_rewrite_separators(dv.take(i as int)),
        decreases tokens@.len() - i,
    {
        let ghost r0 = r.deep_view();
        match &tokens[i] {
            Token::SeparadorArgumento => {
                r.push(Token::Suma);
            },
            other => {
                r.push(clone_token(other));
            },
        }
        i = i + 1;
        proof {
            assert(r.deep_view() =~= r0.push(
                if dv[i as int - 1] == TokenS::SeparadorArgumento {
                    TokenS::Suma
                } else {
                    dv[i as int - 1]
                },
            ));
            assert(r0.push(
                if dv[i as int - 1] == TokenS::SeparadorArgumento {
                    TokenS::Suma
                } else {
                    dv[i as int - 1]
                },
            ) =~= spec_rewrite_separators(dv.take(i as int)));
        }
    }
    proof {
        assert(dv.take(tokens@.len() as int) =~= dv);
    }
    r
}

/// Parses a declaration's tail: the final two tokens must be the `Como`
/// keyword and a type, and every identifier before them is a declared name.
fn parse_variable_declaration(tokens: &Vec<Token>) -> (r: Result<(Vec<String>, Type), CodeError>)
    ensures
        match r {
            Ok(p) => spec_parse_declaration(tokens.deep_view()) == Ok::<_, ErrorKind>(
                (p.0.deep_view(), p.1),
            ),
            Err(e) => spec_parse_declaration(tokens.deep_view()) == Err::<
                (Seq<Seq<char>>, Type),
                _,
            >(e@),
        },
{
    let len = tokens.len();
    if len < 2 {
        return Err(CodeError { error: PossibleErrors::MissingTypeOrUnvalidType });
    }
    match (&tokens[len - 2], &tokens[len - 1]) {
        (Token::Instruccion(Keyword::Como), Token::Tipo(t)) => {
            let vars = collect_variable_names(tokens, len - 2);
            Ok((vars, *t))
        },
        _ => Err(CodeError { error: PossibleErrors::MissingTypeOrUnvalidType }),
    }
}

/// Extracts a conditional header's condition from between its parentheses.
fn extract_condition(tokens: &Vec<Token>) -> (r: Result<Vec<Token>, CodeError>)
    ensures
        match r {
            Ok(cond) => spec_extract_condition(tokens.deep_view()) == Ok::<_, ErrorKind>(
                cond.deep_view(),
            ),
            Err(e) => spec_extract_condition(tokens.deep_view()) == Err::<Seq<TokenS>, _>(e@),
        },
{
    let len = tokens.len();
    if len < 3 {
        return Err(CodeError { error: PossibleErrors::SyntaxError });
    }
    let open_ok = match &tokens[0] {
        Token::AbrirParentesis => true,
        _ => false,
    };
    let close_ok = match &tokens[len - 2] {
        Token::CerrarParentesis => true,
        _ => false,
    };
    let then_ok = match &tokens[len - 1] {
        Token::Instruccion(Keyword::Entonces) => true,
        _ => false,
    };
    if open_ok && close_ok && then_ok {
        Ok(tokens_range(tokens, 1, len - 2))
    } else {
        Err(CodeError { error: PossibleErrors::SyntaxError })
    }
}

/// The line holding exactly the `FinSi` keyword.
fn is_finsi_line(line: &Vec<Token>) -> (r: bool)
    ensures
        r == (line.deep_view() == spec_finsi_line()),
{
    if line.len() != 1 {
        proof {
            assert(line.deep_view().len() != 1);
        }
        return false;
    }
    match &line[0] {
        Token::Instruccion(Keyword::FinSi) => {
            proof {
                assert(line.deep_view() =~= spec_finsi_line());
            }
            true
        },
        _ => {
            proof {
                assert(line.deep_view()[0] != spec_finsi_line()[0]);
            }
            false
        },
    }
}

/// Builds the statement list for a whole tokenized program; the first line
/// of unrecognized shape aborts the build with a syntax error.
pub fn build_ast(code: Vec<Vec<Token>>) -> (r: Result<Vec<ASTNode>, CodeError>)
    requires
        spec_lines_wf(code.deep_view()),
    ensures
        match r {
            Ok(nodes) => spec_build_ast(code.deep_view(), 0) == Ok::<_, ErrorKind>(
                nodes.deep_view(),
            ) && spec_ast_wf(nodes.deep_view()),
            Err(e) => spec_build_ast(code.deep_view(), 0) == Err::<Seq<AstS>, _>(e@),
        },
{
    let ghost codev = code.deep_view();
    let mut ast: Vec<ASTNode> = Vec::new();
    let n = code.len();
    let mut i: usize = 0;
    proof {
        assert(ast.deep_view() =~= Seq::<AstS>::empty());
        match spec_build_ast(codev, 0) {
            Ok(rest) => {
                assert(ast.deep_view() + rest =~= rest);
            },
            Err(..) => {},
        }
    }
    while i < n
        invariant
            n == code@.len(),
            i <= n,
            codev == code.deep_view(),
            spec_lines_wf(codev),
            spec_ast_wf(ast.deep_view()),
            match spec_build_ast(codev, i as int) {
                Ok(rest) => spec_build_ast(codev, 0) == Ok::<_, ErrorKind>(ast.deep_view() + rest),
                Err(e) => spec_build_ast(codev, 0) == Err::<Seq<AstS>, _>(e),
            },
        decreases n - i,
    {
        let ghost ast0 = ast.deep_view();
        let ghost iold = i as int;
        let ghost linev = codev[i as int];
        proof {
            assert(linev == code@[i as int].deep_view());
            assert(spec_tokens_wf(linev));
        }
        let line = &code[i];
        if line.len() == 0 {
            return Err(CodeError { error: PossibleErrors::SyntaxError });
        }
        match &line[0] {
            Token::Instruccion(Keyword::Definir) => {
                proof {
                    assert(linev[0] == TokenS::Instruccion(Keyword::Definir));
                }
                let rest = tokens_range(line, 1, line.len());
                proof {
                    assert(rest.deep_view() =~= linev.drop_first());
                }
                match parse_variable_declaration(&rest) {
                    Ok((vars, tipo)) => {
                        let ghost nodev = AstS::VariableDeclaration {
                            names: vars.deep_view(),
                            var_type: tipo,
                        };
                        ast.push(ASTNode::VariableDeclaration { names: vars, var_type: tipo });
                        i = i + 1;
                        proof {
                            assert(ast.deep_view() =~= ast0.push(nodev));
                            restore_invariant(codev, iold, ast0, nodev, ast.deep_view());
                        }
                    },
                    Err(e) => {
                        return Err(e);
                    },
                }
            },
            Token::Variable(nm) => {
                proof {
                    assert(linev[0] == TokenS::Variable(nm@));
                }
                if line.len() < 2 {
                    return Err(CodeError { error: PossibleErrors::SyntaxError });
                }
                let is_igual = match &line[1] {
                    Token::Igual => true,
                    _ => false,
                };
                proof {
                    assert(is_igual == (linev[1] == TokenS::Igual));
                }
                if !is_igual {
                    return Err(CodeError { error: PossibleErrors::SyntaxError });
                }
                let name = nm.clone();
                let expression = tokens_range(line, 2, line.len());
                proof {
                    assert(expression.deep_view() =~= linev.skip(2));
                    assert forall|k: int|
                        0 <= k < expression.deep_view().len() implies crate::tokens::spec_token_wf(
                        #[trigger] expression.deep_view()[k],
                    ) by {
                        assert(expression.deep_view()[k] == linev[k + 2]);
                    }
                }
                let ghost nodev = AstS::Assignment { name: name@, expression: expression.deep_view() };
                ast.push(ASTNode::Assignment { name, expression });
                i = i + 1;
                proof {
                    assert(ast.deep_view() =~= ast0.push(nodev));
                    restore_invariant(codev, iold, ast0, nodev, ast.deep_view());
                }
            },
            Token::Instruccion(Keyword::Escribir) => {
                proof {
                    assert(linev[0] == TokenS::Instruccion(Keyword::Escribir));
                }
                let rest = tokens_range(line, 1, line.len());
                proof {
                    assert(rest.deep_view() =~= linev.drop_first());
                }
                let expressions = rewrite_separators(&rest);
                proof {
                    assert forall|k: int|
                        0 <= k < expressions.deep_view().len() implies crate::tokens::spec_token_wf(
                        #[trigger] expressions.deep_view()[k],
                    ) by {
                        assert(expressions.deep_view()[k] == spec_rewrite_separators(
                            linev.drop_first(),
                        )[k]);
                        assert(linev.drop_first()[k] == linev[k + 1]);
                    }
                }
                let ghost nodev = AstS::WriteStatement { expressions: expressions.deep_view() };
                ast.push(ASTNode::WriteStatement { expressions });
                i = i + 1;
                proof {
                    assert(ast.deep_view() =~= ast0.push(nodev));
                    restore_invariant(codev, iold, ast0, nodev, ast.deep_view());
                }
            },
            Token::Instruccion(Keyword::Leer) => {
                proof {
                    assert(linev[0] == TokenS::Instruccion(Keyword::Leer));
                }
                let rest = tokens_range(line, 1, line.len());
                proof {
                    assert(rest.deep_view() =~= linev.drop_first());
                }
                let upto = rest.len();
                let vars = collect_variable_names(&rest, upto);
                proof {
                    assert(rest.deep_view().take(upto as int) =~= linev.drop_first());
                }
                let ghost nodev = AstS::ReadStatement { variables: vars.deep_view() };
                ast.push(ASTNode::ReadStatement { variables: vars });
                i = i + 1;
                proof {
                    assert(ast.deep_view() =~= ast0.push(nodev));
                    restore_invariant(codev, iold, ast0, nodev, ast.deep_view());
                }
            },
            Token::Instruccion(Keyword::Si) => {
                proof {
                    assert(linev[0] == TokenS::Instruccion(Keyword::Si));
                }
                let rest = tokens_range(line, 1, line.len());
                proof {
                    assert(rest.deep_view() =~= linev.drop_first());
                }
                let condition = match extract_condition(&rest) {
                    Ok(c) => c,
                    Err(e) => {
                        return Err(e);
                    },
                };
                let mut j = i + 1;
                while j < n && !is_finsi_line(&code[j])
                    invariant
                        iold + 1 <= j <= n,
                        n == code@.len(),
                        codev == code.deep_view(),
                        spec_finsi_scan(codev, iold + 1) == spec_finsi_scan(codev, j as int),
                    decreases n - j,
                {
                    proof {
                        assert(codev[j as int] == code@[j as int].deep_view());
                    }
                    j = j + 1;
                }
                proof {
                    if j < n {
                        assert(codev[j as int] == code@[j as int].deep_view());
                        assert(spec_finsi_scan(codev, j as int) == j as int);
                    } else {
                        assert(spec_finsi_scan(codev, j as int) == codev.len() as int);
                    }
                }
                let body = lines_range(&code, i + 1, j);
                proof {
                    assert forall|k: int|
                        0 <= k < condition.deep_view().len() implies crate::tokens::spec_token_wf(
                        #[trigger] condition.deep_view()[k],
                    ) by {
                        assert(condition.deep_view()[k] == linev.drop_first()[k + 1]);
                        assert(linev.drop_first()[k + 1] == linev[k + 2]);
                    }
                    assert forall|k: int|
                        0 <= k < body.deep_view().len() implies spec_tokens_wf(
                        #[trigger] body.deep_view()[k],
                    ) by {
                        assert(body.deep_view()[k] == codev[iold + 1 + k]);
                    }
                }
                let ghost nodev = AstS::IfStatement {
                    condition: condition.deep_view(),
                    code: body.deep_view(),
                };
                ast.push(ASTNode::IfStatement { condition, code: body });
                if j < n {
                    i = j + 1;
                } else {
                    i = n;
                }
                proof {
                    assert(ast.deep_view() =~= ast0.push(nodev));
                    restore_invariant(codev, iold, ast0, nodev, ast.deep_view());
                }
            },
            Token::Instruccion(Keyword::FinSi) => {
                proof {
                    assert(linev[0] == TokenS::Instruccion(Keyword::FinSi));
                }
                if line.len() == 1 {
                    i = i + 1;
                } else {
                    return Err(CodeError { error: PossibleErrors::SyntaxError });
                }
            },
            _ => {
                proof {
                    assert(match linev[0] {
                        TokenS::Instruccion(Keyword::Definir) => false,
                        TokenS::Variable(..) => false,
                        TokenS::Instruccion(Keyword::Escribir) => false,
                        TokenS::Instruccion(Keyword::Leer) => false,
                        TokenS::Instruccion(Keyword::Si) => false,
                        TokenS::Instruccion(Keyword::FinSi) => false,
                        _ => true,
                    });
                }
                return Err(CodeError { error: PossibleErrors::SyntaxError });
            },
        }
    }
    proof {
        assert(ast.deep_view() + Seq::<AstS>::empty() =~= ast.deep_view());
    }
    Ok(ast)
}

/// Re-establishes the builder loop's bookkeeping after one node is
/// appended: what has been built so far plus what remains is the whole
/// build.
proof fn restore_invariant(
    codev: Seq<Seq<TokenS>>,
    iold: int,
    ast0: Seq<AstS>,
    nodev: AstS,
    astv: Seq<AstS>,
)
    requires
        astv == ast0.push(nodev),
        spec_ast_wf(ast0),
        spec_node_wf(nodev),
    ensures
        spec_ast_wf(astv),
        forall|rest2: Seq<AstS>| #[trigger]
            (ast0 + (seq![nodev] + rest2)) == astv + rest2,
{
    assert forall|k: int| 0 <= k < astv.len() implies spec_node_wf(#[trigger] astv[k]) by {
        if k < ast0.len() {
            assert(astv[k] == ast0[k]);
        } else {
            assert(astv[k] == nodev);
        }
    }
    assert forall|rest2: Seq<AstS>| #[trigger]
        (ast0 + (seq![nodev] + rest2)) == astv + rest2 by {
        assert(ast0 + (seq![nodev] + rest2) =~= astv + rest2);
    }
}

} // verus!
