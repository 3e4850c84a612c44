//! Expression evaluation in two phases: precedence reordering of an infix
//! token run into postfix order (shunting yard), then stack evaluation of
//! the postfix run against per-kind operator tables.

use crate::error::{CodeError, ErrorKind, PossibleErrors};
use crate::memory::Memoria;
use crate::num::{
    num_add, num_div, num_eq_exact, num_eq_tol, num_le, num_lt, num_mul, num_sub, num_wf, spec_num_add,
    spec_num_div, spec_num_eq_exact, spec_num_eq_tol, spec_num_is_integer, spec_num_le, spec_num_lt,
    spec_num_mul, spec_num_sub, Num,
};
use crate::tokens::{spec_kind_id, spec_token_wf, spec_tokens_wf, Token, TokenS};
use vstd::prelude::*;

verus! {

/// Binding strength of an operator token: multiplicative over additive over
/// relational over conjunction over disjunction; everything else binds not
/// at all.
pub open spec fn spec_precedence(t: TokenS) -> int {
    match t {
        TokenS::O => 1,
        TokenS::Y => 2,
        TokenS::Comparacion => 3,
        TokenS::MayorA => 3,
        TokenS::MayorOIgual => 3,
        TokenS::MenorA => 3,
        TokenS::MenorOIgual => 3,
        TokenS::Diferente => 3,
        TokenS::Igual => 3,
        TokenS::Suma => 4,
        TokenS::Resta => 4,
        TokenS::Multiplicacion => 5,
        TokenS::Division => 5,
        _ => 0,
    }
}

/// Binding strength of an operator token.
fn precedence(token: &Token) -> (r: u8)
    ensures
        r as int == spec_precedence(token@),
{
    match token {
        Token::O => 1,
        Token::Y => 2,
        Token::Comparacion
        | Token::MayorA
        | Token::MayorOIgual
        | Token::MenorA
        | Token::MenorOIgual
        | Token::Diferente
        | Token::Igual => 3,
        Token::Suma | Token::Resta => 4,
        Token::Multiplicacion | Token::Division => 5,
        _ => 0,
    }
}

/// Whether a token is one of the binary, comparison or logical operators.
pub open spec fn spec_is_operator(t: TokenS) -> bool {
    match t {
        TokenS::Suma
        | TokenS::Resta
        | TokenS::Multiplicacion
        | TokenS::Division
        | TokenS::MayorA
        | TokenS::MayorOIgual
        | TokenS::MenorA
        | TokenS::MenorOIgual
        | TokenS::Igual
        | TokenS::Diferente
        | TokenS::Y
        | TokenS::O
        | TokenS::Comparacion => true,
        _ => false,
    }
}

/// Pops every stacked operator of precedence at least `prec` onto the
/// queue, in pop order.
pub open spec fn spec_pop_ge(stack: Seq<TokenS>, queue: Seq<TokenS>, prec: int) -> (Seq<TokenS>, Seq<
    TokenS,
>)
    decreases stack.len(),
{
    if stack.len() > 0 && spec_precedence(stack.last()) >= prec {
        spec_pop_ge(stack.drop_last(), queue.push(stack.last()), prec)
    } else {
        (stack, queue)
    }
}

/// Pops stacked tokens onto the queue until the matching open parenthesis,
/// which is discarded; `None` when no open parenthesis is on the stack.
pub open spec fn spec_pop_until_open(stack: Seq<TokenS>, queue: Seq<TokenS>) -> Option<
    (Seq<TokenS>, Seq<TokenS>),
>
    decreases stack.len(),
{
    if stack.len() == 0 {
        None
    } else {
        match stack.last() {
            TokenS::AbrirParentesis => Some((stack.drop_last(), queue)),
            _ => spec_pop_until_open(stack.drop_last(), queue.push(stack.last())),
        }
    }
}

/// Drains the whole operator stack onto the queue, in pop order.
pub open spec fn spec_drain(stack: Seq<TokenS>, queue: Seq<TokenS>) -> Seq<TokenS>
    decreases stack.len(),
{
    if stack.len() == 0 {
        queue
    } else {
        spec_drain(stack.drop_last(), queue.push(stack.last()))
    }
}

/// One pass of the infix-to-postfix reordering from token `i` on, with the
/// operator stack and output queue so far. Literals enqueue; a variable
/// resolves against the store immediately or aborts; operators first pop
/// everything of greater or equal precedence (left associativity);
/// parentheses group; any other token is an invalid instruction.
pub open spec fn spec_shunt(
    toks: Seq<TokenS>,
    mem: Map<Seq<char>, TokenS>,
    i: int,
    stack: Seq<TokenS>,
    queue: Seq<TokenS>,
) -> Result<Seq<TokenS>, ErrorKind>
    decreases toks.len() - i,
{
    if i < 0 || i >= toks.len() {
        Ok(spec_drain(stack, queue))
    } else {
        let t = toks[i];
        match t {
            TokenS::Numero(..) | TokenS::Cadena(..) | TokenS::Boolean(..) => spec_shunt(
                toks,
                mem,
                i + 1,
                stack,
                queue.push(t),
            ),
            TokenS::Variable(name) => if mem.contains_key(name) {
                spec_shunt(toks, mem, i + 1, stack, queue.push(mem[name]))
            } else {
                Err(ErrorKind::VariableNotFound(name))
            },
            TokenS::AbrirParentesis => spec_shunt(toks, mem, i + 1, stack.push(t), queue),
            TokenS::CerrarParentesis => match spec_pop_until_open(stack, queue) {
                Some(sq) => spec_shunt(toks, mem, i + 1, sq.0, sq.1),
                None => Err(ErrorKind::InvalidInstruction),
            },
            _ => if spec_is_operator(t) {
                let sq = spec_pop_ge(stack, queue, spec_precedence(t));
                spec_shunt(toks, mem, i + 1, sq.0.push(t), sq.1)
            } else {
                Err(ErrorKind::InvalidInstruction)
            },
        }
    }
}

/// The whole infix-to-postfix reordering of an expression against a store
/// snapshot.
pub open spec fn spec_shunting_yard(toks: Seq<TokenS>, mem: Map<Seq<char>, TokenS>) -> Result<
    Seq<TokenS>,
    ErrorKind,
> {
    spec_shunt(toks, mem, 0, Seq::empty(), Seq::empty())
}

/// The per-kind operator tables: both operands must be of the same kind;
/// numbers know arithmetic (with the integer flag recomputed from the exact
/// result) and comparisons (equality with tolerance 1/10 under `==`, exact
/// under `=` and `!=`, exact order otherwise); strings know concatenation
/// and (in)equality of their text; booleans know conjunction, disjunction
/// and (in)equality, with equality under both `=` and `==`. Everything
/// else yields no value.
pub open spec fn spec_calc(left: TokenS, right: TokenS, op: TokenS) -> Option<TokenS> {
    if spec_kind_id(left) != spec_kind_id(right) {
        None
    } else {
        match (left, right) {
            (TokenS::Numero(l, _), TokenS::Numero(r, _)) => match op {
                TokenS::Suma => match spec_num_add(l, r) {
                    Some(v) => Some(TokenS::Numero(v, spec_num_is_integer(v))),
                    None => None,
                },
                TokenS::Resta => match spec_num_sub(l, r) {
                    Some(v) => Some(TokenS::Numero(v, spec_num_is_integer(v))),
                    None => None,
                },
                TokenS::Multiplicacion => match spec_num_mul(l, r) {
                    Some(v) => Some(TokenS::Numero(v, spec_num_is_integer(v))),
                    None => None,
                },
                TokenS::Division => match spec_num_div(l, r) {
                    Some(v) => Some(TokenS::Numero(v, spec_num_is_integer(v))),
                    None => None,
                },
                TokenS::Comparacion => Some(TokenS::Boolean(spec_num_eq_tol(l, r))),
                TokenS::MayorA => Some(TokenS::Boolean(spec_num_lt(r, l))),
                TokenS::MayorOIgual => Some(TokenS::Boolean(spec_num_le(r, l))),
                TokenS::MenorA => Some(TokenS::Boolean(spec_num_lt(l, r))),
                TokenS::MenorOIgual => Some(TokenS::Boolean(spec_num_le(l, r))),
                TokenS::Diferente => Some(TokenS::Boolean(!spec_num_eq_exact(l, r))),
                TokenS::Igual => Some(TokenS::Boolean(spec_num_eq_exact(l, r))),
                _ => None,
            },
            (TokenS::Cadena(l), TokenS::Cadena(r)) => match op {
                TokenS::Suma => Some(TokenS::Cadena(l + r)),
                TokenS::Comparacion => Some(TokenS::Boolean(l == r)),
                TokenS::Diferente => Some(TokenS::Boolean(l != r)),
                _ => None,
            },
            (TokenS::Boolean(l), TokenS::Boolean(r)) => match op {
                TokenS::Y => Some(TokenS::Boolean(l && r)),
                TokenS::O => Some(TokenS::Boolean(l || r)),
                TokenS::Comparacion => Some(TokenS::Boolean(l == r)),
                TokenS::Igual => Some(TokenS::Boolean(l == r)),
                TokenS::Diferente => Some(TokenS::Boolean(l != r)),
                _ => None,
            },
            _ => None,
        }
    }
}

/// The left operand substituted when the value stack holds only one value:
/// a zero-valued integer.
pub open spec fn spec_zero_operand() -> TokenS {
    TokenS::Numero(Num { n: 0, d: 1 }, true)
}

/// Postfix stack evaluation from token `i` on: values push; any other token
/// acts as a binary operator, popping the right then the left operand (a
/// missing left operand is taken as zero, a deliberate leniency; a missing
/// right operand or an undefined per-kind operation yields no value). The
/// result is whatever ends on top of the stack.
pub open spec fn spec_postfix(toks: Seq<TokenS>, i: int, stack: Seq<TokenS>) -> Option<TokenS>
    decreases toks.len() - i,
{
    if i < 0 || i >= toks.len() {
        if stack.len() == 0 {
            None
        } else {
            Some(stack.last())
        }
    } else {
        let t = toks[i];
        match t {
            TokenS::Numero(..) | TokenS::Cadena(..) | TokenS::Boolean(..) => spec_postfix(
                toks,
                i + 1,
                stack.push(t),
            ),
            _ => {
                if stack.len() == 0 {
                    None
                } else {
                    let right = stack.last();
                    let left = if stack.len() >= 2 {
                        stack[stack.len() - 2]
                    } else {
                        spec_zero_operand()
                    };
                    let rest = if stack.len() >= 2 {
                        stack.drop_last().drop_last()
                    } else {
                        stack.drop_last()
                    };
                    match spec_calc(left, right, t) {
                        Some(v) => spec_postfix(toks, i + 1, rest.push(v)),
                        None => None,
                    }
                }
            },
        }
    }
}

/// The whole postfix evaluation of a token run.
pub open spec fn spec_postfix_eval(toks: Seq<TokenS>) -> Option<TokenS> {
    spec_postfix(toks, 0, Seq::empty())
}

/// An owned copy of a token, equal to the original.
pub fn clone_token(t: &Token) -> (r: Token)
    ensures
        r == *t,
{
    match t {
        Token::Y => Token::Y,
        Token::O => Token::O,
        Token::Igual => Token::Igual,
        Token::Diferente => Token::Diferente,
        Token::Comparacion => Token::Comparacion,
        Token::MenorA => Token::MenorA,
        Token::MenorOIgual => Token::MenorOIgual,
        Token::MayorA => Token::MayorA,
        Token::MayorOIgual => Token::MayorOIgual,
        Token::Suma => Token::Suma,
        Token::SeparadorArgumento => Token::SeparadorArgumento,
        Token::Resta => Token::Resta,
        Token::Multiplicacion => Token::Multiplicacion,
        Token::Division => Token::Division,
        Token::Numero(v, e) => Token::Numero(*v, *e),
        Token::Cadena(s) => Token::Cadena(s.clone()),
        Token::Boolean(b) => Token::Boolean(*b),
        Token::Identificador(s) => Token::Identificador(s.clone()),
        Token::Variable(s) => Token::Variable(s.clone()),
        Token::Tipo(t2) => Token::Tipo(*t2),
        Token::Instruccion(k) => Token::Instruccion(*k),
        Token::AbrirParentesis => Token::AbrirParentesis,
        Token::CerrarParentesis => Token::CerrarParentesis,
    }
}

/// Pops every stacked operator of precedence at least `prec` onto the
/// queue.
fn pop_ge(stack: &mut Vec<Token>, queue: &mut Vec<Token>, prec: u8)
    ensures
        final(stack).deep_view() == spec_pop_ge(
            old(stack).deep_view(),
            old(queue).deep_view(),
            prec as int,
        ).0,
        final(queue).deep_view() == spec_pop_ge(
            old(stack).deep_view(),
            old(queue).deep_view(),
            prec as int,
        ).1,
        spec_tokens_wf(old(stack).deep_view()) && spec_tokens_wf(old(queue).deep_view())
            ==> spec_tokens_wf(final(stack).deep_view()) && spec_tokens_wf(
            final(queue).deep_view(),
        ),
    decreases stack@.len(),
{
    if stack.len() > 0 {
        let p = precedence(&stack[stack.len() - 1]);
        if p >= prec {
            if let Some(tok) = stack.pop() {
                queue.push(tok);
            }
            proof {
                assert(old(stack).deep_view().drop_last() =~= stack.deep_view());
                assert(old(queue).deep_view().push(old(stack).deep_view().last())
                    =~= queue.deep_view());
            }
            pop_ge(stack, queue, prec);
        }
    }
}

/// Pops stacked tokens onto the queue until the open parenthesis, which is
/// discarded; answers whether one was found.
fn pop_until_open(stack: &mut Vec<Token>, queue: &mut Vec<Token>) -> (found: bool)
    ensures
        match spec_pop_until_open(old(stack).deep_view(), old(queue).deep_view()) {
            Some(sq) => found && final(stack).deep_view() == sq.0 && final(queue).deep_view()
                == sq.1,
            None => !found,
        },
        spec_tokens_wf(old(stack).deep_view()) && spec_tokens_wf(old(queue).deep_view())
            ==> spec_tokens_wf(final(stack).deep_view()) && spec_tokens_wf(
            final(queue).deep_view(),
        ),
    decreases stack@.len(),
{
    match stack.pop() {
        None => false,
        Some(Token::AbrirParentesis) => {
            proof {
                assert(old(stack).deep_view().drop_last() =~= stack.deep_view());
            }
            true
        },
        Some(tok) => {
            queue.push(tok);
            proof {
                assert(old(stack).deep_view().drop_last() =~= stack.deep_view());
                assert(old(queue).deep_view().push(old(stack).deep_view().last())
                    =~= queue.deep_view());
            }
            pop_until_open(stack, queue)
        },
    }
}

/// Drains the whole operator stack onto the queue.
fn drain_stack(stack: &mut Vec<Token>, queue: &mut Vec<Token>)
    ensures
        final(queue).deep_view() == spec_drain(old(stack).deep_view(), old(queue).deep_view()),
        spec_tokens_wf(old(stack).deep_view()) && spec_tokens_wf(old(queue).deep_view())
            ==> spec_tokens_wf(final(queue).deep_view()),
    decreases stack@.len(),
{
    match stack.pop() {
        None => {
        },
        Some(tok) => {
            queue.push(tok);
            proof {
                assert(old(stack).deep_view().drop_last() =~= stack.deep_view());
                assert(old(queue).deep_view().push(old(stack).deep_view().last())
                    =~= queue.deep_view());
            }
            drain_stack(stack, queue);
        },
    }
}

/// Phase A: reorders an infix expression into postfix order against a
/// store snapshot, resolving variable references as it goes.
pub fn shunting_yard(expression: Vec<Token>, memory: &Memoria) -> (r: Result<Vec<Token>, CodeError>)
    requires
        memory.wf(),
        spec_tokens_wf(expression.deep_view()),
    ensures
        match r {
            Ok(q) => spec_shunting_yard(expression.deep_view(), memory@) == Ok::<_, ErrorKind>(
                q.deep_view(),
            ) && spec_tokens_wf(q.deep_view()),
            Err(e) => spec_shunting_yard(expression.deep_view(), memory@) == Err::<Seq<TokenS>, _>(
                e@,
            ),
        },
{
    let ghost toks = expression.deep_view();
    let ghost mem = memory@;
    let mut stack: Vec<Token> = Vec::new();
    let mut queue: Vec<Token> = Vec::new();
    proof {
        assert(stack.deep_view() =~= Seq::<TokenS>::empty());
        assert(queue.deep_view() =~= Seq::<TokenS>::empty());
    }
    let n = expression.len();
    let mut i: usize = 0;
    while i < n
        invariant
            n == expression@.len(),
            i <= n,
            toks == expression.deep_view(),
            mem == memory@,
            memory.wf(),
            spec_tokens_wf(toks),
            spec_tokens_wf(stack.deep_view()),
            spec_tokens_wf(queue.deep_view()),
            spec_shunt(toks, mem, 0, Seq::empty(), Seq::empty()) == spec_shunt(
                toks,
                mem,
                i as int,
                stack.deep_view(),
                queue.deep_view(),
            ),
        decreases n - i,
    {
        let ghost stack0 = stack.deep_view();
        let ghost queue0 = queue.deep_view();
        proof {
            assert(toks[i as int] == expression@[i as int]@);
        }
        let token = clone_token(&expression[i]);
        match token {
            Token::Numero(..) | Token::Cadena(..) | Token::Boolean(..) => {
                queue.push(token);
                proof {
                    assert(queue.deep_view() =~= queue0.push(toks[i as int]));
                }
            },
            Token::Variable(var_name) => {
                match memory.get(var_name.clone()) {
                    Some(stored) => {
                        let value = clone_token(stored);
                        queue.push(value);
                        proof {
                            assert(queue.deep_view() =~= queue0.push(mem[var_name@]));
                        }
                    },
                    None => {
                        return Err(
                            CodeError { error: PossibleErrors::VariableNotFound(var_name) },
                        );
                    },
                }
            },
            Token::AbrirParentesis => {
                stack.push(token);
                proof {
                    assert(stack.deep_view() =~= stack0.push(toks[i as int]));
                }
            },
            Token::CerrarParentesis => {
                let found = pop_until_open(&mut stack, &mut queue);
                if !found {
                    return Err(CodeError { error: PossibleErrors::InvalidInstruction });
                }
            },
            Token::Suma
            | Token::Resta
            | Token::Multiplicacion
            | Token::Division
            | Token::MayorA
            | Token::MayorOIgual
            | Token::MenorA
            | Token::MenorOIgual
            | Token::Igual
            | Token::Diferente
            | Token::Y
            | Token::O
            | Token::Comparacion => {
                let p = precedence(&token);
                pop_ge(&mut stack, &mut queue, p);
                stack.push(token);
                proof {
                    assert(stack.deep_view() =~= spec_pop_ge(
                        stack0,
                        queue0,
                        spec_precedence(toks[i as int]),
                    ).0.push(toks[i as int]));
                }
            },
            _ => {
                return Err(CodeError { error: PossibleErrors::InvalidInstruction });
            },
        }
        i = i + 1;
    }
    drain_stack(&mut stack, &mut queue);
    Ok(queue)
}

/// One binary operation: the two operands and the operator between them.
pub struct CalcNode {
    pub left: Token,
    pub right: Token,
    pub operator: Token,
}

impl CalcNode {
    /// Wraps an arithmetic result, recomputing the integer flag from
    /// whether the exact value has zero fractional part.
    fn calculate_operation(result: Num) -> (r: Token)
        requires
            num_wf(result),
        ensures
            r@ == TokenS::Numero(result, spec_num_is_integer(result)),
    {
        let is_rounded = result.is_integer();
        Token::Numero(result, is_rounded)
    }

    /// Applies the operator to the operands, per the per-kind tables; both
    /// operands must carry the same kind of value.
    pub fn calculate(self) -> (r: Option<Token>)
        requires
            spec_token_wf(self.left@),
            spec_token_wf(self.right@),
        ensures
            r.deep_view() == spec_calc(self.left@, self.right@, self.operator@),
            r matches Some(t) ==> spec_token_wf(t@),
    {
        if !crate::tokens::same_variant(&self.left, &self.right) {
            return None;
        }
        match (self.left, self.right) {
            (Token::Numero(left, _), Token::Numero(right, _)) => match &self.operator {
                Token::Suma => match num_add(left, right) {
                    Some(v) => Some(Self::calculate_operation(v)),
                    None => None,
                },
                Token::Resta => match num_sub(left, right) {
                    Some(v) => Some(Self::calculate_operation(v)),
                    None => None,
                },
                Token::Multiplicacion => match num_mul(left, right) {
                    Some(v) => Some(Self::calculate_operation(v)),
                    None => None,
                },
                Token::Division => match num_div(left, right) {
                    Some(v) => Some(Self::calculate_operation(v)),
                    None => None,
                },
                Token::Comparacion => Some(Token::Boolean(num_eq_tol(left, right))),
                Token::MayorA => Some(Token::Boolean(num_lt(right, left))),
                Token::MayorOIgual => Some(Token::Boolean(num_le(right, left))),
                Token::MenorA => Some(Token::Boolean(num_lt(left, right))),
                Token::MenorOIgual => Some(Token::Boolean(num_le(left, right))),
                Token::Diferente => Some(Token::Boolean(!num_eq_exact(left, right))),
                Token::Igual => Some(Token::Boolean(num_eq_exact(left, right))),
                _ => None,
            },
            (Token::Cadena(left), Token::Cadena(right)) => match &self.operator {
                Token::Suma => Some(Token::Cadena(left.concat(right.as_str()))),
                Token::Comparacion => Some(Token::Boolean(left == right)),
                Token::Diferente => Some(Token::Boolean(!(left == right))),
                _ => None,
            },
            (Token::Boolean(left), Token::Boolean(right)) => match &self.operator {
                Token::Y => Some(Token::Boolean(left && right)),
                Token::O => Some(Token::Boolean(left || right)),
                Token::Comparacion => Some(Token::Boolean(left == right)),
                Token::Igual => Some(Token::Boolean(left == right)),
                Token::Diferente => Some(Token::Boolean(left != right)),
                _ => None,
            },
            _ => None,
        }
    }
}

/// Phase B: evaluates a postfix token run with a single value stack.
pub fn postfix_stack_evaluator(tokens: Vec<Token>) -> (r: Option<Token>)
    requires
        spec_tokens_wf(tokens.deep_view()),
    ensures
        r.deep_view() == spec_postfix_eval(tokens.deep_view()),
        r matches Some(t) ==> spec_token_wf(t@),
{
    let ghost toks = tokens.deep_view();
    let mut stack: Vec<Token> = Vec::new();
    proof {
        assert(stack.deep_view() =~= Seq::<TokenS>::empty());
    }
    let n = tokens.len();
    let mut i: usize = 0;
    while i < n
        invariant
            n == tokens@.len(),
            i <= n,
            toks == tokens.deep_view(),
            spec_tokens_wf(toks),
            spec_tokens_wf(stack.deep_view()),
            spec_postfix(toks, 0, Seq::empty()) == spec_postfix(toks, i as int, stack.deep_view()),
        decreases n - i,
    {
        let ghost stack0 = stack.deep_view();
        proof {
            assert(toks[i as int] == tokens@[i as int]@);
        }
        let token = clone_token(&tokens[i]);
        match token {
            Token::Numero(..) | Token::Cadena(..) | Token::Boolean(..) => {
                stack.push(token);
                proof {
                    assert(stack.deep_view() =~= stack0.push(toks[i as int]));
                }
            },
            operator => {
                let right = match stack.pop() {
                    Some(t) => t,
                    None => {
                        return None;
                    },
                };
                proof {
                    assert(stack.deep_view() =~= stack0.drop_last());
                }
                let left = match stack.pop() {
                    Some(t) => t,
                    None => Token::Numero(Num { n: 0, d: 1 }, true),
                };
                proof {
                    if stack0.len() >= 2 {
                        assert(stack.deep_view() =~= stack0.drop_last().drop_last());
                    } else {
                        assert(stack.deep_view() =~= stack0.drop_last());
                    }
                }
                let ghost rest = stack.deep_view();
                let node = CalcNode { left, right, operator };
                let result = match node.calculate() {
                    Some(t) => t,
                    None => {
                        return None;
                    },
                };
                stack.push(result);
                proof {
                    assert(stack.deep_view() =~= rest.push(result@));
                }
            },
        }
        i = i + 1;
    }
    let result = stack.pop();
    result
}

/// Law of string concatenation: joining three strings is associative, and
/// both groupings evaluate, in postfix form, to the three texts run
/// together.
pub proof fn lemma_concat_associative(a: Seq<char>, b: Seq<char>, c: Seq<char>)
    ensures
        spec_postfix_eval(
            seq![
                TokenS::Cadena(a),
                TokenS::Cadena(b),
                TokenS::Suma,
                TokenS::Cadena(c),
                TokenS::Suma,
            ],
        ) == spec_postfix_eval(
            seq![
                TokenS::Cadena(a),
                TokenS::Cadena(b),
                TokenS::Cadena(c),
                TokenS::Suma,
                TokenS::Suma,
            ],
        ),
        spec_postfix_eval(
            seq![
                TokenS::Cadena(a),
                TokenS::Cadena(b),
                TokenS::Suma,
                TokenS::Cadena(c),
                TokenS::Suma,
            ],
        ) == Some(TokenS::Cadena(a + b + c)),
{
    let grouped_left = seq![
        TokenS::Cadena(a),
        TokenS::Cadena(b),
        TokenS::Suma,
        TokenS::Cadena(c),
        TokenS::Suma,
    ];
    let grouped_right = seq![
        TokenS::Cadena(a),
        TokenS::Cadena(b),
        TokenS::Cadena(c),
        TokenS::Suma,
        TokenS::Suma,
    ];
    assert((a + b) + c =~= a + (b + c));
    reveal_with_fuel(spec_postfix, 7);
    assert(spec_postfix_eval(grouped_left) == Some(TokenS::Cadena(a + b + c)));
    assert(spec_postfix_eval(grouped_right) == Some(TokenS::Cadena(a + (b + c))));
}

/// Law of numeric comparison: equality under `==` tolerates an absolute
/// difference below one tenth (stated by cross-multiplication over the
/// positive denominators), while the order comparisons are exact.
pub proof fn lemma_equality_tolerant_order_exact(a: Num, fa: bool, b: Num, fb: bool)
    requires
        num_wf(a),
        num_wf(b),
    ensures
        spec_calc(TokenS::Numero(a, fa), TokenS::Numero(b, fb), TokenS::Comparacion) == Some(
            TokenS::Boolean(10 * vstd::math::abs(a.n * b.d - b.n * a.d) < a.d * b.d),
        ),
        spec_calc(TokenS::Numero(a, fa), TokenS::Numero(b, fb), TokenS::MenorA) == Some(
            TokenS::Boolean(a.n * b.d < b.n * a.d),
        ),
        spec_calc(TokenS::Numero(a, fa), TokenS::Numero(b, fb), TokenS::MenorOIgual) == Some(
            TokenS::Boolean(a.n * b.d <= b.n * a.d),
        ),
        spec_calc(TokenS::Numero(a, fa), TokenS::Numero(b, fb), TokenS::MayorA) == Some(
            TokenS::Boolean(b.n * a.d < a.n * b.d),
        ),
        spec_calc(TokenS::Numero(a, fa), TokenS::Numero(b, fb), TokenS::MayorOIgual) == Some(
            TokenS::Boolean(b.n * a.d <= a.n * b.d),
        ),
{
}

} // verus!
