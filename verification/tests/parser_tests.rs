use pseint::lexer::Lexer;
use pseint::memory::Memoria;
use pseint::num::Num;
use pseint::parser::{postfix_stack_evaluator, shunting_yard};
use pseint::tokens::Token;

#[test]
fn shutting_yard_algo() {
    let expression = "(5*4+3*2)-1";
    let tokens = Lexer::lex(expression);
    let memory = Memoria::new();
    let result = shunting_yard(tokens, &memory).unwrap();

    assert_eq!(
        result,
        vec![
            Token::Numero(Num { n: 5, d: 1 }, true),
            Token::Numero(Num { n: 4, d: 1 }, true),
            Token::Multiplicacion,
            Token::Numero(Num { n: 3, d: 1 }, true),
            Token::Numero(Num { n: 2, d: 1 }, true),
            Token::Multiplicacion,
            Token::Suma,
            Token::Numero(Num { n: 1, d: 1 }, true),
            Token::Resta,
        ]
    )
}

#[test]
fn postfix_arithmetic() {
    let expression = "(5*4+3*2)-1";
    let tokens = Lexer::lex(expression);
    let memory = Memoria::new();

    let postfix = shunting_yard(tokens, &memory).unwrap();
    let result = postfix_stack_evaluator(postfix);

    assert_eq!(result, Some(Token::Numero(Num { n: 25, d: 1 }, true)));
}

#[test]
fn postfix_concatenate() {
    let expression = "'hola' + ' mundo'";
    let tokens = Lexer::lex(expression);
    let memory = Memoria::new();

    let postfix = shunting_yard(tokens, &memory).unwrap();
    let result = postfix_stack_evaluator(postfix);

    assert_eq!(result, Some(Token::Cadena("hola mundo".to_string())));
}

#[test]
fn postfix_boolean() {
    let expression = "VERDADERO Y VERDADERO";
    let tokens = Lexer::lex(expression);
    let memory = Memoria::new();

    let postfix = shunting_yard(tokens, &memory).unwrap();
    let result = postfix_stack_evaluator(postfix);

    assert_eq!(result, Some(Token::Boolean(true)))
}

#[test]
fn postfix_error() {
    let invalid_expressions = vec!["'hola' - 10", "'hola' - 'chau'", "10 - 'hola'"];
    for expr in invalid_expressions {
        let tokens = Lexer::lex(expr);
        let memory = Memoria::new();

        let postfix = shunting_yard(tokens, &memory).unwrap();

        // Should return None when adding 2 different types
        let result = postfix_stack_evaluator(postfix);

        assert_eq!(result, None);
    }
}

fn eval(expr: &str) -> Option<Token> {
    let tokens = Lexer::lex(expr);
    let memory = Memoria::new();
    let postfix = shunting_yard(tokens, &memory).unwrap();
    postfix_stack_evaluator(postfix)
}

#[test]
fn concat_is_associative() {
    let bare = eval("'a' + 'b' + 'c'");
    let grouped = eval("('a' + 'b') + 'c'");
    assert_eq!(bare, Some(Token::Cadena("abc".to_string())));
    assert_eq!(grouped, Some(Token::Cadena("abc".to_string())));
}

#[test]
fn equality_tolerates_small_difference() {
    assert_eq!(eval("5 == 5.05"), Some(Token::Boolean(true)));
    assert_eq!(eval("5 == 5.2"), Some(Token::Boolean(false)));
}

#[test]
fn order_comparisons_are_exact() {
    assert_eq!(eval("5 < 5.05"), Some(Token::Boolean(true)));
    assert_eq!(eval("5 >= 5.05"), Some(Token::Boolean(false)));
    assert_eq!(eval("5 <= 5"), Some(Token::Boolean(true)));
}

#[test]
fn division_recomputes_integer_flag() {
    assert_eq!(eval("10 / 4"), Some(Token::Numero(Num { n: 5, d: 2 }, false)));
    assert_eq!(eval("10 / 5"), Some(Token::Numero(Num { n: 2, d: 1 }, true)));
}

#[test]
fn division_by_zero_yields_nothing() {
    assert_eq!(eval("1 / 0"), None);
}

#[test]
fn variable_not_found_in_expression() {
    let tokens = Lexer::lex("x + 1");
    let memory = Memoria::new();
    let result = shunting_yard(tokens, &memory);
    assert_eq!(
        result,
        Err(pseint::CodeError {
            error: pseint::PossibleErrors::VariableNotFound("x".to_string())
        })
    );
}

#[test]
fn stray_close_paren_is_invalid_instruction() {
    let tokens = Lexer::lex(")");
    let memory = Memoria::new();
    let result = shunting_yard(tokens, &memory);
    assert_eq!(
        result,
        Err(pseint::CodeError {
            error: pseint::PossibleErrors::InvalidInstruction
        })
    );
}

#[test]
fn boolean_operators() {
    assert_eq!(eval("VERDADERO Y FALSO"), Some(Token::Boolean(false)));
    assert_eq!(eval("VERDADERO O FALSO"), Some(Token::Boolean(true)));
    assert_eq!(eval("FALSO O FALSO"), Some(Token::Boolean(false)));
}

#[test]
fn boolean_equality_under_both_operators() {
    assert_eq!(eval("VERDADERO == VERDADERO"), Some(Token::Boolean(true)));
    assert_eq!(eval("VERDADERO == FALSO"), Some(Token::Boolean(false)));
    assert_eq!(eval("VERDADERO = FALSO"), Some(Token::Boolean(false)));
    // Inequality has no surface lexeme; apply the operator token directly.
    let postfix = vec![Token::Boolean(true), Token::Boolean(false), Token::Diferente];
    assert_eq!(postfix_stack_evaluator(postfix), Some(Token::Boolean(true)));
}

#[test]
fn precedence_orders_products_before_sums() {
    assert_eq!(eval("2 + 3 * 4"), Some(Token::Numero(Num { n: 14, d: 1 }, true)));
    assert_eq!(eval("(2 + 3) * 4"), Some(Token::Numero(Num { n: 20, d: 1 }, true)));
}
