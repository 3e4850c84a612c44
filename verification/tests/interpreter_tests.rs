use pseint::ast::{build_ast, ASTNode};
use pseint::interpreter::Interpreter;
use pseint::lexer::{find_algorithm, Lexer};
use pseint::memory::Memoria;
use pseint::num::Num;
use pseint::tokens::{Token, Type};
use pseint::{CodeError, PossibleErrors};

fn program(lines: &[&str]) -> (Interpreter, Vec<ASTNode>) {
    let owned: Vec<String> = lines.iter().map(|l| l.to_string()).collect();
    let interpreter = Interpreter::new(&owned);
    let ast = build_ast(interpreter.code.clone()).unwrap();
    (interpreter, ast)
}

fn run_program(lines: &[&str], inputs: &[&str]) -> (Interpreter, Vec<String>, Result<(), CodeError>) {
    let (mut interpreter, ast) = program(lines);
    let owned_inputs: Vec<String> = inputs.iter().map(|l| l.to_string()).collect();
    let mut pos: usize = 0;
    let mut output: Vec<String> = Vec::new();
    let result = interpreter.run(ast, &owned_inputs, &mut pos, &mut output);
    (interpreter, output, result)
}

#[test]
fn zero_values_by_declared_type() {
    let mut memory = Memoria::new();
    memory.create("c".to_string(), Type::Caracter);
    memory.create("e".to_string(), Type::Entero);
    memory.create("r".to_string(), Type::Real);
    memory.create("l".to_string(), Type::Logico);
    let texts: Vec<String> = ["c", "e", "r", "l"]
        .iter()
        .map(|n| memory.get(n.to_string()).unwrap().clone().get_as_string())
        .collect();
    assert_eq!(texts, vec!["", "0", "0", "false"]);
}

#[test]
fn declaring_an_existing_name_is_a_silent_no_op() {
    let mut memory = Memoria::new();
    assert_eq!(memory.create("x".to_string(), Type::Entero), Some(()));
    assert_eq!(
        memory.set("x".to_string(), Token::Numero(Num { n: 9, d: 1 }, true)),
        Ok(())
    );
    assert_eq!(memory.create("x".to_string(), Type::Caracter), None);
    assert_eq!(
        memory.get("x".to_string()),
        Some(&Token::Numero(Num { n: 9, d: 1 }, true))
    );
}

#[test]
fn write_enforces_kind_and_is_visible() {
    let mut memory = Memoria::new();
    memory.create("x".to_string(), Type::Entero);
    let wrong = memory.set("x".to_string(), Token::Cadena("no".to_string()));
    assert_eq!(
        wrong,
        Err(CodeError {
            error: PossibleErrors::WrongType
        })
    );
    assert_eq!(
        memory.get("x".to_string()),
        Some(&Token::Numero(Num { n: 0, d: 1 }, true))
    );
    let ok = memory.set("x".to_string(), Token::Numero(Num { n: 3, d: 1 }, true));
    assert_eq!(ok, Ok(()));
    assert_eq!(
        memory.get("x".to_string()),
        Some(&Token::Numero(Num { n: 3, d: 1 }, true))
    );
}

#[test]
fn writing_to_an_undeclared_name_fails() {
    let mut memory = Memoria::new();
    assert_eq!(
        memory.set("y".to_string(), Token::Boolean(true)),
        Err(CodeError {
            error: PossibleErrors::VariableNotFound("y".to_string())
        })
    );
}

#[test]
fn definir_without_como_is_missing_type() {
    let code = vec![Lexer::lex("Definir x")];
    let result = build_ast(code);
    assert_eq!(
        result,
        Err(CodeError {
            error: PossibleErrors::MissingTypeOrUnvalidType
        })
    );
}

#[test]
fn unrecognized_line_is_syntax_error() {
    let code = vec![Lexer::lex("Entonces")];
    let result = build_ast(code);
    assert_eq!(
        result,
        Err(CodeError {
            error: PossibleErrors::SyntaxError
        })
    );
}

#[test]
fn builder_is_deterministic() {
    let lines = ["Definir x Como Entero", "x <- 3", "Si (x > 1) Entonces", "Escribir x", "FinSi"];
    let code: Vec<Vec<Token>> = lines.iter().map(|l| Lexer::lex(l)).collect();
    let first = build_ast(code.clone()).unwrap();
    let second = build_ast(code).unwrap();
    assert_eq!(first, second);
}

#[test]
fn assignment_and_write() {
    let (interpreter, output, result) = run_program(
        &["Definir x Como Entero", "x <- (5*4+3*2)-1", "Escribir x"],
        &[],
    );
    assert_eq!(result, Ok(()));
    assert_eq!(output, vec!["25\n"]);
    assert_eq!(
        interpreter.memory.get("x".to_string()),
        Some(&Token::Numero(Num { n: 25, d: 1 }, true))
    );
}

#[test]
fn write_joins_comma_list_with_addition() {
    let (_, output, result) = run_program(&["Escribir 'a', 'b'"], &[]);
    assert_eq!(result, Ok(()));
    assert_eq!(output, vec!["ab\n"]);
}

#[test]
fn false_condition_mutates_nothing() {
    let (interpreter, output, result) = run_program(
        &[
            "Definir x Como Entero",
            "Si (1 > 2) Entonces",
            "x <- 5",
            "Escribir 'dentro'",
            "FinSi",
        ],
        &[],
    );
    assert_eq!(result, Ok(()));
    assert_eq!(output, Vec::<String>::new());
    assert_eq!(
        interpreter.memory.get("x".to_string()),
        Some(&Token::Numero(Num { n: 0, d: 1 }, true))
    );
}

#[test]
fn true_condition_runs_body_against_same_store() {
    let (interpreter, output, result) = run_program(
        &[
            "Definir x Como Entero",
            "Si (2 > 1) Entonces",
            "x <- 5",
            "Escribir x",
            "FinSi",
            "Escribir x",
        ],
        &[],
    );
    assert_eq!(result, Ok(()));
    assert_eq!(output, vec!["5\n", "5\n"]);
    assert_eq!(
        interpreter.memory.get("x".to_string()),
        Some(&Token::Numero(Num { n: 5, d: 1 }, true))
    );
}

#[test]
fn boolean_comparison_decides_a_condition() {
    let (_, output, result) = run_program(
        &[
            "Definir a Como Logico",
            "Definir b Como Logico",
            "Si (a == b) Entonces",
            "Escribir 'iguales'",
            "FinSi",
        ],
        &[],
    );
    assert_eq!(result, Ok(()));
    assert_eq!(output, vec!["iguales\n"]);
}

#[test]
fn read_parses_by_declared_kind() {
    let (interpreter, output, result) = run_program(
        &["Definir x Como Entero", "Leer x", "Escribir x"],
        &["7"],
    );
    assert_eq!(result, Ok(()));
    assert_eq!(output, vec!["> ", "7\n"]);
    assert_eq!(
        interpreter.memory.get("x".to_string()),
        Some(&Token::Numero(Num { n: 7, d: 1 }, true))
    );
}

#[test]
fn read_rejects_non_numeric_input_for_integer() {
    let (_, _, result) = run_program(&["Definir x Como Entero", "Leer x"], &["siete"]);
    assert_eq!(
        result,
        Err(CodeError {
            error: PossibleErrors::WrongType
        })
    );
}

#[test]
fn read_rejects_fractional_input_for_integer() {
    let (_, _, result) = run_program(&["Definir x Como Entero", "Leer x"], &["7.5"]);
    assert_eq!(
        result,
        Err(CodeError {
            error: PossibleErrors::WrongType
        })
    );
}

#[test]
fn read_accepts_boolean_literals() {
    let (interpreter, _, result) = run_program(
        &["Definir b Como Logico", "Leer b"],
        &["VERDADERO"],
    );
    assert_eq!(result, Ok(()));
    assert_eq!(
        interpreter.memory.get("b".to_string()),
        Some(&Token::Boolean(true))
    );
}

#[test]
fn empty_assignment_is_incomplete() {
    let (_, _, result) = run_program(&["Definir x Como Entero", "x <-"], &[]);
    assert_eq!(
        result,
        Err(CodeError {
            error: PossibleErrors::IncompleteAssignment
        })
    );
}

#[test]
fn write_with_no_value_is_missing_arguments() {
    let (_, _, result) = run_program(&["Escribir"], &[]);
    assert_eq!(
        result,
        Err(CodeError {
            error: PossibleErrors::MissingArguments
        })
    );
}

#[test]
fn assignment_falls_back_to_first_raw_token() {
    // Mixing kinds makes the evaluator yield no value, so the raw first
    // token is assigned instead.
    let (interpreter, _, result) = run_program(
        &["Definir x Como Entero", "x <- 5 + 'a'"],
        &[],
    );
    assert_eq!(result, Ok(()));
    let stored = interpreter.memory.get("x".to_string()).cloned();
    assert_eq!(stored, Some(Token::Numero(Num { n: 5, d: 1 }, true)));
}

#[test]
fn whole_source_extraction_and_run() {
    let source = "Algoritmo ejemplo\nDefinir x Como Real\nx <- 10 / 4\nEscribir x\nFinAlgoritmo\n";
    let (start, end) = find_algorithm(source);
    assert_eq!((start, end), (0, 4));
    let lines: Vec<&str> = source.lines().collect();
    let body: Vec<String> = lines[start + 1..end].iter().map(|l| l.to_string()).collect();
    let mut interpreter = Interpreter::new(&body);
    let ast = build_ast(interpreter.code.clone()).unwrap();
    let mut pos: usize = 0;
    let mut output: Vec<String> = Vec::new();
    let result = interpreter.run(ast, &Vec::new(), &mut pos, &mut output);
    assert_eq!(result, Ok(()));
    assert_eq!(output, vec!["2.5\n"]);
}
