use pseint::utils::{handle_functions, Function};

fn lines(src: &[&str]) -> Vec<String> {
    src.iter().map(|l| l.to_string()).collect()
}

#[test]
fn handle_functions_collects_blocks() {
    let listing = lines(&[
        "Funcion r <- Sumar(a, b)",
        "r <- a + b",
        "FinFuncion",
        "Escribir 1",
    ]);
    let found = handle_functions(&listing);
    assert_eq!(
        found,
        vec![Function {
            name: "Sumar".to_string(),
            parameters: vec!["a".to_string(), "b".to_string()],
            body: lines(&["Funcion r <- Sumar(a, b)", "r <- a + b", "FinFuncion"]),
            start: 0,
            end: 2,
        }]
    );
}

#[test]
fn handle_functions_without_closing_line_yields_nothing() {
    let listing = lines(&["Funcion r <- Sumar(a, b)", "r <- a + b"]);
    assert_eq!(handle_functions(&listing), Vec::<Function>::new());
}

#[test]
fn handle_functions_ignores_other_lines() {
    let listing = lines(&["Escribir 1", "x <- 2"]);
    assert_eq!(handle_functions(&listing), Vec::<Function>::new());
}
