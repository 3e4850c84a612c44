use pseint::run::{escribir_type, replace_variables, Variable, VariableContent};

fn var(name: &str, content: VariableContent) -> Variable {
    Variable {
        variable_name: name.to_string(),
        content: Some(content),
    }
}

#[test]
fn replace_substitutes_known_names() {
    let vars = vec![var("x", VariableContent::Text("X".to_string()))];
    let out = replace_variables("\"a\", x, b".to_string(), vars);
    assert_eq!(out, "aX b");
}

#[test]
fn replace_renders_numbers_and_booleans() {
    let vars = vec![
        var("n", VariableContent::Int(-7)),
        var("b", VariableContent::Bool(true)),
    ];
    let out = replace_variables("n, b".to_string(), vars);
    assert_eq!(out, "-7true");
}

#[test]
fn replace_keeps_unmatched_pieces() {
    let out = replace_variables("hola, mundo".to_string(), Vec::new());
    assert_eq!(out, "hola mundo");
}

#[test]
fn last_matching_variable_wins() {
    let vars = vec![
        var("x", VariableContent::Int(1)),
        var("x", VariableContent::Int(2)),
    ];
    let out = replace_variables("x".to_string(), vars);
    assert_eq!(out, "2");
}

#[test]
fn escribir_appends_newline() {
    let input = vec!["\"hola\", x;".to_string()];
    let vars = vec![var("x", VariableContent::Int(3))];
    assert_eq!(escribir_type(&input, vars), "hola3\n");
}

#[test]
fn escribir_sin_saltar_suppresses_newline() {
    let input = vec!["hola sin saltar".to_string()];
    assert_eq!(escribir_type(&input, Vec::new()), "hola");
}

#[test]
fn escribir_sin_saltar_is_case_insensitive() {
    let input = vec!["hola SIN SALTAR;".to_string()];
    assert_eq!(escribir_type(&input, Vec::new()), "hola");
}
