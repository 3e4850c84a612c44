use pseint::lexer::{find_algorithm, Lexer};
use pseint::num::Num;
use pseint::tokens::{convert_to_keyword, convert_to_type, Keyword, Token, Type};

#[test]
fn igual() {
    let igual = Token::Igual.variant_name();
    assert_eq!(igual, "Igual".to_string());
}

#[test]
fn identificador() {
    let identificador = Token::Identificador("Definir".to_string()).variant_name();
    assert_eq!(identificador, "Identificador".to_string());
}

#[test]
fn keywords_classify_case_insensitively() {
    assert_eq!(
        convert_to_keyword("DEFINIR".to_string()),
        Token::Instruccion(Keyword::Definir)
    );
    assert_eq!(
        convert_to_keyword("escribir".to_string()),
        Token::Instruccion(Keyword::Escribir)
    );
    assert_eq!(convert_to_keyword("Verdadero".to_string()), Token::Boolean(true));
    assert_eq!(convert_to_keyword("falso".to_string()), Token::Boolean(false));
    assert_eq!(convert_to_keyword("Entero".to_string()), Token::Tipo(Type::Entero));
    assert_eq!(
        convert_to_keyword("cuenta".to_string()),
        Token::Variable("cuenta".to_string())
    );
}

#[test]
fn convert_to_type_reads_type_tokens() {
    assert_eq!(convert_to_type(&Token::Tipo(Type::Real)), Some(Type::Real));
    assert_eq!(convert_to_type(&Token::Suma), None);
}

#[test]
fn get_as_string_renders_values() {
    assert_eq!(Token::Numero(Num { n: 25, d: 1 }, true).get_as_string(), "25");
    assert_eq!(Token::Numero(Num { n: 5, d: 2 }, false).get_as_string(), "2.5");
    assert_eq!(Token::Numero(Num { n: -5, d: 2 }, false).get_as_string(), "-2.5");
    assert_eq!(Token::Cadena("hola".to_string()).get_as_string(), "hola");
    assert_eq!(Token::Boolean(true).get_as_string(), "true");
    assert_eq!(Token::Boolean(false).get_as_string(), "false");
    assert_eq!(Token::Suma.get_as_string(), "");
}

#[test]
fn lexer_fuses_sign_after_assignment() {
    let tokens = Lexer::lex("x <- -3.5");
    assert_eq!(
        tokens,
        vec![
            Token::Variable("x".to_string()),
            Token::Igual,
            Token::Numero(Num { n: -35, d: 10 }, false),
        ]
    );
}

#[test]
fn lexer_two_character_operators() {
    assert_eq!(Lexer::lex("<="), vec![Token::MenorOIgual]);
    assert_eq!(Lexer::lex(">="), vec![Token::MayorOIgual]);
    assert_eq!(Lexer::lex("=="), vec![Token::Comparacion]);
    assert_eq!(Lexer::lex("<-"), vec![Token::Igual]);
    assert_eq!(Lexer::lex("<"), vec![Token::MenorA]);
}

#[test]
fn lexer_skips_unrecognized_characters() {
    assert_eq!(
        Lexer::lex("a ! b"),
        vec![
            Token::Variable("a".to_string()),
            Token::Variable("b".to_string()),
        ]
    );
}

#[test]
fn lexer_separator_token() {
    assert_eq!(
        Lexer::lex("a, b"),
        vec![
            Token::Variable("a".to_string()),
            Token::SeparadorArgumento,
            Token::Variable("b".to_string()),
        ]
    );
}

#[test]
fn lexer_string_literals_copy_verbatim() {
    assert_eq!(
        Lexer::lex("\"ho la\""),
        vec![Token::Cadena("ho la".to_string())]
    );
    assert_eq!(Lexer::lex("'a+b'"), vec![Token::Cadena("a+b".to_string())]);
}

#[test]
fn find_algorithm_markers() {
    let source = "Algoritmo ejemplo\nEscribir 1\nFinAlgoritmo\n";
    assert_eq!(find_algorithm(source), (0, 2));
    let shifted = "comentario\nALGORITMO x\nEscribir 1\nfinalgoritmo\n";
    assert_eq!(find_algorithm(shifted), (1, 3));
    assert_eq!(find_algorithm("nada"), (0, 0));
}
