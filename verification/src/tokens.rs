//! Lexical tokens, the keyword and type tables, and the classifier that
//! turns an alphanumeric run into a keyword, type, boolean literal or
//! variable reference.

use crate::num::{num_text, num_wf, spec_num_text, Num};
use vstd::prelude::*;

verus! {

/// Reserved keywords of the language.
#[derive(Default, Debug, PartialEq, Eq, Structural, Clone, Copy)]
pub enum Keyword {
    #[default]
    Ninguno,
    Algoritmo,
    FinAlgoritmo,
    Entonces,
    Escribir,
    Leer,
    Como,
    Definir,
    Si,
    FinSi,
}

/// Declarable types; a cell's declared type fixes its zero value.
#[derive(Default, Debug, PartialEq, Eq, Structural, Clone, Copy)]
pub enum Type {
    #[default]
    Ninguno,
    Caracter,
    Real,
    Logico,
    Entero,
}

/// One lexical token. A numeric literal carries its exact rational value and
/// an "is integer" flag; runs of letters resolve to keywords, types, boolean
/// literals or variable references.
#[derive(Debug, PartialEq, Clone)]
pub enum Token {
    Y,
    O,
    Igual,
    Diferente,
    Comparacion,
    MenorA,
    MenorOIgual,
    MayorA,
    MayorOIgual,
    Suma,
    SeparadorArgumento,
    Resta,
    Multiplicacion,
    Division,
    Numero(Num, bool),
    Cadena(String),
    Boolean(bool),
    Identificador(String),
    Variable(String),
    Tipo(Type),
    Instruccion(Keyword),
    AbrirParentesis,
    CerrarParentesis,
}

/// Mathematical image of a token: text fields become character sequences.
pub enum TokenS {
    Y,
    O,
    Igual,
    Diferente,
    Comparacion,
    MenorA,
    MenorOIgual,
    MayorA,
    MayorOIgual,
    Suma,
    SeparadorArgumento,
    Resta,
    Multiplicacion,
    Division,
    Numero(Num, bool),
    Cadena(Seq<char>),
    Boolean(bool),
    Identificador(Seq<char>),
    Variable(Seq<char>),
    Tipo(Type),
    Instruccion(Keyword),
    AbrirParentesis,
    CerrarParentesis,
}

impl View for Token {
    type V = TokenS;

    open spec fn view(&self) -> TokenS {
        match self {
            Token::Y => TokenS::Y,
            Token::O => TokenS::O,
            Token::Igual => TokenS::Igual,
            Token::Diferente => TokenS::Diferente,
            Token::Comparacion => TokenS::Comparacion,
            Token::MenorA => TokenS::MenorA,
            Token::MenorOIgual => TokenS::MenorOIgual,
            Token::MayorA => TokenS::MayorA,
            Token::MayorOIgual => TokenS::MayorOIgual,
            Token::Suma => TokenS::Suma,
            Token::SeparadorArgumento => TokenS::SeparadorArgumento,
            Token::Resta => TokenS::Resta,
            Token::Multiplicacion => TokenS::Multiplicacion,
            Token::Division => TokenS::Division,
            Token::Numero(v, e) => TokenS::Numero(*v, *e),
            Token::Cadena(s) => TokenS::Cadena(s@),
            Token::Boolean(b) => TokenS::Boolean(*b),
            Token::Identificador(s) => TokenS::Identificador(s@),
            Token::Variable(s) => TokenS::Variable(s@),
            Token::Tipo(t) => TokenS::Tipo(*t),
            Token::Instruccion(k) => TokenS::Instruccion(*k),
            Token::AbrirParentesis => TokenS::AbrirParentesis,
            Token::CerrarParentesis => TokenS::CerrarParentesis,
        }
    }
}

impl DeepView for Token {
    type V = TokenS;

    open spec fn deep_view(&self) -> TokenS {
        self@
    }
}

/// A well-formed token: any numeric literal it carries is well-formed.
pub open spec fn spec_token_wf(t: TokenS) -> bool {
    match t {
        TokenS::Numero(v, _) => num_wf(v),
        _ => true,
    }
}

/// All tokens of a sequence are well-formed.
pub open spec fn spec_tokens_wf(ts: Seq<TokenS>) -> bool {
    forall|i: int| 0 <= i < ts.len() ==> spec_token_wf(#[trigger] ts[i])
}

/// Discriminant of a token's variant; two tokens are of the same kind
/// exactly when these agree.
pub open spec fn spec_kind_id(t: TokenS) -> int {
    match t {
        TokenS::Y => 0,
        TokenS::O => 1,
        TokenS::Igual => 2,
        TokenS::Diferente => 3,
        TokenS::Comparacion => 4,
        TokenS::MenorA => 5,
        TokenS::MenorOIgual => 6,
        TokenS::MayorA => 7,
        TokenS::MayorOIgual => 8,
        TokenS::Suma => 9,
        TokenS::SeparadorArgumento => 10,
        TokenS::Resta => 11,
        TokenS::Multiplicacion => 12,
        TokenS::Division => 13,
        TokenS::Numero(..) => 14,
        TokenS::Cadena(..) => 15,
        TokenS::Boolean(..) => 16,
        TokenS::Identificador(..) => 17,
        TokenS::Variable(..) => 18,
        TokenS::Tipo(..) => 19,
        TokenS::Instruccion(..) => 20,
        TokenS::AbrirParentesis => 21,
        TokenS::CerrarParentesis => 22,
    }
}

/// Whether two tokens carry the same variant (the "kind discriminant" the
/// store's type check compares).
pub fn same_variant(a: &Token, b: &Token) -> (r: bool)
    ensures
        r == (spec_kind_id(a@) == spec_kind_id(b@)),
{
    match (a, b) {
        (Token::Y, Token::Y) => true,
        (Token::O, Token::O) => true,
        (Token::Igual, Token::Igual) => true,
        (Token::Diferente, Token::Diferente) => true,
        (Token::Comparacion, Token::Comparacion) => true,
        (Token::MenorA, Token::MenorA) => true,
        (Token::MenorOIgual, Token::MenorOIgual) => true,
        (Token::MayorA, Token::MayorA) => true,
        (Token::MayorOIgual, Token::MayorOIgual) => true,
        (Token::Suma, Token::Suma) => true,
        (Token::SeparadorArgumento, Token::SeparadorArgumento) => true,
        (Token::Resta, Token::Resta) => true,
        (Token::Multiplicacion, Token::Multiplicacion) => true,
        (Token::Division, Token::Division) => true,
        (Token::Numero(..), Token::Numero(..)) => true,
        (Token::Cadena(..), Token::Cadena(..)) => true,
        (Token::Boolean(..), Token::Boolean(..)) => true,
        (Token::Identificador(..), Token::Identificador(..)) => true,
        (Token::Variable(..), Token::Variable(..)) => true,
        (Token::Tipo(..), Token::Tipo(..)) => true,
        (Token::Instruccion(..), Token::Instruccion(..)) => true,
        (Token::AbrirParentesis, Token::AbrirParentesis) => true,
        (Token::CerrarParentesis, Token::CerrarParentesis) => true,
        _ => false,
    }
}

/// ASCII lower-casing of one character.
pub open spec fn spec_lower_char(c: char) -> char {
    if 65 <= c as u32 && c as u32 <= 90 {
        (((c as u8) + 32) as u8) as char
    } else {
        c
    }
}

/// ASCII lower-casing of a character sequence.
pub open spec fn spec_lower(s: Seq<char>) -> Seq<char> {
    s.map_values(|c: char| spec_lower_char(c))
}

/// Case-insensitive equality of two character sequences.
pub open spec fn spec_ci_eq(a: Seq<char>, b: Seq<char>) -> bool {
    spec_lower(a) == spec_lower(b)
}

/// ASCII lower-casing of one character.
pub(crate) fn lower_char(c: char) -> (r: char)
    ensures
        r == spec_lower_char(c),
{
    let u = c as u32;
    if 65 <= u && u <= 90 {
        ((c as u8) + 32) as char
    } else {
        c
    }
}

/// Case-insensitive comparison of two strings.
pub(crate) fn str_ci_eq(a: &str, b: &str) -> (r: bool)
    ensures
        r == spec_ci_eq(a@, b@),
{
    let alen = a.unicode_len();
    let blen = b.unicode_len();
    if alen != blen {
        proof {
            assert(spec_lower(a@).len() == a@.len());
            assert(spec_lower(b@).len() == b@.len());
        }
        return false;
    }
    let mut i: usize = 0;
    while i < alen
        invariant
            i <= alen,
            alen == a@.len(),
            alen == b@.len(),
            forall|j: int| 0 <= j < i ==> spec_lower_char(a@[j]) == spec_lower_char(b@[j]),
        decreases alen - i,
    {
        let ca = a.get_char(i);
        let cb = b.get_char(i);
        if lower_char(ca) != lower_char(cb) {
            proof {
                assert(spec_lower(a@)[i as int] != spec_lower(b@)[i as int]);
            }
            return false;
        }
        i = i + 1;
    }
    proof {
        assert(spec_lower(a@) =~= spec_lower(b@));
    }
    true
}

/// What an alphanumeric run means: a boolean literal, a logical operator, a
/// keyword or type name matched case-insensitively, or otherwise a variable
/// reference keeping its original spelling.
pub open spec fn spec_classify(text: Seq<char>) -> TokenS {
    if spec_ci_eq(text, "verdadero"@) {
        TokenS::Boolean(true)
    } else if spec_ci_eq(text, "falso"@) {
        TokenS::Boolean(false)
    } else if spec_ci_eq(text, "y"@) {
        TokenS::Y
    } else if spec_ci_eq(text, "o"@) {
        TokenS::O
    } else if spec_ci_eq(text, "none"@) {
        TokenS::Instruccion(Keyword::Ninguno)
    } else if spec_ci_eq(text, "algoritmo"@) {
        TokenS::Instruccion(Keyword::Algoritmo)
    } else if spec_ci_eq(text, "finalgoritmo"@) {
        TokenS::Instruccion(Keyword::FinAlgoritmo)
    } else if spec_ci_eq(text, "entonces"@) {
        TokenS::Instruccion(Keyword::Entonces)
    } else if spec_ci_eq(text, "escribir"@) {
        TokenS::Instruccion(Keyword::Escribir)
    } else if spec_ci_eq(text, "leer"@) {
        TokenS::Instruccion(Keyword::Leer)
    } else if spec_ci_eq(text, "como"@) {
        TokenS::Instruccion(Keyword::Como)
    } else if spec_ci_eq(text, "definir"@) {
        TokenS::Instruccion(Keyword::Definir)
    } else if spec_ci_eq(text, "si"@) {
        TokenS::Instruccion(Keyword::Si)
    } else if spec_ci_eq(text, "finsi"@) {
        TokenS::Instruccion(Keyword::FinSi)
    } else if spec_ci_eq(text, "caracter"@) {
        TokenS::Tipo(Type::Caracter)
    } else if spec_ci_eq(text, "real"@) {
        TokenS::Tipo(Type::Real)
    } else if spec_ci_eq(text, "logico"@) {
        TokenS::Tipo(Type::Logico)
    } else if spec_ci_eq(text, "entero"@) {
        TokenS::Tipo(Type::Entero)
    } else {
        TokenS::Variable(text)
    }
}

/// Converts an alphanumeric run to a keyword, type, boolean or logical
/// operator token if it matches one case-insensitively, and otherwise to a
/// variable reference.
pub fn convert_to_keyword(text: String) -> (r: Token)
    ensures
        r@ == spec_classify(text@),
{
    if str_ci_eq(text.as_str(), "verdadero") {
        Token::Boolean(true)
    } else if str_ci_eq(text.as_str(), "falso") {
        Token::Boolean(false)
    } else if str_ci_eq(text.as_str(), "y") {
        Token::Y
    } else if str_ci_eq(text.as_str(), "o") {
        Token::O
    } else if str_ci_eq(text.as_str(), "none") {
        Token::Instruccion(Keyword::Ninguno)
    } else if str_ci_eq(text.as_str(), "algoritmo") {
        Token::Instruccion(Keyword::Algoritmo)
    } else if str_ci_eq(text.as_str(), "finalgoritmo") {
        Token::Instruccion(Keyword::FinAlgoritmo)
    } else if str_ci_eq(text.as_str(), "entonces") {
        Token::Instruccion(Keyword::Entonces)
    } else if str_ci_eq(text.as_str(), "escribir") {
        Token::Instruccion(Keyword::Escribir)
    } else if str_ci_eq(text.as_str(), "leer") {
        Token::Instruccion(Keyword::Leer)
    } else if str_ci_eq(text.as_str(), "como") {
        Token::Instruccion(Keyword::Como)
    } else if str_ci_eq(text.as_str(), "definir") {
        Token::Instruccion(Keyword::Definir)
    } else if str_ci_eq(text.as_str(), "si") {
        Token::Instruccion(Keyword::Si)
    } else if str_ci_eq(text.as_str(), "finsi") {
        Token::Instruccion(Keyword::FinSi)
    } else if str_ci_eq(text.as_str(), "caracter") {
        Token::Tipo(Type::Caracter)
    } else if str_ci_eq(text.as_str(), "real") {
        Token::Tipo(Type::Real)
    } else if str_ci_eq(text.as_str(), "logico") {
        Token::Tipo(Type::Logico)
    } else if str_ci_eq(text.as_str(), "entero") {
        Token::Tipo(Type::Entero)
    } else {
        Token::Variable(text)
    }
}

/// The declared type a token names, if it is a type token.
pub fn convert_to_type(token: &Token) -> (r: Option<Type>)
    ensures
        r == (match token@ {
            TokenS::Tipo(t) => Some(t),
            _ => Option::<Type>::None,
        }),
{
    match token {
        Token::Tipo(val) => Some(*val),
        _ => None,
    }
}

/// Textual form of a value-carrying token; every other token renders as the
/// empty string.
pub open spec fn spec_token_text(t: TokenS) -> Seq<char> {
    match t {
        TokenS::Numero(v, entero) => spec_num_text(v, entero),
        TokenS::Cadena(s) => s,
        TokenS::Boolean(b) => if b {
            "true"@
        } else {
            "false"@
        },
        _ => Seq::empty(),
    }
}

impl Token {
    /// Renders a value-carrying token as text; other tokens give an empty
    /// string.
    pub fn get_as_string(self) -> (r: String)
        requires
            spec_token_wf(self@),
        ensures
            r@ == spec_token_text(self@),
    {
        match self {
            Token::Numero(num, entero) => num_text(num, entero),
            Token::Cadena(s) => s,
            Token::Boolean(b) => if b {
                String::from_str("true")
            } else {
                String::from_str("false")
            },
            _ => String::new(),
        }
    }
}

/// The name of a token's variant.
pub open spec fn spec_variant_name(t: TokenS) -> Seq<char> {
    match t {
        TokenS::Y => "Y"@,
        TokenS::O => "O"@,
        TokenS::Igual => "Igual"@,
        TokenS::Diferente => "Diferente"@,
        TokenS::Comparacion => "Comparacion"@,
        TokenS::MenorA => "MenorA"@,
        TokenS::MenorOIgual => "MenorOIgual"@,
        TokenS::MayorA => "MayorA"@,
        TokenS::MayorOIgual => "MayorOIgual"@,
        TokenS::Suma => "Suma"@,
        TokenS::SeparadorArgumento => "SeparadorArgumento"@,
        TokenS::Resta => "Resta"@,
        TokenS::Multiplicacion => "Multiplicacion"@,
        TokenS::Division => "Division"@,
        TokenS::Numero(..) => "Numero"@,
        TokenS::Cadena(..) => "Cadena"@,
        TokenS::Boolean(..) => "Boolean"@,
        TokenS::Identificador(..) => "Identificador"@,
        TokenS::Variable(..) => "Variable"@,
        TokenS::Tipo(..) => "Tipo"@,
        TokenS::Instruccion(..) => "Instruccion"@,
        TokenS::AbrirParentesis => "AbrirParentesis"@,
        TokenS::CerrarParentesis => "CerrarParentesis"@,
    }
}

impl Token {
    /// The name of this token's variant, as the debugging form prints it.
    pub fn variant_name(&self) -> (r: String)
        ensures
            r@ == spec_variant_name(self@),
    {
        match self {
            Token::Y => String::from_str("Y"),
            Token::O => String::from_str("O"),
            Token::Igual => String::from_str("Igual"),
            Token::Diferente => String::from_str("Diferente"),
            Token::Comparacion => String::from_str("Comparacion"),
            Token::MenorA => String::from_str("MenorA"),
            Token::MenorOIgual => String::from_str("MenorOIgual"),
            Token::MayorA => String::from_str("MayorA"),
            Token::MayorOIgual => String::from_str("MayorOIgual"),
            Token::Suma => String::from_str("Suma"),
            Token::SeparadorArgumento => String::from_str("SeparadorArgumento"),
            Token::Resta => String::from_str("Resta"),
            Token::Multiplicacion => String::from_str("Multiplicacion"),
            Token::Division => String::from_str("Division"),
            Token::Numero(..) => String::from_str("Numero"),
            Token::Cadena(..) => String::from_str("Cadena"),
            Token::Boolean(..) => String::from_str("Boolean"),
            Token::Identificador(..) => String::from_str("Identificador"),
            Token::Variable(..) => String::from_str("Variable"),
            Token::Tipo(..) => String::from_str("Tipo"),
            Token::Instruccion(..) => String::from_str("Instruccion"),
            Token::AbrirParentesis => String::from_str("AbrirParentesis"),
            Token::CerrarParentesis => String::from_str("CerrarParentesis"),
        }
    }
}

} // verus!
