//! Error values surfaced by the interpreter: one distinguishable value per
//! failure kind, carrying the offending variable name where applicable.

use vstd::prelude::*;

verus! {

/// Every failure kind the interpreter can report.
#[derive(Debug, Clone, PartialEq, Eq)]
pub enum PossibleErrors {
    MissingArguments,
    MissingTypeOrUnvalidType,
    WrongType,
    SyntaxError,
    InvalidInstruction,
    IncompleteAssignment,
    VariableNotFound(String),
    MissingOperandBefore(String),
    MissingOperandAfter(String),
}

/// Spec-level mirror of `PossibleErrors`, with the carried name as a
/// character sequence.
pub enum ErrorKind {
    MissingArguments,
    MissingTypeOrUnvalidType,
    WrongType,
    SyntaxError,
    InvalidInstruction,
    IncompleteAssignment,
    VariableNotFound(Seq<char>),
    MissingOperandBefore(Seq<char>),
    MissingOperandAfter(Seq<char>),
}

impl View for PossibleErrors {
    type V = ErrorKind;

    open spec fn view(&self) -> ErrorKind {
        match self {
            PossibleErrors::MissingArguments => ErrorKind::MissingArguments,
            PossibleErrors::MissingTypeOrUnvalidType => ErrorKind::MissingTypeOrUnvalidType,
            PossibleErrors::WrongType => ErrorKind::WrongType,
            PossibleErrors::SyntaxError => ErrorKind::SyntaxError,
            PossibleErrors::InvalidInstruction => ErrorKind::InvalidInstruction,
            PossibleErrors::IncompleteAssignment => ErrorKind::IncompleteAssignment,
            PossibleErrors::VariableNotFound(name) => ErrorKind::VariableNotFound(name@),
            PossibleErrors::MissingOperandBefore(op) => ErrorKind::MissingOperandBefore(op@),
            PossibleErrors::MissingOperandAfter(op) => ErrorKind::MissingOperandAfter(op@),
        }
    }
}

/// A fatal error value: execution halts on the first one produced.
#[derive(Debug, Clone, PartialEq, Eq)]
pub struct CodeError {
    pub error: PossibleErrors,
}

impl View for CodeError {
    type V = ErrorKind;

    open spec fn view(&self) -> ErrorKind {
        self.error@
    }
}

/// The rendered message for each error kind that carries no name.
pub open spec fn spec_error_message(e: ErrorKind) -> Seq<char> {
    match e {
        ErrorKind::MissingArguments => "ERROR 53: Faltan parámetros."@,
        ErrorKind::WrongType => "ERROR 125: No coinciden los tipos."@,
        ErrorKind::MissingTypeOrUnvalidType => "ERROR 46: Falta tipo de dato o tipo no válido."@,
        ErrorKind::SyntaxError => "ERROR -1: Error de sintaxis."@,
        ErrorKind::InvalidInstruction => "ERROR 106: Instrucción no válida."@,
        ErrorKind::IncompleteAssignment => "ERROR 89: Asignación incompleta."@,
        ErrorKind::VariableNotFound(name) => "ERROR 215: Variable no inicializada ("@ + name
            + ")"@,
        ErrorKind::MissingOperandBefore(op) => "ERROR 234: Falta operando (antes de "@ + op
            + ")."@,
        ErrorKind::MissingOperandAfter(op) => "ERROR 224: Falta operando (despues de "@ + op
            + ")."@,
    }
}

impl CodeError {
    /// The human-readable rendering of this error.
    pub fn message(&self) -> (r: String)
        ensures
            r@ == spec_error_message(self@),
    {
        match &self.error {
            PossibleErrors::MissingArguments => String::from_str("ERROR 53: Faltan parámetros."),
            PossibleErrors::WrongType => String::from_str("ERROR 125: No coinciden los tipos."),
            PossibleErrors::MissingTypeOrUnvalidType => String::from_str(
                "ERROR 46: Falta tipo de dato o tipo no válido.",
            ),
            PossibleErrors::SyntaxError => String::from_str("ERROR -1: Error de sintaxis."),
            PossibleErrors::InvalidInstruction => String::from_str(
                "ERROR 106: Instrucción no válida.",
            ),
            PossibleErrors::IncompleteAssignment => String::from_str(
                "ERROR 89: Asignación incompleta.",
            ),
            PossibleErrors::VariableNotFound(name) => {
                let mut s = String::from_str("ERROR 215: Variable no inicializada (");
                s.append(name.as_str());
                s.append(")");
                s
            },
            PossibleErrors::MissingOperandBefore(op) => {
                let mut s = String::from_str("ERROR 234: Falta operando (antes de ");
                s.append(op.as_str());
                s.append(").");
                s
            },
            PossibleErrors::MissingOperandAfter(op) => {
                let mut s = String::from_str("ERROR 224: Falta operando (despues de ");
                s.append(op.as_str());
                s.append(").");
                s
            },
        }
    }
}

} // verus!
