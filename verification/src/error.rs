//! Errors of the library.

use vstd::prelude::*;

use crate::text::concat;

verus! {

/// Errors of the library and of the `cteepbd` program.
#[derive(Debug, Clone, PartialEq, Eq)]
pub enum EpbdError {
    /// A value could not be interpreted.
    ParseError(String),
    /// A wrong input value (format or range).
    WrongInput(String),
    /// A weighting factor is missing.
    MissingFactor(String),
}

impl EpbdError {
    /// The text that describes this error, with its detail.
    pub open spec fn spec_message(&self) -> Seq<char> {
        match self {
            EpbdError::ParseError(v) => "No se ha podido interpretar "@ + v@,
            EpbdError::WrongInput(v) => "Valor de entrada incorrecto: "@ + v@,
            EpbdError::MissingFactor(v) => "Factor de paso no encontrado: "@ + v@,
        }
    }

    /// The text that describes this error, with its detail.
    pub fn message(&self) -> (r: String)
        ensures
            r@ == self.spec_message(),
    {
        match self {
            EpbdError::ParseError(v) => concat("No se ha podido interpretar ", v.as_str()),
            EpbdError::WrongInput(v) => concat("Valor de entrada incorrecto: ", v.as_str()),
            EpbdError::MissingFactor(v) => concat("Factor de paso no encontrado: ", v.as_str()),
        }
    }
}

/// Whether `r` is a `ParseError` with the detail `m`.
pub open spec fn is_parse_error<T>(r: Result<T, EpbdError>, m: Seq<char>) -> bool {
    match r {
        Err(EpbdError::ParseError(x)) => x@ == m,
        _ => false,
    }
}

} // verus!
