use vstd::prelude::*;

verus! {

/// The kinds of error the evaluator can report.
///
/// `UndefinedFunction` covers both a function that is not in the function
/// table and an identifier that is not bound in the topmost frame.
/// `VariableNotDefined` carries the name bytes of a comparison operand that is
/// absent from every frame.  `DivisionByZero`, `NumberOverflow` and
/// `NumberUnderflow` are reserved for arithmetic-safety checks.  `Generic`
/// carries a message for structural violations (wrong node shape, wrong
/// argument count, redefinition, type mismatches, malformed returns).
#[derive(Debug, PartialEq)]
pub enum AsaErrorKind {
    UndefinedFunction,
    VariableNotDefined(Vec<u8>),
    DivisionByZero,
    NumberOverflow,
    NumberUnderflow,
    Generic(String),
}

/// Mathematical image of an [`AsaErrorKind`].
pub enum AsaErrorV {
    UndefinedFunction,
    VariableNotDefined(Seq<u8>),
    DivisionByZero,
    NumberOverflow,
    NumberUnderflow,
    Generic(Seq<char>),
}

impl View for AsaErrorKind {
    type V = AsaErrorV;

    open spec fn view(&self) -> AsaErrorV {
        match self {
            AsaErrorKind::UndefinedFunction => AsaErrorV::UndefinedFunction,
            AsaErrorKind::VariableNotDefined(name) => AsaErrorV::VariableNotDefined(name@),
            AsaErrorKind::DivisionByZero => AsaErrorV::DivisionByZero,
            AsaErrorKind::NumberOverflow => AsaErrorV::NumberOverflow,
            AsaErrorKind::NumberUnderflow => AsaErrorV::NumberUnderflow,
            AsaErrorKind::Generic(msg) => AsaErrorV::Generic(msg@),
        }
    }
}

} // verus!
