use crate::common::Ident;
use crate::typer::structure::{BlockIdent, Typ};
use vstd::prelude::*;

verus! {

#[derive(Debug, Clone, Copy, PartialEq, Eq, Structural)]
pub struct DuplicateFieldName {
    pub struct_name: Ident,
    pub field_name: Ident,
}

#[derive(Debug, Clone, Copy, PartialEq, Eq, Structural)]
pub struct IncompatibleTyp {
    pub expected: Typ,
    pub actual: Typ,
}

#[derive(Debug, Clone, Copy, PartialEq, Eq, Structural)]
pub struct DuplicateArgName {
    pub arg_name: BlockIdent,
}

/// What is wrong with a program. A name that is in the name table is
/// given; one that is not declared anywhere has no entry there and is not.
#[derive(Debug, Clone, Copy, PartialEq, Eq, Structural)]
pub enum TypError {
    VariableDoesNotExist,
    StructDoesNotExist,
    DuplicateVarName(Ident),
    DuplicateFunName(Ident),
    DuplicateStructName(Ident),
    DereferenceNonStructPointer,
    /// The struct of the given name has no field of the name asked for.
    FieldDoesntExist(Ident),
    AccessingFieldOnNonStructTyp(Typ),
    DuplicateFieldName(DuplicateFieldName),
    FunctionDoesntExist,
    MissingMainFunction,
    WrongMainFunctionSignature,
    TooManyArguments,
    TooFewArguments,
    CallingANonFunctionExpression,
    AssigningToNonAssignableExpression,
    WrongExpressionTyp(IncompatibleTyp),
    DuplicateArgName(Ident),
    /// More names, fields or blocks than their ordinals can count.
    TooMany,
}

impl DuplicateFieldName {
    pub fn new(struct_name: Ident, field_name: Ident) -> (r: DuplicateFieldName)
        ensures
            r == (DuplicateFieldName { struct_name, field_name }),
    {
        DuplicateFieldName { struct_name, field_name }
    }
}

impl IncompatibleTyp {
    pub fn new(expected: Typ, actual: Typ) -> (r: IncompatibleTyp)
        ensures
            r == (IncompatibleTyp { expected, actual }),
    {
        IncompatibleTyp { expected, actual }
    }
}

impl DuplicateArgName {
    pub fn new(arg_name: BlockIdent) -> (r: DuplicateArgName)
        ensures
            r == (DuplicateArgName { arg_name }),
    {
        DuplicateArgName { arg_name }
    }
}

} // verus!
