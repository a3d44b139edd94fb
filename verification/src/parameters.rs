//! Values that a strategy declares for its parameters.

use vstd::prelude::*;

use crate::number::Number;

verus! {

/// A value that came out of a strategy's own code.
#[derive(Debug, PartialEq)]
pub enum DeclaredValue<N> {
    Bool(bool),
    Int(i64),
    Float(N),
    Text(String),
    /// Something else.
    Nothing,
}

/// Value of a parameter in a run.
#[derive(Debug, Clone, Copy, PartialEq)]
pub enum ParameterValue<N> {
    Int(i64),
    Float(N),
    Bool(bool),
}

/// The value as which something counts that can be read in several ways. A
/// truth value reads as a whole number too, and a whole number as a number
/// with decimals, so the narrower reading comes first.
pub fn declared_value<N: Number>(
    as_bool: Option<bool>,
    as_int: Option<i64>,
    as_float: Option<N>,
    as_text: Option<String>,
) -> (value: DeclaredValue<N>)
    ensures
        value == match (as_bool, as_int, as_float, as_text) {
            (Some(flag), _, _, _) => DeclaredValue::Bool(flag),
            (None, Some(n), _, _) => DeclaredValue::Int(n),
            (None, None, Some(x), _) => DeclaredValue::Float(x),
            (None, None, None, Some(text)) => DeclaredValue::Text(text),
            (None, None, None, None) => DeclaredValue::Nothing,
        },
{
    if let Some(flag) = as_bool {
        DeclaredValue::Bool(flag)
    } else if let Some(n) = as_int {
        DeclaredValue::Int(n)
    } else if let Some(x) = as_float {
        DeclaredValue::Float(x)
    } else if let Some(text) = as_text {
        DeclaredValue::Text(text)
    } else {
        DeclaredValue::Nothing
    }
}

/// Value of a parameter: whole numbers stay whole, and what is neither a
/// number nor a truth value counts as zero.
pub fn parameter_value<N: Number>(value: &DeclaredValue<N>) -> (parameter: ParameterValue<N>)
    ensures
        parameter == match *value {
            DeclaredValue::Bool(flag) => ParameterValue::Bool(flag),
            DeclaredValue::Int(n) => ParameterValue::Int(n),
            DeclaredValue::Float(x) => ParameterValue::Float(x),
            _ => ParameterValue::Float(N::whole(0)),
        },
{
    match value {
        DeclaredValue::Bool(flag) => ParameterValue::Bool(*flag),
        DeclaredValue::Int(n) => ParameterValue::Int(*n),
        DeclaredValue::Float(x) => ParameterValue::Float(*x),
        DeclaredValue::Text(_) => ParameterValue::Float(N::of(0)),
        DeclaredValue::Nothing => ParameterValue::Float(N::of(0)),
    }
}

} // verus!
