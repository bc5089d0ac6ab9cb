//! Small pieces of the JSON Schema object model: instance types, the
//! one-or-many shape, and the emptiness rules used when a schema object is
//! written back out.

use vstd::prelude::*;

verus! {

/// The JSON Schema instance types.
#[derive(Debug, Clone, Copy, PartialEq, Eq, Structural)]
pub enum InstanceType {
    Null,
    Boolean,
    Object,
    Array,
    Number,
    String,
    Integer,
}

impl InstanceType {
    /// The type's keyword, as a schema spells it.
    pub fn keyword(&self) -> (r: &'static str)
        ensures
            r@ == instance_type_keyword(*self),
    {
        match self {
            InstanceType::Null => "null",
            InstanceType::Boolean => "boolean",
            InstanceType::Object => "object",
            InstanceType::Array => "array",
            InstanceType::Number => "number",
            InstanceType::String => "string",
            InstanceType::Integer => "integer",
        }
    }
}

/// The keyword of an instance type.
pub open spec fn instance_type_keyword(t: InstanceType) -> Seq<char> {
    match t {
        InstanceType::Null => "null"@,
        InstanceType::Boolean => "boolean"@,
        InstanceType::Object => "object"@,
        InstanceType::Array => "array"@,
        InstanceType::Number => "number"@,
        InstanceType::String => "string"@,
        InstanceType::Integer => "integer"@,
    }
}

/// One value or a list of them, as schemas allow for `type` and `items`.
#[derive(Debug)]
pub enum SingleOrVec<T> {
    Single(Box<T>),
    Vec(Vec<T>),
}

/// Whether a flag is unset, so it is left out when written.
pub fn is_false(value: &bool) -> (r: bool)
    ensures
        r == !*value,
{
    !*value
}

/// Whether an optional list is absent or empty, so it is left out when
/// written.
pub fn option_vec_is_none_or_empty<T>(value: &Option<Vec<T>>) -> (r: bool)
    ensures
        r == match value {
            Some(inner) => inner@.len() == 0,
            None => true,
        },
{
    match value {
        Some(inner) => inner.len() == 0,
        None => true,
    }
}

/// An empty list read as absent.
pub fn empty_vec_to_none<T>(value: Option<Vec<T>>) -> (r: Option<Vec<T>>)
    ensures
        match value {
            Some(inner) => if inner@.len() == 0 { r is None } else { r == Some(inner) },
            None => r is None,
        },
{
    match value {
        Some(inner) => {
            if inner.len() == 0 {
                None
            } else {
                Some(inner)
            }
        },
        None => None,
    }
}

} // verus!
