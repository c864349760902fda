//! The parsed document: a YAML value tree.

use vstd::prelude::*;

verus! {

/// A YAML value. Mapping entries keep the order of the document.
pub enum Value {
    Null,
    Bool(bool),
    /// A number, held as its text (`1`, `-7`, `2.5`, `.inf`).
    Number(String),
    String(String),
    Sequence(Vec<Value>),
    Mapping(Vec<(Value, Value)>),
    /// A tagged value: the tag as written, with its leading `!`, and the value.
    Tagged(String, Box<Value>),
}

/// The string that a mapping key stands for: a string, or a string under any
/// number of tags. Other keys have none.
pub open spec fn key_text(k: Value) -> Option<Seq<char>>
    decreases k,
{
    match k {
        Value::String(s) => Some(s@),
        Value::Tagged(_, inner) => key_text(*inner),
        _ => None,
    }
}

impl Value {
    /// The string this value stands for as a mapping key, if any.
    pub fn as_str(&self) -> (r: Option<&str>)
        ensures
            r.is_some() == key_text(*self).is_some(),
            r.is_some() ==> r.unwrap()@ == key_text(*self).unwrap(),
        decreases *self,
    {
        match self {
            Value::String(s) => Some(s.as_str()),
            Value::Tagged(_, inner) => inner.as_str(),
            _ => None,
        }
    }
}

} // verus!
