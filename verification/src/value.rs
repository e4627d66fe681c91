//! Script-visible values.
//!
//! A value is either a primitive, an interned-string handle, or a handle to
//! an object held by the `Context` that produced it.  Handles are plain
//! indices, so values are freely copiable and two values are equal exactly
//! when they denote the same primitive or the same underlying record.

use vstd::prelude::*;

verus! {

/// A dynamically typed value as seen by scripts.
#[derive(Clone, Copy, PartialEq, Eq, Structural, Debug)]
pub enum Value {
    Undefined,
    Null,
    Bool(bool),
    Int(i32),
    /// Handle into the context's interned-string table.
    String(usize),
    /// Handle into the context's object arena.
    Object(usize),
}

impl Value {
    /// The object handle, if this value is an object.
    pub fn as_object(&self) -> (r: Option<usize>)
        ensures
            r == (match *self {
                Value::Object(o) => Some(o),
                _ => None,
            }),
    {
        match *self {
            Value::Object(o) => Some(o),
            _ => None,
        }
    }
}

} // verus!
