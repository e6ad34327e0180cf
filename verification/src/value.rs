//! The values that a slot can hold.
//!
//! A slot is type-erased from the point of view of its owner: it holds a
//! [`Value`], a tagged union over the kinds of data that can be retained. The
//! tag is the [`Kind`]; it is what stays fixed for the life of a slot.

use vstd::prelude::*;
use vstd::std_specs::cmp::PartialEqSpecImpl;

verus! {

/// The kind of a value. Two values may share a slot only if their kinds agree.
#[derive(Clone, Copy, Debug, PartialEq, Eq, Structural)]
pub enum Kind {
    /// A truth value.
    Bool,
    /// A signed whole number.
    Int,
    /// A real number.
    Real,
    /// A piece of text.
    Text,
}

/// What a [`Value`] holds, as a mathematical object.
pub enum Content {
    /// A truth value.
    Bool(bool),
    /// A signed whole number.
    Int(i64),
    /// A real number, given by the bits of its double-precision encoding.
    Real(u64),
    /// A piece of text, character by character.
    Text(Seq<char>),
}

impl Content {
    /// The kind of this content.
    pub open spec fn kind(self) -> Kind {
        match self {
            Content::Bool(_) => Kind::Bool,
            Content::Int(_) => Kind::Int,
            Content::Real(_) => Kind::Real,
            Content::Text(_) => Kind::Text,
        }
    }
}

/// One retained value.
#[derive(Debug)]
pub enum Value {
    /// A truth value.
    Bool(bool),
    /// A signed whole number.
    Int(i64),
    /// A real number, held as the bits of its double-precision encoding.
    Real(u64),
    /// A piece of text.
    Text(String),
}

impl View for Value {
    type V = Content;

    open spec fn view(&self) -> Content {
        match self {
            Value::Bool(b) => Content::Bool(*b),
            Value::Int(n) => Content::Int(*n),
            Value::Real(bits) => Content::Real(*bits),
            Value::Text(s) => Content::Text(s@),
        }
    }
}

impl PartialEq for Value {
    /// Two values are equal when they are of one kind and hold the same.
    fn eq(&self, other: &Value) -> (r: bool) {
        match (self, other) {
            (Value::Bool(a), Value::Bool(b)) => *a == *b,
            (Value::Int(a), Value::Int(b)) => *a == *b,
            (Value::Real(a), Value::Real(b)) => *a == *b,
            (Value::Text(a), Value::Text(b)) => *a == *b,
            _ => false,
        }
    }
}

impl PartialEqSpecImpl for Value {
    open spec fn obeys_eq_spec() -> bool {
        true
    }

    open spec fn eq_spec(&self, other: &Value) -> bool {
        self@ == other@
    }
}

impl Value {
    /// The text `s` as a value.
    pub fn text(s: &str) -> (v: Value)
        ensures
            v@ == Content::Text(s@),
    {
        Value::Text(s.to_owned())
    }

    /// The truth value held, if this value is one.
    pub fn as_bool(&self) -> (r: Option<bool>)
        ensures
            r == match self@ {
                Content::Bool(b) => Some(b),
                _ => None,
            },
    {
        match self {
            Value::Bool(b) => Some(*b),
            _ => None,
        }
    }

    /// The whole number held, if this value is one.
    pub fn as_int(&self) -> (r: Option<i64>)
        ensures
            r == match self@ {
                Content::Int(n) => Some(n),
                _ => None,
            },
    {
        match self {
            Value::Int(n) => Some(*n),
            _ => None,
        }
    }

    /// The bits of the real number held, if this value is one.
    pub fn as_real_bits(&self) -> (r: Option<u64>)
        ensures
            r == match self@ {
                Content::Real(bits) => Some(bits),
                _ => None,
            },
    {
        match self {
            Value::Real(bits) => Some(*bits),
            _ => None,
        }
    }

    /// The text held, if this value is one.
    pub fn as_text(&self) -> (r: Option<&str>)
        ensures
            match self@ {
                Content::Text(s) => r matches Some(t) && t@ == s,
                _ => r is None,
            },
    {
        match self {
            Value::Text(s) => Some(s.as_str()),
            _ => None,
        }
    }

    /// The kind of this value.
    pub fn kind(&self) -> (k: Kind)
        ensures
            k == self@.kind(),
    {
        match self {
            Value::Bool(_) => Kind::Bool,
            Value::Int(_) => Kind::Int,
            Value::Real(_) => Kind::Real,
            Value::Text(_) => Kind::Text,
        }
    }

    /// A copy of this value: the same content, independent of this one.
    pub fn duplicate(&self) -> (copy: Value)
        ensures
            copy@ == self@,
    {
        match self {
            Value::Bool(b) => Value::Bool(*b),
            Value::Int(n) => Value::Int(*n),
            Value::Real(bits) => Value::Real(*bits),
            Value::Text(s) => Value::Text(s.clone()),
        }
    }
}

} // verus!
