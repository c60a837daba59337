//! Values stored in object fields.
use vstd::prelude::*;

verus! {

/// A value in the Kelp database: String, Integer, Float, Boolean, Null or
/// Reference. A float is held as the bit pattern of its 64-bit IEEE 754
/// representation (`f64::to_bits`).
#[derive(Debug, PartialEq)]
pub enum Value {
    /// String value
    String(String),
    /// Integer value (64-bit signed)
    Integer(i64),
    /// Float value (64-bit IEEE 754 bit pattern)
    Float(u64),
    /// Boolean value
    Boolean(bool),
    /// Null value
    Null,
    /// Reference to another object: "TypeName/object_id"
    Reference(String),
}

/// The mathematical content of a value.
pub enum ValueView {
    Str(Seq<char>),
    Int(i64),
    Float(u64),
    Bool(bool),
    Null,
    Ref(Seq<char>),
}

impl View for Value {
    type V = ValueView;

    open spec fn view(&self) -> ValueView {
        match self {
            Value::String(s) => ValueView::Str(s@),
            Value::Integer(i) => ValueView::Int(*i),
            Value::Float(f) => ValueView::Float(*f),
            Value::Boolean(b) => ValueView::Bool(*b),
            Value::Null => ValueView::Null,
            Value::Reference(r) => ValueView::Ref(r@),
        }
    }
}

impl Clone for Value {
    fn clone(&self) -> (r: Self)
        ensures
            r == *self,
    {
        match self {
            Value::String(s) => Value::String(s.clone()),
            Value::Integer(i) => Value::Integer(*i),
            Value::Float(f) => Value::Float(*f),
            Value::Boolean(b) => Value::Boolean(*b),
            Value::Null => Value::Null,
            Value::Reference(r) => Value::Reference(r.clone()),
        }
    }
}

/// The type name of a value.
pub open spec fn value_type_name(v: ValueView) -> Seq<char> {
    match v {
        ValueView::Str(_) => "String"@,
        ValueView::Int(_) => "Integer"@,
        ValueView::Float(_) => "Float"@,
        ValueView::Bool(_) => "Boolean"@,
        ValueView::Null => "Null"@,
        ValueView::Ref(_) => "Reference"@,
    }
}

impl Value {
    /// Get the type name of this value.
    pub fn typename(&self) -> (r: &'static str)
        ensures
            r@ == value_type_name(self@),
    {
        match self {
            Value::String(_) => "String",
            Value::Integer(_) => "Integer",
            Value::Float(_) => "Float",
            Value::Boolean(_) => "Boolean",
            Value::Null => "Null",
            Value::Reference(_) => "Reference",
        }
    }

    /// Check if this value is null.
    pub fn is_null(&self) -> (r: bool)
        ensures
            r == (self@ is Null),
    {
        match self {
            Value::Null => true,
            _ => false,
        }
    }

    /// Try to get as a string.
    pub fn as_string(&self) -> (r: Option<&str>)
        ensures
            match self@ {
                ValueView::Str(s) => r matches Some(t) && t@ == s,
                _ => r is None,
            },
    {
        match self {
            Value::String(s) => Some(s.as_str()),
            _ => None,
        }
    }

    /// Try to get as an integer.
    pub fn as_integer(&self) -> (r: Option<i64>)
        ensures
            match self@ {
                ValueView::Int(i) => r == Some(i),
                _ => r is None,
            },
    {
        match self {
            Value::Integer(i) => Some(*i),
            _ => None,
        }
    }

    /// Try to get the bit pattern of a float.
    pub fn as_float(&self) -> (r: Option<u64>)
        ensures
            match self@ {
                ValueView::Float(f) => r == Some(f),
                _ => r is None,
            },
    {
        match self {
            Value::Float(f) => Some(*f),
            _ => None,
        }
    }

    /// Try to get as a boolean.
    pub fn as_bool(&self) -> (r: Option<bool>)
        ensures
            match self@ {
                ValueView::Bool(b) => r == Some(b),
                _ => r is None,
            },
    {
        match self {
            Value::Boolean(b) => Some(*b),
            _ => None,
        }
    }

    /// Try to get a reference.
    pub fn as_reference(&self) -> (r: Option<&str>)
        ensures
            match self@ {
                ValueView::Ref(s) => r matches Some(t) && t@ == s,
                _ => r is None,
            },
    {
        match self {
            Value::Reference(s) => Some(s.as_str()),
            _ => None,
        }
    }
}

} // verus!
