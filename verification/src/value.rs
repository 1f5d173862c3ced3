//! The runtime value model: the tagged union of nil, booleans, numbers
//! (carried as IEEE-754 bit patterns the host interprets), and heap
//! string objects, with the falsey and equality semantics.

use vstd::prelude::*;

verus! {

/// A heap-allocated runtime object. Strings are the only kind today; the
/// enum is the open extension point for later heap kinds.
pub enum Object {
    String(String),
}

/// The mathematical model of a runtime value. Numbers are carried as the
/// raw bit pattern of an IEEE-754 double; the library never interprets the
/// bits itself, it only moves them and hands arithmetic to the host.
pub ghost enum ValueV {
    Nil,
    Boolean(bool),
    Number(u64),
    Str(Seq<char>),
}

/// A runtime value: the tagged union shared by the constant pool, the
/// operand stack, and the virtual machine's arithmetic.
pub enum Value {
    Nil,
    Boolean(bool),
    Number(u64),
    Obj(Box<Object>),
}

impl View for Value {
    type V = ValueV;

    open spec fn view(&self) -> ValueV {
        match self {
            Value::Nil => ValueV::Nil,
            Value::Boolean(b) => ValueV::Boolean(*b),
            Value::Number(n) => ValueV::Number(*n),
            Value::Obj(o) => match **o {
                Object::String(s) => ValueV::Str(s@),
            },
        }
    }
}

/// The bit pattern a number value carries; zero on every other variant.
pub open spec fn val_bits(v: ValueV) -> u64 {
    match v {
        ValueV::Number(b) => b,
        _ => 0,
    }
}

/// The character sequences a sequence of owned strings holds.
pub open spec fn string_views(s: Seq<String>) -> Seq<Seq<char>> {
    s.map_values(|x: String| x@)
}

/// The falsey predicate: nil and false are falsey, every other value —
/// including the number zero and every string — is truthy.
pub open spec fn val_falsey(v: ValueV) -> bool {
    v == ValueV::Nil || v == ValueV::Boolean(false)
}

/// Whether two value models carry the same variant tag.
pub open spec fn same_variant(a: ValueV, b: ValueV) -> bool {
    match (a, b) {
        (ValueV::Nil, ValueV::Nil) => true,
        (ValueV::Boolean(_), ValueV::Boolean(_)) => true,
        (ValueV::Number(_), ValueV::Number(_)) => true,
        (ValueV::Str(_), ValueV::Str(_)) => true,
        _ => false,
    }
}

/// Structural equality between runtime values, as far as the library can
/// decide it alone: nil equals nil, booleans and strings compare by content,
/// cross-variant pairs are never equal. Two numbers are `None`: their IEEE
/// comparison belongs to the host.
pub open spec fn val_eq_decided(a: ValueV, b: ValueV) -> Option<bool> {
    match (a, b) {
        (ValueV::Nil, ValueV::Nil) => Some(true),
        (ValueV::Boolean(x), ValueV::Boolean(y)) => Some(x == y),
        (ValueV::Number(_), ValueV::Number(_)) => None,
        (ValueV::Str(x), ValueV::Str(y)) => Some(x == y),
        _ => Some(false),
    }
}

/// The display form of a value, as far as the library can decide it alone:
/// `nil`, `true`/`false`, and a string's own text. A number is `None`: its
/// decimal rendering belongs to the host.
pub open spec fn val_display_decided(v: ValueV) -> Option<Seq<char>> {
    match v {
        ValueV::Nil => Some("nil"@),
        ValueV::Boolean(b) => Some(if b { "true"@ } else { "false"@ }),
        ValueV::Number(_) => None,
        ValueV::Str(s) => Some(s),
    }
}

impl Object {
    pub fn is_string(&self) -> (r: bool)
        ensures
            r,
    {
        match self {
            Object::String(_) => true,
        }
    }

    pub fn as_string(&self) -> (r: &str)
        ensures
            *self matches Object::String(s) && r@ == s@,
    {
        match self {
            Object::String(stri) => stri.as_str(),
        }
    }
}

impl Value {
    pub fn is_falsey(&self) -> (r: bool)
        ensures
            r == val_falsey(self@),
    {
        match self {
            Value::Boolean(b) => !b,
            Value::Nil => true,
            _ => false,
        }
    }

    pub fn is_number(&self) -> (r: bool)
        ensures
            r == (self@ is Number),
    {
        match self {
            Value::Number(_) => true,
            _ => false,
        }
    }

    /// The bit pattern of a number value.
    pub fn to_number(&self) -> (r: u64)
        requires
            self@ is Number,
        ensures
            self@ == ValueV::Number(r),
    {
        match self {
            Value::Number(n) => *n,
            _ => 0,
        }
    }

    pub fn is_string(&self) -> (r: bool)
        ensures
            r == (self@ is Str),
    {
        match self {
            Value::Obj(obj) => obj.is_string(),
            _ => false,
        }
    }

    pub fn as_string(&self) -> (r: &str)
        requires
            self@ is Str,
        ensures
            self@ == ValueV::Str(r@),
    {
        match self {
            Value::Obj(obj) => obj.as_string(),
            _ => "",
        }
    }

    /// Builds the string value owning the given text.
    pub fn string_obj(text: String) -> (r: Value)
        ensures
            r@ == ValueV::Str(text@),
    {
        Value::Obj(Box::new(Object::String(text)))
    }

    /// Structural equality, where the library can decide it alone: `None`
    /// exactly on a pair of numbers, whose IEEE comparison belongs to the
    /// host.
    pub fn eq_decided(&self, other: &Value) -> (r: Option<bool>)
        ensures
            match r {
                Some(b) => val_eq_decided(self@, other@) == Some(b),
                None => val_eq_decided(self@, other@) is None,
            },
    {
        match (self, other) {
            (Value::Nil, Value::Nil) => Some(true),
            (Value::Boolean(x), Value::Boolean(y)) => Some(*x == *y),
            (Value::Number(_), Value::Number(_)) => None,
            (Value::Obj(a), Value::Obj(b)) => match (&**a, &**b) {
                (Object::String(s1), Object::String(s2)) => Some(*s1 == *s2),
            },
            _ => Some(false),
        }
    }

    /// The display form, where the library can decide it: a number returns
    /// `None` and is rendered by the host from its bit pattern.
    pub fn display_text(&self) -> (r: Option<String>)
        ensures
            match r {
                Some(s) => val_display_decided(self@) == Some(s@),
                None => self@ is Number,
            },
    {
        match self {
            Value::Nil => Some("nil".to_owned()),
            Value::Boolean(b) => Some(if *b { "true".to_owned() } else { "false".to_owned() }),
            Value::Number(_) => None,
            Value::Obj(obj) => Some(obj.as_string().to_owned()),
        }
    }
}

impl Clone for Value {
    /// Deep copy: string objects are duplicated, not shared.
    fn clone(&self) -> (r: Self)
        ensures
            r@ == self@,
    {
        match self {
            Value::Nil => Value::Nil,
            Value::Boolean(b) => Value::Boolean(*b),
            Value::Number(n) => Value::Number(*n),
            Value::Obj(o) => Value::Obj(
                Box::new(
                    match &**o {
                        Object::String(s) => Object::String(s.clone()),
                    },
                ),
            ),
        }
    }
}

/// Falsey semantics: nil and false are the only falsey values; zero, true,
/// and every string are truthy.
pub proof fn lemma_falsey_semantics(n: u64, s: Seq<char>)
    ensures
        val_falsey(ValueV::Nil),
        val_falsey(ValueV::Boolean(false)),
        !val_falsey(ValueV::Number(n)),
        !val_falsey(ValueV::Boolean(true)),
        !val_falsey(ValueV::Str(s)),
{
}

/// Equality semantics: nil equals nil; two values of different variants are
/// never equal; two strings are equal exactly when their contents are. Two
/// numbers are the one pair the library leaves to the host's IEEE equality.
pub proof fn lemma_equality_semantics(a: ValueV, b: ValueV, s1: Seq<char>, s2: Seq<char>)
    ensures
        val_eq_decided(ValueV::Nil, ValueV::Nil) == Some(true),
        val_eq_decided(ValueV::Str(s1), ValueV::Str(s2)) == Some(s1 == s2),
        !same_variant(a, b) ==> val_eq_decided(a, b) == Some(false),
        val_eq_decided(a, b) is None <==> a is Number && b is Number,
{
}

} // verus!
