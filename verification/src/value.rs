//! The typed values that cross the host/VM boundary, their runtime type
//! tags, and the engine's truthiness rule.
//!
//! Numbers cross the boundary as 32-bit-representable integers: the engine's
//! native numeric width may exceed the host's precision, and narrowing to 32
//! bits at the boundary is explicit and lossy by design. Tables are opaque
//! references into the engine's heap, modelled here as indices into the
//! handle's table store.

use vstd::prelude::*;

verus! {

/// Spec-level picture of one boundary value.
pub enum ValueModel {
    Nil,
    Boolean(bool),
    Integer(int),
    Number(int),
    Str(Seq<char>),
    Table(int),
    Opaque(i32),
}

/// One value as the host holds it: nil, boolean, integer, number (held at
/// the host's 32-bit width), string, a reference to a table in the engine's
/// heap, or a value of one of the engine's remaining types — light
/// userdata, function, userdata, thread — which the host cannot look into
/// and carries opaquely, by its type tag alone.
pub enum LuaValue {
    Nil,
    Boolean(bool),
    Integer(i32),
    Number(i32),
    Str(String),
    Table(usize),
    Opaque(i32),
}

impl View for LuaValue {
    type V = ValueModel;

    open spec fn view(&self) -> ValueModel {
        match self {
            LuaValue::Nil => ValueModel::Nil,
            LuaValue::Boolean(b) => ValueModel::Boolean(*b),
            LuaValue::Integer(n) => ValueModel::Integer(*n as int),
            LuaValue::Number(n) => ValueModel::Number(*n as int),
            LuaValue::Str(s) => ValueModel::Str(s@),
            LuaValue::Table(id) => ValueModel::Table(*id as int),
            LuaValue::Opaque(t) => ValueModel::Opaque(*t),
        }
    }
}

/// The engine's runtime type tag for a value: nil 0, boolean 1, number 3
/// (integers and numbers share the tag, as the engine's integer values are
/// a representation subtype of its number type), string 4, table 5; an
/// opaque value carries its own tag — light userdata 2, function 6,
/// userdata 7, or thread 8.
pub open spec fn spec_type_tag(v: ValueModel) -> i32 {
    match v {
        ValueModel::Nil => 0,
        ValueModel::Boolean(_) => 1,
        ValueModel::Integer(_) => 3,
        ValueModel::Number(_) => 3,
        ValueModel::Str(_) => 4,
        ValueModel::Table(_) => 5,
        ValueModel::Opaque(t) => t,
    }
}

/// The tags an opaque value may carry: the engine's light userdata,
/// function, userdata and thread types.
pub open spec fn opaque_tag_ok(t: i32) -> bool {
    t == 2 || t == 6 || t == 7 || t == 8
}

/// The engine's truthiness rule: nil and false are falsy, every other value
/// is truthy.
pub open spec fn spec_truthy(v: ValueModel) -> bool {
    !(v is Nil || v == ValueModel::Boolean(false))
}

impl LuaValue {
    pub fn type_tag(&self) -> (t: i32)
        ensures
            t == spec_type_tag(self@),
    {
        match self {
            LuaValue::Nil => 0,
            LuaValue::Boolean(_) => 1,
            LuaValue::Integer(_) => 3,
            LuaValue::Number(_) => 3,
            LuaValue::Str(_) => 4,
            LuaValue::Table(_) => 5,
            LuaValue::Opaque(t) => *t,
        }
    }

    pub fn truthy(&self) -> (r: bool)
        ensures
            r == spec_truthy(self@),
    {
        match self {
            LuaValue::Nil => false,
            LuaValue::Boolean(b) => *b,
            _ => true,
        }
    }

    /// A copy of the value, equal at the model level.
    pub fn dup(&self) -> (r: LuaValue)
        ensures
            r@ == self@,
    {
        match self {
            LuaValue::Nil => LuaValue::Nil,
            LuaValue::Boolean(b) => LuaValue::Boolean(*b),
            LuaValue::Integer(n) => LuaValue::Integer(*n),
            LuaValue::Number(n) => LuaValue::Number(*n),
            LuaValue::Str(s) => LuaValue::Str(s.clone()),
            LuaValue::Table(id) => LuaValue::Table(*id),
            LuaValue::Opaque(t) => LuaValue::Opaque(*t),
        }
    }
}

} // verus!
