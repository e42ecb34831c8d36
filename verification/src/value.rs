use vstd::prelude::*;

use crate::double::{double_text, double_to_text, eq_bits};
use crate::object::ObjPtr;
use crate::text::{dec_spec, dec_str};
use vstd::string::StringExecFns;

verus! {

/// A tagged runtime value. A number is an IEEE-754 double carried as its
/// 64-bit pattern; an object reference is a non-owning handle into the
/// registry of the virtual machine that created the object.
#[derive(Debug, Clone, Copy, PartialEq, Eq, Structural)]
pub enum Value {
    Nil,
    Boolean(bool),
    Number(u64),
    ObjPtr(ObjPtr),
}

/// Nil and false are falsy; every other value, zero included, is truthy.
pub open spec fn truthy_spec(v: Value) -> bool {
    !(v == Value::Nil || v == Value::Boolean(false))
}

/// Structural, variant-exact equality: values of different variants are
/// never equal; numbers compare as IEEE-754 doubles, so a NaN is not equal
/// to itself; object references compare by identity of their handles.
pub open spec fn value_equal(a: Value, b: Value) -> bool {
    match (a, b) {
        (Value::Nil, Value::Nil) => true,
        (Value::Boolean(x), Value::Boolean(y)) => x == y,
        (Value::Number(x), Value::Number(y)) => eq_bits(x, y),
        (Value::ObjPtr(x), Value::ObjPtr(y)) => x == y,
        _ => false,
    }
}

/// The debug rendering of a value: the variant name, with the double's
/// decimal text or the handle's index inside it.
pub open spec fn value_text_spec(v: Value) -> Seq<char> {
    match v {
        Value::Nil => "Nil"@,
        Value::Boolean(b) => if b {
            "Boolean(true)"@
        } else {
            "Boolean(false)"@
        },
        Value::Number(bits) => "Number("@ + double_text(bits) + ")"@,
        Value::ObjPtr(p) => "ObjPtr("@ + dec_spec(p.0 as int) + ")"@,
    }
}

impl Value {
    /// Renders the value as the disassembler and the trace show it.
    pub fn debug_text(&self) -> (r: String)
        ensures
            r@ == value_text_spec(*self),
    {
        match self {
            Value::Nil => {
                let mut out = String::new();
                out.append("Nil");
                proof {
                    assert(Seq::<char>::empty() + "Nil"@ =~= "Nil"@);
                }
                out
            },
            Value::Boolean(b) => {
                let mut out = String::new();
                if *b {
                    out.append("Boolean(true)");
                    proof {
                        assert(Seq::<char>::empty() + "Boolean(true)"@ =~= "Boolean(true)"@);
                    }
                } else {
                    out.append("Boolean(false)");
                    proof {
                        assert(Seq::<char>::empty() + "Boolean(false)"@ =~= "Boolean(false)"@);
                    }
                }
                out
            },
            Value::Number(bits) => {
                let mut out = String::new();
                out.append("Number(");
                let inner = double_to_text(*bits);
                out.append(inner.as_str());
                out.append(")");
                proof {
                    assert(((Seq::<char>::empty() + "Number("@) + double_text(*bits)) + ")"@
                        =~= "Number("@ + double_text(*bits) + ")"@);
                }
                out
            },
            Value::ObjPtr(p) => {
                let mut out = String::new();
                out.append("ObjPtr(");
                let inner = dec_str(p.0);
                out.append(inner.as_str());
                out.append(")");
                proof {
                    assert(((Seq::<char>::empty() + "ObjPtr("@) + dec_spec(p.0 as int)) + ")"@
                        =~= "ObjPtr("@ + dec_spec(p.0 as int) + ")"@);
                }
                out
            },
        }
    }

    pub fn truthy(&self) -> (r: bool)
        ensures
            r == truthy_spec(*self),
    {
        match self {
            Value::Nil => false,
            Value::Boolean(b) => *b,
            _ => true,
        }
    }

    pub fn equals(&self, other: &Value) -> (r: bool)
        ensures
            r == value_equal(*self, *other),
    {
        match (self, other) {
            (Value::Nil, Value::Nil) => true,
            (Value::Boolean(x), Value::Boolean(y)) => *x == *y,
            (Value::Number(x), Value::Number(y)) => crate::double::double_eq(*x, *y),
            (Value::ObjPtr(x), Value::ObjPtr(y)) => x.0 == y.0,
            _ => false,
        }
    }
}

} // verus!
