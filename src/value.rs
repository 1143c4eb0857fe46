use vstd::prelude::*;
use crate::ast::{Expr, ExprM, names_view, copy_names};

verus! {

/// A runtime value.
#[derive(Debug, PartialEq)]
pub enum Value {
    Nil,
    Bool(bool),
    Int(i64),
    UInt(u64),
    Char(char),
    String(String),
    Array(Vec<Value>),
    Fn(Vec<String>, Box<Expr>),
}

/// The model of a runtime value.
pub enum Val {
    Nil,
    Bool(bool),
    Int(i64),
    UInt(u64),
    Char(char),
    Str(Seq<char>),
    Array(Seq<Val>),
    Fn(Seq<Seq<char>>, Box<ExprM>),
}

pub open spec fn value_view(v: Value) -> Val
    decreases v,
{
    match v {
        Value::Nil => Val::Nil,
        Value::Bool(b) => Val::Bool(b),
        Value::Int(i) => Val::Int(i),
        Value::UInt(u) => Val::UInt(u),
        Value::Char(c) => Val::Char(c),
        Value::String(s) => Val::Str(s@),
        Value::Array(a) => Val::Array(values_view(a@)),
        Value::Fn(ps, b) => Val::Fn(names_view(ps@), Box::new(b@)),
    }
}

pub open spec fn values_view(s: Seq<Value>) -> Seq<Val>
    decreases s,
{
    Seq::new(s.len(), |i: int| if 0 <= i < s.len() { value_view(s[i]) } else { Val::Nil })
}

impl View for Value {
    type V = Val;

    open spec fn view(&self) -> Val {
        value_view(*self)
    }
}

/// The variant of a value.
#[derive(Debug, Clone, Copy, PartialEq, Eq, Structural)]
pub enum Kind {
    Nil,
    Bool,
    Int,
    UInt,
    Char,
    String,
    Array,
    Fn,
}

pub open spec fn kind_of(v: Val) -> Kind {
    match v {
        Val::Nil => Kind::Nil,
        Val::Bool(_) => Kind::Bool,
        Val::Int(_) => Kind::Int,
        Val::UInt(_) => Kind::UInt,
        Val::Char(_) => Kind::Char,
        Val::Str(_) => Kind::String,
        Val::Array(_) => Kind::Array,
        Val::Fn(..) => Kind::Fn,
    }
}

/// Two values are of the same variant.
pub open spec fn same_kind(a: Val, b: Val) -> bool {
    match (a, b) {
        (Val::Nil, Val::Nil) => true,
        (Val::Bool(_), Val::Bool(_)) => true,
        (Val::Int(_), Val::Int(_)) => true,
        (Val::UInt(_), Val::UInt(_)) => true,
        (Val::Char(_), Val::Char(_)) => true,
        (Val::Str(_), Val::Str(_)) => true,
        (Val::Array(_), Val::Array(_)) => true,
        (Val::Fn(..), Val::Fn(..)) => true,
        _ => false,
    }
}

pub fn copy_values(v: &Vec<Value>) -> (r: Vec<Value>)
    ensures
        values_view(r@) == values_view(v@),
    decreases v,
{
    let mut r: Vec<Value> = Vec::new();
    let mut i: usize = 0;
    while i < v.len()
        invariant
            i <= v@.len(),
            r@.len() == i,
            forall|k: int| 0 <= k < i ==> r@[k]@ == v@[k]@,
        decreases v@.len() - i,
    {
        r.push(v[i].deep_copy());
        i += 1;
    }
    assert(values_view(r@) =~= values_view(v@));
    r
}

pub fn values_eq(a: &Vec<Value>, b: &Vec<Value>) -> (r: bool)
    ensures
        r == (values_view(a@) == values_view(b@)),
    decreases a,
{
    if a.len() != b.len() {
        assert(values_view(a@).len() != values_view(b@).len());
        return false;
    }
    let mut i: usize = 0;
    while i < a.len()
        invariant
            i <= a@.len(),
            a@.len() == b@.len(),
            forall|k: int| 0 <= k < i ==> a@[k]@ == b@[k]@,
        decreases a@.len() - i,
    {
        if !a[i].same(&b[i]) {
            assert(values_view(a@)[i as int] != values_view(b@)[i as int]);
            return false;
        }
        i += 1;
    }
    assert(values_view(a@) =~= values_view(b@));
    true
}

impl Value {
    /// A copy of this value with the same model.
    pub fn deep_copy(&self) -> (r: Value)
        ensures
            r@ == self@,
        decreases self,
    {
        match self {
            Value::Nil => Value::Nil,
            Value::Bool(b) => Value::Bool(*b),
            Value::Int(i) => Value::Int(*i),
            Value::UInt(u) => Value::UInt(*u),
            Value::Char(c) => Value::Char(*c),
            Value::String(s) => Value::String(s.clone()),
            Value::Array(a) => Value::Array(copy_values(a)),
            Value::Fn(ps, b) => Value::Fn(copy_names(ps), Box::new(b.deep_copy())),
        }
    }

    /// Structural equality of values.
    pub fn same(&self, o: &Value) -> (r: bool)
        ensures
            r == (self@ == o@),
        decreases self,
    {
        match (self, o) {
            (Value::Nil, Value::Nil) => true,
            (Value::Bool(a), Value::Bool(b)) => *a == *b,
            (Value::Int(a), Value::Int(b)) => *a == *b,
            (Value::UInt(a), Value::UInt(b)) => *a == *b,
            (Value::Char(a), Value::Char(b)) => *a == *b,
            (Value::String(a), Value::String(b)) => *a == *b,
            (Value::Array(a), Value::Array(b)) => values_eq(a, b),
            (Value::Fn(pa, ba), Value::Fn(pb, bb)) => crate::ast::names_eq(pa, pb) && ba.same(bb),
            _ => false,
        }
    }

    /// The variant of this value.
    pub fn kind(&self) -> (k: Kind)
        ensures
            k == kind_of(self@),
    {
        match self {
            Value::Nil => Kind::Nil,
            Value::Bool(_) => Kind::Bool,
            Value::Int(_) => Kind::Int,
            Value::UInt(_) => Kind::UInt,
            Value::Char(_) => Kind::Char,
            Value::String(_) => Kind::String,
            Value::Array(_) => Kind::Array,
            Value::Fn(..) => Kind::Fn,
        }
    }

    /// Whether two values are of the same variant.
    pub fn same_kind(&self, o: &Value) -> (r: bool)
        ensures
            r == same_kind(self@, o@),
    {
        match (self, o) {
            (Value::Nil, Value::Nil) => true,
            (Value::Bool(_), Value::Bool(_)) => true,
            (Value::Int(_), Value::Int(_)) => true,
            (Value::UInt(_), Value::UInt(_)) => true,
            (Value::Char(_), Value::Char(_)) => true,
            (Value::String(_), Value::String(_)) => true,
            (Value::Array(_), Value::Array(_)) => true,
            (Value::Fn(..), Value::Fn(..)) => true,
            _ => false,
        }
    }
}

// ---------------------------------------------------------------------------
// Bit rotation of 64-bit words

/// Rotation of a 64-bit word left by `k` places, `k` below 64.
pub open spec fn rotl(x: u64, k: u64) -> u64 {
    if k == 0 {
        x
    } else {
        (x << k) | (x >> (64 - k) as u64)
    }
}

/// Rotation of a 64-bit word right by `k` places, `k` below 64.
pub open spec fn rotr(x: u64, k: u64) -> u64 {
    if k == 0 {
        x
    } else {
        (x >> k) | (x << (64 - k) as u64)
    }
}

/// Rotation of a 64-bit word left by `k` places, taken modulo 64.
pub fn rotate_left_u64(x: u64, k: u64) -> (r: u64)
    ensures
        r == rotl(x, (k % 64) as u64),
{
    let k = k % 64;
    if k == 0 {
        x
    } else {
        (x << k) | (x >> (64 - k))
    }
}

/// Rotation of a 64-bit word right by `k` places, taken modulo 64.
pub fn rotate_right_u64(x: u64, k: u64) -> (r: u64)
    ensures
        r == rotr(x, (k % 64) as u64),
{
    let k = k % 64;
    if k == 0 {
        x
    } else {
        (x >> k) | (x << (64 - k))
    }
}

} // verus!
