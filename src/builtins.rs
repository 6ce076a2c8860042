use vstd::prelude::*;
use crate::value::{Value, VList, Fields, VmError};

verus! {

/// The sign bit of an IEEE-754 double.
pub const SIGN_BIT: u64 = 0x8000_0000_0000_0000u64;

pub open spec fn spec_negate(v: Value) -> Result<Value, VmError> {
    match v {
        Value::Int(i) => Ok(Value::Int(0i64.wrapping_sub(i))),
        Value::Float(bits) => Ok(Value::Float(bits ^ SIGN_BIT)),
        _ => Err(VmError::TypeError),
    }
}

/// Arithmetic negation: wrapping on integers, a sign flip on floats.
pub fn negate(v: &Value) -> (r: Result<Value, VmError>)
    ensures
        r == spec_negate(*v),
        *v matches Value::Float(b) && crate::value::not_nan(b) ==> (r matches Ok(Value::Float(n))
            && crate::value::not_nan(n)),
{
    if let Value::Float(b) = v {
        let b = *b;
        assert(crate::value::not_nan(b) ==> crate::value::not_nan(b ^ SIGN_BIT)) by (bit_vector);
    }
    match v {
        Value::Int(i) => Ok(Value::Int(0i64.wrapping_sub(*i))),
        Value::Float(bits) => Ok(Value::Float(*bits ^ SIGN_BIT)),
        _ => Err(VmError::TypeError),
    }
}

/// Both operands are floats: arithmetic on them is left to the host.
pub open spec fn both_float(a: Value, b: Value) -> bool {
    a is Float && b is Float
}

pub open spec fn spec_add(a: Value, b: Value) -> Result<Value, VmError> {
    match (a, b) {
        (Value::Int(x), Value::Int(y)) => Ok(Value::Int(x.wrapping_add(y))),
        _ => if both_float(a, b) {
            Err(VmError::FloatArithmetic)
        } else {
            Err(VmError::TypeError)
        },
    }
}

/// Wrapping integer addition.
pub fn add(a: &Value, b: &Value) -> (r: Result<Value, VmError>)
    ensures
        r == spec_add(*a, *b),
{
    match (a, b) {
        (Value::Int(x), Value::Int(y)) => Ok(Value::Int(x.wrapping_add(*y))),
        (Value::Float(_), Value::Float(_)) => Err(VmError::FloatArithmetic),
        _ => Err(VmError::TypeError),
    }
}

pub open spec fn spec_mul(a: Value, b: Value) -> Result<Value, VmError> {
    match (a, b) {
        (Value::Int(x), Value::Int(y)) => Ok(Value::Int(x.wrapping_mul(y))),
        _ => if both_float(a, b) {
            Err(VmError::FloatArithmetic)
        } else {
            Err(VmError::TypeError)
        },
    }
}

/// Wrapping integer multiplication.
pub fn mul(a: &Value, b: &Value) -> (r: Result<Value, VmError>)
    ensures
        r == spec_mul(*a, *b),
{
    match (a, b) {
        (Value::Int(x), Value::Int(y)) => Ok(Value::Int(x.wrapping_mul(*y))),
        (Value::Float(_), Value::Float(_)) => Err(VmError::FloatArithmetic),
        _ => Err(VmError::TypeError),
    }
}

/// The remainder of truncated division; `i64::MIN % -1` is 0.
pub open spec fn int_rem(x: i64, y: i64) -> i64 {
    match x.checked_rem(y) {
        Some(r) => r,
        None => 0,
    }
}

pub open spec fn spec_modulo(a: Value, b: Value) -> Result<Value, VmError> {
    match (a, b) {
        (Value::Int(x), Value::Int(y)) => if y == 0 {
            Err(VmError::DivideByZero)
        } else {
            Ok(Value::Int(int_rem(x, y)))
        },
        _ => if both_float(a, b) {
            Err(VmError::FloatArithmetic)
        } else {
            Err(VmError::TypeError)
        },
    }
}

/// Integer remainder, failing on a zero divisor.
pub fn modulo(a: &Value, b: &Value) -> (r: Result<Value, VmError>)
    ensures
        r == spec_modulo(*a, *b),
{
    match (a, b) {
        (Value::Int(x), Value::Int(y)) => {
            if *y == 0 {
                Err(VmError::DivideByZero)
            } else {
                match x.checked_rem(*y) {
                    Some(q) => Ok(Value::Int(q)),
                    None => Ok(Value::Int(0)),
                }
            }
        },
        (Value::Float(_), Value::Float(_)) => Err(VmError::FloatArithmetic),
        _ => Err(VmError::TypeError),
    }
}

pub open spec fn spec_or(a: Value, b: Value) -> Result<Value, VmError> {
    match (a, b) {
        (Value::Bool(x), Value::Bool(y)) => Ok(Value::Bool(x || y)),
        _ => Err(VmError::TypeError),
    }
}

/// Boolean disjunction of two evaluated operands.
pub fn or(a: &Value, b: &Value) -> (r: Result<Value, VmError>)
    ensures
        r == spec_or(*a, *b),
{
    match (a, b) {
        (Value::Bool(x), Value::Bool(y)) => Ok(Value::Bool(*x || *y)),
        _ => Err(VmError::TypeError),
    }
}

pub open spec fn spec_and(a: Value, b: Value) -> Result<Value, VmError> {
    match (a, b) {
        (Value::Bool(x), Value::Bool(y)) => Ok(Value::Bool(x && y)),
        _ => Err(VmError::TypeError),
    }
}

/// Boolean conjunction of two evaluated operands.
pub fn and(a: &Value, b: &Value) -> (r: Result<Value, VmError>)
    ensures
        r == spec_and(*a, *b),
{
    match (a, b) {
        (Value::Bool(x), Value::Bool(y)) => Ok(Value::Bool(*x && *y)),
        _ => Err(VmError::TypeError),
    }
}

pub open spec fn spec_decons(v: Value) -> Result<(Value, Value), VmError> {
    match v {
        Value::List(VList::Cons(h, t)) => Ok((*h, Value::List(*t))),
        Value::List(VList::Nil) => Err(VmError::IndexError),
        _ => Err(VmError::TypeError),
    }
}

/// Splits a non-empty list into its head and its tail.
pub fn decons(v: &Value) -> (r: Result<(Value, Value), VmError>)
    ensures
        r == spec_decons(*v),
{
    match v {
        Value::List(VList::Cons(h, t)) => Ok((h.dup(), Value::List(t.dup()))),
        Value::List(VList::Nil) => Err(VmError::IndexError),
        _ => Err(VmError::TypeError),
    }
}

pub open spec fn spec_cons(h: Value, t: Value) -> Result<Value, VmError> {
    match t {
        Value::List(l) => Ok(Value::List(VList::Cons(Box::new(h), Box::new(l)))),
        _ => Err(VmError::TypeError),
    }
}

/// Prepends `h` to the list `t`.
pub fn cons(h: &Value, t: &Value) -> (r: Result<Value, VmError>)
    ensures
        r == spec_cons(*h, *t),
{
    match t {
        Value::List(l) => Ok(Value::List(VList::Cons(Box::new(h.dup()), Box::new(l.dup())))),
        _ => Err(VmError::TypeError),
    }
}

/// The element at `i` of a list.
pub fn list_get(l: &VList, i: i64) -> (r: Option<Value>)
    ensures
        r == (if 0 <= i < l.view_seq().len() {
            Some(l.view_seq()[i as int])
        } else {
            None::<Value>
        }),
    decreases l,
{
    match l {
        VList::Nil => None,
        VList::Cons(h, t) => {
            if i == 0 {
                Some(h.dup())
            } else if i < 0 {
                None
            } else {
                let r = list_get(t, i - 1);
                assert(l.view_seq() == seq![**h] + t.view_seq());
                r
            }
        },
    }
}

pub open spec fn spec_index(src: Value, index: Value) -> Result<Value, VmError> {
    match (src, index) {
        (Value::Tuple(l), Value::Int(i)) | (Value::List(l), Value::Int(i)) => if 0 <= i
            < l.view_seq().len() {
            Ok(l.view_seq()[i as int])
        } else {
            Err(VmError::IndexError)
        },
        _ => Err(VmError::TypeError),
    }
}

/// The element of a tuple or list at an integer index.
pub fn index(src: &Value, idx: &Value) -> (r: Result<Value, VmError>)
    ensures
        r == spec_index(*src, *idx),
{
    match (src, idx) {
        (Value::Tuple(l), Value::Int(i)) | (Value::List(l), Value::Int(i)) => {
            match list_get(l, *i) {
                Some(v) => Ok(v),
                None => Err(VmError::IndexError),
            }
        },
        _ => Err(VmError::TypeError),
    }
}

/// A copy of `l` with `v` added at the end.
pub fn list_snoc(l: &VList, v: Value) -> (r: VList)
    ensures
        r == l.snoc(v),
    decreases l,
{
    match l {
        VList::Nil => VList::Cons(Box::new(v), Box::new(VList::Nil)),
        VList::Cons(h, t) => VList::Cons(Box::new(h.dup()), Box::new(list_snoc(t, v))),
    }
}

pub open spec fn spec_append(t: Value, item: Value) -> Result<Value, VmError> {
    match t {
        Value::Tuple(l) => Ok(Value::Tuple(l.snoc(item))),
        _ => Err(VmError::TypeError),
    }
}

/// A new tuple holding the elements of `t` and then `item`.
pub fn append(t: &Value, item: &Value) -> (r: Result<Value, VmError>)
    ensures
        r == spec_append(*t, *item),
{
    match t {
        Value::Tuple(l) => Ok(Value::Tuple(list_snoc(l, item.dup()))),
        _ => Err(VmError::TypeError),
    }
}

pub open spec fn spec_variant(tag: Value, v: Value) -> Result<Value, VmError> {
    match tag {
        Value::String(s) => Ok(Value::Variant(s, Box::new(v))),
        _ => Err(VmError::TypeError),
    }
}

/// A variant tagged by the string `tag` carrying `v`.
pub fn variant(tag: &Value, v: &Value) -> (r: Result<Value, VmError>)
    ensures
        r == spec_variant(*tag, *v),
{
    match tag {
        Value::String(s) => Ok(Value::Variant(s.clone(), Box::new(v.dup()))),
        _ => Err(VmError::TypeError),
    }
}

pub open spec fn spec_unwrap(v: Value) -> Result<Value, VmError> {
    match v {
        Value::Variant(_, p) => Ok(*p),
        _ => Err(VmError::TypeError),
    }
}

/// The payload of a variant.
pub fn unwrap(v: &Value) -> (r: Result<Value, VmError>)
    ensures
        r == spec_unwrap(*v),
{
    match v {
        Value::Variant(_, p) => Ok(p.dup()),
        _ => Err(VmError::TypeError),
    }
}

/// A copy of `f` with `k` bound to `v`.
pub fn fields_set(f: &Fields, k: &String, v: Value) -> (r: Fields)
    ensures
        r == f.set(*k, v),
    decreases f,
{
    match f {
        Fields::Empty => Fields::Field(k.clone(), Box::new(v), Box::new(Fields::Empty)),
        Fields::Field(name, old_v, rest) => {
            if *name == *k {
                Fields::Field(name.clone(), Box::new(v), Box::new(rest.dup()))
            } else {
                Fields::Field(name.clone(), Box::new(old_v.dup()), Box::new(fields_set(rest, k, v)))
            }
        },
    }
}

/// The value bound to `k` in `f`.
pub fn fields_get(f: &Fields, k: &String) -> (r: Option<Value>)
    ensures
        r == f.get(k@),
    decreases f,
{
    match f {
        Fields::Empty => None,
        Fields::Field(name, v, rest) => {
            if *name == *k {
                Some(v.dup())
            } else {
                fields_get(rest, k)
            }
        },
    }
}

pub open spec fn spec_insert(rec: Value, key: Value, v: Value) -> Result<Value, VmError> {
    match (rec, key) {
        (Value::Record(f), Value::String(k)) => Ok(Value::Record(f.set(k, v))),
        _ => Err(VmError::TypeError),
    }
}

/// A new record equal to `rec` but with `key` bound to `v`.
pub fn insert(rec: &Value, key: &Value, v: &Value) -> (r: Result<Value, VmError>)
    ensures
        r == spec_insert(*rec, *key, *v),
{
    match (rec, key) {
        (Value::Record(f), Value::String(k)) => Ok(Value::Record(fields_set(f, k, v.dup()))),
        _ => Err(VmError::TypeError),
    }
}

pub open spec fn spec_lookup(rec: Value, key: Value) -> Result<Value, VmError> {
    match (rec, key) {
        (Value::Record(f), Value::String(k)) => match f.get(k@) {
            Some(v) => Ok(v),
            None => Err(VmError::IndexError),
        },
        _ => Err(VmError::TypeError),
    }
}

/// The value bound to `key` in `rec`.
pub fn lookup(rec: &Value, key: &Value) -> (r: Result<Value, VmError>)
    ensures
        r == spec_lookup(*rec, *key),
{
    match (rec, key) {
        (Value::Record(f), Value::String(k)) => match fields_get(f, k) {
            Some(v) => Ok(v),
            None => Err(VmError::IndexError),
        },
        _ => Err(VmError::TypeError),
    }
}


pub proof fn lemma_snoc_view(l: VList, v: Value)
    ensures
        l.snoc(v).view_seq() == l.view_seq().push(v),
    decreases l,
{
    match l {
        VList::Nil => {
            assert(l.snoc(v).view_seq() =~= l.view_seq().push(v));
        },
        VList::Cons(h, t) => {
            lemma_snoc_view(*t, v);
            assert(l.snoc(v).view_seq() =~= l.view_seq().push(v));
        },
    }
}

/// `Append` on a tuple gives a tuple one element longer: the old elements in
/// order, then the item. The operand is only borrowed, so it stays as it was.
pub proof fn law_append_extends(elems: VList, item: Value)
    ensures
        spec_append(Value::Tuple(elems), item) matches Ok(Value::Tuple(out))
            && out.view_seq() == elems.view_seq().push(item)
            && out.view_seq().len() == elems.view_seq().len() + 1,
{
    lemma_snoc_view(elems, item);
}

/// `Decons` undoes `Cons`, and fails with an index error on the empty list.
pub proof fn law_decons_cons(h: Value, t: VList)
    ensures
        spec_cons(h, Value::List(t)) matches Ok(c) && spec_decons(c) == Ok::<(Value, Value), VmError>(
            (h, Value::List(t)),
        ),
        spec_decons(Value::List(VList::Nil)) == Err::<(Value, Value), VmError>(VmError::IndexError),
{
}

} // verus!
