use vstd::prelude::*;
use crate::value::{Value, VList, Fields, Closure, RegAddr, VmError};
use crate::builtins::{list_snoc, fields_set, fields_get};
use crate::op::UnpackOp;

verus! {

impl VList {
    /// `self` followed by `other`.
    pub open spec fn concat(self, other: VList) -> VList
        decreases self,
    {
        match self {
            VList::Nil => other,
            VList::Cons(h, t) => VList::Cons(h, Box::new(t.concat(other))),
        }
    }
}

impl Fields {
    /// `self` with every field of `extra` bound in turn.
    pub open spec fn merge(self, extra: Fields) -> Fields
        decreases extra,
    {
        match extra {
            Fields::Empty => self,
            Fields::Field(k, v, rest) => self.set(k, *v).merge(*rest),
        }
    }

    /// Some name of `other` is already bound in `self`.
    pub open spec fn collides(self, other: Fields) -> bool {
        exists|i: int| 0 <= i < other.keys().len() && self.get(other.keys()[i]) is Some
    }

    /// `self` without its first field named `k`.
    pub open spec fn remove(self, k: Seq<char>) -> Fields
        decreases self,
    {
        match self {
            Fields::Empty => Fields::Empty,
            Fields::Field(name, v, rest) => if name@ == k {
                *rest
            } else {
                Fields::Field(name, v, Box::new(rest.remove(k)))
            },
        }
    }
}

/// Whether a closure has all its positional parameters bound.
pub open spec fn spec_saturated(c: Closure) -> bool {
    c.positional.view_seq().len() >= c.arity
}

/// Whether `c` is ready to be called.
pub fn saturated(c: &Closure) -> (r: bool)
    ensures
        r == spec_saturated(*c),
{
    saturated_from(&c.positional, c.arity)
}

fn saturated_from(l: &VList, need: usize) -> (r: bool)
    ensures
        r == (l.view_seq().len() >= need),
    decreases l,
{
    if need == 0 {
        true
    } else {
        match l {
            VList::Nil => false,
            VList::Cons(_, t) => saturated_from(t, need - 1),
        }
    }
}

/// How one argument is supplied.
#[derive(Debug, PartialEq, Eq)]
pub enum ArgKind {
    Pos,
    ByName(String),
    VarPos,
    VarKey,
}

pub open spec fn spec_bind(tgt: Value, kind: ArgKind, arg: Value) -> Result<Closure, VmError> {
    match tgt {
        Value::Closure(c) => match kind {
            ArgKind::Pos => Ok(Closure { positional: c.positional.snoc(arg), ..c }),
            ArgKind::ByName(name) => Ok(Closure { named: c.named.set(name, arg), ..c }),
            ArgKind::VarPos => match arg {
                Value::List(l) => Ok(Closure { positional: c.positional.concat(l), ..c }),
                _ => Err(VmError::TypeError),
            },
            ArgKind::VarKey => match arg {
                Value::Record(f) => if c.named.collides(f) {
                    Err(VmError::ArityError)
                } else {
                    Ok(Closure { named: c.named.merge(f), ..c })
                },
                _ => Err(VmError::TypeError),
            },
        },
        _ => Err(VmError::TypeError),
    }
}

fn list_concat(a: &VList, b: &VList) -> (r: VList)
    ensures
        r == a.concat(*b),
    decreases a,
{
    match a {
        VList::Nil => b.dup(),
        VList::Cons(h, t) => VList::Cons(Box::new(h.dup()), Box::new(list_concat(t, b))),
    }
}

fn fields_merge(base: Fields, extra: &Fields) -> (r: Fields)
    ensures
        r == base.merge(*extra),
    decreases extra,
{
    match extra {
        Fields::Empty => base,
        Fields::Field(k, v, rest) => {
            let next = fields_set(&base, k, v.dup());
            fields_merge(next, rest)
        },
    }
}

/// Whether some name of `other` is bound in `base`.
fn fields_collide(base: &Fields, other: &Fields) -> (r: bool)
    ensures
        r == base.collides(*other),
    decreases other,
{
    match other {
        Fields::Empty => {
            assert(other.keys().len() == 0);
            false
        },
        Fields::Field(k, _, rest) => {
            assert(other.keys() == seq![k@] + rest.keys());
            let hit = match fields_get(base, k) {
                Some(_) => true,
                None => false,
            };
            if hit {
                assert(base.get(other.keys()[0]) is Some);
                true
            } else {
                let r = fields_collide(base, rest);
                if r {
                    proof {
                        let i = choose|i: int|
                            0 <= i < rest.keys().len() && base.get(rest.keys()[i]) is Some;
                        assert(other.keys()[i + 1] == rest.keys()[i]);
                    }
                } else {
                    assert forall|i: int| 0 <= i < other.keys().len() implies !(base.get(
                        other.keys()[i],
                    ) is Some) by {
                        if i > 0 {
                            assert(other.keys()[i] == rest.keys()[i - 1]);
                        }
                    }
                }
                r
            }
        },
    }
}

/// Supplies one argument to the callable `tgt`, giving the closure with the
/// updated argument bag.
pub fn bind(tgt: &Value, kind: &ArgKind, arg: &Value) -> (r: Result<Closure, VmError>)
    ensures
        r == spec_bind(*tgt, *kind, *arg),
{
    match tgt {
        Value::Closure(c) => {
            let base = c.dup();
            match kind {
                ArgKind::Pos => {
                    let positional = list_snoc(&base.positional, arg.dup());
                    Ok(Closure { positional, ..base })
                },
                ArgKind::ByName(name) => {
                    let named = fields_set(&base.named, name, arg.dup());
                    Ok(Closure { named, ..base })
                },
                ArgKind::VarPos => match arg {
                    Value::List(l) => {
                        let positional = list_concat(&base.positional, l);
                        Ok(Closure { positional, ..base })
                    },
                    _ => Err(VmError::TypeError),
                },
                ArgKind::VarKey => match arg {
                    Value::Record(f) => {
                        if fields_collide(&base.named, f) {
                            Err(VmError::ArityError)
                        } else {
                            let Closure { segment, arity, positional, named, captures } = base;
                            let named = fields_merge(named, f);
                            Ok(Closure { segment, arity, positional, named, captures })
                        }
                    },
                    _ => Err(VmError::TypeError),
                },
            }
        },
        _ => Err(VmError::TypeError),
    }
}

/// The arguments of a call not yet bound to registers.
#[derive(Debug, PartialEq, Eq)]
pub struct Incoming {
    pub positional: VList,
    pub named: Fields,
}

/// What one unpack op binds, and the arguments it leaves.
pub open spec fn spec_unpack(inc: Incoming, op: UnpackOp) -> Result<
    (Incoming, Option<(RegAddr, Value)>),
    VmError,
> {
    match op {
        UnpackOp::Pos(r) => match inc.positional {
            VList::Cons(h, t) => Ok((Incoming { positional: *t, named: inc.named }, Some((r, *h)))),
            VList::Nil => Err(VmError::ArityError),
        },
        UnpackOp::Named(r, name) => match inc.named.get(name@) {
            Some(v) => Ok(
                (
                    Incoming { positional: inc.positional, named: inc.named.remove(name@) },
                    Some((r, v)),
                ),
            ),
            None => Err(VmError::ArityError),
        },
        UnpackOp::Optional(r, name) => match inc.named.get(name@) {
            Some(v) => Ok(
                (
                    Incoming { positional: inc.positional, named: inc.named.remove(name@) },
                    Some((r, v)),
                ),
            ),
            None => Ok((inc, None)),
        },
        UnpackOp::VarPos(r) => Ok(
            (
                Incoming { positional: VList::Nil, named: inc.named },
                Some((r, Value::List(inc.positional))),
            ),
        ),
        UnpackOp::VarKey(r) => Ok(
            (
                Incoming { positional: inc.positional, named: Fields::Empty },
                Some((r, Value::Record(inc.named))),
            ),
        ),
    }
}

fn fields_remove(f: &Fields, k: &String) -> (r: Fields)
    ensures
        r == f.remove(k@),
    decreases f,
{
    match f {
        Fields::Empty => Fields::Empty,
        Fields::Field(name, v, rest) => {
            if *name == *k {
                rest.dup()
            } else {
                Fields::Field(name.clone(), Box::new(v.dup()), Box::new(fields_remove(rest, k)))
            }
        },
    }
}

/// Runs one unpack op against the remaining arguments. On success it gives
/// the register binding, if any; on failure the arguments are left as they were.
pub fn unpack(inc: &mut Incoming, op: &UnpackOp) -> (r: Result<Option<(RegAddr, Value)>, VmError>)
    ensures
        match spec_unpack(*old(inc), *op) {
            Ok((rest, binding)) => r == Ok::<Option<(RegAddr, Value)>, VmError>(binding)
                && *final(inc) == rest,
            Err(e) => r == Err::<Option<(RegAddr, Value)>, VmError>(e) && *final(inc) == *old(inc),
        },
{
    match op {
        UnpackOp::Pos(r) => {
            let split = match &inc.positional {
                VList::Cons(h, t) => Some((h.dup(), t.dup())),
                VList::Nil => None,
            };
            match split {
                Some((h, t)) => {
                    inc.positional = t;
                    Ok(Some((*r, h)))
                },
                None => Err(VmError::ArityError),
            }
        },
        UnpackOp::Named(r, name) => match fields_get(&inc.named, name) {
            Some(v) => {
                inc.named = fields_remove(&inc.named, name);
                Ok(Some((*r, v)))
            },
            None => Err(VmError::ArityError),
        },
        UnpackOp::Optional(r, name) => match fields_get(&inc.named, name) {
            Some(v) => {
                inc.named = fields_remove(&inc.named, name);
                Ok(Some((*r, v)))
            },
            None => Ok(None),
        },
        UnpackOp::VarPos(r) => {
            let all = inc.positional.dup();
            inc.positional = VList::Nil;
            Ok(Some((*r, Value::List(all))))
        },
        UnpackOp::VarKey(r) => {
            let all = inc.named.dup();
            inc.named = Fields::Empty;
            Ok(Some((*r, Value::Record(all))))
        },
    }
}

/// Runs the unpack ops in order, giving the arguments left afterwards.
pub open spec fn spec_unpack_all(inc: Incoming, ops: Seq<UnpackOp>) -> Result<Incoming, VmError>
    decreases ops.len(),
{
    if ops.len() == 0 {
        Ok(inc)
    } else {
        match spec_unpack(inc, ops[0]) {
            Ok((rest, _)) => spec_unpack_all(rest, ops.drop_first()),
            Err(e) => Err(e),
        }
    }
}

/// The number of `Pos` ops.
pub open spec fn count_pos(ops: Seq<UnpackOp>) -> nat
    decreases ops.len(),
{
    if ops.len() == 0 {
        0
    } else {
        (if ops[0] is Pos { 1nat } else { 0nat }) + count_pos(ops.drop_first())
    }
}

/// The name an op consumes, if it consumes one.
pub open spec fn op_name(op: UnpackOp) -> Option<Seq<char>> {
    match op {
        UnpackOp::Named(_, n) => Some(n@),
        UnpackOp::Optional(_, n) => Some(n@),
        _ => None,
    }
}

/// Some op consumes the name `k`.
pub open spec fn consumes(ops: Seq<UnpackOp>, k: Seq<char>) -> bool {
    exists|i: int| 0 <= i < ops.len() && op_name(ops[i]) == Some(k)
}

/// The op binds single parameters (neither `VarPos` nor `VarKey`).
pub open spec fn single(op: UnpackOp) -> bool {
    op is Pos || op is Named || op is Optional
}

pub proof fn lemma_get_in_keys(f: Fields, k: Seq<char>)
    ensures
        f.get(k) is Some ==> f.keys().contains(k),
    decreases f,
{
    if let Fields::Field(name, _, rest) = f {
        lemma_get_in_keys(*rest, k);
        if rest.get(k) is Some {
            let i = choose|i: int| 0 <= i < rest.keys().len() && rest.keys()[i] == k;
            assert(f.keys()[i + 1] == k);
        }
        if name@ == k {
            assert(f.keys()[0] == k);
        }
    }
}

pub proof fn lemma_remove(f: Fields, k: Seq<char>, j: Seq<char>)
    requires
        f.unique(),
    ensures
        f.remove(k).unique(),
        f.remove(k).get(j) == (if j == k { None } else { f.get(j) }),
        forall|x: Seq<char>| f.remove(k).keys().contains(x) ==> f.keys().contains(x),
    decreases f,
{
    if let Fields::Field(name, v, rest) = f {
        assert(f.keys() == seq![name@] + rest.keys());
        assert(rest.unique()) by {
            assert(forall|a: int, b: int|
                0 <= a < b < rest.keys().len() ==> f.keys()[a + 1] == rest.keys()[a] && f.keys()[b
                    + 1] == rest.keys()[b]);
        }
        assert(!rest.keys().contains(name@)) by {
            if rest.keys().contains(name@) {
                let i = choose|i: int| 0 <= i < rest.keys().len() && rest.keys()[i] == name@;
                assert(f.keys()[i + 1] == f.keys()[0]);
            }
        }
        lemma_remove(*rest, k, j);
        if name@ == k {
            lemma_get_in_keys(*rest, k);
            assert forall|x: Seq<char>| f.remove(k).keys().contains(x) implies f.keys().contains(
                x,
            ) by {
                let i = choose|i: int| 0 <= i < rest.keys().len() && rest.keys()[i] == x;
                assert(f.keys()[i + 1] == x);
            }
        } else {
            let r = f.remove(k);
            let rr = rest.remove(k);
            assert(r.keys() == seq![name@] + rr.keys());
            assert forall|x: Seq<char>| r.keys().contains(x) implies f.keys().contains(x) by {
                let i = choose|i: int| 0 <= i < r.keys().len() && r.keys()[i] == x;
                if i == 0 {
                    assert(f.keys()[0] == x);
                } else {
                    assert(rr.keys()[i - 1] == x);
                    assert(rest.keys().contains(x));
                    let m = choose|m: int| 0 <= m < rest.keys().len() && rest.keys()[m] == x;
                    assert(f.keys()[m + 1] == x);
                }
            }
            assert(!rr.keys().contains(name@));
            assert forall|a: int, b: int|
                0 <= a < r.keys().len() && 0 <= b < r.keys().len() && a != b implies r.keys()[a]
                != r.keys()[b] by {
                if a == 0 && b > 0 {
                    assert(r.keys()[b] == rr.keys()[b - 1]);
                } else if b == 0 && a > 0 {
                    assert(r.keys()[a] == rr.keys()[a - 1]);
                } else if a > 0 && b > 0 {
                    assert(r.keys()[a] == rr.keys()[a - 1]);
                    assert(r.keys()[b] == rr.keys()[b - 1]);
                }
            }
        }
    }
}

/// After unpacking single parameters, the positional arguments left are
/// exactly those after the first `count_pos(ops)`, in call order, and (with
/// unique names) the named arguments left are exactly those whose names no op
/// consumed, still with unique names. `VarPos` and `VarKey` then bind those.
pub proof fn law_unpack_leftovers(inc: Incoming, ops: Seq<UnpackOp>, k: Seq<char>, r: RegAddr)
    requires
        forall|i: int| 0 <= i < ops.len() ==> single(#[trigger] ops[i]),
        inc.named.unique(),
        spec_unpack_all(inc, ops) is Ok,
    ensures
        ({
            let out = spec_unpack_all(inc, ops)->Ok_0;
            &&& count_pos(ops) <= inc.positional.view_seq().len()
            &&& out.positional.view_seq() == inc.positional.view_seq().skip(count_pos(ops) as int)
            &&& out.named.unique()
            &&& out.named.get(k) == (if consumes(ops, k) { None } else { inc.named.get(k) })
            &&& spec_unpack(out, UnpackOp::VarPos(r)) == Ok::<
                (Incoming, Option<(RegAddr, Value)>),
                VmError,
            >(
                (
                    Incoming { positional: VList::Nil, named: out.named },
                    Some((r, Value::List(out.positional))),
                ),
            )
            &&& spec_unpack(out, UnpackOp::VarKey(r)) == Ok::<
                (Incoming, Option<(RegAddr, Value)>),
                VmError,
            >(
                (
                    Incoming { positional: out.positional, named: Fields::Empty },
                    Some((r, Value::Record(out.named))),
                ),
            )
        }),
    decreases ops.len(),
{
    if ops.len() == 0 {
        assert(inc.positional.view_seq().skip(0) =~= inc.positional.view_seq());
    } else {
        let op = ops[0];
        assert(single(op));
        let rest = spec_unpack(inc, op)->Ok_0.0;
        let tail = ops.drop_first();
        assert forall|i: int| 0 <= i < tail.len() implies single(#[trigger] tail[i]) by {
            assert(tail[i] == ops[i + 1]);
        }
        match op {
            UnpackOp::Named(_, n) => {
                lemma_remove(inc.named, n@, k);
            },
            UnpackOp::Optional(_, n) => {
                if inc.named.get(n@) is Some {
                    lemma_remove(inc.named, n@, k);
                }
            },
            _ => {},
        }
        law_unpack_leftovers(rest, tail, k, r);
        let out = spec_unpack_all(inc, ops)->Ok_0;
        if let VList::Cons(h, t) = inc.positional {
            if op is Pos {
                assert(inc.positional.view_seq() == seq![*h] + t.view_seq());
                assert(out.positional.view_seq() =~= inc.positional.view_seq().skip(
                    count_pos(ops) as int,
                ));
            }
        }
        if consumes(tail, k) {
            let i = choose|i: int| 0 <= i < tail.len() && op_name(tail[i]) == Some(k);
            assert(op_name(ops[i + 1]) == Some(k));
        }
        if consumes(ops, k) && !consumes(tail, k) {
            let i = choose|i: int| 0 <= i < ops.len() && op_name(ops[i]) == Some(k);
            if i > 0 {
                assert(op_name(tail[i - 1]) == Some(k));
            }
        }
        if op_name(op) == Some(k) {
            assert(consumes(ops, k)) by {
                assert(op_name(ops[0]) == Some(k));
            }
        }
        if op is Optional && inc.named.get(op_name(op)->Some_0) is None && op_name(op) == Some(k) {
            assert(rest.named.get(k) is None);
        }
    }
}

proof fn lemma_snoc_twice(l: VList, a: Value, b: Value)
    ensures
        l.snoc(a).snoc(b) == l.concat(
            VList::Cons(Box::new(a), Box::new(VList::Cons(Box::new(b), Box::new(VList::Nil)))),
        ),
    decreases l,
{
    match l {
        VList::Nil => {
            let one = VList::Cons(Box::new(a), Box::new(VList::Nil));
            assert(l.snoc(a) == one);
            assert(VList::Nil.snoc(b) == VList::Cons(Box::new(b), Box::new(VList::Nil)));
            assert(one.snoc(b) == VList::Cons(
                Box::new(a),
                Box::new(VList::Nil.snoc(b)),
            ));
        },
        VList::Cons(_, t) => {
            lemma_snoc_twice(*t, a, b);
        },
    }
}

/// Supplying `a` and then `b` one at a time gives the same closure as
/// supplying both at once, so the saturated calls are the same call and force
/// to the same value. For a two-parameter callable with nothing bound, both
/// results are saturated.
pub proof fn law_curry(c: Closure, a: Value, b: Value)
    ensures
        ({
            let both = Value::List(
                VList::Cons(Box::new(a), Box::new(VList::Cons(Box::new(b), Box::new(VList::Nil)))),
            );
            let once = spec_bind(Value::Closure(c), ArgKind::VarPos, both);
            &&& spec_bind(Value::Closure(c), ArgKind::Pos, a) matches Ok(c1)
            &&& spec_bind(Value::Closure(c1), ArgKind::Pos, b) == once
            &&& (c.arity == 2 && c.positional == VList::Nil) ==> (once matches Ok(c2)
                && spec_saturated(c2))
        }),
{
    lemma_snoc_twice(c.positional, a, b);
    let both = VList::Cons(Box::new(a), Box::new(VList::Cons(Box::new(b), Box::new(VList::Nil))));
    if c.positional == VList::Nil {
        let tail = VList::Cons(Box::new(b), Box::new(VList::Nil));
        assert(VList::Nil.view_seq() == Seq::<Value>::empty());
        assert(tail.view_seq() =~= seq![b]);
        assert(both.view_seq() =~= seq![a, b]);
        assert(c.positional.concat(both) == both);
    }
}

proof fn lemma_set_keys(f: Fields, k: String, v: Value)
    ensures
        f.set(k, v).keys() == (if f.keys().contains(k@) {
            f.keys()
        } else {
            f.keys().push(k@)
        }),
    decreases f,
{
    match f {
        Fields::Empty => {
            assert(f.set(k, v).keys() =~= f.keys().push(k@));
        },
        Fields::Field(name, _, rest) => {
            lemma_set_keys(*rest, k, v);
            assert(f.keys() == seq![name@] + rest.keys());
            if name@ == k@ {
                assert(f.keys()[0] == k@);
                assert(f.set(k, v).keys() =~= f.keys());
            } else if rest.keys().contains(k@) {
                let i = choose|i: int| 0 <= i < rest.keys().len() && rest.keys()[i] == k@;
                assert(f.keys()[i + 1] == k@);
                assert(f.set(k, v).keys() =~= f.keys());
            } else {
                assert(!f.keys().contains(k@)) by {
                    if f.keys().contains(k@) {
                        let i = choose|i: int| 0 <= i < f.keys().len() && f.keys()[i] == k@;
                        if i > 0 {
                            assert(rest.keys()[i - 1] == k@);
                        }
                    }
                }
                assert(f.set(k, v).keys() =~= f.keys().push(k@));
            }
        },
    }
}

/// Binding a name keeps the names of a record or argument bag unique, so
/// records built by `Insert` and bags built by `ByName` and `VarKey` never
/// hold a name twice.
pub proof fn law_set_keeps_unique(f: Fields, k: String, v: Value)
    requires
        f.unique(),
    ensures
        f.set(k, v).unique(),
{
    lemma_set_keys(f, k, v);
    if !f.keys().contains(k@) {
        let ks = f.keys().push(k@);
        assert forall|a: int, b: int| 0 <= a < ks.len() && 0 <= b < ks.len() && a != b implies ks[a]
            != ks[b] by {
            if a == f.keys().len() as int && b < f.keys().len() {
                assert(f.keys()[b] == ks[b]);
            } else if b == f.keys().len() as int && a < f.keys().len() {
                assert(f.keys()[a] == ks[a]);
            }
        }
    }
}

/// Merging a record into unique names keeps them unique.
pub proof fn law_merge_keeps_unique(f: Fields, extra: Fields)
    requires
        f.unique(),
    ensures
        f.merge(extra).unique(),
    decreases extra,
{
    if let Fields::Field(k, v, rest) = extra {
        law_set_keeps_unique(f, k, *v);
        law_merge_keeps_unique(f.set(k, *v), *rest);
    }
}

} // verus!
