use vstd::prelude::*;
use crate::value::{Value, VList, Fields, Scope, Bytes, Closure, RegAddr, SegmentID, VmError};
use crate::builtins;
use crate::builtins::{
    negate, modulo, or, and, decons, cons, index, append, variant, unwrap, insert, lookup,
    spec_negate, spec_add, spec_mul, spec_modulo, spec_or, spec_and, spec_decons, spec_cons,
    spec_index, spec_append, spec_variant, spec_unwrap, spec_insert, spec_lookup,
};
use crate::op::{Op, OpPrimitive, BuiltinOp, ApplyOp, UnpackOp, Segment, Program};
use crate::call::{bind, saturated, unpack, ArgKind, Incoming, spec_bind, spec_saturated, spec_unpack};
use crate::lazy::{Heap, ThunkState, ForceStart, spec_begin, spec_finish};

verus! {

/// The value of register `r`; a register never written holds `Unit`.
pub open spec fn reg_of(regs: Seq<Value>, r: RegAddr) -> Value {
    if (r as int) < regs.len() {
        regs[r as int]
    } else {
        Value::Unit
    }
}

/// The registers with `r` set to `v`, growing the file with `Unit` as needed.
pub open spec fn spec_write(regs: Seq<Value>, r: RegAddr, v: Value) -> Seq<Value> {
    if (r as int) < regs.len() {
        regs.update(r as int, v)
    } else {
        regs + Seq::new((r as int - regs.len()) as nat, |i: int| Value::Unit) + seq![v]
    }
}

/// Reads register `r`.
pub fn read_reg(regs: &Vec<Value>, r: RegAddr) -> (v: Value)
    ensures
        v == reg_of(regs@, r),
{
    if (r as usize) < regs.len() {
        regs[r as usize].dup()
    } else {
        Value::Unit
    }
}

/// Writes register `r`.
pub fn write_reg(regs: &mut Vec<Value>, r: RegAddr, v: Value)
    ensures
        final(regs)@ == spec_write(old(regs)@, r, v),
{
    if (r as usize) < regs.len() {
        regs.set(r as usize, v);
    } else {
        let ghost start = regs@;
        while regs.len() < r as usize
            invariant
                start.len() <= regs@.len() <= r,
                regs@ == start + Seq::new((regs@.len() - start.len()) as nat, |i: int| Value::Unit),
            decreases r - regs.len(),
        {
            regs.push(Value::Unit);
            assert(regs@ =~= start + Seq::new((regs@.len() - start.len()) as nat, |i: int| Value::Unit));
        }
        regs.push(v);
        assert(regs@ =~= spec_write(start, r, v));
    }
}

/// Writes the result of a builtin to `dest`.
pub open spec fn put(regs: Seq<Value>, dest: RegAddr, r: Result<Value, VmError>) -> Result<Seq<Value>, VmError> {
    match r {
        Ok(v) => Ok(spec_write(regs, dest, v)),
        Err(e) => Err(e),
    }
}

/// The registers after a builtin op, or its fault.
pub open spec fn spec_builtin(regs: Seq<Value>, op: BuiltinOp) -> Result<Seq<Value>, VmError> {
    let g = |r: RegAddr| reg_of(regs, r);
    match op {
        BuiltinOp::Negate { dest, src } => put(regs, dest, spec_negate(g(src))),
        BuiltinOp::Add { dest, left, right } => put(regs, dest, spec_add(g(left), g(right))),
        BuiltinOp::Mul { dest, left, right } => put(regs, dest, spec_mul(g(left), g(right))),
        BuiltinOp::Mod { dest, left, right } => put(regs, dest, spec_modulo(g(left), g(right))),
        BuiltinOp::Or { dest, left, right } => put(regs, dest, spec_or(g(left), g(right))),
        BuiltinOp::And { dest, left, right } => put(regs, dest, spec_and(g(left), g(right))),
        BuiltinOp::Decons { head_dest, tail_dest, src } => match spec_decons(g(src)) {
            Ok((h, t)) => Ok(spec_write(spec_write(regs, head_dest, h), tail_dest, t)),
            Err(e) => Err(e),
        },
        BuiltinOp::Cons { dest, head, tail } => put(regs, dest, spec_cons(g(head), g(tail))),
        BuiltinOp::Index { dest, src, index } => put(regs, dest, spec_index(g(src), g(index))),
        BuiltinOp::Append { dest, tuple, item } => put(regs, dest, spec_append(g(tuple), g(item))),
        BuiltinOp::Variant { dest, tag, value } => put(regs, dest, spec_variant(g(tag), g(value))),
        BuiltinOp::Unwrap { dest, src } => put(regs, dest, spec_unwrap(g(src))),
        BuiltinOp::Insert { dest, record, key, value } => put(
            regs,
            dest,
            spec_insert(g(record), g(key), g(value)),
        ),
        BuiltinOp::Lookup { dest, src, key } => put(regs, dest, spec_lookup(g(src), g(key))),
    }
}

fn put_result(regs: &mut Vec<Value>, dest: RegAddr, r: Result<Value, VmError>) -> (out: Result<(), VmError>)
    ensures
        match put(old(regs)@, dest, r) {
            Ok(s) => out is Ok && final(regs)@ == s,
            Err(e) => out == Err::<(), VmError>(e) && final(regs)@ == old(regs)@,
        },
{
    match r {
        Ok(v) => {
            write_reg(regs, dest, v);
            Ok(())
        },
        Err(e) => Err(e),
    }
}

/// Runs one builtin op on the registers. On a fault the registers are unchanged.
pub fn exec_builtin(regs: &mut Vec<Value>, op: &BuiltinOp) -> (out: Result<(), VmError>)
    ensures
        match spec_builtin(old(regs)@, *op) {
            Ok(s) => out is Ok && final(regs)@ == s,
            Err(e) => out == Err::<(), VmError>(e) && final(regs)@ == old(regs)@,
        },
{
    match op {
        BuiltinOp::Negate { dest, src } => {
            let r = negate(&read_reg(regs, *src));
            put_result(regs, *dest, r)
        },
        BuiltinOp::Add { dest, left, right } => {
            let r = builtins::add(&read_reg(regs, *left), &read_reg(regs, *right));
            put_result(regs, *dest, r)
        },
        BuiltinOp::Mul { dest, left, right } => {
            let r = builtins::mul(&read_reg(regs, *left), &read_reg(regs, *right));
            put_result(regs, *dest, r)
        },
        BuiltinOp::Mod { dest, left, right } => {
            let r = modulo(&read_reg(regs, *left), &read_reg(regs, *right));
            put_result(regs, *dest, r)
        },
        BuiltinOp::Or { dest, left, right } => {
            let r = or(&read_reg(regs, *left), &read_reg(regs, *right));
            put_result(regs, *dest, r)
        },
        BuiltinOp::And { dest, left, right } => {
            let r = and(&read_reg(regs, *left), &read_reg(regs, *right));
            put_result(regs, *dest, r)
        },
        BuiltinOp::Decons { head_dest, tail_dest, src } => {
            match decons(&read_reg(regs, *src)) {
                Ok((h, t)) => {
                    write_reg(regs, *head_dest, h);
                    write_reg(regs, *tail_dest, t);
                    Ok(())
                },
                Err(e) => Err(e),
            }
        },
        BuiltinOp::Cons { dest, head, tail } => {
            let r = cons(&read_reg(regs, *head), &read_reg(regs, *tail));
            put_result(regs, *dest, r)
        },
        BuiltinOp::Index { dest, src, index: i } => {
            let r = index(&read_reg(regs, *src), &read_reg(regs, *i));
            put_result(regs, *dest, r)
        },
        BuiltinOp::Append { dest, tuple, item } => {
            let r = append(&read_reg(regs, *tuple), &read_reg(regs, *item));
            put_result(regs, *dest, r)
        },
        BuiltinOp::Variant { dest, tag, value } => {
            let r = variant(&read_reg(regs, *tag), &read_reg(regs, *value));
            put_result(regs, *dest, r)
        },
        BuiltinOp::Unwrap { dest, src } => {
            let r = unwrap(&read_reg(regs, *src));
            put_result(regs, *dest, r)
        },
        BuiltinOp::Insert { dest, record, key, value } => {
            let r = insert(&read_reg(regs, *record), &read_reg(regs, *key), &read_reg(regs, *value));
            put_result(regs, *dest, r)
        },
        BuiltinOp::Lookup { dest, src, key } => {
            let r = lookup(&read_reg(regs, *src), &read_reg(regs, *key));
            put_result(regs, *dest, r)
        },
    }
}

/// The bytes of `s` as a persistent byte sequence.
pub open spec fn bytes_of(s: Seq<u8>) -> Bytes
    decreases s.len(),
{
    if s.len() == 0 {
        Bytes::Empty
    } else {
        Bytes::Byte(s[0], Box::new(bytes_of(s.drop_first())))
    }
}

fn to_bytes(v: &Vec<u8>) -> (r: Bytes)
    ensures
        r == bytes_of(v@),
{
    let mut acc = Bytes::Empty;
    let mut i: usize = v.len();
    assert(v@.subrange(i as int, v@.len() as int).len() == 0);
    while i > 0
        invariant
            i <= v@.len(),
            acc == bytes_of(v@.subrange(i as int, v@.len() as int)),
        decreases i,
    {
        i = i - 1;
        assert(v@.subrange(i as int, v@.len() as int).drop_first() =~= v@.subrange(
            i + 1,
            v@.len() as int,
        ));
        acc = Bytes::Byte(v[i], Box::new(acc));
    }
    assert(v@.subrange(0, v@.len() as int) =~= v@);
    acc
}

/// The number of positional parameters a segment's prologue unpacks.
pub open spec fn pos_params(ops: Seq<Op>) -> nat
    decreases ops.len(),
{
    if ops.len() == 0 {
        0
    } else {
        pos_params(ops.drop_last()) + (if ops.last() matches Op::Unpack(UnpackOp::Pos(_)) {
            1nat
        } else {
            0nat
        })
    }
}

fn count_params(ops: &Vec<Op>) -> (r: usize)
    ensures
        r == pos_params(ops@),
{
    let mut n: usize = 0;
    let mut i: usize = 0;
    while i < ops.len()
        invariant
            i <= ops@.len(),
            n == pos_params(ops@.subrange(0, i as int)),
            n <= i,
        decreases ops.len() - i,
    {
        assert(ops@.subrange(0, i + 1).drop_last() =~= ops@.subrange(0, i as int));
        if let Op::Unpack(UnpackOp::Pos(_)) = &ops[i] {
            n = n + 1;
        }
        i = i + 1;
    }
    assert(ops@.subrange(0, i as int) =~= ops@);
    n
}

/// A closure over segment `id` with nothing bound yet.
pub open spec fn fresh_closure(prog: Program, id: SegmentID) -> Closure {
    Closure {
        segment: id,
        arity: pos_params(prog.segs()[id].ops_view()) as usize,
        positional: VList::Nil,
        named: Fields::Empty,
        captures: Scope::Empty,
    }
}

/// The value an immediate loads, inside segment `seg` of `prog`.
pub open spec fn spec_store(prog: Program, seg: Segment, p: OpPrimitive) -> Result<Value, VmError> {
    match p {
        OpPrimitive::AddrTarget(a) => Ok(Value::Int(a as i64)),
        OpPrimitive::ExternalTarget(t) => if (t as int) < seg.targets_view().len()
            && prog.segs().contains_key(seg.targets_view()[t as int]) {
            Ok(Value::Closure(fresh_closure(prog, seg.targets_view()[t as int])))
        } else {
            Err(VmError::UnregisteredSegment)
        },
        OpPrimitive::Unit => Ok(Value::Unit),
        OpPrimitive::Bool(b) => Ok(Value::Bool(b)),
        OpPrimitive::Int(i) => Ok(Value::Int(i)),
        OpPrimitive::Float(f) => Ok(Value::Float(f)),
        OpPrimitive::Char(c) => Ok(Value::Char(c)),
        OpPrimitive::String(s) => Ok(Value::String(s)),
        OpPrimitive::Buffer(b) => Ok(Value::Buffer(bytes_of(b@))),
        OpPrimitive::EmptyList => Ok(Value::List(VList::Nil)),
        OpPrimitive::EmptyTuple => Ok(Value::Tuple(VList::Nil)),
        OpPrimitive::EmptyRecord => Ok(Value::Record(Fields::Empty)),
    }
}

/// Loads an immediate.
pub fn store_primitive(prog: &Program, seg: &Segment, p: &OpPrimitive) -> (r: Result<Value, VmError>)
    ensures
        r == spec_store(*prog, *seg, *p),
        p.wf() ==> (r matches Ok(Value::Float(b)) ==> crate::value::not_nan(b)),
{
    match p {
        OpPrimitive::AddrTarget(a) => Ok(Value::Int(*a as i64)),
        OpPrimitive::ExternalTarget(t) => match seg.target(*t) {
            Some(id) => match prog.segment(id) {
                Some(callee) => {
                    let arity = count_params(callee.ops());
                    Ok(
                        Value::Closure(
                            Closure {
                                segment: id,
                                arity,
                                positional: VList::Nil,
                                named: Fields::Empty,
                                captures: Scope::Empty,
                            },
                        ),
                    )
                },
                None => Err(VmError::UnregisteredSegment),
            },
            None => Err(VmError::UnregisteredSegment),
        },
        OpPrimitive::Unit => Ok(Value::Unit),
        OpPrimitive::Bool(b) => Ok(Value::Bool(*b)),
        OpPrimitive::Int(i) => Ok(Value::Int(*i)),
        OpPrimitive::Float(f) => Ok(Value::Float(*f)),
        OpPrimitive::Char(c) => Ok(Value::Char(*c)),
        OpPrimitive::String(s) => Ok(Value::String(s.clone())),
        OpPrimitive::Buffer(b) => Ok(Value::Buffer(to_bytes(b))),
        OpPrimitive::EmptyList => Ok(Value::List(VList::Nil)),
        OpPrimitive::EmptyTuple => Ok(Value::Tuple(VList::Nil)),
        OpPrimitive::EmptyRecord => Ok(Value::Record(Fields::Empty)),
    }
}

/// How the thunk store may change while code runs: it only grows, a finished
/// thunk keeps its outcome, and one in progress stays so or is poisoned.
pub open spec fn evolves(a: Seq<ThunkState>, b: Seq<ThunkState>) -> bool {
    &&& a.len() <= b.len()
    &&& forall|j: int|
        0 <= j < a.len() ==> {
            &&& (a[j] is InProgress ==> (#[trigger] b[j] is InProgress || b[j] is Poisoned))
            &&& ((a[j] is Forced || a[j] is Poisoned) ==> b[j] == a[j])
        }
}

/// No forced thunk holds another thunk.
pub open spec fn plain(h: Seq<ThunkState>) -> bool {
    forall|j: int| 0 <= j < h.len() && (#[trigger] h[j]) is Forced ==> !(h[j]->Forced_0 is Thunk)
}

/// What a force of thunk `id` leaves in the store, for its result `r`.
pub open spec fn outcome(r: Result<Value, VmError>) -> ThunkState {
    match r {
        Ok(v) => ThunkState::Forced(v),
        Err(e) => ThunkState::Poisoned(e),
    }
}

proof fn lemma_evolves_trans(a: Seq<ThunkState>, b: Seq<ThunkState>, c: Seq<ThunkState>)
    requires
        evolves(a, b),
        evolves(b, c),
    ensures
        evolves(a, c),
{
    assert forall|j: int| 0 <= j < a.len() implies {
        &&& (a[j] is InProgress ==> (#[trigger] c[j] is InProgress || c[j] is Poisoned))
        &&& ((a[j] is Forced || a[j] is Poisoned) ==> c[j] == a[j])
    } by {
        assert(b[j] is InProgress || b[j] is Poisoned || b[j] == a[j] || a[j] is Unforced);
    }
}

/// The registers after writing the captured bindings, oldest first.
pub open spec fn spec_scope(regs: Seq<Value>, scope: Scope) -> Seq<Value>
    decreases scope,
{
    match scope {
        Scope::Empty => regs,
        Scope::Bind(r, v, rest) => spec_write(spec_scope(regs, *rest), r, *v),
    }
}

/// The result of forcing thunk `id`, and the thunk store afterwards.
pub open spec fn spec_force(prog: Program, heap: Seq<ThunkState>, id: usize, fuel: nat) -> (
    Result<Value, VmError>,
    Seq<ThunkState>,
)
    decreases fuel, 0nat, 0nat,
{
    if id >= heap.len() {
        (Err(VmError::IndexError), heap)
    } else {
        let (s1, start) = spec_begin(heap[id as int]);
        let h1 = heap.update(id as int, s1);
        match start {
            ForceStart::Ready(v) => (Ok(v), h1),
            ForceStart::Failed(e) => (Err(e), h1),
            ForceStart::Evaluate(c) => {
                let (res, h2) = if fuel == 0 {
                    (Err(VmError::OutOfSteps), h1)
                } else {
                    spec_run(prog, h1, c, (fuel - 1) as nat)
                };
                let h3 = h2.update(id as int, spec_finish(h2[id as int], res));
                match h3[id as int] {
                    ThunkState::Forced(v) => (Ok(v), h3),
                    ThunkState::Poisoned(e) => (Err(e), h3),
                    _ => (Err(VmError::CyclicForce), h3),
                }
            },
        }
    }
}

/// The value of `v`, forced if it is a thunk, and the thunk store afterwards.
pub open spec fn spec_resolve(prog: Program, heap: Seq<ThunkState>, v: Value, fuel: nat) -> (
    Result<Value, VmError>,
    Seq<ThunkState>,
)
    decreases fuel, 1nat, 0nat,
{
    match v {
        Value::Thunk(id) => spec_force(prog, heap, id, fuel),
        _ => (Ok(v), heap),
    }
}

/// What running closure `c` with `fuel` returns, and the thunk store afterwards.
pub open spec fn spec_run(prog: Program, heap: Seq<ThunkState>, c: Closure, fuel: nat) -> (
    Result<Value, VmError>,
    Seq<ThunkState>,
)
    decreases fuel, 3nat, 0nat,
{
    spec_frame(
        prog,
        heap,
        spec_scope(Seq::empty(), c.captures),
        Incoming { positional: c.positional, named: c.named },
        c.segment,
        0,
        fuel,
        fuel,
    )
}

/// What a frame returns from op `pc` of segment `seg_id`, with at most
/// `steps` more instructions, and the thunk store afterwards.
pub open spec fn spec_frame(
    prog: Program,
    heap: Seq<ThunkState>,
    regs: Seq<Value>,
    inc: Incoming,
    seg_id: SegmentID,
    pc: int,
    steps: nat,
    fuel: nat,
) -> (Result<Value, VmError>, Seq<ThunkState>)
    decreases fuel, 2nat, steps,
{
    if steps == 0 || fuel == 0 {
        (Err(VmError::OutOfSteps), heap)
    } else if !prog.segs().contains_key(seg_id) {
        (Err(VmError::UnregisteredSegment), heap)
    } else {
        let seg = prog.segs()[seg_id];
        if pc < 0 || pc >= seg.ops_view().len() {
            (Err(VmError::IndexError), heap)
        } else {
            let op = seg.ops_view()[pc];
            let rest = (steps - 1) as nat;
            let f1 = (fuel - 1) as nat;
            match op {
                Op::Invoke(dest, src) => {
                    let (rv, h1) = spec_resolve(prog, heap, reg_of(regs, src), f1);
                    match rv {
                        Ok(Value::Closure(f)) => if !spec_saturated(f) {
                            (Err(VmError::ArityError), h1)
                        } else {
                            let (r2, h2) = spec_run(prog, h1, f, f1);
                            match r2 {
                                Ok(v) => spec_frame(
                                    prog,
                                    h2,
                                    spec_write(regs, dest, v),
                                    inc,
                                    seg_id,
                                    pc + 1,
                                    rest,
                                    fuel,
                                ),
                                Err(e) => (Err(e), h2),
                            }
                        },
                        Ok(_) => (Err(VmError::TypeError), h1),
                        Err(e) => (Err(e), h1),
                    }
                },
                Op::Force(dest) => {
                    let (rv, h1) = spec_resolve(prog, heap, reg_of(regs, dest), f1);
                    match rv {
                        Ok(v) => spec_frame(
                            prog,
                            h1,
                            spec_write(regs, dest, v),
                            inc,
                            seg_id,
                            pc + 1,
                            rest,
                            fuel,
                        ),
                        Err(e) => (Err(e), h1),
                    }
                },
                Op::Return(src) => spec_resolve(prog, heap, reg_of(regs, src), f1),
                Op::JmpAddr(..) | Op::JmpTarget(..) => match spec_branch(
                    regs,
                    seg,
                    seg_id,
                    pc as usize,
                    op,
                ) {
                    Ok((s2, n2)) => spec_frame(prog, heap, regs, inc, s2, n2, rest, fuel),
                    Err(e) => (Err(e), heap),
                },
                _ => match spec_local(prog, seg, regs, inc, heap, op) {
                    Ok((r2, i2, h2)) => spec_frame(prog, h2, r2, i2, seg_id, pc + 1, rest, fuel),
                    Err(e) => (Err(e), heap),
                },
            }
        }
    }
}

fn bind_scope(regs: &mut Vec<Value>, scope: &Scope)
    ensures
        final(regs)@ == spec_scope(old(regs)@, *scope),
    decreases scope,
{
    match scope {
        Scope::Empty => {},
        Scope::Bind(r, v, rest) => {
            bind_scope(regs, rest);
            write_reg(regs, *r, v.dup());
        },
    }
}

/// The op runs inside the current frame, with no call and no jump.
pub open spec fn is_local(op: Op) -> bool {
    op is BuiltinOp || op is Unpack || op is Apply || op is Store || op is ScopeSet
}

/// The parts of an apply op: destination, callable, argument and how it is supplied.
pub open spec fn apply_parts(a: ApplyOp) -> (RegAddr, RegAddr, RegAddr, ArgKind) {
    match a {
        ApplyOp::Pos { dest, tgt, arg } => (dest, tgt, arg, ArgKind::Pos),
        ApplyOp::ByName { dest, tgt, arg, name } => (dest, tgt, arg, ArgKind::ByName(name)),
        ApplyOp::VarPos { dest, tgt, arg } => (dest, tgt, arg, ArgKind::VarPos),
        ApplyOp::VarKey { dest, tgt, arg } => (dest, tgt, arg, ArgKind::VarKey),
    }
}

/// `c` with register `reg` captured as `v`.
pub open spec fn capture(c: Closure, reg: RegAddr, v: Value) -> Closure {
    Closure { captures: Scope::Bind(reg, Box::new(v), Box::new(c.captures)), ..c }
}

/// The registers, remaining arguments and thunk store after a local op of
/// segment `seg`, or its fault.
pub open spec fn spec_local(
    prog: Program,
    seg: Segment,
    regs: Seq<Value>,
    inc: Incoming,
    heap: Seq<ThunkState>,
    op: Op,
) -> Result<(Seq<Value>, Incoming, Seq<ThunkState>), VmError> {
    match op {
        Op::BuiltinOp(b) => match spec_builtin(regs, b) {
            Ok(r) => Ok((r, inc, heap)),
            Err(e) => Err(e),
        },
        Op::Unpack(u) => match spec_unpack(inc, u) {
            Ok((rest, Some((r, v)))) => Ok((spec_write(regs, r, v), rest, heap)),
            Ok((rest, None)) => Ok((regs, rest, heap)),
            Err(e) => Err(e),
        },
        Op::Apply(a) => {
            let (dest, tgt, arg, kind) = apply_parts(a);
            match spec_bind(reg_of(regs, tgt), kind, reg_of(regs, arg)) {
                Ok(c) => if spec_saturated(c) {
                    Ok(
                        (
                            spec_write(regs, dest, Value::Thunk(heap.len() as usize)),
                            inc,
                            heap.push(ThunkState::Unforced(c)),
                        ),
                    )
                } else {
                    Ok((spec_write(regs, dest, Value::Closure(c)), inc, heap))
                },
                Err(e) => Err(e),
            }
        },
        Op::Store(d, p) => match spec_store(prog, seg, p) {
            Ok(v) => Ok((spec_write(regs, d, v), inc, heap)),
            Err(e) => Err(e),
        },
        Op::ScopeSet(d, reg, src) => match reg_of(regs, d) {
            Value::Closure(c) => Ok(
                (spec_write(regs, d, Value::Closure(capture(c, reg, reg_of(regs, src)))), inc, heap),
            ),
            Value::Thunk(t) => if t < heap.len() && heap[t as int] is Unforced {
                Ok(
                    (
                        regs,
                        inc,
                        heap.update(
                            t as int,
                            ThunkState::Unforced(capture(heap[t as int]->Unforced_0, reg, reg_of(regs, src))),
                        ),
                    ),
                )
            } else {
                Err(VmError::TypeError)
            },
            _ => Err(VmError::TypeError),
        },
        _ => Err(VmError::TypeError),
    }
}

/// Runs one local op. On success the frame and the thunk store become what
/// `spec_local` gives.
pub fn exec_local(
    prog: &Program,
    seg: &Segment,
    regs: &mut Vec<Value>,
    inc: &mut Incoming,
    heap: &mut Heap,
    op: &Op,
) -> (out: Result<(), VmError>)
    requires
        is_local(*op),
    ensures
        match spec_local(*prog, *seg, old(regs)@, *old(inc), old(heap).view_seq(), *op) {
            Ok((r, i, h)) => out is Ok && final(regs)@ == r && *final(inc) == i
                && final(heap).view_seq() == h,
            Err(e) => out == Err::<(), VmError>(e) && final(heap).view_seq() == old(heap).view_seq(),
        },
        evolves(old(heap).view_seq(), final(heap).view_seq()),
        plain(old(heap).view_seq()) ==> plain(final(heap).view_seq()),
{
    match op {
        Op::BuiltinOp(b) => exec_builtin(regs, b),
        Op::Unpack(u) => {
            match unpack(inc, u) {
                Ok(Some((reg, v))) => {
                    write_reg(regs, reg, v);
                    Ok(())
                },
                Ok(None) => Ok(()),
                Err(e) => Err(e),
            }
        },
        Op::Apply(a) => {
            let (dest, tgt, arg, kind) = match a {
                ApplyOp::Pos { dest, tgt, arg } => (*dest, *tgt, *arg, ArgKind::Pos),
                ApplyOp::ByName { dest, tgt, arg, name } => (
                    *dest,
                    *tgt,
                    *arg,
                    ArgKind::ByName(name.clone()),
                ),
                ApplyOp::VarPos { dest, tgt, arg } => (*dest, *tgt, *arg, ArgKind::VarPos),
                ApplyOp::VarKey { dest, tgt, arg } => (*dest, *tgt, *arg, ArgKind::VarKey),
            };
            match bind(&read_reg(regs, tgt), &kind, &read_reg(regs, arg)) {
                Ok(bound) => {
                    if saturated(&bound) {
                        let t = heap.new_thunk(bound);
                        write_reg(regs, dest, Value::Thunk(t));
                    } else {
                        write_reg(regs, dest, Value::Closure(bound));
                    }
                    Ok(())
                },
                Err(e) => Err(e),
            }
        },
        Op::Store(dest, p) => {
            match store_primitive(prog, seg, p) {
                Ok(v) => {
                    write_reg(regs, *dest, v);
                    Ok(())
                },
                Err(e) => Err(e),
            }
        },
        Op::ScopeSet(dest, reg, src) => {
            let val = read_reg(regs, *src);
            match read_reg(regs, *dest) {
                Value::Closure(f) => {
                    let Closure { segment, arity, positional, named, captures } = f;
                    let captures = Scope::Bind(*reg, Box::new(val), Box::new(captures));
                    write_reg(
                        regs,
                        *dest,
                        Value::Closure(Closure { segment, arity, positional, named, captures }),
                    );
                    Ok(())
                },
                Value::Thunk(t) => {
                    match heap.state(t) {
                        Some(ThunkState::Unforced(f)) => {
                            let Closure { segment, arity, positional, named, captures } = f;
                            let captures = Scope::Bind(*reg, Box::new(val), Box::new(captures));
                            heap.set_unforced(
                                t,
                                Closure { segment, arity, positional, named, captures },
                            );
                            Ok(())
                        },
                        _ => Err(VmError::TypeError),
                    }
                },
                _ => Err(VmError::TypeError),
            }
        },
        _ => Err(VmError::TypeError),
    }
}

/// Where control goes after a jump op at `pc` of segment `seg_id`: the same
/// segment at `addr` or the next op, or the start of a target segment.
pub open spec fn spec_branch(regs: Seq<Value>, seg: Segment, seg_id: SegmentID, pc: usize, op: Op) -> Result<
    (SegmentID, int),
    VmError,
> {
    match op {
        Op::JmpAddr(c, addr) => match reg_of(regs, c) {
            Value::Bool(true) => Ok((seg_id, addr as int)),
            Value::Bool(false) => Ok((seg_id, pc + 1)),
            _ => Err(VmError::TypeError),
        },
        Op::JmpTarget(c, t) => match reg_of(regs, c) {
            Value::Bool(true) => if (t as int) < seg.targets_view().len() {
                Ok((seg.targets_view()[t as int], 0))
            } else {
                Err(VmError::UnregisteredSegment)
            },
            Value::Bool(false) => Ok((seg_id, pc + 1)),
            _ => Err(VmError::TypeError),
        },
        _ => Err(VmError::TypeError),
    }
}

/// Decides a jump op.
pub fn branch(regs: &Vec<Value>, seg: &Segment, seg_id: SegmentID, pc: usize, op: &Op) -> (r: Result<
    (SegmentID, usize),
    VmError,
>)
    requires
        pc < usize::MAX,
        op is JmpAddr || op is JmpTarget,
    ensures
        match spec_branch(regs@, *seg, seg_id, pc, *op) {
            Ok((s, next)) => r matches Ok((s2, n2)) && s2 == s && n2 == next,
            Err(e) => r == Err::<(SegmentID, usize), VmError>(e),
        },
{
    match op {
        Op::JmpAddr(c, addr) => match read_reg(regs, *c) {
            Value::Bool(true) => Ok((seg_id, *addr as usize)),
            Value::Bool(false) => Ok((seg_id, pc + 1)),
            _ => Err(VmError::TypeError),
        },
        Op::JmpTarget(c, t) => match read_reg(regs, *c) {
            Value::Bool(true) => match seg.target(*t) {
                Some(id) => Ok((id, 0)),
                None => Err(VmError::UnregisteredSegment),
            },
            Value::Bool(false) => Ok((seg_id, pc + 1)),
            _ => Err(VmError::TypeError),
        },
        _ => Err(VmError::TypeError),
    }
}

/// Forces thunk `id` once: the first force evaluates its closure with at most
/// `fuel` nested calls, and the thunk then holds the value or the error that
/// came out, which every later force returns.
pub fn force(prog: &Program, heap: &mut Heap, id: usize, fuel: u64) -> (r: Result<Value, VmError>)
    requires
        plain(old(heap).view_seq()),
    ensures
        plain(final(heap).view_seq()),
        evolves(old(heap).view_seq(), final(heap).view_seq()),
        id < old(heap).view_seq().len() ==> final(heap).view_seq()[id as int] == outcome(r),
        id < old(heap).view_seq().len() && (old(heap).view_seq()[id as int] is Forced
            || old(heap).view_seq()[id as int] is Poisoned) ==> final(heap).view_seq()
            == old(heap).view_seq() && outcome(r) == old(heap).view_seq()[id as int],
        id < old(heap).view_seq().len() && old(heap).view_seq()[id as int] is InProgress ==> r
            == Err::<Value, VmError>(VmError::CyclicForce),
        id >= old(heap).view_seq().len() ==> r == Err::<Value, VmError>(VmError::IndexError)
            && final(heap).view_seq() == old(heap).view_seq(),
        r matches Ok(v) ==> !(v is Thunk),
        (r, final(heap).view_seq()) == spec_force(*prog, old(heap).view_seq(), id, fuel as nat),
    decreases fuel, 0nat,
{
    if id >= heap.len() {
        return Err(VmError::IndexError);
    }
    let ghost h0 = heap.view_seq();
    match heap.begin_force(id) {
        ForceStart::Ready(v) => Ok(v),
        ForceStart::Failed(e) => {
            Err(e)
        },
        ForceStart::Evaluate(c) => {
            let ghost h1 = heap.view_seq();
            let res = if fuel == 0 {
                Err(VmError::OutOfSteps)
            } else {
                run(prog, heap, &c, fuel - 1)
            };
            let ghost h2 = heap.view_seq();
            let keep = match &res {
                Ok(v) => Ok(v.dup()),
                Err(e) => Err(e.dup()),
            };
            heap.finish_force(id, keep);
            let ghost h3 = heap.view_seq();
            assert(h2[id as int] is InProgress || h2[id as int] is Poisoned);
            proof {
                assert forall|j: int| 0 <= j < h0.len() implies {
                    &&& (h0[j] is InProgress ==> (#[trigger] h3[j] is InProgress
                        || h3[j] is Poisoned))
                    &&& ((h0[j] is Forced || h0[j] is Poisoned) ==> h3[j] == h0[j])
                } by {
                    if j != id {
                        assert(h1[j] == h0[j]);
                        assert(h3[j] == h2[j]);
                    }
                }
            }
            match heap.state(id) {
                Some(ThunkState::Forced(v)) => Ok(v),
                Some(ThunkState::Poisoned(e)) => Err(e),
                _ => Err(VmError::CyclicForce),
            }
        },
    }
}

/// The value of `v`, forcing it if it is a thunk.
fn resolve(prog: &Program, heap: &mut Heap, v: Value, fuel: u64) -> (r: Result<Value, VmError>)
    requires
        plain(old(heap).view_seq()),
    ensures
        plain(final(heap).view_seq()),
        evolves(old(heap).view_seq(), final(heap).view_seq()),
        r matches Ok(w) ==> !(w is Thunk),
        !(v is Thunk) ==> r == Ok::<Value, VmError>(v) && final(heap).view_seq()
            == old(heap).view_seq(),
        (r, final(heap).view_seq()) == spec_resolve(*prog, old(heap).view_seq(), v, fuel as nat),
    decreases fuel, 1nat,
{
    match v {
        Value::Thunk(id) => force(prog, heap, id, fuel),
        _ => Ok(v),
    }
}

/// Runs closure `c` as a new frame until it returns or faults. Nested calls
/// and forces go at most `fuel` deep, and the frame runs at most `fuel`
/// instructions; past either bound it faults with `OutOfSteps`. Running past
/// the last op of a segment faults with `IndexError`.
pub fn run(prog: &Program, heap: &mut Heap, c: &Closure, fuel: u64) -> (r: Result<Value, VmError>)
    requires
        plain(old(heap).view_seq()),
    ensures
        plain(final(heap).view_seq()),
        evolves(old(heap).view_seq(), final(heap).view_seq()),
        r matches Ok(v) ==> !(v is Thunk),
        fuel == 0 ==> r == Err::<Value, VmError>(VmError::OutOfSteps) && final(heap).view_seq()
            == old(heap).view_seq(),
        fuel > 0 && !prog.segs().contains_key(c.segment) ==> r == Err::<Value, VmError>(
            VmError::UnregisteredSegment,
        ) && final(heap).view_seq() == old(heap).view_seq(),
        (r, final(heap).view_seq()) == spec_run(*prog, old(heap).view_seq(), *c, fuel as nat),
    decreases fuel, 2nat,
{
    let ghost h0 = heap.view_seq();
    let mut regs: Vec<Value> = Vec::new();
    bind_scope(&mut regs, &c.captures);
    let mut inc = Incoming { positional: c.positional.dup(), named: c.named.dup() };
    let mut seg_id: SegmentID = c.segment;
    let mut pc: usize = 0;
    let mut steps: u64 = fuel;
    proof {
        assert(inc == Incoming { positional: c.positional, named: c.named });
    }
    loop
        invariant
            h0 == old(heap).view_seq(),
            plain(heap.view_seq()),
            evolves(h0, heap.view_seq()),
            steps <= fuel,
            steps == fuel ==> heap.view_seq() == h0 && seg_id == c.segment,
            !prog.segs().contains_key(c.segment) ==> steps == fuel,
            spec_run(*prog, h0, *c, fuel as nat) == spec_frame(
                *prog,
                heap.view_seq(),
                regs@,
                inc,
                seg_id,
                pc as int,
                steps as nat,
                fuel as nat,
            ),
        decreases steps,
    {
        let ghost st = steps;
        if steps == 0 {
            return Err(VmError::OutOfSteps);
        }
        steps = steps - 1;
        let ghost hb = heap.view_seq();
        let seg = match prog.segment(seg_id) {
            Some(s) => s,
            None => return Err(VmError::UnregisteredSegment),
        };
        let ops = seg.ops();
        if pc >= ops.len() {
            return Err(VmError::IndexError);
        }
        let mut next = pc + 1;
        let op = &ops[pc];
        match op {
            Op::Invoke(dest, src) => {
                let callee = match resolve(prog, heap, read_reg(&regs, *src), fuel - 1) {
                    Ok(Value::Closure(f)) => f,
                    Ok(_) => return Err(VmError::TypeError),
                    Err(e) => return Err(e),
                };
                if !saturated(&callee) {
                    return Err(VmError::ArityError);
                }
                let ghost hm = heap.view_seq();
                proof { lemma_evolves_trans(h0, hb, hm); }
                match run(prog, heap, &callee, fuel - 1) {
                    Ok(v) => write_reg(&mut regs, *dest, v),
                    Err(e) => return Err(e),
                }
                proof { lemma_evolves_trans(h0, hm, heap.view_seq()); }
            },
            Op::Force(dest) => {
                match resolve(prog, heap, read_reg(&regs, *dest), fuel - 1) {
                    Ok(v) => write_reg(&mut regs, *dest, v),
                    Err(e) => return Err(e),
                }
            },
            Op::Return(src) => {
                return resolve(prog, heap, read_reg(&regs, *src), fuel - 1);
            },
            Op::JmpAddr(..) | Op::JmpTarget(..) => {
                match branch(&regs, seg, seg_id, pc, op) {
                    Ok((s, n)) => {
                        seg_id = s;
                        next = n;
                    },
                    Err(e) => return Err(e),
                }
            },
            _ => {
                if let Err(e) = exec_local(prog, seg, &mut regs, &mut inc, heap, op) {
                    return Err(e);
                }
            },
        }
        pc = next;
        proof { lemma_evolves_trans(h0, hb, heap.view_seq()); }
    }
}

} // verus!
