use atlas_vm::builtins::{add, and, append, cons, decons, index, insert, lookup, modulo, mul, negate, or, unwrap, variant};
use atlas_vm::call::{bind, saturated, unpack, ArgKind, Incoming};
use atlas_vm::codec::{decode_op, decode_program, encode_op, encode_program};
use atlas_vm::lazy::{ForceStart, Heap, ThunkState};
use atlas_vm::machine::{branch, exec_builtin, exec_local, force, read_reg, run, write_reg};
use atlas_vm::op::{ApplyOp, BuiltinOp, Op, OpPrimitive, Program, Segment, UnpackOp};
use atlas_vm::value::{is_number_bits, Bytes, Closure, Fields, Scope, VList, Value, VmError};

fn list(items: Vec<Value>) -> VList {
    let mut l = VList::Nil;
    for v in items.into_iter().rev() {
        l = VList::Cons(Box::new(v), Box::new(l));
    }
    l
}

fn s(text: &str) -> Value {
    Value::String(text.to_string())
}

fn closure(segment: usize, arity: usize) -> Closure {
    Closure { segment, arity, positional: VList::Nil, named: Fields::Empty, captures: Scope::Empty }
}

fn program_with(ops: Vec<Op>) -> Program {
    let mut p = Program::new();
    let id = p.gen_id();
    let mut seg = Segment::new();
    for op in ops {
        seg.append(op);
    }
    p.register_seg(id, seg);
    p
}

#[test]
fn append_leaves_tuple_unchanged() {
    let t = Value::Tuple(list(vec![Value::Int(1), Value::Int(2)]));
    let before = Value::Tuple(list(vec![Value::Int(1), Value::Int(2)]));
    let r = append(&t, &Value::Int(3)).unwrap();
    assert_eq!(r, Value::Tuple(list(vec![Value::Int(1), Value::Int(2), Value::Int(3)])));
    assert_eq!(t, before);
    assert_eq!(append(&Value::Int(1), &Value::Int(3)), Err(VmError::TypeError));
}

#[test]
fn decons_undoes_cons() {
    let tail = Value::List(list(vec![Value::Int(2), Value::Int(3)]));
    let c = cons(&Value::Int(1), &tail).unwrap();
    assert_eq!(c, Value::List(list(vec![Value::Int(1), Value::Int(2), Value::Int(3)])));
    assert_eq!(decons(&c), Ok((Value::Int(1), tail)));
    assert_eq!(decons(&Value::List(VList::Nil)), Err(VmError::IndexError));
    assert_eq!(cons(&Value::Int(1), &Value::Unit), Err(VmError::TypeError));
}

#[test]
fn insert_then_lookup() {
    let base = Value::Record(Fields::Empty);
    let r = insert(&base, &s("k"), &Value::Int(5)).unwrap();
    assert_eq!(lookup(&r, &s("k")), Ok(Value::Int(5)));
    assert_eq!(base, Value::Record(Fields::Empty));
    assert_eq!(lookup(&r, &s("z")), Err(VmError::IndexError));
    let r2 = insert(&r, &s("k"), &Value::Int(7)).unwrap();
    assert_eq!(lookup(&r2, &s("k")), Ok(Value::Int(7)));
    assert_eq!(lookup(&r, &s("k")), Ok(Value::Int(5)));
}

#[test]
fn arithmetic_and_logic() {
    assert_eq!(add(&Value::Int(1), &Value::Int(2)), Ok(Value::Int(3)));
    assert_eq!(add(&Value::Int(i64::MAX), &Value::Int(1)), Ok(Value::Int(i64::MIN)));
    assert_eq!(add(&Value::Int(1), &Value::Bool(true)), Err(VmError::TypeError));
    assert_eq!(add(&Value::Float(0), &Value::Float(0)), Err(VmError::FloatArithmetic));
    assert_eq!(mul(&Value::Int(6), &Value::Int(7)), Ok(Value::Int(42)));
    assert_eq!(modulo(&Value::Int(7), &Value::Int(3)), Ok(Value::Int(1)));
    assert_eq!(modulo(&Value::Int(-7), &Value::Int(3)), Ok(Value::Int(-1)));
    assert_eq!(modulo(&Value::Int(i64::MIN), &Value::Int(-1)), Ok(Value::Int(0)));
    assert_eq!(modulo(&Value::Int(7), &Value::Int(0)), Err(VmError::DivideByZero));
    assert_eq!(negate(&Value::Int(5)), Ok(Value::Int(-5)));
    assert_eq!(negate(&Value::Float(1.5f64.to_bits())), Ok(Value::Float((-1.5f64).to_bits())));
    assert_eq!(negate(&Value::Unit), Err(VmError::TypeError));
    assert_eq!(or(&Value::Bool(false), &Value::Bool(true)), Ok(Value::Bool(true)));
    assert_eq!(and(&Value::Bool(false), &Value::Bool(true)), Ok(Value::Bool(false)));
    assert_eq!(and(&Value::Int(1), &Value::Bool(true)), Err(VmError::TypeError));
}

#[test]
fn index_variant_unwrap() {
    let t = Value::Tuple(list(vec![Value::Int(10), Value::Int(20)]));
    assert_eq!(index(&t, &Value::Int(1)), Ok(Value::Int(20)));
    assert_eq!(index(&t, &Value::Int(2)), Err(VmError::IndexError));
    assert_eq!(index(&t, &Value::Int(-1)), Err(VmError::IndexError));
    let v = variant(&s("Some"), &Value::Int(4)).unwrap();
    assert_eq!(unwrap(&v), Ok(Value::Int(4)));
    assert_eq!(unwrap(&Value::Int(4)), Err(VmError::TypeError));
}

#[test]
fn one_plus_two_returns_three() {
    let p = program_with(vec![
        Op::Store(0, OpPrimitive::Int(1)),
        Op::Store(1, OpPrimitive::Int(2)),
        Op::BuiltinOp(BuiltinOp::Add { dest: 2, left: 0, right: 1 }),
        Op::Return(2),
    ]);
    let mut heap = Heap::new();
    assert_eq!(run(&p, &mut heap, &closure(0, 0), 100), Ok(Value::Int(3)));
}

#[test]
fn jmp_addr_false_falls_through() {
    let p = program_with(vec![
        Op::Store(0, OpPrimitive::Bool(false)),
        Op::JmpAddr(0, 3),
        Op::Store(1, OpPrimitive::Int(1)),
        Op::Return(1),
    ]);
    let mut heap = Heap::new();
    assert_eq!(run(&p, &mut heap, &closure(0, 0), 100), Ok(Value::Int(1)));
    let q = program_with(vec![
        Op::Store(0, OpPrimitive::Bool(true)),
        Op::JmpAddr(0, 3),
        Op::Store(1, OpPrimitive::Int(1)),
        Op::Return(1),
    ]);
    assert_eq!(run(&q, &mut heap, &closure(0, 0), 100), Ok(Value::Unit));
}

#[test]
fn jmp_target_switches_segment() {
    let mut p = Program::new();
    let a = p.gen_id();
    let b = p.gen_id();
    let mut seg_a = Segment::new();
    let t = seg_a.add_target(b);
    assert_eq!(t, 0);
    seg_a.append(Op::Store(0, OpPrimitive::Bool(true)));
    seg_a.append(Op::Store(1, OpPrimitive::Int(7)));
    seg_a.append(Op::JmpTarget(0, t));
    seg_a.append(Op::Return(0));
    let mut seg_b = Segment::new();
    seg_b.append(Op::Return(1));
    p.register_seg(a, seg_a);
    p.register_seg(b, seg_b);
    let mut heap = Heap::new();
    assert_eq!(run(&p, &mut heap, &closure(a, 0), 100), Ok(Value::Int(7)));
    assert_eq!(run(&p, &mut heap, &closure(9, 0), 100), Err(VmError::UnregisteredSegment));
    assert_eq!(run(&p, &mut heap, &closure(a, 0), 0), Err(VmError::OutOfSteps));
}

#[test]
fn faults_propagate() {
    let p = program_with(vec![
        Op::Store(0, OpPrimitive::Int(1)),
        Op::Store(1, OpPrimitive::Int(0)),
        Op::BuiltinOp(BuiltinOp::Mod { dest: 2, left: 0, right: 1 }),
        Op::Return(2),
    ]);
    let mut heap = Heap::new();
    assert_eq!(run(&p, &mut heap, &closure(0, 0), 100), Err(VmError::DivideByZero));
}

fn adder_program() -> Program {
    // segment 0 adds its two positional parameters; segment 1 curries it
    let mut p = Program::new();
    let adder = p.gen_id();
    let main = p.gen_id();
    let mut s0 = Segment::new();
    s0.append(Op::Unpack(UnpackOp::Pos(0)));
    s0.append(Op::Unpack(UnpackOp::Pos(1)));
    s0.append(Op::BuiltinOp(BuiltinOp::Add { dest: 2, left: 0, right: 1 }));
    s0.append(Op::Return(2));
    let mut s1 = Segment::new();
    let t = s1.add_target(adder);
    s1.append(Op::Store(0, OpPrimitive::ExternalTarget(t)));
    s1.append(Op::Store(1, OpPrimitive::Int(3)));
    s1.append(Op::Store(2, OpPrimitive::Int(4)));
    s1.append(Op::Apply(ApplyOp::Pos { dest: 3, tgt: 0, arg: 1 }));
    s1.append(Op::Apply(ApplyOp::Pos { dest: 4, tgt: 3, arg: 2 }));
    s1.append(Op::Force(4));
    s1.append(Op::Return(4));
    p.register_seg(adder, s0);
    p.register_seg(main, s1);
    p
}

#[test]
fn curried_application_matches_direct_call() {
    let p = adder_program();
    let mut heap = Heap::new();
    assert_eq!(run(&p, &mut heap, &closure(1, 0), 100), Ok(Value::Int(7)));
    let f = Value::Closure(closure(0, 2));
    let c1 = bind(&f, &ArgKind::Pos, &Value::Int(3)).unwrap();
    assert!(!saturated(&c1));
    let c2 = bind(&Value::Closure(c1), &ArgKind::Pos, &Value::Int(4)).unwrap();
    let both = bind(&f, &ArgKind::VarPos, &Value::List(list(vec![Value::Int(3), Value::Int(4)]))).unwrap();
    assert_eq!(c2, both);
    assert!(saturated(&both));
    assert_eq!(run(&p, &mut heap, &both, 100), Ok(Value::Int(7)));
    assert_eq!(run(&p, &mut heap, &c2, 100), Ok(Value::Int(7)));
}

#[test]
fn bind_by_name_and_var_key() {
    let f = Value::Closure(closure(0, 0));
    let c = bind(&f, &ArgKind::ByName("x".to_string()), &Value::Int(1)).unwrap();
    let rec = insert(&Value::Record(Fields::Empty), &s("y"), &Value::Int(2)).unwrap();
    let c2 = bind(&Value::Closure(c), &ArgKind::VarKey, &rec).unwrap();
    assert_eq!(lookup(&Value::Record(c2.named.dup()), &s("y")), Ok(Value::Int(2)));
    assert_eq!(lookup(&Value::Record(c2.named.dup()), &s("x")), Ok(Value::Int(1)));
    let clash = insert(&Value::Record(Fields::Empty), &s("x"), &Value::Int(9)).unwrap();
    assert_eq!(bind(&Value::Closure(c2), &ArgKind::VarKey, &clash), Err(VmError::ArityError));
    assert_eq!(bind(&Value::Int(1), &ArgKind::Pos, &Value::Int(1)), Err(VmError::TypeError));
    assert_eq!(bind(&f, &ArgKind::VarPos, &Value::Int(1)), Err(VmError::TypeError));
}

#[test]
fn unpack_collects_leftovers() {
    let named = insert(&Value::Record(Fields::Empty), &s("x"), &Value::Int(10)).unwrap();
    let named = insert(&named, &s("y"), &Value::Int(20)).unwrap();
    let named = match named {
        Value::Record(f) => f,
        _ => unreachable!(),
    };
    let mut inc = Incoming {
        positional: list(vec![Value::Int(1), Value::Int(2), Value::Int(3)]),
        named,
    };
    assert_eq!(unpack(&mut inc, &UnpackOp::Pos(0)), Ok(Some((0, Value::Int(1)))));
    assert_eq!(unpack(&mut inc, &UnpackOp::Named(1, "x".to_string())), Ok(Some((1, Value::Int(10)))));
    assert_eq!(unpack(&mut inc, &UnpackOp::Optional(2, "z".to_string())), Ok(None));
    assert_eq!(
        unpack(&mut inc, &UnpackOp::VarPos(3)),
        Ok(Some((3, Value::List(list(vec![Value::Int(2), Value::Int(3)])))))
    );
    let rest = unpack(&mut inc, &UnpackOp::VarKey(4)).unwrap().unwrap();
    assert_eq!(lookup(&rest.1, &s("y")), Ok(Value::Int(20)));
    assert_eq!(lookup(&rest.1, &s("x")), Err(VmError::IndexError));
    assert_eq!(unpack(&mut inc, &UnpackOp::Pos(5)), Err(VmError::ArityError));
    assert_eq!(unpack(&mut inc, &UnpackOp::Named(5, "x".to_string())), Err(VmError::ArityError));
}

#[test]
fn force_runs_once_and_memoizes() {
    let p = adder_program();
    let mut heap = Heap::new();
    let mut c = closure(0, 2);
    c.positional = list(vec![Value::Int(1), Value::Int(2)]);
    let id = heap.new_thunk(c);
    assert_eq!(force(&p, &mut heap, id, 100), Ok(Value::Int(3)));
    assert_eq!(heap.state(id), Some(ThunkState::Forced(Value::Int(3))));
    // a second force answers from the memo, even with no fuel left
    assert_eq!(force(&p, &mut heap, id, 0), Ok(Value::Int(3)));
    assert_eq!(heap.begin_force(id), ForceStart::Ready(Value::Int(3)));
    assert_eq!(force(&p, &mut heap, 5, 100), Err(VmError::IndexError));
}

#[test]
fn self_forcing_thunk_is_cyclic() {
    let p = program_with(vec![Op::Force(0), Op::Return(0)]);
    let mut heap = Heap::new();
    let mut c = closure(0, 0);
    c.captures = Scope::Bind(0, Box::new(Value::Thunk(0)), Box::new(Scope::Empty));
    let id = heap.new_thunk(c);
    assert_eq!(id, 0);
    assert_eq!(force(&p, &mut heap, id, 100), Err(VmError::CyclicForce));
    assert_eq!(heap.state(id), Some(ThunkState::Poisoned(VmError::CyclicForce)));
    assert_eq!(force(&p, &mut heap, id, 100), Err(VmError::CyclicForce));
}

#[test]
fn poisoned_and_cancelled_thunks() {
    let p = program_with(vec![
        Op::Store(0, OpPrimitive::Int(1)),
        Op::Store(1, OpPrimitive::Int(0)),
        Op::BuiltinOp(BuiltinOp::Mod { dest: 2, left: 0, right: 1 }),
        Op::Return(2),
    ]);
    let mut heap = Heap::new();
    let id = heap.new_thunk(closure(0, 0));
    assert_eq!(force(&p, &mut heap, id, 100), Err(VmError::DivideByZero));
    assert_eq!(force(&p, &mut heap, id, 100), Err(VmError::DivideByZero));
    let other = heap.new_thunk(closure(0, 0));
    assert!(matches!(heap.begin_force(other), ForceStart::Evaluate(_)));
    heap.cancel(other);
    assert_eq!(heap.state(other), Some(ThunkState::Poisoned(VmError::Cancelled)));
    heap.finish_force(other, Ok(Value::Int(1)));
    assert_eq!(heap.state(other), Some(ThunkState::Poisoned(VmError::Cancelled)));
}

#[test]
fn builtin_on_registers() {
    let mut regs: Vec<Value> = Vec::new();
    write_reg(&mut regs, 3, Value::Int(2));
    assert_eq!(regs.len(), 4);
    assert_eq!(read_reg(&regs, 0), Value::Unit);
    assert_eq!(read_reg(&regs, 9), Value::Unit);
    write_reg(&mut regs, 0, Value::Int(5));
    assert_eq!(exec_builtin(&mut regs, &BuiltinOp::Mul { dest: 1, left: 0, right: 3 }), Ok(()));
    assert_eq!(read_reg(&regs, 1), Value::Int(10));
    assert_eq!(exec_builtin(&mut regs, &BuiltinOp::Negate { dest: 1, src: 2 }), Err(VmError::TypeError));
    assert_eq!(read_reg(&regs, 1), Value::Int(10));
}

#[test]
fn buffer_immediate_loads_bytes() {
    let p = program_with(vec![Op::Store(0, OpPrimitive::Buffer(vec![1, 2])), Op::Return(0)]);
    let mut heap = Heap::new();
    let expect = Value::Buffer(Bytes::Byte(1, Box::new(Bytes::Byte(2, Box::new(Bytes::Empty)))));
    assert_eq!(run(&p, &mut heap, &closure(0, 0), 10), Ok(expect));
}

fn sample_ops() -> Vec<Op> {
    vec![
        Op::BuiltinOp(BuiltinOp::Insert { dest: 1, record: 2, key: 3, value: 4 }),
        Op::BuiltinOp(BuiltinOp::Negate { dest: 1, src: 2 }),
        Op::Unpack(UnpackOp::Named(0, "név".to_string())),
        Op::Unpack(UnpackOp::VarKey(7)),
        Op::Apply(ApplyOp::ByName { dest: 1, tgt: 2, arg: 3, name: "k".to_string() }),
        Op::Store(5, OpPrimitive::Int(-3)),
        Op::Store(5, OpPrimitive::Char('λ')),
        Op::Store(5, OpPrimitive::String("hi".to_string())),
        Op::Store(5, OpPrimitive::Buffer(vec![0, 255])),
        Op::Store(5, OpPrimitive::Float(2.5f64.to_bits())),
        Op::Store(5, OpPrimitive::EmptyRecord),
        Op::Invoke(1, 2),
        Op::ScopeSet(1, 2, 3),
        Op::Force(4),
        Op::JmpTarget(1, 0),
        Op::JmpAddr(1, 9),
        Op::Return(u32::MAX),
    ]
}

#[test]
fn op_words_round_trip() {
    for op in sample_ops() {
        let mut w: Vec<u64> = vec![99];
        encode_op(&op, &mut w);
        let (back, end) = decode_op(&w, 1).unwrap();
        assert_eq!(back, op);
        assert_eq!(end, w.len());
    }
    assert_eq!(decode_op(&vec![14], 0), None);
    assert_eq!(decode_op(&vec![0, 1], 0), None);
    assert_eq!(decode_op(&vec![0, 1, 1u64 << 40], 0), None);
}

#[test]
fn program_words_round_trip() {
    let mut p = Program::new();
    let a = p.gen_id();
    let _skipped = p.gen_id();
    let c = p.gen_id();
    let mut seg = Segment::new();
    seg.add_target(c);
    for op in sample_ops() {
        seg.append(op);
    }
    p.register_seg(a, seg);
    let mut other = Segment::new();
    other.append(Op::Return(0));
    p.register_seg(c, other);
    let w = encode_program(&p);
    assert_eq!(w[0], 3);
    assert_eq!(w[1], 3);
    let q = decode_program(&w).unwrap();
    assert_eq!(q.next_exec(), 3);
    assert_eq!(q.segment(a), p.segment(a));
    assert_eq!(q.segment(1), None);
    assert_eq!(q.segment(c), p.segment(c));
    assert_eq!(encode_program(&q), w);
    let mut bad = w.clone();
    bad.push(0);
    assert!(decode_program(&bad).is_none());
    assert!(decode_program(&vec![0, 1, 0]).is_none());
    assert!(decode_program(&vec![5]).is_none());
    let empty = decode_program(&vec![4, 0]).unwrap();
    assert_eq!(empty.next_exec(), 4);
    assert_eq!(empty.bound_exec(), 0);
}

#[test]
fn branch_decisions() {
    let mut seg = Segment::new();
    seg.add_target(4);
    let regs = vec![Value::Bool(false), Value::Bool(true), Value::Int(1)];
    assert_eq!(branch(&regs, &seg, 2, 5, &Op::JmpAddr(0, 9)), Ok((2, 6)));
    assert_eq!(branch(&regs, &seg, 2, 5, &Op::JmpAddr(1, 9)), Ok((2, 9)));
    assert_eq!(branch(&regs, &seg, 2, 5, &Op::JmpAddr(2, 9)), Err(VmError::TypeError));
    assert_eq!(branch(&regs, &seg, 2, 5, &Op::JmpTarget(1, 0)), Ok((4, 0)));
    assert_eq!(branch(&regs, &seg, 2, 5, &Op::JmpTarget(0, 0)), Ok((2, 6)));
    assert_eq!(branch(&regs, &seg, 2, 5, &Op::JmpTarget(1, 1)), Err(VmError::UnregisteredSegment));
}

#[test]
fn local_ops_update_frame() {
    let p = adder_program();
    let seg = Segment::new();
    let mut regs: Vec<Value> = vec![Value::Closure(closure(0, 2)), Value::Int(3)];
    let mut inc = Incoming { positional: VList::Nil, named: Fields::Empty };
    let mut heap = Heap::new();
    let set = Op::ScopeSet(0, 7, 1);
    assert_eq!(exec_local(&p, &seg, &mut regs, &mut inc, &mut heap, &set), Ok(()));
    let mut expect = closure(0, 2);
    expect.captures = Scope::Bind(7, Box::new(Value::Int(3)), Box::new(Scope::Empty));
    assert_eq!(regs[0], Value::Closure(expect));
    let apply = Op::Apply(ApplyOp::Pos { dest: 2, tgt: 0, arg: 1 });
    assert_eq!(exec_local(&p, &seg, &mut regs, &mut inc, &mut heap, &apply), Ok(()));
    assert!(matches!(regs[2], Value::Closure(_)));
    let apply2 = Op::Apply(ApplyOp::Pos { dest: 3, tgt: 2, arg: 1 });
    assert_eq!(exec_local(&p, &seg, &mut regs, &mut inc, &mut heap, &apply2), Ok(()));
    assert_eq!(regs[3], Value::Thunk(0));
    assert_eq!(heap.len(), 1);
    assert_eq!(force(&p, &mut heap, 0, 100), Ok(Value::Int(6)));
    let bad = Op::ScopeSet(1, 0, 0);
    assert_eq!(exec_local(&p, &seg, &mut regs, &mut inc, &mut heap, &bad), Err(VmError::TypeError));
}

#[test]
fn registered_segment_is_never_replaced() {
    let mut p = Program::new();
    let id = p.gen_id();
    let mut a = Segment::new();
    a.append(Op::Return(0));
    let mut b = Segment::new();
    b.append(Op::Force(1));
    p.register_seg(id, a);
    p.register_seg(id, b);
    let mut expect = Segment::new();
    expect.append(Op::Return(0));
    assert_eq!(p.segment(id), Some(&expect));
    assert_eq!(p.next_exec(), 1);
}

#[test]
fn falls_through_to_eight() {
    let p = program_with(vec![
        Op::Store(0, OpPrimitive::Bool(false)),
        Op::Store(1, OpPrimitive::Int(7)),
        Op::JmpAddr(0, 4),
        Op::Store(1, OpPrimitive::Int(8)),
        Op::Return(1),
    ]);
    let mut heap = Heap::new();
    assert_eq!(run(&p, &mut heap, &closure(0, 0), 100), Ok(Value::Int(8)));
}

#[test]
fn nan_bits_are_not_numbers() {
    assert!(is_number_bits(1.5f64.to_bits()));
    assert!(is_number_bits(f64::INFINITY.to_bits()));
    assert!(!is_number_bits(f64::NAN.to_bits()));
}
