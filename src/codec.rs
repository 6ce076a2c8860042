use vstd::prelude::*;
use crate::value::SegmentID;
use crate::op::{Op, OpPrimitive, BuiltinOp, UnpackOp, ApplyOp, Segment, Program};

verus! {

/// A register or other 32-bit field as a word.
pub open spec fn w32(x: u32) -> u64 {
    x as u64
}

/// A string as its length and then one word per character.
pub open spec fn enc_str(s: Seq<char>) -> Seq<u64> {
    seq![s.len() as u64] + s.map_values(|c: char| c as u64)
}

/// A byte string as its length and then one word per byte.
pub open spec fn enc_bytes(b: Seq<u8>) -> Seq<u64> {
    seq![b.len() as u64] + b.map_values(|x: u8| x as u64)
}

pub open spec fn enc_builtin(b: BuiltinOp) -> Seq<u64> {
    match b {
        BuiltinOp::Negate { dest, src } => seq![0, w32(dest), w32(src)],
        BuiltinOp::Add { dest, left, right } => seq![1, w32(dest), w32(left), w32(right)],
        BuiltinOp::Mul { dest, left, right } => seq![2, w32(dest), w32(left), w32(right)],
        BuiltinOp::Mod { dest, left, right } => seq![3, w32(dest), w32(left), w32(right)],
        BuiltinOp::Or { dest, left, right } => seq![4, w32(dest), w32(left), w32(right)],
        BuiltinOp::And { dest, left, right } => seq![5, w32(dest), w32(left), w32(right)],
        BuiltinOp::Decons { head_dest, tail_dest, src } => seq![
            6,
            w32(head_dest),
            w32(tail_dest),
            w32(src),
        ],
        BuiltinOp::Cons { dest, head, tail } => seq![7, w32(dest), w32(head), w32(tail)],
        BuiltinOp::Index { dest, src, index } => seq![8, w32(dest), w32(src), w32(index)],
        BuiltinOp::Append { dest, tuple, item } => seq![9, w32(dest), w32(tuple), w32(item)],
        BuiltinOp::Variant { dest, tag, value } => seq![10, w32(dest), w32(tag), w32(value)],
        BuiltinOp::Unwrap { dest, src } => seq![11, w32(dest), w32(src)],
        BuiltinOp::Insert { dest, record, key, value } => seq![
            12,
            w32(dest),
            w32(record),
            w32(key),
            w32(value),
        ],
        BuiltinOp::Lookup { dest, src, key } => seq![13, w32(dest), w32(src), w32(key)],
    }
}

pub open spec fn enc_prim(p: OpPrimitive) -> Seq<u64> {
    match p {
        OpPrimitive::AddrTarget(a) => seq![0, w32(a)],
        OpPrimitive::ExternalTarget(t) => seq![1, w32(t)],
        OpPrimitive::Unit => seq![2],
        OpPrimitive::Bool(b) => seq![3, if b { 1 } else { 0 }],
        OpPrimitive::Int(i) => seq![4, i as u64],
        OpPrimitive::Float(f) => seq![5, f],
        OpPrimitive::Char(c) => seq![6, c as u64],
        OpPrimitive::String(s) => seq![7u64] + enc_str(s@),
        OpPrimitive::Buffer(b) => seq![8u64] + enc_bytes(b@),
        OpPrimitive::EmptyList => seq![9],
        OpPrimitive::EmptyTuple => seq![10],
        OpPrimitive::EmptyRecord => seq![11],
    }
}

/// The words of one op: a tag, then its fields.
pub open spec fn enc_op(op: Op) -> Seq<u64> {
    match op {
        Op::BuiltinOp(b) => enc_builtin(b),
        Op::Unpack(u) => match u {
            UnpackOp::Pos(r) => seq![20, w32(r)],
            UnpackOp::Named(r, n) => seq![21, w32(r)] + enc_str(n@),
            UnpackOp::Optional(r, n) => seq![22, w32(r)] + enc_str(n@),
            UnpackOp::VarPos(r) => seq![23, w32(r)],
            UnpackOp::VarKey(r) => seq![24, w32(r)],
        },
        Op::Apply(a) => match a {
            ApplyOp::Pos { dest, tgt, arg } => seq![30, w32(dest), w32(tgt), w32(arg)],
            ApplyOp::ByName { dest, tgt, arg, name } => seq![
                31,
                w32(dest),
                w32(tgt),
                w32(arg),
            ] + enc_str(name@),
            ApplyOp::VarPos { dest, tgt, arg } => seq![32, w32(dest), w32(tgt), w32(arg)],
            ApplyOp::VarKey { dest, tgt, arg } => seq![33, w32(dest), w32(tgt), w32(arg)],
        },
        Op::Store(d, p) => seq![40, w32(d)] + enc_prim(p),
        Op::Invoke(d, s) => seq![41, w32(d), w32(s)],
        Op::ScopeSet(d, r, s) => seq![42, w32(d), w32(r), w32(s)],
        Op::Force(r) => seq![43, w32(r)],
        Op::JmpTarget(r, t) => seq![44, w32(r), w32(t)],
        Op::JmpAddr(r, a) => seq![45, w32(r), w32(a)],
        Op::Return(r) => seq![46, w32(r)],
    }
}

/// Two immediates are the same, strings and buffers compared by content.
pub open spec fn same_prim(a: OpPrimitive, b: OpPrimitive) -> bool {
    match (a, b) {
        (OpPrimitive::String(x), OpPrimitive::String(y)) => x@ == y@,
        (OpPrimitive::Buffer(x), OpPrimitive::Buffer(y)) => x@ == y@,
        _ => a == b,
    }
}

/// Two ops are the same, names compared by content.
pub open spec fn same_op(a: Op, b: Op) -> bool {
    match (a, b) {
        (Op::Unpack(UnpackOp::Named(r, n)), Op::Unpack(UnpackOp::Named(q, m))) => r == q && n@
            == m@,
        (Op::Unpack(UnpackOp::Optional(r, n)), Op::Unpack(UnpackOp::Optional(q, m))) => r == q
            && n@ == m@,
        (
            Op::Apply(ApplyOp::ByName { dest: d1, tgt: t1, arg: a1, name: n1 }),
            Op::Apply(ApplyOp::ByName { dest: d2, tgt: t2, arg: a2, name: n2 }),
        ) => d1 == d2 && t1 == t2 && a1 == a2 && n1@ == n2@,
        (Op::Store(d1, p1), Op::Store(d2, p2)) => d1 == d2 && same_prim(p1, p2),
        _ => a == b,
    }
}

/// Every name and buffer of the op is short enough for its length to fit a word.
pub open spec fn op_fits(op: Op) -> bool {
    match op {
        Op::Unpack(UnpackOp::Named(_, n)) => n@.len() <= u64::MAX,
        Op::Unpack(UnpackOp::Optional(_, n)) => n@.len() <= u64::MAX,
        Op::Apply(ApplyOp::ByName { name, .. }) => name@.len() <= u64::MAX,
        Op::Store(_, OpPrimitive::String(s)) => s@.len() <= u64::MAX,
        Op::Store(_, OpPrimitive::Buffer(b)) => b@.len() <= u64::MAX,
        _ => true,
    }
}

proof fn lemma_split(x1: Seq<u64>, r1: Seq<u64>, x2: Seq<u64>, r2: Seq<u64>)
    requires
        x1 + r1 == x2 + r2,
        x1.len() == x2.len(),
    ensures
        x1 == x2,
        r1 == r2,
{
    assert(x1 =~= (x1 + r1).subrange(0, x1.len() as int));
    assert(x2 =~= (x2 + r2).subrange(0, x1.len() as int));
    assert(r1 =~= (x1 + r1).subrange(x1.len() as int, (x1 + r1).len() as int));
    assert(r2 =~= (x2 + r2).subrange(x1.len() as int, (x1 + r1).len() as int));
}

proof fn lemma_char_range(c: char)
    ensures
        c as u64 == c as int,
        c as u32 == c as int,
        c as int <= 0x10FFFF,
        !(0xD800 <= c as int <= 0xDFFF),
{
}

proof fn lemma_char_word(c: char, d: char)
    requires
        c as u64 == d as u64,
    ensures
        c == d,
{
    assert(c as u64 == c as int);
    assert(d as u64 == d as int);
}

proof fn lemma_str_inj(s: Seq<char>, t: Seq<char>, r1: Seq<u64>, r2: Seq<u64>)
    requires
        enc_str(s) + r1 == enc_str(t) + r2,
        s.len() <= u64::MAX,
        t.len() <= u64::MAX,
    ensures
        s == t,
        r1 == r2,
{
    assert((enc_str(s) + r1)[0] == s.len() as u64);
    assert((enc_str(t) + r2)[0] == t.len() as u64);
    lemma_split(enc_str(s), r1, enc_str(t), r2);
    assert forall|i: int| 0 <= i < s.len() implies s[i] == t[i] by {
        assert(enc_str(s)[i + 1] == enc_str(t)[i + 1]);
        assert(enc_str(s)[i + 1] == s[i] as u64);
        assert(enc_str(t)[i + 1] == t[i] as u64);
        lemma_char_word(s[i], t[i]);
    }
    assert(s =~= t);
}

proof fn lemma_bytes_inj(s: Seq<u8>, t: Seq<u8>, r1: Seq<u64>, r2: Seq<u64>)
    requires
        enc_bytes(s) + r1 == enc_bytes(t) + r2,
        s.len() <= u64::MAX,
        t.len() <= u64::MAX,
    ensures
        s == t,
        r1 == r2,
{
    assert((enc_bytes(s) + r1)[0] == s.len() as u64);
    assert((enc_bytes(t) + r2)[0] == t.len() as u64);
    lemma_split(enc_bytes(s), r1, enc_bytes(t), r2);
    assert forall|i: int| 0 <= i < s.len() implies s[i] == t[i] by {
        assert(enc_bytes(s)[i + 1] == enc_bytes(t)[i + 1]);
        assert(enc_bytes(s)[i + 1] == s[i] as u64);
        assert(enc_bytes(t)[i + 1] == t[i] as u64);
    }
    assert(s =~= t);
}

proof fn lemma_words_eq(x: Seq<u64>, y: Seq<u64>, n: int)
    requires
        x.len() == y.len(),
        x.len() == n,
        forall|i: int| 0 <= i < n ==> x[i] == y[i],
    ensures
        x == y,
{
    assert(x =~= y);
}

/// A fixed-field op: its encoding determines it.
proof fn lemma_fixed_inj(a: Op, b: Op, r1: Seq<u64>, r2: Seq<u64>)
    requires
        enc_op(a) + r1 == enc_op(b) + r2,
        !(a is Unpack && (a->Unpack_0 is Named || a->Unpack_0 is Optional)),
        !(a is Apply && a->Apply_0 is ByName),
        !(a is Store),
    ensures
        a == b,
        r1 == r2,
{
    let s = enc_op(a) + r1;
    let (ea, eb) = (enc_op(a), enc_op(b));
    assert(s[0] == ea[0]);
    assert(s[0] == eb[0]);
    assert(ea.len() >= 2);
    assert(eb.len() >= 2);
    assert(s[1] == ea[1] && s[1] == eb[1]);
    if ea.len() >= 3 && eb.len() >= 3 {
        assert(s[2] == ea[2] && s[2] == eb[2]);
    }
    if ea.len() >= 4 && eb.len() >= 4 {
        assert(s[3] == ea[3] && s[3] == eb[3]);
    }
    if ea.len() >= 5 && eb.len() >= 5 {
        assert(s[4] == ea[4] && s[4] == eb[4]);
    }
    assert(ea.len() == eb.len());
    lemma_split(ea, r1, eb, r2);
}

proof fn lemma_head_tail(h1: Seq<u64>, x1: Seq<u64>, r1: Seq<u64>, h2: Seq<u64>, x2: Seq<u64>, r2: Seq<u64>)
    requires
        (h1 + x1) + r1 == (h2 + x2) + r2,
        h1.len() == h2.len(),
    ensures
        h1 == h2,
        x1 + r1 == x2 + r2,
{
    assert((h1 + x1) + r1 == h1 + (x1 + r1));
    assert((h2 + x2) + r2 == h2 + (x2 + r2));
    lemma_split(h1, x1 + r1, h2, x2 + r2);
}

/// Reading an op back from its words is unambiguous: when one op's words,
/// then more, are another op's words, then more, the two ops are the same
/// and so is what follows.
pub proof fn lemma_op_inj(a: Op, b: Op, r1: Seq<u64>, r2: Seq<u64>)
    requires
        enc_op(a) + r1 == enc_op(b) + r2,
        op_fits(a),
        op_fits(b),
    ensures
        same_op(a, b),
        r1 == r2,
{
    let s = enc_op(a) + r1;
    let (ea, eb) = (enc_op(a), enc_op(b));
    assert(s[0] == ea[0]);
    assert(s[0] == eb[0]);
    match (a, b) {
        (Op::Unpack(UnpackOp::Named(r, n)), Op::Unpack(UnpackOp::Named(q, m))) => {
            lemma_head_tail(seq![21, w32(r)], enc_str(n@), r1, seq![21, w32(q)], enc_str(m@), r2);
            assert(seq![21, w32(r)][1] == seq![21u64, w32(q)][1]);
            lemma_str_inj(n@, m@, r1, r2);
        },
        (Op::Unpack(UnpackOp::Optional(r, n)), Op::Unpack(UnpackOp::Optional(q, m))) => {
            lemma_head_tail(seq![22, w32(r)], enc_str(n@), r1, seq![22, w32(q)], enc_str(m@), r2);
            assert(seq![22, w32(r)][1] == seq![22u64, w32(q)][1]);
            lemma_str_inj(n@, m@, r1, r2);
        },
        (
            Op::Apply(ApplyOp::ByName { dest: d1, tgt: t1, arg: a1, name: n1 }),
            Op::Apply(ApplyOp::ByName { dest: d2, tgt: t2, arg: a2, name: n2 }),
        ) => {
            let h1 = seq![31, w32(d1), w32(t1), w32(a1)];
            let h2 = seq![31, w32(d2), w32(t2), w32(a2)];
            lemma_head_tail(h1, enc_str(n1@), r1, h2, enc_str(n2@), r2);
            assert(h1[1] == h2[1] && h1[2] == h2[2] && h1[3] == h2[3]);
            lemma_str_inj(n1@, n2@, r1, r2);
        },
        (Op::Store(d1, p1), Op::Store(d2, p2)) => {
            let h1 = seq![40, w32(d1)];
            let h2 = seq![40, w32(d2)];
            lemma_head_tail(h1, enc_prim(p1), r1, h2, enc_prim(p2), r2);
            assert(h1[1] == h2[1]);
            lemma_prim_inj(p1, p2, r1, r2);
        },
        _ => {
            if a is Unpack && (a->Unpack_0 is Named || a->Unpack_0 is Optional) {
                assert(false);
            } else if a is Apply && a->Apply_0 is ByName {
                assert(false);
            } else if a is Store {
                assert(false);
            } else {
                lemma_fixed_inj(a, b, r1, r2);
            }
        },
    }
}

proof fn lemma_prim_inj(a: OpPrimitive, b: OpPrimitive, r1: Seq<u64>, r2: Seq<u64>)
    requires
        enc_prim(a) + r1 == enc_prim(b) + r2,
        a matches OpPrimitive::String(s) ==> s@.len() <= u64::MAX,
        a matches OpPrimitive::Buffer(x) ==> x@.len() <= u64::MAX,
        b matches OpPrimitive::String(s) ==> s@.len() <= u64::MAX,
        b matches OpPrimitive::Buffer(x) ==> x@.len() <= u64::MAX,
    ensures
        same_prim(a, b),
        r1 == r2,
{
    let s = enc_prim(a) + r1;
    let (ea, eb) = (enc_prim(a), enc_prim(b));
    assert(s[0] == ea[0]);
    assert(s[0] == eb[0]);
    match (a, b) {
        (OpPrimitive::String(x), OpPrimitive::String(y)) => {
            lemma_head_tail(seq![7u64], enc_str(x@), r1, seq![7u64], enc_str(y@), r2);
            lemma_str_inj(x@, y@, r1, r2);
        },
        (OpPrimitive::Buffer(x), OpPrimitive::Buffer(y)) => {
            lemma_head_tail(seq![8u64], enc_bytes(x@), r1, seq![8u64], enc_bytes(y@), r2);
            lemma_bytes_inj(x@, y@, r1, r2);
        },
        _ => {
            if a is String || a is Buffer {
                assert(false);
            } else {
                assert(ea.len() >= 1 && eb.len() >= 1);
                if ea.len() >= 2 && eb.len() >= 2 {
                    assert(s[1] == ea[1] && s[1] == eb[1]);
                }
                assert(ea.len() == eb.len());
                lemma_split(ea, r1, eb, r2);
                if let (OpPrimitive::Int(i), OpPrimitive::Int(j)) = (a, b) {
                    assert(ea[1] == eb[1]);
                    assert(i as u64 == j as u64 ==> i == j) by (bit_vector);
                }
                if let (OpPrimitive::Char(c), OpPrimitive::Char(d)) = (a, b) {
                    assert(ea[1] == eb[1]);
                    lemma_char_word(c, d);
                }
            }
        },
    }
}

/// `e` stands in `s` from index `pos` on.
pub open spec fn prefix_at(s: Seq<u64>, pos: int, e: Seq<u64>) -> bool {
    0 <= pos && pos + e.len() <= s.len() && s.subrange(pos, pos + e.len()) == e
}

/// Relies on `str::chars`: the characters of the string, in order.
#[verifier::external_body]
fn chars_of(s: &String) -> (r: Vec<char>)
    ensures
        r@ == s@,
{
    s.chars().collect()
}

/// Relies on `String::from_iter`: the string of these characters.
#[verifier::external_body]
fn string_of(v: &Vec<char>) -> (r: String)
    ensures
        r@ == v@,
{
    v.iter().collect()
}

/// Relies on `char::from_u32`: the character with this scalar value, if any.
#[verifier::external_body]
fn char_of(n: u32) -> (r: Option<char>)
    ensures
        r matches Some(c) ==> c as u32 == n,
        (n <= 0x10FFFF && !(0xD800 <= n <= 0xDFFF)) ==> r is Some,
{
    char::from_u32(n)
}

fn push_str(out: &mut Vec<u64>, s: &String)
    ensures
        final(out)@ == old(out)@ + enc_str(s@),
        s@.len() <= u64::MAX,
{
    let cs = chars_of(s);
    out.push(cs.len() as u64);
    let ghost start = out@;
    let mut i: usize = 0;
    while i < cs.len()
        invariant
            i <= cs@.len(),
            out@ == start + cs@.subrange(0, i as int).map_values(|c: char| c as u64),
        decreases cs.len() - i,
    {
        out.push(cs[i] as u64);
        i = i + 1;
        assert(out@ =~= start + cs@.subrange(0, i as int).map_values(|c: char| c as u64));
    }
    assert(cs@.subrange(0, i as int) =~= cs@);
    assert(final(out)@ =~= old(out)@ + enc_str(s@));
}

fn push_bytes(out: &mut Vec<u64>, b: &Vec<u8>)
    ensures
        final(out)@ == old(out)@ + enc_bytes(b@),
        b@.len() <= u64::MAX,
{
    out.push(b.len() as u64);
    let ghost start = out@;
    let mut i: usize = 0;
    while i < b.len()
        invariant
            i <= b@.len(),
            out@ == start + b@.subrange(0, i as int).map_values(|x: u8| x as u64),
        decreases b.len() - i,
    {
        out.push(b[i] as u64);
        i = i + 1;
        assert(out@ =~= start + b@.subrange(0, i as int).map_values(|x: u8| x as u64));
    }
    assert(b@.subrange(0, i as int) =~= b@);
    assert(final(out)@ =~= old(out)@ + enc_bytes(b@));
}

fn decode_str(w: &Vec<u64>, pos: usize) -> (r: Option<(String, usize)>)
    ensures
        r matches Some((s, end)) ==> end == pos + enc_str(s@).len() && s@.len() <= u64::MAX
            && prefix_at(w@, pos as int, enc_str(s@)),
        r is None ==> forall|t: Seq<char>|
            t.len() <= u64::MAX ==> !prefix_at(w@, pos as int, #[trigger] enc_str(t)),
{
    if pos >= w.len() {
        return None;
    }
    let n = w[pos];
    if n > (w.len() - pos - 1) as u64 {
        proof {
            assert forall|t: Seq<char>| t.len() <= u64::MAX implies !prefix_at(
                w@,
                pos as int,
                #[trigger] enc_str(t),
            ) by {
                if prefix_at(w@, pos as int, enc_str(t)) {
                    assert(w@.subrange(pos as int, pos + enc_str(t).len())[0] == enc_str(t)[0]);
                }
            }
        }
        return None;
    }
    let n = n as usize;
    let mut cs: Vec<char> = Vec::new();
    let mut i: usize = 0;
    while i < n
        invariant
            pos + 1 + n <= w.len(),
            n == w@[pos as int],
            i <= n,
            cs@.len() == i,
            forall|k: int| 0 <= k < i ==> (#[trigger] cs@[k]) as u64 == w@[pos + 1 + k],
        decreases n - i,
    {
        let x = w[pos + 1 + i];
        if x > u32::MAX as u64 {
            proof {
                assert forall|t: Seq<char>| t.len() <= u64::MAX implies !prefix_at(
                    w@,
                    pos as int,
                    #[trigger] enc_str(t),
                ) by {
                    if prefix_at(w@, pos as int, enc_str(t)) {
                        assert(w@.subrange(pos as int, pos + enc_str(t).len())[0] == enc_str(t)[0]);
                        assert(enc_str(t)[0] == t.len() as u64);
                        assert(t.len() == n);
                        assert(w@.subrange(pos as int, pos + enc_str(t).len())[i + 1] == enc_str(t)[i + 1]);
                        assert(enc_str(t)[i + 1] == t[i as int] as u64);
                        lemma_char_range(t[i as int]);
                    }
                }
            }
            return None;
        }
        match char_of(x as u32) {
            Some(c) => {
                cs.push(c);
                proof {
                    lemma_char_range(c);
                }
            },
            None => {
                proof {
                    assert forall|t: Seq<char>| t.len() <= u64::MAX implies !prefix_at(
                        w@,
                        pos as int,
                        #[trigger] enc_str(t),
                    ) by {
                        if prefix_at(w@, pos as int, enc_str(t)) {
                            assert(w@.subrange(pos as int, pos + enc_str(t).len())[0] == enc_str(t)[0]);
                            assert(enc_str(t)[0] == t.len() as u64);
                            assert(t.len() == n);
                            assert(w@.subrange(pos as int, pos + enc_str(t).len())[i + 1] == enc_str(
                                t,
                            )[i + 1]);
                            assert(enc_str(t)[i + 1] == t[i as int] as u64);
                            lemma_char_range(t[i as int]);
                        }
                    }
                }
                return None;
            },
        }
        i = i + 1;
    }
    let s = string_of(&cs);
    proof {
        assert(w@.subrange(pos as int, pos + 1 + n) =~= enc_str(s@));
    }
    Some((s, pos + 1 + n))
}

fn decode_bytes(w: &Vec<u64>, pos: usize) -> (r: Option<(Vec<u8>, usize)>)
    ensures
        r matches Some((b, end)) ==> end == pos + enc_bytes(b@).len() && b@.len() <= u64::MAX
            && prefix_at(w@, pos as int, enc_bytes(b@)),
        r is None ==> forall|t: Seq<u8>|
            t.len() <= u64::MAX ==> !prefix_at(w@, pos as int, #[trigger] enc_bytes(t)),
{
    if pos >= w.len() {
        return None;
    }
    let n = w[pos];
    if n > (w.len() - pos - 1) as u64 {
        proof {
            assert forall|t: Seq<u8>| t.len() <= u64::MAX implies !prefix_at(
                w@,
                pos as int,
                #[trigger] enc_bytes(t),
            ) by {
                if prefix_at(w@, pos as int, enc_bytes(t)) {
                    assert(w@.subrange(pos as int, pos + enc_bytes(t).len())[0] == enc_bytes(t)[0]);
                }
            }
        }
        return None;
    }
    let n = n as usize;
    let mut bs: Vec<u8> = Vec::new();
    let mut i: usize = 0;
    while i < n
        invariant
            pos + 1 + n <= w.len(),
            n == w@[pos as int],
            i <= n,
            bs@.len() == i,
            forall|k: int| 0 <= k < i ==> (#[trigger] bs@[k]) as u64 == w@[pos + 1 + k],
        decreases n - i,
    {
        let x = w[pos + 1 + i];
        if x > 255 {
            proof {
                assert forall|t: Seq<u8>| t.len() <= u64::MAX implies !prefix_at(
                    w@,
                    pos as int,
                    #[trigger] enc_bytes(t),
                ) by {
                    if prefix_at(w@, pos as int, enc_bytes(t)) {
                        assert(w@.subrange(pos as int, pos + enc_bytes(t).len())[0] == enc_bytes(t)[0]);
                        assert(enc_bytes(t)[0] == t.len() as u64);
                        assert(w@.subrange(pos as int, pos + enc_bytes(t).len())[i + 1] == enc_bytes(
                            t,
                        )[i + 1]);
                        assert(enc_bytes(t)[i + 1] == t[i as int] as u64);
                    }
                }
            }
            return None;
        }
        bs.push(x as u8);
        i = i + 1;
    }
    proof {
        assert(w@.subrange(pos as int, pos + 1 + n) =~= enc_bytes(bs@));
    }
    Some((bs, pos + 1 + n))
}

/// The number of 32-bit fields that follow an op's tag, before any name or immediate.
pub open spec fn n_fields(tag: u64) -> nat {
    if tag == 0 || tag == 11 {
        2
    } else if 1 <= tag <= 10 || tag == 13 {
        3
    } else if tag == 12 {
        4
    } else if 20 <= tag <= 24 {
        1
    } else if 30 <= tag <= 33 {
        3
    } else if tag == 40 || tag == 43 || tag == 46 {
        1
    } else if tag == 41 || tag == 44 || tag == 45 {
        2
    } else if tag == 42 {
        3
    } else {
        0
    }
}

/// The tags in use.
pub open spec fn known_tag(tag: u64) -> bool {
    tag <= 13 || 20 <= tag <= 24 || 30 <= tag <= 33 || 40 <= tag <= 46
}

proof fn lemma_op_shape(o: Op)
    ensures
        enc_op(o).len() >= 1 + n_fields(enc_op(o)[0]),
        known_tag(enc_op(o)[0]),
        forall|k: int| 1 <= k <= n_fields(enc_op(o)[0]) ==> enc_op(o)[k] <= u32::MAX,
{
}

fn read_fields(w: &Vec<u64>, pos: usize, n: usize) -> (r: Option<Vec<u32>>)
    ensures
        r matches Some(v) ==> v@.len() == n && pos + n <= w@.len() && forall|k: int|
            0 <= k < n ==> w@[pos + k] == (#[trigger] v@[k]) as u64,
        r is None ==> !(pos + n <= w@.len() && forall|k: int|
            0 <= k < n ==> #[trigger] w@[pos + k] <= u32::MAX),
{
    let mut v: Vec<u32> = Vec::new();
    let mut i: usize = 0;
    while i < n
        invariant
            i <= n,
            v@.len() == i,
            pos + i <= w@.len() || i == 0,
            forall|k: int| 0 <= k < i ==> w@[pos + k] == (#[trigger] v@[k]) as u64,
        decreases n - i,
    {
        if pos >= w.len() || w.len() - pos <= i {
            assert(pos + i >= w@.len());
            return None;
        }
        let x = w[pos + i];
        if x > u32::MAX as u64 {
            assert(w@[pos + i] > u32::MAX);
            return None;
        }
        v.push(x as u32);
        i = i + 1;
    }
    if n > 0 {
        assert(pos + n <= w@.len());
    } else if pos > w.len() {
        return None;
    }
    Some(v)
}

proof fn lemma_at(s: Seq<u64>, pos: int, e: Seq<u64>, k: int)
    requires
        prefix_at(s, pos, e),
        0 <= k < e.len(),
    ensures
        s[pos + k] == e[k],
{
    assert(s.subrange(pos, pos + e.len())[k] == e[k]);
}

proof fn lemma_shift(s: Seq<u64>, pos: int, h: Seq<u64>, e: Seq<u64>)
    requires
        prefix_at(s, pos, h + e),
    ensures
        prefix_at(s, pos, h),
        prefix_at(s, pos + h.len(), e),
{
    let full = s.subrange(pos, pos + (h + e).len());
    assert(full == h + e);
    assert(s.subrange(pos, pos + h.len()) =~= full.subrange(0, h.len() as int));
    assert((h + e).subrange(0, h.len() as int) =~= h);
    assert(s.subrange(pos + h.len(), pos + h.len() + e.len()) =~= full.subrange(
        h.len() as int,
        full.len() as int,
    ));
    assert((h + e).subrange(h.len() as int, (h + e).len() as int) =~= e);
}

proof fn lemma_join(s: Seq<u64>, pos: int, h: Seq<u64>, e: Seq<u64>)
    requires
        prefix_at(s, pos, h),
        prefix_at(s, pos + h.len(), e),
    ensures
        prefix_at(s, pos, h + e),
{
    assert(s.subrange(pos, pos + h.len() + e.len()) =~= h + e) by {
        assert forall|k: int| 0 <= k < h.len() + e.len() implies s.subrange(
            pos,
            pos + h.len() + e.len(),
        )[k] == (h + e)[k] by {
            if k < h.len() {
                lemma_at(s, pos, h, k);
            } else {
                lemma_at(s, pos + h.len(), e, k - h.len());
            }
        }
    }
}

/// The immediate's string or buffer is short enough for its length to fit a word.
pub open spec fn prim_fits(p: OpPrimitive) -> bool {
    match p {
        OpPrimitive::String(s) => s@.len() <= u64::MAX,
        OpPrimitive::Buffer(b) => b@.len() <= u64::MAX,
        _ => true,
    }
}

fn decode_prim(w: &Vec<u64>, pos: usize) -> (r: Option<(OpPrimitive, usize)>)
    ensures
        r matches Some((p, end)) ==> end == pos + enc_prim(p).len() && prim_fits(p)
            && prefix_at(w@, pos as int, enc_prim(p)),
        r is None ==> forall|p: OpPrimitive|
            prim_fits(p) ==> !prefix_at(w@, pos as int, #[trigger] enc_prim(p)),
{
    if pos >= w.len() {
        proof {
            assert forall|p: OpPrimitive| prim_fits(p) implies !prefix_at(
                w@,
                pos as int,
                #[trigger] enc_prim(p),
            ) by {
                assert(enc_prim(p).len() >= 1);
            }
        }
        return None;
    }
    let t = w[pos];
    if t == 2 || t >= 9 && t <= 11 {
        let p = if t == 2 {
            OpPrimitive::Unit
        } else if t == 9 {
            OpPrimitive::EmptyList
        } else if t == 10 {
            OpPrimitive::EmptyTuple
        } else {
            OpPrimitive::EmptyRecord
        };
        proof {
            assert(w@.subrange(pos as int, pos + 1) =~= enc_prim(p));
        }
        return Some((p, pos + 1));
    }
    if t == 7 {
        return match decode_str(w, pos + 1) {
            Some((s, end)) => {
                proof {
                    assert(w@.subrange(pos as int, pos + 1) =~= seq![7u64]);
                    lemma_join(w@, pos as int, seq![7u64], enc_str(s@));
                }
                Some((OpPrimitive::String(s), end))
            },
            None => {
                proof {
                    assert forall|p: OpPrimitive| prim_fits(p) implies !prefix_at(
                        w@,
                        pos as int,
                        #[trigger] enc_prim(p),
                    ) by {
                        if prefix_at(w@, pos as int, enc_prim(p)) {
                            lemma_at(w@, pos as int, enc_prim(p), 0);
                            if let OpPrimitive::String(s) = p {
                                lemma_shift(w@, pos as int, seq![7u64], enc_str(s@));
                            }
                        }
                    }
                }
                None
            },
        };
    }
    if t == 8 {
        return match decode_bytes(w, pos + 1) {
            Some((b, end)) => {
                proof {
                    assert(w@.subrange(pos as int, pos + 1) =~= seq![8u64]);
                    lemma_join(w@, pos as int, seq![8u64], enc_bytes(b@));
                }
                Some((OpPrimitive::Buffer(b), end))
            },
            None => {
                proof {
                    assert forall|p: OpPrimitive| prim_fits(p) implies !prefix_at(
                        w@,
                        pos as int,
                        #[trigger] enc_prim(p),
                    ) by {
                        if prefix_at(w@, pos as int, enc_prim(p)) {
                            lemma_at(w@, pos as int, enc_prim(p), 0);
                            if let OpPrimitive::Buffer(b) = p {
                                lemma_shift(w@, pos as int, seq![8u64], enc_bytes(b@));
                            }
                        }
                    }
                }
                None
            },
        };
    }
    if t > 8 || pos + 1 >= w.len() {
        proof {
            assert forall|p: OpPrimitive| prim_fits(p) implies !prefix_at(
                w@,
                pos as int,
                #[trigger] enc_prim(p),
            ) by {
                if prefix_at(w@, pos as int, enc_prim(p)) {
                    lemma_at(w@, pos as int, enc_prim(p), 0);
                }
            }
        }
        return None;
    }
    let x = w[pos + 1];
    let p = if t == 4 {
        proof {
            assert(((x as i64) as u64) == x) by (bit_vector);
        }
        Some(OpPrimitive::Int(x as i64))
    } else if t == 5 {
        Some(OpPrimitive::Float(x))
    } else if t == 3 && x <= 1 {
        Some(OpPrimitive::Bool(x == 1))
    } else if (t == 0 || t == 1 || t == 6) && x <= u32::MAX as u64 {
        if t == 0 {
            Some(OpPrimitive::AddrTarget(x as u32))
        } else if t == 1 {
            Some(OpPrimitive::ExternalTarget(x as u32))
        } else {
            match char_of(x as u32) {
                Some(c) => {
                    proof {
                        lemma_char_range(c);
                    }
                    Some(OpPrimitive::Char(c))
                },
                None => None,
            }
        }
    } else {
        None
    };
    match p {
        Some(p) => {
            proof {
                assert(w@.subrange(pos as int, pos + 2) =~= enc_prim(p));
            }
            Some((p, pos + 2))
        },
        None => {
            proof {
                assert forall|q: OpPrimitive| prim_fits(q) implies !prefix_at(
                    w@,
                    pos as int,
                    #[trigger] enc_prim(q),
                ) by {
                    if prefix_at(w@, pos as int, enc_prim(q)) {
                        lemma_at(w@, pos as int, enc_prim(q), 0);
                        lemma_at(w@, pos as int, enc_prim(q), 1);
                        if let OpPrimitive::Char(c) = q {
                            lemma_char_range(c);
                        }
                    }
                }
            }
            None
        },
    }
}

/// The op has only 32-bit fields after its tag.
pub open spec fn fixed_tag(tag: u64) -> bool {
    known_tag(tag) && !(tag == 21 || tag == 22 || tag == 31 || tag == 40)
}

fn fields_count(tag: u64) -> (r: usize)
    ensures
        r == n_fields(tag),
{
    if tag == 0 || tag == 11 {
        2
    } else if 1 <= tag && tag <= 10 || tag == 13 {
        3
    } else if tag == 12 {
        4
    } else if 20 <= tag && tag <= 24 {
        1
    } else if 30 <= tag && tag <= 33 {
        3
    } else if tag == 40 || tag == 43 || tag == 46 {
        1
    } else if tag == 41 || tag == 44 || tag == 45 {
        2
    } else if tag == 42 {
        3
    } else {
        0
    }
}

fn fixed_op(tag: u64, f: &Vec<u32>) -> (o: Op)
    requires
        fixed_tag(tag),
        f@.len() == n_fields(tag),
    ensures
        enc_op(o) =~= seq![tag] + f@.map_values(|x: u32| x as u64),
        op_fits(o),
{
    if tag == 0 {
        Op::BuiltinOp(BuiltinOp::Negate { dest: f[0], src: f[1] })
    } else if tag == 1 {
        Op::BuiltinOp(BuiltinOp::Add { dest: f[0], left: f[1], right: f[2] })
    } else if tag == 2 {
        Op::BuiltinOp(BuiltinOp::Mul { dest: f[0], left: f[1], right: f[2] })
    } else if tag == 3 {
        Op::BuiltinOp(BuiltinOp::Mod { dest: f[0], left: f[1], right: f[2] })
    } else if tag == 4 {
        Op::BuiltinOp(BuiltinOp::Or { dest: f[0], left: f[1], right: f[2] })
    } else if tag == 5 {
        Op::BuiltinOp(BuiltinOp::And { dest: f[0], left: f[1], right: f[2] })
    } else if tag == 6 {
        Op::BuiltinOp(BuiltinOp::Decons { head_dest: f[0], tail_dest: f[1], src: f[2] })
    } else if tag == 7 {
        Op::BuiltinOp(BuiltinOp::Cons { dest: f[0], head: f[1], tail: f[2] })
    } else if tag == 8 {
        Op::BuiltinOp(BuiltinOp::Index { dest: f[0], src: f[1], index: f[2] })
    } else if tag == 9 {
        Op::BuiltinOp(BuiltinOp::Append { dest: f[0], tuple: f[1], item: f[2] })
    } else if tag == 10 {
        Op::BuiltinOp(BuiltinOp::Variant { dest: f[0], tag: f[1], value: f[2] })
    } else if tag == 11 {
        Op::BuiltinOp(BuiltinOp::Unwrap { dest: f[0], src: f[1] })
    } else if tag == 12 {
        Op::BuiltinOp(BuiltinOp::Insert { dest: f[0], record: f[1], key: f[2], value: f[3] })
    } else if tag == 13 {
        Op::BuiltinOp(BuiltinOp::Lookup { dest: f[0], src: f[1], key: f[2] })
    } else if tag == 20 {
        Op::Unpack(UnpackOp::Pos(f[0]))
    } else if tag == 23 {
        Op::Unpack(UnpackOp::VarPos(f[0]))
    } else if tag == 24 {
        Op::Unpack(UnpackOp::VarKey(f[0]))
    } else if tag == 30 {
        Op::Apply(ApplyOp::Pos { dest: f[0], tgt: f[1], arg: f[2] })
    } else if tag == 32 {
        Op::Apply(ApplyOp::VarPos { dest: f[0], tgt: f[1], arg: f[2] })
    } else if tag == 33 {
        Op::Apply(ApplyOp::VarKey { dest: f[0], tgt: f[1], arg: f[2] })
    } else if tag == 41 {
        Op::Invoke(f[0], f[1])
    } else if tag == 42 {
        Op::ScopeSet(f[0], f[1], f[2])
    } else if tag == 43 {
        Op::Force(f[0])
    } else if tag == 44 {
        Op::JmpTarget(f[0], f[1])
    } else if tag == 45 {
        Op::JmpAddr(f[0], f[1])
    } else {
        Op::Return(f[0])
    }
}

/// Reads one op at `pos`: it succeeds exactly where the words there begin
/// with the encoding of an op, and then gives that op and where it ends.
pub fn decode_op(w: &Vec<u64>, pos: usize) -> (r: Option<(Op, usize)>)
    ensures
        r matches Some((o, end)) ==> end == pos + enc_op(o).len() && op_fits(o)
            && prefix_at(w@, pos as int, enc_op(o)),
        r is None ==> forall|o: Op| op_fits(o) ==> !prefix_at(w@, pos as int, #[trigger] enc_op(o)),
{
    if pos >= w.len() {
        proof {
            assert forall|o: Op| op_fits(o) implies !prefix_at(w@, pos as int, #[trigger] enc_op(o)) by {
                lemma_op_shape(o);
            }
        }
        return None;
    }
    let tag = w[pos];
    let n = fields_count(tag);
    let known = tag <= 13 || 20 <= tag && tag <= 24 || 30 <= tag && tag <= 33 || 40 <= tag && tag <= 46;
    if !known {
        proof {
            assert forall|o: Op| op_fits(o) implies !prefix_at(w@, pos as int, #[trigger] enc_op(o)) by {
                lemma_op_shape(o);
                if prefix_at(w@, pos as int, enc_op(o)) {
                    lemma_at(w@, pos as int, enc_op(o), 0);
                }
            }
        }
        return None;
    }
    let f = match read_fields(w, pos + 1, n) {
        Some(f) => f,
        None => {
            proof {
                assert forall|o: Op| op_fits(o) implies !prefix_at(
                    w@,
                    pos as int,
                    #[trigger] enc_op(o),
                ) by {
                    lemma_op_shape(o);
                    if prefix_at(w@, pos as int, enc_op(o)) {
                        lemma_at(w@, pos as int, enc_op(o), 0);
                        assert forall|k: int| 0 <= k < n implies #[trigger] w@[pos + 1 + k]
                            <= u32::MAX by {
                            lemma_at(w@, pos as int, enc_op(o), k + 1);
                        }
                        assert(forall|k: int| 0 <= k < n ==> #[trigger] w@[(pos + 1) + k] <= u32::MAX);
                    }
                }
            }
            return None;
        },
    };
    let ghost head = seq![tag] + f@.map_values(|x: u32| x as u64);
    proof {
        assert(w@.subrange(pos as int, pos + 1 + n) =~= head);
    }
    if tag == 21 || tag == 22 || tag == 31 {
        match decode_str(w, pos + 1 + n) {
            Some((name, end)) => {
                let o = if tag == 21 {
                    Op::Unpack(UnpackOp::Named(f[0], name))
                } else if tag == 22 {
                    Op::Unpack(UnpackOp::Optional(f[0], name))
                } else {
                    Op::Apply(ApplyOp::ByName { dest: f[0], tgt: f[1], arg: f[2], name })
                };
                proof {
                    lemma_join(w@, pos as int, head, enc_str(name@));
                    assert(enc_op(o) =~= head + enc_str(name@));
                }
                Some((o, end))
            },
            None => {
                proof {
                    assert forall|o: Op| op_fits(o) implies !prefix_at(
                        w@,
                        pos as int,
                        #[trigger] enc_op(o),
                    ) by {
                        if prefix_at(w@, pos as int, enc_op(o)) {
                            lemma_at(w@, pos as int, enc_op(o), 0);
                            match o {
                                Op::Unpack(UnpackOp::Named(r, m)) => {
                                    lemma_shift(w@, pos as int, seq![21, w32(r)], enc_str(m@));
                                },
                                Op::Unpack(UnpackOp::Optional(r, m)) => {
                                    lemma_shift(w@, pos as int, seq![22, w32(r)], enc_str(m@));
                                },
                                Op::Apply(ApplyOp::ByName { dest, tgt, arg, name: m }) => {
                                    lemma_shift(
                                        w@,
                                        pos as int,
                                        seq![31, w32(dest), w32(tgt), w32(arg)],
                                        enc_str(m@),
                                    );
                                },
                                _ => {},
                            }
                        }
                    }
                }
                None
            },
        }
    } else if tag == 40 {
        match decode_prim(w, pos + 2) {
            Some((p, end)) => {
                let o = Op::Store(f[0], p);
                proof {
                    lemma_join(w@, pos as int, head, enc_prim(p));
                    assert(enc_op(o) =~= head + enc_prim(p));
                }
                Some((o, end))
            },
            None => {
                proof {
                    assert forall|o: Op| op_fits(o) implies !prefix_at(
                        w@,
                        pos as int,
                        #[trigger] enc_op(o),
                    ) by {
                        if prefix_at(w@, pos as int, enc_op(o)) {
                            lemma_at(w@, pos as int, enc_op(o), 0);
                            if let Op::Store(d, p) = o {
                                lemma_shift(w@, pos as int, seq![40, w32(d)], enc_prim(p));
                            }
                        }
                    }
                }
                None
            },
        }
    } else {
        let o = fixed_op(tag, &f);
        Some((o, pos + 1 + n))
    }
}

/// Appends the words of `op`.
pub fn encode_op(op: &Op, out: &mut Vec<u64>)
    ensures
        final(out)@ == old(out)@ + enc_op(*op),
        op_fits(*op),
{
    let ghost start = out@;
    match op {
        Op::BuiltinOp(b) => {
            match b {
                BuiltinOp::Negate { dest, src } => {
                    out.push(0);
                    out.push(*dest as u64);
                    out.push(*src as u64);
                },
                BuiltinOp::Add { dest, left, right } => {
                    out.push(1);
                    out.push(*dest as u64);
                    out.push(*left as u64);
                    out.push(*right as u64);
                },
                BuiltinOp::Mul { dest, left, right } => {
                    out.push(2);
                    out.push(*dest as u64);
                    out.push(*left as u64);
                    out.push(*right as u64);
                },
                BuiltinOp::Mod { dest, left, right } => {
                    out.push(3);
                    out.push(*dest as u64);
                    out.push(*left as u64);
                    out.push(*right as u64);
                },
                BuiltinOp::Or { dest, left, right } => {
                    out.push(4);
                    out.push(*dest as u64);
                    out.push(*left as u64);
                    out.push(*right as u64);
                },
                BuiltinOp::And { dest, left, right } => {
                    out.push(5);
                    out.push(*dest as u64);
                    out.push(*left as u64);
                    out.push(*right as u64);
                },
                BuiltinOp::Decons { head_dest, tail_dest, src } => {
                    out.push(6);
                    out.push(*head_dest as u64);
                    out.push(*tail_dest as u64);
                    out.push(*src as u64);
                },
                BuiltinOp::Cons { dest, head, tail } => {
                    out.push(7);
                    out.push(*dest as u64);
                    out.push(*head as u64);
                    out.push(*tail as u64);
                },
                BuiltinOp::Index { dest, src, index } => {
                    out.push(8);
                    out.push(*dest as u64);
                    out.push(*src as u64);
                    out.push(*index as u64);
                },
                BuiltinOp::Append { dest, tuple, item } => {
                    out.push(9);
                    out.push(*dest as u64);
                    out.push(*tuple as u64);
                    out.push(*item as u64);
                },
                BuiltinOp::Variant { dest, tag, value } => {
                    out.push(10);
                    out.push(*dest as u64);
                    out.push(*tag as u64);
                    out.push(*value as u64);
                },
                BuiltinOp::Unwrap { dest, src } => {
                    out.push(11);
                    out.push(*dest as u64);
                    out.push(*src as u64);
                },
                BuiltinOp::Insert { dest, record, key, value } => {
                    out.push(12);
                    out.push(*dest as u64);
                    out.push(*record as u64);
                    out.push(*key as u64);
                    out.push(*value as u64);
                },
                BuiltinOp::Lookup { dest, src, key } => {
                    out.push(13);
                    out.push(*dest as u64);
                    out.push(*src as u64);
                    out.push(*key as u64);
                },
            }
        },
        Op::Unpack(u) => {
            match u {
                UnpackOp::Pos(r) => {
                    out.push(20);
                    out.push(*r as u64);
                },
                UnpackOp::Named(r, n) => {
                    out.push(21);
                    out.push(*r as u64);
                    push_str(out, n);
                },
                UnpackOp::Optional(r, n) => {
                    out.push(22);
                    out.push(*r as u64);
                    push_str(out, n);
                },
                UnpackOp::VarPos(r) => {
                    out.push(23);
                    out.push(*r as u64);
                },
                UnpackOp::VarKey(r) => {
                    out.push(24);
                    out.push(*r as u64);
                },
            }
        },
        Op::Apply(a) => {
            match a {
                ApplyOp::Pos { dest, tgt, arg } => {
                    out.push(30);
                    out.push(*dest as u64);
                    out.push(*tgt as u64);
                    out.push(*arg as u64);
                },
                ApplyOp::ByName { dest, tgt, arg, name } => {
                    out.push(31);
                    out.push(*dest as u64);
                    out.push(*tgt as u64);
                    out.push(*arg as u64);
                    push_str(out, name);
                },
                ApplyOp::VarPos { dest, tgt, arg } => {
                    out.push(32);
                    out.push(*dest as u64);
                    out.push(*tgt as u64);
                    out.push(*arg as u64);
                },
                ApplyOp::VarKey { dest, tgt, arg } => {
                    out.push(33);
                    out.push(*dest as u64);
                    out.push(*tgt as u64);
                    out.push(*arg as u64);
                },
            }
        },
        Op::Store(d, p) => {
            out.push(40);
            out.push(*d as u64);
            encode_prim(p, out);
        },
        Op::Invoke(d, src) => {
            out.push(41);
            out.push(*d as u64);
            out.push(*src as u64);
        },
        Op::ScopeSet(d, r, src) => {
            out.push(42);
            out.push(*d as u64);
            out.push(*r as u64);
            out.push(*src as u64);
        },
        Op::Force(r) => {
            out.push(43);
            out.push(*r as u64);
        },
        Op::JmpTarget(r, t) => {
            out.push(44);
            out.push(*r as u64);
            out.push(*t as u64);
        },
        Op::JmpAddr(r, a) => {
            out.push(45);
            out.push(*r as u64);
            out.push(*a as u64);
        },
        Op::Return(r) => {
            out.push(46);
            out.push(*r as u64);
        },
    }
    assert(out@ =~= start + enc_op(*op));
}

fn encode_prim(p: &OpPrimitive, out: &mut Vec<u64>)
    ensures
        final(out)@ == old(out)@ + enc_prim(*p),
        prim_fits(*p),
{
    let ghost start = out@;
    match p {
        OpPrimitive::AddrTarget(a) => {
            out.push(0);
            out.push(*a as u64);
        },
        OpPrimitive::ExternalTarget(t) => {
            out.push(1);
            out.push(*t as u64);
        },
        OpPrimitive::Unit => out.push(2),
        OpPrimitive::Bool(b) => {
            out.push(3);
            out.push(if *b { 1 } else { 0 });
        },
        OpPrimitive::Int(i) => {
            out.push(4);
            out.push(*i as u64);
        },
        OpPrimitive::Float(f) => {
            out.push(5);
            out.push(*f);
        },
        OpPrimitive::Char(c) => {
            out.push(6);
            out.push(*c as u64);
        },
        OpPrimitive::String(s) => {
            out.push(7);
            push_str(out, s);
        },
        OpPrimitive::Buffer(b) => {
            out.push(8);
            push_bytes(out, b);
        },
        OpPrimitive::EmptyList => out.push(9),
        OpPrimitive::EmptyTuple => out.push(10),
        OpPrimitive::EmptyRecord => out.push(11),
    }
    assert(out@ =~= start + enc_prim(*p));
}

/// The words of a sequence of ops, one after another.
pub open spec fn enc_ops(ops: Seq<Op>) -> Seq<u64>
    decreases ops.len(),
{
    if ops.len() == 0 {
        Seq::empty()
    } else {
        enc_op(ops[0]) + enc_ops(ops.drop_first())
    }
}

/// A segment as its op count, its ops, its target count and its targets.
pub open spec fn enc_seg(s: Segment) -> Seq<u64> {
    seq![s.ops_view().len() as u64] + enc_ops(s.ops_view()) + seq![s.targets_view().len() as u64]
        + s.targets_view().map_values(|t: SegmentID| t as u64)
}

/// Every op of the segment fits.
pub open spec fn seg_fits(s: Segment) -> bool {
    forall|k: int| 0 <= k < s.ops_view().len() ==> op_fits(#[trigger] s.ops_view()[k])
}

/// Two segments are the same: ops one for one, and the same targets.
pub open spec fn same_seg(a: Segment, b: Segment) -> bool {
    &&& a.ops_view().len() == b.ops_view().len()
    &&& forall|k: int| 0 <= k < a.ops_view().len() ==> same_op(#[trigger] a.ops_view()[k], b.ops_view()[k])
    &&& a.targets_view() == b.targets_view()
}

proof fn lemma_ops_snoc(ops: Seq<Op>, o: Op)
    ensures
        enc_ops(ops.push(o)) == enc_ops(ops) + enc_op(o),
    decreases ops.len(),
{
    if ops.len() == 0 {
        assert(ops.push(o).drop_first() =~= Seq::<Op>::empty());
        assert(ops.push(o)[0] == o);
        assert(enc_ops(ops.push(o).drop_first()) == Seq::<u64>::empty());
        assert(enc_ops(ops) == Seq::<u64>::empty());
        assert(enc_ops(ops.push(o)) =~= enc_ops(ops) + enc_op(o));
    } else {
        lemma_ops_snoc(ops.drop_first(), o);
        assert(ops.push(o).drop_first() =~= ops.drop_first().push(o));
        assert(ops.push(o)[0] == ops[0]);
        assert(enc_ops(ops.push(o)) =~= enc_ops(ops) + enc_op(o));
    }
}

proof fn lemma_ops_skip(ops: Seq<Op>, i: int)
    requires
        0 <= i < ops.len(),
    ensures
        enc_ops(ops.skip(i)) == enc_op(ops[i]) + enc_ops(ops.skip(i + 1)),
{
    assert(ops.skip(i).drop_first() =~= ops.skip(i + 1));
}

proof fn lemma_ops_inj(a: Seq<Op>, b: Seq<Op>, r1: Seq<u64>, r2: Seq<u64>)
    requires
        a.len() == b.len(),
        enc_ops(a) + r1 == enc_ops(b) + r2,
        forall|k: int| 0 <= k < a.len() ==> op_fits(#[trigger] a[k]),
        forall|k: int| 0 <= k < b.len() ==> op_fits(#[trigger] b[k]),
    ensures
        forall|k: int| 0 <= k < a.len() ==> same_op(#[trigger] a[k], b[k]),
        r1 == r2,
    decreases a.len(),
{
    if a.len() > 0 {
        let (ta, tb) = (a.drop_first(), b.drop_first());
        assert(enc_op(a[0]) + (enc_ops(ta) + r1) == enc_op(b[0]) + (enc_ops(tb) + r2)) by {
            assert(enc_ops(a) + r1 =~= enc_op(a[0]) + (enc_ops(ta) + r1));
            assert(enc_ops(b) + r2 =~= enc_op(b[0]) + (enc_ops(tb) + r2));
        }
        lemma_op_inj(a[0], b[0], enc_ops(ta) + r1, enc_ops(tb) + r2);
        assert forall|k: int| 0 <= k < ta.len() implies op_fits(#[trigger] ta[k]) by {
            assert(ta[k] == a[k + 1]);
        }
        assert forall|k: int| 0 <= k < tb.len() implies op_fits(#[trigger] tb[k]) by {
            assert(tb[k] == b[k + 1]);
        }
        lemma_ops_inj(ta, tb, r1, r2);
        assert forall|k: int| 0 <= k < a.len() implies same_op(#[trigger] a[k], b[k]) by {
            if k > 0 {
                assert(ta[k - 1] == a[k] && tb[k - 1] == b[k]);
            }
        }
    } else {
        assert(enc_ops(a) + r1 =~= r1);
        assert(enc_ops(b) + r2 =~= r2);
    }
}

/// Reading a segment back from its words is unambiguous.
pub proof fn lemma_seg_inj(a: Segment, b: Segment, r1: Seq<u64>, r2: Seq<u64>)
    requires
        enc_seg(a) + r1 == enc_seg(b) + r2,
        seg_fits(a),
        seg_fits(b),
    ensures
        same_seg(a, b),
        r1 == r2,
{
    a.lemma_lens();
    b.lemma_lens();
    let (oa, ob) = (a.ops_view(), b.ops_view());
    let (ta, tb) = (a.targets_view(), b.targets_view());
    let tail_a = seq![ta.len() as u64] + ta.map_values(|t: SegmentID| t as u64);
    let tail_b = seq![tb.len() as u64] + tb.map_values(|t: SegmentID| t as u64);
    assert(enc_seg(a) + r1 =~= seq![oa.len() as u64] + (enc_ops(oa) + (tail_a + r1)));
    assert(enc_seg(b) + r2 =~= seq![ob.len() as u64] + (enc_ops(ob) + (tail_b + r2)));
    lemma_split(seq![oa.len() as u64], enc_ops(oa) + (tail_a + r1), seq![ob.len() as u64], enc_ops(ob) + (tail_b + r2));
    assert(seq![oa.len() as u64][0] == seq![ob.len() as u64][0]);
    lemma_ops_inj(oa, ob, tail_a + r1, tail_b + r2);
    assert((tail_a + r1)[0] == (tail_b + r2)[0]);
    assert(tail_a.len() == tail_b.len());
    lemma_split(tail_a, r1, tail_b, r2);
    assert forall|k: int| 0 <= k < ta.len() implies ta[k] == tb[k] by {
        assert(tail_a[k + 1] == tail_b[k + 1]);
    }
    assert(ta =~= tb);
}

fn encode_segment(seg: &Segment, out: &mut Vec<u64>)
    ensures
        final(out)@ == old(out)@ + enc_seg(*seg),
        seg_fits(*seg),
{
    let ghost start = out@;
    let ops = seg.ops();
    out.push(ops.len() as u64);
    let ghost mid = out@;
    let mut i: usize = 0;
    assert(ops@.skip(0) =~= ops@);
    while i < ops.len()
        invariant
            i <= ops@.len(),
            ops@ == seg.ops_view(),
            out@ + enc_ops(ops@.skip(i as int)) == mid + enc_ops(ops@),
            forall|k: int| 0 <= k < i ==> op_fits(#[trigger] ops@[k]),
        decreases ops.len() - i,
    {
        proof {
            lemma_ops_skip(ops@, i as int);
        }
        let ghost before = out@;
        encode_op(&ops[i], out);
        assert(out@ + enc_ops(ops@.skip(i + 1)) =~= before + enc_ops(ops@.skip(i as int)));
        i = i + 1;
    }
    assert(ops@.skip(i as int) =~= Seq::<Op>::empty());
    assert(out@ =~= mid + enc_ops(ops@));
    let ts = seg.targets();
    out.push(ts.len() as u64);
    let ghost mid2 = out@;
    let mut j: usize = 0;
    while j < ts.len()
        invariant
            j <= ts@.len(),
            out@ == mid2 + ts@.subrange(0, j as int).map_values(|t: SegmentID| t as u64),
        decreases ts.len() - j,
    {
        out.push(ts[j] as u64);
        j = j + 1;
        assert(out@ =~= mid2 + ts@.subrange(0, j as int).map_values(|t: SegmentID| t as u64));
    }
    assert(ts@.subrange(0, j as int) =~= ts@);
    assert(out@ =~= start + enc_seg(*seg));
}

proof fn lemma_rest(s: Seq<u64>, pos: int, e: Seq<u64>)
    requires
        prefix_at(s, pos, e),
    ensures
        s.subrange(pos, s.len() as int) == e + s.subrange(pos + e.len(), s.len() as int),
{
    assert(s.subrange(pos, s.len() as int) =~= s.subrange(pos, pos + e.len()) + s.subrange(
        pos + e.len(),
        s.len() as int,
    ));
}

/// Where two op encodings both stand at `pos`, they are the same length.
proof fn lemma_same_end(s: Seq<u64>, pos: int, a: Op, b: Op)
    requires
        prefix_at(s, pos, enc_op(a)),
        prefix_at(s, pos, enc_op(b)),
        op_fits(a),
        op_fits(b),
    ensures
        enc_op(a).len() == enc_op(b).len(),
{
    lemma_rest(s, pos, enc_op(a));
    lemma_rest(s, pos, enc_op(b));
    lemma_op_inj(
        a,
        b,
        s.subrange(pos + enc_op(a).len(), s.len() as int),
        s.subrange(pos + enc_op(b).len(), s.len() as int),
    );
}

/// The target table's words.
pub open spec fn enc_targets(t: Seq<SegmentID>) -> Seq<u64> {
    seq![t.len() as u64] + t.map_values(|x: SegmentID| x as u64)
}

fn decode_targets(w: &Vec<u64>, pos: usize) -> (r: Option<(Vec<SegmentID>, usize)>)
    ensures
        r matches Some((t, end)) ==> end == pos + enc_targets(t@).len() && prefix_at(
            w@,
            pos as int,
            enc_targets(t@),
        ),
        r is None ==> forall|t: Seq<SegmentID>|
            t.len() <= usize::MAX ==> !prefix_at(w@, pos as int, #[trigger] enc_targets(t)),
{
    if pos >= w.len() {
        return None;
    }
    let n = w[pos];
    if n > (w.len() - pos - 1) as u64 {
        proof {
            assert forall|t: Seq<SegmentID>| t.len() <= usize::MAX implies !prefix_at(
                w@,
                pos as int,
                #[trigger] enc_targets(t),
            ) by {
                if prefix_at(w@, pos as int, enc_targets(t)) {
                    lemma_at(w@, pos as int, enc_targets(t), 0);
                }
            }
        }
        return None;
    }
    let n = n as usize;
    let mut ts: Vec<SegmentID> = Vec::new();
    let mut i: usize = 0;
    while i < n
        invariant
            pos + 1 + n <= w.len(),
            n == w@[pos as int],
            i <= n,
            ts@.len() == i,
            forall|k: int| 0 <= k < i ==> (#[trigger] ts@[k]) as u64 == w@[pos + 1 + k],
        decreases n - i,
    {
        let x = w[pos + 1 + i];
        if x > usize::MAX as u64 {
            proof {
                assert forall|t: Seq<SegmentID>| t.len() <= usize::MAX implies !prefix_at(
                    w@,
                    pos as int,
                    #[trigger] enc_targets(t),
                ) by {
                    if prefix_at(w@, pos as int, enc_targets(t)) {
                        lemma_at(w@, pos as int, enc_targets(t), 0);
                        lemma_at(w@, pos as int, enc_targets(t), i + 1);
                    }
                }
            }
            return None;
        }
        ts.push(x as usize);
        i = i + 1;
    }
    proof {
        assert(w@.subrange(pos as int, pos + 1 + n) =~= enc_targets(ts@));
    }
    Some((ts, pos + 1 + n))
}

fn decode_segment(w: &Vec<u64>, pos: usize, Ghost(guide): Ghost<Option<Segment>>) -> (r: Option<
    (Segment, usize),
>)
    ensures
        r matches Some((s, end)) ==> end == pos + enc_seg(s).len() && seg_fits(s) && prefix_at(
            w@,
            pos as int,
            enc_seg(s),
        ),
        (guide matches Some(g) && seg_fits(g) && prefix_at(w@, pos as int, enc_seg(g))) ==> r is Some,
{
    let ghost guided = guide matches Some(g) && seg_fits(g) && prefix_at(w@, pos as int, enc_seg(g));
    let ghost g = guide->Some_0;
    let ghost gops = g.ops_view();
    let ghost gtail = enc_targets(g.targets_view());
    proof {
        if guided {
            g.lemma_lens();
            assert(enc_seg(g) =~= seq![gops.len() as u64] + (enc_ops(gops) + gtail));
            lemma_shift(w@, pos as int, seq![gops.len() as u64], enc_ops(gops) + gtail);
            lemma_at(w@, pos as int, enc_seg(g), 0);
            assert(gops.skip(0) =~= gops);
        }
    }
    if pos >= w.len() {
        return None;
    }
    let n = w[pos];
    let mut ops: Vec<Op> = Vec::new();
    let mut p: usize = pos + 1;
    let mut j: u64 = 0;
    proof {
        assert(w@.subrange(pos as int, p as int) =~= seq![n] + enc_ops(ops@));
    }
    while j < n
        invariant
            pos < p <= w.len(),
            n == w@[pos as int],
            j <= n,
            ops@.len() == j,
            w@.subrange(pos as int, p as int) == seq![n] + enc_ops(ops@),
            forall|k: int| 0 <= k < j ==> op_fits(#[trigger] ops@[k]),
            guided ==> gops.len() == n && prefix_at(
                w@,
                p as int,
                enc_ops(gops.skip(j as int)) + gtail,
            ),
            guided ==> seg_fits(g),
            guided == (guide matches Some(g2) && seg_fits(g2) && prefix_at(w@, pos as int, enc_seg(g2))),
            g == guide->Some_0,
            gops == g.ops_view(),
            gtail == enc_targets(g.targets_view()),
        decreases n - j,
    {
        proof {
            if guided {
                lemma_ops_skip(gops, j as int);
                assert(enc_ops(gops.skip(j as int)) + gtail =~= enc_op(gops[j as int]) + (enc_ops(
                    gops.skip(j + 1),
                ) + gtail));
                lemma_shift(
                    w@,
                    p as int,
                    enc_op(gops[j as int]),
                    enc_ops(gops.skip(j + 1)) + gtail,
                );
                assert(op_fits(gops[j as int]));
            }
        }
        match decode_op(w, p) {
            Some((o, end)) => {
                proof {
                    if guided {
                        lemma_same_end(w@, p as int, o, gops[j as int]);
                    }
                    lemma_ops_snoc(ops@, o);
                    assert(w@.subrange(pos as int, end as int) =~= w@.subrange(pos as int, p as int)
                        + w@.subrange(p as int, end as int));
                }
                ops.push(o);
                p = end;
                j = j + 1;
                proof {
                    assert(w@.subrange(pos as int, p as int) =~= seq![n] + enc_ops(ops@));
                }
            },
            None => {
                proof {
                    if guided {
                        lemma_ops_skip(gops, j as int);
                        assert(enc_ops(gops.skip(j as int)) + gtail =~= enc_op(gops[j as int]) + (
                        enc_ops(gops.skip(j + 1)) + gtail));
                        lemma_shift(
                            w@,
                            p as int,
                            enc_op(gops[j as int]),
                            enc_ops(gops.skip(j + 1)) + gtail,
                        );
                        assert(op_fits(gops[j as int]));
                        assert(false);
                    }
                }
                return None;
            },
        }
    }
    proof {
        if guided {
            assert(gops.skip(j as int) =~= Seq::<Op>::empty());
            assert(enc_ops(gops.skip(j as int)) + gtail =~= gtail);
            g.lemma_lens();
        }
    }
    match decode_targets(w, p) {
        Some((ts, end)) => {
            let seg = Segment::from_parts(ops, ts);
            proof {
                assert(seg.ops_view().len() as u64 == n);
                assert(w@.subrange(pos as int, end as int) =~= w@.subrange(pos as int, p as int)
                    + w@.subrange(p as int, end as int));
                assert(enc_seg(seg) =~= (seq![n] + enc_ops(seg.ops_view())) + enc_targets(
                    seg.targets_view(),
                ));
            }
            Some((seg, end))
        },
        None => None,
    }
}

/// Slot `i`: a present flag and the segment, or an absent flag.
pub open spec fn enc_slot(m: Map<SegmentID, Segment>, i: SegmentID) -> Seq<u64> {
    if m.contains_key(i) {
        seq![1u64] + enc_seg(m[i])
    } else {
        seq![0u64]
    }
}

/// Slots `i` up to `n`, in order.
pub open spec fn enc_slots(m: Map<SegmentID, Segment>, i: nat, n: nat) -> Seq<u64>
    decreases n - i,
{
    if i >= n {
        Seq::empty()
    } else {
        enc_slot(m, i as SegmentID) + enc_slots(m, i + 1, n)
    }
}

/// A program as its next id, its slot count, and each slot in id order.
pub open spec fn enc_program(p: Program) -> Seq<u64> {
    seq![p.next() as u64, p.bound() as u64] + enc_slots(p.segs(), 0, p.bound())
}

/// Every segment of the program fits.
pub open spec fn prog_fits(p: Program) -> bool {
    forall|id: SegmentID| #[trigger] p.segs().contains_key(id) ==> seg_fits(p.segs()[id])
}

/// Two programs are the same: the same next id, the same ids, the same segments.
pub open spec fn same_program(a: Program, b: Program) -> bool {
    &&& a.next() == b.next()
    &&& a.segs().dom() == b.segs().dom()
    &&& forall|id: SegmentID| #[trigger] a.segs().contains_key(id) ==> same_seg(a.segs()[id], b.segs()[id])
}

/// The words of a program.
pub fn encode_program(p: &Program) -> (r: Vec<u64>)
    ensures
        r@ == enc_program(*p),
        prog_fits(*p),
{
    let mut out: Vec<u64> = Vec::new();
    out.push(p.next_exec() as u64);
    let n = p.bound_exec();
    out.push(n as u64);
    let ghost m = p.segs();
    let ghost target = out@ + enc_slots(m, 0, n as nat);
    let mut i: usize = 0;
    while i < n
        invariant
            n == p.bound(),
            m == p.segs(),
            i <= n,
            out@ + enc_slots(m, i as nat, n as nat) == target,
            forall|id: SegmentID| id < i && #[trigger] m.contains_key(id) ==> seg_fits(m[id]),
        decreases n - i,
    {
        let ghost before = out@;
        match p.segment(i) {
            Some(seg) => {
                out.push(1);
                encode_segment(seg, &mut out);
            },
            None => {
                out.push(0);
            },
        }
        assert(out@ + enc_slots(m, (i + 1) as nat, n as nat) =~= before + enc_slots(m, i as nat, n as nat));
        i = i + 1;
    }
    proof {
        p.lemma_bound();
        assert(enc_slots(m, i as nat, n as nat) =~= Seq::<u64>::empty());
        assert(out@ =~= enc_program(*p));
    }
    out
}

proof fn lemma_slots_snoc(m: Map<SegmentID, Segment>, a: nat, b: nat)
    requires
        a <= b,
    ensures
        enc_slots(m, a, b + 1) == enc_slots(m, a, b) + enc_slot(m, b as SegmentID),
    decreases b - a,
{
    if a == b {
        assert(enc_slots(m, a + 1, b + 1) == Seq::<u64>::empty());
        assert(enc_slots(m, a, b + 1) =~= enc_slots(m, a, b) + enc_slot(m, b as SegmentID));
    } else {
        lemma_slots_snoc(m, a + 1, b);
        assert(enc_slots(m, a, b + 1) =~= enc_slots(m, a, b) + enc_slot(m, b as SegmentID));
    }
}

proof fn lemma_slots_frame(m1: Map<SegmentID, Segment>, m2: Map<SegmentID, Segment>, a: nat, b: nat)
    requires
        b <= usize::MAX + 1,
        forall|id: SegmentID|
            a <= id < b ==> (#[trigger] m1.contains_key(id) == m2.contains_key(id) && (
            m1.contains_key(id) ==> m1[id] == m2[id])),
    ensures
        enc_slots(m1, a, b) == enc_slots(m2, a, b),
    decreases b - a,
{
    if a < b {
        lemma_slots_frame(m1, m2, a + 1, b);
        assert(m1.contains_key(a as SegmentID) == m2.contains_key(a as SegmentID));
        assert(enc_slot(m1, a as SegmentID) == enc_slot(m2, a as SegmentID));
    }
}

proof fn lemma_slots_inj(
    m1: Map<SegmentID, Segment>,
    m2: Map<SegmentID, Segment>,
    i: nat,
    n: nat,
    r1: Seq<u64>,
    r2: Seq<u64>,
)
    requires
        enc_slots(m1, i, n) + r1 == enc_slots(m2, i, n) + r2,
        n <= usize::MAX + 1,
        forall|id: SegmentID| #[trigger] m1.contains_key(id) ==> seg_fits(m1[id]),
        forall|id: SegmentID| #[trigger] m2.contains_key(id) ==> seg_fits(m2[id]),
    ensures
        r1 == r2,
        forall|id: SegmentID|
            i <= id < n ==> (#[trigger] m1.contains_key(id) == m2.contains_key(id) && (
            m1.contains_key(id) ==> same_seg(m1[id], m2[id]))),
    decreases n - i,
{
    if i >= n {
        assert(enc_slots(m1, i, n) + r1 =~= r1);
        assert(enc_slots(m2, i, n) + r2 =~= r2);
    } else {
        let id = i as SegmentID;
        let (t1, t2) = (enc_slots(m1, i + 1, n) + r1, enc_slots(m2, i + 1, n) + r2);
        assert(enc_slots(m1, i, n) + r1 =~= enc_slot(m1, id) + t1);
        assert(enc_slots(m2, i, n) + r2 =~= enc_slot(m2, id) + t2);
        assert((enc_slot(m1, id) + t1)[0] == enc_slot(m1, id)[0]);
        assert((enc_slot(m2, id) + t2)[0] == enc_slot(m2, id)[0]);
        if m1.contains_key(id) {
            lemma_head_tail(seq![1u64], enc_seg(m1[id]), t1, seq![1u64], enc_seg(m2[id]), t2);
            lemma_seg_inj(m1[id], m2[id], t1, t2);
        } else {
            lemma_split(seq![0u64], t1, seq![0u64], t2);
        }
        lemma_slots_inj(m1, m2, i + 1, n, r1, r2);
    }
}

/// Encoding is unambiguous: programs with the same words are the same program.
pub proof fn lemma_program_inj(a: Program, b: Program)
    requires
        enc_program(a) == enc_program(b),
        prog_fits(a),
        prog_fits(b),
    ensures
        same_program(a, b),
{
    a.lemma_bound();
    b.lemma_bound();
    let (ha, hb) = (seq![a.next() as u64, a.bound() as u64], seq![b.next() as u64, b.bound() as u64]);
    lemma_split(ha, enc_slots(a.segs(), 0, a.bound()), hb, enc_slots(b.segs(), 0, b.bound()));
    assert(ha[0] == hb[0] && ha[1] == hb[1]);
    assert(a.bound() == b.bound());
    let n = a.bound();
    assert(enc_slots(a.segs(), 0, n) + Seq::<u64>::empty() =~= enc_slots(b.segs(), 0, n) + Seq::<
        u64,
    >::empty());
    lemma_slots_inj(a.segs(), b.segs(), 0, n, Seq::empty(), Seq::empty());
    assert forall|id: SegmentID| #[trigger] a.segs().contains_key(id) == b.segs().contains_key(id) by {
        if a.segs().contains_key(id) || b.segs().contains_key(id) {
            assert(id < n);
        }
    }
    assert(a.segs().dom() =~= b.segs().dom());
}

proof fn lemma_slot_split(w: Seq<u64>, pos: int, m: Map<SegmentID, Segment>, i: SegmentID, n: nat)
    requires
        0 <= pos <= w.len(),
        i < n,
        w.subrange(pos, w.len() as int) == enc_slots(m, i as nat, n),
    ensures
        pos < w.len(),
        w[pos] == (if m.contains_key(i) { 1u64 } else { 0u64 }),
        m.contains_key(i) ==> w.subrange(pos + 1, w.len() as int) == enc_seg(m[i]) + enc_slots(
            m,
            (i + 1) as nat,
            n,
        ) && prefix_at(w, pos + 1, enc_seg(m[i])),
        !m.contains_key(i) ==> w.subrange(pos + 1, w.len() as int) == enc_slots(m, (i + 1) as nat, n),
{
    let s = w.subrange(pos, w.len() as int);
    let rest = enc_slots(m, (i + 1) as nat, n);
    assert(s == enc_slot(m, i) + rest);
    assert(s.len() > 0);
    assert(s[0] == w[pos]);
    assert(w.subrange(pos + 1, w.len() as int) =~= s.subrange(1, s.len() as int));
    if m.contains_key(i) {
        let e = enc_seg(m[i]);
        assert(s =~= seq![1u64] + (e + rest));
        assert(s.subrange(1, s.len() as int) =~= e + rest);
        assert(w.subrange(pos + 1, pos + 1 + e.len()) =~= (e + rest).subrange(0, e.len() as int));
        assert((e + rest).subrange(0, e.len() as int) =~= e);
    } else {
        assert(s =~= seq![0u64] + rest);
        assert(s.subrange(1, s.len() as int) =~= rest);
    }
}

/// The words encode some well-formed program.
pub open spec fn encodes_some(w: Seq<u64>) -> bool {
    exists|p: Program| p.wf() && prog_fits(p) && #[trigger] enc_program(p) == w
}

/// Reads a program back from its words. It succeeds exactly on the words of a
/// program, and then gives back that same program: same next id, same ids,
/// and for each id the same ops in the same order and the same targets.
pub fn decode_program(w: &Vec<u64>) -> (r: Option<Program>)
    ensures
        r matches Some(q) ==> q.wf() && prog_fits(q) && enc_program(q) == w@,
        r is Some <==> encodes_some(w@),
        forall|p: Program|
            p.wf() && prog_fits(p) && #[trigger] enc_program(p) == w@ ==> (r matches Some(q)
                && same_program(q, p)),
{
    let ghost guided = encodes_some(w@);
    let ghost gp = choose|p: Program| p.wf() && prog_fits(p) && #[trigger] enc_program(p) == w@;
    let ghost gm = gp.segs();
    proof {
        if guided {
            gp.lemma_bound();
            let h = seq![gp.next() as u64, gp.bound() as u64];
            assert(enc_program(gp) == h + enc_slots(gm, 0, gp.bound()));
            assert(w@[0] == h[0] && w@[1] == h[1]);
            assert(w@.subrange(2, w@.len() as int) =~= enc_slots(gm, 0, gp.bound()));
        }
    }
    let r = decode_words(w, Ghost(guided), Ghost(gp));
    proof {
        if r is Some {
            assert(encodes_some(w@)) by {
                let q = r->Some_0;
                assert(q.wf() && prog_fits(q) && enc_program(q) == w@);
            }
        }
        assert forall|p: Program|
            p.wf() && prog_fits(p) && #[trigger] enc_program(p) == w@ implies (r matches Some(q)
                && same_program(q, p)) by {
            let q = r->Some_0;
            lemma_program_inj(q, p);
        }
    }
    r
}

fn decode_words(w: &Vec<u64>, Ghost(guided): Ghost<bool>, Ghost(gp): Ghost<Program>) -> (r: Option<
    Program,
>)
    requires
        guided ==> gp.wf() && prog_fits(gp) && enc_program(gp) == w@,
        guided ==> w@.len() >= 2 && w@[0] == gp.next() as u64 && w@[1] == gp.bound() as u64
            && w@.subrange(2, w@.len() as int) == enc_slots(gp.segs(), 0, gp.bound()),
    ensures
        r matches Some(q) ==> q.wf() && prog_fits(q) && enc_program(q) == w@,
        guided ==> r is Some,
{
    let ghost gm = gp.segs();
    proof {
        if guided {
            gp.lemma_bound();
        }
    }
    if w.len() < 2 || w[0] > usize::MAX as u64 || w[1] > usize::MAX as u64 {
        return None;
    }
    let next = w[0] as usize;
    let n = w[1] as usize;
    let mut q = Program::with_next_id(next);
    let mut pos: usize = 2;
    let mut i: usize = 0;
    let mut last_present = false;
    proof {
        assert(w@.subrange(2, 2) =~= enc_slots(q.segs(), 0, 0));
    }
    while i < n
        invariant
            guided ==> gp.wf() && prog_fits(gp) && n == gp.bound() && gm == gp.segs(),
            guided ==> forall|id: SegmentID| #[trigger] gm.contains_key(id) ==> id < n,
            2 <= pos <= w@.len(),
            i <= n,
            n as u64 == w@[1],
            next as u64 == w@[0],
            q.wf(),
            q.next() == next,
            prog_fits(q),
            q.bound() <= i,
            last_present ==> q.bound() == i,
            last_present == (i > 0 && q.segs().contains_key((i - 1) as SegmentID)),
            forall|id: SegmentID| #[trigger] q.segs().contains_key(id) ==> id < i,
            w@.subrange(2, pos as int) == enc_slots(q.segs(), 0, i as nat),
            guided ==> w@.subrange(pos as int, w@.len() as int) == enc_slots(gm, i as nat, n as nat),
            guided ==> forall|id: SegmentID|
                id < i ==> (#[trigger] q.segs().contains_key(id) == gm.contains_key(id)),
        decreases n - i,
    {
        let ghost m0 = q.segs();
        proof {
            if guided {
                lemma_slot_split(w@, pos as int, gm, i, n as nat);
            }
            lemma_slots_snoc(m0, 0, i as nat);
        }
        if pos >= w.len() {
            return None;
        }
        let flag = w[pos];
        if flag == 1 {
            let ghost guide = if guided && gm.contains_key(i) { Some(gm[i]) } else { None };
            match decode_segment(w, pos + 1, Ghost(guide)) {
                Some((seg, end)) => {
                    proof {
                        if guided {
                            lemma_slot_split(w@, pos as int, gm, i, n as nat);
                            let rest = enc_slots(gm, (i + 1) as nat, n as nat);
                            lemma_rest(w@, pos + 1, enc_seg(seg));
                            lemma_seg_inj(seg, gm[i], w@.subrange(end as int, w@.len() as int), rest);
                        }
                        assert(w@.subrange(2, end as int) =~= w@.subrange(2, pos as int) + (seq![1u64]
                            + enc_seg(seg)));
                    }
                    q.register_seg(i, seg);
                    proof {
                        lemma_slots_frame(q.segs(), m0, 0, i as nat);
                        lemma_slots_snoc(q.segs(), 0, i as nat);
                    }
                    pos = end;
                    last_present = true;
                },
                None => {
                    return None;
                },
            }
        } else if flag == 0 {
            proof {
                if guided {
                    lemma_slot_split(w@, pos as int, gm, i, n as nat);
                }
                assert(w@.subrange(2, pos + 1) =~= w@.subrange(2, pos as int) + seq![0u64]);
            }
            pos = pos + 1;
            last_present = false;
        } else {
            return None;
        }
        i = i + 1;
    }
    if pos != w.len() || (n > 0 && !last_present) {
        proof {
            if guided {
                assert(enc_slots(gm, i as nat, n as nat) == Seq::<u64>::empty());
                if n > 0 {
                    assert(gm.contains_key((n - 1) as SegmentID));
                }
            }
        }
        return None;
    }
    proof {
        assert(q.bound() == n);
        assert(w@ =~= seq![w@[0], w@[1]] + w@.subrange(2, w@.len() as int));
        assert(enc_program(q) =~= w@);
    }
    Some(q)
}

} // verus!
