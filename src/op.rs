use vstd::prelude::*;
pub use crate::value::{RegAddr, SegmentID};

verus! {

/// A content hash of a serialized segment.
pub type CodeHash = u64;

/// An absolute op index inside one segment.
pub type OpAddr = u32;

/// An index into a segment's own target table.
pub type TargetID = u32;

/// An immediate operand. Floats are held by their IEEE-754 bit pattern.
#[derive(Debug, PartialEq, Eq)]
pub enum OpPrimitive {
    AddrTarget(OpAddr),
    ExternalTarget(TargetID),
    Unit,
    Bool(bool),
    Int(i64),
    Float(u64),
    Char(char),
    String(String),
    Buffer(Vec<u8>),
    EmptyList,
    EmptyTuple,
    EmptyRecord,
}

impl OpPrimitive {
    /// A float immediate is never a NaN.
    pub open spec fn wf(&self) -> bool {
        *self matches OpPrimitive::Float(b) ==> crate::value::not_nan(b)
    }
}

#[derive(Debug, PartialEq, Eq)]
pub enum BuiltinOp {
    Negate { dest: RegAddr, src: RegAddr },
    Add { dest: RegAddr, left: RegAddr, right: RegAddr },
    Mul { dest: RegAddr, left: RegAddr, right: RegAddr },
    Mod { dest: RegAddr, left: RegAddr, right: RegAddr },
    Or { dest: RegAddr, left: RegAddr, right: RegAddr },
    And { dest: RegAddr, left: RegAddr, right: RegAddr },
    Decons { head_dest: RegAddr, tail_dest: RegAddr, src: RegAddr },
    Cons { dest: RegAddr, head: RegAddr, tail: RegAddr },
    Index { dest: RegAddr, src: RegAddr, index: RegAddr },
    Append { dest: RegAddr, tuple: RegAddr, item: RegAddr },
    Variant { dest: RegAddr, tag: RegAddr, value: RegAddr },
    Unwrap { dest: RegAddr, src: RegAddr },
    Insert { dest: RegAddr, record: RegAddr, key: RegAddr, value: RegAddr },
    Lookup { dest: RegAddr, src: RegAddr, key: RegAddr },
}

/// Destructuring of the incoming arguments at segment entry.
#[derive(Debug, PartialEq, Eq)]
pub enum UnpackOp {
    Pos(RegAddr),
    Named(RegAddr, String),
    Optional(RegAddr, String),
    VarPos(RegAddr),
    VarKey(RegAddr),
}

/// Curried application of one argument.
#[derive(Debug, PartialEq, Eq)]
pub enum ApplyOp {
    Pos { dest: RegAddr, tgt: RegAddr, arg: RegAddr },
    ByName { dest: RegAddr, tgt: RegAddr, arg: RegAddr, name: String },
    VarPos { dest: RegAddr, tgt: RegAddr, arg: RegAddr },
    VarKey { dest: RegAddr, tgt: RegAddr, arg: RegAddr },
}

#[derive(Debug, PartialEq, Eq)]
pub enum Op {
    BuiltinOp(BuiltinOp),
    Unpack(UnpackOp),
    Apply(ApplyOp),
    /// dest, immediate
    Store(RegAddr, OpPrimitive),
    /// dest, callable
    Invoke(RegAddr, RegAddr),
    /// closure or thunk dest, captured register, source
    ScopeSet(RegAddr, RegAddr, RegAddr),
    Force(RegAddr),
    JmpTarget(RegAddr, TargetID),
    JmpAddr(RegAddr, OpAddr),
    Return(RegAddr),
}

/// A unit of compiled code: ops and a table of other segments it refers to.
#[derive(Debug, PartialEq, Eq)]
pub struct Segment {
    ops: Vec<Op>,
    targets: Vec<SegmentID>,
}

impl Segment {
    pub closed spec fn ops_view(&self) -> Seq<Op> {
        self.ops@
    }

    pub closed spec fn targets_view(&self) -> Seq<SegmentID> {
        self.targets@
    }

    pub proof fn lemma_lens(&self)
        ensures
            self.ops_view().len() <= usize::MAX,
            self.targets_view().len() <= usize::MAX,
    {
        broadcast use vstd::std_specs::vec::axiom_spec_len;

        assert(self.ops@.len() == self.ops.len());
        assert(self.targets@.len() == self.targets.len());
    }

    /// A segment with these ops and targets.
    pub fn from_parts(ops: Vec<Op>, targets: Vec<SegmentID>) -> (r: Segment)
        ensures
            r.ops_view() == ops@,
            r.targets_view() == targets@,
    {
        Segment { ops, targets }
    }

    pub fn new() -> (r: Segment)
        ensures
            r.ops_view() == Seq::<Op>::empty(),
            r.targets_view() == Seq::<SegmentID>::empty(),
    {
        Segment { ops: Vec::new(), targets: Vec::new() }
    }

    /// Adds `seg` to the target table and returns its index there.
    pub fn add_target(&mut self, seg: SegmentID) -> (r: TargetID)
        requires
            old(self).targets_view().len() < u32::MAX,
        ensures
            r as int == old(self).targets_view().len(),
            final(self).targets_view() == old(self).targets_view().push(seg),
            final(self).ops_view() == old(self).ops_view(),
    {
        let id = self.targets.len() as TargetID;
        self.targets.push(seg);
        id
    }

    pub fn append(&mut self, op: Op)
        ensures
            final(self).ops_view() == old(self).ops_view().push(op),
            final(self).targets_view() == old(self).targets_view(),
    {
        self.ops.push(op);
    }

    pub fn ops(&self) -> (r: &Vec<Op>)
        ensures
            r@ == self.ops_view(),
    {
        &self.ops
    }

    pub fn targets(&self) -> (r: &Vec<SegmentID>)
        ensures
            r@ == self.targets_view(),
    {
        &self.targets
    }

    /// The segment id that target `t` stands for.
    pub fn target(&self, t: TargetID) -> (r: Option<SegmentID>)
        ensures
            r == (if (t as int) < self.targets_view().len() {
                Some(self.targets_view()[t as int])
            } else {
                None::<SegmentID>
            }),
    {
        if (t as usize) < self.targets.len() {
            Some(self.targets[t as usize])
        } else {
            None
        }
    }
}

/// All registered segments, by id, and the next id to hand out.
pub struct Program {
    segments: Vec<Option<Segment>>,
    next_id: SegmentID,
}

impl Program {
    /// The registered segments.
    pub closed spec fn segs(&self) -> Map<SegmentID, Segment> {
        Map::new(
            |id: SegmentID| (id as int) < self.segments@.len() && self.segments@[id as int] is Some,
            |id: SegmentID| self.segments@[id as int]->Some_0,
        )
    }

    pub closed spec fn next(&self) -> SegmentID {
        self.next_id
    }

    /// One more than the largest registered id, or 0.
    pub closed spec fn bound(&self) -> nat {
        self.segments@.len()
    }

    /// The store is tight: its last slot holds a segment.
    pub closed spec fn wf(&self) -> bool {
        self.segments@.len() == 0 || self.segments@.last() is Some
    }

    pub proof fn lemma_bound(&self)
        ensures
            forall|id: SegmentID| #[trigger] self.segs().contains_key(id) ==> id < self.bound(),
            self.wf() && self.bound() > 0 ==> self.segs().contains_key((self.bound() - 1) as SegmentID),
            self.bound() <= usize::MAX,
    {
        broadcast use vstd::std_specs::vec::axiom_spec_len;

        assert(self.segments@.len() == self.segments.len());
        if self.wf() && self.segments@.len() > 0 {
            let last = (self.segments@.len() - 1) as SegmentID;
            assert(self.segs().contains_key(last));
        }
    }

    pub fn new() -> (r: Program)
        ensures
            r.wf(),
            r.segs() == Map::<SegmentID, Segment>::empty(),
            r.next() == 0,
            r.bound() == 0,
    {
        Program::with_next_id(0)
    }

    /// An empty program whose ids will be handed out from `next`.
    pub fn with_next_id(next: SegmentID) -> (r: Program)
        ensures
            r.wf(),
            r.segs() == Map::<SegmentID, Segment>::empty(),
            r.next() == next,
            r.bound() == 0,
    {
        let r = Program { segments: Vec::new(), next_id: next };
        assert(r.segs() =~= Map::<SegmentID, Segment>::empty());
        r
    }

    pub fn next_exec(&self) -> (r: SegmentID)
        ensures
            r == self.next(),
    {
        self.next_id
    }

    pub fn bound_exec(&self) -> (r: usize)
        ensures
            r == self.bound(),
    {
        self.segments.len()
    }

    /// Registers `seg` under `id`. A registered segment is never replaced:
    /// when `id` is already taken the program stays as it was.
    pub fn register_seg(&mut self, id: SegmentID, seg: Segment)
        requires
            old(self).wf(),
            id < usize::MAX,
        ensures
            final(self).wf(),
            old(self).segs().contains_key(id) ==> *final(self) == *old(self),
            !old(self).segs().contains_key(id) ==> final(self).segs() == old(self).segs().insert(
                id,
                seg,
            ) && final(self).bound() as int == if id < old(self).bound() {
                old(self).bound() as int
            } else {
                id + 1
            },
            final(self).next() == old(self).next(),
    {
        if id < self.segments.len() && self.segments[id].is_some() {
            return;
        }
        let ghost n0 = self.segments@.len();
        while self.segments.len() <= id
            invariant
                id < usize::MAX,
                self.segs() == old(self).segs(),
                self.next() == old(self).next(),
                self.segments@.len() >= n0,
                self.segments@.len() <= id + 1 || self.segments@.len() == n0,
                self.segments@.len() == n0 ==> self.wf(),
            decreases id + 1 - self.segments.len(),
        {
            let ghost before = self.segs();
            self.segments.push(None);
            assert(self.segs() =~= before);
        }
        self.segments.set(id, Some(seg));
        assert(self.segs() =~= old(self).segs().insert(id, seg));
    }

    /// Hands out a fresh id.
    pub fn gen_id(&mut self) -> (r: SegmentID)
        requires
            old(self).next() < usize::MAX,
        ensures
            r == old(self).next(),
            final(self).bound() == old(self).bound(),
            final(self).wf() == old(self).wf(),
            final(self).next() == old(self).next() + 1,
            final(self).segs() == old(self).segs(),
    {
        let id = self.next_id;
        self.next_id = self.next_id + 1;
        id
    }

    /// The segment registered under `id`.
    pub fn segment(&self, id: SegmentID) -> (r: Option<&Segment>)
        ensures
            r == (if self.segs().contains_key(id) {
                Some(&self.segs()[id])
            } else {
                None::<&Segment>
            }),
    {
        if id < self.segments.len() {
            match &self.segments[id] {
                Some(s) => Some(s),
                None => None,
            }
        } else {
            None
        }
    }
}

} // verus!
