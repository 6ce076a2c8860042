use vstd::prelude::*;

verus! {

/// Register index inside one frame.
pub type RegAddr = u32;

/// Identifier of a registered segment.
pub type SegmentID = usize;

/// Faults an operation can raise.
#[derive(Debug, PartialEq, Eq, Structural)]
pub enum VmError {
    TypeError,
    IndexError,
    ArityError,
    DivideByZero,
    CyclicForce,
    UnregisteredSegment,
    Cancelled,
    FloatArithmetic,
    OutOfSteps,
}

/// The bits are not those of a NaN: not every exponent bit set with a
/// non-zero fraction.
pub open spec fn not_nan(bits: u64) -> bool {
    !((bits & 0x7FF0_0000_0000_0000u64) == 0x7FF0_0000_0000_0000u64 && (bits
        & 0x000F_FFFF_FFFF_FFFFu64) != 0)
}

/// Whether `bits` is the pattern of a number rather than a NaN.
pub fn is_number_bits(bits: u64) -> (r: bool)
    ensures
        r == not_nan(bits),
{
    !((bits & 0x7FF0_0000_0000_0000u64) == 0x7FF0_0000_0000_0000u64 && (bits
        & 0x000F_FFFF_FFFF_FFFFu64) != 0)
}

/// A runtime value. Floats are held by their IEEE-754 bit pattern.
#[derive(Debug, PartialEq, Eq)]
pub enum Value {
    Unit,
    Bool(bool),
    Int(i64),
    Float(u64),
    Char(char),
    String(String),
    Buffer(Bytes),
    List(VList),
    Tuple(VList),
    Record(Fields),
    Variant(String, Box<Value>),
    Closure(Closure),
    Thunk(usize),
}

/// A persistent sequence of bytes.
#[derive(Debug, PartialEq, Eq)]
pub enum Bytes {
    Empty,
    Byte(u8, Box<Bytes>),
}

/// A persistent sequence of values, first element at the front.
#[derive(Debug, PartialEq, Eq)]
pub enum VList {
    Nil,
    Cons(Box<Value>, Box<VList>),
}

/// A persistent mapping from field names to values, in insertion order.
#[derive(Debug, PartialEq, Eq)]
pub enum Fields {
    Empty,
    Field(String, Box<Value>, Box<Fields>),
}

/// Registers captured by a closure, most recent binding first.
#[derive(Debug, PartialEq, Eq)]
pub enum Scope {
    Empty,
    Bind(RegAddr, Box<Value>, Box<Scope>),
}

/// A callable: a segment, the arguments bound so far and the captured registers.
#[derive(Debug, PartialEq, Eq)]
pub struct Closure {
    pub segment: SegmentID,
    pub arity: usize,
    pub positional: VList,
    pub named: Fields,
    pub captures: Scope,
}

impl VmError {
    pub fn dup(&self) -> (r: VmError)
        ensures
            r == *self,
    {
        match self {
            VmError::TypeError => VmError::TypeError,
            VmError::IndexError => VmError::IndexError,
            VmError::ArityError => VmError::ArityError,
            VmError::DivideByZero => VmError::DivideByZero,
            VmError::CyclicForce => VmError::CyclicForce,
            VmError::UnregisteredSegment => VmError::UnregisteredSegment,
            VmError::Cancelled => VmError::Cancelled,
            VmError::FloatArithmetic => VmError::FloatArithmetic,
            VmError::OutOfSteps => VmError::OutOfSteps,
        }
    }
}

impl Bytes {
    pub open spec fn view_seq(self) -> Seq<u8>
        decreases self,
    {
        match self {
            Bytes::Empty => Seq::empty(),
            Bytes::Byte(b, rest) => seq![b] + rest.view_seq(),
        }
    }

    pub fn dup(&self) -> (r: Bytes)
        ensures
            r == *self,
        decreases self,
    {
        match self {
            Bytes::Empty => Bytes::Empty,
            Bytes::Byte(b, rest) => Bytes::Byte(*b, Box::new(rest.dup())),
        }
    }
}

impl VList {
    /// The elements, in order.
    pub open spec fn view_seq(self) -> Seq<Value>
        decreases self,
    {
        match self {
            VList::Nil => Seq::empty(),
            VList::Cons(h, t) => seq![*h] + t.view_seq(),
        }
    }

    /// The list with `v` added at the end.
    pub open spec fn snoc(self, v: Value) -> VList
        decreases self,
    {
        match self {
            VList::Nil => VList::Cons(Box::new(v), Box::new(VList::Nil)),
            VList::Cons(h, t) => VList::Cons(h, Box::new(t.snoc(v))),
        }
    }

    pub fn dup(&self) -> (r: VList)
        ensures
            r == *self,
        decreases self,
    {
        match self {
            VList::Nil => VList::Nil,
            VList::Cons(h, t) => VList::Cons(Box::new(h.dup()), Box::new(t.dup())),
        }
    }
}

impl Fields {
    /// The value bound to `k`, the first binding in order.
    pub open spec fn get(self, k: Seq<char>) -> Option<Value>
        decreases self,
    {
        match self {
            Fields::Empty => None,
            Fields::Field(name, v, rest) => if name@ == k {
                Some(*v)
            } else {
                rest.get(k)
            },
        }
    }

    /// The mapping with `k` bound to `v`: an existing field keeps its place, a new one goes last.
    pub open spec fn set(self, k: String, v: Value) -> Fields
        decreases self,
    {
        match self {
            Fields::Empty => Fields::Field(k, Box::new(v), Box::new(Fields::Empty)),
            Fields::Field(name, old_v, rest) => if name@ == k@ {
                Fields::Field(name, Box::new(v), rest)
            } else {
                Fields::Field(name, old_v, Box::new(rest.set(k, v)))
            },
        }
    }

    /// The field names, in order.
    pub open spec fn keys(self) -> Seq<Seq<char>>
        decreases self,
    {
        match self {
            Fields::Empty => Seq::empty(),
            Fields::Field(name, _, rest) => seq![name@] + rest.keys(),
        }
    }

    /// No name occurs twice.
    pub open spec fn unique(self) -> bool {
        self.keys().no_duplicates()
    }

    pub fn dup(&self) -> (r: Fields)
        ensures
            r == *self,
        decreases self,
    {
        match self {
            Fields::Empty => Fields::Empty,
            Fields::Field(name, v, rest) => Fields::Field(
                name.clone(),
                Box::new(v.dup()),
                Box::new(rest.dup()),
            ),
        }
    }
}

impl Scope {
    pub fn dup(&self) -> (r: Scope)
        ensures
            r == *self,
        decreases self,
    {
        match self {
            Scope::Empty => Scope::Empty,
            Scope::Bind(reg, v, rest) => Scope::Bind(*reg, Box::new(v.dup()), Box::new(rest.dup())),
        }
    }
}

impl Closure {
    pub fn dup(&self) -> (r: Closure)
        ensures
            r == *self,
        decreases self,
    {
        Closure {
            segment: self.segment,
            arity: self.arity,
            positional: self.positional.dup(),
            named: self.named.dup(),
            captures: self.captures.dup(),
        }
    }
}

impl Value {
    /// A copy equal to `self`.
    pub fn dup(&self) -> (r: Value)
        ensures
            r == *self,
        decreases self,
    {
        match self {
            Value::Unit => Value::Unit,
            Value::Bool(b) => Value::Bool(*b),
            Value::Int(i) => Value::Int(*i),
            Value::Float(f) => Value::Float(*f),
            Value::Char(c) => Value::Char(*c),
            Value::String(s) => Value::String(s.clone()),
            Value::Buffer(b) => Value::Buffer(b.dup()),
            Value::List(l) => Value::List(l.dup()),
            Value::Tuple(l) => Value::Tuple(l.dup()),
            Value::Record(f) => Value::Record(f.dup()),
            Value::Variant(tag, v) => Value::Variant(tag.clone(), Box::new(v.dup())),
            Value::Closure(c) => Value::Closure(c.dup()),
            Value::Thunk(t) => Value::Thunk(*t),
        }
    }
}

} // verus!
