use vstd::prelude::*;
use crate::value::{Value, Closure, VmError};

verus! {

/// The state of a deferred computation.
#[derive(Debug, PartialEq, Eq)]
pub enum ThunkState {
    Unforced(Closure),
    InProgress,
    Forced(Value),
    Poisoned(VmError),
}

/// What a forcer is told when it asks for a thunk's value.
#[derive(Debug, PartialEq, Eq)]
pub enum ForceStart {
    /// The caller now owns the evaluation of this closure.
    Evaluate(Closure),
    /// The memoized value.
    Ready(Value),
    /// The error the thunk is poisoned with.
    Failed(VmError),
}

/// The shared store of thunks, addressed by `Value::Thunk` handles.
pub struct Heap {
    thunks: Vec<ThunkState>,
}

pub open spec fn spec_begin(s: ThunkState) -> (ThunkState, ForceStart) {
    match s {
        ThunkState::Unforced(c) => (ThunkState::InProgress, ForceStart::Evaluate(c)),
        ThunkState::InProgress => (
            ThunkState::Poisoned(VmError::CyclicForce),
            ForceStart::Failed(VmError::CyclicForce),
        ),
        ThunkState::Forced(v) => (ThunkState::Forced(v), ForceStart::Ready(v)),
        ThunkState::Poisoned(e) => (ThunkState::Poisoned(e), ForceStart::Failed(e)),
    }
}

pub open spec fn spec_finish(s: ThunkState, result: Result<Value, VmError>) -> ThunkState {
    match s {
        ThunkState::InProgress => match result {
            Ok(v) => ThunkState::Forced(v),
            Err(e) => ThunkState::Poisoned(e),
        },
        _ => s,
    }
}

pub open spec fn spec_cancel(s: ThunkState) -> ThunkState {
    match s {
        ThunkState::InProgress => ThunkState::Poisoned(VmError::Cancelled),
        _ => s,
    }
}

impl ThunkState {
    fn dup(&self) -> (r: ThunkState)
        ensures
            r == *self,
    {
        match self {
            ThunkState::Unforced(c) => ThunkState::Unforced(c.dup()),
            ThunkState::InProgress => ThunkState::InProgress,
            ThunkState::Forced(v) => ThunkState::Forced(v.dup()),
            ThunkState::Poisoned(e) => ThunkState::Poisoned(e.dup()),
        }
    }
}

impl Heap {
    pub closed spec fn view_seq(&self) -> Seq<ThunkState> {
        self.thunks@
    }

    pub fn new() -> (r: Heap)
        ensures
            r.view_seq() == Seq::<ThunkState>::empty(),
    {
        Heap { thunks: Vec::new() }
    }

    pub fn len(&self) -> (r: usize)
        ensures
            r == self.view_seq().len(),
    {
        self.thunks.len()
    }

    /// A new unforced thunk over `c`; its handle is returned.
    pub fn new_thunk(&mut self, c: Closure) -> (r: usize)
        ensures
            r == old(self).view_seq().len(),
            final(self).view_seq() == old(self).view_seq().push(ThunkState::Unforced(c)),
    {
        let id = self.thunks.len();
        self.thunks.push(ThunkState::Unforced(c));
        id
    }

    /// The state of thunk `id`.
    pub fn state(&self, id: usize) -> (r: Option<ThunkState>)
        ensures
            r == (if id < self.view_seq().len() {
                Some(self.view_seq()[id as int])
            } else {
                None::<ThunkState>
            }),
    {
        if id < self.thunks.len() {
            Some(self.thunks[id].dup())
        } else {
            None
        }
    }

    /// The first step of forcing thunk `id`: an unforced thunk moves to
    /// in-progress and its closure is handed out; one already in progress on
    /// this call chain is a cycle and is poisoned; a finished one answers from
    /// its state without change.
    pub fn begin_force(&mut self, id: usize) -> (r: ForceStart)
        requires
            id < old(self).view_seq().len(),
        ensures
            r == spec_begin(old(self).view_seq()[id as int]).1,
            final(self).view_seq() == old(self).view_seq().update(
                id as int,
                spec_begin(old(self).view_seq()[id as int]).0,
            ),
    {
        let s = self.thunks[id].dup();
        match s {
            ThunkState::Unforced(c) => {
                self.thunks.set(id, ThunkState::InProgress);
                ForceStart::Evaluate(c)
            },
            ThunkState::InProgress => {
                self.thunks.set(id, ThunkState::Poisoned(VmError::CyclicForce));
                ForceStart::Failed(VmError::CyclicForce)
            },
            ThunkState::Forced(v) => {
                proof {
                    assert(old(self).view_seq().update(id as int, ThunkState::Forced(v))
                        =~= old(self).view_seq());
                }
                ForceStart::Ready(v)
            },
            ThunkState::Poisoned(e) => {
                proof {
                    assert(old(self).view_seq().update(id as int, ThunkState::Poisoned(e))
                        =~= old(self).view_seq());
                }
                ForceStart::Failed(e)
            },
        }
    }

    /// Records the outcome of an evaluation of thunk `id`. Only a thunk still
    /// in progress takes it; one poisoned meanwhile keeps its error.
    pub fn finish_force(&mut self, id: usize, result: Result<Value, VmError>)
        requires
            id < old(self).view_seq().len(),
        ensures
            final(self).view_seq() == old(self).view_seq().update(
                id as int,
                spec_finish(old(self).view_seq()[id as int], result),
            ),
    {
        if let ThunkState::InProgress = self.thunks[id] {
            match result {
                Ok(v) => self.thunks.set(id, ThunkState::Forced(v)),
                Err(e) => self.thunks.set(id, ThunkState::Poisoned(e)),
            }
        } else {
            proof {
                assert(old(self).view_seq().update(id as int, old(self).view_seq()[id as int])
                    =~= old(self).view_seq());
            }
        }
    }

    /// Replaces the closure of thunk `id`, which has not been forced yet.
    pub fn set_unforced(&mut self, id: usize, c: Closure)
        requires
            id < old(self).view_seq().len(),
            old(self).view_seq()[id as int] is Unforced,
        ensures
            final(self).view_seq() == old(self).view_seq().update(id as int, ThunkState::Unforced(c)),
    {
        self.thunks.set(id, ThunkState::Unforced(c));
    }

    /// Abandons the evaluation of thunk `id`: if it is in progress it is
    /// poisoned as cancelled, so that no waiter blocks on it for ever.
    pub fn cancel(&mut self, id: usize)
        requires
            id < old(self).view_seq().len(),
        ensures
            final(self).view_seq() == old(self).view_seq().update(
                id as int,
                spec_cancel(old(self).view_seq()[id as int]),
            ),
    {
        if let ThunkState::InProgress = self.thunks[id] {
            self.thunks.set(id, ThunkState::Poisoned(VmError::Cancelled));
        } else {
            proof {
                assert(old(self).view_seq().update(id as int, old(self).view_seq()[id as int])
                    =~= old(self).view_seq());
            }
        }
    }
}

/// Once an evaluation has finished with a value, every later force gets that
/// same value and leaves the thunk as it is: the computation is never run again.
pub proof fn law_force_memoized(c: Closure, v: Value)
    ensures
        ({
            let (s1, start) = spec_begin(ThunkState::Unforced(c));
            let s2 = spec_finish(s1, Ok(v));
            &&& start == ForceStart::Evaluate(c)
            &&& s2 == ThunkState::Forced(v)
            &&& spec_begin(s2) == (s2, ForceStart::Ready(v))
            &&& spec_finish(s2, Ok(v)) == s2
        }),
{
}

/// Once an evaluation has failed, every later force gets the same error and
/// no evaluation starts again.
pub proof fn law_force_poisoned(c: Closure, e: VmError)
    ensures
        ({
            let s2 = spec_finish(spec_begin(ThunkState::Unforced(c)).0, Err(e));
            &&& s2 == ThunkState::Poisoned(e)
            &&& spec_begin(s2) == (s2, ForceStart::Failed(e))
        }),
{
}

/// Forcing a thunk again while its own evaluation is in progress is a cycle:
/// that force fails with `CyclicForce`, the thunk is poisoned with it, the
/// outcome of the outer evaluation does not clear it, and every later forcer
/// gets `CyclicForce`.
pub proof fn law_cycle_poisons(c: Closure, outer: Result<Value, VmError>)
    ensures
        ({
            let (s1, _) = spec_begin(ThunkState::Unforced(c));
            let (s2, inner) = spec_begin(s1);
            let s3 = spec_finish(s2, outer);
            &&& inner == ForceStart::Failed(VmError::CyclicForce)
            &&& s3 == ThunkState::Poisoned(VmError::CyclicForce)
            &&& spec_begin(s3).1 == ForceStart::Failed(VmError::CyclicForce)
        }),
{
}

} // verus!
