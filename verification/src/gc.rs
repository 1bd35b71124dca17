//! The closed set of garbage-collector operation codes that the host may
//! forward to the native collector, and its 1:1 mapping to the engine's
//! integer constants.

use vstd::prelude::*;

verus! {

/// A garbage-collector control action, mirroring the engine's own constants
/// one-to-one. The `data` argument of the collector call is read only by
/// the operations that take a parameter (step size, pause percentage, step
/// multiplier, major increment); the others ignore it.
#[derive(Clone, Copy, PartialEq, Eq, Structural, Debug)]
pub enum LuaGC {
    Stop,
    Restart,
    Collect,
    Count,
    CountBytes,
    Step,
    SetPause,
    SetStepMul,
    SetMajorInc,
    IsRunning,
    Generational,
    Incremental,
}

impl LuaGC {
    /// The engine's integer constant for this operation.
    pub open spec fn spec_code(self) -> i32 {
        match self {
            LuaGC::Stop => 0,
            LuaGC::Restart => 1,
            LuaGC::Collect => 2,
            LuaGC::Count => 3,
            LuaGC::CountBytes => 4,
            LuaGC::Step => 5,
            LuaGC::SetPause => 6,
            LuaGC::SetStepMul => 7,
            LuaGC::SetMajorInc => 8,
            LuaGC::IsRunning => 9,
            LuaGC::Generational => 10,
            LuaGC::Incremental => 11,
        }
    }

    /// True of the operations whose `data` argument carries meaning.
    pub open spec fn spec_uses_data(self) -> bool {
        self is Step || self is SetPause || self is SetStepMul || self is SetMajorInc
    }

    #[verifier::when_used_as_spec(spec_code)]
    pub fn code(self) -> (c: i32)
        ensures
            c == self.spec_code(),
    {
        match self {
            LuaGC::Stop => 0,
            LuaGC::Restart => 1,
            LuaGC::Collect => 2,
            LuaGC::Count => 3,
            LuaGC::CountBytes => 4,
            LuaGC::Step => 5,
            LuaGC::SetPause => 6,
            LuaGC::SetStepMul => 7,
            LuaGC::SetMajorInc => 8,
            LuaGC::IsRunning => 9,
            LuaGC::Generational => 10,
            LuaGC::Incremental => 11,
        }
    }

    #[verifier::when_used_as_spec(spec_uses_data)]
    pub fn uses_data(self) -> (r: bool)
        ensures
            r == self.spec_uses_data(),
    {
        match self {
            LuaGC::Step => true,
            LuaGC::SetPause => true,
            LuaGC::SetStepMul => true,
            LuaGC::SetMajorInc => true,
            _ => false,
        }
    }

    /// Decodes an engine constant back into the operation it stands for;
    /// the set is closed, so every code outside 0..=11 is rejected.
    pub fn from_code(c: i32) -> (r: Option<LuaGC>)
        ensures
            r is Some <==> 0 <= c <= 11,
            r matches Some(g) ==> g.spec_code() == c,
    {
        if c == 0 {
            Some(LuaGC::Stop)
        } else if c == 1 {
            Some(LuaGC::Restart)
        } else if c == 2 {
            Some(LuaGC::Collect)
        } else if c == 3 {
            Some(LuaGC::Count)
        } else if c == 4 {
            Some(LuaGC::CountBytes)
        } else if c == 5 {
            Some(LuaGC::Step)
        } else if c == 6 {
            Some(LuaGC::SetPause)
        } else if c == 7 {
            Some(LuaGC::SetStepMul)
        } else if c == 8 {
            Some(LuaGC::SetMajorInc)
        } else if c == 9 {
            Some(LuaGC::IsRunning)
        } else if c == 10 {
            Some(LuaGC::Generational)
        } else if c == 11 {
            Some(LuaGC::Incremental)
        } else {
            None
        }
    }
}

/// The operation codes and the operations are in bijection: decoding the
/// code of an operation gives the operation back.
pub proof fn lemma_gc_code_round_trip(g: LuaGC)
    ensures
        0 <= g.spec_code() <= 11,
        forall|h: LuaGC| h.spec_code() == g.spec_code() ==> h == g,
{
}

} // verus!
