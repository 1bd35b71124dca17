//! The closed set of status codes returned by execution and resume
//! operations of the native engine, and its 1:1 mapping to the engine's
//! integer constants.

use vstd::prelude::*;

verus! {

/// Outcome of an execution or resume operation, mirroring the engine's own
/// constants one-to-one: ok, yielded, runtime error, syntax error, memory
/// error, error while running the error handler.
#[derive(Clone, Copy, PartialEq, Eq, Structural, Debug)]
pub enum LuaStatus {
    Normal,
    Yielded,
    RuntimeError,
    SyntaxError,
    MemoryError,
    HandlerError,
}

impl LuaStatus {
    /// The engine's integer constant for this status.
    pub open spec fn spec_code(self) -> i32 {
        match self {
            LuaStatus::Normal => 0,
            LuaStatus::Yielded => 1,
            LuaStatus::RuntimeError => 2,
            LuaStatus::SyntaxError => 3,
            LuaStatus::MemoryError => 4,
            LuaStatus::HandlerError => 5,
        }
    }

    /// True of the statuses that signal a failed execution; ok and yielded
    /// are the two non-error outcomes.
    pub open spec fn spec_is_error(self) -> bool {
        !(self is Normal || self is Yielded)
    }

    #[verifier::when_used_as_spec(spec_code)]
    pub fn code(self) -> (c: i32)
        ensures
            c == self.spec_code(),
    {
        match self {
            LuaStatus::Normal => 0,
            LuaStatus::Yielded => 1,
            LuaStatus::RuntimeError => 2,
            LuaStatus::SyntaxError => 3,
            LuaStatus::MemoryError => 4,
            LuaStatus::HandlerError => 5,
        }
    }

    #[verifier::when_used_as_spec(spec_is_error)]
    pub fn is_error(self) -> (r: bool)
        ensures
            r == self.spec_is_error(),
    {
        match self {
            LuaStatus::Normal => false,
            LuaStatus::Yielded => false,
            _ => true,
        }
    }

    /// Decodes an engine constant back into the status it stands for; the
    /// set is closed, so every code outside 0..=5 is rejected.
    pub fn from_code(c: i32) -> (r: Option<LuaStatus>)
        ensures
            r is Some <==> 0 <= c <= 5,
            r matches Some(s) ==> s.spec_code() == c,
    {
        if c == 0 {
            Some(LuaStatus::Normal)
        } else if c == 1 {
            Some(LuaStatus::Yielded)
        } else if c == 2 {
            Some(LuaStatus::RuntimeError)
        } else if c == 3 {
            Some(LuaStatus::SyntaxError)
        } else if c == 4 {
            Some(LuaStatus::MemoryError)
        } else if c == 5 {
            Some(LuaStatus::HandlerError)
        } else {
            None
        }
    }
}

/// The status codes and the statuses are in bijection: decoding the code of
/// a status gives the status back.
pub proof fn lemma_status_code_round_trip(s: LuaStatus)
    ensures
        0 <= s.spec_code() <= 5,
        forall|t: LuaStatus| t.spec_code() == s.spec_code() ==> t == s,
{
}

} // verus!
