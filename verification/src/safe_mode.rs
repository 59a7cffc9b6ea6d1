//! The outcome of checks that a kernel goes through before it runs: a trial on the CPU, a
//! look at its binary, and a guarded launch.
use vstd::prelude::*;

verus! {

/// The outcome of a check.
#[derive(Debug)]
pub enum SafeResult<T> {
    /// The check went well.
    Passed(T),
    /// The trial on the CPU failed.
    CpuError(String),
    /// The binary is not what it should be.
    VerifyError(String),
    /// The launch failed.
    DispatchError(String),
}

impl<T> SafeResult<T> {
    /// Whether the check went well.
    pub fn is_ok(&self) -> (r: bool)
        ensures
            r == (*self is Passed),
    {
        matches!(self, SafeResult::Passed(_))
    }

    /// What came out of a check that went well.
    pub fn unwrap(self) -> (r: T)
        requires
            self is Passed,
        ensures
            self == SafeResult::Passed(r),
    {
        match self {
            SafeResult::Passed(v) => v,
            _ => vstd::pervasive::unreached(),
        }
    }

    /// What to tell about a check: that it went well, or what went wrong.
    pub fn report(&self) -> (r: &str)
        ensures
            r@ == match *self {
                SafeResult::Passed(_) => "OK"@,
                SafeResult::CpuError(e)
                | SafeResult::VerifyError(e)
                | SafeResult::DispatchError(e) => e@,
            },
    {
        match self {
            SafeResult::Passed(_) => "OK",
            SafeResult::CpuError(e)
            | SafeResult::VerifyError(e)
            | SafeResult::DispatchError(e) => e.as_str(),
        }
    }
}

} // verus!
