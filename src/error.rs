use vstd::prelude::*;

verus! {

/// A failed system call, with the OS error code it reported.
#[derive(Clone, Copy, Debug, PartialEq, Eq)]
pub enum RashinErr {
    SyscallError(i32),
}

/// How a failed system call is handled.
#[derive(Clone, Copy, Debug, PartialEq, Eq)]
pub enum TransportFault {
    /// Nothing is ready yet: stop the current loop and wait for the next
    /// readiness notification.
    Transient,
    /// The call was interrupted: retry it.
    Interrupted,
    /// Anything else: give up the operation.
    Fatal(i32),
}

impl RashinErr {
    pub fn code(&self) -> (r: i32)
        ensures
            *self == RashinErr::SyscallError(r),
    {
        match self {
            RashinErr::SyscallError(code) => *code,
        }
    }
}

/// Sorts a failure by its code, given the platform's codes for "try again"
/// and "interrupted".
pub fn classify(err: &RashinErr, would_block: i32, interrupted: i32) -> (r: TransportFault)
    ensures
        ({
            let code = match *err {
                RashinErr::SyscallError(c) => c,
            };
            r == if code == would_block {
                TransportFault::Transient
            } else if code == interrupted {
                TransportFault::Interrupted
            } else {
                TransportFault::Fatal(code)
            }
        }),
{
    let code = err.code();
    if code == would_block {
        TransportFault::Transient
    } else if code == interrupted {
        TransportFault::Interrupted
    } else {
        TransportFault::Fatal(code)
    }
}

} // verus!
