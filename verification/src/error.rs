//! A single flat error type. The whole CLI's contract is "one clean line to
//! stderr, exit 1" — never a panic/backtrace — so every fallible path returns
//! this and the program prints it and exits 1.

use vstd::prelude::*;

verus! {

/// The one line the program prints, after `error: `, before it exits 1.
pub struct CdlvsmError(pub String);

/// A failure with `msg`.
pub fn fail<T>(msg: String) -> (r: Result<T, CdlvsmError>)
    ensures
        r matches Err(e) && e.0@ == msg@,
{
    Err(CdlvsmError(msg))
}

} // verus!
