//! Turning a status code returned by the MIDI services into a `Result`.
use vstd::prelude::*;

verus! {

/// A status code of the MIDI services: zero for success, else an error code.
pub type OSStatus = i32;

/// `Ok` with the value that `f` makes when `status` is zero, else `Err(status)`.
pub fn result_from_status<T, F: FnOnce() -> T>(status: OSStatus, f: F) -> (r: Result<T, OSStatus>)
    requires
        status == 0 ==> f.requires(()),
    ensures
        status == 0 ==> r.is_ok() && f.ensures((), r->Ok_0),
        status != 0 ==> r == Err::<T, OSStatus>(status),
{
    if status == 0 {
        Ok(f())
    } else {
        Err(status)
    }
}

/// `Ok(())` when `status` is zero, else `Err(status)`.
pub fn unit_result_from_status(status: OSStatus) -> (r: Result<(), OSStatus>)
    ensures
        r == if status == 0 {
            Ok::<(), OSStatus>(())
        } else {
            Err(status)
        },
{
    result_from_status(status, || ())
}

} // verus!
