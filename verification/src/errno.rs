use vstd::prelude::*;
use crate::error::IoCause;

verus! {

/// The error number of "no such file or directory" (`ENOENT`) on Unix.
pub const ENOENT: i32 = 2i32;

/// Builds `rustix::io::Errno::from_raw_os_error(code)` and compares it with
/// `rustix::io::Errno::NOENT`. Claimed: the two are equal exactly when `code`
/// is `ENOENT`, 2, as both rustix backends store and compare the number
/// itself; the `linux_raw` backend asserts that the number lies in
/// `1..=4095`, hence the `requires`.
#[verifier::external_body]
fn errno_is_noent(code: i32) -> (r: bool)
    requires
        1 <= code <= 4095,
    ensures
        r == (code == ENOENT),
{
    rustix::io::Errno::from_raw_os_error(code) == rustix::io::Errno::NOENT
}

/// True of a failure that says the path does not exist.
pub open spec fn spec_not_found(cause: IoCause) -> bool {
    cause == (IoCause::Os { code: ENOENT })
}

/// Whether `cause` says that the path does not exist.
pub fn not_found(cause: IoCause) -> (r: bool)
    ensures
        r == spec_not_found(cause),
{
    match cause {
        IoCause::Os { code } => {
            if 1 <= code && code <= 4095 {
                errno_is_noent(code)
            } else {
                false
            }
        },
        _ => false,
    }
}

} // verus!
