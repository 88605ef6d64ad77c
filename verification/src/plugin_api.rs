use vstd::prelude::*;

verus! {

/// What the plugin answers the host's init call (`Success` is the host's `Ok`).
#[derive(Clone, Copy, Debug, PartialEq, Eq, Structural)]
pub enum InitResult {
    Error,
    Success,
}

/// The host's v2 entry point goes on only with a vtable and an API version of at
/// least 2; otherwise it answers `Error`.
pub fn v2_entry_check(vtable_present: bool, version: i32) -> (res: InitResult)
    ensures
        res == (if vtable_present && version >= 2 { InitResult::Success } else { InitResult::Error }),
{
    if !vtable_present || version < 2 {
        InitResult::Error
    } else {
        InitResult::Success
    }
}

/// The host's v3 entry point goes on only with an API version of at least 3.
pub fn v3_entry_check(version: i32) -> (res: InitResult)
    ensures
        res == (if version >= 3 { InitResult::Success } else { InitResult::Error }),
{
    if version < 3 {
        InitResult::Error
    } else {
        InitResult::Success
    }
}

} // verus!
