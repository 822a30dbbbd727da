//! Moving directories across volumes.
use vstd::prelude::*;

verus! {

/// A rename failed because source and target lie on different volumes:
/// OS error 17 or 18, or the `CrossesDevices` error kind.
pub fn is_cross_device_error(raw_os_error: Option<i32>, crosses_devices: bool) -> (r: bool)
    ensures
        r == (raw_os_error == Some(17i32) || raw_os_error == Some(18i32) || crosses_devices),
{
    match raw_os_error {
        Some(code) => code == 17 || code == 18 || crosses_devices,
        None => crosses_devices,
    }
}

} // verus!
