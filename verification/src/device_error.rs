//! How a device attach or detach error is answered.

use vstd::prelude::*;

verus! {

/// What lies behind a device error, as far as the answer depends on it.
#[derive(Debug, Clone, Copy, PartialEq, Eq, Structural)]
pub enum DeviceErrorKind {
    /// The NVMe layer failed an I/O operation.
    IoFailed,
    /// The NVMe layer could not connect.
    ConnectFailed,
    /// The NVMe layer is connecting already.
    ConnectInProgress,
    /// Any other error of the NVMe layer, an error from elsewhere, or none.
    Other,
}

/// The kinds of status a device error is answered with.
#[derive(Debug, Clone, Copy, PartialEq, Eq, Structural)]
pub enum StatusKind {
    /// The operation was aborted and may be tried again.
    Aborted,
    /// What was asked for is there or under way already.
    AlreadyExists,
    /// Something went wrong on this side.
    Internal,
}

/// The status for a device error: a failed I/O or connect aborts the
/// operation, a connect under way counts as done already, and anything else
/// is an internal error.
pub open spec fn device_status(source: DeviceErrorKind) -> StatusKind {
    match source {
        DeviceErrorKind::IoFailed => StatusKind::Aborted,
        DeviceErrorKind::ConnectFailed => StatusKind::Aborted,
        DeviceErrorKind::ConnectInProgress => StatusKind::AlreadyExists,
        DeviceErrorKind::Other => StatusKind::Internal,
    }
}

/// Chooses the status with which a device error is answered.
pub fn status_of_device_error(source: DeviceErrorKind) -> (code: StatusKind)
    ensures
        code == device_status(source),
{
    match source {
        DeviceErrorKind::IoFailed | DeviceErrorKind::ConnectFailed => StatusKind::Aborted,
        DeviceErrorKind::ConnectInProgress => StatusKind::AlreadyExists,
        DeviceErrorKind::Other => StatusKind::Internal,
    }
}

} // verus!
