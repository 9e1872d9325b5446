use ha_node::device_error::{status_of_device_error, DeviceErrorKind, StatusKind};

#[test]
fn failed_io_and_connect_abort() {
    assert_eq!(status_of_device_error(DeviceErrorKind::IoFailed), StatusKind::Aborted);
    assert_eq!(status_of_device_error(DeviceErrorKind::ConnectFailed), StatusKind::Aborted);
}

#[test]
fn connect_under_way_exists_already() {
    assert_eq!(status_of_device_error(DeviceErrorKind::ConnectInProgress), StatusKind::AlreadyExists);
}

#[test]
fn other_device_errors_are_internal() {
    assert_eq!(status_of_device_error(DeviceErrorKind::Other), StatusKind::Internal);
}
