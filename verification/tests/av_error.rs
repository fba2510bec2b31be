use ironplayer::av::error::AvError;

#[test]
fn spec_av_hw_001_hw_device_removed_is_detected() {
    let err = AvError::HwDeviceRemoved("DXGI_ERROR_DEVICE_REMOVED".into());
    assert!(err.is_device_removed());
}

#[test]
fn spec_av_hw_001_non_device_removed_error_is_not_detected() {
    let err = AvError::HwInitFailed("generic hw init failure".into());
    assert!(!err.is_device_removed());
}
