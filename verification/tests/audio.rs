use lartycc::audio::{selected_device, check_device_id, native_status, AudioError, DeviceInfo};

#[test]
fn device_ids_with_nul_are_refused() {
    assert_eq!(check_device_id(None), Ok(()));
    assert_eq!(check_device_id(Some("hw:0")), Ok(()));
    assert_eq!(check_device_id(Some("a\0b")), Err(AudioError::InvalidDeviceId));
}

#[test]
fn native_flags_become_results() {
    assert_eq!(native_status(true, AudioError::SeekFailed), Ok(()));
    assert_eq!(native_status(false, AudioError::SeekFailed), Err(AudioError::SeekFailed));
    assert_eq!(AudioError::SeekFailed.message(), "audio transport seek was rejected");
    assert_eq!(AudioError::InvalidDeviceId.message(), "audio device ID contains a null byte");
}

#[test]
fn devices_are_listed_with_a_default_marker() {
    let device = DeviceInfo { id: "0".into(), name: "Speakers".into(), is_default: true };
    assert_eq!(device.listing(), "0\tSpeakers (default)");
    let device = DeviceInfo { id: "1".into(), name: "USB".into(), is_default: false };
    assert_eq!(device.listing(), "1\tUSB");
}

#[test]
fn an_empty_device_id_selects_the_default_device() {
    assert_eq!(selected_device(None), None);
    assert_eq!(selected_device(Some("")), None);
    assert_eq!(selected_device(Some("hw:1")), Some("hw:1"));
}
