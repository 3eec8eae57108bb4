use logipeek::hid::device::DpiSetTargetError;
use logipeek::hid::features::dpi::SetDpiError;
use logipeek::hid::hidpp::Error;

#[test]
fn error_messages_name_the_failure() {
    assert_eq!(Error::Io.describe(), "HID I/O unavailable (access denied, disconnected, or busy)");
    assert_eq!(Error::Timeout.describe(), "No matching reply before timeout (sleeping or unavailable)");
    assert_eq!(Error::Malformed("bad").describe(), "Malformed response: bad");
    assert_eq!(Error::Protocol { legacy: false, code: 0x0b }.describe(), "HID++ 2.x error 0x0B");
    assert_eq!(Error::Protocol { legacy: true, code: 0xa7 }.describe(), "HID++ 1.x error 0xA7");
    assert_eq!(
        Error::Timeout.in_read("0x2201 sensor count (fn0)").describe(),
        "0x2201 sensor count (fn0): No matching reply before timeout (sleeping or unavailable)"
    );
}

#[test]
fn write_refusal_messages_include_the_values() {
    assert_eq!(
        SetDpiError::Unsupported { requested: 1325, nearest: Some(1350) }.describe(),
        "DPI 1325 is unsupported; nearest supported value is 1350"
    );
    assert_eq!(
        SetDpiError::Unsupported { requested: 7, nearest: None }.describe(),
        "DPI 7 is unsupported; no valid value was reported"
    );
    assert_eq!(SetDpiError::Write(Error::Io).describe(), "DPI write failed: HID I/O unavailable (access denied, disconnected, or busy)");
    assert_eq!(
        DpiSetTargetError::Preflight { interface_number: 3, device_index: 0xff, error: Error::Timeout }.describe(),
        "DPI preflight failed on interface 3, device 0xFF: No matching reply before timeout (sleeping or unavailable); no write was sent"
    );
    assert_eq!(
        DpiSetTargetError::MultipleSensors { interface_number: 1, device_index: 2, count: 3 }.describe(),
        "Interface 1, device 0x02 reports 3 sensors; this phase refuses multi-sensor writes"
    );
    assert_eq!(
        DpiSetTargetError::MultipleWritableTargets(2).describe(),
        "Found 2 currently writable 0x2201 endpoints; refusing to choose a target"
    );
    assert_eq!(DpiSetTargetError::Enumeration(Error::Io).describe(), "Device enumeration failed: HID I/O unavailable (access denied, disconnected, or busy)");
    assert_eq!(DpiSetTargetError::Write(SetDpiError::InvalidSensor).describe(), "DPI write sensor index is invalid");
}
