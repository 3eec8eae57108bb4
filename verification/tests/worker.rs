use logipeek::app::state::DeviceStatus;
use logipeek::app::worker::{dpi_write_route, DpiWriteRoute};

#[test]
fn no_target_uses_full_preflight_and_valid_target_uses_fast_path() {
    assert_eq!(
        dpi_write_route(DeviceStatus::Single, false),
        DpiWriteRoute::FullPreflight
    );
    assert_eq!(
        dpi_write_route(DeviceStatus::Single, true),
        DpiWriteRoute::Fast
    );
    assert_eq!(
        dpi_write_route(DeviceStatus::Unavailable, false),
        DpiWriteRoute::FullPreflight
    );
}

#[test]
fn multiple_devices_never_use_fast_path() {
    assert_eq!(
        dpi_write_route(DeviceStatus::MultipleDevices, true),
        DpiWriteRoute::Blocked
    );
    assert_eq!(
        dpi_write_route(DeviceStatus::MultipleDevices, false),
        DpiWriteRoute::Blocked
    );
}
