//! The decisions of the background HID worker. The worker thread itself, which waits for
//! commands and performs the scans and writes, drives these from the application.
use vstd::prelude::*;

use super::settings::Settings;
use super::state::{
    default_state, spec_apply_battery_scan, spec_apply_outcome, spec_begin_device_switch,
    spec_replace_from_scan, AppState, AppStateView, DeviceStatus, OperationError, OperationStatus,
};
use crate::hid::features::dpi::SetDpiOutcome;
use crate::hid::device::{
    endpoints_of, spec_identity_matches_scan, validated_target_matches_scan, FastDpiError,
    FastDpiSetResult, Interface, ValidatedDpiTarget,
};

verus! {

/// Seconds between two battery-only refreshes.
pub const BATTERY_REFRESH_SECONDS: u64 = 60;

#[derive(Debug, Clone, PartialEq, Eq)]
pub enum Command {
    RefreshAll,
    SelectDevice(String),
    SetDpi(u16),
    Shutdown,
}

/// How a DPI write is carried out.
#[derive(Debug, Clone, Copy, PartialEq, Eq, Structural)]
pub enum DpiWriteRoute {
    /// Revalidate and write the cached target.
    Fast,
    /// Rescan everything first, then write the target the scan finds.
    FullPreflight,
    /// Refuse: several devices and no single target.
    Blocked,
}

pub open spec fn spec_dpi_write_route(status: DeviceStatus, has_target: bool) -> DpiWriteRoute {
    match status {
        DeviceStatus::MultipleDevices => DpiWriteRoute::Blocked,
        DeviceStatus::Single => if has_target {
            DpiWriteRoute::Fast
        } else {
            DpiWriteRoute::FullPreflight
        },
        DeviceStatus::Unavailable => DpiWriteRoute::FullPreflight,
    }
}

pub fn dpi_write_route(status: DeviceStatus, has_target: bool) -> (r: DpiWriteRoute)
    ensures
        r == spec_dpi_write_route(status, has_target),
{
    match status {
        DeviceStatus::MultipleDevices => DpiWriteRoute::Blocked,
        DeviceStatus::Single => if has_target {
            DpiWriteRoute::Fast
        } else {
            DpiWriteRoute::FullPreflight
        },
        DeviceStatus::Unavailable => DpiWriteRoute::FullPreflight,
    }
}

/// The snapshot left when a scan fails: no device, with the same preferences.
pub open spec fn spec_reset(s: AppStateView) -> AppStateView {
    AppStateView {
        presets: s.presets,
        theme: s.theme,
        language: s.language,
        startup: s.startup,
        battery_notifications: s.battery_notifications,
        battery_threshold: s.battery_threshold,
        selected_device: s.selected_device,
        ..default_state()
    }
}

fn reset(state: &mut AppState)
    ensures
        final(state)@ == spec_reset(old(state)@),
{
    let settings: Settings = state.settings();
    let mut replacement = AppState::default();
    replacement.apply_settings(&settings);
    *state = replacement;
}

/// The snapshot after a full refresh: an explicit device choice is recorded first, then the
/// scan (or its failure) replaces the device values, and a choice clears the pending operation.
pub open spec fn spec_after_full_scan(
    s: AppStateView,
    selected_device: Option<Seq<char>>,
    scanned: Option<Seq<Interface>>,
) -> AppStateView {
    let switched = match selected_device {
        Some(device) => spec_begin_device_switch(s, device),
        None => s,
    };
    let scanned_state = match scanned {
        Some(interfaces) => spec_replace_from_scan(switched, interfaces),
        None => spec_reset(switched),
    };
    if selected_device is Some {
        AppStateView { operation: OperationStatus::Idle, ..scanned_state }
    } else {
        scanned_state
    }
}

pub fn after_full_scan(state: &mut AppState, selected_device: Option<&str>, scanned: Option<&[Interface]>)
    ensures
        final(state)@ == spec_after_full_scan(
            old(state)@,
            match selected_device {
                Some(d) => Some(d@),
                None => None,
            },
            match scanned {
                Some(i) => Some(i@),
                None => None,
            },
        ),
{
    match selected_device {
        Some(device) => state.begin_device_switch(device.to_string()),
        None => {},
    }
    match scanned {
        Some(interfaces) => state.replace_from_scan(interfaces),
        None => reset(state),
    }
    if selected_device.is_some() {
        state.operation = OperationStatus::Idle;
    }
}

/// A target found by a full refresh is kept only while the snapshot shows a single device.
pub fn full_scan_target(state: &AppState, target: Option<ValidatedDpiTarget>) -> (r: Option<ValidatedDpiTarget>)
    ensures
        r == (if state@.status == DeviceStatus::Single {
            target
        } else {
            None
        }),
{
    if state.status == DeviceStatus::Single {
        target
    } else {
        None
    }
}

/// The snapshot after a battery-only refresh; a failed scan keeps the pending operation and
/// the settings notice.
pub open spec fn spec_after_battery_scan(s: AppStateView, scanned: Option<Seq<Interface>>) -> AppStateView {
    match scanned {
        Some(interfaces) => spec_apply_battery_scan(s, interfaces),
        None => AppStateView {
            operation: s.operation,
            settings_notice: s.settings_notice,
            ..spec_reset(s)
        },
    }
}

/// Applies a battery-only refresh and answers whether the cached DPI target stays valid: only
/// when the scan still shows it, unchanged, as the sole writable endpoint and the snapshot
/// shows a single device.
pub fn after_battery_scan(
    state: &mut AppState,
    scanned: Option<&[Interface]>,
    target: Option<&ValidatedDpiTarget>,
) -> (keep: bool)
    ensures
        final(state)@ == spec_after_battery_scan(
            old(state)@,
            match scanned {
                Some(i) => Some(i@),
                None => None,
            },
        ),
        keep == (match (scanned, target) {
            (Some(interfaces), Some(t)) => spec_identity_matches_scan(t@.identity, endpoints_of(interfaces@))
                && final(state)@.status == DeviceStatus::Single,
            _ => false,
        }),
{
    match scanned {
        None => {
            let operation = state.operation;
            let notice = state.settings_notice;
            reset(state);
            state.operation = operation;
            state.settings_notice = notice;
            false
        },
        Some(interfaces) => {
            let matches = match target {
                Some(t) => validated_target_matches_scan(t, interfaces),
                None => false,
            };
            state.apply_battery_scan(interfaces);
            matches && state.status == DeviceStatus::Single
        },
    }
}

/// The snapshot after a DPI write attempt; `None` stands for a write with no target to use.
pub open spec fn spec_after_dpi_write(
    s: AppStateView,
    result: Option<Result<SetDpiOutcome, FastDpiError>>,
) -> AppStateView {
    match result {
        Some(Ok(outcome)) => spec_apply_outcome(s, outcome),
        _ => AppStateView { operation: OperationStatus::Failed(OperationError::Failed), ..s },
    }
}

/// Applies the result of a DPI write and answers whether the cached target stays valid: after
/// a write only when its outcome was confirmed, after a refused value always, and never after
/// an invalidated target or when no target was available.
pub fn after_dpi_write(state: &mut AppState, result: Option<Result<FastDpiSetResult, FastDpiError>>) -> (keep:
    bool)
    ensures
        final(state)@ == spec_after_dpi_write(
            old(state)@,
            match result {
                Some(Ok(r)) => Some(Ok(r.report.outcome)),
                Some(Err(e)) => Some(Err(e)),
                None => None,
            },
        ),
        keep == (match result {
            Some(Ok(r)) => r.target_valid,
            Some(Err(FastDpiError::Unsupported)) => true,
            _ => false,
        }),
{
    match result {
        Some(Ok(result)) => {
            state.apply_dpi_outcome(&result.report.outcome);
            result.target_valid
        },
        Some(Err(FastDpiError::Unsupported)) => {
            state.operation = OperationStatus::Failed(OperationError::Failed);
            true
        },
        _ => {
            state.operation = OperationStatus::Failed(OperationError::Failed);
            false
        },
    }
}

} // verus!
