use vstd::prelude::*;

use super::settings::Language;
use crate::strings::{push_decimal, push_str, spec_decimal, string_from};

verus! {
/// Every piece of fixed user-interface text.
#[derive(Debug, Clone, Copy, PartialEq, Eq, Structural)]
pub enum TextKey {
    Connected,
    Battery,
    Refresh,
    StartWithWindows,
    LowBatteryNotifications,
    Unavailable,
    MultipleDevices,
    MultipleDevicesDetected,
    DeviceUnavailable,
    Critical,
    Low,
    Good,
    Full,
    Unknown,
    Discharging,
    Charging,
    BatteryError,
    StatusUnavailable,
    Loading,
    Applying,
    Verified,
    WorkerBusy,
    DpiNotVerified,
    DpiFailed,
    SettingsSaved,
    SettingsSaveFailed,
    StartupUpdateFailed,
    InvalidPreset,
}

/// The text for `key` in `language`.
pub open spec fn spec_text(language: Language, key: TextKey) -> &'static str {
    match language {
        Language::English => match key {
            TextKey::Connected => "Connected",
            TextKey::Battery => "Battery",
            TextKey::Refresh => "Refresh",
            TextKey::StartWithWindows => "Start with Windows",
            TextKey::LowBatteryNotifications => "Low-battery notifications",
            TextKey::Unavailable => "Unavailable",
            TextKey::MultipleDevices => "Multiple devices",
            TextKey::MultipleDevicesDetected => "Multiple devices detected",
            TextKey::DeviceUnavailable => "Device unavailable",
            TextKey::Critical => "Critical",
            TextKey::Low => "Low",
            TextKey::Good => "Good",
            TextKey::Full => "Full",
            TextKey::Unknown => "Unknown",
            TextKey::Discharging => "Discharging",
            TextKey::Charging => "Charging",
            TextKey::BatteryError => "Battery error",
            TextKey::StatusUnavailable => "Status unavailable",
            TextKey::Loading => "Loading...",
            TextKey::Applying => "Applying",
            TextKey::Verified => "Verified",
            TextKey::WorkerBusy => "HID worker is busy; try again",
            TextKey::DpiNotVerified => "DPI change could not be verified",
            TextKey::DpiFailed => "DPI change failed; refresh the device and try again",
            TextKey::SettingsSaved => "Settings saved",
            TextKey::SettingsSaveFailed => "Settings could not be saved",
            TextKey::StartupUpdateFailed => "Start with Windows could not be updated",
            TextKey::InvalidPreset => "Presets must be 1-65535",
        },
        Language::SimplifiedChinese => match key {
            TextKey::Connected => "已连接",
            TextKey::Battery => "电量",
            TextKey::Refresh => "刷新",
            TextKey::StartWithWindows => "开机启动",
            TextKey::LowBatteryNotifications => "低电量通知",
            TextKey::Unavailable => "不可用",
            TextKey::MultipleDevices => "多个设备",
            TextKey::MultipleDevicesDetected => "检测到多个设备",
            TextKey::DeviceUnavailable => "设备不可用",
            TextKey::Critical => "严重不足",
            TextKey::Low => "低",
            TextKey::Good => "良好",
            TextKey::Full => "已充满",
            TextKey::Unknown => "未知",
            TextKey::Discharging => "放电中",
            TextKey::Charging => "充电中",
            TextKey::BatteryError => "电池错误",
            TextKey::StatusUnavailable => "状态不可用",
            TextKey::Loading => "加载中...",
            TextKey::Applying => "正在应用",
            TextKey::Verified => "已验证",
            TextKey::WorkerBusy => "设备忙，请稍后重试",
            TextKey::DpiNotVerified => "无法验证 DPI 更改",
            TextKey::DpiFailed => "DPI 更改失败；请刷新设备后重试",
            TextKey::SettingsSaved => "设置已保存",
            TextKey::SettingsSaveFailed => "无法保存设置",
            TextKey::StartupUpdateFailed => "无法更新开机启动",
            TextKey::InvalidPreset => "预设值必须介于 1 和 65535 之间",
        },
    }
}

pub fn text(language: Language, key: TextKey) -> (r: &'static str)
    ensures
        r == spec_text(language, key),
{
    match language {
        Language::English => match key {
            TextKey::Connected => "Connected",
            TextKey::Battery => "Battery",
            TextKey::Refresh => "Refresh",
            TextKey::StartWithWindows => "Start with Windows",
            TextKey::LowBatteryNotifications => "Low-battery notifications",
            TextKey::Unavailable => "Unavailable",
            TextKey::MultipleDevices => "Multiple devices",
            TextKey::MultipleDevicesDetected => "Multiple devices detected",
            TextKey::DeviceUnavailable => "Device unavailable",
            TextKey::Critical => "Critical",
            TextKey::Low => "Low",
            TextKey::Good => "Good",
            TextKey::Full => "Full",
            TextKey::Unknown => "Unknown",
            TextKey::Discharging => "Discharging",
            TextKey::Charging => "Charging",
            TextKey::BatteryError => "Battery error",
            TextKey::StatusUnavailable => "Status unavailable",
            TextKey::Loading => "Loading...",
            TextKey::Applying => "Applying",
            TextKey::Verified => "Verified",
            TextKey::WorkerBusy => "HID worker is busy; try again",
            TextKey::DpiNotVerified => "DPI change could not be verified",
            TextKey::DpiFailed => "DPI change failed; refresh the device and try again",
            TextKey::SettingsSaved => "Settings saved",
            TextKey::SettingsSaveFailed => "Settings could not be saved",
            TextKey::StartupUpdateFailed => "Start with Windows could not be updated",
            TextKey::InvalidPreset => "Presets must be 1-65535",
        },
        Language::SimplifiedChinese => match key {
            TextKey::Connected => "已连接",
            TextKey::Battery => "电量",
            TextKey::Refresh => "刷新",
            TextKey::StartWithWindows => "开机启动",
            TextKey::LowBatteryNotifications => "低电量通知",
            TextKey::Unavailable => "不可用",
            TextKey::MultipleDevices => "多个设备",
            TextKey::MultipleDevicesDetected => "检测到多个设备",
            TextKey::DeviceUnavailable => "设备不可用",
            TextKey::Critical => "严重不足",
            TextKey::Low => "低",
            TextKey::Good => "良好",
            TextKey::Full => "已充满",
            TextKey::Unknown => "未知",
            TextKey::Discharging => "放电中",
            TextKey::Charging => "充电中",
            TextKey::BatteryError => "电池错误",
            TextKey::StatusUnavailable => "状态不可用",
            TextKey::Loading => "加载中...",
            TextKey::Applying => "正在应用",
            TextKey::Verified => "已验证",
            TextKey::WorkerBusy => "设备忙，请稍后重试",
            TextKey::DpiNotVerified => "无法验证 DPI 更改",
            TextKey::DpiFailed => "DPI 更改失败；请刷新设备后重试",
            TextKey::SettingsSaved => "设置已保存",
            TextKey::SettingsSaveFailed => "无法保存设置",
            TextKey::StartupUpdateFailed => "无法更新开机启动",
            TextKey::InvalidPreset => "预设值必须介于 1 和 65535 之间",
        },
    }
}

/// The low-battery balloon text, e.g. "Mouse battery is low: 18%".
pub open spec fn spec_low_battery_message(language: Language, percentage: u8) -> Seq<char> {
    match language {
        Language::English => "Mouse battery is low: "@ + spec_decimal(percentage as nat) + "%"@,
        Language::SimplifiedChinese => "鼠标电量较低："@ + spec_decimal(percentage as nat) + "%"@,
    }
}

pub fn low_battery_message(language: Language, percentage: u8) -> (r: String)
    ensures
        r@ == spec_low_battery_message(language, percentage),
{
    let mut s = match language {
        Language::English => string_from("Mouse battery is low: "),
        Language::SimplifiedChinese => string_from("鼠标电量较低："),
    };
    push_decimal(&mut s, percentage as u64);
    push_str(&mut s, "%");
    s
}

} // verus!
