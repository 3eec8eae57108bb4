use logipeek::app::battery_alert::BatteryAlertState;
use logipeek::app::settings::{Language, Settings, Theme, DEFAULT_PRESETS};
use logipeek::app::slider;
use logipeek::app::startup::{quote_windows, startup_command};
use logipeek::app::state::{
    AppState, DeviceStatus, OperationError, OperationStatus, SettingsNotice,
};
use logipeek::app::text::{low_battery_message, text, TextKey};
use logipeek::app::worker::{after_battery_scan, after_dpi_write, after_full_scan, full_scan_target};
use logipeek::hid::device::{Endpoint, FastDpiError, FeatureResult, Interface};
use logipeek::hid::features::battery::{Battery, Charging, Level};
use logipeek::hid::features::dpi::{DpiValues, SensorDpi, SetDpiOutcome};
use logipeek::hid::hidpp::{Feature, Protocol};
use logipeek::hid::transport::{
    classify_report, encode_request, next_software_id, read_timeout_millis, report_id, write_accepted,
};

fn mouse(index: i32, slot: u8, product: &str, current: Option<u16>, battery: Option<u8>) -> Interface {
    Interface {
        number: index as usize,
        vid: 0x046d,
        pid: 0xc539,
        product: product.into(),
        manufacturer: "Logitech".into(),
        interface_number: index,
        usage_page: 0xff00,
        usage: 1,
        candidate: true,
        descriptor_bytes: None,
        open_error: None,
        endpoints: vec![Endpoint {
            index: slot,
            opaque_id: format!("mouse-{index}-{slot}"),
            protocol: Ok(Protocol::Feature { major: 2, minor: 0 }),
            features: vec![FeatureResult {
                id: 0x2201,
                result: Ok(Some(Feature { id: 0x2201, index: 9, flags: 0, version: 3 })),
            }],
            battery: battery.map(|percentage| {
                Ok(Battery {
                    feature_id: 0x1004,
                    feature_version: 3,
                    percentage: Some(percentage),
                    level: None,
                    charging: Charging::Discharging,
                    rechargeable: Some(true),
                    external_power_raw: Some(0),
                })
            }),
            dpi: current.map(|value| {
                Ok(vec![SensorDpi {
                    sensor: 0,
                    current: value,
                    default: None,
                    supported: DpiValues::List(vec![400, 800, 1600]),
                }])
            }),
        }],
    }
}

#[test]
fn saved_settings_reload_unchanged() {
    let settings = Settings {
        presets: [450, 1, 65535, 3200],
        theme: Theme::Light,
        language: Some(Language::SimplifiedChinese),
        startup: true,
        battery_notifications: false,
        battery_threshold: 50,
        device: Some("abc-123_x".into()),
    };
    assert_eq!(Settings::parse(&settings.serialize()), settings);
    let plain = Settings::default();
    assert_eq!(
        plain.serialize(),
        "preset1=400\npreset2=800\npreset3=1600\npreset4=3200\ntheme=system\nstartup=false\nbattery_notifications=true\nbattery_threshold=20\n"
    );
    assert_eq!(Settings::parse(&plain.serialize()), plain);
}

#[test]
fn unsavable_zero_preset_reloads_as_default() {
    let settings = Settings { presets: [0, 800, 1600, 3200], ..Settings::default() };
    assert_eq!(Settings::parse(&settings.serialize()).presets, DEFAULT_PRESETS);
}

#[test]
fn settings_parse_trims_and_accepts_crlf_and_plus() {
    let settings = Settings::parse("  preset1 = +500 \r\ntheme= dark\r\nbattery_threshold=55\nno separator\n");
    assert_eq!(settings.presets[0], 500);
    assert_eq!(settings.theme, Theme::Dark);
    assert_eq!(settings.battery_threshold, 20);
}

#[test]
fn startup_quoting_escapes_quotes_and_trailing_backslashes() {
    assert_eq!(quote_windows(r"C:\dir\"), r#""C:\dir\\""#);
    assert_eq!(quote_windows(r#"a"b"#), r#""a\"b""#);
    assert_eq!(quote_windows(r#"a\"b"#), r#""a\\\"b""#);
    assert_eq!(quote_windows(""), "\"\"");
    assert_eq!(startup_command("x.exe"), "\"x.exe\" --startup");
}

#[test]
fn slider_endpoints_and_positions() {
    let range = DpiValues::Range { minimum: 100, maximum: 1620, step: 50 };
    assert_eq!(slider::endpoints(&range), Some((100, 1600)));
    assert_eq!(slider::endpoints(&DpiValues::List(vec![])), None);
    assert_eq!(slider::endpoints(&DpiValues::List(vec![400, 3200])), Some((400, 3200)));
    assert_eq!(slider::value_at(&DpiValues::List(vec![400, 800]), -5, 100), Some(400));
    assert_eq!(slider::value_at(&DpiValues::List(vec![400, 800]), 500, 100), Some(800));
    assert_eq!(slider::value_at(&DpiValues::List(vec![]), 5, 100), None);
    assert_eq!(slider::position_of(&DpiValues::List(vec![1600]), 1600, 300), Some(0));
    assert_eq!(slider::position_of(&range, 125, 300), None);
}

#[test]
fn battery_alert_rearms_only_after_recovery_past_hysteresis() {
    let mut state = BatteryAlertState::default();
    let discharging = Charging::Discharging;
    assert!(state.evaluate(Some("a"), true, 30, Some(30), Some(&discharging)));
    assert!(!state.evaluate(Some("a"), true, 30, Some(34), Some(&discharging)));
    assert!(!state.evaluate(Some("a"), true, 30, Some(29), Some(&discharging)));
    assert!(!state.evaluate(Some("a"), true, 30, Some(35), Some(&discharging)));
    assert!(state.evaluate(Some("a"), true, 30, Some(30), Some(&discharging)));
    assert!(state.evaluate(Some("b"), true, 30, Some(10), Some(&discharging)));
    assert!(!state.evaluate(Some("b"), true, 30, Some(9), Some(&discharging)));
}

#[test]
fn state_texts_follow_language_and_status() {
    let mut state = AppState::from_scan(&[mouse(1, 2, "Mouse", Some(800), Some(40))]);
    assert_eq!(state.tooltip(), "LogiPeek - 40% - 800 DPI");
    assert_eq!(state.dpi_text(), "DPI: 800");
    assert_eq!(state.battery_value_text(), "40%");
    assert_eq!(state.connection_text(), "Connected");
    assert_eq!(state.charging_text(), "Discharging");
    state.battery_percent = None;
    state.battery_level = Some(Level::Critical);
    assert_eq!(state.battery_text(), "Battery: Critical");
    assert_eq!(state.battery_value_text(), "Critical");
    state.battery_level = None;
    assert_eq!(state.battery_value_text(), "\u{2014}");
    state.operation = OperationStatus::Failed(OperationError::Remains(800));
    assert_eq!(state.operation_text(), "DPI remains 800; requested value was not verified");
    state.language = Some(Language::SimplifiedChinese);
    assert_eq!(state.operation_text(), "DPI 仍为 800；请求值未通过验证");
    assert_eq!(state.connection_text(), "已连接");
    state.settings_notice = Some(SettingsNotice::Saved);
    assert_eq!(state.settings_notice_text(), Some("设置已保存"));
    state.operation = OperationStatus::Idle;
    assert_eq!(state.operation_text(), "");
    assert_eq!(text(Language::English, TextKey::InvalidPreset), "Presets must be 1-65535");
    assert_eq!(low_battery_message(Language::English, 5), "Mouse battery is low: 5%");
}

#[test]
fn full_refresh_choice_resets_operation_and_keeps_preferences() {
    let interfaces = [mouse(1, 2, "A", Some(800), Some(80)), mouse(2, 3, "B", Some(400), Some(70))];
    let mut state = AppState::from_scan(&interfaces);
    assert_eq!(state.status, DeviceStatus::MultipleDevices);
    state.operation = OperationStatus::Applying(800);
    after_full_scan(&mut state, Some("mouse-2-3"), Some(&interfaces));
    assert_eq!(state.status, DeviceStatus::Single);
    assert_eq!(state.current_dpi, Some(400));
    assert_eq!(state.operation, OperationStatus::Idle);
    assert_eq!(state.selected_device.as_deref(), Some("mouse-2-3"));
    state.theme = Theme::Dark;
    after_full_scan(&mut state, None, None);
    assert_eq!(state.status, DeviceStatus::Unavailable);
    assert_eq!(state.theme, Theme::Dark);
    assert_eq!(state.selected_device.as_deref(), Some("mouse-2-3"));
    assert!(full_scan_target(&state, None).is_none());
}

#[test]
fn battery_refresh_failure_keeps_operation_and_drops_target() {
    let mut state = AppState::from_scan(&[mouse(1, 2, "Mouse", Some(800), Some(40))]);
    state.operation = OperationStatus::Verified(800);
    assert!(!after_battery_scan(&mut state, None, None));
    assert_eq!(state.status, DeviceStatus::Unavailable);
    assert_eq!(state.operation, OperationStatus::Verified(800));
    let mut state = AppState::from_scan(&[mouse(1, 2, "Mouse", Some(800), Some(40))]);
    assert!(!after_battery_scan(&mut state, Some(&[mouse(1, 2, "Mouse", None, Some(39))]), None));
    assert_eq!(state.battery_percent, Some(39));
    assert_eq!(state.current_dpi, Some(800));
}

#[test]
fn battery_scan_without_any_device_clears_stale_dpi() {
    let mut state = AppState::from_scan(&[]);
    assert_eq!(state.status, DeviceStatus::Unavailable);
    state.current_dpi = Some(1234);
    state.supported_dpi = Some(DpiValues::List(vec![1234]));
    state.apply_battery_scan(&[]);
    assert_eq!(state.current_dpi, None);
    assert_eq!(state.supported_dpi, None);
    let mut state = AppState::from_scan(&[mouse(1, 2, "Mouse", Some(800), Some(40))]);
    state.apply_battery_scan(&[mouse(1, 2, "Mouse", None, Some(38))]);
    assert_eq!(state.current_dpi, Some(800));
    state.apply_battery_scan(&[]);
    assert_eq!(state.current_dpi, None);
}

#[test]
fn dpi_write_results_update_state_and_target_validity() {
    let mut state = AppState::from_scan(&[mouse(1, 2, "Mouse", Some(800), Some(40))]);
    assert!(after_dpi_write(&mut state, Some(Err(FastDpiError::Unsupported))));
    assert_eq!(state.operation, OperationStatus::Failed(OperationError::Failed));
    assert!(!after_dpi_write(&mut state, Some(Err(FastDpiError::Invalidated))));
    assert!(!after_dpi_write(&mut state, None));
    state.apply_dpi_outcome(&SetDpiOutcome::TimedOutDifferent { actual: 400 });
    assert_eq!(state.current_dpi, Some(400));
    assert_eq!(state.operation, OperationStatus::Failed(OperationError::Remains(400)));
}

#[test]
fn transport_helpers_encode_and_classify() {
    assert_eq!(report_id(true), 0x11);
    assert_eq!(report_id(false), 0x10);
    assert_eq!(next_software_id(0), 1);
    assert_eq!(next_software_id(15), 1);
    assert_eq!(next_software_id(14), 15);
    assert_eq!(encode_request(0x10, 1, 2, 3, 4, &[9]), Ok(vec![0x10, 1, 2, 0x34, 9, 0, 0]));
    assert!(encode_request(0x10, 1, 2, 3, 4, &[1, 2, 3, 4]).is_err());
    assert!(encode_request(0x11, 1, 2, 16, 4, &[]).is_err());
    assert_eq!(encode_request(0x11, 1, 2, 3, 4, &[1, 2, 3, 4]).map(|r| r.len()), Ok(20));
    assert!(write_accepted(0, 7));
    assert!(write_accepted(20, 7));
    assert!(!write_accepted(3, 7));
    assert_eq!(read_timeout_millis(0), 1);
    assert_eq!(read_timeout_millis(300), 300);
    assert_eq!(read_timeout_millis(5000), 750);
    let request = [0x10, 1, 2, 0x34, 9, 0, 0];
    assert_eq!(classify_report(&request, &[0x20, 1, 2, 3]), None);
    assert_eq!(classify_report(&request, &[0x10, 1, 2, 0x34, 7, 8, 9]), Some(Ok(vec![7, 8, 9])));
    assert!(matches!(classify_report(&request, &[0x10, 1, 2, 0x34, 7]), Some(Err(_))));
    assert_eq!(classify_report(&request, &[0x10, 5, 2, 0x34, 7]), None);
}

/// Reads one argument the way the Windows command-line rules do, for a word that starts with
/// a quote and ends at its closing quote.
fn read_windows_argument(word: &str) -> Option<String> {
    let mut chars = word.chars();
    if chars.next() != Some('"') {
        return None;
    }
    let mut out = String::new();
    let mut pending = 0usize;
    let rest: Vec<char> = chars.collect();
    for (i, c) in rest.iter().enumerate() {
        match c {
            '\\' => pending += 1,
            '"' if pending % 2 == 0 => {
                out.extend(std::iter::repeat_n('\\', pending / 2));
                return if i + 1 == rest.len() { Some(out) } else { None };
            }
            '"' => {
                out.extend(std::iter::repeat_n('\\', pending / 2));
                out.push('"');
                pending = 0;
            }
            other => {
                out.extend(std::iter::repeat_n('\\', pending));
                out.push(*other);
                pending = 0;
            }
        }
    }
    None
}

#[test]
fn quoted_paths_read_back_as_one_argument() {
    for path in [
        r"C:\Program Files\LogiPeek\logipeek.exe",
        r"C:\dir\",
        r#"a"b"#,
        r#"a\"b\\"#,
        "",
        r"\\server\share\x.exe",
    ] {
        let quoted = quote_windows(path);
        assert!(quoted.starts_with('"') && quoted.ends_with('"') && quoted.len() >= 2);
        assert_eq!(read_windows_argument(&quoted).as_deref(), Some(path));
    }
}

#[test]
fn any_settings_text_parses_to_savable_settings() {
    let text = "preset1=0\npreset2=99999\nbattery_threshold=7\ndevice=Bad Device\nlanguage=fr\n";
    let parsed = Settings::parse(text);
    assert!(parsed.presets.iter().all(|p| *p > 0));
    assert!(parsed.battery_threshold % 5 == 0 && (5..=50).contains(&parsed.battery_threshold));
    assert_eq!(parsed.device, None);
    assert_eq!(parsed.language, None);
    assert_eq!(Settings::parse(&parsed.serialize()), parsed);
    assert_eq!(Settings::parse("language = zh-CN").language, Some(Language::SimplifiedChinese));
}

#[test]
fn slider_position_round_trips_for_lists_and_ranges() {
    let list = DpiValues::List(vec![400, 800, 1600, 3200]);
    let p = slider::position_of(&list, 1600, 300).unwrap();
    assert_eq!(p, 200);
    assert_eq!(slider::value_at(&list, p, 300), Some(1600));
    for width in [3, 4, 7, 300] {
        for value in [400, 800, 1600, 3200] {
            let p = slider::position_of(&list, value, width).unwrap();
            assert_eq!(slider::value_at(&list, p, width), Some(value));
        }
    }
    let range = DpiValues::Range { minimum: 200, maximum: 400, step: 50 };
    for value in [200, 250, 300, 350, 400] {
        let p = slider::position_of(&range, value, 200).unwrap();
        assert_eq!(slider::value_at(&range, p, 200), Some(value));
    }
}

#[test]
fn one_alert_over_many_low_readings() {
    let mut alert = BatteryAlertState::default();
    let d = Some(&Charging::Discharging);
    assert!(!alert.evaluate(Some("m"), true, 20, Some(30), d));
    assert!(alert.evaluate(Some("m"), true, 20, Some(20), d));
    for percentage in [Some(19), None, Some(24), Some(10), Some(21), Some(5)] {
        assert!(!alert.evaluate(Some("m"), true, 20, percentage, d));
    }
    assert!(!alert.evaluate(Some("m"), true, 20, Some(25), d));
    assert!(alert.evaluate(Some("m"), true, 20, Some(20), d));
}
