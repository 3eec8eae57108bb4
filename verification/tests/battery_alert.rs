use logipeek::app::battery_alert::BatteryAlertState;
use logipeek::hid::features::battery::Charging;

fn evaluate(
    state: &mut BatteryAlertState,
    enabled: bool,
    percentage: Option<u8>,
    charging: Charging,
) -> bool {
    state.evaluate(Some("device"), enabled, 20, percentage, Some(&charging))
}

#[test]
fn crossing_notifies_once_and_hysteresis_rearms() {
    let mut state = BatteryAlertState::default();
    assert!(!evaluate(&mut state, true, Some(21), Charging::Discharging));
    assert!(evaluate(&mut state, true, Some(20), Charging::Discharging));
    assert!(!evaluate(&mut state, true, Some(19), Charging::Discharging));
    assert!(!evaluate(&mut state, true, Some(24), Charging::Discharging));
    assert!(!evaluate(&mut state, true, Some(25), Charging::Discharging));
    assert!(evaluate(&mut state, true, Some(20), Charging::Discharging));
}

#[test]
fn charging_disabled_and_missing_percentage_never_notify() {
    for charging in [
        Charging::Charging,
        Charging::FinalStage,
        Charging::Complete,
        Charging::Slow,
    ] {
        let mut state = BatteryAlertState::default();
        assert!(!evaluate(&mut state, true, Some(20), charging));
    }
    let mut state = BatteryAlertState::default();
    assert!(!evaluate(
        &mut state,
        false,
        Some(20),
        Charging::Discharging
    ));
    assert!(!evaluate(&mut state, true, None, Charging::Discharging));
}
