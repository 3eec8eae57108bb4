use vstd::prelude::*;

use crate::hid::features::battery::Charging;
use crate::strings::str_eq;

verus! {

/// Points above the threshold that a percentage must recover to before another alert.
pub const HYSTERESIS_PERCENT: u8 = 5;

/// Low-battery alert memory for one device: the last discharging percentage seen and
/// whether the next crossing may notify.
#[derive(Debug, PartialEq, Eq)]
pub struct BatteryAlertState {
    device: Option<String>,
    previous: Option<u8>,
    armed: bool,
}

pub struct AlertView {
    pub device: Option<Seq<char>>,
    pub previous: Option<u8>,
    pub armed: bool,
}

impl View for BatteryAlertState {
    type V = AlertView;

    closed spec fn view(&self) -> AlertView {
        AlertView {
            device: match self.device {
                Some(d) => Some(d@),
                None => None,
            },
            previous: self.previous,
            armed: self.armed,
        }
    }
}

impl Clone for BatteryAlertState {
    fn clone(&self) -> (r: Self)
        ensures
            r@ == self@,
    {
        BatteryAlertState {
            device: match &self.device {
                Some(d) => Some(d.clone()),
                None => None,
            },
            previous: self.previous,
            armed: self.armed,
        }
    }
}

impl Default for BatteryAlertState {
    fn default() -> (r: Self)
        ensures
            r@ == (AlertView { device: None, previous: None, armed: false }),
    {
        BatteryAlertState { device: None, previous: None, armed: false }
    }
}

/// The percentage at or above which alerts re-arm (`threshold + 5`, saturating).
pub open spec fn rearm_level(threshold: u8) -> int {
    if threshold as int + HYSTERESIS_PERCENT as int > 255 {
        255
    } else {
        threshold as int + HYSTERESIS_PERCENT as int
    }
}

pub open spec fn str_option_view(s: Option<&str>) -> Option<Seq<char>> {
    match s {
        Some(v) => Some(v@),
        None => None,
    }
}

/// One observation: a different device resets the memory and arms; a missing percentage or a
/// non-discharging state only forgets the previous value; a discharging percentage notifies
/// when alerts are enabled and armed and it crosses down to the threshold, which disarms.
pub open spec fn spec_evaluate(
    state: AlertView,
    device: Option<Seq<char>>,
    enabled: bool,
    threshold: u8,
    percentage: Option<u8>,
    charging: Option<Charging>,
) -> (AlertView, bool) {
    let s = if state.device != device {
        AlertView { device, previous: None, armed: true }
    } else {
        state
    };
    match percentage {
        None => (AlertView { previous: None, ..s }, false),
        Some(p) => {
            let armed = s.armed || p >= rearm_level(threshold);
            if charging != Some(Charging::Discharging) {
                (AlertView { device: s.device, previous: None, armed }, false)
            } else {
                let crossed = (s.previous is None || s.previous.unwrap() > threshold) && p
                    <= threshold;
                let notify = enabled && armed && crossed;
                (
                    AlertView {
                        device: s.device,
                        previous: Some(p),
                        armed: if notify {
                            false
                        } else {
                            armed
                        },
                    },
                    notify,
                )
            }
        },
    }
}

impl BatteryAlertState {
    pub fn evaluate(
        &mut self,
        device: Option<&str>,
        enabled: bool,
        threshold: u8,
        percentage: Option<u8>,
        charging: Option<&Charging>,
    ) -> (r: bool)
        ensures
            (final(self)@, r) == spec_evaluate(
                old(self)@,
                str_option_view(device),
                enabled,
                threshold,
                percentage,
                match charging {
                    Some(c) => Some(*c),
                    None => None,
                },
            ),
    {
        let same = match (&self.device, device) {
            (Some(current), Some(other)) => str_eq(current.as_str(), other),
            (None, None) => true,
            _ => false,
        };
        if !same {
            self.device = match device {
                Some(d) => Some(d.to_owned()),
                None => None,
            };
            self.previous = None;
            self.armed = true;
        }
        let percentage = match percentage {
            Some(p) => p,
            None => {
                self.previous = None;
                return false;
            },
        };
        if percentage >= threshold.saturating_add(HYSTERESIS_PERCENT) {
            self.armed = true;
        }
        let discharging = match charging {
            Some(Charging::Discharging) => true,
            _ => false,
        };
        if !discharging {
            self.previous = None;
            return false;
        }
        let crossed = match self.previous {
            None => true,
            Some(previous) => previous > threshold,
        } && percentage <= threshold;
        let notify = enabled && self.armed && crossed;
        if notify {
            self.armed = false;
        }
        self.previous = Some(percentage);
        notify
    }
}

/// A notification needs alerts enabled, a real percentage at or below the threshold, and a
/// discharging battery.
pub proof fn law_notify_requires_discharging_at_threshold(
    state: AlertView,
    device: Option<Seq<char>>,
    enabled: bool,
    threshold: u8,
    percentage: Option<u8>,
    charging: Option<Charging>,
)
    ensures
        spec_evaluate(state, device, enabled, threshold, percentage, charging).1 ==> {
            &&& enabled
            &&& charging == Some(Charging::Discharging)
            &&& percentage matches Some(p) && p <= threshold
        },
{
}

/// Once it has notified, the same device does not notify again until the percentage has
/// recovered to `threshold + 5`: every observation below that level stays silent and keeps
/// the alert disarmed.
pub proof fn law_notifies_once_per_crossing(
    state: AlertView,
    enabled: bool,
    threshold: u8,
    percentage: Option<u8>,
    charging: Option<Charging>,
)
    requires
        !state.armed,
        percentage matches Some(p) ==> p < rearm_level(threshold),
    ensures
        !spec_evaluate(state, state.device, enabled, threshold, percentage, charging).1,
        !spec_evaluate(state, state.device, enabled, threshold, percentage, charging).0.armed,
{
}

/// A notification disarms; a percentage at or above `threshold + 5` re-arms (for thresholds
/// where `threshold + 5` does not saturate at 255).
pub proof fn law_notify_disarms_and_recovery_rearms(
    state: AlertView,
    device: Option<Seq<char>>,
    enabled: bool,
    threshold: u8,
    percentage: Option<u8>,
    charging: Option<Charging>,
)
    requires
        threshold as int + HYSTERESIS_PERCENT as int <= 255,
    ensures
        spec_evaluate(state, device, enabled, threshold, percentage, charging).1 ==> !spec_evaluate(
            state,
            device,
            enabled,
            threshold,
            percentage,
            charging,
        ).0.armed,
        percentage matches Some(p) && p >= rearm_level(threshold) ==> spec_evaluate(
            state,
            device,
            enabled,
            threshold,
            percentage,
            charging,
        ).0.armed,
{
}

/// The memory after a series of readings `(enabled, percentage, charging)` of one device at one
/// threshold, and whether any of them notified.
pub open spec fn spec_replay(
    state: AlertView,
    device: Option<Seq<char>>,
    threshold: u8,
    readings: Seq<(bool, Option<u8>, Option<Charging>)>,
) -> (AlertView, bool)
    decreases readings.len(),
{
    if readings.len() == 0 {
        (state, false)
    } else {
        let (next, notified) = spec_evaluate(
            state,
            device,
            readings[0].0,
            threshold,
            readings[0].1,
            readings[0].2,
        );
        let (last, later) = spec_replay(next, device, threshold, readings.drop_first());
        (last, notified || later)
    }
}

/// A reading below the re-arm level: no percentage, or one under `threshold + 5`.
pub open spec fn below_rearm(reading: (bool, Option<u8>, Option<Charging>), threshold: u8) -> bool {
    reading.1 matches Some(p) ==> p < rearm_level(threshold)
}

proof fn lemma_disarmed_stays_silent(
    state: AlertView,
    device: Option<Seq<char>>,
    threshold: u8,
    readings: Seq<(bool, Option<u8>, Option<Charging>)>,
)
    requires
        state.device == device,
        !state.armed,
        forall|i: int| 0 <= i < readings.len() ==> below_rearm(#[trigger] readings[i], threshold),
    ensures
        !spec_replay(state, device, threshold, readings).1,
        !spec_replay(state, device, threshold, readings).0.armed,
        spec_replay(state, device, threshold, readings).0.device == device,
    decreases readings.len(),
{
    if readings.len() > 0 {
        assert(below_rearm(readings[0], threshold));
        let next = spec_evaluate(state, device, readings[0].0, threshold, readings[0].1, readings[0].2).0;
        assert forall|i: int| 0 <= i < readings.drop_first().len() implies below_rearm(
            #[trigger] readings.drop_first()[i],
            threshold,
        ) by {
            assert(readings.drop_first()[i] == readings[i + 1]);
        }
        lemma_disarmed_stays_silent(next, device, threshold, readings.drop_first());
    }
}

/// The alert fires once per crossing: after a notification, no later reading of the same
/// device at the same threshold notifies, however many there are, until one reaches
/// `threshold + 5`.
pub proof fn law_one_alert_per_crossing(
    before: AlertView,
    device: Option<Seq<char>>,
    enabled: bool,
    threshold: u8,
    percentage: Option<u8>,
    charging: Option<Charging>,
    readings: Seq<(bool, Option<u8>, Option<Charging>)>,
)
    requires
        spec_evaluate(before, device, enabled, threshold, percentage, charging).1,
        forall|i: int| 0 <= i < readings.len() ==> below_rearm(#[trigger] readings[i], threshold),
    ensures
        !spec_replay(
            spec_evaluate(before, device, enabled, threshold, percentage, charging).0,
            device,
            threshold,
            readings,
        ).1,
{
    let after = spec_evaluate(before, device, enabled, threshold, percentage, charging).0;
    lemma_disarmed_stays_silent(after, device, threshold, readings);
}

} // verus!
