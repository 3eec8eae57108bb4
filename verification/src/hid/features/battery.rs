use vstd::prelude::*;

use crate::hid::hidpp::{
    self, extends, lemma_extends_concat, lemma_read_then, new_calls, paired_read_result,
    paired_read_shape, Error, Exchange, Feature, Recorded,
};

verus! {

pub const FEATURE_IDS: [u16; 3] = [0x1000, 0x1001, 0x1004];

#[derive(Debug, Clone, Copy, PartialEq, Eq, Structural)]
pub enum Level {
    Critical,
    Low,
    Good,
    Full,
    Unknown(u8),
}

#[derive(Debug, Clone, Copy, PartialEq, Eq, Structural)]
pub enum Charging {
    Discharging,
    Charging,
    FinalStage,
    Complete,
    Slow,
    InvalidBattery,
    ThermalError,
    Error,
    Unknown(u8),
}

#[derive(Debug, Clone, Copy, PartialEq, Eq, Structural)]
pub struct Battery {
    pub feature_id: u16,
    pub feature_version: u8,
    pub percentage: Option<u8>,
    pub level: Option<Level>,
    pub charging: Charging,
    pub rechargeable: Option<bool>,
    /// Public material identifies this byte but does not define its values.
    pub external_power_raw: Option<u8>,
}

/// Coarse level that a 0x1000 discharge value falls in.
pub open spec fn spec_level_1000(value: u8) -> Level {
    if 1 <= value <= 10 {
        Level::Critical
    } else if 11 <= value <= 30 {
        Level::Low
    } else if 31 <= value <= 80 {
        Level::Good
    } else {
        Level::Full
    }
}

pub open spec fn spec_charging_1000(value: u8) -> Charging {
    if value == 0 {
        Charging::Discharging
    } else if value == 1 {
        Charging::Charging
    } else if value == 2 {
        Charging::FinalStage
    } else if value == 3 {
        Charging::Complete
    } else if value == 4 {
        Charging::Slow
    } else if value == 5 {
        Charging::InvalidBattery
    } else if value == 6 {
        Charging::ThermalError
    } else if value == 7 {
        Charging::Error
    } else {
        Charging::Unknown(value)
    }
}

/// 0x1000 v0: capabilities `[level count, flags]`, status `[level, next level, charging]`.
/// An exact percentage needs at least 10 levels and the mileage flag; otherwise the value
/// is a coarse level. A zero level is unknown.
pub open spec fn spec_parse_1000(capabilities: Seq<u8>, status: Seq<u8>) -> Result<Battery, Error> {
    if capabilities.len() < 2 || status.len() < 3 {
        Err(Error::Malformed("truncated battery data"))
    } else if !(2 <= capabilities[0] <= 100) || status[0] > 100 || status[1] > status[0] {
        Err(Error::Malformed("invalid battery level"))
    } else {
        let percentage_supported = capabilities[0] >= 10 && capabilities[1] & 2 != 0;
        Ok(
            Battery {
                feature_id: 0x1000,
                feature_version: 0,
                percentage: if percentage_supported && status[0] != 0 {
                    Some(status[0])
                } else {
                    None
                },
                level: if percentage_supported || status[0] == 0 {
                    None
                } else {
                    Some(spec_level_1000(status[0]))
                },
                charging: spec_charging_1000(status[2]),
                rechargeable: None,
                external_power_raw: None,
            },
        )
    }
}

fn level_1000(value: u8) -> (r: Level)
    ensures
        r == spec_level_1000(value),
{
    if 1 <= value && value <= 10 {
        Level::Critical
    } else if 11 <= value && value <= 30 {
        Level::Low
    } else if 31 <= value && value <= 80 {
        Level::Good
    } else {
        Level::Full
    }
}

fn charging_1000(value: u8) -> (r: Charging)
    ensures
        r == spec_charging_1000(value),
{
    match value {
        0 => Charging::Discharging,
        1 => Charging::Charging,
        2 => Charging::FinalStage,
        3 => Charging::Complete,
        4 => Charging::Slow,
        5 => Charging::InvalidBattery,
        6 => Charging::ThermalError,
        7 => Charging::Error,
        value => Charging::Unknown(value),
    }
}

/// 0x1000 requires capability flags to distinguish coarse levels from mileage.
pub fn parse_1000(capabilities: &[u8], status: &[u8]) -> (r: Result<Battery, Error>)
    ensures
        r == spec_parse_1000(capabilities@, status@),
{
    if capabilities.len() < 2 || status.len() < 3 {
        return Err(Error::Malformed("truncated battery data"));
    }
    if !(2 <= capabilities[0] && capabilities[0] <= 100) || status[0] > 100 || status[1]
        > status[0] {
        return Err(Error::Malformed("invalid battery level"));
    }
    let percentage_supported = capabilities[0] >= 10 && capabilities[1] & 2 != 0;
    let percentage = if percentage_supported && status[0] != 0 {
        Some(status[0])
    } else {
        None
    };
    let level = if percentage_supported || status[0] == 0 {
        None
    } else {
        Some(level_1000(status[0]))
    };
    Ok(
        Battery {
            feature_id: 0x1000,
            feature_version: 0,
            percentage,
            level,
            charging: charging_1000(status[2]),
            rechargeable: None,
            external_power_raw: None,
        },
    )
}

pub open spec fn spec_charging_1004(value: u8) -> Charging {
    if value == 0 {
        Charging::Discharging
    } else if value == 1 {
        Charging::Charging
    } else if value == 2 {
        Charging::Slow
    } else if value == 3 {
        Charging::Complete
    } else if value == 4 {
        Charging::Error
    } else {
        Charging::Unknown(value)
    }
}

/// A 0x1004 coarse level: the documented single-bit values that the capability mask
/// announces; any other nonzero value stays an explicit unknown.
pub open spec fn spec_level_1004(supported: u8, reported: u8) -> Option<Level> {
    if reported == 0 {
        None
    } else if supported & reported == 0 {
        Some(Level::Unknown(reported))
    } else if reported == 1 {
        Some(Level::Critical)
    } else if reported == 2 {
        Some(Level::Low)
    } else if reported == 4 {
        Some(Level::Good)
    } else if reported == 8 {
        Some(Level::Full)
    } else {
        Some(Level::Unknown(reported))
    }
}

/// 0x1004: capabilities `[level mask, flags]` (flag 1: rechargeable, flag 2: percentage),
/// status `[percentage, level, charging, external power]`.
pub open spec fn spec_parse_1004(feature_version: u8, capabilities: Seq<u8>, status: Seq<u8>) -> Result<
    Battery,
    Error,
> {
    if capabilities.len() < 2 || status.len() < 4 {
        Err(Error::Malformed("truncated unified battery data"))
    } else if capabilities[1] & 0x02 != 0 && status[0] > 100 {
        Err(Error::Malformed("invalid battery percentage"))
    } else {
        Ok(
            Battery {
                feature_id: 0x1004,
                feature_version,
                percentage: if capabilities[1] & 0x02 != 0 {
                    Some(status[0])
                } else {
                    None
                },
                level: spec_level_1004(capabilities[0], status[1]),
                charging: spec_charging_1004(status[2]),
                rechargeable: Some(capabilities[1] & 0x01 != 0),
                external_power_raw: Some(status[3]),
            },
        )
    }
}

/// Parse the documented 0x1004 capabilities and status responses.
pub fn parse_1004(feature_version: u8, capabilities: &[u8], status: &[u8]) -> (r: Result<
    Battery,
    Error,
>)
    ensures
        r == spec_parse_1004(feature_version, capabilities@, status@),
{
    if capabilities.len() < 2 || status.len() < 4 {
        return Err(Error::Malformed("truncated unified battery data"));
    }
    let percentage_supported = capabilities[1] & 0x02 != 0;
    let percentage = if percentage_supported {
        if status[0] > 100 {
            return Err(Error::Malformed("invalid battery percentage"));
        }
        Some(status[0])
    } else {
        None
    };
    let reported_level = status[1];
    let level_supported = reported_level != 0 && capabilities[0] & reported_level != 0;
    let level = match reported_level {
        0 => None,
        1 if level_supported => Some(Level::Critical),
        2 if level_supported => Some(Level::Low),
        4 if level_supported => Some(Level::Good),
        8 if level_supported => Some(Level::Full),
        value => Some(Level::Unknown(value)),
    };
    let charging = match status[2] {
        0 => Charging::Discharging,
        1 => Charging::Charging,
        2 => Charging::Slow,
        3 => Charging::Complete,
        4 => Charging::Error,
        value => Charging::Unknown(value),
    };
    Ok(
        Battery {
            feature_id: 0x1004,
            feature_version,
            percentage,
            level,
            charging,
            rechargeable: Some(capabilities[1] & 0x01 != 0),
            external_power_raw: Some(status[3]),
        },
    )
}

/// Unified Battery (0x1004) reports: accepted exactly when both replies are long enough and a
/// percentage the device announces is at most 100. The charging byte reads 0 Discharging,
/// 1 Charging, 2 Slow, 3 Complete, 4 Error and anything else as unknown; the level byte reads
/// the single bits 1, 2, 4, 8 that the capability mask announces as Critical, Low, Good, Full,
/// 0 as no level, and any other value as unknown.
pub proof fn law_unified_battery_report(feature_version: u8, capabilities: Seq<u8>, status: Seq<u8>)
    ensures
        spec_parse_1004(feature_version, capabilities, status) is Ok <==> (capabilities.len() >= 2
            && status.len() >= 4 && !(capabilities[1] & 0x02 != 0 && status[0] > 100)),
        spec_parse_1004(feature_version, capabilities, status) matches Ok(b) ==> {
            &&& b.feature_id == 0x1004
            &&& b.feature_version == feature_version
            &&& status[2] == 0 ==> b.charging == Charging::Discharging
            &&& status[2] == 1 ==> b.charging == Charging::Charging
            &&& status[2] == 2 ==> b.charging == Charging::Slow
            &&& status[2] == 3 ==> b.charging == Charging::Complete
            &&& status[2] == 4 ==> b.charging == Charging::Error
            &&& status[2] > 4 ==> b.charging == Charging::Unknown(status[2])
            &&& capabilities[1] & 0x02 != 0 ==> b.percentage == Some(status[0])
            &&& capabilities[1] & 0x02 == 0 ==> b.percentage is None
            &&& status[1] == 0 ==> b.level is None
            &&& status[1] == 1 && capabilities[0] & 1 != 0 ==> b.level == Some(Level::Critical)
            &&& status[1] == 2 && capabilities[0] & 2 != 0 ==> b.level == Some(Level::Low)
            &&& status[1] == 4 && capabilities[0] & 4 != 0 ==> b.level == Some(Level::Good)
            &&& status[1] == 8 && capabilities[0] & 8 != 0 ==> b.level == Some(Level::Full)
            &&& status[1] != 0 && capabilities[0] & status[1] == 0 ==> b.level == Some(
                Level::Unknown(status[1]),
            )
            &&& status[1] != 0 && status[1] != 1 && status[1] != 2 && status[1] != 4 && status[1]
                != 8 ==> b.level == Some(Level::Unknown(status[1]))
            &&& b.rechargeable == Some(capabilities[1] & 0x01 != 0)
            &&& b.external_power_raw == Some(status[3])
        },
{
}

/// Battery Status (0x1000 v0) reports: the charging byte reads 0 Discharging, 1 Charging,
/// 2 FinalStage, 3 Complete, 4 Slow, 5 InvalidBattery, 6 ThermalError, 7 Error and anything
/// else as unknown; a coarse discharge value reads 1-10 Critical, 11-30 Low, 31-80 Good and
/// 81-100 Full.
pub proof fn law_battery_status_report(capabilities: Seq<u8>, status: Seq<u8>)
    ensures
        spec_parse_1000(capabilities, status) is Ok <==> (capabilities.len() >= 2 && status.len()
            >= 3 && 2 <= capabilities[0] <= 100 && status[0] <= 100 && status[1] <= status[0]),
        spec_parse_1000(capabilities, status) matches Ok(b) ==> {
            &&& b.feature_id == 0x1000
            &&& status[2] == 0 ==> b.charging == Charging::Discharging
            &&& status[2] == 1 ==> b.charging == Charging::Charging
            &&& status[2] == 2 ==> b.charging == Charging::FinalStage
            &&& status[2] == 3 ==> b.charging == Charging::Complete
            &&& status[2] == 4 ==> b.charging == Charging::Slow
            &&& status[2] == 5 ==> b.charging == Charging::InvalidBattery
            &&& status[2] == 6 ==> b.charging == Charging::ThermalError
            &&& status[2] == 7 ==> b.charging == Charging::Error
            &&& status[2] > 7 ==> b.charging == Charging::Unknown(status[2])
            &&& b.level matches Some(level) ==> {
                &&& 1 <= status[0] <= 10 ==> level == Level::Critical
                &&& 11 <= status[0] <= 30 ==> level == Level::Low
                &&& 31 <= status[0] <= 80 ==> level == Level::Good
                &&& 81 <= status[0] ==> level == Level::Full
            }
        },
{
}

/// The requests that `read` makes for a battery feature, and what it returns for them:
/// 0x1000 v0 asks capabilities (fn1) then status (fn0); 0x1004 asks capabilities (fn0)
/// then status (fn1); anything else is refused without any request.
pub open spec fn spec_battery_read(log: Seq<hidpp::Call>, device: u8, feature: Feature, r: Result<
    Battery,
    Error,
>) -> bool {
    if feature.id == 0x1000 && feature.version == 0 {
        &&& paired_read_shape(log, device, feature.index, 1, 0)
        &&& r == match paired_read_result(log, "0x1000 capabilities (fn1)", "0x1000 status (fn0)") {
            Err(e) => Err(e),
            Ok((capabilities, status)) => spec_parse_1000(capabilities, status),
        }
    } else if feature.id == 0x1004 {
        &&& paired_read_shape(log, device, feature.index, 0, 1)
        &&& r == match paired_read_result(log, "0x1004 capabilities (fn0)", "0x1004 status (fn1)") {
            Err(e) => Err(e),
            Ok((capabilities, status)) => spec_parse_1004(feature.version, capabilities, status),
        }
    } else {
        log.len() == 0 && r == Err::<Battery, Error>(
            Error::Malformed("battery feature version not implemented"),
        )
    }
}

/// A battery read sends only its two status queries.
pub proof fn lemma_battery_read_no_writes(log: Seq<hidpp::Call>, device: u8, feature: Feature, r: Result<Battery, Error>)
    requires
        spec_battery_read(log, device, feature, r),
    ensures
        hidpp::no_writes(log),
{
    if (feature.id == 0x1000 && feature.version == 0) || feature.id == 0x1004 {
        let (first, second): (u8, u8) = if feature.id == 0x1000 && feature.version == 0 {
            (1, 0)
        } else {
            (0, 1)
        };
        let n = hidpp::read_only_len(log);
        let rest = log.skip(n);
        match hidpp::read_only_reply(log) {
            Err(_) => {},
            Ok(_) => {
                hidpp::lemma_step_no_writes(rest, device, feature.index, second, Seq::<u8>::empty());
            },
        }
        hidpp::lemma_step_no_writes(log, device, feature.index, first, Seq::<u8>::empty());
    }
}

pub fn read<E: Exchange>(transport: &mut Recorded<E>, device: u8, feature: Feature) -> (r: Result<
    Battery,
    Error,
>)
    ensures
        extends(old(transport).calls(), final(transport).calls()),
        spec_battery_read(
            new_calls(old(transport).calls(), final(transport).calls()),
            device,
            feature,
            r,
        ),
{
    let ghost before = transport.calls();
    let empty: [u8; 0] = [];
    let (first, second, first_operation, second_operation): (u8, u8, &'static str, &'static str) =
        if feature.id == 0x1000 && feature.version == 0 {
        (1, 0, "0x1000 capabilities (fn1)", "0x1000 status (fn0)")
    } else if feature.id == 0x1004 {
        (0, 1, "0x1004 capabilities (fn0)", "0x1004 status (fn1)")
    } else {
        proof {
            hidpp::lemma_extends_refl(before);
        }
        return Err(Error::Malformed("battery feature version not implemented"));
    };
    let capabilities = match hidpp::read_only_exchange(transport, device, feature.index, first, &empty) {
        Ok(data) => data,
        Err(error) => {
            assert(empty@ =~= Seq::<u8>::empty());
            return Err(error.in_read(first_operation));
        },
    };
    let ghost middle = transport.calls();
    let status = match hidpp::read_only_exchange(transport, device, feature.index, second, &empty) {
        Ok(data) => data,
        Err(error) => {
            proof {
                assert(empty@ =~= Seq::<u8>::empty());
                lemma_extends_concat(before, middle, transport.calls());
                lemma_read_then(
                    new_calls(before, middle),
                    new_calls(middle, transport.calls()),
                    device,
                    feature.index,
                    first,
                    Seq::<u8>::empty(),
                );
            }
            return Err(error.in_read(second_operation));
        },
    };
    proof {
        assert(empty@ =~= Seq::<u8>::empty());
        lemma_extends_concat(before, middle, transport.calls());
        lemma_read_then(
            new_calls(before, middle),
            new_calls(middle, transport.calls()),
            device,
            feature.index,
            first,
            Seq::<u8>::empty(),
        );
    }
    if feature.id == 0x1000 && feature.version == 0 {
        parse_1000(capabilities.as_slice(), status.as_slice())
    } else {
        parse_1004(feature.version, capabilities.as_slice(), status.as_slice())
    }
}

} // verus!
