use logipeek::hid::device::{
    self, battery_feature, descriptor_length, dpi_feature, find_target_device, label,
    new_interface, preflight_interface, preflight_slot, scan_endpoint, scan_endpoints,
    set_unique_runtime_dpi, set_validated_runtime_dpi, target_choice, validated_dpi_target,
    DpiSetTargetError, Endpoint, FastDpiError, FeatureResult, HidInfo, Interface,
    PreflightCandidate, PreflightTally, ScanOptions, SlotPreflight, PROBE_INDICES,
};
use logipeek::hid::features::dpi::{DpiValues, SetDpiError, SetDpiOutcome};
use logipeek::hid::hidpp::{Error, Exchange, Feature, Protocol, Recorded};
use std::collections::VecDeque;

/// Replies in order; every request is recorded.
struct Script {
    replies: VecDeque<Result<Vec<u8>, Error>>,
    sent: Vec<(u8, u8, u8, Vec<u8>)>,
}

impl Script {
    fn new(replies: Vec<Result<Vec<u8>, Error>>) -> Recorded<Self> {
        Recorded::new(Script { replies: replies.into_iter().collect(), sent: Vec::new() })
    }
    fn writes(&self) -> usize {
        self.sent.iter().filter(|call| call.2 == 3).count()
    }
}

impl Exchange for Script {
    fn exchange(&mut self, device: u8, feature: u8, function: u8, parameters: &[u8]) -> Result<Vec<u8>, Error> {
        self.sent.push((device, feature, function, parameters.to_vec()));
        self.replies.pop_front().unwrap_or(Err(Error::Timeout))
    }
}

fn ping_ok() -> Result<Vec<u8>, Error> {
    Ok(vec![4, 5, 0xa5])
}

fn found(index: u8, version: u8) -> Result<Vec<u8>, Error> {
    Ok(vec![index, 0, version])
}

fn absent() -> Result<Vec<u8>, Error> {
    Ok(vec![0, 0, 0])
}

/// A 0x2201 read of one sensor at 1300 DPI with a 100..25600 step 50 range.
fn one_sensor_read() -> Vec<Result<Vec<u8>, Error>> {
    vec![
        Ok(vec![1]),
        Ok(vec![0, 0x00, 0x64, 0xe0, 0x32, 0x64, 0x00, 0x00, 0x00]),
        Ok(vec![0, 0x05, 0x14, 0x03, 0x20]),
    ]
}

fn dpi_feature_value() -> Feature {
    Feature { id: 0x2201, index: 9, flags: 0, version: 2 }
}

#[test]
fn scan_endpoint_reads_unified_battery_and_dpi() {
    let mut replies = vec![ping_ok(), found(4, 0), absent(), found(5, 3), found(9, 2), absent()];
    replies.push(Ok(vec![0x0f, 0x03]));
    replies.push(Ok(vec![42, 0x04, 0, 0]));
    replies.extend(one_sensor_read());
    let mut script = Script::new(replies);
    let endpoint = scan_endpoint(&mut script, 1, "slot-1".to_string(), ScanOptions { read_battery: true, read_dpi: true });
    assert_eq!(endpoint.index, 1);
    assert_eq!(endpoint.opaque_id, "slot-1");
    assert_eq!(endpoint.protocol, Ok(Protocol::Feature { major: 4, minor: 5 }));
    let ids: Vec<u16> = endpoint.features.iter().map(|f| f.id).collect();
    assert_eq!(ids, vec![0x1000, 0x1001, 0x1004, 0x2201, 0x2202]);
    let battery = endpoint.battery.expect("battery read").expect("battery ok");
    assert_eq!(battery.feature_id, 0x1004);
    assert_eq!(battery.percentage, Some(42));
    let sensors = endpoint.dpi.expect("dpi read").expect("dpi ok");
    assert_eq!(sensors.len(), 1);
    assert_eq!(sensors[0].current, 1300);
    assert_eq!(script.inner.writes(), 0);
}

#[test]
fn scan_endpoint_stops_after_a_failed_ping() {
    let mut script = Script::new(vec![Err(Error::Io)]);
    let endpoint = scan_endpoint(&mut script, 0xff, "id".to_string(), ScanOptions { read_battery: true, read_dpi: true });
    assert_eq!(endpoint.protocol, Err(Error::Io));
    assert!(endpoint.features.is_empty());
    assert!(endpoint.battery.is_none() && endpoint.dpi.is_none());
    assert_eq!(script.inner.sent.len(), 1);
}

#[test]
fn scan_endpoint_skips_reads_that_were_not_asked_for() {
    let replies = vec![ping_ok(), found(4, 0), absent(), found(5, 3), found(9, 2), absent()];
    let mut script = Script::new(replies);
    let endpoint = scan_endpoint(&mut script, 2, "id".to_string(), ScanOptions::default());
    assert_eq!(endpoint.features.len(), 5);
    assert!(endpoint.battery.is_none() && endpoint.dpi.is_none());
    assert_eq!(script.inner.sent.len(), 6);
}

#[test]
fn battery_selection_prefers_unified_then_version_zero() {
    let feature = |id: u16, version: u8| FeatureResult { id, result: Ok(Some(Feature { id, index: 3, flags: 0, version })) };
    assert_eq!(battery_feature(&[feature(0x1000, 0), feature(0x1004, 2)]).map(|f| f.id), Some(0x1004));
    assert_eq!(battery_feature(&[feature(0x1000, 0)]).map(|f| f.id), Some(0x1000));
    assert_eq!(battery_feature(&[feature(0x1000, 1)]), None);
    assert_eq!(dpi_feature(&[feature(0x2202, 0)]), None);
    assert_eq!(dpi_feature(&[feature(0x2201, 2)]).map(|f| f.index), Some(3));
}

#[test]
fn scan_endpoints_probes_every_slot_with_distinct_ids() {
    let info = HidInfo {
        path: b"p".to_vec(),
        vid: 0x046d,
        pid: 0xc547,
        product: None,
        manufacturer: None,
        interface_number: 2,
        usage_page: 0xff00,
        usage: 2,
    };
    let mut script = Script::new(vec![]);
    let (endpoints, _) = scan_endpoints(&mut script, &info, ScanOptions::default());
    let indices: Vec<u8> = endpoints.iter().map(|e| e.index).collect();
    assert_eq!(indices, PROBE_INDICES.to_vec());
    assert_eq!(endpoints[0].opaque_id, device::opaque_device_id(b"p", 0x046d, 0xc547, 2, 0xff00, 2, 0xff));
    assert_ne!(endpoints[0].opaque_id, endpoints[1].opaque_id);
    assert_eq!(script.inner.writes(), 0);
}

#[test]
fn new_interface_labels_and_candidacy() {
    let info = HidInfo {
        path: vec![],
        vid: 0x046d,
        pid: 1,
        product: Some("Mouse\u{7}".into()),
        manufacturer: None,
        interface_number: -1,
        usage_page: 0xff00,
        usage: 1,
    };
    let interface = new_interface(3, &info);
    assert_eq!(interface.number, 3);
    assert_eq!(interface.product, "Mouse");
    assert_eq!(interface.manufacturer, "Unavailable");
    assert!(interface.candidate);
    assert_eq!(label(&None), "Unavailable");
    let other = HidInfo { usage: 3, ..info };
    assert!(!new_interface(1, &other).candidate);
    assert_eq!(descriptor_length(Some(64), 4096), Some(64));
    assert_eq!(descriptor_length(Some(0), 4096), None);
    assert_eq!(descriptor_length(Some(4096), 4096), None);
    assert_eq!(descriptor_length(None, 4096), None);
}

fn scanned_target_interface(path: &[u8]) -> Interface {
    Interface {
        number: 1,
        vid: 0x046d,
        pid: 0xc547,
        product: "Mouse".into(),
        manufacturer: "Logitech".into(),
        interface_number: 2,
        usage_page: 0xff00,
        usage: 2,
        candidate: true,
        descriptor_bytes: None,
        open_error: None,
        endpoints: vec![Endpoint {
            index: 1,
            opaque_id: device::opaque_device_id(path, 0x046d, 0xc547, 2, 0xff00, 2, 1),
            protocol: Ok(Protocol::Feature { major: 4, minor: 5 }),
            features: vec![FeatureResult { id: 0x2201, result: Ok(Some(dpi_feature_value())) }],
            battery: None,
            dpi: Some(Ok(vec![logipeek::hid::features::dpi::SensorDpi {
                sensor: 0,
                current: 1300,
                default: Some(800),
                supported: DpiValues::Range { minimum: 100, maximum: 25600, step: 50 },
            }])),
        }],
    }
}

fn hid(path: &[u8]) -> HidInfo {
    HidInfo {
        path: path.to_vec(),
        vid: 0x046d,
        pid: 0xc547,
        product: Some("Mouse".into()),
        manufacturer: Some("Logitech".into()),
        interface_number: 2,
        usage_page: 0xff00,
        usage: 2,
    }
}

#[test]
fn validated_target_needs_exactly_one_matching_interface() {
    let scanned = [scanned_target_interface(b"a")];
    assert!(validated_dpi_target(&scanned, None, &[hid(b"a")]).is_some());
    assert!(validated_dpi_target(&scanned, None, &[hid(b"b")]).is_none());
    assert!(validated_dpi_target(&scanned, None, &[hid(b"a"), hid(b"a")]).is_none());
    let target = validated_dpi_target(&scanned, None, &[hid(b"a")]).unwrap();
    assert_eq!(target.device_id(), scanned[0].endpoints[0].opaque_id);
    assert_eq!(find_target_device(&target, &[hid(b"b"), hid(b"a")]), Some(1));
    assert_eq!(find_target_device(&target, &[hid(b"b")]), None);
}

fn revalidation_replies() -> Vec<Result<Vec<u8>, Error>> {
    let mut replies = vec![ping_ok(), found(9, 2)];
    replies.extend(one_sensor_read());
    replies
}

#[test]
fn fast_write_revalidates_then_writes_once() {
    let scanned = [scanned_target_interface(b"a")];
    let mut target = validated_dpi_target(&scanned, None, &[hid(b"a")]).unwrap();
    let mut replies = revalidation_replies();
    replies.push(Ok(vec![0, 0x05, 0x46]));
    replies.push(Ok(vec![0, 0x05, 0x46, 0x03, 0x20]));
    let mut script = Script::new(replies);
    let result = set_validated_runtime_dpi(&mut target, &mut script, 1350).expect("written");
    assert_eq!(result.report.outcome, SetDpiOutcome::Verified { current: 1350 });
    assert_eq!(result.report.previous, 1300);
    assert_eq!(result.report.requested, 1350);
    assert_eq!(result.report.product, "Mouse");
    assert!(result.target_valid);
    assert_eq!(script.inner.writes(), 1);
    assert_eq!(script.inner.sent[5], (1, 9, 3, vec![0, 0x05, 0x46]));
}

#[test]
fn fast_write_refuses_unsupported_values_without_any_request() {
    let scanned = [scanned_target_interface(b"a")];
    let mut target = validated_dpi_target(&scanned, None, &[hid(b"a")]).unwrap();
    let mut script = Script::new(vec![]);
    assert_eq!(set_validated_runtime_dpi(&mut target, &mut script, 1325).unwrap_err(), FastDpiError::Unsupported);
    assert!(script.inner.sent.is_empty());
}

#[test]
fn fast_write_invalidates_on_changed_capability_without_writing() {
    let scanned = [scanned_target_interface(b"a")];
    let mut target = validated_dpi_target(&scanned, None, &[hid(b"a")]).unwrap();
    let replies = vec![
        ping_ok(),
        found(9, 2),
        Ok(vec![1]),
        Ok(vec![0, 0x01, 0x90, 0x03, 0x20, 0x00, 0x00]),
        Ok(vec![0, 0x01, 0x90, 0x03, 0x20]),
    ];
    let mut script = Script::new(replies);
    assert_eq!(set_validated_runtime_dpi(&mut target, &mut script, 1350).unwrap_err(), FastDpiError::Invalidated);
    assert_eq!(script.inner.writes(), 0);
    let mut gone = Script::new(vec![Err(Error::Timeout), Err(Error::Timeout)]);
    assert_eq!(set_validated_runtime_dpi(&mut target, &mut gone, 1350).unwrap_err(), FastDpiError::Invalidated);
    assert_eq!(gone.inner.writes(), 0);
}

#[test]
fn preflight_slot_classifies_endpoints() {
    let mut legacy = Script::new(vec![Err(Error::Protocol { legacy: true, code: 1 })]);
    assert!(matches!(preflight_slot(&mut legacy, 1, 2), Ok(SlotPreflight::NotFeature)));
    let mut unsupported = Script::new(vec![ping_ok(), absent()]);
    assert!(matches!(preflight_slot(&mut unsupported, 1, 2), Ok(SlotPreflight::Unsupported)));
    let mut failing = Script::new(vec![ping_ok(), Err(Error::Io)]);
    assert_eq!(
        preflight_slot(&mut failing, 4, 2).err(),
        Some(DpiSetTargetError::Preflight {
            interface_number: 4,
            device_index: 2,
            error: Error::Io.in_read("0x2201 fresh feature discovery"),
        })
    );
    let mut two = Script::new(vec![
        ping_ok(),
        found(9, 2),
        Ok(vec![2]),
        Ok(vec![0, 0x03, 0x20, 0x00, 0x00]),
        Ok(vec![0, 0x03, 0x20, 0x00, 0x00]),
        Ok(vec![1, 0x03, 0x20, 0x00, 0x00]),
        Ok(vec![1, 0x03, 0x20, 0x00, 0x00]),
    ]);
    assert_eq!(
        preflight_slot(&mut two, 4, 2).err(),
        Some(DpiSetTargetError::MultipleSensors { interface_number: 4, device_index: 2, count: 2 })
    );
    let mut writable = Script::new(revalidation_replies());
    match preflight_slot(&mut writable, 4, 2) {
        Ok(SlotPreflight::Writable(feature, sensor)) => {
            assert_eq!(feature, dpi_feature_value());
            assert_eq!(sensor.current, 1300);
        },
        _ => panic!("expected a writable slot"),
    }
}

#[test]
fn preflight_interface_refuses_two_writable_slots_on_one_interface() {
    let mut replies = revalidation_replies();
    replies.extend(revalidation_replies());
    let mut script = Script::new(replies);
    let mut tally = PreflightTally { feature_endpoints: 0, unsupported_endpoints: 0 };
    assert_eq!(
        preflight_interface(&mut script, 1, &mut tally).err(),
        Some(DpiSetTargetError::MultipleWritableTargets(2))
    );
    assert_eq!(script.inner.writes(), 0);
}

#[test]
fn target_choice_requires_exactly_one_target() {
    let tally = |f: usize, u: usize| PreflightTally { feature_endpoints: f, unsupported_endpoints: u };
    assert_eq!(target_choice(1, tally(3, 1)), None);
    assert_eq!(target_choice(0, tally(2, 2)), Some(DpiSetTargetError::UnsupportedFeature));
    assert_eq!(target_choice(0, tally(2, 1)), Some(DpiSetTargetError::NoWritableTarget));
    assert_eq!(target_choice(0, tally(0, 0)), Some(DpiSetTargetError::NoWritableTarget));
    assert_eq!(target_choice(3, tally(3, 0)), Some(DpiSetTargetError::MultipleWritableTargets(3)));
}

fn candidate(number: usize, replies: Vec<Result<Vec<u8>, Error>>) -> PreflightCandidate<Script> {
    PreflightCandidate { interface_number: number, vid: 0x046d, pid: 0xc547, product: "Mouse".into(), transport: Script::new(replies) }
}

/// The first slot answers with a writable endpoint; the other six slots time out twice each.
fn single_target_replies() -> Vec<Result<Vec<u8>, Error>> {
    revalidation_replies()
}

#[test]
fn unique_write_sends_one_write_to_the_only_target() {
    let mut replies = single_target_replies();
    for _ in 1..7 {
        replies.push(Err(Error::Io));
    }
    replies.push(Ok(vec![0, 0x06, 0x40]));
    replies.push(Ok(vec![0, 0x06, 0x40, 0x03, 0x20]));
    let mut candidates = vec![candidate(1, replies), candidate(2, vec![])];
    let report = set_unique_runtime_dpi(&mut candidates, 1600).expect("written");
    assert_eq!(report.interface_number, 1);
    assert_eq!(report.device_index, 0xff);
    assert_eq!(report.outcome, SetDpiOutcome::Verified { current: 1600 });
    assert_eq!(candidates[0].transport.inner.writes(), 1);
    assert_eq!(candidates[1].transport.inner.writes(), 0);
}

#[test]
fn unique_write_refusals_send_no_write() {
    let mut none = vec![candidate(1, vec![])];
    assert_eq!(set_unique_runtime_dpi(&mut none, 1600).unwrap_err(), DpiSetTargetError::NoWritableTarget);
    let mut unsupported_replies = vec![ping_ok(), absent()];
    for _ in 1..7 {
        unsupported_replies.push(Err(Error::Io));
    }
    let mut unsupported = vec![candidate(1, unsupported_replies)];
    assert_eq!(set_unique_runtime_dpi(&mut unsupported, 1600).unwrap_err(), DpiSetTargetError::UnsupportedFeature);
    let mut two_replies = single_target_replies();
    for _ in 1..7 {
        two_replies.push(Err(Error::Io));
    }
    let mut two = vec![candidate(1, two_replies.clone()), candidate(2, two_replies)];
    assert_eq!(set_unique_runtime_dpi(&mut two, 1600).unwrap_err(), DpiSetTargetError::MultipleWritableTargets(2));
    assert_eq!(two[0].transport.inner.writes() + two[1].transport.inner.writes(), 0);
    let mut replies = single_target_replies();
    for _ in 1..7 {
        replies.push(Err(Error::Io));
    }
    let mut unsupported_value = vec![candidate(1, replies)];
    assert_eq!(
        set_unique_runtime_dpi(&mut unsupported_value, 1325).unwrap_err(),
        DpiSetTargetError::Write(SetDpiError::Unsupported { requested: 1325, nearest: Some(1350) })
    );
    assert_eq!(unsupported_value[0].transport.inner.writes(), 0);
}

fn listed(vid: u16, usage_page: u16, usage: u16, product: &str) -> HidInfo {
    HidInfo {
        path: product.as_bytes().to_vec(),
        vid,
        pid: 0xc539,
        product: Some(product.into()),
        manufacturer: None,
        interface_number: 0,
        usage_page,
        usage,
    }
}

#[test]
fn enumeration_numbers_logitech_interfaces_and_picks_candidates() {
    let devices = vec![
        listed(0x1234, 0xff00, 1, "Other"),
        listed(0x046d, 0x0001, 2, "Keyboard"),
        listed(0x046d, 0xff00, 2, "Receiver"),
        listed(0x5678, 0xff00, 2, "Foreign"),
        listed(0x046d, 0xff00, 1, "Short"),
        listed(0x046d, 0xff00, 3, "Other usage"),
    ];
    let interfaces = device::logitech_interfaces(&devices);
    let indices: Vec<usize> = interfaces.iter().map(|(index, _)| *index).collect();
    assert_eq!(indices, vec![1, 2, 4, 5]);
    let numbers: Vec<usize> = interfaces.iter().map(|(_, interface)| interface.number).collect();
    assert_eq!(numbers, vec![1, 2, 3, 4]);
    let candidates: Vec<bool> = interfaces.iter().map(|(_, interface)| interface.candidate).collect();
    assert_eq!(candidates, vec![false, true, true, false]);
    assert_eq!(interfaces[1].1.product, "Receiver");
    assert_eq!(device::preflight_targets(&devices), vec![(2, 2), (3, 4)]);
    assert!(device::preflight_targets(&devices[..2]).is_empty());
}
