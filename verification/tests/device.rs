use logipeek::hid::{
    device::{
        dpi_identities, opaque_device_id, outcome_keeps_target, revalidation_matches,
        select_dpi_identity, validated_dpi_target, validated_target_matches_scan, DpiTargetIdentity,
        Endpoint, FeatureResult, HidInfo, Interface,
    },
    features::dpi,
    hidpp::{Error, Feature, Protocol},
};

fn dpi_feature() -> Feature {
    Feature {
        id: 0x2201,
        index: 9,
        flags: 0,
        version: 2,
    }
}

fn sensor() -> dpi::SensorDpi {
    dpi::SensorDpi {
        sensor: 0,
        current: 1300,
        default: Some(800),
        supported: dpi::DpiValues::Range {
            minimum: 100,
            maximum: 25_600,
            step: 50,
        },
    }
}

fn interface_with_id(
    device_index: u8,
    opaque_id: String,
    feature: Result<Option<Feature>, Error>,
) -> Interface {
    let dpi = feature
        .as_ref()
        .ok()
        .and_then(|value| *value)
        .map(|_| Ok(vec![sensor()]));
    Interface {
        number: 1,
        vid: 0x046d,
        pid: 0xc547,
        product: "Test Mouse".into(),
        manufacturer: "Logitech".into(),
        interface_number: 2,
        usage_page: 0xff00,
        usage: 2,
        candidate: true,
        descriptor_bytes: Some(64),
        open_error: None,
        endpoints: vec![Endpoint {
            index: device_index,
            opaque_id,
            protocol: Ok(Protocol::Feature { major: 4, minor: 5 }),
            features: vec![FeatureResult {
                id: 0x2201,
                result: feature,
            }],
            battery: None,
            dpi,
        }],
    }
}

fn interface(device_index: u8, feature: Result<Option<Feature>, Error>) -> Interface {
    interface_with_id(device_index, format!("device-{device_index}"), feature)
}

fn identity() -> DpiTargetIdentity {
    dpi_identities(&[interface(1, Ok(Some(dpi_feature())))])
        .expect("valid topology")
        .remove(0)
}

fn test_path_id(device_index: u8) -> String {
    opaque_device_id(b"test", 0x046d, 0xc547, 2, 0xff00, 2, device_index)
}

fn test_device() -> HidInfo {
    HidInfo {
        path: b"test".to_vec(),
        vid: 0x046d,
        pid: 0xc547,
        product: Some("Test Mouse".into()),
        manufacturer: Some("Logitech".into()),
        interface_number: 2,
        usage_page: 0xff00,
        usage: 2,
    }
}

#[test]
fn full_scan_requires_exactly_one_complete_dpi_target() {
    assert_eq!(dpi_identities(&[]), Some(Vec::new()));
    assert_eq!(
        dpi_identities(&[interface(1, Ok(Some(dpi_feature())))])
            .expect("valid topology")
            .len(),
        1
    );
    assert_eq!(
        dpi_identities(&[
            interface(1, Ok(Some(dpi_feature()))),
            interface(2, Ok(Some(dpi_feature()))),
        ])
        .expect("valid topology")
        .len(),
        2
    );
    assert!(dpi_identities(&[interface(1, Err(Error::Timeout))]).is_none());
}

#[test]
fn identity_or_capability_change_fails_before_write() {
    let identity = identity();
    let mut wrong_feature = dpi_feature();
    wrong_feature.version += 1;
    assert!(!revalidation_matches(&identity, wrong_feature, &[sensor()]));

    let mut changed_sensor = sensor();
    changed_sensor.supported = dpi::DpiValues::List(vec![400, 800, 1600]);
    assert!(!revalidation_matches(
        &identity,
        dpi_feature(),
        &[changed_sensor]
    ));
    assert!(revalidation_matches(&identity, dpi_feature(), &[sensor()]));
}

#[test]
fn topology_mismatch_invalidates_cached_target() {
    let scanned = [interface_with_id(1, test_path_id(1), Ok(Some(dpi_feature())))];
    let target = validated_dpi_target(&scanned, None, &[test_device()]).expect("unique target");
    assert!(validated_target_matches_scan(
        &target,
        &[interface_with_id(1, test_path_id(1), Ok(Some(dpi_feature())))]
    ));
    assert!(!validated_target_matches_scan(
        &target,
        &[interface_with_id(2, test_path_id(2), Ok(Some(dpi_feature())))]
    ));
    assert!(!validated_target_matches_scan(
        &target,
        &[interface_with_id(1, test_path_id(1), Err(Error::Timeout))]
    ));
}

#[test]
fn only_independently_confirmed_outcomes_keep_target() {
    assert!(outcome_keeps_target(&dpi::SetDpiOutcome::Verified {
        current: 1350
    }));
    assert!(outcome_keeps_target(
        &dpi::SetDpiOutcome::TimedOutConfirmed { current: 1350 }
    ));
    assert!(!outcome_keeps_target(
        &dpi::SetDpiOutcome::AcknowledgedMismatch { actual: 1300 }
    ));
    assert!(!outcome_keeps_target(
        &dpi::SetDpiOutcome::TimedOutDifferent { actual: 1300 }
    ));
    assert!(!outcome_keeps_target(
        &dpi::SetDpiOutcome::AcknowledgedUnverified {
            error: Error::Timeout
        }
    ));
    assert!(!outcome_keeps_target(
        &dpi::SetDpiOutcome::TimedOutUnverified {
            error: Error::Timeout
        }
    ));
}

#[test]
fn cached_capability_rejects_unsupported_dpi() {
    let identity = identity();
    assert!(dpi::supports_dpi(&identity.sensor.supported, 1350));
    assert!(!dpi::supports_dpi(&identity.sensor.supported, 1325));
}

#[test]
fn opaque_identity_is_stable_and_separates_slots() {
    let first = opaque_device_id(b"path", 0x046d, 0xc547, 2, 0xff00, 2, 1);
    assert_eq!(first.len(), 32);
    assert_eq!(
        first,
        opaque_device_id(b"path", 0x046d, 0xc547, 2, 0xff00, 2, 1)
    );
    assert_ne!(
        first,
        opaque_device_id(b"path", 0x046d, 0xc547, 2, 0xff00, 2, 2)
    );
    assert_ne!(
        first,
        opaque_device_id(b"other", 0x046d, 0xc547, 2, 0xff00, 2, 1)
    );
}

#[test]
fn multiple_targets_require_one_explicit_matching_identity() {
    let identities = dpi_identities(&[
        interface(1, Ok(Some(dpi_feature()))),
        interface(2, Ok(Some(dpi_feature()))),
    ])
    .expect("valid topology");
    assert!(select_dpi_identity(identities.clone(), None).is_none());
    assert!(select_dpi_identity(identities.clone(), Some("missing")).is_none());
    let selected =
        select_dpi_identity(identities, Some("device-2")).expect("explicit unique selection");
    assert_eq!(selected.device_id, "device-2");
}
