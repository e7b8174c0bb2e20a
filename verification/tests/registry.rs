//! The registry: insertion, tombstoned removal, pair union, and routing.

use openc2::action::Action;
use openc2::command::Command;
use openc2::data::Feature;
use openc2::nsid::Nsid;
use openc2::registry::Dispatch;
use openc2::registry::Registration;
use openc2::registry::Registry;
use openc2::target::Device;
use openc2::target::File;
use openc2::target::Target;
use openc2::target::TargetType;

fn file_scan_registration(profile: &str) -> Registration {
    Registration::new().with_actions(
        &Nsid::from_str(profile).unwrap(),
        vec![(Action::Scan, TargetType::File)],
    )
}

#[test]
fn removal_deletes_exactly_its_pairs() {
    let mut registry = Registry::new();
    let a = registry.insert(
        Registration::new().with_actions_without_profile(vec![
            (Action::Scan, TargetType::File),
            (Action::Deny, TargetType::Ipv4Net),
        ]),
    );
    let _b = registry.insert(
        Registration::new().with_actions_without_profile(vec![(Action::Scan, TargetType::File)]),
    );

    let before = registry.pairs();
    assert!(before.contains_pair(Action::Scan, &TargetType::File));
    assert!(before.contains_pair(Action::Deny, &TargetType::Ipv4Net));

    let removed = registry.remove(a);
    assert!(removed.is_some());

    let after = registry.pairs();
    // The pair declared only by the removed registration is gone;
    // the shared pair survives through the other registration.
    assert!(!after.contains_pair(Action::Deny, &TargetType::Ipv4Net));
    assert!(after.contains_pair(Action::Scan, &TargetType::File));

}

#[test]
fn profile_filter_keeps_only_matching_handlers() {
    let mut registry = Registry::new();
    let a = registry.insert(file_scan_registration("alpha"));
    let b = registry.insert(file_scan_registration("beta"));

    let cmd = Command::new(
        Action::Scan,
        Target::File(File { name: None, hashes: None, path: Some("/x".to_string()) }),
    )
    .with_profile(Nsid::from_str("alpha").unwrap());

    match registry.route(&cmd).unwrap() {
        Dispatch::Forward(slots) => {
            assert_eq!(slots.len(), 1);
            assert_eq!(slots[0], a.slot());
            assert_ne!(slots[0], b.slot());
        }
        _ => panic!("expected a forward decision"),
    }
}

#[test]
fn unmatched_pair_fails_not_implemented() {
    let registry = Registry::new();
    let cmd = Command::new(Action::Scan, Target::Device(Device::with_hostname("h")));
    match registry.route(&cmd) {
        Err(openc2::error::Error::NotImplemented(_)) => (),
        _ => panic!("expected a not-implemented failure"),
    }
}

#[test]
fn unmatched_profile_fails_not_implemented() {
    let mut registry = Registry::new();
    registry.insert(file_scan_registration("alpha"));
    let cmd = Command::new(
        Action::Scan,
        Target::File(File { name: None, hashes: None, path: None }),
    )
    .with_profile(Nsid::from_str("gamma").unwrap());
    assert!(registry.route(&cmd).is_err());
}

#[test]
fn query_features_pairs_union() {
    let mut registry = Registry::new();
    registry.insert(file_scan_registration("alpha"));
    registry.insert(
        Registration::new().with_actions_without_profile(vec![
            (Action::Locate, TargetType::Device),
        ]),
    );

    let cmd = Command::new(Action::Query, Target::Features(vec![Feature::Pairs]));
    match registry.route(&cmd).unwrap() {
        Dispatch::Reply(rsp) => {
            let results = rsp.results.unwrap();
            let pairs = results.pairs.unwrap();
            assert!(pairs.contains_pair(Action::Scan, &TargetType::File));
            assert!(pairs.contains_pair(Action::Locate, &TargetType::Device));
            assert!(!pairs.contains_pair(Action::Deny, &TargetType::File));
        }
        _ => panic!("expected an immediate reply"),
    }
}

#[test]
fn query_features_profiles_and_versions() {
    let mut registry = Registry::new();
    registry.insert(file_scan_registration("alpha"));
    let cmd = Command::new(
        Action::Query,
        Target::Features(vec![Feature::Profiles, Feature::Versions]),
    );
    match registry.route(&cmd).unwrap() {
        Dispatch::Reply(rsp) => {
            let results = rsp.results.unwrap();
            assert_eq!(results.profiles.len(), 1);
            assert_eq!(results.profiles[0].as_str(), "alpha");
            assert_eq!(results.versions.len(), 1);
            assert_eq!(results.versions[0].to_text(), "2.0");
        }
        _ => panic!("expected an immediate reply"),
    }
}

#[test]
fn query_features_rate_limit_always_fails() {
    let mut registry = Registry::new();
    registry.insert(file_scan_registration("alpha"));
    let cmd = Command::new(
        Action::Query,
        Target::Features(vec![Feature::Pairs, Feature::RateLimit]),
    );
    match registry.route(&cmd) {
        Err(openc2::error::Error::NotImplemented(n)) => {
            assert_eq!(n.message(), "rate limit feature is not implemented");
            assert_eq!(n.path().unwrap().to_text(), ".features");
        }
        _ => panic!("expected a not-implemented failure"),
    }
}

#[test]
fn unmatched_pair_error_names_the_pair() {
    let registry = Registry::new();
    let cmd = Command::new(Action::Scan, Target::Device(Device::with_hostname("h")));
    match registry.route(&cmd) {
        Err(openc2::error::Error::NotImplemented(n)) => {
            assert_eq!(n.message(), "unsupported action-target pair: scan - device");
        }
        _ => panic!("expected a not-implemented failure"),
    }
}

#[test]
fn forwarded_slots_come_lowest_first() {
    let mut registry = Registry::new();
    let a = registry.insert(file_scan_registration("alpha"));
    let b = registry.insert(file_scan_registration("alpha"));
    let c = registry.insert(file_scan_registration("alpha"));
    let cmd = Command::new(
        Action::Scan,
        Target::File(File { name: None, hashes: None, path: None }),
    );
    match registry.route(&cmd).unwrap() {
        Dispatch::Forward(slots) => {
            assert_eq!(slots, vec![a.slot(), b.slot(), c.slot()]);
            assert!(slots[0] < slots[1] && slots[1] < slots[2]);
        }
        _ => panic!("expected a forward decision"),
    }
}

#[test]
fn registration_query_features_reports_per_profile_pairs() {
    let reg = Registration::new()
        .with_actions(
            &Nsid::from_str("alpha").unwrap(),
            vec![(Action::Scan, TargetType::File)],
        )
        .with_actions_without_profile(vec![(Action::Locate, TargetType::Device)]);
    let rsp = reg.query_features(&vec![Feature::Pairs]).unwrap();
    let results = rsp.results.unwrap();
    let pairs = results.pairs.unwrap();
    assert!(pairs.contains_pair(Action::Scan, &TargetType::File));
    assert!(pairs.contains_pair(Action::Locate, &TargetType::Device));
    // One extension entry per named profile, carrying that profile's own
    // pairs; the keyless declaration contributes none.
    assert_eq!(results.extensions.len(), 1);
    let entry = results.extensions.entry(0);
    assert_eq!(entry.0.as_str(), "alpha");
    let inner = entry.1.get("pairs").expect("a pairs field");
    let scan = inner.get("scan").expect("the profile's own pair");
    assert!(matches!(scan, openc2::value::Doc::Arr(_)));
    assert!(inner.get("locate").is_none());
}

#[test]
fn registry_nests_as_one_registration() {
    let mut registry = Registry::new();
    registry.insert(file_scan_registration("alpha"));
    registry.insert(
        Registration::new().with_actions_without_profile(vec![
            (Action::Locate, TargetType::Device),
        ]),
    );
    let folded = Registration::from_registry(&registry);
    assert!(folded.matches(
        Action::Scan,
        &TargetType::File,
        &Nsid::from_str("alpha").unwrap()
    ));
    assert!(folded.declares(Action::Locate, &TargetType::Device));
    assert!(!folded.declares(Action::Deny, &TargetType::File));
}
