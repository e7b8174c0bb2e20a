//! The action and target-kind vocabularies and the small leaf types.

use openc2::action::Action;
use openc2::data::Feature;
use openc2::data::ResponseType;
use openc2::edr::Aid;
use openc2::net::Ipv4Net;
use openc2::net::MacAddr;
use openc2::net::MacAddr6;
use openc2::nsid::Nsid;
use openc2::target::ProfileTargetType;
use openc2::target::TargetType;
use openc2::version::Version;

#[test]
fn action_display() {
    assert_eq!(Action::Scan.to_text(), "scan");
}

#[test]
fn action_from_str() {
    assert_eq!(Action::from_str("scan").unwrap(), Action::Scan);
}

#[test]
fn action_round_trips_both_ways() {
    for name in ["deny", "contain", "delete", "detonate", "set", "query"] {
        let a = Action::from_str(name).unwrap();
        assert_eq!(a.as_str(), name);
    }
    assert!(Action::from_str("frobnicate").is_err());
}

#[test]
fn target_type_display() {
    assert_eq!(TargetType::Ipv4Net.to_text(), "ipv4_net");
}

#[test]
fn target_type_display_extended() {
    let ptt = ProfileTargetType::new(Nsid::er(), String::from("account"));
    assert_eq!(TargetType::ProfileDefined(ptt).to_text(), "er/account");
}

#[test]
fn target_type_parse() {
    assert_eq!(TargetType::from_str("file").unwrap(), TargetType::File);
    let t = TargetType::from_str("crwd/hostgroup").unwrap();
    match &t {
        TargetType::ProfileDefined(p) => {
            assert_eq!(p.profile.as_str(), "crwd");
            assert_eq!(p.name, "hostgroup");
        }
        _ => panic!("expected a profile-defined kind"),
    }
}

#[test]
fn macaddr_parse_case_insensitive() {
    let addr: MacAddr = MacAddr::from_str("AA:BB:CC:DD:EE:FF").unwrap();
    assert_eq!(addr, MacAddr::from_str("aa:bb:cc:dd:ee:ff").unwrap());
}

#[test]
fn macaddr6_parse() {
    let addr: MacAddr6 = MacAddr6::from_str("01:23:45:67:89:ab").unwrap();
    assert_eq!(addr.to_text(), "01:23:45:67:89:AB");
}

#[test]
fn nsid_length_rule() {
    assert!(Nsid::from_str("er").is_ok());
    assert!(Nsid::from_str("exactly_16_chars").is_ok());
    assert!(Nsid::from_str("seventeen_chars__").is_err());
    let n = Nsid::from_str("slpf").unwrap();
    assert_eq!(Nsid::from_str(n.as_str()).unwrap().as_str(), "slpf");
}

#[test]
fn version_text_round_trip() {
    let v = Version::new(2, 0);
    assert_eq!(v.to_text(), "2.0");
    assert_eq!(Version::from_str("2.0").unwrap(), v);
    assert!(Version::from_str("2").is_err());
}

#[test]
fn ipv4_text_round_trip() {
    let n = Ipv4Net::new(1, 2, 3, 4, Some(24)).unwrap();
    assert_eq!(n.to_text(), "1.2.3.4/24");
    assert_eq!(Ipv4Net::from_str("1.2.3.4/24").unwrap(), n);
    // A /32 collapses to a bare address.
    let host = Ipv4Net::from_str("1.2.3.4/32").unwrap();
    assert_eq!(host.to_text(), "1.2.3.4");
    assert!(Ipv4Net::from_str("1.2.3.4/33").is_err());
    assert!(Ipv4Net::from_str("256.2.3.4").is_err());
}

#[test]
fn feature_names() {
    assert_eq!(Feature::from_str("rate_limit").unwrap(), Feature::RateLimit);
    assert_eq!(Feature::Pairs.as_str(), "pairs");
}

#[test]
fn response_type_required_id() {
    assert!(!ResponseType::NoResponse.requires_request_id());
    assert!(ResponseType::Complete.requires_request_id());
    assert_eq!(ResponseType::from_str("none").unwrap(), ResponseType::NoResponse);
}

#[test]
fn aid_shape() {
    assert!(Aid::from_str("0123456789abcdef0123456789abcdef").is_ok());
    assert!(Aid::from_str("0123").is_err());
    assert!(Aid::from_str("0123456789abcdef0123456789abcdeg").is_err());
}
