//! The endpoint-response validators: typed arguments out of er commands.

use openc2::action::Action;
use openc2::command::Args;
use openc2::command::Command;
use openc2::data::Extensions;
use openc2::edr::ContainDeviceArgs;
use openc2::edr::DeleteFileArgs;
use openc2::edr::StopProcessArgs;
use openc2::edr::aids_from_downstream_devices;
use openc2::edr::missing_sha256_and_payload;
use openc2::edr::require_sha256;
use openc2::er::DownstreamDevice;
use openc2::er::ErArgs;
use openc2::data::Hashes;
use openc2::message::Content;
use openc2::message::Message;
use openc2::nsid::Nsid;
use openc2::target::Device;
use openc2::target::File;
use openc2::target::Process;
use openc2::target::Target;
use openc2::value::Doc;

const AID: &str = "0123456789abcdef0123456789abcdef";

fn er_ext(fields: Vec<(&str, Doc)>) -> Extensions {
    let mut extensions = Extensions::new();
    extensions.push(
        Nsid::er(),
        Doc::Obj(fields.into_iter().map(|(k, v)| (k.to_string(), v)).collect()),
    );
    extensions
}

fn contain_message(containment: &str, device_id: &str) -> Message {
    let mut args = Args::new();
    args.extensions = er_ext(vec![(
        "device_containment",
        Doc::Str(containment.to_string()),
    )]);
    let cmd = Command::new(Action::Contain, Target::Device(Device::with_device_id(device_id)))
        .with_args(args)
        .with_profile(Nsid::er());
    Message::from_content(Content::Request(cmd))
}

#[test]
fn contain_device_accepts_network_isolation() {
    let msg = contain_message("network_isolation", AID);
    let parsed = ContainDeviceArgs::from_message(&msg).unwrap();
    assert_eq!(parsed.device_id.as_str(), AID);
    assert!(parsed.reason.is_none());
}

#[test]
fn contain_device_rejects_other_containment() {
    let msg = contain_message("disable_nic", AID);
    assert!(ContainDeviceArgs::from_message(&msg).is_err());
}

#[test]
fn contain_device_rejects_bad_device_id() {
    let msg = contain_message("network_isolation", "nope");
    assert!(ContainDeviceArgs::from_message(&msg).is_err());
}

#[test]
fn stop_process_needs_one_device_and_a_pid() {
    let mut args = Args::new();
    args.extensions = er_ext(vec![(
        "downstream_device",
        Doc::Obj(vec![(
            "devices".to_string(),
            Doc::Arr(vec![Doc::Obj(vec![(
                "device_id".to_string(),
                Doc::Str(AID.to_string()),
            )])]),
        )]),
    )]);
    let mut process = Process {
        pid: Some(42),
        name: None,
        cwd: None,
        executable: None,
        parent: None,
        command_line: None,
    };
    let cmd = Command::new(Action::Stop, Target::Process(process)).with_args(args);
    let msg = Message::from_content(Content::Request(cmd));
    let parsed = StopProcessArgs::from_message(&msg).unwrap();
    assert_eq!(parsed.pid, 42);
    assert_eq!(parsed.device_id.as_str(), AID);

    process = Process {
        pid: None,
        name: None,
        cwd: None,
        executable: None,
        parent: None,
        command_line: None,
    };
    let cmd = Command::new(Action::Stop, Target::Process(process));
    let msg = Message::from_content(Content::Request(cmd));
    assert!(StopProcessArgs::from_message(&msg).is_err());
}

#[test]
fn delete_file_fans_out_to_every_device() {
    let second = "fedcba9876543210fedcba9876543210";
    let mut args = Args::new();
    args.extensions = er_ext(vec![(
        "downstream_device",
        Doc::Obj(vec![(
            "devices".to_string(),
            Doc::Arr(vec![
                Doc::Obj(vec![("device_id".to_string(), Doc::Str(AID.to_string()))]),
                Doc::Obj(vec![("device_id".to_string(), Doc::Str(second.to_string()))]),
            ]),
        )]),
    )]);
    let cmd = Command::new(
        Action::Delete,
        Target::File(File { name: None, hashes: None, path: Some("/hello.pdf".to_string()) }),
    )
    .with_args(args);
    let msg = Message::from_content(Content::Request(cmd));
    let parsed = DeleteFileArgs::from_message(&msg).unwrap();
    assert_eq!(parsed.file_path, "/hello.pdf");
    assert_eq!(parsed.target_devices.len(), 2);
    assert_eq!(parsed.target_devices[0].as_str(), AID);
    assert_eq!(parsed.target_devices[1].as_str(), second);
}

#[test]
fn delete_file_duration_error_carries_its_path() {
    let mut args = Args::new();
    args.period.duration = Some(openc2::time::Duration::from_millis(5));
    args.extensions = er_ext(vec![(
        "downstream_device",
        Doc::Obj(vec![(
            "devices".to_string(),
            Doc::Arr(vec![Doc::Obj(vec![(
                "device_id".to_string(),
                Doc::Str(AID.to_string()),
            )])]),
        )]),
    )]);
    let cmd = Command::new(
        Action::Delete,
        Target::File(File { name: None, hashes: None, path: Some("/hello.pdf".to_string()) }),
    )
    .with_args(args);
    let msg = Message::from_content(Content::Request(cmd));
    match DeleteFileArgs::from_message(&msg) {
        Err(openc2::error::Error::NotImplemented(n)) => {
            assert_eq!(n.path().unwrap().to_text(), ".args.duration");
        }
        _ => panic!("expected the duration refusal"),
    }
}

#[test]
fn aids_errors_carry_indexed_paths() {
    let downstream = DownstreamDevice::with_devices(vec![
        Device::with_device_id(AID),
        Device::with_device_id("nope"),
    ]);
    match aids_from_downstream_devices(&downstream) {
        Err(openc2::error::Error::Validation(v)) => {
            assert_eq!(v.path().to_text(), ".devices[1].device_id");
        }
        _ => panic!("expected the indexed device error"),
    }
}

#[test]
fn aids_reject_groups_and_tenants() {
    let downstream = DownstreamDevice {
        devices: vec![Device::with_device_id(AID)],
        device_groups: vec!["grp".to_string()],
        tenant_id: None,
    };
    assert!(aids_from_downstream_devices(&downstream).is_err());

    let good = DownstreamDevice::with_devices(vec![Device::with_device_id(AID)]);
    let aids = aids_from_downstream_devices(&good).unwrap();
    assert_eq!(aids.len(), 1);
}

#[test]
fn er_args_decode() {
    let doc = Doc::Obj(vec![
        (
            "device_containment".to_string(),
            Doc::Str("app_restriction".to_string()),
        ),
        ("periodic_scan".to_string(), Doc::Str("enabled".to_string())),
    ]);
    let parsed = ErArgs::from_doc(&doc).unwrap();
    assert!(matches!(
        parsed.device_containment,
        Some(openc2::er::DeviceContainment::AppRestriction)
    ));
    assert!(matches!(parsed.periodic_scan, Some(openc2::er::PeriodicScan::Enabled)));
    assert!(parsed.downstream_device.is_none());

    let bad = Doc::Obj(vec![(
        "device_containment".to_string(),
        Doc::Str("unheard_of".to_string()),
    )]);
    assert!(ErArgs::from_doc(&bad).is_err());
}

#[test]
fn sha256_requirement() {
    let with = Hashes { md5: None, sha1: None, sha256: Some("abc".to_string()) };
    assert_eq!(require_sha256(&with).unwrap(), "abc");
    let without = Hashes { md5: None, sha1: None, sha256: None };
    assert!(require_sha256(&without).is_err());
    assert!(matches!(
        missing_sha256_and_payload(),
        openc2::error::Error::Validation(_)
    ));
}
