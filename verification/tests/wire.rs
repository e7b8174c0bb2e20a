//! The wire codec: document trees in and out, and the JSON bridge.

use openc2::action::Action;
use openc2::command::Command;
use openc2::data::Extensions;
use openc2::message::Body;
use openc2::message::Content;
use openc2::message::Headers;
use openc2::message::Message;
use openc2::response::Results;
use openc2::response::StatusCode;
use openc2::target::File;
use openc2::target::Target;
use openc2::target::TargetType;
use openc2::value::Doc;

fn obj(fields: Vec<(&str, Doc)>) -> Doc {
    Doc::Obj(fields.into_iter().map(|(k, v)| (k.to_string(), v)).collect())
}

fn text(s: &str) -> Doc {
    Doc::Str(s.to_string())
}

fn command_message_tree() -> Doc {
    obj(vec![
        ("headers", obj(vec![("request_id", text("123"))])),
        (
            "body",
            obj(vec![(
                "openc2",
                obj(vec![(
                    "request",
                    obj(vec![
                        ("action", text("deny")),
                        ("target", obj(vec![("file", obj(vec![("path", text("/hello.pdf"))]))])),
                    ]),
                )]),
            )]),
        ),
        ("content_type", text("application/openc2")),
    ])
}

#[test]
fn deserialize() {
    let example = Message::from_value(&command_message_tree()).unwrap();
    let Body::OpenC2(content) = &example.body;
    assert!(matches!(
        content,
        Content::Request(Command {
            target: Target::File(_),
            ..
        })
    ));
}

#[test]
fn message_deserialize() {
    let example = Message::from_value(&command_message_tree()).unwrap();
    let Body::OpenC2(content) = &example.body;
    match content {
        Content::Request(cmd) => {
            assert!(matches!(cmd.action, Action::Deny));
            assert_eq!(example.headers.request_id.as_deref(), Some("123"));
        }
        _ => panic!("expected a request"),
    }
}

#[test]
fn deserialize_through_body() {
    let message = Message::from_value(&command_message_tree()).unwrap();
    let Body::OpenC2(content) = &message.body;
    assert!(matches!(
        content,
        Content::Request(Command {
            action: Action::Deny,
            target: Target::File(_),
            ..
        })
    ));
}

#[test]
fn round_trip_command_through_body() {
    let message = Message::from_value(&command_message_tree()).unwrap();
    let Body::OpenC2(content) = &message.body;
    assert!(matches!(
        content,
        Content::Request(Command {
            action: Action::Deny,
            target: Target::File(_),
            ..
        })
    ));

    let value = message.to_value();
    let body = value.get("body").unwrap();
    let openc2 = body.get("openc2").unwrap();
    let request = openc2.get("request").unwrap();
    match request.get("action").unwrap() {
        Doc::Str(s) => assert_eq!(s, "deny"),
        _ => panic!("expected an action name"),
    }
}

#[test]
fn pairs() {
    let tree = obj(vec![(
        "pairs",
        obj(vec![
            ("scan", Doc::Arr(vec![text("ipv4_net"), text("file")])),
            ("locate", Doc::Arr(vec![text("device")])),
            ("query", Doc::Arr(vec![text("crwd/hostgroup")])),
        ]),
    )]);
    let example = Results::from_value(&tree).unwrap();
    let pairs = example.pairs.unwrap();

    assert!(pairs.contains_pair(Action::Scan, &TargetType::Ipv4Net));
    assert!(pairs.contains_pair(Action::Scan, &TargetType::File));
    assert!(pairs.contains_pair(Action::Locate, &TargetType::Device));
    assert!(pairs.contains_pair(
        Action::Query,
        &TargetType::from_str("crwd/hostgroup").unwrap()
    ));
    let scan_row = pairs.entry(0);
    assert!(matches!(scan_row.0, Action::Scan));
    assert_eq!(scan_row.1.len(), 2);
}

#[test]
fn ip_target() {
    let tree = obj(vec![("ipv4_net", text("1.2.3.4/32"))]);
    let example = Target::from_value(&tree).unwrap();
    match example {
        Target::Ipv4Net(n) => assert_eq!(n.to_text(), "1.2.3.4"),
        _ => panic!("expected an IPv4 target"),
    }
}

#[test]
fn target_ip_target() {
    let tree = obj(vec![("ipv4_net", text("1.2.3.4/32"))]);
    let example = Target::from_value(&tree).unwrap();
    assert!(matches!(example, Target::Ipv4Net(_)));
}

#[test]
fn extension_target() {
    let tree = obj(vec![("slpf", obj(vec![("rule_number", Doc::Int(31))]))]);
    let example = Target::from_value(&tree).unwrap();
    match &example {
        Target::ProfileDefined(choice) => {
            assert_eq!(choice.key.as_str(), "slpf");
            assert_eq!(choice.value.key, "rule_number");
            assert!(matches!(choice.value.value, Doc::Int(31)));
        }
        _ => panic!("expected a profile-defined target"),
    }
}

#[test]
fn target_extension_target() {
    let tree = obj(vec![("slpf", obj(vec![("rule_number", Doc::Int(31))]))]);
    let example = Target::from_value(&tree).unwrap();
    assert!(matches!(example, Target::ProfileDefined(_)));
    assert_eq!(example.kind().to_text(), "slpf/rule_number");
}

#[test]
fn end_to_end_json() {
    // A delete command wrapped with a request identifier renders to the
    // exact wire document, and reads back to the same command.
    let cmd = Command::new(
        Action::Delete,
        Target::File(File {
            name: None,
            hashes: None,
            path: Some("/hello.pdf".to_string()),
        }),
    );
    let mut headers = Headers::new();
    headers.request_id = Some("123".to_string());
    let message = Message {
        headers,
        content_type: "application/openc2".to_string(),
        body: Body::OpenC2(Content::Request(cmd)),
        status_code: None,
    };
    let rendered = message.to_json_text().unwrap();
    let got: serde_json::Value = serde_json::from_str(&rendered).unwrap();
    let expected: serde_json::Value = serde_json::from_str(
        "{\"headers\":{\"request_id\":\"123\"},\"body\":{\"openc2\":{\"request\":{\"action\":\"delete\",\"target\":{\"file\":{\"path\":\"/hello.pdf\"}}}}},\"content_type\":\"application/openc2\"}",
    )
    .unwrap();
    assert_eq!(got, expected);

    let back = Message::from_json_text(&rendered).unwrap();
    let Body::OpenC2(content) = &back.body;
    match content {
        Content::Request(c) => {
            assert!(matches!(c.action, Action::Delete));
            match &c.target {
                Target::File(f) => assert_eq!(f.path.as_deref(), Some("/hello.pdf")),
                _ => panic!("expected a file target"),
            }
        }
        _ => panic!("expected a request"),
    }
}

#[test]
fn message_round_trip_with_extensions() {
    let mut extensions = Extensions::new();
    extensions.push(
        openc2::nsid::Nsid::er(),
        obj(vec![("device_containment", text("network_isolation"))]),
    );
    let mut args = openc2::command::Args::new();
    args.extensions = extensions;
    args.response_requested = Some(openc2::data::ResponseType::Complete);
    let cmd = Command::new(
        Action::Contain,
        Target::Device(openc2::target::Device::with_device_id(
            "0123456789abcdef0123456789abcdef",
        )),
    )
    .with_args(args)
    .with_profile(openc2::nsid::Nsid::er());
    let message = Message::from_content(Content::Request(cmd));
    let tree = message.to_value();
    let back = Message::from_value(&tree).unwrap();
    let Body::OpenC2(content) = &back.body;
    match content {
        Content::Request(c) => {
            assert!(matches!(c.action, Action::Contain));
            assert!(c.args.extensions.contains("er"));
            assert_eq!(c.profile.as_ref().map(|p| p.to_text()), Some("er".to_string()));
        }
        _ => panic!("expected a request"),
    }
}

#[test]
fn response_status_promotion() {
    let rsp = openc2::response::Response::new(StatusCode::Okay);
    let message = Message::from_content(Content::Response(rsp));
    assert!(matches!(message.status_code, Some(StatusCode::Okay)));
}

#[test]
fn cbor_bytes_render() {
    let message = Message::from_value(&command_message_tree()).unwrap();
    let bytes = message.to_cbor_bytes().unwrap();
    // The rendering carries the document's own content: the protocol key
    // appears as CBOR text.
    let needle = b"openc2";
    let found = bytes.windows(needle.len()).any(|w| w == needle);
    assert!(found);
}

#[test]
fn artifact_with_binary_payload_round_trips() {
    let tree = obj(vec![(
        "artifact",
        obj(vec![
            ("media_type", text("application/octet-stream")),
            (
                "payload",
                obj(vec![("bin", Doc::Arr(vec![Doc::Int(1), Doc::Int(2), Doc::Int(255)]))]),
            ),
            ("hashes", obj(vec![("sha256", text("abc"))])),
        ]),
    )]);
    let target = Target::from_value(&tree).unwrap();
    match &target {
        Target::Artifact(a) => {
            assert_eq!(a.media_type.as_deref(), Some("application/octet-stream"));
            match &a.payload {
                Some(openc2::data::Payload::Binary(bytes)) => assert_eq!(bytes, &vec![1, 2, 255]),
                _ => panic!("expected bytes"),
            }
        }
        _ => panic!("expected an artifact"),
    }
    let back = target.to_value();
    let reread = Target::from_value(&back).unwrap();
    assert!(matches!(reread, Target::Artifact(_)));
}

#[test]
fn process_parent_chain_round_trips() {
    let tree = obj(vec![(
        "process",
        obj(vec![
            ("pid", Doc::Int(7)),
            ("name", text("child")),
            ("parent", obj(vec![("pid", Doc::Int(1)), ("name", text("init"))])),
        ]),
    )]);
    let target = Target::from_value(&tree).unwrap();
    match &target {
        Target::Process(p) => {
            assert_eq!(p.pid, Some(7));
            let parent = p.parent.as_ref().unwrap();
            assert_eq!(parent.pid, Some(1));
            assert_eq!(parent.name.as_deref(), Some("init"));
        }
        _ => panic!("expected a process"),
    }
    let back = target.to_value();
    assert!(Target::from_value(&back).is_ok());
}

#[test]
fn bad_payload_is_rejected() {
    let tree = obj(vec![(
        "artifact",
        obj(vec![(
            "payload",
            obj(vec![("bin", Doc::Arr(vec![Doc::Int(300)]))]),
        )]),
    )]);
    assert!(Target::from_value(&tree).is_err());
}
