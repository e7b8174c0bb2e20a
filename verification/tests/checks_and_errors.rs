//! The validation model: accumulation, paths, and the document checks.

use openc2::Check;
use openc2::action::Action;
use openc2::command::Args;
use openc2::command::Command;
use openc2::command::Period;
use openc2::data::ResponseType;
use openc2::error::Error;
use openc2::error::PathSegment;
use openc2::message::Body;
use openc2::message::Content;
use openc2::message::Headers;
use openc2::message::Message;
use openc2::response::Response;
use openc2::response::StatusCode;
use openc2::target::Device;
use openc2::target::Target;
use openc2::time::DateTime;
use openc2::time::Duration;

#[test]
fn accumulator_empty_is_ok() {
    let acc = Error::accumulator();
    assert!(acc.finish().is_ok());
}

#[test]
fn accumulator_single_error_comes_back_as_itself() {
    let mut acc = Error::accumulator();
    acc.push(Error::custom("just one"));
    match acc.finish() {
        Err(Error::Custom(m)) => assert_eq!(m, "just one"),
        _ => panic!("expected the single error back"),
    }
}

#[test]
fn accumulator_many_errors_come_back_in_push_order() {
    let mut acc = Error::accumulator();
    acc.push(Error::custom("first"));
    acc.push(Error::custom("second"));
    acc.push(Error::custom("third"));
    match acc.finish() {
        Err(Error::Multiple(errors)) => {
            assert_eq!(errors.len(), 3);
            assert!(matches!(&errors[0], Error::Custom(m) if m == "first"));
            assert!(matches!(&errors[1], Error::Custom(m) if m == "second"));
            assert!(matches!(&errors[2], Error::Custom(m) if m == "third"));
        }
        _ => panic!("expected an aggregate"),
    }
}

#[test]
fn at_reaches_every_member_of_an_aggregate() {
    let mut acc = Error::accumulator();
    acc.push(Error::validation("one"));
    acc.push(Error::not_implemented("two"));
    acc.push(Error::validation("three"));
    let aggregate = acc.finish().unwrap_err();
    let moved = aggregate.at(PathSegment::key("args"));
    match moved {
        Error::Multiple(errors) => {
            assert_eq!(errors.len(), 3);
            for e in &errors {
                match e {
                    Error::Validation(v) => {
                        assert_eq!(v.path().to_text(), ".args");
                    }
                    Error::NotImplemented(n) => {
                        assert_eq!(n.path().unwrap().to_text(), ".args");
                    }
                    _ => panic!("expected errors that carry paths"),
                }
            }
        }
        _ => panic!("expected an aggregate"),
    }
}

#[test]
fn period_triple_fails_at_duration() {
    let args = Args {
        period: Period {
            start_time: Some(DateTime::from_millis(1)),
            stop_time: Some(DateTime::from_millis(2)),
            duration: Some(Duration::from_millis(3)),
        },
        response_requested: None,
        comment: None,
        extensions: openc2::data::Extensions::new(),
    };
    match args.check() {
        Err(Error::Validation(v)) => {
            assert_eq!(v.path().to_text(), ".duration");
        }
        _ => panic!("expected a validation error at duration"),
    }
}

#[test]
fn period_any_two_succeed() {
    let combos = [
        (Some(1), Some(2), None),
        (Some(1), None, Some(3)),
        (None, Some(2), Some(3)),
        (Some(1), None, None),
        (None, None, None),
    ];
    for (a, b, c) in combos {
        let args = Args {
            period: Period {
                start_time: a.map(DateTime::from_millis),
                stop_time: b.map(DateTime::from_millis),
                duration: c.map(Duration::from_millis),
            },
            response_requested: None,
            comment: None,
            extensions: openc2::data::Extensions::new(),
        };
        assert!(args.check().is_ok());
    }
}

#[test]
fn require_empty_reports_every_field() {
    let period = Period {
        start_time: Some(DateTime::from_millis(1)),
        stop_time: None,
        duration: Some(Duration::from_millis(3)),
    };
    match period.require_empty() {
        Err(Error::Multiple(errors)) => {
            assert_eq!(errors.len(), 2);
            match &errors[0] {
                Error::NotImplemented(n) => {
                    assert_eq!(n.path().unwrap().to_text(), ".duration");
                }
                _ => panic!("expected a not-implemented error"),
            }
            match &errors[1] {
                Error::NotImplemented(n) => {
                    assert_eq!(n.path().unwrap().to_text(), ".start_time");
                }
                _ => panic!("expected a not-implemented error"),
            }
        }
        _ => panic!("expected two gathered errors"),
    }
}

#[test]
fn message_response_needs_status_code() {
    let mut message = Message::from_content(Content::Response(Response::new(StatusCode::Okay)));
    assert!(message.check().is_ok());
    message.status_code = None;
    match message.check() {
        Err(Error::Validation(v)) => {
            assert_eq!(v.path().to_text(), ".headers.status_code");
        }
        _ => panic!("expected a missing status_code"),
    }
}

#[test]
fn message_request_tracking_needs_request_id() {
    let mut args = Args::new();
    args.response_requested = Some(ResponseType::Complete);
    let cmd = Command::new(Action::Contain, Target::Device(Device::with_hostname("h"))).with_args(
        args,
    );
    let mut message = Message::from_content(Content::Request(cmd));
    match message.check() {
        Err(Error::Validation(v)) => {
            assert_eq!(v.path().to_text(), ".headers.request_id");
        }
        _ => panic!("expected a missing request_id"),
    }
    message.headers = Headers {
        request_id: Some("123".to_string()),
        created: None,
        from: None,
        to: Vec::new(),
    };
    assert!(message.check().is_ok());
}

#[test]
fn error_projects_to_response() {
    let e = Error::validation("bad field").at(PathSegment::key("args"));
    let rsp = Response::from_error(&e);
    assert!(matches!(rsp.status, StatusCode::BadRequest));
    assert_eq!(rsp.status_text.as_deref(), Some(".args: bad field"));

    let n = Error::not_implemented("nope");
    let rsp = Response::from_error(&n);
    assert!(matches!(rsp.status, StatusCode::NotImplemented));

    let mut acc = Error::accumulator();
    acc.push(Error::not_implemented("first wins"));
    acc.push(Error::validation("second"));
    let aggregate = acc.finish().unwrap_err();
    let rsp = Response::from_error(&aggregate);
    assert!(matches!(rsp.status, StatusCode::NotImplemented));
}

#[test]
fn status_code_families() {
    assert!(StatusCode::Processing.is_informational());
    assert!(StatusCode::Okay.is_success());
    assert!(StatusCode::BadRequest.is_producer_error());
    assert!(StatusCode::NotImplemented.is_consumer_error());
    assert!(StatusCode::ServiceUnavailable.is_error());
    assert!(!StatusCode::Okay.is_error());
    assert_eq!(StatusCode::from_code(501), Some(StatusCode::NotImplemented));
    assert_eq!(StatusCode::from_code(418), None);
    assert_eq!(StatusCode::NotImplemented.code(), 501);
}

#[test]
fn codec_rejects_a_bad_action() {
    let tree = openc2::value::Doc::Obj(vec![
        (
            "action".to_string(),
            openc2::value::Doc::Str("frobnicate".to_string()),
        ),
        (
            "target".to_string(),
            openc2::value::Doc::Obj(vec![(
                "file".to_string(),
                openc2::value::Doc::Obj(vec![]),
            )]),
        ),
    ]);
    assert!(Command::from_value(&tree).is_err());
}

#[test]
fn uri_targets_are_checked() {
    assert!(Target::uri_checked("https://example.com/a".to_string()).is_ok());
    assert!(Target::uri_checked("not a url at all".to_string()).is_err());
}
