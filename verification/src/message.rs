//! The message envelope: headers, content type, body, and the checks the
//! standard imposes on the whole document.

use vstd::prelude::*;

use crate::Check;
use crate::IsEmpty;
use crate::command::Command;
use crate::command::CommandV;
use crate::command::period_check_spec;
use crate::data::CommandId;
use crate::data::ResponseType;
use crate::error::Error;
use crate::error::ErrorV;
use crate::error::PathSegV;
use crate::error::PathSegment;
use crate::error::ValidationError;
use crate::error::ValidationErrorV;
use crate::error::collapse_errors;
use crate::response::Response;
use crate::response::ResponseV;
use crate::response::StatusCode;
use crate::target::opt_text;
use crate::time::DateTime;
use crate::value::Doc;
use crate::value::ValueV;

verus! {

broadcast use vstd::string::group_string_axioms;

// ---------------------------------------------------------------------------
// Headers
// ---------------------------------------------------------------------------

/// Mathematical model of the message headers.
#[verifier::ext_equal]
pub struct HeadersV {
    pub request_id: Option<Seq<char>>,
    pub created: Option<DateTime>,
    pub from: Option<Seq<char>>,
    pub to: Seq<Seq<char>>,
}

/// The transport-level header fields of a message.
pub struct Headers {
    pub request_id: Option<CommandId>,
    pub created: Option<DateTime>,
    pub from: Option<String>,
    pub to: Vec<String>,
}

impl View for Headers {
    type V = HeadersV;

    open spec fn view(&self) -> HeadersV {
        HeadersV {
            request_id: opt_text(&self.request_id),
            created: self.created,
            from: opt_text(&self.from),
            to: self.to.deep_view(),
        }
    }
}

impl Headers {
    /// Headers with nothing set.
    pub fn new() -> (r: Self)
        ensures
            r@ == (HeadersV { request_id: None, created: None, from: None, to: Seq::empty() }),
    {
        let r = Headers { request_id: None, created: None, from: None, to: Vec::new() };
        proof {
            assert(r@ =~= HeadersV {
                request_id: None,
                created: None,
                from: None,
                to: Seq::empty(),
            });
        }
        r
    }
}

impl Default for Headers {
    fn default() -> (r: Self)
        ensures
            r@ == (HeadersV { request_id: None, created: None, from: None, to: Seq::empty() }),
    {
        Headers::new()
    }
}

impl IsEmpty for Headers {
    open spec fn is_empty_spec(&self) -> bool {
        self@.request_id.is_none() && self@.created.is_none() && self@.from.is_none()
            && self@.to.len() == 0
    }

    fn is_empty(&self) -> (r: bool) {
        self.request_id.is_none() && self.created.is_none() && self.from.is_none()
            && self.to.len() == 0
    }
}

// ---------------------------------------------------------------------------
// Body and content
// ---------------------------------------------------------------------------

/// Mathematical model of a notification.
#[verifier::ext_equal]
pub struct NotificationV {
    pub content: ValueV,
}

/// An unsolicited message body: structured content with no further rules at
/// this layer.
pub struct Notification {
    pub content: Doc,
}

impl View for Notification {
    type V = NotificationV;

    open spec fn view(&self) -> NotificationV {
        NotificationV { content: self.content@ }
    }
}

/// Mathematical model of the message content.
#[verifier::ext_equal]
pub enum ContentV {
    Request(CommandV),
    Response(ResponseV),
    Notification(NotificationV),
}

/// The kinds of content a message can carry.
pub enum Content {
    Request(Command),
    Response(Response),
    Notification(Notification),
}

impl View for Content {
    type V = ContentV;

    open spec fn view(&self) -> ContentV {
        match self {
            Content::Request(c) => ContentV::Request(c@),
            Content::Response(r) => ContentV::Response(r@),
            Content::Notification(n) => ContentV::Notification(n@),
        }
    }
}

/// The body wrapper naming the protocol of its content.
pub enum Body {
    OpenC2(Content),
}

impl View for Body {
    type V = ContentV;

    open spec fn view(&self) -> ContentV {
        match self {
            Body::OpenC2(c) => c@,
        }
    }
}

// ---------------------------------------------------------------------------
// Message
// ---------------------------------------------------------------------------

/// Mathematical model of a message.
#[verifier::ext_equal]
pub struct MessageV {
    pub headers: HeadersV,
    pub content_type: Seq<char>,
    pub body: ContentV,
    pub status_code: Option<StatusCode>,
}

/// A message: headers, the content type, the body, and, for responses, the
/// envelope-level status code.
pub struct Message {
    pub headers: Headers,
    pub content_type: String,
    pub body: Body,
    pub status_code: Option<StatusCode>,
}

impl View for Message {
    type V = MessageV;

    open spec fn view(&self) -> MessageV {
        MessageV {
            headers: self.headers@,
            content_type: self.content_type@,
            body: self.body@,
            status_code: self.status_code,
        }
    }
}

impl Message {
    /// The content type every message of this protocol carries.
    pub fn content_type_str() -> (r: &'static str)
        ensures
            r@ == "application/openc2"@,
    {
        "application/openc2"
    }

    /// Wraps content in an envelope with empty headers.  A response body
    /// copies its status into the envelope-level status code, so that the
    /// envelope alone says how the command fared.
    pub fn from_content(content: Content) -> (r: Self)
        ensures
            r@.headers == (HeadersV {
                request_id: None,
                created: None,
                from: None,
                to: Seq::empty(),
            }),
            r@.content_type == "application/openc2"@,
            r@.body == content@,
            r@.status_code == (match content@ {
                ContentV::Response(rsp) => Some(rsp.status),
                _ => None::<StatusCode>,
            }),
    {
        let status_code = match &content {
            Content::Response(r) => Some(r.status),
            _ => None,
        };
        Message {
            headers: Headers::new(),
            content_type: <String as vstd::string::StringExecFns>::from_str(
                Message::content_type_str(),
            ),
            body: Body::OpenC2(content),
            status_code,
        }
    }

    /// The identifier a consumer must use for the command: the command's
    /// own, or failing that the request identifier from the headers.
    pub fn command_id(&self) -> (r: Option<&CommandId>)
        ensures
            (match self@.body {
                ContentV::Request(cmd) => match r {
                    Some(id) => (cmd.command_id matches Some(c) && c == id@)
                        || (cmd.command_id.is_none() && self@.headers.request_id == Some(id@)),
                    None => cmd.command_id.is_none() && self@.headers.request_id.is_none(),
                },
                _ => r.is_none(),
            }),
    {
        let Body::OpenC2(body) = &self.body;
        match body {
            Content::Request(cmd) => match &cmd.command_id {
                Some(id) => Some(id),
                None => match &self.headers.request_id {
                    Some(id) => Some(id),
                    None => None,
                },
            },
            Content::Response(_) => None,
            Content::Notification(_) => None,
        }
    }
}

/// The errors a whole message can violate: for a request, the period rule,
/// and a missing request identifier when the requested response mode
/// demands one; for a response, a missing envelope status code; for a
/// notification, nothing at this layer.
pub open spec fn message_check_errors(m: MessageV) -> Seq<ErrorV> {
    match m.body {
        ContentV::Request(cmd) => {
            let period_errs: Seq<ErrorV> = match period_check_spec(cmd.args.period) {
                Ok(()) => Seq::empty(),
                Err(e) => seq![e],
            };
            let id_errs: Seq<ErrorV> = if (match cmd.args.response_requested {
                Some(t) => t != ResponseType::NoResponse,
                None => false,
            }) && m.headers.request_id.is_none() {
                seq![
                    ErrorV::Validation(
                        ValidationErrorV {
                            path: seq![PathSegV::Key("headers"@), PathSegV::Key("request_id"@)],
                            message: "missing required field '"@ + "request_id"@ + "'"@,
                        },
                    ),
                ]
            } else {
                Seq::empty()
            };
            period_errs + id_errs
        }
        ContentV::Response(_) => {
            if m.status_code.is_none() {
                seq![
                    ErrorV::Validation(
                        ValidationErrorV {
                            path: seq![PathSegV::Key("headers"@), PathSegV::Key("status_code"@)],
                            message: "missing required field '"@ + "status_code"@ + "'"@,
                        },
                    ),
                ]
            } else {
                Seq::empty()
            }
        }
        ContentV::Notification(_) => Seq::empty(),
    }
}

impl Check for Message {
    open spec fn check_spec(&self) -> Result<(), ErrorV> {
        collapse_errors(message_check_errors(self@))
    }

    fn check(&self) -> (r: Result<(), Error>) {
        let mut acc = Error::accumulator();
        let Body::OpenC2(body) = &self.body;
        match body {
            Content::Request(cmd) => {
                let cr = cmd.args.check();
                acc.handle(cr);
                let demands = match cmd.args.response_requested {
                    Some(t) => t.requires_request_id(),
                    None => false,
                };
                if demands && self.headers.request_id.is_none() {
                    let e = ValidationError::missing_required_field("request_id").at(
                        PathSegment::key("headers"),
                    );
                    acc.push(Error::Validation(e));
                }
                proof {
                    assert(acc@.errors =~~= message_check_errors(self@));
                }
            }
            Content::Response(_) => {
                if self.status_code.is_none() {
                    let e = ValidationError::missing_required_field("status_code").at(
                        PathSegment::key("headers"),
                    );
                    acc.push(Error::Validation(e));
                }
                proof {
                    assert(acc@.errors =~~= message_check_errors(self@));
                }
            }
            Content::Notification(_) => {
                proof {
                    assert(acc@.errors =~~= message_check_errors(self@));
                }
            }
        }
        acc.finish()
    }
}

} // verus!
