//! An endpoint-response consumer's request validation: turning a command
//! aimed at the `er` profile into the typed arguments its device API
//! needs, gathering every violation before failing.

use vstd::prelude::*;
use vstd::string::StrSliceExecFns;
use vstd::string::StringExecFns;

use crate::command::CommandV;
use crate::er::DeviceContainment;
use crate::er::ErArgs;
use crate::er::ErArgsV;
use crate::er::dec_er_args;
use crate::message::Body;
use crate::message::Content;
use crate::message::ContentV;
use crate::message::Message;
use crate::message::MessageV;
use crate::target::Target;
use crate::target::TargetV;
use crate::target::ProcessV;
use crate::value::obj_get;
use crate::er::DownstreamDevice;
use crate::er::DownstreamDeviceV;
use crate::er::lemma_devices_view;
use crate::error::Error;
use crate::error::ErrorV;
use crate::error::NotImplementedErrorV;
use crate::error::PathSegV;
use crate::error::ValidationErrorV;
use crate::data::Hashes;
use crate::text::is_hex;

verus! {

broadcast use vstd::string::group_string_axioms;

/// The error a malformed agent identifier produces.
#[derive(Debug, Clone, Copy, PartialEq, Eq, Structural)]
pub struct ParseAidError {
}

/// An agent identifier names a device: exactly 32 hexadecimal characters.
pub open spec fn aid_valid(s: Seq<char>) -> bool {
    s.len() == 32 && (forall|i: int| 0 <= i < s.len() ==> is_hex(#[trigger] s[i]))
}

/// An agent identifier: the name a device carries in the endpoint API.
pub struct Aid {
    value: String,
}

impl View for Aid {
    type V = Seq<char>;

    closed spec fn view(&self) -> Seq<char> {
        self.value@
    }
}

impl Aid {
    /// Parses an agent identifier; anything but 32 hexadecimal characters
    /// is rejected.
    #[verifier::loop_isolation(false)]
    pub fn from_str(s: &str) -> (r: Result<Self, ParseAidError>)
        ensures
            aid_valid(s@) <==> r matches Ok(_),
            r matches Ok(a) ==> a@ == s@,
    {
        let n = s.unicode_len();
        if n != 32 {
            return Err(ParseAidError {});
        }
        let mut i: usize = 0;
        while i < n
            invariant
                i <= n,
                n == s@.len(),
                forall|j: int| 0 <= j < i ==> is_hex(#[trigger] s@[j]),
            decreases n - i,
        {
            let c = s.get_char(i);
            let v = c as u32;
            let hex = (48 <= v && v <= 57) || (97 <= v && v <= 102) || (65 <= v && v <= 70);
            if !hex {
                proof {
                    assert(!is_hex(s@[i as int]));
                }
                return Err(ParseAidError {});
            }
            i += 1;
        }
        Ok(Aid { value: String::from_str(s) })
    }

    /// The identifier's characters.
    pub fn as_str(&self) -> (r: &str)
        ensures
            r@ == self@,
    {
        self.value.as_str()
    }
}

impl Clone for Aid {
    fn clone(&self) -> (r: Self)
        ensures
            r@ == self@,
    {
        Aid { value: self.value.clone() }
    }
}

impl DeepView for Aid {
    type V = Seq<char>;

    open spec fn deep_view(&self) -> Seq<char> {
        self@
    }
}

/// What a downstream device set must look like to be fanned out to:
/// no device groups, no tenant, at least one device, and every device
/// named by a valid agent identifier.
pub open spec fn downstream_ok(d: DownstreamDeviceV) -> bool {
    d.device_groups.len() == 0 && d.tenant_id.is_none() && d.devices.len() > 0 && (forall|
        i: int,
    |
        0 <= i < d.devices.len() ==> ((#[trigger] d.devices[i]).device_id matches Some(id)
            && aid_valid(id)))
}

/// The agent identifiers of a downstream device set, in order.
pub open spec fn downstream_aids(d: DownstreamDeviceV) -> Seq<Seq<char>> {
    Seq::new(d.devices.len(), |i: int| match d.devices[i].device_id {
        Some(id) => id,
        None => Seq::empty(),
    })
}

/// The error one device contributes, at its own indexed path.
pub open spec fn device_error(dv: crate::target::DeviceV, i: int) -> Seq<ErrorV> {
    let path = seq![
        PathSegV::Key("devices"@),
        PathSegV::Number(i),
        PathSegV::Key("device_id"@),
    ];
    match dv.device_id {
        Some(id) => if aid_valid(id) {
            Seq::empty()
        } else {
            seq![
                ErrorV::Validation(
                    ValidationErrorV { path, message: "device_id is not a valid agent id"@ },
                ),
            ]
        },
        None => seq![
            ErrorV::Validation(ValidationErrorV { path, message: "device_id is required"@ }),
        ],
    }
}

/// The device errors of the first `i` devices, in order.
pub open spec fn device_errors_upto(devs: Seq<crate::target::DeviceV>, i: int) -> Seq<ErrorV>
    decreases i,
{
    if i <= 0 {
        Seq::empty()
    } else {
        device_errors_upto(devs, i - 1) + device_error(devs[i - 1], i - 1)
    }
}

/// Every error an inadmissible downstream device set produces, in the
/// order they are found: unsupported groups, unsupported tenant, an empty
/// device list, then one error per bad device at its indexed path.
pub open spec fn downstream_errors(d: DownstreamDeviceV) -> Seq<ErrorV> {
    let g: Seq<ErrorV> = if d.device_groups.len() > 0 {
        seq![
            ErrorV::NotImplemented(
                NotImplementedErrorV {
                    message: "device_groups are not supported"@,
                    path: Some(seq![PathSegV::Key("device_groups"@)]),
                },
            ),
        ]
    } else {
        Seq::empty()
    };
    let t: Seq<ErrorV> = if d.tenant_id is Some {
        seq![
            ErrorV::NotImplemented(
                NotImplementedErrorV {
                    message: "tenant_id is not supported"@,
                    path: Some(seq![PathSegV::Key("tenant_id"@)]),
                },
            ),
        ]
    } else {
        Seq::empty()
    };
    let e: Seq<ErrorV> = if d.devices.len() == 0 {
        seq![
            ErrorV::Validation(
                ValidationErrorV {
                    path: seq![PathSegV::Key("devices"@)],
                    message: "at least one device is required"@,
                },
            ),
        ]
    } else {
        Seq::empty()
    };
    g + t + e + device_errors_upto(d.devices, d.devices.len() as int)
}

/// The agent identifiers a command's downstream devices name.  Exactly the
/// sets [`downstream_ok`] admits succeed; an inadmissible set fails with
/// exactly the gathered [`downstream_errors`], collapsed by the
/// accumulator rule, each at its own field path.
#[verifier::loop_isolation(false)]
pub fn aids_from_downstream_devices(downstream: &DownstreamDevice) -> (r: Result<
    Vec<Aid>,
    Error,
>)
    ensures
        downstream_ok(downstream@) <==> r matches Ok(_),
        r matches Ok(aids) ==> aids.deep_view() == downstream_aids(downstream@),
        r matches Err(e) ==> downstream_errors(downstream@).len() > 0 && (if downstream_errors(
            downstream@,
        ).len() == 1 {
            e@ == downstream_errors(downstream@)[0]
        } else {
            e@ == ErrorV::Multiple(downstream_errors(downstream@))
        }),
{
    let mut errors = Error::accumulator();
    if downstream.device_groups.len() > 0 {
        errors.push(Error::not_implemented("device_groups are not supported").at(
            crate::error::PathSegment::key("device_groups"),
        ));
    }
    if downstream.tenant_id.is_some() {
        errors.push(Error::not_implemented("tenant_id is not supported").at(
            crate::error::PathSegment::key("tenant_id"),
        ));
    }
    if downstream.devices.len() == 0 {
        errors.push(Error::validation("at least one device is required").at(
            crate::error::PathSegment::key("devices"),
        ));
    }
    proof {
        lemma_devices_view(downstream.devices@);
    }
    let ghost base = errors@.errors;
    let ghost base_ok = downstream@.device_groups.len() == 0 && downstream@.tenant_id.is_none()
        && downstream@.devices.len() > 0;
    proof {
        assert((errors@.errors.len() == 0) <==> base_ok);
    }
    let mut aids: Vec<Aid> = Vec::new();
    let n = downstream.devices.len();
    let mut i: usize = 0;
    while i < n
        invariant
            i <= n,
            n == downstream@.devices.len(),
            errors@.open,
            errors@.errors == base + device_errors_upto(downstream@.devices, i as int),
            (errors@.errors.len() == 0) <==> (base_ok && (forall|j: int|
                0 <= j < i ==> ((#[trigger] downstream@.devices[j]).device_id matches Some(id)
                    && aid_valid(id)))),
            errors@.errors.len() == 0 ==> aids.deep_view() == downstream_aids(
                downstream@,
            ).subrange(0, i as int),
        decreases n - i,
    {
        proof {
            assert(downstream@.devices[i as int] == downstream.devices@[i as int]@);
        }
        match &downstream.devices[i].device_id {
            Some(id) => {
                match Aid::from_str(id.as_str()) {
                    Ok(a) => {
                        let ghost av = aids.deep_view();
                        aids.push(a);
                        proof {
                            assert(aids.deep_view() =~= av + seq![a@]);
                            if errors@.errors.len() == 0 {
                                assert(downstream_aids(downstream@)[i as int] == a@);
                                assert(aids.deep_view() =~= downstream_aids(
                                    downstream@,
                                ).subrange(0, i + 1));
                            }
                            assert(device_error(downstream@.devices[i as int], i as int)
                                =~= Seq::<ErrorV>::empty());
                            assert(errors@.errors =~~= base + device_errors_upto(
                                downstream@.devices,
                                i + 1,
                            ));
                        }
                    }
                    Err(_) => {
                        errors.push(
                            Error::validation("device_id is not a valid agent id").at(
                                crate::error::PathSegment::key("device_id"),
                            ).at(crate::error::PathSegment::number(i)).at(
                                crate::error::PathSegment::key("devices"),
                            ),
                        );
                        proof {
                            assert(errors@.errors =~~= base + device_errors_upto(
                                downstream@.devices,
                                i + 1,
                            ));
                        }
                    }
                }
            }
            None => {
                errors.push(
                    Error::validation("device_id is required").at(
                        crate::error::PathSegment::key("device_id"),
                    ).at(crate::error::PathSegment::number(i)).at(
                        crate::error::PathSegment::key("devices"),
                    ),
                );
                proof {
                    assert(errors@.errors =~~= base + device_errors_upto(
                        downstream@.devices,
                        i + 1,
                    ));
                }
            }
        }
        i += 1;
    }
    proof {
        if errors@.errors.len() == 0 {
            assert(downstream_aids(downstream@).subrange(0, n as int) =~= downstream_aids(
                downstream@,
            ));
        }
        assert((errors@.errors.len() == 0) <==> downstream_ok(downstream@));
        assert(errors@.errors =~~= downstream_errors(downstream@));
    }
    errors.finish_with(aids)
}

/// The digest an artifact must carry to be looked up by hash.
pub fn require_sha256(hashes: &Hashes) -> (r: Result<&str, Error>)
    ensures
        match r {
            Ok(s) => hashes@.sha256 == Some(s@),
            Err(_) => hashes@.sha256.is_none(),
        },
{
    match &hashes.sha256 {
        Some(s) => Ok(s.as_str()),
        None => Err(Error::validation("sha256 hash is required").at(
            crate::error::PathSegment::key("hashes"),
        )),
    }
}

/// The error an artifact without digest or payload produces.
pub fn missing_sha256_and_payload() -> (r: Error)
    ensures
        r@ matches crate::error::ErrorV::Validation(_),
{
    Error::validation("artifact must have either sha256 or bytes").at(
        crate::error::PathSegment::key("artifact"),
    ).at(crate::error::PathSegment::key("target"))
}

// ---------------------------------------------------------------------------
// Typed command arguments
// ---------------------------------------------------------------------------

/// True when the command asks this profile, or no profile at all.
pub open spec fn profile_is_er(p: Option<Seq<char>>) -> bool {
    p is None || p == Some("er"@)
}

/// The decoded profile arguments of a command, when the `er` extension is
/// present and well-formed.
pub open spec fn er_ext_of(cmd: CommandV) -> Option<ErArgsV> {
    match obj_get(cmd.args.extensions, "er"@) {
        Some(v) => dec_er_args(v),
        None => None,
    }
}

/// What a containment command must hold: a request whose target is a
/// device with a valid agent identifier, the `er` extension asking
/// network isolation, and no foreign profile.
pub open spec fn contain_admissible(m: MessageV) -> bool {
    match m.body {
        ContentV::Request(cmd) => (match cmd.target {
            TargetV::Device(d) => d.device_id matches Some(id) && aid_valid(id),
            _ => false,
        }) && (er_ext_of(cmd) matches Some(ea) && ea.device_containment == Some(
            DeviceContainment::NetworkIsolation,
        )) && profile_is_er(cmd.profile),
        _ => false,
    }
}

/// The arguments of a device containment call.
pub struct ContainDeviceArgs {
    pub device_id: Aid,
    pub reason: Option<String>,
}

impl ContainDeviceArgs {
    /// Validates a containment command.  Exactly the messages
    /// [`contain_admissible`] admits succeed; every violation in an
    /// inadmissible message is gathered before failing, each at its own
    /// field path.
    pub fn from_message(msg: &Message) -> (r: Result<Self, Error>)
        ensures
            contain_admissible(msg@) <==> r matches Ok(_),
            r matches Ok(a) ==> (match msg@.body {
                ContentV::Request(cmd) => (match cmd.target {
                    TargetV::Device(d) => d.device_id == Some(a.device_id@),
                    _ => false,
                }) && (match a.reason {
                    Some(s) => cmd.args.comment == Some(s@),
                    None => cmd.args.comment is None,
                }),
                _ => false,
            }),
    {
        proof {
            reveal_strlit("er");
            assert(("er")@.len() == 2);
        }
        let Body::OpenC2(content) = &msg.body;
        let cmd = match content {
            Content::Request(cmd) => cmd,
            _ => {
                return Err(Error::validation("body is not a command"));
            }
        };
        let mut errors = Error::accumulator();
        let device_id: Option<Aid> = match &cmd.target {
            Target::Device(d) => match &d.device_id {
                Some(id) => match Aid::from_str(id.as_str()) {
                    Ok(a) => Some(a),
                    Err(_) => {
                        errors.push(Error::validation("device_id is not a valid agent id").at(
                            crate::error::PathSegment::key("device_id"),
                        ).at(crate::error::PathSegment::key("device")).at(crate::error::PathSegment::key("target")));
                        None
                    }
                },
                None => {
                    errors.push(Error::validation("device_id is required").at(
                        crate::error::PathSegment::key("device_id"),
                    ).at(crate::error::PathSegment::key("device")).at(crate::error::PathSegment::key("target")));
                    None
                }
            },
            _ => {
                errors.push(Error::validation("target is not a device").at(crate::error::PathSegment::key("target")));
                None
            }
        };
        match cmd.args.extensions.get_raw("er") {
            Some(v) => match ErArgs::from_doc(v) {
                Ok(ea) => match ea.device_containment {
                    Some(DeviceContainment::NetworkIsolation) => (),
                    Some(_) => {
                        errors.push(Error::not_implemented("must be network_isolation").at(
                            crate::error::PathSegment::key("device_containment"),
                        ).at(crate::error::PathSegment::key("er")).at(crate::error::PathSegment::key("args")));
                    }
                    None => {
                        errors.push(Error::validation("device_containment is required").at(
                            crate::error::PathSegment::key("device_containment"),
                        ).at(crate::error::PathSegment::key("er")).at(crate::error::PathSegment::key("args")));
                    }
                },
                Err(e) => {
                    errors.push(e.at(crate::error::PathSegment::key("er")).at(crate::error::PathSegment::key("args")));
                }
            },
            None => {
                errors.push(Error::validation("the er extension is required").at(
                    crate::error::PathSegment::key("er"),
                ).at(crate::error::PathSegment::key("args")));
            }
        }
        match &cmd.profile {
            Some(p) => {
                if !p.is("er") {
                    errors.push(Error::validation("profile should be er").at(
                        crate::error::PathSegment::key("profile"),
                    ));
                }
            }
            None => (),
        }
        let reason = match &cmd.args.comment {
            Some(s) => Some(s.clone()),
            None => None,
        };
        match errors.finish() {
            Ok(()) => {
                let a = match device_id {
                    Some(a) => a,
                    None => {
                        return Err(Error::validation("device_id is required"));
                    }
                };
                Ok(ContainDeviceArgs { device_id: a, reason })
            }
            Err(e) => Err(e),
        }
    }
}

/// What a process stop command must hold: a request whose target is a
/// process with an identifier, and the `er` extension naming exactly one
/// downstream device with a valid agent identifier.
pub open spec fn stop_admissible(m: MessageV) -> bool {
    match m.body {
        ContentV::Request(cmd) => (match cmd.target {
            TargetV::Process(p) => p matches ProcessV::Node { pid: Some(_), .. },
            _ => false,
        }) && (er_ext_of(cmd) matches Some(ea) && ea.downstream_device matches Some(d)
            && d.devices.len() == 1 && (d.devices[0].device_id matches Some(id) && aid_valid(
            id,
        ))),
        _ => false,
    }
}

/// The arguments of a process stop call.
pub struct StopProcessArgs {
    pub device_id: Aid,
    pub pid: u32,
}

impl StopProcessArgs {
    /// Validates a process stop command.  Exactly the messages
    /// [`stop_admissible`] admits succeed; violations are gathered, each
    /// at its own field path.
    pub fn from_message(msg: &Message) -> (r: Result<Self, Error>)
        ensures
            stop_admissible(msg@) <==> r matches Ok(_),
            r matches Ok(a) ==> (match msg@.body {
                ContentV::Request(cmd) => (match cmd.target {
                    TargetV::Process(p) => p matches ProcessV::Node { pid: Some(pid), .. }
                        && pid == a.pid,
                    _ => false,
                }) && (er_ext_of(cmd) matches Some(ea) && ea.downstream_device matches Some(d)
                    && d.devices.len() == 1 && d.devices[0].device_id == Some(a.device_id@)),
                _ => false,
            }),
    {
        proof {
            reveal_strlit("er");
            assert(("er")@.len() == 2);
        }
        let Body::OpenC2(content) = &msg.body;
        let cmd = match content {
            Content::Request(cmd) => cmd,
            _ => {
                return Err(Error::validation("body is not a command"));
            }
        };
        let mut errors = Error::accumulator();
        let pid: Option<u32> = match &cmd.target {
            Target::Process(p) => match &p.pid {
                Some(pid) => Some(*pid),
                None => {
                    errors.push(Error::validation("process pid is required").at(
                        crate::error::PathSegment::key("pid"),
                    ).at(crate::error::PathSegment::key("process")).at(crate::error::PathSegment::key("target")));
                    None
                }
            },
            _ => {
                errors.push(Error::validation("target must be a process").at(crate::error::PathSegment::key("target")));
                None
            }
        };
        let device_id: Option<Aid> = match cmd.args.extensions.get_raw("er") {
            Some(v) => match ErArgs::from_doc(v) {
                Ok(ea) => match &ea.downstream_device {
                    Some(d) => {
                        proof {
                            crate::er::lemma_devices_view(d.devices@);
                        }
                        if d.devices.len() != 1 {
                            errors.push(Error::validation("exactly one device is required").at(
                                crate::error::PathSegment::key("devices"),
                            ).at(crate::error::PathSegment::key("downstream_device")).at(crate::error::PathSegment::key("er")).at(crate::error::PathSegment::key("args")));
                            None
                        } else {
                            match &d.devices[0].device_id {
                                Some(id) => match Aid::from_str(id.as_str()) {
                                    Ok(a) => Some(a),
                                    Err(_) => {
                                        errors.push(Error::validation(
                                            "device_id is not a valid agent id",
                                        ).at(crate::error::PathSegment::key("devices")).at(crate::error::PathSegment::key("downstream_device")).at(
                                            crate::error::PathSegment::key("er"),
                                        ).at(crate::error::PathSegment::key("args")));
                                        None
                                    }
                                },
                                None => {
                                    errors.push(Error::validation("device_id is required").at(
                                        crate::error::PathSegment::key("devices"),
                                    ).at(crate::error::PathSegment::key("downstream_device")).at(crate::error::PathSegment::key("er")).at(
                                        crate::error::PathSegment::key("args"),
                                    ));
                                    None
                                }
                            }
                        }
                    }
                    None => {
                        errors.push(Error::validation("downstream_device is required").at(
                            crate::error::PathSegment::key("downstream_device"),
                        ).at(crate::error::PathSegment::key("er")).at(crate::error::PathSegment::key("args")));
                        None
                    }
                },
                Err(e) => {
                    errors.push(e.at(crate::error::PathSegment::key("er")).at(crate::error::PathSegment::key("args")));
                    None
                }
            },
            None => {
                errors.push(Error::validation("the er extension is required").at(
                    crate::error::PathSegment::key("er"),
                ).at(crate::error::PathSegment::key("args")));
                None
            }
        };
        match errors.finish() {
            Ok(()) => match (device_id, pid) {
                (Some(a), Some(pid)) => Ok(StopProcessArgs { device_id: a, pid }),
                _ => Err(Error::validation("incomplete process stop request")),
            },
            Err(e) => Err(e),
        }
    }
}

/// What a file deletion command must hold: a request whose target is a
/// file with a path, the `er` extension naming admissible downstream
/// devices, and an entirely empty period.
pub open spec fn delete_admissible(m: MessageV) -> bool {
    match m.body {
        ContentV::Request(cmd) => (match cmd.target {
            TargetV::File(f) => f.path is Some,
            _ => false,
        }) && (er_ext_of(cmd) matches Some(ea) && ea.downstream_device matches Some(d)
            && downstream_ok(d)) && cmd.args.period.start_time.is_none()
            && cmd.args.period.stop_time.is_none() && cmd.args.period.duration.is_none(),
        _ => false,
    }
}

/// The arguments of a file deletion call, fanned out device by device.
pub struct DeleteFileArgs {
    pub file_path: String,
    pub target_devices: Vec<Aid>,
}

impl DeleteFileArgs {
    /// Validates a file deletion command.  Exactly the messages
    /// [`delete_admissible`] admits succeed; violations are gathered, each
    /// at its own field path.
    pub fn from_message(msg: &Message) -> (r: Result<Self, Error>)
        ensures
            delete_admissible(msg@) <==> r matches Ok(_),
            r matches Ok(a) ==> (match msg@.body {
                ContentV::Request(cmd) => (match cmd.target {
                    TargetV::File(f) => f.path == Some(a.file_path@),
                    _ => false,
                }) && (er_ext_of(cmd) matches Some(ea) && ea.downstream_device matches Some(d)
                    && a.target_devices.deep_view() == downstream_aids(d)),
                _ => false,
            }),
    {
        proof {
            reveal_strlit("er");
            assert(("er")@.len() == 2);
        }
        let Body::OpenC2(content) = &msg.body;
        let cmd = match content {
            Content::Request(cmd) => cmd,
            _ => {
                return Err(Error::validation("body is not a command"));
            }
        };
        let mut errors = Error::accumulator();
        let file_path: Option<String> = match &cmd.target {
            Target::File(f) => match &f.path {
                Some(p) => Some(p.clone()),
                None => {
                    errors.push(Error::validation("file path is required").at(
                        crate::error::PathSegment::key("path"),
                    ).at(crate::error::PathSegment::key("file")).at(crate::error::PathSegment::key("target")));
                    None
                }
            },
            _ => {
                errors.push(Error::validation("target must be a file").at(crate::error::PathSegment::key("target")));
                None
            }
        };
        let target_devices: Option<Vec<Aid>> = match cmd.args.extensions.get_raw("er") {
            Some(v) => match ErArgs::from_doc(v) {
                Ok(ea) => match &ea.downstream_device {
                    Some(d) => match aids_from_downstream_devices(d) {
                        Ok(aids) => Some(aids),
                        Err(e) => {
                            errors.push(e.at(crate::error::PathSegment::key("downstream_device")).at(crate::error::PathSegment::key("er")).at(
                                crate::error::PathSegment::key("args"),
                            ));
                            None
                        }
                    },
                    None => {
                        errors.push(Error::validation("downstream_device is required").at(
                            crate::error::PathSegment::key("downstream_device"),
                        ).at(crate::error::PathSegment::key("er")).at(crate::error::PathSegment::key("args")));
                        None
                    }
                },
                Err(e) => {
                    errors.push(e.at(crate::error::PathSegment::key("er")).at(crate::error::PathSegment::key("args")));
                    None
                }
            },
            None => {
                errors.push(Error::validation("the er extension is required").at(
                    crate::error::PathSegment::key("er"),
                ).at(crate::error::PathSegment::key("args")));
                None
            }
        };
        let pe = match cmd.args.period.require_empty() {
            Ok(()) => Ok(()),
            Err(e) => Err(e.at(crate::error::PathSegment::key("args"))),
        };
        errors.handle(pe);
        match errors.finish() {
            Ok(()) => match (file_path, target_devices) {
                (Some(file_path), Some(target_devices)) => Ok(
                    DeleteFileArgs { file_path, target_devices },
                ),
                _ => Err(Error::validation("incomplete file deletion request")),
            },
            Err(e) => Err(e),
        }
    }
}

} // verus!
