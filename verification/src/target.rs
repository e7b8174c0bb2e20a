//! The object of an action: builtin target kinds, the open profile-defined
//! extension point, and the key-only projection the registry indexes on.

use vstd::prelude::*;
use vstd::string::StrSliceExecFns;
use vstd::string::StringExecFns;

use crate::IsEmpty;
use crate::data::CommandId;
use crate::data::DomainName;
use crate::data::EmailAddr;
use crate::data::Feature;
use crate::data::Hashes;
use crate::data::HashesV;
use crate::data::Payload;
use crate::data::PayloadV;
use crate::data::Port;
use crate::error::ValidationError;
use crate::net::Ipv4Net;
use crate::net::Ipv6Net;
use crate::net::MacAddr;
use crate::net::ipv4net_wf;
use crate::net::ipv6net_wf;
use crate::nsid::Choice;
use crate::nsid::Nsid;
use crate::nsid::nsid_valid;
use crate::text::find_from;
use crate::text::lemma_find_from_exact;
use crate::text::lemma_find_from_props;
use crate::text::find_char;
use crate::value::Doc;
use crate::value::ValueV;
use crate::value::value_view;

verus! {

broadcast use vstd::string::group_string_axioms;

/// The model of an optional text field.
pub open spec fn opt_text(o: &Option<String>) -> Option<Seq<char>> {
    match o {
        Some(s) => Some(s@),
        None => None,
    }
}

// ---------------------------------------------------------------------------
// Builtin target payload shapes
// ---------------------------------------------------------------------------

/// Mathematical model of an artifact.
#[verifier::ext_equal]
pub struct ArtifactV {
    pub media_type: Option<Seq<char>>,
    pub payload: Option<PayloadV>,
    pub hashes: Option<HashesV>,
}

/// A content artifact: media type, payload, digests.
#[derive(Debug)]
pub struct Artifact {
    pub media_type: Option<String>,
    pub payload: Option<Payload>,
    pub hashes: Option<Hashes>,
}

impl View for Artifact {
    type V = ArtifactV;

    open spec fn view(&self) -> ArtifactV {
        ArtifactV {
            media_type: opt_text(&self.media_type),
            payload: match &self.payload {
                Some(p) => Some(p@),
                None => None,
            },
            hashes: match &self.hashes {
                Some(h) => Some(h@),
                None => None,
            },
        }
    }
}

/// Mathematical model of a file.
#[verifier::ext_equal]
pub struct FileV {
    pub name: Option<Seq<char>>,
    pub hashes: Option<HashesV>,
    pub path: Option<Seq<char>>,
}

/// A file, named by name, digests, or path.
#[derive(Debug)]
pub struct File {
    pub name: Option<String>,
    pub hashes: Option<Hashes>,
    pub path: Option<String>,
}

impl View for File {
    type V = FileV;

    open spec fn view(&self) -> FileV {
        FileV {
            name: opt_text(&self.name),
            hashes: match &self.hashes {
                Some(h) => Some(h@),
                None => None,
            },
            path: opt_text(&self.path),
        }
    }
}

impl IsEmpty for File {
    open spec fn is_empty_spec(&self) -> bool {
        self@.name.is_none() && (match self@.hashes {
            Some(h) => h == (HashesV { md5: None, sha1: None, sha256: None }),
            None => true,
        }) && self@.path.is_none()
    }

    fn is_empty(&self) -> (r: bool) {
        self.name.is_none() && (match &self.hashes {
            Some(h) => h.is_empty(),
            None => true,
        }) && self.path.is_none()
    }
}

/// Mathematical model of a device.
#[verifier::ext_equal]
pub struct DeviceV {
    pub hostname: Option<Seq<char>>,
    pub idn_hostname: Option<Seq<char>>,
    pub device_id: Option<Seq<char>>,
}

/// A device, named by hostname or device identifier.
#[derive(Debug)]
pub struct Device {
    pub hostname: Option<String>,
    pub idn_hostname: Option<String>,
    pub device_id: Option<String>,
}

impl View for Device {
    type V = DeviceV;

    open spec fn view(&self) -> DeviceV {
        DeviceV {
            hostname: opt_text(&self.hostname),
            idn_hostname: opt_text(&self.idn_hostname),
            device_id: opt_text(&self.device_id),
        }
    }
}

impl Device {
    /// A device named only by its device identifier.
    pub fn with_device_id(value: &str) -> (r: Self)
        ensures
            r@ == (DeviceV { hostname: None, idn_hostname: None, device_id: Some(value@) }),
    {
        Device { hostname: None, idn_hostname: None, device_id: Some(String::from_str(value)) }
    }

    /// A device named only by its hostname.
    pub fn with_hostname(value: &str) -> (r: Self)
        ensures
            r@ == (DeviceV { hostname: Some(value@), idn_hostname: None, device_id: None }),
    {
        Device { hostname: Some(String::from_str(value)), idn_hostname: None, device_id: None }
    }
}

impl Clone for Device {
    fn clone(&self) -> (r: Self)
        ensures
            r@ == self@,
    {
        Device {
            hostname: match &self.hostname {
                Some(s) => Some(s.clone()),
                None => None,
            },
            idn_hostname: match &self.idn_hostname {
                Some(s) => Some(s.clone()),
                None => None,
            },
            device_id: match &self.device_id {
                Some(s) => Some(s.clone()),
                None => None,
            },
        }
    }
}

/// A transport protocol over IP.
#[derive(Debug, Clone, Copy, PartialEq, Eq, Structural, Hash)]
pub enum L4Protocol {
    Tcp,
    Udp,
    Icmp,
    Other(u8),
}

/// An IPv4 connection five-tuple, each part optional.
#[derive(Debug, Clone, Copy, PartialEq, Eq, Hash)]
pub struct Ipv4Connection {
    pub src_addr: Option<Ipv4Net>,
    pub src_port: Option<Port>,
    pub dst_addr: Option<Ipv4Net>,
    pub dst_port: Option<Port>,
    pub protocol: Option<L4Protocol>,
}

/// An IPv6 connection five-tuple, each part optional.
#[derive(Debug, Clone, Copy, PartialEq, Eq, Hash)]
pub struct Ipv6Connection {
    pub src_addr: Option<Ipv6Net>,
    pub src_port: Option<Port>,
    pub dst_addr: Option<Ipv6Net>,
    pub dst_port: Option<Port>,
    pub protocol: Option<L4Protocol>,
}

/// Mathematical model of a process.
#[verifier::ext_equal]
pub enum ProcessV {
    Node {
        pid: Option<u32>,
        name: Option<Seq<char>>,
        cwd: Option<Seq<char>>,
        executable: Option<FileV>,
        parent: Option<Box<ProcessV>>,
        command_line: Option<Seq<char>>,
    },
}

/// A process, named by identifier, executable, or ancestry.
#[derive(Debug)]
pub struct Process {
    pub pid: Option<u32>,
    pub name: Option<String>,
    pub cwd: Option<String>,
    pub executable: Option<File>,
    pub parent: Option<Box<Process>>,
    pub command_line: Option<String>,
}

impl View for Process {
    type V = ProcessV;

    open spec fn view(&self) -> ProcessV {
        process_view(self)
    }
}

/// The model of one process, following the parent chain.
pub open spec fn process_view(p: &Process) -> ProcessV
    decreases p,
{
    ProcessV::Node {
        pid: p.pid,
        name: opt_text(&p.name),
        cwd: opt_text(&p.cwd),
        executable: match &p.executable {
            Some(f) => Some(f@),
            None => None,
        },
        parent: match &p.parent {
            Some(b) => Some(Box::new(process_view(&**b))),
            None => None,
        },
        command_line: opt_text(&p.command_line),
    }
}

// ---------------------------------------------------------------------------
// The target type projection
// ---------------------------------------------------------------------------

/// Mathematical model of a target kind.
#[verifier::ext_equal]
pub enum TargetTypeV {
    Artifact,
    Command,
    File,
    Device,
    DomainName,
    EmailAddr,
    Features,
    Ipv4Net,
    Ipv6Net,
    Ipv4Connection,
    Ipv6Connection,
    MacAddr,
    Process,
    Uri,
    ProfileDefined { profile: Seq<char>, name: Seq<char> },
}

/// A target kind defined by a profile: the namespace and the type name.
#[derive(Debug)]
pub struct ProfileTargetType {
    pub profile: Nsid,
    pub name: String,
}

impl ProfileTargetType {
    /// The kind with the given namespace and type name.
    pub fn new(profile: Nsid, name: String) -> (r: Self)
        ensures
            r.profile@ == profile@,
            r.name@ == name@,
    {
        ProfileTargetType { profile, name }
    }
}

impl Clone for ProfileTargetType {
    fn clone(&self) -> (r: Self)
        ensures
            r.profile@ == self.profile@,
            r.name@ == self.name@,
    {
        ProfileTargetType { profile: self.profile.clone(), name: self.name.clone() }
    }
}

/// The key-only projection of a target: what it is, without its payload.
/// Two profile-defined kinds are equal exactly when both the profile and
/// the type name match.
#[derive(Debug)]
pub enum TargetType {
    Artifact,
    Command,
    File,
    Device,
    DomainName,
    EmailAddr,
    Features,
    Ipv4Net,
    Ipv6Net,
    Ipv4Connection,
    Ipv6Connection,
    MacAddr,
    Process,
    Uri,
    ProfileDefined(ProfileTargetType),
}

impl View for TargetType {
    type V = TargetTypeV;

    open spec fn view(&self) -> TargetTypeV {
        match self {
            TargetType::Artifact => TargetTypeV::Artifact,
            TargetType::Command => TargetTypeV::Command,
            TargetType::File => TargetTypeV::File,
            TargetType::Device => TargetTypeV::Device,
            TargetType::DomainName => TargetTypeV::DomainName,
            TargetType::EmailAddr => TargetTypeV::EmailAddr,
            TargetType::Features => TargetTypeV::Features,
            TargetType::Ipv4Net => TargetTypeV::Ipv4Net,
            TargetType::Ipv6Net => TargetTypeV::Ipv6Net,
            TargetType::Ipv4Connection => TargetTypeV::Ipv4Connection,
            TargetType::Ipv6Connection => TargetTypeV::Ipv6Connection,
            TargetType::MacAddr => TargetTypeV::MacAddr,
            TargetType::Process => TargetTypeV::Process,
            TargetType::Uri => TargetTypeV::Uri,
            TargetType::ProfileDefined(p) => TargetTypeV::ProfileDefined {
                profile: p.profile@,
                name: p.name@,
            },
        }
    }
}

impl DeepView for TargetType {
    type V = TargetTypeV;

    open spec fn deep_view(&self) -> TargetTypeV {
        self@
    }
}

impl Clone for TargetType {
    fn clone(&self) -> (r: Self)
        ensures
            r@ == self@,
    {
        match self {
            TargetType::Artifact => TargetType::Artifact,
            TargetType::Command => TargetType::Command,
            TargetType::File => TargetType::File,
            TargetType::Device => TargetType::Device,
            TargetType::DomainName => TargetType::DomainName,
            TargetType::EmailAddr => TargetType::EmailAddr,
            TargetType::Features => TargetType::Features,
            TargetType::Ipv4Net => TargetType::Ipv4Net,
            TargetType::Ipv6Net => TargetType::Ipv6Net,
            TargetType::Ipv4Connection => TargetType::Ipv4Connection,
            TargetType::Ipv6Connection => TargetType::Ipv6Connection,
            TargetType::MacAddr => TargetType::MacAddr,
            TargetType::Process => TargetType::Process,
            TargetType::Uri => TargetType::Uri,
            TargetType::ProfileDefined(p) => TargetType::ProfileDefined(p.clone()),
        }
    }
}

impl PartialEq for TargetType {
    fn eq(&self, other: &TargetType) -> (r: bool) {
        match (self, other) {
            (TargetType::Artifact, TargetType::Artifact) => true,
            (TargetType::Command, TargetType::Command) => true,
            (TargetType::File, TargetType::File) => true,
            (TargetType::Device, TargetType::Device) => true,
            (TargetType::DomainName, TargetType::DomainName) => true,
            (TargetType::EmailAddr, TargetType::EmailAddr) => true,
            (TargetType::Features, TargetType::Features) => true,
            (TargetType::Ipv4Net, TargetType::Ipv4Net) => true,
            (TargetType::Ipv6Net, TargetType::Ipv6Net) => true,
            (TargetType::Ipv4Connection, TargetType::Ipv4Connection) => true,
            (TargetType::Ipv6Connection, TargetType::Ipv6Connection) => true,
            (TargetType::MacAddr, TargetType::MacAddr) => true,
            (TargetType::Process, TargetType::Process) => true,
            (TargetType::Uri, TargetType::Uri) => true,
            (TargetType::ProfileDefined(a), TargetType::ProfileDefined(b)) => {
                let pe = crate::str_eq(a.profile.as_str(), b.profile.as_str());
                let ne = crate::str_eq(a.name.as_str(), b.name.as_str());
                pe && ne
            }
            _ => false,
        }
    }
}

impl Eq for TargetType {
}

impl vstd::std_specs::cmp::PartialEqSpecImpl for TargetType {
    open spec fn obeys_eq_spec() -> bool {
        true
    }

    open spec fn eq_spec(&self, other: &TargetType) -> bool {
        self@ == other@
    }
}

/// The lowercase wire name of a target kind; a profile-defined kind is
/// written `profile/name`.
pub open spec fn target_type_text(t: TargetTypeV) -> Seq<char> {
    match t {
        TargetTypeV::Artifact => "artifact"@,
        TargetTypeV::Command => "command"@,
        TargetTypeV::File => "file"@,
        TargetTypeV::Device => "device"@,
        TargetTypeV::DomainName => "domain_name"@,
        TargetTypeV::EmailAddr => "email_addr"@,
        TargetTypeV::Features => "features"@,
        TargetTypeV::Ipv4Net => "ipv4_net"@,
        TargetTypeV::Ipv6Net => "ipv6_net"@,
        TargetTypeV::Ipv4Connection => "ipv4_connection"@,
        TargetTypeV::Ipv6Connection => "ipv6_connection"@,
        TargetTypeV::MacAddr => "mac_addr"@,
        TargetTypeV::Process => "process"@,
        TargetTypeV::Uri => "uri"@,
        TargetTypeV::ProfileDefined { profile, name } => profile + seq!['/'] + name,
    }
}

/// The kind a wire name denotes: with a slash, a profile-defined kind split
/// at the first slash (whose namespace must be valid); without one, a
/// builtin kind.
pub open spec fn parse_target_type(s: Seq<char>) -> Option<TargetTypeV> {
    match find_from(s, '/', 0) {
        Some(i) => {
            let profile = s.take(i);
            let name = s.skip(i + 1);
            if nsid_valid(profile) {
                Some(TargetTypeV::ProfileDefined { profile, name })
            } else {
                None
            }
        }
        None => {
            if s == "artifact"@ { Some(TargetTypeV::Artifact) }
            else if s == "command"@ { Some(TargetTypeV::Command) }
            else if s == "file"@ { Some(TargetTypeV::File) }
            else if s == "device"@ { Some(TargetTypeV::Device) }
            else if s == "domain_name"@ { Some(TargetTypeV::DomainName) }
            else if s == "email_addr"@ { Some(TargetTypeV::EmailAddr) }
            else if s == "features"@ { Some(TargetTypeV::Features) }
            else if s == "ipv4_net"@ { Some(TargetTypeV::Ipv4Net) }
            else if s == "ipv6_net"@ { Some(TargetTypeV::Ipv6Net) }
            else if s == "ipv4_connection"@ { Some(TargetTypeV::Ipv4Connection) }
            else if s == "ipv6_connection"@ { Some(TargetTypeV::Ipv6Connection) }
            else if s == "mac_addr"@ { Some(TargetTypeV::MacAddr) }
            else if s == "process"@ { Some(TargetTypeV::Process) }
            else if s == "uri"@ { Some(TargetTypeV::Uri) }
            else { None }
        }
    }
}

/// A profile-defined kind round-trips through its text only when the
/// namespace is valid and free of slashes.
pub open spec fn target_type_wf(t: TargetTypeV) -> bool {
    match t {
        TargetTypeV::ProfileDefined { profile, name } => nsid_valid(profile) && (forall|j: int|
            0 <= j < profile.len() ==> profile[j] != '/'),
        _ => true,
    }
}

impl TargetType {
    /// Renders the kind's wire name.
    pub fn to_text(&self) -> (r: String)
        ensures
            r@ == target_type_text(self@),
    {
        match self {
            TargetType::Artifact => String::from_str("artifact"),
            TargetType::Command => String::from_str("command"),
            TargetType::File => String::from_str("file"),
            TargetType::Device => String::from_str("device"),
            TargetType::DomainName => String::from_str("domain_name"),
            TargetType::EmailAddr => String::from_str("email_addr"),
            TargetType::Features => String::from_str("features"),
            TargetType::Ipv4Net => String::from_str("ipv4_net"),
            TargetType::Ipv6Net => String::from_str("ipv6_net"),
            TargetType::Ipv4Connection => String::from_str("ipv4_connection"),
            TargetType::Ipv6Connection => String::from_str("ipv6_connection"),
            TargetType::MacAddr => String::from_str("mac_addr"),
            TargetType::Process => String::from_str("process"),
            TargetType::Uri => String::from_str("uri"),
            TargetType::ProfileDefined(p) => {
                let mut out = p.profile.to_text();
                out.append("/");
                out.append(p.name.as_str());
                proof {
                    reveal_strlit("/");
                    assert(("/")@ =~= seq!['/']);
                    assert(out@ =~= target_type_text(self@));
                }
                out
            }
        }
    }

    /// Parses a wire name; see [`parse_target_type`] for the accepted shape.
    pub fn from_str(s: &str) -> (r: Result<Self, ValidationError>)
        ensures
            match r {
                Ok(t) => parse_target_type(s@) == Some(t@),
                Err(_) => parse_target_type(s@).is_none(),
            },
    {
        let n = s.unicode_len();
        match find_char(s, '/', 0) {
            Some(i) => {
                let profile_part = s.substring_char(0, i);
                let name_part = s.substring_char(i + 1, n);
                proof {
                    assert(profile_part@ =~= s@.take(i as int));
                    assert(name_part@ =~= s@.skip(i + 1));
                }
                match Nsid::from_str(profile_part) {
                    Ok(profile) => Ok(TargetType::ProfileDefined(ProfileTargetType {
                        profile,
                        name: String::from_str(name_part),
                    })),
                    Err(e) => Err(e),
                }
            }
            None => {
                if crate::str_eq(s, "artifact") { Ok(TargetType::Artifact) }
                else if crate::str_eq(s, "command") { Ok(TargetType::Command) }
                else if crate::str_eq(s, "file") { Ok(TargetType::File) }
                else if crate::str_eq(s, "device") { Ok(TargetType::Device) }
                else if crate::str_eq(s, "domain_name") { Ok(TargetType::DomainName) }
                else if crate::str_eq(s, "email_addr") { Ok(TargetType::EmailAddr) }
                else if crate::str_eq(s, "features") { Ok(TargetType::Features) }
                else if crate::str_eq(s, "ipv4_net") { Ok(TargetType::Ipv4Net) }
                else if crate::str_eq(s, "ipv6_net") { Ok(TargetType::Ipv6Net) }
                else if crate::str_eq(s, "ipv4_connection") { Ok(TargetType::Ipv4Connection) }
                else if crate::str_eq(s, "ipv6_connection") { Ok(TargetType::Ipv6Connection) }
                else if crate::str_eq(s, "mac_addr") { Ok(TargetType::MacAddr) }
                else if crate::str_eq(s, "process") { Ok(TargetType::Process) }
                else if crate::str_eq(s, "uri") { Ok(TargetType::Uri) }
                else { Err(ValidationError::new("unknown target type")) }
            }
        }
    }
}

/// Rendering a well-formed target kind and parsing it gives the kind back.
pub proof fn lemma_target_type_round_trip(t: TargetTypeV)
    requires
        target_type_wf(t),
    ensures
        parse_target_type(target_type_text(t)) == Some(t),
{
    reveal_strlit("artifact");
    reveal_strlit("command");
    reveal_strlit("file");
    reveal_strlit("device");
    reveal_strlit("domain_name");
    reveal_strlit("email_addr");
    reveal_strlit("features");
    reveal_strlit("ipv4_net");
    reveal_strlit("ipv6_net");
    reveal_strlit("ipv4_connection");
    reveal_strlit("ipv6_connection");
    reveal_strlit("mac_addr");
    reveal_strlit("process");
    reveal_strlit("uri");
    assert(("artifact")@.len() == 8);
    assert(("command")@.len() == 7);
    assert(("file")@.len() == 4);
    assert(("device")@.len() == 6);
    assert(("domain_name")@.len() == 11);
    assert(("email_addr")@.len() == 10);
    assert(("features")@.len() == 8);
    assert(("ipv4_net")@.len() == 8);
    assert(("ipv6_net")@.len() == 8);
    assert(("ipv4_connection")@.len() == 15);
    assert(("ipv6_connection")@.len() == 15);
    assert(("mac_addr")@.len() == 8);
    assert(("process")@.len() == 7);
    assert(("uri")@.len() == 3);
    assert(("artifact")@[0] == 'a');
    assert(("features")@[0] == 'f');
    assert(("ipv4_net")@[0] == 'i');
    assert(("ipv6_net")@[0] == 'i');
    assert(("mac_addr")@[0] == 'm');
    assert(("ipv4_net")@[3] == '4');
    assert(("ipv6_net")@[3] == '6');
    assert(("ipv4_connection")@[3] == '4');
    assert(("ipv6_connection")@[3] == '6');
    match t {
        TargetTypeV::ProfileDefined { profile, name } => {
            let text = profile + seq!['/'] + name;
            assert(text[profile.len() as int] == '/');
            assert(forall|j: int| 0 <= j < profile.len() ==> text[j] == profile[j]);
            lemma_find_from_exact(text, '/', profile.len() as int);
            assert(text.take(profile.len() as int) =~= profile);
            assert(text.skip(profile.len() as int + 1) =~= name);
        }
        _ => {
            let text = target_type_text(t);
            lemma_find_from_props(text, '/', 0);
            assert forall|j: int| 0 <= j < text.len() implies text[j] != '/' by {
                assert(text[j] != '/');
            }
            match find_from(text, '/', 0) {
                Some(i) => {
                    assert(text[i] != '/');
                }
                None => {}
            }
        }
    }
}

// ---------------------------------------------------------------------------
// Targets
// ---------------------------------------------------------------------------

/// Mathematical model of a target.
#[verifier::ext_equal]
pub enum TargetV {
    Artifact(ArtifactV),
    Command(Seq<char>),
    Device(DeviceV),
    DomainName(Seq<char>),
    EmailAddr(Seq<char>),
    Features(Seq<Feature>),
    File(FileV),
    Ipv4Net(Ipv4Net),
    Ipv6Net(Ipv6Net),
    Ipv4Connection(Ipv4Connection),
    Ipv6Connection(Ipv6Connection),
    MacAddr(MacAddr),
    Process(ProcessV),
    Uri(Seq<char>),
    ProfileDefined { profile: Seq<char>, name: Seq<char>, payload: ValueV },
}

/// The object of an action: one of the builtin kinds, or a payload defined
/// by a profile under its own namespace and type name.
#[derive(Debug)]
pub enum Target {
    Artifact(Artifact),
    Command(CommandId),
    Device(Device),
    DomainName(DomainName),
    EmailAddr(EmailAddr),
    Features(Vec<Feature>),
    File(File),
    Ipv4Net(Ipv4Net),
    Ipv6Net(Ipv6Net),
    Ipv4Connection(Ipv4Connection),
    Ipv6Connection(Ipv6Connection),
    MacAddr(MacAddr),
    Process(Process),
    Uri(String),
    ProfileDefined(Choice<Nsid, Choice<String, Doc>>),
}

impl View for Target {
    type V = TargetV;

    open spec fn view(&self) -> TargetV {
        match self {
            Target::Artifact(a) => TargetV::Artifact(a@),
            Target::Command(c) => TargetV::Command(c@),
            Target::Device(d) => TargetV::Device(d@),
            Target::DomainName(d) => TargetV::DomainName(d@),
            Target::EmailAddr(e) => TargetV::EmailAddr(e@),
            Target::Features(f) => TargetV::Features(f@),
            Target::File(f) => TargetV::File(f@),
            Target::Ipv4Net(n) => TargetV::Ipv4Net(*n),
            Target::Ipv6Net(n) => TargetV::Ipv6Net(*n),
            Target::Ipv4Connection(c) => TargetV::Ipv4Connection(*c),
            Target::Ipv6Connection(c) => TargetV::Ipv6Connection(*c),
            Target::MacAddr(m) => TargetV::MacAddr(*m),
            Target::Process(p) => TargetV::Process(p@),
            Target::Uri(u) => TargetV::Uri(u@),
            Target::ProfileDefined(c) => TargetV::ProfileDefined {
                profile: c.key@,
                name: c.value.key@,
                payload: c.value.value@,
            },
        }
    }
}

/// The key-only projection of a target model.
pub open spec fn kind_of(t: TargetV) -> TargetTypeV {
    match t {
        TargetV::Artifact(_) => TargetTypeV::Artifact,
        TargetV::Command(_) => TargetTypeV::Command,
        TargetV::Device(_) => TargetTypeV::Device,
        TargetV::DomainName(_) => TargetTypeV::DomainName,
        TargetV::EmailAddr(_) => TargetTypeV::EmailAddr,
        TargetV::Features(_) => TargetTypeV::Features,
        TargetV::File(_) => TargetTypeV::File,
        TargetV::Ipv4Net(_) => TargetTypeV::Ipv4Net,
        TargetV::Ipv6Net(_) => TargetTypeV::Ipv6Net,
        TargetV::Ipv4Connection(_) => TargetTypeV::Ipv4Connection,
        TargetV::Ipv6Connection(_) => TargetTypeV::Ipv6Connection,
        TargetV::MacAddr(_) => TargetTypeV::MacAddr,
        TargetV::Process(_) => TargetTypeV::Process,
        TargetV::Uri(_) => TargetTypeV::Uri,
        TargetV::ProfileDefined { profile, name, payload } => TargetTypeV::ProfileDefined {
            profile,
            name,
        },
    }
}

impl Target {
    /// The key-only projection used for registry lookup: a pure reading of
    /// the variant, with the payload dropped.
    pub fn kind(&self) -> (r: TargetType)
        ensures
            r@ == kind_of(self@),
    {
        match self {
            Target::Artifact(_) => TargetType::Artifact,
            Target::Command(_) => TargetType::Command,
            Target::Device(_) => TargetType::Device,
            Target::DomainName(_) => TargetType::DomainName,
            Target::EmailAddr(_) => TargetType::EmailAddr,
            Target::Features(_) => TargetType::Features,
            Target::File(_) => TargetType::File,
            Target::Ipv4Net(_) => TargetType::Ipv4Net,
            Target::Ipv6Net(_) => TargetType::Ipv6Net,
            Target::Ipv4Connection(_) => TargetType::Ipv4Connection,
            Target::Ipv6Connection(_) => TargetType::Ipv6Connection,
            Target::MacAddr(_) => TargetType::MacAddr,
            Target::Process(_) => TargetType::Process,
            Target::Uri(_) => TargetType::Uri,
            Target::ProfileDefined(c) => TargetType::ProfileDefined(
                ProfileTargetType { profile: c.key.clone(), name: c.value.key.clone() },
            ),
        }
    }

    /// A profile-defined target from its namespace, type name, and payload.
    pub fn profile_defined(profile: Nsid, kind_name: String, value: Doc) -> (r: Self)
        ensures
            r@ == (TargetV::ProfileDefined {
                profile: profile@,
                name: kind_name@,
                payload: value@,
            }),
    {
        Target::ProfileDefined(Choice::new(profile, Choice::new(kind_name, value)))
    }
}

/// A target is well-formed when its addresses are and, for a
/// profile-defined target, the namespace is valid.
pub open spec fn target_wf(t: TargetV) -> bool {
    match t {
        TargetV::Ipv4Net(n) => ipv4net_wf(n),
        TargetV::Ipv6Net(n) => ipv6net_wf(n),
        TargetV::Ipv4Connection(c) => (match c.src_addr {
            Some(n) => ipv4net_wf(n),
            None => true,
        }) && (match c.dst_addr {
            Some(n) => ipv4net_wf(n),
            None => true,
        }),
        TargetV::Ipv6Connection(c) => (match c.src_addr {
            Some(n) => ipv6net_wf(n),
            None => true,
        }) && (match c.dst_addr {
            Some(n) => ipv6net_wf(n),
            None => true,
        }),
        TargetV::ProfileDefined { profile, name, payload } => nsid_valid(profile),
        _ => true,
    }
}

impl crate::error::Error {
    /// The failure for an action-target pair nobody serves, naming the
    /// pair in its message.
    pub fn not_implemented_pair(action: crate::action::Action, target: &TargetType) -> (r:
        Self)
        ensures
            r@ == crate::error::ErrorV::NotImplemented(
                crate::error::NotImplementedErrorV {
                    message: "unsupported action-target pair: "@ + crate::action::action_text(
                        action,
                    ) + " - "@ + target_type_text(target@),
                    path: None,
                },
            ),
    {
        let mut msg = <String as vstd::string::StringExecFns>::from_str(
            "unsupported action-target pair: ",
        );
        vstd::string::StringExecFns::append(&mut msg, action.as_str());
        vstd::string::StringExecFns::append(&mut msg, " - ");
        vstd::string::StringExecFns::append(&mut msg, target.to_text().as_str());
        crate::error::Error::not_implemented(msg.as_str())
    }
}

} // verus!
