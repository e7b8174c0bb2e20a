//! The wire codec: converts every message shape to and from the document
//! tree, and proves that decoding an encoded value gives the value back.

use vstd::prelude::*;
use vstd::string::StringExecFns;

use crate::data::Hashes;
use crate::target::Artifact;
use crate::target::ArtifactV;
use crate::target::Device;
use crate::target::DeviceV;
use crate::target::File;
use crate::target::FileV;
use crate::target::Process;
use crate::target::ProcessV;
use crate::target::Ipv4Connection;
use crate::target::Ipv6Connection;
use crate::target::L4Protocol;
use crate::net::Ipv4Net;
use crate::net::Ipv6Net;
use crate::net::ipv4_text;
use crate::net::ipv6_text;
use crate::net::ipv4net_wf;
use crate::net::ipv6net_wf;
use crate::net::parse_ipv4net;
use crate::net::parse_ipv6net;
use crate::net::lemma_ipv4_round_trip;
use crate::net::lemma_ipv6_round_trip;
use crate::data::Port;
use crate::data::Feature;
use crate::data::feature_text;
use crate::data::parse_feature;
use crate::data::DomainName;
use crate::data::EmailAddr;
use crate::net::MacAddr;
use crate::net::mac_text;
use crate::net::parse_mac;
use crate::nsid::Choice;
use crate::nsid::Nsid;
use crate::nsid::nsid_valid;
use crate::target::Target;
use crate::target::TargetV;
use crate::target::target_wf;
use crate::target::TargetType;
use crate::target::TargetTypeV;
use crate::target::target_type_text;
use crate::target::target_type_wf;
use crate::target::parse_target_type;
use crate::action::Action;
use crate::action::action_text;
use crate::action::parse_action;
use crate::version::Version;
use crate::version::version_text;
use crate::version::parse_version;
use crate::response::ActionTargets;
use crate::response::ActionTargetsV;
use crate::response::at_entries_view;
use crate::response::lemma_at_entries_view;
use crate::response::nsids_view;
use crate::response::lemma_nsids_view;
use crate::response::Results;
use crate::response::ResultsV;
use crate::response::status_code_num;
use crate::response::parse_status_code;
use crate::response::StatusCode;
use crate::response::Response;
use crate::response::ResponseV;
use crate::command::Command;
use crate::command::CommandV;
use crate::message::Body;
use crate::message::Content;
use crate::message::ContentV;
use crate::message::Headers;
use crate::message::HeadersV;
use crate::message::Message;
use crate::message::MessageV;
use crate::message::Notification;
use crate::message::NotificationV;
use crate::IsEmpty;
use crate::command::Args;
use crate::command::ArgsV;
use crate::command::Period;
use crate::data::Extensions;
use crate::data::ResponseType;
use crate::data::response_type_text;
use crate::data::parse_response_type;
use crate::time::DateTime;
use crate::time::Duration;
use crate::data::HashesV;
use crate::data::Payload;
use crate::data::PayloadV;
use crate::error::Error;
use crate::value::Doc;
use crate::value::ValueV;
use crate::value::entries_view;
use crate::value::lemma_entries_view;
use crate::value::lemma_obj_get_append;
use crate::value::lemma_vals_view;
use crate::value::obj_find;
use crate::value::obj_get;
use crate::value::vals_view;

verus! {

broadcast use vstd::string::group_string_axioms;

// ---------------------------------------------------------------------------
// Shared helpers
// ---------------------------------------------------------------------------

/// A field list holding one entry when the value is present.
pub open spec fn opt_field(key: Seq<char>, v: Option<ValueV>) -> Seq<(Seq<char>, ValueV)> {
    match v {
        Some(v) => seq![(key, v)],
        None => Seq::empty(),
    }
}

/// A field list holding exactly one entry.
pub open spec fn one_field(key: Seq<char>, v: ValueV) -> Seq<(Seq<char>, ValueV)> {
    seq![(key, v)]
}

/// The text inside a value, if it is text.
pub open spec fn dec_text(v: ValueV) -> Option<Seq<char>> {
    match v {
        ValueV::Str(s) => Some(s),
        _ => None,
    }
}

/// The integer inside a value, if it is one.
pub open spec fn dec_int(v: ValueV) -> Option<int> {
    match v {
        ValueV::Int(n) => Some(n),
        _ => None,
    }
}

/// The fields inside a value, if it is a field map.
pub open spec fn dec_obj(v: ValueV) -> Option<Seq<(Seq<char>, ValueV)>> {
    match v {
        ValueV::Obj(fields) => Some(fields),
        _ => None,
    }
}

/// The items inside a value, if it is a list.
pub open spec fn dec_arr(v: ValueV) -> Option<Seq<ValueV>> {
    match v {
        ValueV::Arr(items) => Some(items),
        _ => None,
    }
}

/// An optional text field of a field map: absent is fine, non-text fails.
pub open spec fn get_opt_text(fields: Seq<(Seq<char>, ValueV)>, key: Seq<char>) -> Option<
    Option<Seq<char>>,
> {
    match obj_get(fields, key) {
        Some(v) => match dec_text(v) {
            Some(s) => Some(Some(s)),
            None => None,
        },
        None => Some(None),
    }
}

/// Reads an optional text field.
pub fn read_opt_text(fields: &Vec<(String, Doc)>, key: &str) -> (r: Result<
    Option<String>,
    Error,
>)
    ensures
        match r {
            Ok(o) => get_opt_text(entries_view(fields@), key@) == Some(
                crate::target::opt_text(&o),
            ),
            Err(_) => get_opt_text(entries_view(fields@), key@).is_none(),
        },
{
    match obj_find(fields, key) {
        Some(v) => match v {
            Doc::Str(s) => Ok(Some(s.clone())),
            _ => Err(Error::codec("expected text")),
        },
        None => Ok(None),
    }
}

/// What looking a key up in an optional singleton field yields.
pub proof fn lemma_opt_field_get(key: Seq<char>, v: Option<ValueV>, k: Seq<char>)
    ensures
        obj_get(opt_field(key, v), k) == (if k == key {
            v
        } else {
            None::<ValueV>
        }),
{
    match v {
        Some(vv) => {
            let s = seq![(key, vv)];
            assert(s.subrange(1, 1) =~= Seq::<(Seq<char>, ValueV)>::empty());
            if k != key {
                assert(obj_get(s, k) == obj_get(s.subrange(1, 1), k));
            }
        }
        None => {}
    }
}

/// Appends one field.
pub fn push_field(fields: &mut Vec<(String, Doc)>, key: &str, v: Doc)
    ensures
        entries_view(final(fields)@) == entries_view(old(fields)@) + seq![(key@, v@)],
{
    fields.push((String::from_str(key), v));
    proof {
        lemma_entries_view(fields@);
        lemma_entries_view(old(fields)@);
        assert(entries_view(fields@) =~= entries_view(old(fields)@) + seq![(key@, v@)]);
    }
}

// ---------------------------------------------------------------------------
// Hashes
// ---------------------------------------------------------------------------

/// The wire form of a hash set.
pub open spec fn enc_hashes(h: HashesV) -> ValueV {
    ValueV::Obj(
        opt_field("md5"@, enc_opt_text(h.md5)) + opt_field("sha1"@, enc_opt_text(h.sha1))
            + opt_field("sha256"@, enc_opt_text(h.sha256)),
    )
}

/// An optional text value.
pub open spec fn enc_opt_text(s: Option<Seq<char>>) -> Option<ValueV> {
    match s {
        Some(s) => Some(ValueV::Str(s)),
        None => None,
    }
}

/// The hash set a value names, if it is well-formed.
pub open spec fn dec_hashes(v: ValueV) -> Option<HashesV> {
    match dec_obj(v) {
        Some(fields) => {
            match (
                get_opt_text(fields, "md5"@),
                get_opt_text(fields, "sha1"@),
                get_opt_text(fields, "sha256"@),
            ) {
                (Some(md5), Some(sha1), Some(sha256)) => Some(HashesV { md5, sha1, sha256 }),
                _ => None,
            }
        }
        None => None,
    }
}

impl Hashes {
    /// Converts to the wire form.
    pub fn to_value(&self) -> (r: Doc)
        ensures
            r@ == enc_hashes(self@),
    {
        let mut fields: Vec<(String, Doc)> = Vec::new();
        proof {
            lemma_entries_view(fields@);
        }
        match &self.md5 {
            Some(s) => push_field(&mut fields, "md5", Doc::Str(s.clone())),
            None => (),
        }
        match &self.sha1 {
            Some(s) => push_field(&mut fields, "sha1", Doc::Str(s.clone())),
            None => (),
        }
        match &self.sha256 {
            Some(s) => push_field(&mut fields, "sha256", Doc::Str(s.clone())),
            None => (),
        }
        let r = Doc::Obj(fields);
        proof {
            assert(entries_view(fields@) =~= opt_field("md5"@, enc_opt_text(self@.md5))
                + opt_field("sha1"@, enc_opt_text(self@.sha1))
                + opt_field("sha256"@, enc_opt_text(self@.sha256)));
        }
        r
    }

    /// Reads the wire form back.
    pub fn from_value(v: &Doc) -> (r: Result<Self, Error>)
        ensures
            match r {
                Ok(h) => dec_hashes(v@) == Some(h@),
                Err(_) => dec_hashes(v@).is_none(),
            },
    {
        let fields = match v {
            Doc::Obj(fields) => fields,
            _ => {
                return Err(Error::codec("expected a hashes map"));
            }
        };
        let md5 = match read_opt_text(fields, "md5") {
            Ok(o) => o,
            Err(e) => {
                return Err(e);
            }
        };
        let sha1 = match read_opt_text(fields, "sha1") {
            Ok(o) => o,
            Err(e) => {
                return Err(e);
            }
        };
        let sha256 = match read_opt_text(fields, "sha256") {
            Ok(o) => o,
            Err(e) => {
                return Err(e);
            }
        };
        Ok(Hashes { md5, sha1, sha256 })
    }
}

/// Helper facts for a three-key map: each key resolves to its own field.
proof fn lemma_hashes_fields(h: HashesV)
    ensures
        dec_hashes(enc_hashes(h)) == Some(h),
{
    reveal_strlit("md5");
    reveal_strlit("sha1");
    reveal_strlit("sha256");
    assert(("md5")@.len() == 3);
    assert(("sha1")@.len() == 4);
    assert(("sha256")@.len() == 6);
    let f1 = opt_field("md5"@, enc_opt_text(h.md5));
    let f2 = opt_field("sha1"@, enc_opt_text(h.sha1));
    let f3 = opt_field("sha256"@, enc_opt_text(h.sha256));
    lemma_opt_field_get("md5"@, enc_opt_text(h.md5), "md5"@);
    lemma_opt_field_get("md5"@, enc_opt_text(h.md5), "sha1"@);
    lemma_opt_field_get("md5"@, enc_opt_text(h.md5), "sha256"@);
    lemma_opt_field_get("sha1"@, enc_opt_text(h.sha1), "md5"@);
    lemma_opt_field_get("sha1"@, enc_opt_text(h.sha1), "sha1"@);
    lemma_opt_field_get("sha1"@, enc_opt_text(h.sha1), "sha256"@);
    lemma_opt_field_get("sha256"@, enc_opt_text(h.sha256), "md5"@);
    lemma_opt_field_get("sha256"@, enc_opt_text(h.sha256), "sha1"@);
    lemma_opt_field_get("sha256"@, enc_opt_text(h.sha256), "sha256"@);
    lemma_obj_get_append(f1, f2, "md5"@);
    lemma_obj_get_append(f1 + f2, f3, "md5"@);
    lemma_obj_get_append(f1, f2, "sha1"@);
    lemma_obj_get_append(f1 + f2, f3, "sha1"@);
    lemma_obj_get_append(f1, f2, "sha256"@);
    lemma_obj_get_append(f1 + f2, f3, "sha256"@);
    let fields = f1 + f2 + f3;
    assert(obj_get(fields, "md5"@) == enc_opt_text(h.md5));
    assert(obj_get(fields, "sha1"@) == enc_opt_text(h.sha1));
    assert(obj_get(fields, "sha256"@) == enc_opt_text(h.sha256));
}

/// Encoding a hash set and decoding the result gives the set back.
pub proof fn lemma_hashes_round_trip(h: HashesV)
    ensures
        dec_hashes(enc_hashes(h)) == Some(h),
{
    lemma_hashes_fields(h);
}

// ---------------------------------------------------------------------------
// Payload
// ---------------------------------------------------------------------------

/// The wire form of a payload: raw bytes under `bin`, or a link under
/// `url`.
pub open spec fn enc_payload(p: PayloadV) -> ValueV {
    match p {
        PayloadV::Binary(bytes) => ValueV::Obj(
            one_field("bin"@, ValueV::Arr(Seq::new(bytes.len(), |i: int| ValueV::Int(
                bytes[i] as int,
            )))),
        ),
        PayloadV::Url(u) => ValueV::Obj(one_field("url"@, ValueV::Str(u))),
    }
}

/// The bytes a list of small integers names, if well-formed.
pub open spec fn dec_bytes(items: Seq<ValueV>) -> Option<Seq<u8>>
    decreases items,
{
    if items.len() == 0 {
        Some(Seq::empty())
    } else {
        match items[0] {
            ValueV::Int(n) => if 0 <= n < 256 {
                match dec_bytes(items.subrange(1, items.len() as int)) {
                    Some(rest) => Some(seq![n as u8] + rest),
                    None => None,
                }
            } else {
                None
            },
            _ => None,
        }
    }
}

/// The payload a value names, if it is well-formed: a single-key map with
/// `bin` bytes or a `url` string.
pub open spec fn dec_payload(v: ValueV) -> Option<PayloadV> {
    match dec_obj(v) {
        Some(fields) => if fields.len() == 1 && fields[0].0 == "bin"@ {
            match dec_arr(fields[0].1) {
                Some(items) => match dec_bytes(items) {
                    Some(bytes) => Some(PayloadV::Binary(bytes)),
                    None => None,
                },
                None => None,
            }
        } else if fields.len() == 1 && fields[0].0 == "url"@ {
            match dec_text(fields[0].1) {
                Some(u) => Some(PayloadV::Url(u)),
                None => None,
            }
        } else {
            None
        },
        None => None,
    }
}

impl Payload {
    /// Converts to the wire form.
    pub fn to_value(&self) -> (r: Doc)
        ensures
            r@ == enc_payload(self@),
    {
        match self {
            Payload::Binary(bytes) => {
                let mut items: Vec<Doc> = Vec::new();
                let mut i: usize = 0;
                proof {
                    lemma_vals_view(items@);
                }
                while i < bytes.len()
                    invariant
                        i <= bytes.len(),
                        items@.len() == i,
                        forall|j: int| 0 <= j < i
                            ==> #[trigger] crate::value::value_view(&items@[j])
                                == ValueV::Int(bytes@[j] as int),
                    decreases bytes.len() - i,
                {
                    items.push(Doc::Int(bytes[i] as i64));
                    i += 1;
                }
                let mut fields: Vec<(String, Doc)> = Vec::new();
                proof {
                    lemma_entries_view(fields@);
                }
                push_field(&mut fields, "bin", Doc::Arr(items));
                let r = Doc::Obj(fields);
                proof {
                    lemma_vals_view(items@);
                    assert(vals_view(items@) =~= Seq::new(bytes@.len(), |j: int| ValueV::Int(
                        bytes@[j] as int,
                    )));
                    assert(entries_view(fields@) =~= one_field("bin"@, ValueV::Arr(Seq::new(
                        bytes@.len(),
                        |j: int| ValueV::Int(bytes@[j] as int),
                    ))));
                }
                r
            }
            Payload::Url(u) => {
                let mut fields: Vec<(String, Doc)> = Vec::new();
                proof {
                    lemma_entries_view(fields@);
                }
                push_field(&mut fields, "url", Doc::Str(u.clone()));
                let r = Doc::Obj(fields);
                proof {
                    assert(entries_view(fields@) =~= one_field("url"@, ValueV::Str(u@)));
                }
                r
            }
        }
    }

    /// Reads the wire form back.
    pub fn from_value(v: &Doc) -> (r: Result<Self, Error>)
        ensures
            match r {
                Ok(p) => dec_payload(v@) == Some(p@),
                Err(_) => dec_payload(v@).is_none(),
            },
    {
        proof {
            reveal_strlit("bin");
            reveal_strlit("url");
            assert(("bin")@.len() == 3);
            assert(("bin")@[0] == 'b');
            assert(("url")@[0] == 'u');
        }
        let fields = match v {
            Doc::Obj(fields) => fields,
            _ => {
                return Err(Error::codec("expected a payload map"));
            }
        };
        proof {
            lemma_entries_view(fields@);
        }
        if fields.len() != 1 {
            return Err(Error::codec("expected a single-key payload"));
        }
        if crate::str_eq(fields[0].0.as_str(), "bin") {
            let items = match &fields[0].1 {
                Doc::Arr(items) => items,
                _ => {
                    return Err(Error::codec("expected a byte list"));
                }
            };
            match read_bytes(items) {
                Some(bytes) => Ok(Payload::Binary(bytes)),
                None => Err(Error::codec("expected bytes")),
            }
        } else if crate::str_eq(fields[0].0.as_str(), "url") {
            match &fields[0].1 {
                Doc::Str(u) => Ok(Payload::Url(u.clone())),
                _ => Err(Error::codec("expected a url string")),
            }
        } else {
            Err(Error::codec("unknown payload key"))
        }
    }
}

/// Reads a list of byte values.
#[verifier::loop_isolation(false)]
fn read_bytes(items: &Vec<Doc>) -> (r: Option<Vec<u8>>)
    ensures
        match r {
            Some(bytes) => dec_bytes(vals_view(items@)) == Some(bytes@),
            None => dec_bytes(vals_view(items@)).is_none(),
        },
{
    proof {
        lemma_vals_view(items@);
    }
    let mut out: Vec<u8> = Vec::new();
    let mut i: usize = 0;
    proof {
        assert(vals_view(items@).subrange(0, items@.len() as int) =~= vals_view(items@));
        match dec_bytes(vals_view(items@)) {
            Some(rest) => {
                assert(out@ + rest =~= rest);
            }
            None => {}
        }
    }
    while i < items.len()
        invariant
            i <= items.len(),
            out@.len() == i,
            forall|j: int| 0 <= j < i ==> vals_view(items@)[j] == ValueV::Int(
                #[trigger] out@[j] as int,
            ),
            dec_bytes(vals_view(items@)) == (match dec_bytes(
                vals_view(items@).subrange(i as int, items@.len() as int),
            ) {
                Some(rest) => Some(out@ + rest),
                None => None::<Seq<u8>>,
            }),
        decreases items.len() - i,
    {
        let ghost pre = vals_view(items@).subrange(i as int, items@.len() as int);
        let b = match &items[i] {
            Doc::Int(n) => {
                if *n < 0 || *n > 255 {
                    proof {
                        assert(pre[0] == vals_view(items@)[i as int]);
                    }
                    return None;
                }
                *n as u8
            }
            _ => {
                proof {
                    assert(pre[0] == vals_view(items@)[i as int]);
                }
                return None;
            }
        };
        proof {
            assert(pre[0] == vals_view(items@)[i as int]);
            assert(pre.subrange(1, pre.len() as int)
                =~= vals_view(items@).subrange(i + 1, items@.len() as int));
        }
        let ghost out_old = out@;
        out.push(b);
        proof {
            match dec_bytes(vals_view(items@).subrange(i + 1, items@.len() as int)) {
                Some(rest) => {
                    assert(dec_bytes(pre) == Some(seq![b] + rest));
                    assert(out_old + (seq![b] + rest) =~= out@ + rest);
                }
                None => {
                    assert(dec_bytes(pre).is_none());
                }
            }
        }
        i += 1;
    }
    proof {
        assert(vals_view(items@).subrange(items@.len() as int, items@.len() as int)
            =~= Seq::<ValueV>::empty());
        assert(out@ + Seq::<u8>::empty() =~= out@);
    }
    Some(out)
}

/// Encoding a payload and decoding the result gives the payload back.
pub proof fn lemma_payload_round_trip(p: PayloadV)
    ensures
        dec_payload(enc_payload(p)) == Some(p),
{
    reveal_strlit("bin");
    reveal_strlit("url");
    assert(("bin")@.len() == 3);
    assert(("url")@.len() == 3);
    assert(("bin")@[0] == 'b');
    assert(("url")@[0] == 'u');
    match p {
        PayloadV::Binary(bytes) => {
            lemma_bytes_round_trip(bytes);
        }
        PayloadV::Url(u) => {}
    }
}

/// Encoding bytes as integers and decoding them gives the bytes back.
proof fn lemma_bytes_round_trip(bytes: Seq<u8>)
    ensures
        dec_bytes(Seq::new(bytes.len(), |i: int| ValueV::Int(bytes[i] as int))) == Some(bytes),
    decreases bytes.len(),
{
    let items = Seq::new(bytes.len(), |i: int| ValueV::Int(bytes[i] as int));
    if bytes.len() == 0 {
        assert(dec_bytes(items) == Some(Seq::<u8>::empty()));
        assert(bytes =~= Seq::<u8>::empty());
    } else {
        let sub = bytes.subrange(1, bytes.len() as int);
        lemma_bytes_round_trip(sub);
        assert(items.subrange(1, items.len() as int) =~= Seq::new(sub.len(), |i: int|
            ValueV::Int(sub[i] as int)));
        assert(seq![bytes[0]] + sub =~= bytes);
    }
}

// ---------------------------------------------------------------------------
// Files and devices
// ---------------------------------------------------------------------------

/// The wire form of a file.
pub open spec fn enc_file(f: FileV) -> ValueV {
    ValueV::Obj(
        opt_field("name"@, enc_opt_text(f.name)) + opt_field("hashes"@, match f.hashes {
            Some(h) => Some(enc_hashes(h)),
            None => None,
        }) + opt_field("path"@, enc_opt_text(f.path)),
    )
}

/// The file a value names, if it is well-formed.
pub open spec fn dec_file(v: ValueV) -> Option<FileV> {
    match dec_obj(v) {
        Some(fields) => {
            let hashes = match obj_get(fields, "hashes"@) {
                Some(hv) => match dec_hashes(hv) {
                    Some(h) => Some(Some(h)),
                    None => None,
                },
                None => Some(None),
            };
            match (get_opt_text(fields, "name"@), hashes, get_opt_text(fields, "path"@)) {
                (Some(name), Some(hashes), Some(path)) => Some(FileV { name, hashes, path }),
                _ => None,
            }
        }
        None => None,
    }
}

impl File {
    /// Converts to the wire form.
    pub fn to_value(&self) -> (r: Doc)
        ensures
            r@ == enc_file(self@),
    {
        let mut fields: Vec<(String, Doc)> = Vec::new();
        proof {
            lemma_entries_view(fields@);
        }
        match &self.name {
            Some(s) => push_field(&mut fields, "name", Doc::Str(s.clone())),
            None => (),
        }
        match &self.hashes {
            Some(h) => push_field(&mut fields, "hashes", h.to_value()),
            None => (),
        }
        match &self.path {
            Some(s) => push_field(&mut fields, "path", Doc::Str(s.clone())),
            None => (),
        }
        let r = Doc::Obj(fields);
        proof {
            assert(entries_view(fields@) =~= opt_field("name"@, enc_opt_text(self@.name))
                + opt_field("hashes"@, match self@.hashes {
                    Some(h) => Some(enc_hashes(h)),
                    None => None,
                }) + opt_field("path"@, enc_opt_text(self@.path)));
        }
        r
    }

    /// Reads the wire form back.
    pub fn from_value(v: &Doc) -> (r: Result<Self, Error>)
        ensures
            match r {
                Ok(f) => dec_file(v@) == Some(f@),
                Err(_) => dec_file(v@).is_none(),
            },
    {
        let fields = match v {
            Doc::Obj(fields) => fields,
            _ => {
                return Err(Error::codec("expected a file map"));
            }
        };
        let name = match read_opt_text(fields, "name") {
            Ok(o) => o,
            Err(e) => {
                return Err(e);
            }
        };
        let hashes = match obj_find(fields, "hashes") {
            Some(hv) => match Hashes::from_value(hv) {
                Ok(h) => Some(h),
                Err(e) => {
                    return Err(e);
                }
            },
            None => None,
        };
        let path = match read_opt_text(fields, "path") {
            Ok(o) => o,
            Err(e) => {
                return Err(e);
            }
        };
        Ok(File { name, hashes, path })
    }
}

/// Encoding a file and decoding the result gives the file back.
pub proof fn lemma_file_round_trip(f: FileV)
    ensures
        dec_file(enc_file(f)) == Some(f),
{
    reveal_strlit("name");
    reveal_strlit("hashes");
    reveal_strlit("path");
    assert(("name")@.len() == 4);
    assert(("hashes")@.len() == 6);
    assert(("path")@.len() == 4);
    assert(("name")@[0] == 'n');
    assert(("path")@[0] == 'p');
    let hv = match f.hashes {
        Some(h) => Some(enc_hashes(h)),
        None => None::<ValueV>,
    };
    let f1 = opt_field("name"@, enc_opt_text(f.name));
    let f2 = opt_field("hashes"@, hv);
    let f3 = opt_field("path"@, enc_opt_text(f.path));
    lemma_opt_field_get("name"@, enc_opt_text(f.name), "name"@);
    lemma_opt_field_get("name"@, enc_opt_text(f.name), "hashes"@);
    lemma_opt_field_get("name"@, enc_opt_text(f.name), "path"@);
    lemma_opt_field_get("hashes"@, hv, "name"@);
    lemma_opt_field_get("hashes"@, hv, "hashes"@);
    lemma_opt_field_get("hashes"@, hv, "path"@);
    lemma_opt_field_get("path"@, enc_opt_text(f.path), "name"@);
    lemma_opt_field_get("path"@, enc_opt_text(f.path), "hashes"@);
    lemma_opt_field_get("path"@, enc_opt_text(f.path), "path"@);
    lemma_obj_get_append(f1, f2, "name"@);
    lemma_obj_get_append(f1 + f2, f3, "name"@);
    lemma_obj_get_append(f1, f2, "hashes"@);
    lemma_obj_get_append(f1 + f2, f3, "hashes"@);
    lemma_obj_get_append(f1, f2, "path"@);
    lemma_obj_get_append(f1 + f2, f3, "path"@);
    let fields = f1 + f2 + f3;
    assert(obj_get(fields, "name"@) == enc_opt_text(f.name));
    assert(obj_get(fields, "hashes"@) == hv);
    assert(obj_get(fields, "path"@) == enc_opt_text(f.path));
    match f.hashes {
        Some(h) => {
            lemma_hashes_round_trip(h);
        }
        None => {}
    }
}

/// The wire form of a device.
pub open spec fn enc_device(d: DeviceV) -> ValueV {
    ValueV::Obj(
        opt_field("hostname"@, enc_opt_text(d.hostname)) + opt_field(
            "idn_hostname"@,
            enc_opt_text(d.idn_hostname),
        ) + opt_field("device_id"@, enc_opt_text(d.device_id)),
    )
}

/// The device a value names, if it is well-formed.
pub open spec fn dec_device(v: ValueV) -> Option<DeviceV> {
    match dec_obj(v) {
        Some(fields) => {
            match (
                get_opt_text(fields, "hostname"@),
                get_opt_text(fields, "idn_hostname"@),
                get_opt_text(fields, "device_id"@),
            ) {
                (Some(hostname), Some(idn_hostname), Some(device_id)) => Some(
                    DeviceV { hostname, idn_hostname, device_id },
                ),
                _ => None,
            }
        }
        None => None,
    }
}

impl Device {
    /// Converts to the wire form.
    pub fn to_value(&self) -> (r: Doc)
        ensures
            r@ == enc_device(self@),
    {
        let mut fields: Vec<(String, Doc)> = Vec::new();
        proof {
            lemma_entries_view(fields@);
        }
        match &self.hostname {
            Some(s) => push_field(&mut fields, "hostname", Doc::Str(s.clone())),
            None => (),
        }
        match &self.idn_hostname {
            Some(s) => push_field(&mut fields, "idn_hostname", Doc::Str(s.clone())),
            None => (),
        }
        match &self.device_id {
            Some(s) => push_field(&mut fields, "device_id", Doc::Str(s.clone())),
            None => (),
        }
        let r = Doc::Obj(fields);
        proof {
            assert(entries_view(fields@) =~= opt_field("hostname"@, enc_opt_text(self@.hostname))
                + opt_field("idn_hostname"@, enc_opt_text(self@.idn_hostname))
                + opt_field("device_id"@, enc_opt_text(self@.device_id)));
        }
        r
    }

    /// Reads the wire form back.
    pub fn from_value(v: &Doc) -> (r: Result<Self, Error>)
        ensures
            match r {
                Ok(d) => dec_device(v@) == Some(d@),
                Err(_) => dec_device(v@).is_none(),
            },
    {
        let fields = match v {
            Doc::Obj(fields) => fields,
            _ => {
                return Err(Error::codec("expected a device map"));
            }
        };
        let hostname = match read_opt_text(fields, "hostname") {
            Ok(o) => o,
            Err(e) => {
                return Err(e);
            }
        };
        let idn_hostname = match read_opt_text(fields, "idn_hostname") {
            Ok(o) => o,
            Err(e) => {
                return Err(e);
            }
        };
        let device_id = match read_opt_text(fields, "device_id") {
            Ok(o) => o,
            Err(e) => {
                return Err(e);
            }
        };
        Ok(Device { hostname, idn_hostname, device_id })
    }
}

/// Encoding a device and decoding the result gives the device back.
pub proof fn lemma_device_round_trip(d: DeviceV)
    ensures
        dec_device(enc_device(d)) == Some(d),
{
    reveal_strlit("hostname");
    reveal_strlit("idn_hostname");
    reveal_strlit("device_id");
    assert(("hostname")@.len() == 8);
    assert(("idn_hostname")@.len() == 12);
    assert(("device_id")@.len() == 9);
    let f1 = opt_field("hostname"@, enc_opt_text(d.hostname));
    let f2 = opt_field("idn_hostname"@, enc_opt_text(d.idn_hostname));
    let f3 = opt_field("device_id"@, enc_opt_text(d.device_id));
    lemma_opt_field_get("hostname"@, enc_opt_text(d.hostname), "hostname"@);
    lemma_opt_field_get("hostname"@, enc_opt_text(d.hostname), "idn_hostname"@);
    lemma_opt_field_get("hostname"@, enc_opt_text(d.hostname), "device_id"@);
    lemma_opt_field_get("idn_hostname"@, enc_opt_text(d.idn_hostname), "hostname"@);
    lemma_opt_field_get("idn_hostname"@, enc_opt_text(d.idn_hostname), "idn_hostname"@);
    lemma_opt_field_get("idn_hostname"@, enc_opt_text(d.idn_hostname), "device_id"@);
    lemma_opt_field_get("device_id"@, enc_opt_text(d.device_id), "hostname"@);
    lemma_opt_field_get("device_id"@, enc_opt_text(d.device_id), "idn_hostname"@);
    lemma_opt_field_get("device_id"@, enc_opt_text(d.device_id), "device_id"@);
    lemma_obj_get_append(f1, f2, "hostname"@);
    lemma_obj_get_append(f1 + f2, f3, "hostname"@);
    lemma_obj_get_append(f1, f2, "idn_hostname"@);
    lemma_obj_get_append(f1 + f2, f3, "idn_hostname"@);
    lemma_obj_get_append(f1, f2, "device_id"@);
    lemma_obj_get_append(f1 + f2, f3, "device_id"@);
    let fields = f1 + f2 + f3;
    assert(obj_get(fields, "hostname"@) == enc_opt_text(d.hostname));
    assert(obj_get(fields, "idn_hostname"@) == enc_opt_text(d.idn_hostname));
    assert(obj_get(fields, "device_id"@) == enc_opt_text(d.device_id));
}

// ---------------------------------------------------------------------------
// Artifacts
// ---------------------------------------------------------------------------

/// The wire form of an artifact.
pub open spec fn enc_artifact(a: ArtifactV) -> ValueV {
    ValueV::Obj(
        opt_field("media_type"@, enc_opt_text(a.media_type)) + opt_field(
            "payload"@,
            match a.payload {
                Some(p) => Some(enc_payload(p)),
                None => None,
            },
        ) + opt_field("hashes"@, match a.hashes {
            Some(h) => Some(enc_hashes(h)),
            None => None,
        }),
    )
}

/// The artifact a value names, if it is well-formed.
pub open spec fn dec_artifact(v: ValueV) -> Option<ArtifactV> {
    match dec_obj(v) {
        Some(fields) => {
            let payload = match obj_get(fields, "payload"@) {
                Some(pv) => match dec_payload(pv) {
                    Some(p) => Some(Some(p)),
                    None => None,
                },
                None => Some(None),
            };
            let hashes = match obj_get(fields, "hashes"@) {
                Some(hv) => match dec_hashes(hv) {
                    Some(h) => Some(Some(h)),
                    None => None,
                },
                None => Some(None),
            };
            match (get_opt_text(fields, "media_type"@), payload, hashes) {
                (Some(media_type), Some(payload), Some(hashes)) => Some(
                    ArtifactV { media_type, payload, hashes },
                ),
                _ => None,
            }
        }
        None => None,
    }
}

impl Artifact {
    /// Converts to the wire form.
    pub fn to_value(&self) -> (r: Doc)
        ensures
            r@ == enc_artifact(self@),
    {
        let mut fields: Vec<(String, Doc)> = Vec::new();
        proof {
            lemma_entries_view(fields@);
        }
        match &self.media_type {
            Some(s) => push_field(&mut fields, "media_type", Doc::Str(s.clone())),
            None => (),
        }
        match &self.payload {
            Some(p) => push_field(&mut fields, "payload", p.to_value()),
            None => (),
        }
        match &self.hashes {
            Some(h) => push_field(&mut fields, "hashes", h.to_value()),
            None => (),
        }
        let r = Doc::Obj(fields);
        proof {
            assert(entries_view(fields@) =~= opt_field(
                "media_type"@,
                enc_opt_text(self@.media_type),
            ) + opt_field("payload"@, match self@.payload {
                Some(p) => Some(enc_payload(p)),
                None => None,
            }) + opt_field("hashes"@, match self@.hashes {
                Some(h) => Some(enc_hashes(h)),
                None => None,
            }));
        }
        r
    }

    /// Reads the wire form back.
    pub fn from_value(v: &Doc) -> (r: Result<Self, Error>)
        ensures
            match r {
                Ok(a) => dec_artifact(v@) == Some(a@),
                Err(_) => dec_artifact(v@).is_none(),
            },
    {
        let fields = match v {
            Doc::Obj(fields) => fields,
            _ => {
                return Err(Error::codec("expected an artifact map"));
            }
        };
        let media_type = match read_opt_text(fields, "media_type") {
            Ok(o) => o,
            Err(e) => {
                return Err(e);
            }
        };
        let payload = match obj_find(fields, "payload") {
            Some(pv) => match Payload::from_value(pv) {
                Ok(p) => Some(p),
                Err(e) => {
                    return Err(e);
                }
            },
            None => None,
        };
        let hashes = match obj_find(fields, "hashes") {
            Some(hv) => match Hashes::from_value(hv) {
                Ok(h) => Some(h),
                Err(e) => {
                    return Err(e);
                }
            },
            None => None,
        };
        Ok(Artifact { media_type, payload, hashes })
    }
}

/// Encoding an artifact and decoding the result gives the artifact back.
pub proof fn lemma_artifact_round_trip(a: ArtifactV)
    ensures
        dec_artifact(enc_artifact(a)) == Some(a),
{
    reveal_strlit("media_type");
    reveal_strlit("payload");
    reveal_strlit("hashes");
    assert(("media_type")@.len() == 10);
    assert(("payload")@.len() == 7);
    assert(("hashes")@.len() == 6);
    let pv = match a.payload {
        Some(p) => Some(enc_payload(p)),
        None => None::<ValueV>,
    };
    let hv = match a.hashes {
        Some(h) => Some(enc_hashes(h)),
        None => None::<ValueV>,
    };
    let f1 = opt_field("media_type"@, enc_opt_text(a.media_type));
    let f2 = opt_field("payload"@, pv);
    let f3 = opt_field("hashes"@, hv);
    lemma_opt_field_get("media_type"@, enc_opt_text(a.media_type), "media_type"@);
    lemma_opt_field_get("media_type"@, enc_opt_text(a.media_type), "payload"@);
    lemma_opt_field_get("media_type"@, enc_opt_text(a.media_type), "hashes"@);
    lemma_opt_field_get("payload"@, pv, "media_type"@);
    lemma_opt_field_get("payload"@, pv, "payload"@);
    lemma_opt_field_get("payload"@, pv, "hashes"@);
    lemma_opt_field_get("hashes"@, hv, "media_type"@);
    lemma_opt_field_get("hashes"@, hv, "payload"@);
    lemma_opt_field_get("hashes"@, hv, "hashes"@);
    lemma_obj_get_append(f1, f2, "media_type"@);
    lemma_obj_get_append(f1 + f2, f3, "media_type"@);
    lemma_obj_get_append(f1, f2, "payload"@);
    lemma_obj_get_append(f1 + f2, f3, "payload"@);
    lemma_obj_get_append(f1, f2, "hashes"@);
    lemma_obj_get_append(f1 + f2, f3, "hashes"@);
    let fields = f1 + f2 + f3;
    assert(obj_get(fields, "media_type"@) == enc_opt_text(a.media_type));
    assert(obj_get(fields, "payload"@) == pv);
    assert(obj_get(fields, "hashes"@) == hv);
    match a.payload {
        Some(p) => {
            lemma_payload_round_trip(p);
        }
        None => {}
    }
    match a.hashes {
        Some(h) => {
            lemma_hashes_round_trip(h);
        }
        None => {}
    }
}

// ---------------------------------------------------------------------------
// Protocols, connections
// ---------------------------------------------------------------------------

/// The wire form of a transport protocol.
pub open spec fn enc_l4(p: L4Protocol) -> ValueV {
    match p {
        L4Protocol::Tcp => ValueV::Str("Tcp"@),
        L4Protocol::Udp => ValueV::Str("Udp"@),
        L4Protocol::Icmp => ValueV::Str("Icmp"@),
        L4Protocol::Other(n) => ValueV::Obj(one_field("Other"@, ValueV::Int(n as int))),
    }
}

/// The protocol a value names, if any.
pub open spec fn dec_l4(v: ValueV) -> Option<L4Protocol> {
    match v {
        ValueV::Str(s) => if s == "Tcp"@ { Some(L4Protocol::Tcp) }
            else if s == "Udp"@ { Some(L4Protocol::Udp) }
            else if s == "Icmp"@ { Some(L4Protocol::Icmp) }
            else { None },
        ValueV::Obj(fields) => if fields.len() == 1 && fields[0].0 == "Other"@ {
            match fields[0].1 {
                ValueV::Int(n) => if 0 <= n < 256 {
                    Some(L4Protocol::Other(n as u8))
                } else {
                    None
                },
                _ => None,
            }
        } else {
            None
        },
        _ => None,
    }
}

/// Converts a transport protocol to the wire form.
pub fn l4_to_value(p: &L4Protocol) -> (r: Doc)
    ensures
        r@ == enc_l4(*p),
{
    match p {
        L4Protocol::Tcp => Doc::text("Tcp"),
        L4Protocol::Udp => Doc::text("Udp"),
        L4Protocol::Icmp => Doc::text("Icmp"),
        L4Protocol::Other(n) => {
            let mut fields: Vec<(String, Doc)> = Vec::new();
            proof {
                lemma_entries_view(fields@);
            }
            push_field(&mut fields, "Other", Doc::Int(*n as i64));
            let r = Doc::Obj(fields);
            proof {
                assert(entries_view(fields@) =~= one_field("Other"@, ValueV::Int(*n as int)));
            }
            r
        }
    }
}

/// Reads a transport protocol back.
pub fn l4_from_value(v: &Doc) -> (r: Result<L4Protocol, Error>)
    ensures
        match r {
            Ok(p) => dec_l4(v@) == Some(p),
            Err(_) => dec_l4(v@).is_none(),
        },
{
    match v {
        Doc::Str(s) => {
            if crate::str_eq(s.as_str(), "Tcp") { Ok(L4Protocol::Tcp) }
            else if crate::str_eq(s.as_str(), "Udp") { Ok(L4Protocol::Udp) }
            else if crate::str_eq(s.as_str(), "Icmp") { Ok(L4Protocol::Icmp) }
            else { Err(Error::codec("unknown protocol")) }
        }
        Doc::Obj(fields) => {
            proof {
                lemma_entries_view(fields@);
            }
            if fields.len() == 1 && crate::str_eq(fields[0].0.as_str(), "Other") {
                match &fields[0].1 {
                    Doc::Int(n) => {
                        if *n >= 0 && *n <= 255 {
                            Ok(L4Protocol::Other(*n as u8))
                        } else {
                            Err(Error::codec("protocol number out of range"))
                        }
                    }
                    _ => Err(Error::codec("expected a protocol number")),
                }
            } else {
                Err(Error::codec("unknown protocol"))
            }
        }
        _ => Err(Error::codec("expected a protocol")),
    }
}

/// Encoding a protocol and decoding the result gives the protocol back.
pub proof fn lemma_l4_round_trip(p: L4Protocol)
    ensures
        dec_l4(enc_l4(p)) == Some(p),
{
    reveal_strlit("Tcp");
    reveal_strlit("Udp");
    reveal_strlit("Icmp");
    reveal_strlit("Other");
    assert(("Tcp")@.len() == 3);
    assert(("Udp")@.len() == 3);
    assert(("Icmp")@.len() == 4);
    assert(("Tcp")@[0] == 'T');
    assert(("Udp")@[0] == 'U');
}

/// An optional IPv4 network as a text value.
pub open spec fn enc_opt_ipv4(n: Option<Ipv4Net>) -> Option<ValueV> {
    match n {
        Some(n) => Some(ValueV::Str(ipv4_text(n))),
        None => None,
    }
}

/// An optional IPv6 network as a text value.
pub open spec fn enc_opt_ipv6(n: Option<Ipv6Net>) -> Option<ValueV> {
    match n {
        Some(n) => Some(ValueV::Str(ipv6_text(n))),
        None => None,
    }
}

/// An optional port as an integer value.
pub open spec fn enc_opt_port(p: Option<Port>) -> Option<ValueV> {
    match p {
        Some(p) => Some(ValueV::Int(p as int)),
        None => None,
    }
}

/// An optional protocol value.
pub open spec fn enc_opt_l4(p: Option<L4Protocol>) -> Option<ValueV> {
    match p {
        Some(p) => Some(enc_l4(p)),
        None => None,
    }
}

/// The wire form of an IPv4 connection.
pub open spec fn enc_conn4(c: Ipv4Connection) -> ValueV {
    ValueV::Obj(
        opt_field("src_addr"@, enc_opt_ipv4(c.src_addr)) + opt_field(
            "src_port"@,
            enc_opt_port(c.src_port),
        ) + opt_field("dst_addr"@, enc_opt_ipv4(c.dst_addr)) + opt_field(
            "dst_port"@,
            enc_opt_port(c.dst_port),
        ) + opt_field("protocol"@, enc_opt_l4(c.protocol)),
    )
}

/// The wire form of an IPv6 connection.
pub open spec fn enc_conn6(c: Ipv6Connection) -> ValueV {
    ValueV::Obj(
        opt_field("src_addr"@, enc_opt_ipv6(c.src_addr)) + opt_field(
            "src_port"@,
            enc_opt_port(c.src_port),
        ) + opt_field("dst_addr"@, enc_opt_ipv6(c.dst_addr)) + opt_field(
            "dst_port"@,
            enc_opt_port(c.dst_port),
        ) + opt_field("protocol"@, enc_opt_l4(c.protocol)),
    )
}

/// An optional IPv4 text field of a field map.
pub open spec fn get_opt_ipv4(fields: Seq<(Seq<char>, ValueV)>, key: Seq<char>) -> Option<
    Option<Ipv4Net>,
> {
    match obj_get(fields, key) {
        Some(v) => match dec_text(v) {
            Some(s) => match parse_ipv4net(s) {
                Some(n) => Some(Some(n)),
                None => None,
            },
            None => None,
        },
        None => Some(None),
    }
}

/// An optional IPv6 text field of a field map.
pub open spec fn get_opt_ipv6(fields: Seq<(Seq<char>, ValueV)>, key: Seq<char>) -> Option<
    Option<Ipv6Net>,
> {
    match obj_get(fields, key) {
        Some(v) => match dec_text(v) {
            Some(s) => match parse_ipv6net(s) {
                Some(n) => Some(Some(n)),
                None => None,
            },
            None => None,
        },
        None => Some(None),
    }
}

/// An optional port field of a field map.
pub open spec fn get_opt_port(fields: Seq<(Seq<char>, ValueV)>, key: Seq<char>) -> Option<
    Option<Port>,
> {
    match obj_get(fields, key) {
        Some(v) => match dec_int(v) {
            Some(n) => if 0 <= n < 65536 {
                Some(Some(n as u16))
            } else {
                None
            },
            None => None,
        },
        None => Some(None),
    }
}

/// An optional protocol field of a field map.
pub open spec fn get_opt_l4(fields: Seq<(Seq<char>, ValueV)>, key: Seq<char>) -> Option<
    Option<L4Protocol>,
> {
    match obj_get(fields, key) {
        Some(v) => match dec_l4(v) {
            Some(p) => Some(Some(p)),
            None => None,
        },
        None => Some(None),
    }
}

/// The IPv4 connection a value names, if it is well-formed.
pub open spec fn dec_conn4(v: ValueV) -> Option<Ipv4Connection> {
    match dec_obj(v) {
        Some(fields) => {
            match (
                get_opt_ipv4(fields, "src_addr"@),
                get_opt_port(fields, "src_port"@),
                get_opt_ipv4(fields, "dst_addr"@),
                get_opt_port(fields, "dst_port"@),
                get_opt_l4(fields, "protocol"@),
            ) {
                (Some(src_addr), Some(src_port), Some(dst_addr), Some(dst_port), Some(
                    protocol,
                )) => Some(Ipv4Connection { src_addr, src_port, dst_addr, dst_port, protocol }),
                _ => None,
            }
        }
        None => None,
    }
}

/// The IPv6 connection a value names, if it is well-formed.
pub open spec fn dec_conn6(v: ValueV) -> Option<Ipv6Connection> {
    match dec_obj(v) {
        Some(fields) => {
            match (
                get_opt_ipv6(fields, "src_addr"@),
                get_opt_port(fields, "src_port"@),
                get_opt_ipv6(fields, "dst_addr"@),
                get_opt_port(fields, "dst_port"@),
                get_opt_l4(fields, "protocol"@),
            ) {
                (Some(src_addr), Some(src_port), Some(dst_addr), Some(dst_port), Some(
                    protocol,
                )) => Some(Ipv6Connection { src_addr, src_port, dst_addr, dst_port, protocol }),
                _ => None,
            }
        }
        None => None,
    }
}

/// Reads an optional port field.
fn read_opt_port(fields: &Vec<(String, Doc)>, key: &str) -> (r: Result<Option<Port>, Error>)
    ensures
        match r {
            Ok(o) => get_opt_port(entries_view(fields@), key@) == Some(o),
            Err(_) => get_opt_port(entries_view(fields@), key@).is_none(),
        },
{
    match obj_find(fields, key) {
        Some(v) => match v {
            Doc::Int(n) => {
                if *n >= 0 && *n <= 65535 {
                    Ok(Some(*n as u16))
                } else {
                    Err(Error::codec("port out of range"))
                }
            }
            _ => Err(Error::codec("expected a port number")),
        },
        None => Ok(None),
    }
}

/// Converts an IPv4 connection to the wire form.
pub fn conn4_to_value(c: &Ipv4Connection) -> (r: Doc)
    ensures
        r@ == enc_conn4(*c),
{
    let mut fields: Vec<(String, Doc)> = Vec::new();
    proof {
        lemma_entries_view(fields@);
    }
    match &c.src_addr {
        Some(n) => push_field(&mut fields, "src_addr", Doc::Str(n.to_text())),
        None => (),
    }
    match &c.src_port {
        Some(p) => push_field(&mut fields, "src_port", Doc::Int(*p as i64)),
        None => (),
    }
    match &c.dst_addr {
        Some(n) => push_field(&mut fields, "dst_addr", Doc::Str(n.to_text())),
        None => (),
    }
    match &c.dst_port {
        Some(p) => push_field(&mut fields, "dst_port", Doc::Int(*p as i64)),
        None => (),
    }
    match &c.protocol {
        Some(p) => push_field(&mut fields, "protocol", l4_to_value(p)),
        None => (),
    }
    let r = Doc::Obj(fields);
    proof {
        assert(entries_view(fields@) =~= opt_field("src_addr"@, enc_opt_ipv4(c.src_addr))
            + opt_field("src_port"@, enc_opt_port(c.src_port))
            + opt_field("dst_addr"@, enc_opt_ipv4(c.dst_addr))
            + opt_field("dst_port"@, enc_opt_port(c.dst_port))
            + opt_field("protocol"@, enc_opt_l4(c.protocol)));
    }
    r
}

/// Converts an IPv6 connection to the wire form.
pub fn conn6_to_value(c: &Ipv6Connection) -> (r: Doc)
    ensures
        r@ == enc_conn6(*c),
{
    let mut fields: Vec<(String, Doc)> = Vec::new();
    proof {
        lemma_entries_view(fields@);
    }
    match &c.src_addr {
        Some(n) => push_field(&mut fields, "src_addr", Doc::Str(n.to_text())),
        None => (),
    }
    match &c.src_port {
        Some(p) => push_field(&mut fields, "src_port", Doc::Int(*p as i64)),
        None => (),
    }
    match &c.dst_addr {
        Some(n) => push_field(&mut fields, "dst_addr", Doc::Str(n.to_text())),
        None => (),
    }
    match &c.dst_port {
        Some(p) => push_field(&mut fields, "dst_port", Doc::Int(*p as i64)),
        None => (),
    }
    match &c.protocol {
        Some(p) => push_field(&mut fields, "protocol", l4_to_value(p)),
        None => (),
    }
    let r = Doc::Obj(fields);
    proof {
        assert(entries_view(fields@) =~= opt_field("src_addr"@, enc_opt_ipv6(c.src_addr))
            + opt_field("src_port"@, enc_opt_port(c.src_port))
            + opt_field("dst_addr"@, enc_opt_ipv6(c.dst_addr))
            + opt_field("dst_port"@, enc_opt_port(c.dst_port))
            + opt_field("protocol"@, enc_opt_l4(c.protocol)));
    }
    r
}

/// Reads an IPv4 connection back.
pub fn conn4_from_value(v: &Doc) -> (r: Result<Ipv4Connection, Error>)
    ensures
        match r {
            Ok(c) => dec_conn4(v@) == Some(c),
            Err(_) => dec_conn4(v@).is_none(),
        },
{
    let fields = match v {
        Doc::Obj(fields) => fields,
        _ => {
            return Err(Error::codec("expected a connection map"));
        }
    };
    let src_addr = match obj_find(fields, "src_addr") {
        Some(av) => match av {
            Doc::Str(s) => match Ipv4Net::from_str(s.as_str()) {
                Ok(n) => Some(n),
                Err(_) => {
                    return Err(Error::codec("invalid address"));
                }
            },
            _ => {
                return Err(Error::codec("expected an address string"));
            }
        },
        None => None,
    };
    let src_port = match read_opt_port(fields, "src_port") {
        Ok(o) => o,
        Err(e) => {
            return Err(e);
        }
    };
    let dst_addr = match obj_find(fields, "dst_addr") {
        Some(av) => match av {
            Doc::Str(s) => match Ipv4Net::from_str(s.as_str()) {
                Ok(n) => Some(n),
                Err(_) => {
                    return Err(Error::codec("invalid address"));
                }
            },
            _ => {
                return Err(Error::codec("expected an address string"));
            }
        },
        None => None,
    };
    let dst_port = match read_opt_port(fields, "dst_port") {
        Ok(o) => o,
        Err(e) => {
            return Err(e);
        }
    };
    let protocol = match obj_find(fields, "protocol") {
        Some(pv) => match l4_from_value(pv) {
            Ok(p) => Some(p),
            Err(e) => {
                return Err(e);
            }
        },
        None => None,
    };
    Ok(Ipv4Connection { src_addr, src_port, dst_addr, dst_port, protocol })
}

/// Reads an IPv6 connection back.
pub fn conn6_from_value(v: &Doc) -> (r: Result<Ipv6Connection, Error>)
    ensures
        match r {
            Ok(c) => dec_conn6(v@) == Some(c),
            Err(_) => dec_conn6(v@).is_none(),
        },
{
    let fields = match v {
        Doc::Obj(fields) => fields,
        _ => {
            return Err(Error::codec("expected a connection map"));
        }
    };
    let src_addr = match obj_find(fields, "src_addr") {
        Some(av) => match av {
            Doc::Str(s) => match Ipv6Net::from_str(s.as_str()) {
                Ok(n) => Some(n),
                Err(_) => {
                    return Err(Error::codec("invalid address"));
                }
            },
            _ => {
                return Err(Error::codec("expected an address string"));
            }
        },
        None => None,
    };
    let src_port = match read_opt_port(fields, "src_port") {
        Ok(o) => o,
        Err(e) => {
            return Err(e);
        }
    };
    let dst_addr = match obj_find(fields, "dst_addr") {
        Some(av) => match av {
            Doc::Str(s) => match Ipv6Net::from_str(s.as_str()) {
                Ok(n) => Some(n),
                Err(_) => {
                    return Err(Error::codec("invalid address"));
                }
            },
            _ => {
                return Err(Error::codec("expected an address string"));
            }
        },
        None => None,
    };
    let dst_port = match read_opt_port(fields, "dst_port") {
        Ok(o) => o,
        Err(e) => {
            return Err(e);
        }
    };
    let protocol = match obj_find(fields, "protocol") {
        Some(pv) => match l4_from_value(pv) {
            Ok(p) => Some(p),
            Err(e) => {
                return Err(e);
            }
        },
        None => None,
    };
    Ok(Ipv6Connection { src_addr, src_port, dst_addr, dst_port, protocol })
}

/// Connections round-trip when their addresses are well-formed.
#[verifier::rlimit(100)]
pub proof fn lemma_conn4_round_trip(c: Ipv4Connection)
    requires
        (match c.src_addr {
            Some(n) => ipv4net_wf(n),
            None => true,
        }),
        (match c.dst_addr {
            Some(n) => ipv4net_wf(n),
            None => true,
        }),
    ensures
        dec_conn4(enc_conn4(c)) == Some(c),
{
    reveal_strlit("src_addr");
    reveal_strlit("src_port");
    reveal_strlit("dst_addr");
    reveal_strlit("dst_port");
    reveal_strlit("protocol");
    assert(("src_addr")@.len() == 8);
    assert(("src_port")@.len() == 8);
    assert(("dst_addr")@.len() == 8);
    assert(("dst_port")@.len() == 8);
    assert(("protocol")@.len() == 8);
    assert(("src_addr")@[0] == 's');
    assert(("src_addr")@[1] == 'r');
    assert(("src_addr")@[2] == 'c');
    assert(("src_addr")@[3] == '_');
    assert(("src_addr")@[4] == 'a');
    assert(("src_addr")@[5] == 'd');
    assert(("src_addr")@[6] == 'd');
    assert(("src_addr")@[7] == 'r');
    assert(("src_port")@[0] == 's');
    assert(("src_port")@[1] == 'r');
    assert(("src_port")@[2] == 'c');
    assert(("src_port")@[3] == '_');
    assert(("src_port")@[4] == 'p');
    assert(("src_port")@[5] == 'o');
    assert(("src_port")@[6] == 'r');
    assert(("src_port")@[7] == 't');
    assert(("dst_addr")@[0] == 'd');
    assert(("dst_addr")@[1] == 's');
    assert(("dst_addr")@[2] == 't');
    assert(("dst_addr")@[3] == '_');
    assert(("dst_addr")@[4] == 'a');
    assert(("dst_addr")@[5] == 'd');
    assert(("dst_addr")@[6] == 'd');
    assert(("dst_addr")@[7] == 'r');
    assert(("dst_port")@[0] == 'd');
    assert(("dst_port")@[1] == 's');
    assert(("dst_port")@[2] == 't');
    assert(("dst_port")@[3] == '_');
    assert(("dst_port")@[4] == 'p');
    assert(("dst_port")@[5] == 'o');
    assert(("dst_port")@[6] == 'r');
    assert(("dst_port")@[7] == 't');
    assert(("protocol")@[0] == 'p');
    assert(("protocol")@[1] == 'r');
    assert(("protocol")@[2] == 'o');
    assert(("protocol")@[3] == 't');
    assert(("protocol")@[4] == 'o');
    assert(("protocol")@[5] == 'c');
    assert(("protocol")@[6] == 'o');
    assert(("protocol")@[7] == 'l');
    let f0 = opt_field("src_addr"@, enc_opt_ipv4(c.src_addr));
    let f1 = opt_field("src_port"@, enc_opt_port(c.src_port));
    let f2 = opt_field("dst_addr"@, enc_opt_ipv4(c.dst_addr));
    let f3 = opt_field("dst_port"@, enc_opt_port(c.dst_port));
    let f4 = opt_field("protocol"@, enc_opt_l4(c.protocol));
    lemma_opt_field_get("src_addr"@, enc_opt_ipv4(c.src_addr), "src_addr"@);
    lemma_opt_field_get("src_addr"@, enc_opt_ipv4(c.src_addr), "src_port"@);
    lemma_opt_field_get("src_addr"@, enc_opt_ipv4(c.src_addr), "dst_addr"@);
    lemma_opt_field_get("src_addr"@, enc_opt_ipv4(c.src_addr), "dst_port"@);
    lemma_opt_field_get("src_addr"@, enc_opt_ipv4(c.src_addr), "protocol"@);
    lemma_opt_field_get("src_port"@, enc_opt_port(c.src_port), "src_addr"@);
    lemma_opt_field_get("src_port"@, enc_opt_port(c.src_port), "src_port"@);
    lemma_opt_field_get("src_port"@, enc_opt_port(c.src_port), "dst_addr"@);
    lemma_opt_field_get("src_port"@, enc_opt_port(c.src_port), "dst_port"@);
    lemma_opt_field_get("src_port"@, enc_opt_port(c.src_port), "protocol"@);
    lemma_opt_field_get("dst_addr"@, enc_opt_ipv4(c.dst_addr), "src_addr"@);
    lemma_opt_field_get("dst_addr"@, enc_opt_ipv4(c.dst_addr), "src_port"@);
    lemma_opt_field_get("dst_addr"@, enc_opt_ipv4(c.dst_addr), "dst_addr"@);
    lemma_opt_field_get("dst_addr"@, enc_opt_ipv4(c.dst_addr), "dst_port"@);
    lemma_opt_field_get("dst_addr"@, enc_opt_ipv4(c.dst_addr), "protocol"@);
    lemma_opt_field_get("dst_port"@, enc_opt_port(c.dst_port), "src_addr"@);
    lemma_opt_field_get("dst_port"@, enc_opt_port(c.dst_port), "src_port"@);
    lemma_opt_field_get("dst_port"@, enc_opt_port(c.dst_port), "dst_addr"@);
    lemma_opt_field_get("dst_port"@, enc_opt_port(c.dst_port), "dst_port"@);
    lemma_opt_field_get("dst_port"@, enc_opt_port(c.dst_port), "protocol"@);
    lemma_opt_field_get("protocol"@, enc_opt_l4(c.protocol), "src_addr"@);
    lemma_opt_field_get("protocol"@, enc_opt_l4(c.protocol), "src_port"@);
    lemma_opt_field_get("protocol"@, enc_opt_l4(c.protocol), "dst_addr"@);
    lemma_opt_field_get("protocol"@, enc_opt_l4(c.protocol), "dst_port"@);
    lemma_opt_field_get("protocol"@, enc_opt_l4(c.protocol), "protocol"@);
    lemma_obj_get_append(f0, f1, "src_addr"@);
    lemma_obj_get_append((f0 + f1), f2, "src_addr"@);
    lemma_obj_get_append(((f0 + f1) + f2), f3, "src_addr"@);
    lemma_obj_get_append((((f0 + f1) + f2) + f3), f4, "src_addr"@);
    lemma_obj_get_append(f0, f1, "src_port"@);
    lemma_obj_get_append((f0 + f1), f2, "src_port"@);
    lemma_obj_get_append(((f0 + f1) + f2), f3, "src_port"@);
    lemma_obj_get_append((((f0 + f1) + f2) + f3), f4, "src_port"@);
    lemma_obj_get_append(f0, f1, "dst_addr"@);
    lemma_obj_get_append((f0 + f1), f2, "dst_addr"@);
    lemma_obj_get_append(((f0 + f1) + f2), f3, "dst_addr"@);
    lemma_obj_get_append((((f0 + f1) + f2) + f3), f4, "dst_addr"@);
    lemma_obj_get_append(f0, f1, "dst_port"@);
    lemma_obj_get_append((f0 + f1), f2, "dst_port"@);
    lemma_obj_get_append(((f0 + f1) + f2), f3, "dst_port"@);
    lemma_obj_get_append((((f0 + f1) + f2) + f3), f4, "dst_port"@);
    lemma_obj_get_append(f0, f1, "protocol"@);
    lemma_obj_get_append((f0 + f1), f2, "protocol"@);
    lemma_obj_get_append(((f0 + f1) + f2), f3, "protocol"@);
    lemma_obj_get_append((((f0 + f1) + f2) + f3), f4, "protocol"@);
    let fields = f0 + f1 + f2 + f3 + f4;
    assert(obj_get(fields, "src_addr"@) == enc_opt_ipv4(c.src_addr));
    assert(obj_get(fields, "src_port"@) == enc_opt_port(c.src_port));
    assert(obj_get(fields, "dst_addr"@) == enc_opt_ipv4(c.dst_addr));
    assert(obj_get(fields, "dst_port"@) == enc_opt_port(c.dst_port));
    assert(obj_get(fields, "protocol"@) == enc_opt_l4(c.protocol));
    match c.src_addr {
        Some(n) => {
            lemma_ipv4_round_trip(n);
        }
        None => {}
    }
    match c.dst_addr {
        Some(n) => {
            lemma_ipv4_round_trip(n);
        }
        None => {}
    }
    match c.protocol {
        Some(p) => {
            lemma_l4_round_trip(p);
        }
        None => {}
    }
}

/// Connections round-trip when their addresses are well-formed.
#[verifier::rlimit(100)]
pub proof fn lemma_conn6_round_trip(c: Ipv6Connection)
    requires
        (match c.src_addr {
            Some(n) => ipv6net_wf(n),
            None => true,
        }),
        (match c.dst_addr {
            Some(n) => ipv6net_wf(n),
            None => true,
        }),
    ensures
        dec_conn6(enc_conn6(c)) == Some(c),
{
    reveal_strlit("src_addr");
    reveal_strlit("src_port");
    reveal_strlit("dst_addr");
    reveal_strlit("dst_port");
    reveal_strlit("protocol");
    assert(("src_addr")@.len() == 8);
    assert(("src_port")@.len() == 8);
    assert(("dst_addr")@.len() == 8);
    assert(("dst_port")@.len() == 8);
    assert(("protocol")@.len() == 8);
    assert(("src_addr")@[0] == 's');
    assert(("src_addr")@[1] == 'r');
    assert(("src_addr")@[2] == 'c');
    assert(("src_addr")@[3] == '_');
    assert(("src_addr")@[4] == 'a');
    assert(("src_addr")@[5] == 'd');
    assert(("src_addr")@[6] == 'd');
    assert(("src_addr")@[7] == 'r');
    assert(("src_port")@[0] == 's');
    assert(("src_port")@[1] == 'r');
    assert(("src_port")@[2] == 'c');
    assert(("src_port")@[3] == '_');
    assert(("src_port")@[4] == 'p');
    assert(("src_port")@[5] == 'o');
    assert(("src_port")@[6] == 'r');
    assert(("src_port")@[7] == 't');
    assert(("dst_addr")@[0] == 'd');
    assert(("dst_addr")@[1] == 's');
    assert(("dst_addr")@[2] == 't');
    assert(("dst_addr")@[3] == '_');
    assert(("dst_addr")@[4] == 'a');
    assert(("dst_addr")@[5] == 'd');
    assert(("dst_addr")@[6] == 'd');
    assert(("dst_addr")@[7] == 'r');
    assert(("dst_port")@[0] == 'd');
    assert(("dst_port")@[1] == 's');
    assert(("dst_port")@[2] == 't');
    assert(("dst_port")@[3] == '_');
    assert(("dst_port")@[4] == 'p');
    assert(("dst_port")@[5] == 'o');
    assert(("dst_port")@[6] == 'r');
    assert(("dst_port")@[7] == 't');
    assert(("protocol")@[0] == 'p');
    assert(("protocol")@[1] == 'r');
    assert(("protocol")@[2] == 'o');
    assert(("protocol")@[3] == 't');
    assert(("protocol")@[4] == 'o');
    assert(("protocol")@[5] == 'c');
    assert(("protocol")@[6] == 'o');
    assert(("protocol")@[7] == 'l');
    let f0 = opt_field("src_addr"@, enc_opt_ipv6(c.src_addr));
    let f1 = opt_field("src_port"@, enc_opt_port(c.src_port));
    let f2 = opt_field("dst_addr"@, enc_opt_ipv6(c.dst_addr));
    let f3 = opt_field("dst_port"@, enc_opt_port(c.dst_port));
    let f4 = opt_field("protocol"@, enc_opt_l4(c.protocol));
    lemma_opt_field_get("src_addr"@, enc_opt_ipv6(c.src_addr), "src_addr"@);
    lemma_opt_field_get("src_addr"@, enc_opt_ipv6(c.src_addr), "src_port"@);
    lemma_opt_field_get("src_addr"@, enc_opt_ipv6(c.src_addr), "dst_addr"@);
    lemma_opt_field_get("src_addr"@, enc_opt_ipv6(c.src_addr), "dst_port"@);
    lemma_opt_field_get("src_addr"@, enc_opt_ipv6(c.src_addr), "protocol"@);
    lemma_opt_field_get("src_port"@, enc_opt_port(c.src_port), "src_addr"@);
    lemma_opt_field_get("src_port"@, enc_opt_port(c.src_port), "src_port"@);
    lemma_opt_field_get("src_port"@, enc_opt_port(c.src_port), "dst_addr"@);
    lemma_opt_field_get("src_port"@, enc_opt_port(c.src_port), "dst_port"@);
    lemma_opt_field_get("src_port"@, enc_opt_port(c.src_port), "protocol"@);
    lemma_opt_field_get("dst_addr"@, enc_opt_ipv6(c.dst_addr), "src_addr"@);
    lemma_opt_field_get("dst_addr"@, enc_opt_ipv6(c.dst_addr), "src_port"@);
    lemma_opt_field_get("dst_addr"@, enc_opt_ipv6(c.dst_addr), "dst_addr"@);
    lemma_opt_field_get("dst_addr"@, enc_opt_ipv6(c.dst_addr), "dst_port"@);
    lemma_opt_field_get("dst_addr"@, enc_opt_ipv6(c.dst_addr), "protocol"@);
    lemma_opt_field_get("dst_port"@, enc_opt_port(c.dst_port), "src_addr"@);
    lemma_opt_field_get("dst_port"@, enc_opt_port(c.dst_port), "src_port"@);
    lemma_opt_field_get("dst_port"@, enc_opt_port(c.dst_port), "dst_addr"@);
    lemma_opt_field_get("dst_port"@, enc_opt_port(c.dst_port), "dst_port"@);
    lemma_opt_field_get("dst_port"@, enc_opt_port(c.dst_port), "protocol"@);
    lemma_opt_field_get("protocol"@, enc_opt_l4(c.protocol), "src_addr"@);
    lemma_opt_field_get("protocol"@, enc_opt_l4(c.protocol), "src_port"@);
    lemma_opt_field_get("protocol"@, enc_opt_l4(c.protocol), "dst_addr"@);
    lemma_opt_field_get("protocol"@, enc_opt_l4(c.protocol), "dst_port"@);
    lemma_opt_field_get("protocol"@, enc_opt_l4(c.protocol), "protocol"@);
    lemma_obj_get_append(f0, f1, "src_addr"@);
    lemma_obj_get_append((f0 + f1), f2, "src_addr"@);
    lemma_obj_get_append(((f0 + f1) + f2), f3, "src_addr"@);
    lemma_obj_get_append((((f0 + f1) + f2) + f3), f4, "src_addr"@);
    lemma_obj_get_append(f0, f1, "src_port"@);
    lemma_obj_get_append((f0 + f1), f2, "src_port"@);
    lemma_obj_get_append(((f0 + f1) + f2), f3, "src_port"@);
    lemma_obj_get_append((((f0 + f1) + f2) + f3), f4, "src_port"@);
    lemma_obj_get_append(f0, f1, "dst_addr"@);
    lemma_obj_get_append((f0 + f1), f2, "dst_addr"@);
    lemma_obj_get_append(((f0 + f1) + f2), f3, "dst_addr"@);
    lemma_obj_get_append((((f0 + f1) + f2) + f3), f4, "dst_addr"@);
    lemma_obj_get_append(f0, f1, "dst_port"@);
    lemma_obj_get_append((f0 + f1), f2, "dst_port"@);
    lemma_obj_get_append(((f0 + f1) + f2), f3, "dst_port"@);
    lemma_obj_get_append((((f0 + f1) + f2) + f3), f4, "dst_port"@);
    lemma_obj_get_append(f0, f1, "protocol"@);
    lemma_obj_get_append((f0 + f1), f2, "protocol"@);
    lemma_obj_get_append(((f0 + f1) + f2), f3, "protocol"@);
    lemma_obj_get_append((((f0 + f1) + f2) + f3), f4, "protocol"@);
    let fields = f0 + f1 + f2 + f3 + f4;
    assert(obj_get(fields, "src_addr"@) == enc_opt_ipv6(c.src_addr));
    assert(obj_get(fields, "src_port"@) == enc_opt_port(c.src_port));
    assert(obj_get(fields, "dst_addr"@) == enc_opt_ipv6(c.dst_addr));
    assert(obj_get(fields, "dst_port"@) == enc_opt_port(c.dst_port));
    assert(obj_get(fields, "protocol"@) == enc_opt_l4(c.protocol));
    match c.src_addr {
        Some(n) => {
            lemma_ipv6_round_trip(n);
        }
        None => {}
    }
    match c.dst_addr {
        Some(n) => {
            lemma_ipv6_round_trip(n);
        }
        None => {}
    }
    match c.protocol {
        Some(p) => {
            lemma_l4_round_trip(p);
        }
        None => {}
    }
}

// ---------------------------------------------------------------------------
// Processes
// ---------------------------------------------------------------------------

/// An optional small integer value.
pub open spec fn enc_opt_u32(n: Option<u32>) -> Option<ValueV> {
    match n {
        Some(n) => Some(ValueV::Int(n as int)),
        None => None,
    }
}

/// An optional file value.
pub open spec fn enc_opt_filev(f: Option<FileV>) -> Option<ValueV> {
    match f {
        Some(f) => Some(enc_file(f)),
        None => None,
    }
}

/// The wire form of a process, parents nested under `parent`.
pub open spec fn enc_process(p: ProcessV) -> ValueV
    decreases p,
{
    match p {
        ProcessV::Node { pid, name, cwd, executable, parent, command_line } => {
            let parent_enc: Option<ValueV> = match parent {
                Some(b) => Some(enc_process(*b)),
                None => None,
            };
            ValueV::Obj(
                opt_field("pid"@, enc_opt_u32(pid)) + opt_field("name"@, enc_opt_text(name))
                    + opt_field("cwd"@, enc_opt_text(cwd)) + opt_field(
                    "executable"@,
                    enc_opt_filev(executable),
                ) + opt_field("parent"@, parent_enc) + opt_field(
                    "command_line"@,
                    enc_opt_text(command_line),
                ),
            )
        }
    }
}

/// The process a value names, if it is well-formed.
pub open spec fn dec_process(v: ValueV) -> Option<ProcessV>
    decreases v,
{
    match v {
        ValueV::Obj(fields) => {
            let pid = match obj_get(fields, "pid"@) {
                Some(pv) => match dec_int(pv) {
                    Some(n) => if 0 <= n < 4294967296 {
                        Some(Some(n as u32))
                    } else {
                        None
                    },
                    None => None,
                },
                None => Some(None),
            };
            let executable = match obj_get(fields, "executable"@) {
                Some(fv) => match dec_file(fv) {
                    Some(f) => Some(Some(f)),
                    None => None,
                },
                None => Some(None),
            };
            let parent = match obj_get(fields, "parent"@) {
                Some(pv) => match dec_process_field(fields, "parent"@) {
                    Some(p) => Some(Some(Box::new(p))),
                    None => None,
                },
                None => Some(None),
            };
            match (
                pid,
                get_opt_text(fields, "name"@),
                get_opt_text(fields, "cwd"@),
                executable,
                parent,
                get_opt_text(fields, "command_line"@),
            ) {
                (Some(pid), Some(name), Some(cwd), Some(executable), Some(parent), Some(
                    command_line,
                )) => Some(
                    ProcessV::Node { pid, name, cwd, executable, parent, command_line },
                ),
                _ => None,
            }
        }
        _ => None,
    }
}

/// The parent process inside a field map, when the field is present.
pub open spec fn dec_process_field(fields: Seq<(Seq<char>, ValueV)>, key: Seq<char>) -> Option<
    ProcessV,
>
    decreases fields via dec_process_field_decreases
{
    match obj_get_keep(fields, key) {
        Some(v) => dec_process(v),
        None => None,
    }
}

/// Field lookup returning the value, stated so that the result is known to
/// sit below the field list for termination purposes.
pub open spec fn obj_get_keep(fields: Seq<(Seq<char>, ValueV)>, key: Seq<char>) -> Option<
    ValueV,
> {
    obj_get(fields, key)
}

#[via_fn]
proof fn dec_process_field_decreases(fields: Seq<(Seq<char>, ValueV)>, key: Seq<char>) {
    lemma_obj_get_in(fields, key);
    match obj_get_keep(fields, key) {
        Some(v) => {
            let i = choose|i: int|
                0 <= i < fields.len() && fields[i].0 == key && fields[i].1 == v;
            assert(decreases_to!(fields => fields[i]));
            assert(decreases_to!(fields[i] => fields[i].1));
        }
        None => {}
    }
}

/// A found field value is one of the list's entries.
pub proof fn lemma_obj_get_in(fields: Seq<(Seq<char>, ValueV)>, key: Seq<char>)
    ensures
        match obj_get(fields, key) {
            Some(v) => exists|i: int|
                0 <= i < fields.len() && fields[i].0 == key && fields[i].1 == v,
            None => true,
        },
    decreases fields,
{
    if fields.len() > 0 {
        if fields[0].0 != key {
            let sub = fields.subrange(1, fields.len() as int);
            lemma_obj_get_in(sub, key);
            match obj_get(fields, key) {
                Some(v) => {
                    let i = choose|i: int|
                        0 <= i < sub.len() && sub[i].0 == key && sub[i].1 == v;
                    assert(fields[i + 1].0 == key && fields[i + 1].1 == v);
                }
                None => {}
            }
        }
    }
}

impl Process {
    /// Converts to the wire form.
    pub fn to_value(&self) -> (r: Doc)
        ensures
            r@ == enc_process(self@),
        decreases self,
    {
        let mut fields: Vec<(String, Doc)> = Vec::new();
        proof {
            lemma_entries_view(fields@);
        }
        match &self.pid {
            Some(n) => push_field(&mut fields, "pid", Doc::Int(*n as i64)),
            None => (),
        }
        match &self.name {
            Some(s) => push_field(&mut fields, "name", Doc::Str(s.clone())),
            None => (),
        }
        match &self.cwd {
            Some(s) => push_field(&mut fields, "cwd", Doc::Str(s.clone())),
            None => (),
        }
        match &self.executable {
            Some(f) => push_field(&mut fields, "executable", f.to_value()),
            None => (),
        }
        match &self.parent {
            Some(b) => {
                proof {
                    assert(decreases_to!(*self => self.parent));
                }
                let pv = b.to_value();
                push_field(&mut fields, "parent", pv);
            }
            None => (),
        }
        match &self.command_line {
            Some(s) => push_field(&mut fields, "command_line", Doc::Str(s.clone())),
            None => (),
        }
        let r = Doc::Obj(fields);
        proof {
            match self@ {
                ProcessV::Node { pid, name, cwd, executable, parent, command_line } => {
                    let parent_enc: Option<ValueV> = match parent {
                        Some(b) => Some(enc_process(*b)),
                        None => None,
                    };
                    assert(entries_view(fields@) =~= opt_field("pid"@, enc_opt_u32(pid))
                        + opt_field("name"@, enc_opt_text(name))
                        + opt_field("cwd"@, enc_opt_text(cwd))
                        + opt_field("executable"@, enc_opt_filev(executable))
                        + opt_field("parent"@, parent_enc)
                        + opt_field("command_line"@, enc_opt_text(command_line)));
                }
            }
        }
        r
    }

    /// Reads the wire form back.
    pub fn from_value(v: &Doc) -> (r: Result<Self, Error>)
        ensures
            match r {
                Ok(p) => dec_process(v@) == Some(p@),
                Err(_) => dec_process(v@).is_none(),
            },
        decreases v,
    {
        let fields = match v {
            Doc::Obj(fields) => fields,
            _ => {
                return Err(Error::codec("expected a process map"));
            }
        };
        proof {
            lemma_entries_view(fields@);
        }
        let pid = match obj_find(fields, "pid") {
            Some(pv) => match pv {
                Doc::Int(n) => {
                    if *n >= 0 && *n <= 4294967295 {
                        Some(*n as u32)
                    } else {
                        return Err(Error::codec("process id out of range"));
                    }
                }
                _ => {
                    return Err(Error::codec("expected a process id"));
                }
            },
            None => None,
        };
        let name = match read_opt_text(fields, "name") {
            Ok(o) => o,
            Err(e) => {
                return Err(e);
            }
        };
        let cwd = match read_opt_text(fields, "cwd") {
            Ok(o) => o,
            Err(e) => {
                return Err(e);
            }
        };
        let executable = match obj_find(fields, "executable") {
            Some(fv) => match File::from_value(fv) {
                Ok(f) => Some(f),
                Err(e) => {
                    return Err(e);
                }
            },
            None => None,
        };
        let parent = match obj_find(fields, "parent") {
            Some(pv) => {
                proof {
                    let i = choose|i: int|
                        0 <= i < fields@.len() && #[trigger] fields@[i].1 == *pv
                            && fields@[i].0@ == ("parent")@;
                    assert(decreases_to!(*v => v->Obj_0));
                    assert(decreases_to!(v->Obj_0 => v->Obj_0@));
                    assert(decreases_to!(v->Obj_0@ => v->Obj_0@[i]));
                    assert(decreases_to!(v->Obj_0@[i] => v->Obj_0@[i].1));
                    assert(v->Obj_0@[i].1 == *pv);
                }
                match Process::from_value(pv) {
                    Ok(p) => Some(Box::new(p)),
                    Err(e) => {
                        return Err(e);
                    }
                }
            }
            None => None,
        };
        let command_line = match read_opt_text(fields, "command_line") {
            Ok(o) => o,
            Err(e) => {
                return Err(e);
            }
        };
        Ok(Process { pid, name, cwd, executable, parent, command_line })
    }
}

/// Encoding a process and decoding the result gives the process back.
#[verifier::rlimit(100)]
pub proof fn lemma_process_round_trip(p: ProcessV)
    ensures
        dec_process(enc_process(p)) == Some(p),
    decreases p,
{
    match p {
        ProcessV::Node { pid, name, cwd, executable, parent, command_line } => {
            let parent_enc: Option<ValueV> = match parent {
                Some(b) => Some(enc_process(*b)),
                None => None,
            };
    reveal_strlit("pid");
    reveal_strlit("name");
    reveal_strlit("cwd");
    reveal_strlit("executable");
    reveal_strlit("parent");
    reveal_strlit("command_line");
    assert(("pid")@.len() == 3);
    assert(("name")@.len() == 4);
    assert(("cwd")@.len() == 3);
    assert(("executable")@.len() == 10);
    assert(("parent")@.len() == 6);
    assert(("command_line")@.len() == 12);
    assert(("pid")@[0] == 'p');
    assert(("pid")@[1] == 'i');
    assert(("pid")@[2] == 'd');
    assert(("cwd")@[0] == 'c');
    assert(("cwd")@[1] == 'w');
    assert(("cwd")@[2] == 'd');
    let f0 = opt_field("pid"@, enc_opt_u32(pid));
    let f1 = opt_field("name"@, enc_opt_text(name));
    let f2 = opt_field("cwd"@, enc_opt_text(cwd));
    let f3 = opt_field("executable"@, enc_opt_filev(executable));
    let f4 = opt_field("parent"@, parent_enc);
    let f5 = opt_field("command_line"@, enc_opt_text(command_line));
    lemma_opt_field_get("pid"@, enc_opt_u32(pid), "pid"@);
    lemma_opt_field_get("pid"@, enc_opt_u32(pid), "name"@);
    lemma_opt_field_get("pid"@, enc_opt_u32(pid), "cwd"@);
    lemma_opt_field_get("pid"@, enc_opt_u32(pid), "executable"@);
    lemma_opt_field_get("pid"@, enc_opt_u32(pid), "parent"@);
    lemma_opt_field_get("pid"@, enc_opt_u32(pid), "command_line"@);
    lemma_opt_field_get("name"@, enc_opt_text(name), "pid"@);
    lemma_opt_field_get("name"@, enc_opt_text(name), "name"@);
    lemma_opt_field_get("name"@, enc_opt_text(name), "cwd"@);
    lemma_opt_field_get("name"@, enc_opt_text(name), "executable"@);
    lemma_opt_field_get("name"@, enc_opt_text(name), "parent"@);
    lemma_opt_field_get("name"@, enc_opt_text(name), "command_line"@);
    lemma_opt_field_get("cwd"@, enc_opt_text(cwd), "pid"@);
    lemma_opt_field_get("cwd"@, enc_opt_text(cwd), "name"@);
    lemma_opt_field_get("cwd"@, enc_opt_text(cwd), "cwd"@);
    lemma_opt_field_get("cwd"@, enc_opt_text(cwd), "executable"@);
    lemma_opt_field_get("cwd"@, enc_opt_text(cwd), "parent"@);
    lemma_opt_field_get("cwd"@, enc_opt_text(cwd), "command_line"@);
    lemma_opt_field_get("executable"@, enc_opt_filev(executable), "pid"@);
    lemma_opt_field_get("executable"@, enc_opt_filev(executable), "name"@);
    lemma_opt_field_get("executable"@, enc_opt_filev(executable), "cwd"@);
    lemma_opt_field_get("executable"@, enc_opt_filev(executable), "executable"@);
    lemma_opt_field_get("executable"@, enc_opt_filev(executable), "parent"@);
    lemma_opt_field_get("executable"@, enc_opt_filev(executable), "command_line"@);
    lemma_opt_field_get("parent"@, parent_enc, "pid"@);
    lemma_opt_field_get("parent"@, parent_enc, "name"@);
    lemma_opt_field_get("parent"@, parent_enc, "cwd"@);
    lemma_opt_field_get("parent"@, parent_enc, "executable"@);
    lemma_opt_field_get("parent"@, parent_enc, "parent"@);
    lemma_opt_field_get("parent"@, parent_enc, "command_line"@);
    lemma_opt_field_get("command_line"@, enc_opt_text(command_line), "pid"@);
    lemma_opt_field_get("command_line"@, enc_opt_text(command_line), "name"@);
    lemma_opt_field_get("command_line"@, enc_opt_text(command_line), "cwd"@);
    lemma_opt_field_get("command_line"@, enc_opt_text(command_line), "executable"@);
    lemma_opt_field_get("command_line"@, enc_opt_text(command_line), "parent"@);
    lemma_opt_field_get("command_line"@, enc_opt_text(command_line), "command_line"@);
    lemma_obj_get_append(f0, f1, "pid"@);
    lemma_obj_get_append((f0 + f1), f2, "pid"@);
    lemma_obj_get_append(((f0 + f1) + f2), f3, "pid"@);
    lemma_obj_get_append((((f0 + f1) + f2) + f3), f4, "pid"@);
    lemma_obj_get_append(((((f0 + f1) + f2) + f3) + f4), f5, "pid"@);
    lemma_obj_get_append(f0, f1, "name"@);
    lemma_obj_get_append((f0 + f1), f2, "name"@);
    lemma_obj_get_append(((f0 + f1) + f2), f3, "name"@);
    lemma_obj_get_append((((f0 + f1) + f2) + f3), f4, "name"@);
    lemma_obj_get_append(((((f0 + f1) + f2) + f3) + f4), f5, "name"@);
    lemma_obj_get_append(f0, f1, "cwd"@);
    lemma_obj_get_append((f0 + f1), f2, "cwd"@);
    lemma_obj_get_append(((f0 + f1) + f2), f3, "cwd"@);
    lemma_obj_get_append((((f0 + f1) + f2) + f3), f4, "cwd"@);
    lemma_obj_get_append(((((f0 + f1) + f2) + f3) + f4), f5, "cwd"@);
    lemma_obj_get_append(f0, f1, "executable"@);
    lemma_obj_get_append((f0 + f1), f2, "executable"@);
    lemma_obj_get_append(((f0 + f1) + f2), f3, "executable"@);
    lemma_obj_get_append((((f0 + f1) + f2) + f3), f4, "executable"@);
    lemma_obj_get_append(((((f0 + f1) + f2) + f3) + f4), f5, "executable"@);
    lemma_obj_get_append(f0, f1, "parent"@);
    lemma_obj_get_append((f0 + f1), f2, "parent"@);
    lemma_obj_get_append(((f0 + f1) + f2), f3, "parent"@);
    lemma_obj_get_append((((f0 + f1) + f2) + f3), f4, "parent"@);
    lemma_obj_get_append(((((f0 + f1) + f2) + f3) + f4), f5, "parent"@);
    lemma_obj_get_append(f0, f1, "command_line"@);
    lemma_obj_get_append((f0 + f1), f2, "command_line"@);
    lemma_obj_get_append(((f0 + f1) + f2), f3, "command_line"@);
    lemma_obj_get_append((((f0 + f1) + f2) + f3), f4, "command_line"@);
    lemma_obj_get_append(((((f0 + f1) + f2) + f3) + f4), f5, "command_line"@);
    let fields = f0 + f1 + f2 + f3 + f4 + f5;
    assert(obj_get(fields, "pid"@) == enc_opt_u32(pid));
    assert(obj_get(fields, "name"@) == enc_opt_text(name));
    assert(obj_get(fields, "cwd"@) == enc_opt_text(cwd));
    assert(obj_get(fields, "executable"@) == enc_opt_filev(executable));
    assert(obj_get(fields, "parent"@) == parent_enc);
    assert(obj_get(fields, "command_line"@) == enc_opt_text(command_line));
            match executable {
                Some(f) => {
                    lemma_file_round_trip(f);
                }
                None => {}
            }
            match parent {
                Some(b) => {
                    lemma_process_round_trip(*b);
                }
                None => {}
            }
        }
    }
}

// ---------------------------------------------------------------------------
// Lists of named things
// ---------------------------------------------------------------------------

/// The wire form of a feature list.
pub open spec fn enc_features(fs: Seq<Feature>) -> Seq<ValueV>
    decreases fs,
{
    if fs.len() == 0 {
        Seq::empty()
    } else {
        seq![ValueV::Str(feature_text(fs[0]))] + enc_features(fs.subrange(1, fs.len() as int))
    }
}

/// The feature list a value list names, if every entry is one.
pub open spec fn dec_features(items: Seq<ValueV>) -> Option<Seq<Feature>>
    decreases items,
{
    if items.len() == 0 {
        Some(Seq::empty())
    } else {
        match dec_text(items[0]) {
            Some(s) => match parse_feature(s) {
                Some(f) => match dec_features(items.subrange(1, items.len() as int)) {
                    Some(rest) => Some(seq![f] + rest),
                    None => None,
                },
                None => None,
            },
            None => None,
        }
    }
}

/// Converts a feature list to the wire form.
#[verifier::loop_isolation(false)]
pub fn features_to_value(fs: &Vec<Feature>) -> (r: Doc)
    ensures
        r@ == ValueV::Arr(enc_features(fs@)),
{
    let mut items: Vec<Doc> = Vec::new();
    let mut i: usize = 0;
    while i < fs.len()
        invariant
            i <= fs.len(),
            items@.len() == i,
            forall|j: int| 0 <= j < i ==> #[trigger] crate::value::value_view(&items@[j])
                == ValueV::Str(feature_text(fs@[j])),
        decreases fs.len() - i,
    {
        items.push(Doc::text(fs[i].as_str()));
        i += 1;
    }
    let r = Doc::Arr(items);
    proof {
        lemma_vals_view(items@);
        lemma_enc_features(fs@);
        assert(vals_view(items@) =~= enc_features(fs@));
    }
    r
}

pub proof fn lemma_enc_features(fs: Seq<Feature>)
    ensures
        enc_features(fs).len() == fs.len(),
        forall|i: int| 0 <= i < fs.len() ==> enc_features(fs)[i] == ValueV::Str(
            feature_text(fs[i]),
        ),
    decreases fs,
{
    if fs.len() > 0 {
        let sub = fs.subrange(1, fs.len() as int);
        lemma_enc_features(sub);
        assert forall|i: int| 0 <= i < fs.len() implies enc_features(fs)[i] == ValueV::Str(
            feature_text(fs[i]),
        ) by {
            if i > 0 {
                assert(sub[i - 1] == fs[i]);
            }
        }
    }
}

/// Reads a feature list back.
#[verifier::loop_isolation(false)]
pub fn features_from_value(v: &Doc) -> (r: Result<Vec<Feature>, Error>)
    ensures
        match r {
            Ok(fs) => (v@ matches ValueV::Arr(items) && dec_features(items) == Some(fs@)),
            Err(_) => (match v@ {
                ValueV::Arr(items) => dec_features(items).is_none(),
                _ => true,
            }),
        },
{
    let items = match v {
        Doc::Arr(items) => items,
        _ => {
            return Err(Error::codec("expected a feature list"));
        }
    };
    proof {
        lemma_vals_view(items@);
    }
    let mut out: Vec<Feature> = Vec::new();
    let mut i: usize = 0;
    proof {
        assert(vals_view(items@).subrange(0, items@.len() as int) =~= vals_view(items@));
        match dec_features(vals_view(items@)) {
            Some(rest) => {
                assert(out@ + rest =~= rest);
            }
            None => {}
        }
    }
    while i < items.len()
        invariant
            i <= items.len(),
            out@.len() == i,
            dec_features(vals_view(items@)) == (match dec_features(
                vals_view(items@).subrange(i as int, items@.len() as int),
            ) {
                Some(rest) => Some(out@ + rest),
                None => None::<Seq<Feature>>,
            }),
        decreases items.len() - i,
    {
        let ghost pre = vals_view(items@).subrange(i as int, items@.len() as int);
        proof {
            assert(pre[0] == vals_view(items@)[i as int]);
            assert(pre.subrange(1, pre.len() as int)
                =~= vals_view(items@).subrange(i + 1, items@.len() as int));
        }
        let f = match &items[i] {
            Doc::Str(s) => match Feature::from_str(s.as_str()) {
                Ok(f) => f,
                Err(_) => {
                    return Err(Error::codec("unknown feature"));
                }
            },
            _ => {
                return Err(Error::codec("expected a feature name"));
            }
        };
        let ghost out_old = out@;
        out.push(f);
        proof {
            match dec_features(vals_view(items@).subrange(i + 1, items@.len() as int)) {
                Some(rest) => {
                    assert(dec_features(pre) == Some(seq![f] + rest));
                    assert(out_old + (seq![f] + rest) =~= out@ + rest);
                }
                None => {
                    assert(dec_features(pre).is_none());
                }
            }
        }
        i += 1;
    }
    proof {
        assert(vals_view(items@).subrange(items@.len() as int, items@.len() as int)
            =~= Seq::<ValueV>::empty());
        assert(out@ + Seq::<Feature>::empty() =~= out@);
    }
    Ok(out)
}

/// Encoding a feature list and decoding the result gives the list back.
pub proof fn lemma_features_round_trip(fs: Seq<Feature>)
    ensures
        dec_features(enc_features(fs)) == Some(fs),
    decreases fs,
{
    if fs.len() == 0 {
        assert(fs =~= Seq::<Feature>::empty());
    } else {
        let sub = fs.subrange(1, fs.len() as int);
        lemma_features_round_trip(sub);
        crate::data::lemma_feature_round_trip(fs[0]);
        assert(enc_features(fs).subrange(1, enc_features(fs).len() as int)
            =~= enc_features(sub));
        assert(seq![fs[0]] + sub =~= fs);
    }
}

// ---------------------------------------------------------------------------
// Targets
// ---------------------------------------------------------------------------

/// True when a namespace key does not collide with a builtin target name,
/// so that a profile-defined target is read back as such.
pub open spec fn profile_key_free(profile: Seq<char>) -> bool {
    profile != "artifact"@ && profile != "command"@ && profile != "file"@ && profile
        != "device"@ && profile != "domain_name"@ && profile != "email_addr"@ && profile
        != "features"@ && profile != "ipv4_net"@ && profile != "ipv6_net"@ && profile
        != "ipv4_connection"@ && profile != "ipv6_connection"@ && profile != "mac_addr"@
        && profile != "process"@ && profile != "uri"@
}

/// A target round-trips when its parts do and, for a profile-defined
/// target, the namespace is valid and collides with no builtin name.
pub open spec fn target_codec_wf(t: TargetV) -> bool {
    target_wf(t) && (match t {
        TargetV::ProfileDefined { profile, name, payload } => profile_key_free(profile),
        _ => true,
    })
}

/// The wire form of a target: one field whose key names the kind.
pub open spec fn enc_target(t: TargetV) -> ValueV {
    match t {
        TargetV::Artifact(a) => ValueV::Obj(one_field("artifact"@, enc_artifact(a))),
        TargetV::Command(c) => ValueV::Obj(one_field("command"@, ValueV::Str(c))),
        TargetV::Device(d) => ValueV::Obj(one_field("device"@, enc_device(d))),
        TargetV::DomainName(d) => ValueV::Obj(one_field("domain_name"@, ValueV::Str(d))),
        TargetV::EmailAddr(e) => ValueV::Obj(one_field("email_addr"@, ValueV::Str(e))),
        TargetV::Features(fs) => ValueV::Obj(
            one_field("features"@, ValueV::Arr(enc_features(fs))),
        ),
        TargetV::File(f) => ValueV::Obj(one_field("file"@, enc_file(f))),
        TargetV::Ipv4Net(n) => ValueV::Obj(one_field("ipv4_net"@, ValueV::Str(ipv4_text(n)))),
        TargetV::Ipv6Net(n) => ValueV::Obj(one_field("ipv6_net"@, ValueV::Str(ipv6_text(n)))),
        TargetV::Ipv4Connection(c) => ValueV::Obj(one_field("ipv4_connection"@, enc_conn4(c))),
        TargetV::Ipv6Connection(c) => ValueV::Obj(one_field("ipv6_connection"@, enc_conn6(c))),
        TargetV::MacAddr(m) => ValueV::Obj(one_field("mac_addr"@, ValueV::Str(mac_text(m)))),
        TargetV::Process(p) => ValueV::Obj(one_field("process"@, enc_process(p))),
        TargetV::Uri(u) => ValueV::Obj(one_field("uri"@, ValueV::Str(u))),
        TargetV::ProfileDefined { profile, name, payload } => ValueV::Obj(
            one_field(profile, ValueV::Obj(one_field(name, payload))),
        ),
    }
}

/// The target a value names: a single-key map, the key either a builtin
/// kind or a valid namespace identifier over a single-pair payload.
pub open spec fn dec_target(v: ValueV) -> Option<TargetV> {
    match dec_obj(v) {
        Some(fields) => if fields.len() == 1 {
            let key = fields[0].0;
            let val = fields[0].1;
            if key == "artifact"@ {
                match dec_artifact(val) {
                    Some(a) => Some(TargetV::Artifact(a)),
                    None => None,
                }
            } else if key == "command"@ {
                match dec_text(val) {
                    Some(c) => Some(TargetV::Command(c)),
                    None => None,
                }
            } else if key == "device"@ {
                match dec_device(val) {
                    Some(d) => Some(TargetV::Device(d)),
                    None => None,
                }
            } else if key == "domain_name"@ {
                match dec_text(val) {
                    Some(d) => Some(TargetV::DomainName(d)),
                    None => None,
                }
            } else if key == "email_addr"@ {
                match dec_text(val) {
                    Some(e) => Some(TargetV::EmailAddr(e)),
                    None => None,
                }
            } else if key == "features"@ {
                match dec_arr(val) {
                    Some(items) => match dec_features(items) {
                        Some(fs) => Some(TargetV::Features(fs)),
                        None => None,
                    },
                    None => None,
                }
            } else if key == "file"@ {
                match dec_file(val) {
                    Some(f) => Some(TargetV::File(f)),
                    None => None,
                }
            } else if key == "ipv4_net"@ {
                match dec_text(val) {
                    Some(s) => match parse_ipv4net(s) {
                        Some(n) => Some(TargetV::Ipv4Net(n)),
                        None => None,
                    },
                    None => None,
                }
            } else if key == "ipv6_net"@ {
                match dec_text(val) {
                    Some(s) => match parse_ipv6net(s) {
                        Some(n) => Some(TargetV::Ipv6Net(n)),
                        None => None,
                    },
                    None => None,
                }
            } else if key == "ipv4_connection"@ {
                match dec_conn4(val) {
                    Some(c) => Some(TargetV::Ipv4Connection(c)),
                    None => None,
                }
            } else if key == "ipv6_connection"@ {
                match dec_conn6(val) {
                    Some(c) => Some(TargetV::Ipv6Connection(c)),
                    None => None,
                }
            } else if key == "mac_addr"@ {
                match dec_text(val) {
                    Some(s) => match parse_mac(s) {
                        Some(m) => Some(TargetV::MacAddr(m)),
                        None => None,
                    },
                    None => None,
                }
            } else if key == "process"@ {
                match dec_process(val) {
                    Some(p) => Some(TargetV::Process(p)),
                    None => None,
                }
            } else if key == "uri"@ {
                match dec_text(val) {
                    Some(u) => Some(TargetV::Uri(u)),
                    None => None,
                }
            } else if nsid_valid(key) {
                match dec_obj(val) {
                    Some(inner) => if inner.len() == 1 {
                        Some(
                            TargetV::ProfileDefined {
                                profile: key,
                                name: inner[0].0,
                                payload: inner[0].1,
                            },
                        )
                    } else {
                        None
                    },
                    None => None,
                }
            } else {
                None
            }
        } else {
            None
        },
        None => None,
    }
}

impl Target {
    /// Converts to the wire form.
    pub fn to_value(&self) -> (r: Doc)
        ensures
            r@ == enc_target(self@),
    {
        match self {
            Target::Artifact(a) => wrap_one("artifact", a.to_value()),
            Target::Command(c) => wrap_one("command", Doc::Str(c.clone())),
            Target::Device(d) => wrap_one("device", d.to_value()),
            Target::DomainName(d) => wrap_one("domain_name", Doc::text(d.as_str())),
            Target::EmailAddr(e) => wrap_one("email_addr", Doc::text(e.as_str())),
            Target::Features(fs) => wrap_one("features", features_to_value(fs)),
            Target::File(f) => wrap_one("file", f.to_value()),
            Target::Ipv4Net(n) => wrap_one("ipv4_net", Doc::Str(n.to_text())),
            Target::Ipv6Net(n) => wrap_one("ipv6_net", Doc::Str(n.to_text())),
            Target::Ipv4Connection(c) => wrap_one("ipv4_connection", conn4_to_value(c)),
            Target::Ipv6Connection(c) => wrap_one("ipv6_connection", conn6_to_value(c)),
            Target::MacAddr(m) => wrap_one("mac_addr", Doc::Str(m.to_text())),
            Target::Process(p) => wrap_one("process", p.to_value()),
            Target::Uri(u) => wrap_one("uri", Doc::Str(u.clone())),
            Target::ProfileDefined(c) => {
                let mut inner: Vec<(String, Doc)> = Vec::new();
                proof {
                    lemma_entries_view(inner@);
                }
                inner.push((c.value.key.clone(), c.value.value.clone()));
                proof {
                    lemma_entries_view(inner@);
                    assert(entries_view(inner@) =~= one_field(c.value.key@, c.value.value@));
                }
                let mut fields: Vec<(String, Doc)> = Vec::new();
                proof {
                    lemma_entries_view(fields@);
                }
                fields.push((c.key.to_text(), Doc::Obj(inner)));
                let r = Doc::Obj(fields);
                proof {
                    lemma_entries_view(fields@);
                    assert(entries_view(fields@) =~= one_field(c.key@, ValueV::Obj(one_field(
                        c.value.key@,
                        c.value.value@,
                    ))));
                }
                r
            }
        }
    }

    /// Reads the wire form back.
    pub fn from_value(v: &Doc) -> (r: Result<Self, Error>)
        ensures
            match r {
                Ok(t) => dec_target(v@) == Some(t@),
                Err(_) => dec_target(v@).is_none(),
            },
    {
        let fields = match v {
            Doc::Obj(fields) => fields,
            _ => {
                return Err(Error::codec("expected a target map"));
            }
        };
        proof {
            lemma_entries_view(fields@);
        }
        if fields.len() != 1 {
            return Err(Error::codec("expected a single-key target"));
        }
        let key = &fields[0].0;
        let val = &fields[0].1;
        if crate::str_eq(key.as_str(), "artifact") {
            match Artifact::from_value(val) {
                Ok(a) => Ok(Target::Artifact(a)),
                Err(e) => Err(e),
            }
        } else if crate::str_eq(key.as_str(), "command") {
            match val {
                Doc::Str(c) => Ok(Target::Command(c.clone())),
                _ => Err(Error::codec("expected a command identifier")),
            }
        } else if crate::str_eq(key.as_str(), "device") {
            match Device::from_value(val) {
                Ok(d) => Ok(Target::Device(d)),
                Err(e) => Err(e),
            }
        } else if crate::str_eq(key.as_str(), "domain_name") {
            match val {
                Doc::Str(d) => Ok(Target::DomainName(DomainName::from_str(d.as_str()))),
                _ => Err(Error::codec("expected a domain name")),
            }
        } else if crate::str_eq(key.as_str(), "email_addr") {
            match val {
                Doc::Str(e) => Ok(Target::EmailAddr(EmailAddr::from_str(e.as_str()))),
                _ => Err(Error::codec("expected an email address")),
            }
        } else if crate::str_eq(key.as_str(), "features") {
            match features_from_value(val) {
                Ok(fs) => Ok(Target::Features(fs)),
                Err(e) => Err(e),
            }
        } else if crate::str_eq(key.as_str(), "file") {
            match File::from_value(val) {
                Ok(f) => Ok(Target::File(f)),
                Err(e) => Err(e),
            }
        } else if crate::str_eq(key.as_str(), "ipv4_net") {
            match val {
                Doc::Str(s) => match Ipv4Net::from_str(s.as_str()) {
                    Ok(n) => Ok(Target::Ipv4Net(n)),
                    Err(_) => Err(Error::codec("invalid address")),
                },
                _ => Err(Error::codec("expected an address string")),
            }
        } else if crate::str_eq(key.as_str(), "ipv6_net") {
            match val {
                Doc::Str(s) => match Ipv6Net::from_str(s.as_str()) {
                    Ok(n) => Ok(Target::Ipv6Net(n)),
                    Err(_) => Err(Error::codec("invalid address")),
                },
                _ => Err(Error::codec("expected an address string")),
            }
        } else if crate::str_eq(key.as_str(), "ipv4_connection") {
            match conn4_from_value(val) {
                Ok(c) => Ok(Target::Ipv4Connection(c)),
                Err(e) => Err(e),
            }
        } else if crate::str_eq(key.as_str(), "ipv6_connection") {
            match conn6_from_value(val) {
                Ok(c) => Ok(Target::Ipv6Connection(c)),
                Err(e) => Err(e),
            }
        } else if crate::str_eq(key.as_str(), "mac_addr") {
            match val {
                Doc::Str(s) => match MacAddr::from_str(s.as_str()) {
                    Ok(m) => Ok(Target::MacAddr(m)),
                    Err(_) => Err(Error::codec("invalid MAC address")),
                },
                _ => Err(Error::codec("expected a MAC address string")),
            }
        } else if crate::str_eq(key.as_str(), "process") {
            match Process::from_value(val) {
                Ok(p) => Ok(Target::Process(p)),
                Err(e) => Err(e),
            }
        } else if crate::str_eq(key.as_str(), "uri") {
            match val {
                Doc::Str(u) => Ok(Target::Uri(u.clone())),
                _ => Err(Error::codec("expected a uri string")),
            }
        } else {
            let profile = match Nsid::from_str(key.as_str()) {
                Ok(p) => p,
                Err(_) => {
                    return Err(Error::codec("invalid profile namespace"));
                }
            };
            let inner = match val {
                Doc::Obj(inner) => inner,
                _ => {
                    return Err(Error::codec("expected a profile-defined payload map"));
                }
            };
            proof {
                lemma_entries_view(inner@);
            }
            if inner.len() != 1 {
                return Err(Error::codec("expected a single-pair payload"));
            }
            let name = inner[0].0.clone();
            let payload = inner[0].1.clone();
            Ok(Target::ProfileDefined(Choice::new(profile, Choice::new(name, payload))))
        }
    }
}

/// Wraps a value as the only field of a map.
pub(crate) fn wrap_one(key: &str, v: Doc) -> (r: Doc)
    ensures
        r@ == ValueV::Obj(one_field(key@, v@)),
{
    let mut fields: Vec<(String, Doc)> = Vec::new();
    proof {
        lemma_entries_view(fields@);
    }
    push_field(&mut fields, key, v);
    let r = Doc::Obj(fields);
    proof {
        assert(entries_view(fields@) =~= one_field(key@, v@));
    }
    r
}

/// Encoding a well-formed target and decoding the result gives it back.
#[verifier::rlimit(100)]
pub proof fn lemma_target_round_trip(t: TargetV)
    requires
        target_codec_wf(t),
    ensures
        dec_target(enc_target(t)) == Some(t),
{
    reveal_strlit("artifact");
    reveal_strlit("command");
    reveal_strlit("file");
    reveal_strlit("device");
    reveal_strlit("domain_name");
    reveal_strlit("email_addr");
    reveal_strlit("features");
    reveal_strlit("ipv4_net");
    reveal_strlit("ipv6_net");
    reveal_strlit("ipv4_connection");
    reveal_strlit("ipv6_connection");
    reveal_strlit("mac_addr");
    reveal_strlit("process");
    reveal_strlit("uri");
    assert(("artifact")@.len() == 8);
    assert(("command")@.len() == 7);
    assert(("file")@.len() == 4);
    assert(("device")@.len() == 6);
    assert(("domain_name")@.len() == 11);
    assert(("email_addr")@.len() == 10);
    assert(("features")@.len() == 8);
    assert(("ipv4_net")@.len() == 8);
    assert(("ipv6_net")@.len() == 8);
    assert(("ipv4_connection")@.len() == 15);
    assert(("ipv6_connection")@.len() == 15);
    assert(("mac_addr")@.len() == 8);
    assert(("process")@.len() == 7);
    assert(("uri")@.len() == 3);
    assert(("artifact")@[0] == 'a');
    assert(("features")@[0] == 'f');
    assert(("ipv4_net")@[0] == 'i');
    assert(("ipv6_net")@[0] == 'i');
    assert(("mac_addr")@[0] == 'm');
    assert(("command")@[0] == 'c');
    assert(("process")@[0] == 'p');
    assert(("ipv4_net")@[3] == '4');
    assert(("ipv6_net")@[3] == '6');
    assert(("ipv4_connection")@[3] == '4');
    assert(("ipv6_connection")@[3] == '6');
    match t {
        TargetV::Artifact(a) => {
            lemma_artifact_round_trip(a);
            assert(dec_target(enc_target(t)) == Some(t));
        }
        TargetV::Command(c) => {
            assert(dec_target(enc_target(t)) == Some(t));
        }
        TargetV::DomainName(d) => {
            assert(dec_target(enc_target(t)) == Some(t));
        }
        TargetV::EmailAddr(e) => {
            assert(dec_target(enc_target(t)) == Some(t));
        }
        TargetV::Uri(u) => {
            assert(dec_target(enc_target(t)) == Some(t));
        }
        TargetV::ProfileDefined { profile, name, payload } => {
            assert(dec_target(enc_target(t)) == Some(t));
        }
        TargetV::Device(d) => {
            lemma_device_round_trip(d);
            assert(dec_target(enc_target(t)) == Some(t));
        }
        TargetV::Features(fs) => {
            lemma_features_round_trip(fs);
        }
        TargetV::File(f) => {
            lemma_file_round_trip(f);
        }
        TargetV::Ipv4Net(n) => {
            lemma_ipv4_round_trip(n);
        }
        TargetV::Ipv6Net(n) => {
            lemma_ipv6_round_trip(n);
        }
        TargetV::Ipv4Connection(c) => {
            lemma_conn4_round_trip(c);
        }
        TargetV::Ipv6Connection(c) => {
            lemma_conn6_round_trip(c);
        }
        TargetV::MacAddr(m) => {
            crate::net::lemma_mac_round_trip(m);
        }
        TargetV::Process(p) => {
            lemma_process_round_trip(p);
            assert(dec_target(enc_target(t)) == Some(t));
        }
    }
}

// ---------------------------------------------------------------------------
// Versions, profiles, and target-kind lists
// ---------------------------------------------------------------------------

/// The wire form of a version list.
pub open spec fn enc_versions(vs: Seq<Version>) -> Seq<ValueV>
    decreases vs,
{
    if vs.len() == 0 {
        Seq::empty()
    } else {
        seq![ValueV::Str(version_text(vs[0].major as int, vs[0].minor as int))] + enc_versions(
            vs.subrange(1, vs.len() as int),
        )
    }
}

/// The version list a value list names.
pub open spec fn dec_versions(items: Seq<ValueV>) -> Option<Seq<Version>>
    decreases items,
{
    if items.len() == 0 {
        Some(Seq::empty())
    } else {
        match dec_text(items[0]) {
            Some(s) => match parse_version(s) {
                Some(v) => match dec_versions(items.subrange(1, items.len() as int)) {
                    Some(rest) => Some(seq![v] + rest),
                    None => None,
                },
                None => None,
            },
            None => None,
        }
    }
}

/// Converts a version list to the wire form.
#[verifier::loop_isolation(false)]
pub fn versions_to_value(vs: &Vec<Version>) -> (r: Doc)
    ensures
        r@ == ValueV::Arr(enc_versions(vs@)),
{
    let mut items: Vec<Doc> = Vec::new();
    let mut i: usize = 0;
    while i < vs.len()
        invariant
            i <= vs.len(),
            items@.len() == i,
            forall|j: int| 0 <= j < i ==> #[trigger] crate::value::value_view(&items@[j])
                == ValueV::Str(version_text(vs@[j].major as int, vs@[j].minor as int)),
        decreases vs.len() - i,
    {
        items.push(Doc::Str(vs[i].to_text()));
        i += 1;
    }
    let r = Doc::Arr(items);
    proof {
        lemma_vals_view(items@);
        lemma_enc_versions(vs@);
        assert(vals_view(items@) =~= enc_versions(vs@));
    }
    r
}

pub proof fn lemma_enc_versions(vs: Seq<Version>)
    ensures
        enc_versions(vs).len() == vs.len(),
        forall|i: int| 0 <= i < vs.len() ==> enc_versions(vs)[i] == ValueV::Str(
            version_text(vs[i].major as int, vs[i].minor as int),
        ),
    decreases vs,
{
    if vs.len() > 0 {
        let sub = vs.subrange(1, vs.len() as int);
        lemma_enc_versions(sub);
        assert forall|i: int| 0 <= i < vs.len() implies enc_versions(vs)[i] == ValueV::Str(
            version_text(vs[i].major as int, vs[i].minor as int),
        ) by {
            if i > 0 {
                assert(sub[i - 1] == vs[i]);
            }
        }
    }
}

/// Reads a version list back.
#[verifier::loop_isolation(false)]
pub fn versions_from_value(v: &Doc) -> (r: Result<Vec<Version>, Error>)
    ensures
        match r {
            Ok(vs) => (v@ matches ValueV::Arr(items) && dec_versions(items) == Some(vs@)),
            Err(_) => (match v@ {
                ValueV::Arr(items) => dec_versions(items).is_none(),
                _ => true,
            }),
        },
{
    let items = match v {
        Doc::Arr(items) => items,
        _ => {
            return Err(Error::codec("expected a version list"));
        }
    };
    proof {
        lemma_vals_view(items@);
    }
    let mut out: Vec<Version> = Vec::new();
    let mut i: usize = 0;
    proof {
        assert(vals_view(items@).subrange(0, items@.len() as int) =~= vals_view(items@));
        match dec_versions(vals_view(items@)) {
            Some(rest) => {
                assert(out@ + rest =~= rest);
            }
            None => {}
        }
    }
    while i < items.len()
        invariant
            i <= items.len(),
            out@.len() == i,
            dec_versions(vals_view(items@)) == (match dec_versions(
                vals_view(items@).subrange(i as int, items@.len() as int),
            ) {
                Some(rest) => Some(out@ + rest),
                None => None::<Seq<Version>>,
            }),
        decreases items.len() - i,
    {
        let ghost pre = vals_view(items@).subrange(i as int, items@.len() as int);
        proof {
            assert(pre[0] == vals_view(items@)[i as int]);
            assert(pre.subrange(1, pre.len() as int)
                =~= vals_view(items@).subrange(i + 1, items@.len() as int));
        }
        let ver = match &items[i] {
            Doc::Str(s) => match Version::from_str(s.as_str()) {
                Ok(ver) => ver,
                Err(_) => {
                    return Err(Error::codec("invalid version"));
                }
            },
            _ => {
                return Err(Error::codec("expected a version string"));
            }
        };
        let ghost out_old = out@;
        out.push(ver);
        proof {
            match dec_versions(vals_view(items@).subrange(i + 1, items@.len() as int)) {
                Some(rest) => {
                    assert(dec_versions(pre) == Some(seq![ver] + rest));
                    assert(out_old + (seq![ver] + rest) =~= out@ + rest);
                }
                None => {
                    assert(dec_versions(pre).is_none());
                }
            }
        }
        i += 1;
    }
    proof {
        assert(vals_view(items@).subrange(items@.len() as int, items@.len() as int)
            =~= Seq::<ValueV>::empty());
        assert(out@ + Seq::<Version>::empty() =~= out@);
    }
    Ok(out)
}

/// Encoding a version list and decoding the result gives the list back.
pub proof fn lemma_versions_round_trip(vs: Seq<Version>)
    ensures
        dec_versions(enc_versions(vs)) == Some(vs),
    decreases vs,
{
    if vs.len() == 0 {
        assert(vs =~= Seq::<Version>::empty());
    } else {
        let sub = vs.subrange(1, vs.len() as int);
        lemma_versions_round_trip(sub);
        crate::version::lemma_version_round_trip(vs[0]);
        assert(enc_versions(vs).subrange(1, enc_versions(vs).len() as int)
            =~= enc_versions(sub));
        assert(seq![vs[0]] + sub =~= vs);
    }
}

/// The wire form of a profile list.
pub open spec fn enc_nsids(ps: Seq<Seq<char>>) -> Seq<ValueV>
    decreases ps,
{
    if ps.len() == 0 {
        Seq::empty()
    } else {
        seq![ValueV::Str(ps[0])] + enc_nsids(ps.subrange(1, ps.len() as int))
    }
}

/// The profile list a value list names; every entry must be a valid
/// namespace identifier.
pub open spec fn dec_nsids(items: Seq<ValueV>) -> Option<Seq<Seq<char>>>
    decreases items,
{
    if items.len() == 0 {
        Some(Seq::empty())
    } else {
        match dec_text(items[0]) {
            Some(s) => if nsid_valid(s) {
                match dec_nsids(items.subrange(1, items.len() as int)) {
                    Some(rest) => Some(seq![s] + rest),
                    None => None,
                }
            } else {
                None
            },
            None => None,
        }
    }
}

/// Converts a profile list to the wire form.
#[verifier::loop_isolation(false)]
pub fn nsids_to_value(ps: &Vec<Nsid>) -> (r: Doc)
    ensures
        r@ == ValueV::Arr(enc_nsids(nsids_view(ps@))),
{
    proof {
        lemma_nsids_view(ps@);
    }
    let mut items: Vec<Doc> = Vec::new();
    let mut i: usize = 0;
    while i < ps.len()
        invariant
            i <= ps.len(),
            items@.len() == i,
            forall|j: int| 0 <= j < i ==> #[trigger] crate::value::value_view(&items@[j])
                == ValueV::Str(ps@[j]@),
        decreases ps.len() - i,
    {
        items.push(Doc::Str(ps[i].to_text()));
        i += 1;
    }
    let r = Doc::Arr(items);
    proof {
        lemma_vals_view(items@);
        lemma_enc_nsids(nsids_view(ps@));
        assert(vals_view(items@) =~= enc_nsids(nsids_view(ps@)));
    }
    r
}

pub proof fn lemma_enc_nsids(ps: Seq<Seq<char>>)
    ensures
        enc_nsids(ps).len() == ps.len(),
        forall|i: int| 0 <= i < ps.len() ==> enc_nsids(ps)[i] == ValueV::Str(ps[i]),
    decreases ps,
{
    if ps.len() > 0 {
        let sub = ps.subrange(1, ps.len() as int);
        lemma_enc_nsids(sub);
        assert forall|i: int| 0 <= i < ps.len() implies enc_nsids(ps)[i] == ValueV::Str(ps[i])
            by {
            if i > 0 {
                assert(sub[i - 1] == ps[i]);
            }
        }
    }
}

/// Reads a profile list back.
#[verifier::loop_isolation(false)]
pub fn nsids_from_value(v: &Doc) -> (r: Result<Vec<Nsid>, Error>)
    ensures
        match r {
            Ok(ps) => (v@ matches ValueV::Arr(items) && dec_nsids(items) == Some(
                nsids_view(ps@),
            )),
            Err(_) => (match v@ {
                ValueV::Arr(items) => dec_nsids(items).is_none(),
                _ => true,
            }),
        },
{
    let items = match v {
        Doc::Arr(items) => items,
        _ => {
            return Err(Error::codec("expected a profile list"));
        }
    };
    proof {
        lemma_vals_view(items@);
    }
    let mut out: Vec<Nsid> = Vec::new();
    let mut i: usize = 0;
    proof {
        lemma_nsids_view(out@);
        assert(vals_view(items@).subrange(0, items@.len() as int) =~= vals_view(items@));
        match dec_nsids(vals_view(items@)) {
            Some(rest) => {
                assert(nsids_view(out@) + rest =~= rest);
            }
            None => {}
        }
    }
    while i < items.len()
        invariant
            i <= items.len(),
            out@.len() == i,
            dec_nsids(vals_view(items@)) == (match dec_nsids(
                vals_view(items@).subrange(i as int, items@.len() as int),
            ) {
                Some(rest) => Some(nsids_view(out@) + rest),
                None => None::<Seq<Seq<char>>>,
            }),
        decreases items.len() - i,
    {
        let ghost pre = vals_view(items@).subrange(i as int, items@.len() as int);
        proof {
            assert(pre[0] == vals_view(items@)[i as int]);
            assert(pre.subrange(1, pre.len() as int)
                =~= vals_view(items@).subrange(i + 1, items@.len() as int));
        }
        let p = match &items[i] {
            Doc::Str(s) => match Nsid::from_str(s.as_str()) {
                Ok(p) => p,
                Err(_) => {
                    return Err(Error::codec("invalid profile namespace"));
                }
            },
            _ => {
                return Err(Error::codec("expected a profile string"));
            }
        };
        let ghost out_old = out@;
        out.push(p);
        proof {
            lemma_nsids_view(out@);
            lemma_nsids_view(out_old);
            assert(nsids_view(out@) =~= nsids_view(out_old) + seq![p@]);
            match dec_nsids(vals_view(items@).subrange(i + 1, items@.len() as int)) {
                Some(rest) => {
                    assert(dec_nsids(pre) == Some(seq![p@] + rest));
                    assert(nsids_view(out_old) + (seq![p@] + rest) =~= nsids_view(out@) + rest);
                }
                None => {
                    assert(dec_nsids(pre).is_none());
                }
            }
        }
        i += 1;
    }
    proof {
        assert(vals_view(items@).subrange(items@.len() as int, items@.len() as int)
            =~= Seq::<ValueV>::empty());
        assert(nsids_view(out@) + Seq::<Seq<char>>::empty() =~= nsids_view(out@));
    }
    Ok(out)
}

/// Encoding a valid profile list and decoding the result gives it back.
pub proof fn lemma_nsids_round_trip(ps: Seq<Seq<char>>)
    requires
        forall|i: int| 0 <= i < ps.len() ==> nsid_valid(#[trigger] ps[i]),
    ensures
        dec_nsids(enc_nsids(ps)) == Some(ps),
    decreases ps,
{
    if ps.len() == 0 {
        assert(ps =~= Seq::<Seq<char>>::empty());
    } else {
        let sub = ps.subrange(1, ps.len() as int);
        lemma_nsids_round_trip(sub);
        assert(enc_nsids(ps).subrange(1, enc_nsids(ps).len() as int) =~= enc_nsids(sub));
        assert(seq![ps[0]] + sub =~= ps);
    }
}

/// The wire form of a target-kind list.
pub open spec fn enc_tts(ts: Seq<TargetTypeV>) -> Seq<ValueV>
    decreases ts,
{
    if ts.len() == 0 {
        Seq::empty()
    } else {
        seq![ValueV::Str(target_type_text(ts[0]))] + enc_tts(ts.subrange(1, ts.len() as int))
    }
}

/// The target-kind list a value list names.
pub open spec fn dec_tts(items: Seq<ValueV>) -> Option<Seq<TargetTypeV>>
    decreases items,
{
    if items.len() == 0 {
        Some(Seq::empty())
    } else {
        match dec_text(items[0]) {
            Some(s) => match parse_target_type(s) {
                Some(t) => match dec_tts(items.subrange(1, items.len() as int)) {
                    Some(rest) => Some(seq![t] + rest),
                    None => None,
                },
                None => None,
            },
            None => None,
        }
    }
}

/// Converts a target-kind list to the wire form.
#[verifier::loop_isolation(false)]
pub fn tts_to_value(ts: &Vec<TargetType>) -> (r: Doc)
    ensures
        r@ == ValueV::Arr(enc_tts(ts.deep_view())),
{
    let mut items: Vec<Doc> = Vec::new();
    let mut i: usize = 0;
    while i < ts.len()
        invariant
            i <= ts.len(),
            items@.len() == i,
            forall|j: int| 0 <= j < i ==> #[trigger] crate::value::value_view(&items@[j])
                == ValueV::Str(target_type_text(ts@[j]@)),
        decreases ts.len() - i,
    {
        items.push(Doc::Str(ts[i].to_text()));
        i += 1;
    }
    let r = Doc::Arr(items);
    proof {
        lemma_vals_view(items@);
        lemma_enc_tts(ts.deep_view());
        assert(ts.deep_view().len() == ts@.len());
        assert(vals_view(items@) =~= enc_tts(ts.deep_view()));
    }
    r
}

pub proof fn lemma_enc_tts(ts: Seq<TargetTypeV>)
    ensures
        enc_tts(ts).len() == ts.len(),
        forall|i: int| 0 <= i < ts.len() ==> enc_tts(ts)[i] == ValueV::Str(
            target_type_text(ts[i]),
        ),
    decreases ts,
{
    if ts.len() > 0 {
        let sub = ts.subrange(1, ts.len() as int);
        lemma_enc_tts(sub);
        assert forall|i: int| 0 <= i < ts.len() implies enc_tts(ts)[i] == ValueV::Str(
            target_type_text(ts[i]),
        ) by {
            if i > 0 {
                assert(sub[i - 1] == ts[i]);
            }
        }
    }
}

/// Reads a target-kind list back.
#[verifier::loop_isolation(false)]
pub fn tts_from_value(v: &Doc) -> (r: Result<Vec<TargetType>, Error>)
    ensures
        match r {
            Ok(ts) => (v@ matches ValueV::Arr(items) && dec_tts(items) == Some(ts.deep_view())),
            Err(_) => (match v@ {
                ValueV::Arr(items) => dec_tts(items).is_none(),
                _ => true,
            }),
        },
{
    let items = match v {
        Doc::Arr(items) => items,
        _ => {
            return Err(Error::codec("expected a target-kind list"));
        }
    };
    proof {
        lemma_vals_view(items@);
    }
    let mut out: Vec<TargetType> = Vec::new();
    let mut i: usize = 0;
    proof {
        assert(vals_view(items@).subrange(0, items@.len() as int) =~= vals_view(items@));
        assert(out.deep_view() =~= Seq::<TargetTypeV>::empty());
        match dec_tts(vals_view(items@)) {
            Some(rest) => {
                assert(out.deep_view() + rest =~= rest);
            }
            None => {}
        }
    }
    while i < items.len()
        invariant
            i <= items.len(),
            out@.len() == i,
            dec_tts(vals_view(items@)) == (match dec_tts(
                vals_view(items@).subrange(i as int, items@.len() as int),
            ) {
                Some(rest) => Some(out.deep_view() + rest),
                None => None::<Seq<TargetTypeV>>,
            }),
        decreases items.len() - i,
    {
        let ghost pre = vals_view(items@).subrange(i as int, items@.len() as int);
        proof {
            assert(pre[0] == vals_view(items@)[i as int]);
            assert(pre.subrange(1, pre.len() as int)
                =~= vals_view(items@).subrange(i + 1, items@.len() as int));
        }
        let t = match &items[i] {
            Doc::Str(s) => match TargetType::from_str(s.as_str()) {
                Ok(t) => t,
                Err(_) => {
                    return Err(Error::codec("invalid target kind"));
                }
            },
            _ => {
                return Err(Error::codec("expected a target-kind string"));
            }
        };
        let ghost out_old = out.deep_view();
        out.push(t);
        proof {
            assert(out.deep_view() =~= out_old + seq![t@]);
            match dec_tts(vals_view(items@).subrange(i + 1, items@.len() as int)) {
                Some(rest) => {
                    assert(dec_tts(pre) == Some(seq![t@] + rest));
                    assert(out_old + (seq![t@] + rest) =~= out.deep_view() + rest);
                }
                None => {
                    assert(dec_tts(pre).is_none());
                }
            }
        }
        i += 1;
    }
    proof {
        assert(vals_view(items@).subrange(items@.len() as int, items@.len() as int)
            =~= Seq::<ValueV>::empty());
        assert(out.deep_view() + Seq::<TargetTypeV>::empty() =~= out.deep_view());
    }
    Ok(out)
}

/// Encoding well-formed target kinds and decoding them gives them back.
pub proof fn lemma_tts_round_trip(ts: Seq<TargetTypeV>)
    requires
        forall|i: int| 0 <= i < ts.len() ==> target_type_wf(#[trigger] ts[i]),
    ensures
        dec_tts(enc_tts(ts)) == Some(ts),
    decreases ts,
{
    if ts.len() == 0 {
        assert(ts =~= Seq::<TargetTypeV>::empty());
    } else {
        let sub = ts.subrange(1, ts.len() as int);
        lemma_tts_round_trip(sub);
        crate::target::lemma_target_type_round_trip(ts[0]);
        assert(enc_tts(ts).subrange(1, enc_tts(ts).len() as int) =~= enc_tts(sub));
        assert(seq![ts[0]] + sub =~= ts);
    }
}

// ---------------------------------------------------------------------------
// Action-target pair maps
// ---------------------------------------------------------------------------

/// The wire form of a pair map: action names to target-kind lists.
pub open spec fn enc_at(m: ActionTargetsV) -> Seq<(Seq<char>, ValueV)>
    decreases m,
{
    if m.len() == 0 {
        Seq::empty()
    } else {
        seq![(action_text(m[0].0), ValueV::Arr(enc_tts(m[0].1)))] + enc_at(
            m.subrange(1, m.len() as int),
        )
    }
}

/// The pair map a field list names: each key an action, each value a list
/// of target kinds, in order.
pub open spec fn dec_at(fields: Seq<(Seq<char>, ValueV)>) -> Option<ActionTargetsV>
    decreases fields,
{
    if fields.len() == 0 {
        Some(Seq::empty())
    } else {
        match parse_action(fields[0].0) {
            Some(a) => match dec_arr(fields[0].1) {
                Some(items) => match dec_tts(items) {
                    Some(ts) => match dec_at(fields.subrange(1, fields.len() as int)) {
                        Some(rest) => Some(seq![(a, ts)] + rest),
                        None => None,
                    },
                    None => None,
                },
                None => None,
            },
            None => None,
        }
    }
}

/// Every target kind in the map is well-formed for rendering.
pub open spec fn at_codec_wf(m: ActionTargetsV) -> bool {
    forall|i: int| 0 <= i < m.len() ==> (forall|j: int|
        0 <= j < (#[trigger] m[i].1).len() ==> target_type_wf(m[i].1[j]))
}

impl ActionTargets {
    /// Converts to the wire form.
    #[verifier::loop_isolation(false)]
    pub fn to_value(&self) -> (r: Doc)
        ensures
            r@ == ValueV::Obj(enc_at(self@)),
    {
        let n = self.len();
        let mut fields: Vec<(String, Doc)> = Vec::new();
        let mut i: usize = 0;
        proof {
            lemma_entries_view(fields@);
            lemma_enc_at(self@);
        }
        while i < n
            invariant
                i <= n,
                n == self@.len(),
                fields@.len() == i,
                forall|j: int| 0 <= j < i ==> #[trigger] entries_view(fields@)[j] == (
                    action_text(self@[j].0),
                    ValueV::Arr(enc_tts(self@[j].1)),
                ),
            decreases n - i,
        {
            let entry = self.entry(i);
            let av = entry.0.to_text();
            let tv = tts_to_value(&entry.1);
            proof {
                assert(self@[i as int].0 == entry.0 && self@[i as int].1
                    == entry.1.deep_view());
            }
            let ghost fold = fields@;
            fields.push((av, tv));
            proof {
                lemma_entries_view(fields@);
                lemma_entries_view(fold);
                assert(fields@[i as int].0@ == action_text(self@[i as int].0));
                assert(crate::value::value_view(&fields@[i as int].1)
                    == ValueV::Arr(enc_tts(self@[i as int].1)));
                assert forall|j: int| 0 <= j < i + 1 implies #[trigger] entries_view(
                    fields@,
                )[j] == (action_text(self@[j].0), ValueV::Arr(enc_tts(self@[j].1))) by {
                    if j < i as int {
                        assert(fields@[j] == fold[j]);
                        assert(entries_view(fold)[j] == (fold[j].0@, crate::value::value_view(
                            &fold[j].1,
                        )));
                    }
                }
            }
            i += 1;
        }
        let r = Doc::Obj(fields);
        proof {
            lemma_entries_view(fields@);
            assert(entries_view(fields@) =~= enc_at(self@));
        }
        r
    }

    /// Reads the wire form back.
    #[verifier::loop_isolation(false)]
    pub fn from_value(v: &Doc) -> (r: Result<ActionTargets, Error>)
        ensures
            match r {
                Ok(m) => (v@ matches ValueV::Obj(fields) && dec_at(fields) == Some(m@)),
                Err(_) => (match v@ {
                    ValueV::Obj(fields) => dec_at(fields).is_none(),
                    _ => true,
                }),
            },
    {
        let fields = match v {
            Doc::Obj(fields) => fields,
            _ => {
                return Err(Error::codec("expected a pair map"));
            }
        };
        proof {
            lemma_entries_view(fields@);
        }
        let mut entries: Vec<(Action, Vec<TargetType>)> = Vec::new();
        let mut i: usize = 0;
        proof {
            lemma_at_entries_view(entries@);
            assert(entries_view(fields@).subrange(0, fields@.len() as int)
                =~= entries_view(fields@));
            assert(at_entries_view(entries@) =~= Seq::<(Action, Seq<TargetTypeV>)>::empty());
            match dec_at(entries_view(fields@)) {
                Some(rest) => {
                    assert(at_entries_view(entries@) + rest =~= rest);
                }
                None => {}
            }
        }
        while i < fields.len()
            invariant
                i <= fields.len(),
                entries@.len() == i,
                dec_at(entries_view(fields@)) == (match dec_at(
                    entries_view(fields@).subrange(i as int, fields@.len() as int),
                ) {
                    Some(rest) => Some(at_entries_view(entries@) + rest),
                    None => None::<ActionTargetsV>,
                }),
            decreases fields.len() - i,
        {
            let ghost pre = entries_view(fields@).subrange(i as int, fields@.len() as int);
            proof {
                assert(pre[0] == entries_view(fields@)[i as int]);
                assert(pre.subrange(1, pre.len() as int)
                    =~= entries_view(fields@).subrange(i + 1, fields@.len() as int));
            }
            let a = match Action::from_str(fields[i].0.as_str()) {
                Ok(a) => a,
                Err(_) => {
                    return Err(Error::codec("unknown action"));
                }
            };
            let ts = match tts_from_value(&fields[i].1) {
                Ok(ts) => ts,
                Err(e) => {
                    return Err(e);
                }
            };
            let ghost eold = entries@;
            let ghost entries_old = at_entries_view(entries@);
            entries.push((a, ts));
            proof {
                lemma_at_entries_view(entries@);
                lemma_at_entries_view(eold);
                assert(at_entries_view(entries@) =~= entries_old + seq![(a, ts.deep_view())]);
                match dec_at(entries_view(fields@).subrange(i + 1, fields@.len() as int)) {
                    Some(rest) => {
                        assert(dec_at(pre) == Some(seq![(a, ts.deep_view())] + rest));
                        assert(entries_old + (seq![(a, ts.deep_view())] + rest)
                            =~= at_entries_view(entries@) + rest);
                    }
                    None => {
                        assert(dec_at(pre).is_none());
                    }
                }
            }
            i += 1;
        }
        proof {
            assert(entries_view(fields@).subrange(fields@.len() as int, fields@.len() as int)
                =~= Seq::<(Seq<char>, ValueV)>::empty());
            assert(at_entries_view(entries@) + Seq::<(Action, Seq<TargetTypeV>)>::empty()
                =~= at_entries_view(entries@));
        }
        Ok(ActionTargets::from_entries(entries))
    }
}

pub proof fn lemma_enc_at(m: ActionTargetsV)
    ensures
        enc_at(m).len() == m.len(),
        forall|i: int| 0 <= i < m.len() ==> enc_at(m)[i] == (
            action_text(m[i].0),
            ValueV::Arr(enc_tts(m[i].1)),
        ),
    decreases m,
{
    if m.len() > 0 {
        let sub = m.subrange(1, m.len() as int);
        lemma_enc_at(sub);
        assert forall|i: int| 0 <= i < m.len() implies enc_at(m)[i] == (
            action_text(m[i].0),
            ValueV::Arr(enc_tts(m[i].1)),
        ) by {
            if i > 0 {
                assert(sub[i - 1] == m[i]);
            }
        }
    }
}

/// Encoding a well-formed pair map and decoding the result gives it back.
pub proof fn lemma_at_round_trip(m: ActionTargetsV)
    requires
        at_codec_wf(m),
    ensures
        dec_at(enc_at(m)) == Some(m),
    decreases m,
{
    if m.len() == 0 {
        assert(m =~= Seq::<(Action, Seq<TargetTypeV>)>::empty());
    } else {
        let sub = m.subrange(1, m.len() as int);
        assert(at_codec_wf(sub)) by {
            assert(forall|i: int| 0 <= i < sub.len() ==> sub[i] == m[i + 1]);
        }
        lemma_at_round_trip(sub);
        crate::action::lemma_action_round_trip(m[0].0);
        lemma_tts_round_trip(m[0].1);
        assert(enc_at(m).subrange(1, enc_at(m).len() as int) =~= enc_at(sub));
        assert(seq![(m[0].0, m[0].1)] + sub =~= m);
        assert((m[0].0, m[0].1) == m[0]);
    }
}

// ---------------------------------------------------------------------------
// Shared pieces for flattened maps
// ---------------------------------------------------------------------------

/// A key that never occurs in a field list is not found.
pub proof fn lemma_obj_get_absent(fields: Seq<(Seq<char>, ValueV)>, key: Seq<char>)
    requires
        forall|i: int| 0 <= i < fields.len() ==> (#[trigger] fields[i]).0 != key,
    ensures
        obj_get(fields, key).is_none(),
    decreases fields,
{
    if fields.len() > 0 {
        let sub = fields.subrange(1, fields.len() as int);
        assert(forall|i: int| 0 <= i < sub.len() ==> (#[trigger] sub[i]) == fields[i + 1]);
        lemma_obj_get_absent(sub, key);
    }
}

/// An optional time field: milliseconds since the epoch.
pub open spec fn enc_opt_millis(t: Option<DateTime>) -> Option<ValueV> {
    match t {
        Some(t) => Some(ValueV::Int(t.millis as int)),
        None => None,
    }
}

/// An optional duration field.
pub open spec fn enc_opt_duration(d: Option<Duration>) -> Option<ValueV> {
    match d {
        Some(d) => Some(ValueV::Int(d.millis as int)),
        None => None,
    }
}

/// An optional time field of a field map.
pub open spec fn get_opt_millis(fields: Seq<(Seq<char>, ValueV)>, key: Seq<char>) -> Option<
    Option<DateTime>,
> {
    match obj_get(fields, key) {
        Some(v) => match dec_int(v) {
            Some(n) => if n >= 0 {
                Some(Some(DateTime { millis: n as u64 }))
            } else {
                None
            },
            None => None,
        },
        None => Some(None),
    }
}

/// An optional duration field of a field map.
pub open spec fn get_opt_duration(fields: Seq<(Seq<char>, ValueV)>, key: Seq<char>) -> Option<
    Option<Duration>,
> {
    match obj_get(fields, key) {
        Some(v) => match dec_int(v) {
            Some(n) => if n >= 0 {
                Some(Some(Duration { millis: n as u64 }))
            } else {
                None
            },
            None => None,
        },
        None => Some(None),
    }
}

/// Reads an optional time field.
fn read_opt_millis(fields: &Vec<(String, Doc)>, key: &str) -> (r: Result<
    Option<DateTime>,
    Error,
>)
    ensures
        match r {
            Ok(o) => get_opt_millis(entries_view(fields@), key@) == Some(o),
            Err(_) => get_opt_millis(entries_view(fields@), key@).is_none(),
        },
{
    match obj_find(fields, key) {
        Some(v) => match v {
            Doc::Int(n) => {
                if *n >= 0 {
                    Ok(Some(DateTime::from_millis(*n as u64)))
                } else {
                    Err(Error::codec("expected a non-negative time"))
                }
            }
            _ => Err(Error::codec("expected a time in milliseconds")),
        },
        None => Ok(None),
    }
}

/// Reads an optional duration field.
fn read_opt_duration(fields: &Vec<(String, Doc)>, key: &str) -> (r: Result<
    Option<Duration>,
    Error,
>)
    ensures
        match r {
            Ok(o) => get_opt_duration(entries_view(fields@), key@) == Some(o),
            Err(_) => get_opt_duration(entries_view(fields@), key@).is_none(),
        },
{
    match obj_find(fields, key) {
        Some(v) => match v {
            Doc::Int(n) => {
                if *n >= 0 {
                    Ok(Some(Duration::from_millis(*n as u64)))
                } else {
                    Err(Error::codec("expected a non-negative duration"))
                }
            }
            _ => Err(Error::codec("expected a duration in milliseconds")),
        },
        None => Ok(None),
    }
}

// ---------------------------------------------------------------------------
// Args
// ---------------------------------------------------------------------------

/// The keys the standard claims inside an argument map; everything else is
/// extension content keyed by namespace.
pub open spec fn args_known_key(k: Seq<char>) -> bool {
    k == "start_time"@ || k == "stop_time"@ || k == "duration"@ || k == "response_requested"@
        || k == "comment"@
}

/// The extension entries of an argument map: the fields under no standard
/// key, each of which must be a valid namespace identifier.
pub open spec fn dec_args_ext(fields: Seq<(Seq<char>, ValueV)>) -> Option<
    Seq<(Seq<char>, ValueV)>,
>
    decreases fields,
{
    if fields.len() == 0 {
        Some(Seq::empty())
    } else {
        let rest = dec_args_ext(fields.subrange(1, fields.len() as int));
        if args_known_key(fields[0].0) {
            rest
        } else if nsid_valid(fields[0].0) {
            match rest {
                Some(r) => Some(seq![fields[0]] + r),
                None => None,
            }
        } else {
            None
        }
    }
}

/// Splitting a field list splits its extension entries.
pub proof fn lemma_dec_args_ext_append(a: Seq<(Seq<char>, ValueV)>, b: Seq<(Seq<char>, ValueV)>)
    ensures
        dec_args_ext(a + b) == (match (dec_args_ext(a), dec_args_ext(b)) {
            (Some(ra), Some(rb)) => Some(ra + rb),
            _ => None::<Seq<(Seq<char>, ValueV)>>,
        }),
    decreases a,
{
    if a.len() == 0 {
        assert(a + b =~= b);
        match dec_args_ext(b) {
            Some(rb) => {
                assert(dec_args_ext(a) == Some(Seq::<(Seq<char>, ValueV)>::empty()));
                assert(Seq::<(Seq<char>, ValueV)>::empty() + rb =~= rb);
            }
            None => {}
        }
    } else {
        let sub = a.subrange(1, a.len() as int);
        lemma_dec_args_ext_append(sub, b);
        assert((a + b).subrange(1, (a + b).len() as int) =~= sub + b);
        match (dec_args_ext(sub), dec_args_ext(b)) {
            (Some(rs), Some(rb)) => {
                if !args_known_key(a[0].0) && nsid_valid(a[0].0) {
                    assert(seq![a[0]] + (rs + rb) =~= (seq![a[0]] + rs) + rb);
                }
            }
            _ => {}
        }
    }
}

/// Extension entries with valid, non-standard keys pass through untouched.
pub proof fn lemma_dec_args_ext_id(fields: Seq<(Seq<char>, ValueV)>)
    requires
        forall|i: int| 0 <= i < fields.len() ==> nsid_valid((#[trigger] fields[i]).0)
            && !args_known_key(fields[i].0),
    ensures
        dec_args_ext(fields) == Some(fields),
    decreases fields,
{
    if fields.len() > 0 {
        let sub = fields.subrange(1, fields.len() as int);
        assert(forall|i: int| 0 <= i < sub.len() ==> (#[trigger] sub[i]) == fields[i + 1]);
        lemma_dec_args_ext_id(sub);
        assert(seq![fields[0]] + sub =~= fields);
    }
}

/// An argument map with only standard keys has no extension entries.
pub proof fn lemma_dec_args_ext_known(fields: Seq<(Seq<char>, ValueV)>)
    requires
        forall|i: int| 0 <= i < fields.len() ==> args_known_key((#[trigger] fields[i]).0),
    ensures
        dec_args_ext(fields) == Some(Seq::<(Seq<char>, ValueV)>::empty()),
    decreases fields,
{
    if fields.len() > 0 {
        let sub = fields.subrange(1, fields.len() as int);
        assert(forall|i: int| 0 <= i < sub.len() ==> (#[trigger] sub[i]) == fields[i + 1]);
        lemma_dec_args_ext_known(sub);
    }
}

/// Arguments render faithfully when their times fit the integer wire form
/// and their extension keys are valid namespaces off the standard names.
pub open spec fn args_codec_wf(a: ArgsV) -> bool {
    (match a.period.start_time {
        Some(t) => t.millis <= i64::MAX,
        None => true,
    }) && (match a.period.stop_time {
        Some(t) => t.millis <= i64::MAX,
        None => true,
    }) && (match a.period.duration {
        Some(d) => d.millis <= i64::MAX,
        None => true,
    }) && (forall|i: int|
        0 <= i < a.extensions.len() ==> nsid_valid((#[trigger] a.extensions[i]).0)
            && !args_known_key(a.extensions[i].0))
}

/// The wire fields of an argument map: the standard fields, then the
/// extension entries, in order.
pub open spec fn enc_args_fields(a: ArgsV) -> Seq<(Seq<char>, ValueV)> {
    opt_field("start_time"@, enc_opt_millis(a.period.start_time)) + opt_field(
        "stop_time"@,
        enc_opt_millis(a.period.stop_time),
    ) + opt_field("duration"@, enc_opt_duration(a.period.duration)) + opt_field(
        "response_requested"@,
        match a.response_requested {
            Some(t) => Some(ValueV::Str(response_type_text(t))),
            None => None,
        },
    ) + opt_field("comment"@, enc_opt_text(a.comment)) + a.extensions
}

/// The arguments a field list names, if it is well-formed.
pub open spec fn dec_args(fields: Seq<(Seq<char>, ValueV)>) -> Option<ArgsV> {
    let rr = match obj_get(fields, "response_requested"@) {
        Some(v) => match dec_text(v) {
            Some(s) => match parse_response_type(s) {
                Some(t) => Some(Some(t)),
                None => None,
            },
            None => None,
        },
        None => Some(None),
    };
    match (
        get_opt_millis(fields, "start_time"@),
        get_opt_millis(fields, "stop_time"@),
        get_opt_duration(fields, "duration"@),
        rr,
        get_opt_text(fields, "comment"@),
        dec_args_ext(fields),
    ) {
        (Some(start_time), Some(stop_time), Some(duration), Some(response_requested), Some(
            comment,
        ), Some(extensions)) => Some(
            ArgsV {
                period: Period { start_time, stop_time, duration },
                response_requested,
                comment,
                extensions,
            },
        ),
        _ => None,
    }
}

impl Args {
    /// Converts to the wire form.
    #[verifier::loop_isolation(false)]
    #[verifier::rlimit(100)]
    #[verifier::spinoff_prover]
    pub fn to_value(&self) -> (r: Doc)
        requires
            args_codec_wf(self@),
        ensures
            r@ == ValueV::Obj(enc_args_fields(self@)),
    {
        let mut fields: Vec<(String, Doc)> = Vec::new();
        proof {
            lemma_entries_view(fields@);
        }
        match &self.period.start_time {
            Some(t) => push_field(&mut fields, "start_time", Doc::Int(t.as_millis() as i64)),
            None => (),
        }
        match &self.period.stop_time {
            Some(t) => push_field(&mut fields, "stop_time", Doc::Int(t.as_millis() as i64)),
            None => (),
        }
        match &self.period.duration {
            Some(d) => push_field(&mut fields, "duration", Doc::Int(d.as_millis() as i64)),
            None => (),
        }
        match &self.response_requested {
            Some(t) => push_field(&mut fields, "response_requested", Doc::text(t.as_str())),
            None => (),
        }
        match &self.comment {
            Some(s) => push_field(&mut fields, "comment", Doc::Str(s.clone())),
            None => (),
        }
        let ghost known = entries_view(fields@);
        let n = self.extensions.len();
        let mut i: usize = 0;
        while i < n
            invariant
                i <= n,
                n == self@.extensions.len(),
                entries_view(fields@) =~= known + self@.extensions.subrange(0, i as int),
            decreases n - i,
        {
            let entry = self.extensions.entry(i);
            let ghost fold = fields@;
            fields.push((entry.0.to_text(), entry.1.clone()));
            proof {
                lemma_entries_view(fields@);
                lemma_entries_view(fold);
                assert(entries_view(fields@) =~= entries_view(fold) + seq![
                    self@.extensions[i as int],
                ]);
                assert(known + self@.extensions.subrange(0, i + 1)
                    =~= (known + self@.extensions.subrange(0, i as int)) + seq![
                    self@.extensions[i as int],
                ]);
            }
            i += 1;
        }
        let r = Doc::Obj(fields);
        proof {
            assert(self@.extensions.subrange(0, self@.extensions.len() as int)
                =~= self@.extensions);
            assert(entries_view(fields@) =~= enc_args_fields(self@));
        }
        r
    }

    /// Reads the wire form back.
    #[verifier::loop_isolation(false)]
    pub fn from_value(v: &Doc) -> (r: Result<Self, Error>)
        ensures
            match r {
                Ok(a) => (v@ matches ValueV::Obj(fields) && dec_args(fields) == Some(a@)),
                Err(_) => (match v@ {
                    ValueV::Obj(fields) => dec_args(fields).is_none(),
                    _ => true,
                }),
            },
    {
        let fields = match v {
            Doc::Obj(fields) => fields,
            _ => {
                return Err(Error::codec("expected an argument map"));
            }
        };
        proof {
            lemma_entries_view(fields@);
        }
        let start_time = match read_opt_millis(fields, "start_time") {
            Ok(o) => o,
            Err(e) => {
                return Err(e);
            }
        };
        let stop_time = match read_opt_millis(fields, "stop_time") {
            Ok(o) => o,
            Err(e) => {
                return Err(e);
            }
        };
        let duration = match read_opt_duration(fields, "duration") {
            Ok(o) => o,
            Err(e) => {
                return Err(e);
            }
        };
        let response_requested = match obj_find(fields, "response_requested") {
            Some(rv) => match rv {
                Doc::Str(s) => match ResponseType::from_str(s.as_str()) {
                    Ok(t) => Some(t),
                    Err(_) => {
                        return Err(Error::codec("unknown response type"));
                    }
                },
                _ => {
                    return Err(Error::codec("expected a response type"));
                }
            },
            None => None,
        };
        let comment = match read_opt_text(fields, "comment") {
            Ok(o) => o,
            Err(e) => {
                return Err(e);
            }
        };
        let mut extensions = Extensions::new();
        let mut i: usize = 0;
        proof {
            assert(entries_view(fields@).subrange(0, fields@.len() as int)
                =~= entries_view(fields@));
            match dec_args_ext(entries_view(fields@)) {
                Some(rest) => {
                    assert(extensions@ + rest =~= rest);
                }
                None => {}
            }
        }
        while i < fields.len()
            invariant
                i <= fields.len(),
                dec_args_ext(entries_view(fields@)) == (match dec_args_ext(
                    entries_view(fields@).subrange(i as int, fields@.len() as int),
                ) {
                    Some(rest) => Some(extensions@ + rest),
                    None => None::<Seq<(Seq<char>, ValueV)>>,
                }),
            decreases fields.len() - i,
        {
            let ghost pre = entries_view(fields@).subrange(i as int, fields@.len() as int);
            proof {
                assert(pre[0] == entries_view(fields@)[i as int]);
                assert(pre.subrange(1, pre.len() as int)
                    =~= entries_view(fields@).subrange(i + 1, fields@.len() as int));
            }
            let key = &fields[i].0;
            let known = crate::str_eq(key.as_str(), "start_time") || crate::str_eq(
                key.as_str(),
                "stop_time",
            ) || crate::str_eq(key.as_str(), "duration") || crate::str_eq(
                key.as_str(),
                "response_requested",
            ) || crate::str_eq(key.as_str(), "comment");
            if !known {
                let nk = match Nsid::from_str(key.as_str()) {
                    Ok(nk) => nk,
                    Err(_) => {
                        return Err(Error::codec("extension key is not a valid namespace"));
                    }
                };
                let ghost ext_old = extensions@;
                extensions.append(nk, fields[i].1.clone());
                proof {
                    match dec_args_ext(
                        entries_view(fields@).subrange(i + 1, fields@.len() as int),
                    ) {
                        Some(rest) => {
                            assert(dec_args_ext(pre) == Some(seq![pre[0]] + rest));
                            assert(extensions@ =~= ext_old + seq![pre[0]]);
                            assert(ext_old + (seq![pre[0]] + rest) =~= extensions@ + rest);
                        }
                        None => {
                            assert(dec_args_ext(pre).is_none());
                        }
                    }
                }
            }
            i += 1;
        }
        proof {
            assert(entries_view(fields@).subrange(fields@.len() as int, fields@.len() as int)
                =~= Seq::<(Seq<char>, ValueV)>::empty());
            assert(extensions@ + Seq::<(Seq<char>, ValueV)>::empty() =~= extensions@);
        }
        Ok(Args { period: Period { start_time, stop_time, duration }, response_requested, comment, extensions })
    }
}

/// Each standard key of an encoded argument map resolves to its own field.
#[verifier::rlimit(100)]
#[verifier::spinoff_prover]
proof fn lemma_args_known_fields(a: ArgsV)
    requires
        args_codec_wf(a),
    ensures
        obj_get(enc_args_fields(a), "start_time"@) == enc_opt_millis(a.period.start_time),
        obj_get(enc_args_fields(a), "stop_time"@) == enc_opt_millis(a.period.stop_time),
        obj_get(enc_args_fields(a), "duration"@) == enc_opt_duration(a.period.duration),
        obj_get(enc_args_fields(a), "response_requested"@) == (match a.response_requested {
            Some(t) => Some(ValueV::Str(response_type_text(t))),
            None => None::<ValueV>,
        }),
        obj_get(enc_args_fields(a), "comment"@) == enc_opt_text(a.comment),
{
    reveal_strlit("start_time");
    reveal_strlit("stop_time");
    reveal_strlit("duration");
    reveal_strlit("response_requested");
    reveal_strlit("comment");
    assert(("start_time")@.len() == 10);
    assert(("stop_time")@.len() == 9);
    assert(("duration")@.len() == 8);
    assert(("response_requested")@.len() == 18);
    assert(("comment")@.len() == 7);
    let e1 = enc_opt_millis(a.period.start_time);
    let e2 = enc_opt_millis(a.period.stop_time);
    let e3 = enc_opt_duration(a.period.duration);
    let e4: Option<ValueV> = match a.response_requested {
        Some(t) => Some(ValueV::Str(response_type_text(t))),
        None => None,
    };
    let e5 = enc_opt_text(a.comment);
    let f1 = opt_field("start_time"@, e1);
    let f2 = opt_field("stop_time"@, e2);
    let f3 = opt_field("duration"@, e3);
    let f4 = opt_field("response_requested"@, e4);
    let f5 = opt_field("comment"@, e5);
    let known = f1 + f2 + f3 + f4 + f5;
    let fields = enc_args_fields(a);
    assert(fields =~= known + a.extensions);

    // Standard keys resolve to their own fields, and never into extensions.
    assert forall|i: int| 0 <= i < a.extensions.len() implies (#[trigger] a.extensions[i]).0
        != "start_time"@ && a.extensions[i].0 != "stop_time"@ && a.extensions[i].0
        != "duration"@ && a.extensions[i].0 != "response_requested"@ && a.extensions[i].0
        != "comment"@ by {
        assert(!args_known_key(a.extensions[i].0));
    }
    lemma_obj_get_append(known, a.extensions, "start_time"@);
    lemma_obj_get_absent(a.extensions, "start_time"@);
    lemma_obj_get_append(known, a.extensions, "stop_time"@);
    lemma_obj_get_absent(a.extensions, "stop_time"@);
    lemma_obj_get_append(known, a.extensions, "duration"@);
    lemma_obj_get_absent(a.extensions, "duration"@);
    lemma_obj_get_append(known, a.extensions, "response_requested"@);
    lemma_obj_get_absent(a.extensions, "response_requested"@);
    lemma_obj_get_append(known, a.extensions, "comment"@);
    lemma_obj_get_absent(a.extensions, "comment"@);
    lemma_opt_field_get("start_time"@, e1, "start_time"@);
    lemma_opt_field_get("stop_time"@, e2, "start_time"@);
    lemma_opt_field_get("duration"@, e3, "start_time"@);
    lemma_opt_field_get("response_requested"@, e4, "start_time"@);
    lemma_opt_field_get("comment"@, e5, "start_time"@);
    lemma_opt_field_get("start_time"@, e1, "stop_time"@);
    lemma_opt_field_get("stop_time"@, e2, "stop_time"@);
    lemma_opt_field_get("duration"@, e3, "stop_time"@);
    lemma_opt_field_get("response_requested"@, e4, "stop_time"@);
    lemma_opt_field_get("comment"@, e5, "stop_time"@);
    lemma_opt_field_get("start_time"@, e1, "duration"@);
    lemma_opt_field_get("stop_time"@, e2, "duration"@);
    lemma_opt_field_get("duration"@, e3, "duration"@);
    lemma_opt_field_get("response_requested"@, e4, "duration"@);
    lemma_opt_field_get("comment"@, e5, "duration"@);
    lemma_opt_field_get("start_time"@, e1, "response_requested"@);
    lemma_opt_field_get("stop_time"@, e2, "response_requested"@);
    lemma_opt_field_get("duration"@, e3, "response_requested"@);
    lemma_opt_field_get("response_requested"@, e4, "response_requested"@);
    lemma_opt_field_get("comment"@, e5, "response_requested"@);
    lemma_opt_field_get("start_time"@, e1, "comment"@);
    lemma_opt_field_get("stop_time"@, e2, "comment"@);
    lemma_opt_field_get("duration"@, e3, "comment"@);
    lemma_opt_field_get("response_requested"@, e4, "comment"@);
    lemma_opt_field_get("comment"@, e5, "comment"@);
    lemma_obj_get_append(f1, f2, "start_time"@);
    lemma_obj_get_append(f1 + f2, f3, "start_time"@);
    lemma_obj_get_append(f1 + f2 + f3, f4, "start_time"@);
    lemma_obj_get_append(f1 + f2 + f3 + f4, f5, "start_time"@);
    lemma_obj_get_append(f1, f2, "stop_time"@);
    lemma_obj_get_append(f1 + f2, f3, "stop_time"@);
    lemma_obj_get_append(f1 + f2 + f3, f4, "stop_time"@);
    lemma_obj_get_append(f1 + f2 + f3 + f4, f5, "stop_time"@);
    lemma_obj_get_append(f1, f2, "duration"@);
    lemma_obj_get_append(f1 + f2, f3, "duration"@);
    lemma_obj_get_append(f1 + f2 + f3, f4, "duration"@);
    lemma_obj_get_append(f1 + f2 + f3 + f4, f5, "duration"@);
    lemma_obj_get_append(f1, f2, "response_requested"@);
    lemma_obj_get_append(f1 + f2, f3, "response_requested"@);
    lemma_obj_get_append(f1 + f2 + f3, f4, "response_requested"@);
    lemma_obj_get_append(f1 + f2 + f3 + f4, f5, "response_requested"@);
    lemma_obj_get_append(f1, f2, "comment"@);
    lemma_obj_get_append(f1 + f2, f3, "comment"@);
    lemma_obj_get_append(f1 + f2 + f3, f4, "comment"@);
    lemma_obj_get_append(f1 + f2 + f3 + f4, f5, "comment"@);
    assert(obj_get(known, "start_time"@) == e1);
    assert(obj_get(known, "stop_time"@) == e2);
    assert(obj_get(known, "duration"@) == e3);
    assert(obj_get(known, "response_requested"@) == e4);
    assert(obj_get(known, "comment"@) == e5);
    match a.response_requested {
        Some(t) => {
            crate::data::lemma_response_type_round_trip(t);
        }
        None => {}
    }

}

/// Encoding well-formed arguments and decoding the result gives them back.
#[verifier::rlimit(100)]
#[verifier::spinoff_prover]
pub proof fn lemma_args_round_trip(a: ArgsV)
    requires
        args_codec_wf(a),
    ensures
        dec_args(enc_args_fields(a)) == Some(a),
{
    reveal_strlit("start_time");
    reveal_strlit("stop_time");
    reveal_strlit("duration");
    reveal_strlit("response_requested");
    reveal_strlit("comment");
    assert(("start_time")@.len() == 10);
    assert(("stop_time")@.len() == 9);
    assert(("duration")@.len() == 8);
    assert(("response_requested")@.len() == 18);
    assert(("comment")@.len() == 7);
    lemma_args_known_fields(a);
    match a.response_requested {
        Some(t) => {
            crate::data::lemma_response_type_round_trip(t);
        }
        None => {}
    }
    let e1 = enc_opt_millis(a.period.start_time);
    let e2 = enc_opt_millis(a.period.stop_time);
    let e3 = enc_opt_duration(a.period.duration);
    let e4: Option<ValueV> = match a.response_requested {
        Some(t) => Some(ValueV::Str(response_type_text(t))),
        None => None,
    };
    let e5 = enc_opt_text(a.comment);
    let f1 = opt_field("start_time"@, e1);
    let f2 = opt_field("stop_time"@, e2);
    let f3 = opt_field("duration"@, e3);
    let f4 = opt_field("response_requested"@, e4);
    let f5 = opt_field("comment"@, e5);
    let known = f1 + f2 + f3 + f4 + f5;
    let fields = enc_args_fields(a);
    assert(fields =~= known + a.extensions);
    // The extension entries come back exactly.
    lemma_dec_args_ext_append(known, a.extensions);
    assert forall|i: int| 0 <= i < known.len() implies args_known_key((#[trigger] known[i]).0)
        by {
        let l1 = f1.len() as int;
        let l2 = f2.len() as int;
        let l3 = f3.len() as int;
        let l4 = f4.len() as int;
        let l5 = f5.len() as int;
        if i < l1 {
            assert(known[i] == f1[i]);
        } else if i < l1 + l2 {
            assert(known[i] == f2[i - l1]);
        } else if i < l1 + l2 + l3 {
            assert(known[i] == f3[i - l1 - l2]);
        } else if i < l1 + l2 + l3 + l4 {
            assert(known[i] == f4[i - l1 - l2 - l3]);
        } else {
            assert(known[i] == f5[i - l1 - l2 - l3 - l4]);
        }
    }
    lemma_dec_args_ext_known(known);
    lemma_dec_args_ext_id(a.extensions);
    assert(Seq::<(Seq<char>, ValueV)>::empty() + a.extensions =~= a.extensions);
    assert(dec_args_ext(fields) == Some(a.extensions));
    assert(get_opt_millis(fields, "start_time"@) == Some(a.period.start_time));
    assert(get_opt_millis(fields, "stop_time"@) == Some(a.period.stop_time));
    assert(get_opt_duration(fields, "duration"@) == Some(a.period.duration));
    assert(get_opt_text(fields, "comment"@) == Some(a.comment));
    assert(a.period == Period {
        start_time: a.period.start_time,
        stop_time: a.period.stop_time,
        duration: a.period.duration,
    });
    assert(dec_args(fields) matches Some(d) && d =~= a);
}

// ---------------------------------------------------------------------------
// Results
// ---------------------------------------------------------------------------

/// The keys the standard claims inside a results map.
pub open spec fn results_known_key(k: Seq<char>) -> bool {
    k == "versions"@ || k == "profiles"@ || k == "pairs"@ || k == "rate_limit"@
}

/// The extension entries of a results map.
pub open spec fn dec_results_ext(fields: Seq<(Seq<char>, ValueV)>) -> Option<
    Seq<(Seq<char>, ValueV)>,
>
    decreases fields,
{
    if fields.len() == 0 {
        Some(Seq::empty())
    } else {
        let rest = dec_results_ext(fields.subrange(1, fields.len() as int));
        if results_known_key(fields[0].0) {
            rest
        } else if nsid_valid(fields[0].0) {
            match rest {
                Some(r) => Some(seq![fields[0]] + r),
                None => None,
            }
        } else {
            None
        }
    }
}

pub proof fn lemma_dec_results_ext_append(
    a: Seq<(Seq<char>, ValueV)>,
    b: Seq<(Seq<char>, ValueV)>,
)
    ensures
        dec_results_ext(a + b) == (match (dec_results_ext(a), dec_results_ext(b)) {
            (Some(ra), Some(rb)) => Some(ra + rb),
            _ => None::<Seq<(Seq<char>, ValueV)>>,
        }),
    decreases a,
{
    if a.len() == 0 {
        assert(a + b =~= b);
        match dec_results_ext(b) {
            Some(rb) => {
                assert(Seq::<(Seq<char>, ValueV)>::empty() + rb =~= rb);
            }
            None => {}
        }
    } else {
        let sub = a.subrange(1, a.len() as int);
        lemma_dec_results_ext_append(sub, b);
        assert((a + b).subrange(1, (a + b).len() as int) =~= sub + b);
        match (dec_results_ext(sub), dec_results_ext(b)) {
            (Some(rs), Some(rb)) => {
                if !results_known_key(a[0].0) && nsid_valid(a[0].0) {
                    assert(seq![a[0]] + (rs + rb) =~= (seq![a[0]] + rs) + rb);
                }
            }
            _ => {}
        }
    }
}

pub proof fn lemma_dec_results_ext_id(fields: Seq<(Seq<char>, ValueV)>)
    requires
        forall|i: int| 0 <= i < fields.len() ==> nsid_valid((#[trigger] fields[i]).0)
            && !results_known_key(fields[i].0),
    ensures
        dec_results_ext(fields) == Some(fields),
    decreases fields,
{
    if fields.len() > 0 {
        let sub = fields.subrange(1, fields.len() as int);
        assert(forall|i: int| 0 <= i < sub.len() ==> (#[trigger] sub[i]) == fields[i + 1]);
        lemma_dec_results_ext_id(sub);
        assert(seq![fields[0]] + sub =~= fields);
    }
}

pub proof fn lemma_dec_results_ext_known(fields: Seq<(Seq<char>, ValueV)>)
    requires
        forall|i: int| 0 <= i < fields.len() ==> results_known_key((#[trigger] fields[i]).0),
    ensures
        dec_results_ext(fields) == Some(Seq::<(Seq<char>, ValueV)>::empty()),
    decreases fields,
{
    if fields.len() > 0 {
        let sub = fields.subrange(1, fields.len() as int);
        assert(forall|i: int| 0 <= i < sub.len() ==> (#[trigger] sub[i]) == fields[i + 1]);
        lemma_dec_results_ext_known(sub);
    }
}

/// Results render faithfully when their parts fit the wire forms.
pub open spec fn results_codec_wf(r: ResultsV) -> bool {
    (forall|i: int| 0 <= i < r.profiles.len() ==> nsid_valid(#[trigger] r.profiles[i])) && (
    match r.pairs {
        Some(p) => at_codec_wf(p),
        None => true,
    }) && (match r.rate_limit {
        Some(n) => n <= i64::MAX,
        None => true,
    }) && (forall|i: int|
        0 <= i < r.extensions.len() ==> nsid_valid((#[trigger] r.extensions[i]).0)
            && !results_known_key(r.extensions[i].0))
}

/// The wire fields of a results map: standard fields, then extensions.
pub open spec fn enc_results_fields(r: ResultsV) -> Seq<(Seq<char>, ValueV)> {
    opt_field("versions"@, if r.versions.len() == 0 {
        None
    } else {
        Some(ValueV::Arr(enc_versions(r.versions)))
    }) + opt_field("profiles"@, if r.profiles.len() == 0 {
        None
    } else {
        Some(ValueV::Arr(enc_nsids(r.profiles)))
    }) + opt_field("pairs"@, match r.pairs {
        Some(p) => Some(ValueV::Obj(enc_at(p))),
        None => None,
    }) + opt_field("rate_limit"@, match r.rate_limit {
        Some(n) => Some(ValueV::Int(n as int)),
        None => None,
    }) + r.extensions
}

/// The results a field list names, if it is well-formed.
pub open spec fn dec_results(fields: Seq<(Seq<char>, ValueV)>) -> Option<ResultsV> {
    let versions = match obj_get(fields, "versions"@) {
        Some(v) => match dec_arr(v) {
            Some(items) => match dec_versions(items) {
                Some(vs) => Some(vs),
                None => None,
            },
            None => None,
        },
        None => Some(Seq::empty()),
    };
    let profiles = match obj_get(fields, "profiles"@) {
        Some(v) => match dec_arr(v) {
            Some(items) => match dec_nsids(items) {
                Some(ps) => Some(ps),
                None => None,
            },
            None => None,
        },
        None => Some(Seq::empty()),
    };
    let pairs = match obj_get(fields, "pairs"@) {
        Some(v) => match dec_obj(v) {
            Some(pf) => match dec_at(pf) {
                Some(m) => Some(Some(m)),
                None => None,
            },
            None => None,
        },
        None => Some(None),
    };
    let rate_limit = match obj_get(fields, "rate_limit"@) {
        Some(v) => match dec_int(v) {
            Some(n) => if n >= 0 {
                Some(Some(n as u64))
            } else {
                None
            },
            None => None,
        },
        None => Some(None),
    };
    match (versions, profiles, pairs, rate_limit, dec_results_ext(fields)) {
        (Some(versions), Some(profiles), Some(pairs), Some(rate_limit), Some(extensions)) =>
            Some(ResultsV { versions, profiles, pairs, rate_limit, extensions }),
        _ => None,
    }
}

impl Results {
    /// Converts to the wire form.
    #[verifier::loop_isolation(false)]
    pub fn to_value(&self) -> (r: Doc)
        requires
            results_codec_wf(self@),
        ensures
            r@ == ValueV::Obj(enc_results_fields(self@)),
    {
        proof {
            lemma_nsids_view(self.profiles@);
        }
        let mut fields: Vec<(String, Doc)> = Vec::new();
        proof {
            lemma_entries_view(fields@);
        }
        if self.versions.len() > 0 {
            push_field(&mut fields, "versions", versions_to_value(&self.versions));
        }
        if self.profiles.len() > 0 {
            push_field(&mut fields, "profiles", nsids_to_value(&self.profiles));
        }
        match &self.pairs {
            Some(p) => push_field(&mut fields, "pairs", p.to_value()),
            None => (),
        }
        match &self.rate_limit {
            Some(n) => push_field(&mut fields, "rate_limit", Doc::Int(*n as i64)),
            None => (),
        }
        let ghost known = entries_view(fields@);
        let n = self.extensions.len();
        let mut i: usize = 0;
        while i < n
            invariant
                i <= n,
                n == self@.extensions.len(),
                entries_view(fields@) =~= known + self@.extensions.subrange(0, i as int),
            decreases n - i,
        {
            let entry = self.extensions.entry(i);
            let ghost fold = fields@;
            fields.push((entry.0.to_text(), entry.1.clone()));
            proof {
                lemma_entries_view(fields@);
                lemma_entries_view(fold);
                assert(entries_view(fields@) =~= entries_view(fold) + seq![
                    self@.extensions[i as int],
                ]);
                assert(known + self@.extensions.subrange(0, i + 1)
                    =~= (known + self@.extensions.subrange(0, i as int)) + seq![
                    self@.extensions[i as int],
                ]);
            }
            i += 1;
        }
        let r = Doc::Obj(fields);
        proof {
            assert(self@.extensions.subrange(0, self@.extensions.len() as int)
                =~= self@.extensions);
            assert(entries_view(fields@) =~= enc_results_fields(self@));
        }
        r
    }

    /// Reads the wire form back.
    #[verifier::loop_isolation(false)]
    pub fn from_value(v: &Doc) -> (r: Result<Self, Error>)
        ensures
            match r {
                Ok(rr) => (v@ matches ValueV::Obj(fields) && dec_results(fields) == Some(rr@)),
                Err(_) => (match v@ {
                    ValueV::Obj(fields) => dec_results(fields).is_none(),
                    _ => true,
                }),
            },
    {
        let fields = match v {
            Doc::Obj(fields) => fields,
            _ => {
                return Err(Error::codec("expected a results map"));
            }
        };
        proof {
            lemma_entries_view(fields@);
        }
        let versions = match obj_find(fields, "versions") {
            Some(vv) => match versions_from_value(vv) {
                Ok(vs) => vs,
                Err(e) => {
                    return Err(e);
                }
            },
            None => Vec::new(),
        };
        let profiles = match obj_find(fields, "profiles") {
            Some(pv) => match nsids_from_value(pv) {
                Ok(ps) => ps,
                Err(e) => {
                    return Err(e);
                }
            },
            None => Vec::new(),
        };
        let pairs = match obj_find(fields, "pairs") {
            Some(pv) => match ActionTargets::from_value(pv) {
                Ok(m) => Some(m),
                Err(e) => {
                    return Err(e);
                }
            },
            None => None,
        };
        let rate_limit = match obj_find(fields, "rate_limit") {
            Some(rv) => match rv {
                Doc::Int(n) => {
                    if *n >= 0 {
                        Some(*n as u64)
                    } else {
                        return Err(Error::codec("expected a non-negative rate limit"));
                    }
                }
                _ => {
                    return Err(Error::codec("expected a rate limit number"));
                }
            },
            None => None,
        };
        let mut extensions = Extensions::new();
        let mut i: usize = 0;
        proof {
            assert(entries_view(fields@).subrange(0, fields@.len() as int)
                =~= entries_view(fields@));
            match dec_results_ext(entries_view(fields@)) {
                Some(rest) => {
                    assert(extensions@ + rest =~= rest);
                }
                None => {}
            }
        }
        while i < fields.len()
            invariant
                i <= fields.len(),
                dec_results_ext(entries_view(fields@)) == (match dec_results_ext(
                    entries_view(fields@).subrange(i as int, fields@.len() as int),
                ) {
                    Some(rest) => Some(extensions@ + rest),
                    None => None::<Seq<(Seq<char>, ValueV)>>,
                }),
            decreases fields.len() - i,
        {
            let ghost pre = entries_view(fields@).subrange(i as int, fields@.len() as int);
            proof {
                assert(pre[0] == entries_view(fields@)[i as int]);
                assert(pre.subrange(1, pre.len() as int)
                    =~= entries_view(fields@).subrange(i + 1, fields@.len() as int));
            }
            let key = &fields[i].0;
            let known = crate::str_eq(key.as_str(), "versions") || crate::str_eq(
                key.as_str(),
                "profiles",
            ) || crate::str_eq(key.as_str(), "pairs") || crate::str_eq(
                key.as_str(),
                "rate_limit",
            );
            if !known {
                let nk = match Nsid::from_str(key.as_str()) {
                    Ok(nk) => nk,
                    Err(_) => {
                        return Err(Error::codec("extension key is not a valid namespace"));
                    }
                };
                let ghost ext_old = extensions@;
                extensions.append(nk, fields[i].1.clone());
                proof {
                    match dec_results_ext(
                        entries_view(fields@).subrange(i + 1, fields@.len() as int),
                    ) {
                        Some(rest) => {
                            assert(dec_results_ext(pre) == Some(seq![pre[0]] + rest));
                            assert(extensions@ =~= ext_old + seq![pre[0]]);
                            assert(ext_old + (seq![pre[0]] + rest) =~= extensions@ + rest);
                        }
                        None => {
                            assert(dec_results_ext(pre).is_none());
                        }
                    }
                }
            }
            i += 1;
        }
        proof {
            assert(entries_view(fields@).subrange(fields@.len() as int, fields@.len() as int)
                =~= Seq::<(Seq<char>, ValueV)>::empty());
            assert(extensions@ + Seq::<(Seq<char>, ValueV)>::empty() =~= extensions@);
        }
        let rr = Results { versions, profiles, pairs, rate_limit, extensions };
        proof {
            lemma_nsids_view(rr.profiles@);
            assert(nsids_view(Seq::<Nsid>::empty()) =~= Seq::<Seq<char>>::empty());
        }
        Ok(rr)
    }
}

/// Each standard key of an encoded results map resolves to its own field.
#[verifier::rlimit(100)]
#[verifier::spinoff_prover]
proof fn lemma_results_known_fields(r: ResultsV)
    requires
        results_codec_wf(r),
    ensures
        obj_get(enc_results_fields(r), "versions"@) == (if r.versions.len() == 0 {
            None::<ValueV>
        } else {
            Some(ValueV::Arr(enc_versions(r.versions)))
        }),
        obj_get(enc_results_fields(r), "profiles"@) == (if r.profiles.len() == 0 {
            None::<ValueV>
        } else {
            Some(ValueV::Arr(enc_nsids(r.profiles)))
        }),
        obj_get(enc_results_fields(r), "pairs"@) == (match r.pairs {
            Some(p) => Some(ValueV::Obj(enc_at(p))),
            None => None::<ValueV>,
        }),
        obj_get(enc_results_fields(r), "rate_limit"@) == (match r.rate_limit {
            Some(n) => Some(ValueV::Int(n as int)),
            None => None::<ValueV>,
        }),
        dec_results_ext(enc_results_fields(r)) == Some(r.extensions),
{
    reveal_strlit("versions");
    reveal_strlit("profiles");
    reveal_strlit("pairs");
    reveal_strlit("rate_limit");
    assert(("versions")@.len() == 8);
    assert(("profiles")@.len() == 8);
    assert(("pairs")@.len() == 5);
    assert(("rate_limit")@.len() == 10);
    assert(("versions")@[0] == 'v');
    assert(("versions")@[1] == 'e');
    assert(("profiles")@[0] == 'p');
    assert(("profiles")@[1] == 'r');
    let e0: Option<ValueV> = (if r.versions.len() == 0 { None } else { Some(ValueV::Arr(enc_versions(r.versions))) });
    let f0 = opt_field("versions"@, e0);
    let e1: Option<ValueV> = (if r.profiles.len() == 0 { None } else { Some(ValueV::Arr(enc_nsids(r.profiles))) });
    let f1 = opt_field("profiles"@, e1);
    let e2: Option<ValueV> = (match r.pairs { Some(p) => Some(ValueV::Obj(enc_at(p))), None => None });
    let f2 = opt_field("pairs"@, e2);
    let e3: Option<ValueV> = (match r.rate_limit { Some(n) => Some(ValueV::Int(n as int)), None => None });
    let f3 = opt_field("rate_limit"@, e3);
    lemma_opt_field_get("versions"@, e0, "versions"@);
    lemma_opt_field_get("versions"@, e0, "profiles"@);
    lemma_opt_field_get("versions"@, e0, "pairs"@);
    lemma_opt_field_get("versions"@, e0, "rate_limit"@);
    lemma_opt_field_get("profiles"@, e1, "versions"@);
    lemma_opt_field_get("profiles"@, e1, "profiles"@);
    lemma_opt_field_get("profiles"@, e1, "pairs"@);
    lemma_opt_field_get("profiles"@, e1, "rate_limit"@);
    lemma_opt_field_get("pairs"@, e2, "versions"@);
    lemma_opt_field_get("pairs"@, e2, "profiles"@);
    lemma_opt_field_get("pairs"@, e2, "pairs"@);
    lemma_opt_field_get("pairs"@, e2, "rate_limit"@);
    lemma_opt_field_get("rate_limit"@, e3, "versions"@);
    lemma_opt_field_get("rate_limit"@, e3, "profiles"@);
    lemma_opt_field_get("rate_limit"@, e3, "pairs"@);
    lemma_opt_field_get("rate_limit"@, e3, "rate_limit"@);
    lemma_obj_get_append(f0, f1, "versions"@);
    lemma_obj_get_append((f0 + f1), f2, "versions"@);
    lemma_obj_get_append(((f0 + f1) + f2), f3, "versions"@);
    lemma_obj_get_append(f0, f1, "profiles"@);
    lemma_obj_get_append((f0 + f1), f2, "profiles"@);
    lemma_obj_get_append(((f0 + f1) + f2), f3, "profiles"@);
    lemma_obj_get_append(f0, f1, "pairs"@);
    lemma_obj_get_append((f0 + f1), f2, "pairs"@);
    lemma_obj_get_append(((f0 + f1) + f2), f3, "pairs"@);
    lemma_obj_get_append(f0, f1, "rate_limit"@);
    lemma_obj_get_append((f0 + f1), f2, "rate_limit"@);
    lemma_obj_get_append(((f0 + f1) + f2), f3, "rate_limit"@);
    let known = f0 + f1 + f2 + f3;
    assert(obj_get(known, "versions"@) == e0);
    assert(obj_get(known, "profiles"@) == e1);
    assert(obj_get(known, "pairs"@) == e2);
    assert(obj_get(known, "rate_limit"@) == e3);
    let fields = enc_results_fields(r);
    assert(fields =~= known + r.extensions);
    assert forall|i: int| 0 <= i < r.extensions.len() implies (#[trigger] r.extensions[i]).0
        != "versions"@ && r.extensions[i].0 != "profiles"@ && r.extensions[i].0 != "pairs"@
        && r.extensions[i].0 != "rate_limit"@ by {
        assert(!results_known_key(r.extensions[i].0));
    }
    lemma_obj_get_append(known, r.extensions, "versions"@);
    lemma_obj_get_absent(r.extensions, "versions"@);
    lemma_obj_get_append(known, r.extensions, "profiles"@);
    lemma_obj_get_absent(r.extensions, "profiles"@);
    lemma_obj_get_append(known, r.extensions, "pairs"@);
    lemma_obj_get_absent(r.extensions, "pairs"@);
    lemma_obj_get_append(known, r.extensions, "rate_limit"@);
    lemma_obj_get_absent(r.extensions, "rate_limit"@);
    lemma_dec_results_ext_append(known, r.extensions);
    assert forall|i: int| 0 <= i < known.len() implies results_known_key(
        (#[trigger] known[i]).0,
    ) by {
        let l1 = f0.len() as int;
        let l2 = f1.len() as int;
        let l3 = f2.len() as int;
        if i < l1 {
            assert(known[i] == f0[i]);
        } else if i < l1 + l2 {
            assert(known[i] == f1[i - l1]);
        } else if i < l1 + l2 + l3 {
            assert(known[i] == f2[i - l1 - l2]);
        } else {
            assert(known[i] == f3[i - l1 - l2 - l3]);
        }
    }
    lemma_dec_results_ext_known(known);
    lemma_dec_results_ext_id(r.extensions);
    assert(Seq::<(Seq<char>, ValueV)>::empty() + r.extensions =~= r.extensions);
}

/// Encoding well-formed results and decoding them gives them back.
#[verifier::rlimit(100)]
#[verifier::spinoff_prover]
pub proof fn lemma_results_round_trip(r: ResultsV)
    requires
        results_codec_wf(r),
    ensures
        dec_results(enc_results_fields(r)) == Some(r),
{
    lemma_results_known_fields(r);
    if r.versions.len() > 0 {
        lemma_versions_round_trip(r.versions);
    } else {
        assert(r.versions =~= Seq::<Version>::empty());
    }
    if r.profiles.len() > 0 {
        lemma_nsids_round_trip(r.profiles);
    } else {
        assert(r.profiles =~= Seq::<Seq<char>>::empty());
    }
    match r.pairs {
        Some(p) => {
            lemma_at_round_trip(p);
        }
        None => {}
    }
    assert(dec_results(enc_results_fields(r)) matches Some(d) && d =~= r);
}

// ---------------------------------------------------------------------------
// Commands
// ---------------------------------------------------------------------------

/// True when an argument map has anything to say on the wire.
pub open spec fn args_present(a: ArgsV) -> bool {
    !(a.period.start_time.is_none() && a.period.stop_time.is_none()
        && a.period.duration.is_none() && a.response_requested.is_none() && a.comment.is_none()
        && a.extensions.len() == 0)
}

/// A command renders faithfully when its target, arguments, and profile do.
pub open spec fn command_codec_wf(c: CommandV) -> bool {
    target_codec_wf(c.target) && args_codec_wf(c.args) && (match c.profile {
        Some(p) => nsid_valid(p),
        None => true,
    })
}

/// The wire fields of a command; empty arguments are left off the wire.
pub open spec fn enc_command_fields(c: CommandV) -> Seq<(Seq<char>, ValueV)> {
    one_field("action"@, ValueV::Str(action_text(c.action))) + one_field(
        "target"@,
        enc_target(c.target),
    ) + opt_field("args"@, if args_present(c.args) {
        Some(ValueV::Obj(enc_args_fields(c.args)))
    } else {
        None
    }) + opt_field("profile"@, match c.profile {
        Some(p) => Some(ValueV::Str(p)),
        None => None,
    }) + opt_field("command_id"@, enc_opt_text(c.command_id))
}

/// The default arguments an absent `args` field stands for.
pub open spec fn default_args() -> ArgsV {
    ArgsV {
        period: Period { start_time: None, stop_time: None, duration: None },
        response_requested: None,
        comment: None,
        extensions: Seq::empty(),
    }
}

/// The command a field list names, if it is well-formed.
pub open spec fn dec_command(fields: Seq<(Seq<char>, ValueV)>) -> Option<CommandV> {
    let action = match obj_get(fields, "action"@) {
        Some(v) => match dec_text(v) {
            Some(s) => parse_action(s),
            None => None,
        },
        None => None,
    };
    let target = match obj_get(fields, "target"@) {
        Some(v) => dec_target(v),
        None => None,
    };
    let args = match obj_get(fields, "args"@) {
        Some(v) => match dec_obj(v) {
            Some(af) => match dec_args(af) {
                Some(a) => Some(a),
                None => None,
            },
            None => None,
        },
        None => Some(default_args()),
    };
    let profile = match obj_get(fields, "profile"@) {
        Some(v) => match dec_text(v) {
            Some(p) => if nsid_valid(p) {
                Some(Some(p))
            } else {
                None
            },
            None => None,
        },
        None => Some(None),
    };
    match (action, target, args, profile, get_opt_text(fields, "command_id"@)) {
        (Some(action), Some(target), Some(args), Some(profile), Some(command_id)) => Some(
            CommandV { action, target, args, profile, command_id },
        ),
        _ => None,
    }
}

impl Command {
    /// Converts to the wire form.
    pub fn to_value(&self) -> (r: Doc)
        requires
            args_codec_wf(self@.args),
        ensures
            r@ == ValueV::Obj(enc_command_fields(self@)),
    {
        let mut fields: Vec<(String, Doc)> = Vec::new();
        proof {
            lemma_entries_view(fields@);
        }
        push_field(&mut fields, "action", Doc::text(self.action.as_str()));
        push_field(&mut fields, "target", self.target.to_value());
        if !self.args.is_empty() {
            push_field(&mut fields, "args", self.args.to_value());
        }
        match &self.profile {
            Some(p) => push_field(&mut fields, "profile", Doc::Str(p.to_text())),
            None => (),
        }
        match &self.command_id {
            Some(c) => push_field(&mut fields, "command_id", Doc::Str(c.clone())),
            None => (),
        }
        let r = Doc::Obj(fields);
        proof {
            assert(entries_view(fields@) =~= enc_command_fields(self@));
        }
        r
    }

    /// Reads the wire form back.
    pub fn from_value(v: &Doc) -> (r: Result<Self, Error>)
        ensures
            match r {
                Ok(c) => (v@ matches ValueV::Obj(fields) && dec_command(fields) == Some(c@)),
                Err(_) => (match v@ {
                    ValueV::Obj(fields) => dec_command(fields).is_none(),
                    _ => true,
                }),
            },
    {
        let fields = match v {
            Doc::Obj(fields) => fields,
            _ => {
                return Err(Error::codec("expected a command map"));
            }
        };
        let action = match obj_find(fields, "action") {
            Some(av) => match av {
                Doc::Str(s) => match Action::from_str(s.as_str()) {
                    Ok(a) => a,
                    Err(_) => {
                        return Err(Error::codec("unknown action"));
                    }
                },
                _ => {
                    return Err(Error::codec("expected an action name"));
                }
            },
            None => {
                return Err(Error::codec("a command needs an action"));
            }
        };
        let target = match obj_find(fields, "target") {
            Some(tv) => match Target::from_value(tv) {
                Ok(t) => t,
                Err(e) => {
                    return Err(e);
                }
            },
            None => {
                return Err(Error::codec("a command needs a target"));
            }
        };
        let args = match obj_find(fields, "args") {
            Some(av) => match Args::from_value(av) {
                Ok(a) => a,
                Err(e) => {
                    return Err(e);
                }
            },
            None => Args::new(),
        };
        let profile = match obj_find(fields, "profile") {
            Some(pv) => match pv {
                Doc::Str(p) => match Nsid::from_str(p.as_str()) {
                    Ok(p) => Some(p),
                    Err(_) => {
                        return Err(Error::codec("invalid profile namespace"));
                    }
                },
                _ => {
                    return Err(Error::codec("expected a profile namespace"));
                }
            },
            None => None,
        };
        let command_id = match read_opt_text(fields, "command_id") {
            Ok(o) => o,
            Err(e) => {
                return Err(e);
            }
        };
        Ok(Command { action, target, args, profile, command_id })
    }
}

/// Encoding a well-formed command and decoding the result gives it back.
#[verifier::rlimit(100)]
#[verifier::spinoff_prover]
pub proof fn lemma_command_round_trip(c: CommandV)
    requires
        command_codec_wf(c),
    ensures
        dec_command(enc_command_fields(c)) == Some(c),
{
    reveal_strlit("action");
    reveal_strlit("target");
    reveal_strlit("args");
    reveal_strlit("profile");
    reveal_strlit("command_id");
    assert(("action")@.len() == 6);
    assert(("target")@.len() == 6);
    assert(("args")@.len() == 4);
    assert(("profile")@.len() == 7);
    assert(("command_id")@.len() == 10);
    assert(("action")@[0] == 'a');
    assert(("action")@[1] == 'c');
    assert(("target")@[0] == 't');
    assert(("target")@[1] == 'a');
    let e0: Option<ValueV> = Some(ValueV::Str(action_text(c.action)));
    let f0 = opt_field("action"@, e0);
    let e1: Option<ValueV> = Some(enc_target(c.target));
    let f1 = opt_field("target"@, e1);
    let e2: Option<ValueV> = (if args_present(c.args) { Some(ValueV::Obj(enc_args_fields(c.args))) } else { None });
    let f2 = opt_field("args"@, e2);
    let e3: Option<ValueV> = (match c.profile { Some(p) => Some(ValueV::Str(p)), None => None });
    let f3 = opt_field("profile"@, e3);
    let e4: Option<ValueV> = enc_opt_text(c.command_id);
    let f4 = opt_field("command_id"@, e4);
    lemma_opt_field_get("action"@, e0, "action"@);
    lemma_opt_field_get("action"@, e0, "target"@);
    lemma_opt_field_get("action"@, e0, "args"@);
    lemma_opt_field_get("action"@, e0, "profile"@);
    lemma_opt_field_get("action"@, e0, "command_id"@);
    lemma_opt_field_get("target"@, e1, "action"@);
    lemma_opt_field_get("target"@, e1, "target"@);
    lemma_opt_field_get("target"@, e1, "args"@);
    lemma_opt_field_get("target"@, e1, "profile"@);
    lemma_opt_field_get("target"@, e1, "command_id"@);
    lemma_opt_field_get("args"@, e2, "action"@);
    lemma_opt_field_get("args"@, e2, "target"@);
    lemma_opt_field_get("args"@, e2, "args"@);
    lemma_opt_field_get("args"@, e2, "profile"@);
    lemma_opt_field_get("args"@, e2, "command_id"@);
    lemma_opt_field_get("profile"@, e3, "action"@);
    lemma_opt_field_get("profile"@, e3, "target"@);
    lemma_opt_field_get("profile"@, e3, "args"@);
    lemma_opt_field_get("profile"@, e3, "profile"@);
    lemma_opt_field_get("profile"@, e3, "command_id"@);
    lemma_opt_field_get("command_id"@, e4, "action"@);
    lemma_opt_field_get("command_id"@, e4, "target"@);
    lemma_opt_field_get("command_id"@, e4, "args"@);
    lemma_opt_field_get("command_id"@, e4, "profile"@);
    lemma_opt_field_get("command_id"@, e4, "command_id"@);
    lemma_obj_get_append(f0, f1, "action"@);
    lemma_obj_get_append((f0 + f1), f2, "action"@);
    lemma_obj_get_append(((f0 + f1) + f2), f3, "action"@);
    lemma_obj_get_append((((f0 + f1) + f2) + f3), f4, "action"@);
    lemma_obj_get_append(f0, f1, "target"@);
    lemma_obj_get_append((f0 + f1), f2, "target"@);
    lemma_obj_get_append(((f0 + f1) + f2), f3, "target"@);
    lemma_obj_get_append((((f0 + f1) + f2) + f3), f4, "target"@);
    lemma_obj_get_append(f0, f1, "args"@);
    lemma_obj_get_append((f0 + f1), f2, "args"@);
    lemma_obj_get_append(((f0 + f1) + f2), f3, "args"@);
    lemma_obj_get_append((((f0 + f1) + f2) + f3), f4, "args"@);
    lemma_obj_get_append(f0, f1, "profile"@);
    lemma_obj_get_append((f0 + f1), f2, "profile"@);
    lemma_obj_get_append(((f0 + f1) + f2), f3, "profile"@);
    lemma_obj_get_append((((f0 + f1) + f2) + f3), f4, "profile"@);
    lemma_obj_get_append(f0, f1, "command_id"@);
    lemma_obj_get_append((f0 + f1), f2, "command_id"@);
    lemma_obj_get_append(((f0 + f1) + f2), f3, "command_id"@);
    lemma_obj_get_append((((f0 + f1) + f2) + f3), f4, "command_id"@);
    let known = f0 + f1 + f2 + f3 + f4;
    assert(obj_get(known, "action"@) == e0);
    assert(obj_get(known, "target"@) == e1);
    assert(obj_get(known, "args"@) == e2);
    assert(obj_get(known, "profile"@) == e3);
    assert(obj_get(known, "command_id"@) == e4);
    let fields = enc_command_fields(c);
    assert(fields =~= known);
    crate::action::lemma_action_round_trip(c.action);
    lemma_target_round_trip(c.target);
    if args_present(c.args) {
        lemma_args_round_trip(c.args);
    } else {
        assert(c.args.extensions =~= Seq::<(Seq<char>, ValueV)>::empty());
        assert(c.args =~= default_args());
    }
    assert(dec_command(fields) matches Some(d) && d =~= c);
}

// ---------------------------------------------------------------------------
// Responses
// ---------------------------------------------------------------------------

/// A response renders faithfully when its results do.
pub open spec fn response_codec_wf(r: ResponseV) -> bool {
    match r.results {
        Some(rr) => results_codec_wf(rr),
        None => true,
    }
}

/// The wire fields of a response.
pub open spec fn enc_response_fields(r: ResponseV) -> Seq<(Seq<char>, ValueV)> {
    one_field("status"@, ValueV::Int(status_code_num(r.status))) + opt_field(
        "status_text"@,
        enc_opt_text(r.status_text),
    ) + opt_field("results"@, match r.results {
        Some(rr) => Some(ValueV::Obj(enc_results_fields(rr))),
        None => None,
    })
}

/// The response a field list names, if it is well-formed.
pub open spec fn dec_response(fields: Seq<(Seq<char>, ValueV)>) -> Option<ResponseV> {
    let status = match obj_get(fields, "status"@) {
        Some(v) => match dec_int(v) {
            Some(n) => parse_status_code(n),
            None => None,
        },
        None => None,
    };
    let results = match obj_get(fields, "results"@) {
        Some(v) => match dec_obj(v) {
            Some(rf) => match dec_results(rf) {
                Some(rr) => Some(Some(rr)),
                None => None,
            },
            None => None,
        },
        None => Some(None),
    };
    match (status, get_opt_text(fields, "status_text"@), results) {
        (Some(status), Some(status_text), Some(results)) => Some(
            ResponseV { status, status_text, results },
        ),
        _ => None,
    }
}

impl Response {
    /// Converts to the wire form.
    pub fn to_value(&self) -> (r: Doc)
        requires
            response_codec_wf(self@),
        ensures
            r@ == ValueV::Obj(enc_response_fields(self@)),
    {
        let mut fields: Vec<(String, Doc)> = Vec::new();
        proof {
            lemma_entries_view(fields@);
        }
        push_field(&mut fields, "status", Doc::Int(self.status.code() as i64));
        match &self.status_text {
            Some(s) => push_field(&mut fields, "status_text", Doc::Str(s.clone())),
            None => (),
        }
        match &self.results {
            Some(rr) => push_field(&mut fields, "results", rr.to_value()),
            None => (),
        }
        let r = Doc::Obj(fields);
        proof {
            assert(entries_view(fields@) =~= enc_response_fields(self@));
        }
        r
    }

    /// Reads the wire form back.
    pub fn from_value(v: &Doc) -> (r: Result<Self, Error>)
        ensures
            match r {
                Ok(rsp) => (v@ matches ValueV::Obj(fields) && dec_response(fields) == Some(
                    rsp@,
                )),
                Err(_) => (match v@ {
                    ValueV::Obj(fields) => dec_response(fields).is_none(),
                    _ => true,
                }),
            },
    {
        let fields = match v {
            Doc::Obj(fields) => fields,
            _ => {
                return Err(Error::codec("expected a response map"));
            }
        };
        let status = match obj_find(fields, "status") {
            Some(sv) => match sv {
                Doc::Int(n) => {
                    if *n >= 0 && *n <= 65535 {
                        match StatusCode::from_code(*n as u16) {
                            Some(s) => s,
                            None => {
                                return Err(Error::codec("unknown status code"));
                            }
                        }
                    } else {
                        return Err(Error::codec("unknown status code"));
                    }
                }
                _ => {
                    return Err(Error::codec("expected a status number"));
                }
            },
            None => {
                return Err(Error::codec("a response needs a status"));
            }
        };
        let status_text = match read_opt_text(fields, "status_text") {
            Ok(o) => o,
            Err(e) => {
                return Err(e);
            }
        };
        let results = match obj_find(fields, "results") {
            Some(rv) => match Results::from_value(rv) {
                Ok(rr) => Some(rr),
                Err(e) => {
                    return Err(e);
                }
            },
            None => None,
        };
        Ok(Response { status, status_text, results })
    }
}

/// Encoding a well-formed response and decoding the result gives it back.
#[verifier::rlimit(100)]
#[verifier::spinoff_prover]
pub proof fn lemma_response_round_trip(r: ResponseV)
    requires
        response_codec_wf(r),
    ensures
        dec_response(enc_response_fields(r)) == Some(r),
{
    reveal_strlit("status");
    reveal_strlit("status_text");
    reveal_strlit("results");
    assert(("status")@.len() == 6);
    assert(("status_text")@.len() == 11);
    assert(("results")@.len() == 7);
    let e0: Option<ValueV> = Some(ValueV::Int(status_code_num(r.status)));
    let f0 = opt_field("status"@, e0);
    let e1: Option<ValueV> = enc_opt_text(r.status_text);
    let f1 = opt_field("status_text"@, e1);
    let e2: Option<ValueV> = (match r.results { Some(rr) => Some(ValueV::Obj(enc_results_fields(rr))), None => None });
    let f2 = opt_field("results"@, e2);
    lemma_opt_field_get("status"@, e0, "status"@);
    lemma_opt_field_get("status"@, e0, "status_text"@);
    lemma_opt_field_get("status"@, e0, "results"@);
    lemma_opt_field_get("status_text"@, e1, "status"@);
    lemma_opt_field_get("status_text"@, e1, "status_text"@);
    lemma_opt_field_get("status_text"@, e1, "results"@);
    lemma_opt_field_get("results"@, e2, "status"@);
    lemma_opt_field_get("results"@, e2, "status_text"@);
    lemma_opt_field_get("results"@, e2, "results"@);
    lemma_obj_get_append(f0, f1, "status"@);
    lemma_obj_get_append((f0 + f1), f2, "status"@);
    lemma_obj_get_append(f0, f1, "status_text"@);
    lemma_obj_get_append((f0 + f1), f2, "status_text"@);
    lemma_obj_get_append(f0, f1, "results"@);
    lemma_obj_get_append((f0 + f1), f2, "results"@);
    let known = f0 + f1 + f2;
    assert(obj_get(known, "status"@) == e0);
    assert(obj_get(known, "status_text"@) == e1);
    assert(obj_get(known, "results"@) == e2);
    let fields = enc_response_fields(r);
    assert(fields =~= known);
    crate::response::lemma_status_code_round_trip(r.status);
    match r.results {
        Some(rr) => {
            lemma_results_round_trip(rr);
        }
        None => {}
    }
    assert(dec_response(fields) matches Some(d) && d =~= r);
}

// ---------------------------------------------------------------------------
// Headers
// ---------------------------------------------------------------------------

/// The wire form of a plain text list.
pub open spec fn enc_texts(ts: Seq<Seq<char>>) -> Seq<ValueV>
    decreases ts,
{
    if ts.len() == 0 {
        Seq::empty()
    } else {
        seq![ValueV::Str(ts[0])] + enc_texts(ts.subrange(1, ts.len() as int))
    }
}

/// The text list a value list names.
pub open spec fn dec_texts(items: Seq<ValueV>) -> Option<Seq<Seq<char>>>
    decreases items,
{
    if items.len() == 0 {
        Some(Seq::empty())
    } else {
        match dec_text(items[0]) {
            Some(s) => match dec_texts(items.subrange(1, items.len() as int)) {
                Some(rest) => Some(seq![s] + rest),
                None => None,
            },
            None => None,
        }
    }
}

/// Encoding a text list and decoding the result gives it back.
pub proof fn lemma_texts_round_trip(ts: Seq<Seq<char>>)
    ensures
        dec_texts(enc_texts(ts)) == Some(ts),
    decreases ts,
{
    if ts.len() == 0 {
        assert(ts =~= Seq::<Seq<char>>::empty());
    } else {
        let sub = ts.subrange(1, ts.len() as int);
        lemma_texts_round_trip(sub);
        assert(enc_texts(ts).subrange(1, enc_texts(ts).len() as int) =~= enc_texts(sub));
        assert(seq![ts[0]] + sub =~= ts);
    }
}

/// True when the headers carry nothing.
pub open spec fn headers_empty(h: HeadersV) -> bool {
    h.request_id.is_none() && h.created.is_none() && h.from.is_none() && h.to.len() == 0
}

/// The headers render faithfully when the creation time fits the wire.
pub open spec fn headers_codec_wf(h: HeadersV) -> bool {
    match h.created {
        Some(t) => t.millis <= i64::MAX,
        None => true,
    }
}

/// The wire fields of the headers; an empty recipient list is left off.
pub open spec fn enc_headers_fields(h: HeadersV) -> Seq<(Seq<char>, ValueV)> {
    opt_field("request_id"@, enc_opt_text(h.request_id)) + opt_field(
        "created"@,
        enc_opt_millis(h.created),
    ) + opt_field("from"@, enc_opt_text(h.from)) + opt_field("to"@, if h.to.len() == 0 {
        None
    } else {
        Some(ValueV::Arr(enc_texts(h.to)))
    })
}

/// The headers a field list names, if it is well-formed.
pub open spec fn dec_headers(fields: Seq<(Seq<char>, ValueV)>) -> Option<HeadersV> {
    let to = match obj_get(fields, "to"@) {
        Some(v) => match dec_arr(v) {
            Some(items) => match dec_texts(items) {
                Some(ts) => Some(ts),
                None => None,
            },
            None => None,
        },
        None => Some(Seq::empty()),
    };
    match (
        get_opt_text(fields, "request_id"@),
        get_opt_millis(fields, "created"@),
        get_opt_text(fields, "from"@),
        to,
    ) {
        (Some(request_id), Some(created), Some(from), Some(to)) => Some(
            HeadersV { request_id, created, from, to },
        ),
        _ => None,
    }
}

impl Headers {
    /// Converts to the wire form.
    #[verifier::loop_isolation(false)]
    pub fn to_value(&self) -> (r: Doc)
        requires
            headers_codec_wf(self@),
        ensures
            r@ == ValueV::Obj(enc_headers_fields(self@)),
    {
        let mut fields: Vec<(String, Doc)> = Vec::new();
        proof {
            lemma_entries_view(fields@);
        }
        match &self.request_id {
            Some(s) => push_field(&mut fields, "request_id", Doc::Str(s.clone())),
            None => (),
        }
        match &self.created {
            Some(t) => push_field(&mut fields, "created", Doc::Int(t.as_millis() as i64)),
            None => (),
        }
        match &self.from {
            Some(s) => push_field(&mut fields, "from", Doc::Str(s.clone())),
            None => (),
        }
        if self.to.len() > 0 {
            let mut items: Vec<Doc> = Vec::new();
            let mut i: usize = 0;
            while i < self.to.len()
                invariant
                    i <= self.to.len(),
                    items@.len() == i,
                    forall|j: int| 0 <= j < i ==> #[trigger] crate::value::value_view(
                        &items@[j],
                    ) == ValueV::Str(self.to@[j]@),
                decreases self.to.len() - i,
            {
                items.push(Doc::Str(self.to[i].clone()));
                i += 1;
            }
            proof {
                lemma_vals_view(items@);
                lemma_enc_texts(self@.to);
                assert(self@.to.len() == self.to@.len());
                assert(forall|j: int| 0 <= j < self.to@.len()
                    ==> #[trigger] self@.to[j] == self.to@[j]@);
                assert(vals_view(items@) =~= enc_texts(self@.to));
            }
            push_field(&mut fields, "to", Doc::Arr(items));
        }
        let r = Doc::Obj(fields);
        proof {
            assert(entries_view(fields@) =~= enc_headers_fields(self@));
        }
        r
    }

    /// Reads the wire form back.
    #[verifier::loop_isolation(false)]
    pub fn from_value(v: &Doc) -> (r: Result<Self, Error>)
        ensures
            match r {
                Ok(h) => (v@ matches ValueV::Obj(fields) && dec_headers(fields) == Some(h@)),
                Err(_) => (match v@ {
                    ValueV::Obj(fields) => dec_headers(fields).is_none(),
                    _ => true,
                }),
            },
    {
        let fields = match v {
            Doc::Obj(fields) => fields,
            _ => {
                return Err(Error::codec("expected a headers map"));
            }
        };
        let request_id = match read_opt_text(fields, "request_id") {
            Ok(o) => o,
            Err(e) => {
                return Err(e);
            }
        };
        let created = match read_opt_millis(fields, "created") {
            Ok(o) => o,
            Err(e) => {
                return Err(e);
            }
        };
        let from = match read_opt_text(fields, "from") {
            Ok(o) => o,
            Err(e) => {
                return Err(e);
            }
        };
        let mut to: Vec<String> = Vec::new();
        match obj_find(fields, "to") {
            Some(tv) => {
                let items = match tv {
                    Doc::Arr(items) => items,
                    _ => {
                        return Err(Error::codec("expected a recipient list"));
                    }
                };
                proof {
                    lemma_vals_view(items@);
                }
                let mut i: usize = 0;
                proof {
                    assert(vals_view(items@).subrange(0, items@.len() as int)
                        =~= vals_view(items@));
                    match dec_texts(vals_view(items@)) {
                        Some(rest) => {
                            assert(to.deep_view() + rest =~= rest);
                        }
                        None => {}
                    }
                }
                while i < items.len()
                    invariant
                        i <= items.len(),
                        to@.len() == i,
                        dec_texts(vals_view(items@)) == (match dec_texts(
                            vals_view(items@).subrange(i as int, items@.len() as int),
                        ) {
                            Some(rest) => Some(to.deep_view() + rest),
                            None => None::<Seq<Seq<char>>>,
                        }),
                    decreases items.len() - i,
                {
                    let ghost pre = vals_view(items@).subrange(i as int, items@.len() as int);
                    proof {
                        assert(pre[0] == vals_view(items@)[i as int]);
                        assert(pre.subrange(1, pre.len() as int)
                            =~= vals_view(items@).subrange(i + 1, items@.len() as int));
                    }
                    let t = match &items[i] {
                        Doc::Str(s) => s.clone(),
                        _ => {
                            return Err(Error::codec("expected a recipient string"));
                        }
                    };
                    let ghost to_old = to.deep_view();
                    to.push(t);
                    proof {
                        assert(to.deep_view() =~= to_old + seq![pre[0]->Str_0]);
                        match dec_texts(
                            vals_view(items@).subrange(i + 1, items@.len() as int),
                        ) {
                            Some(rest) => {
                                assert(dec_texts(pre) == Some(seq![pre[0]->Str_0] + rest));
                                assert(to_old + (seq![pre[0]->Str_0] + rest)
                                    =~= to.deep_view() + rest);
                            }
                            None => {
                                assert(dec_texts(pre).is_none());
                            }
                        }
                    }
                    i += 1;
                }
                proof {
                    assert(vals_view(items@).subrange(items@.len() as int, items@.len() as int)
                        =~= Seq::<ValueV>::empty());
                    assert(to.deep_view() + Seq::<Seq<char>>::empty() =~= to.deep_view());
                }
            }
            None => (),
        }
        let h = Headers { request_id, created, from, to };
        Ok(h)
    }
}

pub proof fn lemma_enc_texts(ts: Seq<Seq<char>>)
    ensures
        enc_texts(ts).len() == ts.len(),
        forall|i: int| 0 <= i < ts.len() ==> enc_texts(ts)[i] == ValueV::Str(ts[i]),
    decreases ts,
{
    if ts.len() > 0 {
        let sub = ts.subrange(1, ts.len() as int);
        lemma_enc_texts(sub);
        assert forall|i: int| 0 <= i < ts.len() implies enc_texts(ts)[i] == ValueV::Str(ts[i])
            by {
            if i > 0 {
                assert(sub[i - 1] == ts[i]);
            }
        }
    }
}

/// Encoding well-formed headers and decoding the result gives them back.
#[verifier::rlimit(100)]
#[verifier::spinoff_prover]
pub proof fn lemma_headers_round_trip(h: HeadersV)
    requires
        headers_codec_wf(h),
    ensures
        dec_headers(enc_headers_fields(h)) == Some(h),
{
    reveal_strlit("request_id");
    reveal_strlit("created");
    reveal_strlit("from");
    reveal_strlit("to");
    assert(("request_id")@.len() == 10);
    assert(("created")@.len() == 7);
    assert(("from")@.len() == 4);
    assert(("to")@.len() == 2);
    let e0: Option<ValueV> = enc_opt_text(h.request_id);
    let f0 = opt_field("request_id"@, e0);
    let e1: Option<ValueV> = enc_opt_millis(h.created);
    let f1 = opt_field("created"@, e1);
    let e2: Option<ValueV> = enc_opt_text(h.from);
    let f2 = opt_field("from"@, e2);
    let e3: Option<ValueV> = (if h.to.len() == 0 { None } else { Some(ValueV::Arr(enc_texts(h.to))) });
    let f3 = opt_field("to"@, e3);
    lemma_opt_field_get("request_id"@, e0, "request_id"@);
    lemma_opt_field_get("request_id"@, e0, "created"@);
    lemma_opt_field_get("request_id"@, e0, "from"@);
    lemma_opt_field_get("request_id"@, e0, "to"@);
    lemma_opt_field_get("created"@, e1, "request_id"@);
    lemma_opt_field_get("created"@, e1, "created"@);
    lemma_opt_field_get("created"@, e1, "from"@);
    lemma_opt_field_get("created"@, e1, "to"@);
    lemma_opt_field_get("from"@, e2, "request_id"@);
    lemma_opt_field_get("from"@, e2, "created"@);
    lemma_opt_field_get("from"@, e2, "from"@);
    lemma_opt_field_get("from"@, e2, "to"@);
    lemma_opt_field_get("to"@, e3, "request_id"@);
    lemma_opt_field_get("to"@, e3, "created"@);
    lemma_opt_field_get("to"@, e3, "from"@);
    lemma_opt_field_get("to"@, e3, "to"@);
    lemma_obj_get_append(f0, f1, "request_id"@);
    lemma_obj_get_append((f0 + f1), f2, "request_id"@);
    lemma_obj_get_append(((f0 + f1) + f2), f3, "request_id"@);
    lemma_obj_get_append(f0, f1, "created"@);
    lemma_obj_get_append((f0 + f1), f2, "created"@);
    lemma_obj_get_append(((f0 + f1) + f2), f3, "created"@);
    lemma_obj_get_append(f0, f1, "from"@);
    lemma_obj_get_append((f0 + f1), f2, "from"@);
    lemma_obj_get_append(((f0 + f1) + f2), f3, "from"@);
    lemma_obj_get_append(f0, f1, "to"@);
    lemma_obj_get_append((f0 + f1), f2, "to"@);
    lemma_obj_get_append(((f0 + f1) + f2), f3, "to"@);
    let known = f0 + f1 + f2 + f3;
    assert(obj_get(known, "request_id"@) == e0);
    assert(obj_get(known, "created"@) == e1);
    assert(obj_get(known, "from"@) == e2);
    assert(obj_get(known, "to"@) == e3);
    let fields = enc_headers_fields(h);
    assert(fields =~= known);
    if h.to.len() > 0 {
        lemma_texts_round_trip(h.to);
    } else {
        assert(h.to =~= Seq::<Seq<char>>::empty());
    }
    assert(dec_headers(fields) matches Some(d) && d =~= h);
}

// ---------------------------------------------------------------------------
// Content, body, and the whole message
// ---------------------------------------------------------------------------

/// The wire form of the content: one field naming its kind.
pub open spec fn enc_content(c: ContentV) -> ValueV {
    match c {
        ContentV::Request(cmd) => ValueV::Obj(
            one_field("request"@, ValueV::Obj(enc_command_fields(cmd))),
        ),
        ContentV::Response(rsp) => ValueV::Obj(
            one_field("response"@, ValueV::Obj(enc_response_fields(rsp))),
        ),
        ContentV::Notification(n) => ValueV::Obj(one_field("notification"@, n.content)),
    }
}

/// The content a value names.
pub open spec fn dec_content(v: ValueV) -> Option<ContentV> {
    match dec_obj(v) {
        Some(fields) => if fields.len() == 1 && fields[0].0 == "request"@ {
            match dec_obj(fields[0].1) {
                Some(cf) => match dec_command(cf) {
                    Some(cmd) => Some(ContentV::Request(cmd)),
                    None => None,
                },
                None => None,
            }
        } else if fields.len() == 1 && fields[0].0 == "response"@ {
            match dec_obj(fields[0].1) {
                Some(rf) => match dec_response(rf) {
                    Some(rsp) => Some(ContentV::Response(rsp)),
                    None => None,
                },
                None => None,
            }
        } else if fields.len() == 1 && fields[0].0 == "notification"@ {
            Some(ContentV::Notification(NotificationV { content: fields[0].1 }))
        } else {
            None
        },
        None => None,
    }
}

/// The wire form of the body: the content under the protocol key.
pub open spec fn enc_body(c: ContentV) -> ValueV {
    ValueV::Obj(one_field("openc2"@, enc_content(c)))
}

/// The content of a body value.
pub open spec fn dec_body(v: ValueV) -> Option<ContentV> {
    match dec_obj(v) {
        Some(fields) => if fields.len() == 1 && fields[0].0 == "openc2"@ {
            dec_content(fields[0].1)
        } else {
            None
        },
        None => None,
    }
}

/// A message renders faithfully when its headers and body do.
pub open spec fn message_codec_wf(m: MessageV) -> bool {
    headers_codec_wf(m.headers) && (match m.body {
        ContentV::Request(c) => command_codec_wf(c),
        ContentV::Response(r) => response_codec_wf(r),
        ContentV::Notification(_) => true,
    })
}

/// The wire fields of a message; empty headers are left off the wire.
pub open spec fn enc_message_fields(m: MessageV) -> Seq<(Seq<char>, ValueV)> {
    opt_field("headers"@, if headers_empty(m.headers) {
        None
    } else {
        Some(ValueV::Obj(enc_headers_fields(m.headers)))
    }) + one_field("content_type"@, ValueV::Str(m.content_type)) + one_field(
        "body"@,
        enc_body(m.body),
    ) + opt_field("status_code"@, match m.status_code {
        Some(sc) => Some(ValueV::Int(status_code_num(sc))),
        None => None,
    })
}

/// The whole wire document of a message.
pub open spec fn enc_message(m: MessageV) -> ValueV {
    ValueV::Obj(enc_message_fields(m))
}

/// The default headers an absent `headers` field stands for.
pub open spec fn default_headers() -> HeadersV {
    HeadersV { request_id: None, created: None, from: None, to: Seq::empty() }
}

/// The message a value names, if it is well-formed.
pub open spec fn dec_message(v: ValueV) -> Option<MessageV> {
    match dec_obj(v) {
        Some(fields) => {
            let headers = match obj_get(fields, "headers"@) {
                Some(hv) => match dec_obj(hv) {
                    Some(hf) => match dec_headers(hf) {
                        Some(h) => Some(h),
                        None => None,
                    },
                    None => None,
                },
                None => Some(default_headers()),
            };
            let content_type = match obj_get(fields, "content_type"@) {
                Some(cv) => dec_text(cv),
                None => None,
            };
            let body = match obj_get(fields, "body"@) {
                Some(bv) => dec_body(bv),
                None => None,
            };
            let status_code = match obj_get(fields, "status_code"@) {
                Some(sv) => match dec_int(sv) {
                    Some(n) => match parse_status_code(n) {
                        Some(sc) => Some(Some(sc)),
                        None => None,
                    },
                    None => None,
                },
                None => Some(None),
            };
            match (headers, content_type, body, status_code) {
                (Some(headers), Some(content_type), Some(body), Some(status_code)) => Some(
                    MessageV { headers, content_type, body, status_code },
                ),
                _ => None,
            }
        }
        None => None,
    }
}

impl Content {
    /// Converts to the wire form.
    pub fn to_value(&self) -> (r: Doc)
        requires
            (match self@ {
                ContentV::Request(c) => args_codec_wf(c.args),
                ContentV::Response(rsp) => response_codec_wf(rsp),
                ContentV::Notification(_) => true,
            }),
        ensures
            r@ == enc_content(self@),
    {
        match self {
            Content::Request(cmd) => wrap_one("request", cmd.to_value()),
            Content::Response(rsp) => wrap_one("response", rsp.to_value()),
            Content::Notification(n) => wrap_one("notification", n.content.clone()),
        }
    }

    /// Reads the wire form back.
    pub fn from_value(v: &Doc) -> (r: Result<Self, Error>)
        ensures
            match r {
                Ok(c) => dec_content(v@) == Some(c@),
                Err(_) => dec_content(v@).is_none(),
            },
    {
        proof {
            reveal_strlit("request");
            reveal_strlit("response");
            reveal_strlit("notification");
            assert(("request")@.len() == 7);
            assert(("response")@.len() == 8);
            assert(("notification")@.len() == 12);
        }
        let fields = match v {
            Doc::Obj(fields) => fields,
            _ => {
                return Err(Error::codec("expected a content map"));
            }
        };
        proof {
            lemma_entries_view(fields@);
        }
        if fields.len() != 1 {
            return Err(Error::codec("expected a single-key content map"));
        }
        if crate::str_eq(fields[0].0.as_str(), "request") {
            match Command::from_value(&fields[0].1) {
                Ok(cmd) => Ok(Content::Request(cmd)),
                Err(e) => Err(e),
            }
        } else if crate::str_eq(fields[0].0.as_str(), "response") {
            match Response::from_value(&fields[0].1) {
                Ok(rsp) => Ok(Content::Response(rsp)),
                Err(e) => Err(e),
            }
        } else if crate::str_eq(fields[0].0.as_str(), "notification") {
            Ok(Content::Notification(Notification { content: fields[0].1.clone() }))
        } else {
            Err(Error::codec("unknown content kind"))
        }
    }
}

impl Message {
    /// Converts the whole message to its wire document.
    pub fn to_value(&self) -> (r: Doc)
        requires
            message_codec_wf(self@),
        ensures
            r@ == enc_message(self@),
    {
        let mut fields: Vec<(String, Doc)> = Vec::new();
        proof {
            lemma_entries_view(fields@);
        }
        if !self.headers.is_empty() {
            push_field(&mut fields, "headers", self.headers.to_value());
        }
        push_field(&mut fields, "content_type", Doc::Str(self.content_type.clone()));
        let Body::OpenC2(content) = &self.body;
        push_field(&mut fields, "body", wrap_one("openc2", content.to_value()));
        match &self.status_code {
            Some(sc) => push_field(&mut fields, "status_code", Doc::Int(sc.code() as i64)),
            None => (),
        }
        let r = Doc::Obj(fields);
        proof {
            assert(entries_view(fields@) =~= enc_message_fields(self@));
        }
        r
    }

    /// Reads a wire document back into a message.
    pub fn from_value(v: &Doc) -> (r: Result<Self, Error>)
        ensures
            match r {
                Ok(m) => dec_message(v@) == Some(m@),
                Err(_) => dec_message(v@).is_none(),
            },
    {
        proof {
            reveal_strlit("openc2");
            assert(("openc2")@.len() == 6);
        }
        let fields = match v {
            Doc::Obj(fields) => fields,
            _ => {
                return Err(Error::codec("expected a message map"));
            }
        };
        let headers = match obj_find(fields, "headers") {
            Some(hv) => match Headers::from_value(hv) {
                Ok(h) => h,
                Err(e) => {
                    return Err(e);
                }
            },
            None => Headers::new(),
        };
        let content_type = match obj_find(fields, "content_type") {
            Some(cv) => match cv {
                Doc::Str(s) => s.clone(),
                _ => {
                    return Err(Error::codec("expected a content type string"));
                }
            },
            None => {
                return Err(Error::codec("a message needs a content type"));
            }
        };
        let body = match obj_find(fields, "body") {
            Some(bv) => {
                let bfields = match bv {
                    Doc::Obj(bfields) => bfields,
                    _ => {
                        return Err(Error::codec("expected a body map"));
                    }
                };
                proof {
                    lemma_entries_view(bfields@);
                }
                if bfields.len() != 1 {
                    return Err(Error::codec("expected a single-key body"));
                }
                if !crate::str_eq(bfields[0].0.as_str(), "openc2") {
                    return Err(Error::codec("unknown body protocol"));
                }
                match Content::from_value(&bfields[0].1) {
                    Ok(c) => Body::OpenC2(c),
                    Err(e) => {
                        return Err(e);
                    }
                }
            }
            None => {
                return Err(Error::codec("a message needs a body"));
            }
        };
        let status_code = match obj_find(fields, "status_code") {
            Some(sv) => match sv {
                Doc::Int(n) => {
                    if *n >= 0 && *n <= 65535 {
                        match StatusCode::from_code(*n as u16) {
                            Some(sc) => Some(sc),
                            None => {
                                return Err(Error::codec("unknown status code"));
                            }
                        }
                    } else {
                        return Err(Error::codec("unknown status code"));
                    }
                }
                _ => {
                    return Err(Error::codec("expected a status number"));
                }
            },
            None => None,
        };
        Ok(Message { headers, content_type, body, status_code })
    }
}

/// Encoding well-formed content and decoding the result gives it back.
pub proof fn lemma_content_round_trip(c: ContentV)
    requires
        (match c {
            ContentV::Request(cmd) => command_codec_wf(cmd),
            ContentV::Response(rsp) => response_codec_wf(rsp),
            ContentV::Notification(_) => true,
        }),
    ensures
        dec_content(enc_content(c)) == Some(c),
{
    reveal_strlit("request");
    reveal_strlit("response");
    reveal_strlit("notification");
    assert(("request")@.len() == 7);
    assert(("response")@.len() == 8);
    assert(("notification")@.len() == 12);
    match c {
        ContentV::Request(cmd) => {
            lemma_command_round_trip(cmd);
        }
        ContentV::Response(rsp) => {
            lemma_response_round_trip(rsp);
        }
        ContentV::Notification(n) => {}
    }
}

/// Encoding a well-formed message and decoding the wire document gives the
/// message back, structurally equal: the round trip of the codec.
#[verifier::rlimit(100)]
#[verifier::spinoff_prover]
pub proof fn lemma_message_round_trip(m: MessageV)
    requires
        message_codec_wf(m),
    ensures
        dec_message(enc_message(m)) == Some(m),
{
    reveal_strlit("openc2");
    assert(("openc2")@.len() == 6);
    reveal_strlit("headers");
    reveal_strlit("content_type");
    reveal_strlit("body");
    reveal_strlit("status_code");
    assert(("headers")@.len() == 7);
    assert(("content_type")@.len() == 12);
    assert(("body")@.len() == 4);
    assert(("status_code")@.len() == 11);
    let e0: Option<ValueV> = (if headers_empty(m.headers) { None } else { Some(ValueV::Obj(enc_headers_fields(m.headers))) });
    let f0 = opt_field("headers"@, e0);
    let e1: Option<ValueV> = Some(ValueV::Str(m.content_type));
    let f1 = opt_field("content_type"@, e1);
    let e2: Option<ValueV> = Some(enc_body(m.body));
    let f2 = opt_field("body"@, e2);
    let e3: Option<ValueV> = (match m.status_code { Some(sc) => Some(ValueV::Int(status_code_num(sc))), None => None });
    let f3 = opt_field("status_code"@, e3);
    lemma_opt_field_get("headers"@, e0, "headers"@);
    lemma_opt_field_get("headers"@, e0, "content_type"@);
    lemma_opt_field_get("headers"@, e0, "body"@);
    lemma_opt_field_get("headers"@, e0, "status_code"@);
    lemma_opt_field_get("content_type"@, e1, "headers"@);
    lemma_opt_field_get("content_type"@, e1, "content_type"@);
    lemma_opt_field_get("content_type"@, e1, "body"@);
    lemma_opt_field_get("content_type"@, e1, "status_code"@);
    lemma_opt_field_get("body"@, e2, "headers"@);
    lemma_opt_field_get("body"@, e2, "content_type"@);
    lemma_opt_field_get("body"@, e2, "body"@);
    lemma_opt_field_get("body"@, e2, "status_code"@);
    lemma_opt_field_get("status_code"@, e3, "headers"@);
    lemma_opt_field_get("status_code"@, e3, "content_type"@);
    lemma_opt_field_get("status_code"@, e3, "body"@);
    lemma_opt_field_get("status_code"@, e3, "status_code"@);
    lemma_obj_get_append(f0, f1, "headers"@);
    lemma_obj_get_append((f0 + f1), f2, "headers"@);
    lemma_obj_get_append(((f0 + f1) + f2), f3, "headers"@);
    lemma_obj_get_append(f0, f1, "content_type"@);
    lemma_obj_get_append((f0 + f1), f2, "content_type"@);
    lemma_obj_get_append(((f0 + f1) + f2), f3, "content_type"@);
    lemma_obj_get_append(f0, f1, "body"@);
    lemma_obj_get_append((f0 + f1), f2, "body"@);
    lemma_obj_get_append(((f0 + f1) + f2), f3, "body"@);
    lemma_obj_get_append(f0, f1, "status_code"@);
    lemma_obj_get_append((f0 + f1), f2, "status_code"@);
    lemma_obj_get_append(((f0 + f1) + f2), f3, "status_code"@);
    let known = f0 + f1 + f2 + f3;
    assert(obj_get(known, "headers"@) == e0);
    assert(obj_get(known, "content_type"@) == e1);
    assert(obj_get(known, "body"@) == e2);
    assert(obj_get(known, "status_code"@) == e3);
    let fields = enc_message_fields(m);
    assert(fields =~= known);
    lemma_content_round_trip(m.body);
    if headers_empty(m.headers) {
        assert(m.headers.to =~= Seq::<Seq<char>>::empty());
        assert(m.headers =~= default_headers());
    } else {
        lemma_headers_round_trip(m.headers);
    }
    match m.status_code {
        Some(sc) => {
            crate::response::lemma_status_code_round_trip(sc);
        }
        None => {}
    }
    assert(dec_message(enc_message(m)) matches Some(d) && d =~= m);
}

} // verus!
