//! Shared data vocabulary: queryable features, response modes, hash sets,
//! payloads, simple identifiers, and profile-keyed extension maps.

use vstd::prelude::*;
use vstd::string::StringExecFns;

use crate::error::ValidationError;
use crate::nsid::Nsid;
use crate::nsid::nsid_valid;
use crate::value::ValueV;
use crate::value::Doc;
use crate::value::obj_get;
use crate::value::value_view;

verus! {

broadcast use vstd::string::group_string_axioms;

/// An identifier correlating a command with its responses.
pub type CommandId = String;

/// A transport port number.
pub type Port = u16;

// ---------------------------------------------------------------------------
// Features
// ---------------------------------------------------------------------------

/// The aspects of a consumer that a `query features` command may ask about.
#[derive(Debug, Clone, Copy, PartialEq, Eq, Structural, Hash)]
#[non_exhaustive]
pub enum Feature {
    Versions,
    Profiles,
    Pairs,
    RateLimit,
}

/// The lowercase wire name of each feature.
pub open spec fn feature_text(f: Feature) -> Seq<char> {
    match f {
        Feature::Versions => "versions"@,
        Feature::Profiles => "profiles"@,
        Feature::Pairs => "pairs"@,
        Feature::RateLimit => "rate_limit"@,
    }
}

/// The feature a wire name denotes, if any.
pub open spec fn parse_feature(s: Seq<char>) -> Option<Feature> {
    if s == "versions"@ { Some(Feature::Versions) }
    else if s == "profiles"@ { Some(Feature::Profiles) }
    else if s == "pairs"@ { Some(Feature::Pairs) }
    else if s == "rate_limit"@ { Some(Feature::RateLimit) }
    else { None }
}

impl Feature {
    /// The feature's lowercase wire name.
    pub fn as_str(&self) -> (r: &'static str)
        ensures
            r@ == feature_text(*self),
    {
        match self {
            Feature::Versions => "versions",
            Feature::Profiles => "profiles",
            Feature::Pairs => "pairs",
            Feature::RateLimit => "rate_limit",
        }
    }

    /// Parses a lowercase wire name.
    pub fn from_str(s: &str) -> (r: Result<Self, ValidationError>)
        ensures
            match r {
                Ok(f) => parse_feature(s@) == Some(f),
                Err(_) => parse_feature(s@).is_none(),
            },
    {
        if crate::str_eq(s, "versions") { Ok(Feature::Versions) }
        else if crate::str_eq(s, "profiles") { Ok(Feature::Profiles) }
        else if crate::str_eq(s, "pairs") { Ok(Feature::Pairs) }
        else if crate::str_eq(s, "rate_limit") { Ok(Feature::RateLimit) }
        else { Err(ValidationError::new("unknown feature")) }
    }
}

/// Rendering a feature's wire name and parsing it gives the feature back.
pub proof fn lemma_feature_round_trip(f: Feature)
    ensures
        parse_feature(feature_text(f)) == Some(f),
{
    reveal_strlit("versions");
    reveal_strlit("profiles");
    reveal_strlit("pairs");
    reveal_strlit("rate_limit");
    assert(("versions")@.len() == 8);
    assert(("profiles")@.len() == 8);
    assert(("pairs")@.len() == 5);
    assert(("rate_limit")@.len() == 10);
    assert(("versions")@[0] == 'v');
    assert(("profiles")@[0] == 'p');
}

/// True when a feature list contains the given feature.
pub open spec fn features_contain(fs: Seq<Feature>, f: Feature) -> bool {
    exists|i: int| 0 <= i < fs.len() && fs[i] == f
}

/// Finds a feature in a feature list.
#[verifier::loop_isolation(false)]
pub fn features_have(fs: &Vec<Feature>, f: Feature) -> (r: bool)
    ensures
        r == features_contain(fs@, f),
{
    let mut i: usize = 0;
    while i < fs.len()
        invariant
            i <= fs.len(),
            forall|j: int| 0 <= j < i ==> fs@[j] != f,
        decreases fs.len() - i,
    {
        if fs[i] == f {
            return true;
        }
        i += 1;
    }
    false
}

// ---------------------------------------------------------------------------
// Response modes
// ---------------------------------------------------------------------------

/// Which responses the producer of a command asks for.
#[derive(Debug, Clone, Copy, PartialEq, Eq, Structural, Hash)]
pub enum ResponseType {
    /// No response at all (written `none` on the wire).
    NoResponse,
    Ack,
    Status,
    Complete,
}

/// The lowercase wire name of each response mode.
pub open spec fn response_type_text(t: ResponseType) -> Seq<char> {
    match t {
        ResponseType::NoResponse => "none"@,
        ResponseType::Ack => "ack"@,
        ResponseType::Status => "status"@,
        ResponseType::Complete => "complete"@,
    }
}

/// The response mode a wire name denotes, if any.
pub open spec fn parse_response_type(s: Seq<char>) -> Option<ResponseType> {
    if s == "none"@ { Some(ResponseType::NoResponse) }
    else if s == "ack"@ { Some(ResponseType::Ack) }
    else if s == "status"@ { Some(ResponseType::Status) }
    else if s == "complete"@ { Some(ResponseType::Complete) }
    else { None }
}

impl ResponseType {
    /// The mode's lowercase wire name.
    pub fn as_str(&self) -> (r: &'static str)
        ensures
            r@ == response_type_text(*self),
    {
        match self {
            ResponseType::NoResponse => "none",
            ResponseType::Ack => "ack",
            ResponseType::Status => "status",
            ResponseType::Complete => "complete",
        }
    }

    /// Parses a lowercase wire name.
    pub fn from_str(s: &str) -> (r: Result<Self, ValidationError>)
        ensures
            match r {
                Ok(t) => parse_response_type(s@) == Some(t),
                Err(_) => parse_response_type(s@).is_none(),
            },
    {
        if crate::str_eq(s, "none") { Ok(ResponseType::NoResponse) }
        else if crate::str_eq(s, "ack") { Ok(ResponseType::Ack) }
        else if crate::str_eq(s, "status") { Ok(ResponseType::Status) }
        else if crate::str_eq(s, "complete") { Ok(ResponseType::Complete) }
        else { Err(ValidationError::new("unknown response type")) }
    }

    /// Whether asking for this mode obliges the producer to set a request
    /// identifier on the message, so that responses can be correlated.
    pub fn requires_request_id(self) -> (r: bool)
        ensures
            r == (self != ResponseType::NoResponse),
    {
        !matches!(self, ResponseType::NoResponse)
    }
}

/// Rendering a response mode's wire name and parsing it gives it back.
pub proof fn lemma_response_type_round_trip(t: ResponseType)
    ensures
        parse_response_type(response_type_text(t)) == Some(t),
{
    reveal_strlit("none");
    reveal_strlit("ack");
    reveal_strlit("status");
    reveal_strlit("complete");
    assert(("none")@.len() == 4);
    assert(("ack")@.len() == 3);
    assert(("status")@.len() == 6);
    assert(("complete")@.len() == 8);
}

// ---------------------------------------------------------------------------
// Hashes and payloads
// ---------------------------------------------------------------------------

/// Mathematical model of a hash set.
#[verifier::ext_equal]
pub struct HashesV {
    pub md5: Option<Seq<char>>,
    pub sha1: Option<Seq<char>>,
    pub sha256: Option<Seq<char>>,
}

/// Cryptographic digests of an artifact, as lowercase hexadecimal text.
#[derive(Debug)]
pub struct Hashes {
    pub md5: Option<String>,
    pub sha1: Option<String>,
    pub sha256: Option<String>,
}

impl View for Hashes {
    type V = HashesV;

    open spec fn view(&self) -> HashesV {
        HashesV {
            md5: match &self.md5 {
                Some(s) => Some(s@),
                None => None,
            },
            sha1: match &self.sha1 {
                Some(s) => Some(s@),
                None => None,
            },
            sha256: match &self.sha256 {
                Some(s) => Some(s@),
                None => None,
            },
        }
    }
}

impl Hashes {
    /// True when no digest is present.
    pub fn is_empty(&self) -> (r: bool)
        ensures
            r == (self@ == HashesV { md5: None, sha1: None, sha256: None }),
    {
        let r = self.md5.is_none() && self.sha1.is_none() && self.sha256.is_none();
        proof {
            if r {
                assert(self@ =~= HashesV { md5: None, sha1: None, sha256: None });
            }
        }
        r
    }
}

/// Mathematical model of a payload.
#[verifier::ext_equal]
pub enum PayloadV {
    Binary(Seq<u8>),
    Url(Seq<char>),
}

/// An artifact's content: raw bytes, or a link to where it can be fetched.
#[derive(Debug)]
pub enum Payload {
    Binary(Vec<u8>),
    Url(String),
}

impl View for Payload {
    type V = PayloadV;

    open spec fn view(&self) -> PayloadV {
        match self {
            Payload::Binary(b) => PayloadV::Binary(b@),
            Payload::Url(u) => PayloadV::Url(u@),
        }
    }
}

// ---------------------------------------------------------------------------
// Simple identifiers
// ---------------------------------------------------------------------------

/// A fully qualified domain name.
#[derive(Debug)]
pub struct DomainName {
    value: String,
}

impl View for DomainName {
    type V = Seq<char>;

    closed spec fn view(&self) -> Seq<char> {
        self.value@
    }
}

impl DomainName {
    /// A domain name; every string is accepted at this layer.
    pub fn from_str(s: &str) -> (r: Self)
        ensures
            r@ == s@,
    {
        DomainName { value: String::from_str(s) }
    }

    /// The name's characters.
    pub fn as_str(&self) -> (r: &str)
        ensures
            r@ == self@,
    {
        self.value.as_str()
    }
}

impl Clone for DomainName {
    fn clone(&self) -> (r: Self)
        ensures
            r@ == self@,
    {
        DomainName { value: self.value.clone() }
    }
}

/// An email address.
#[derive(Debug)]
pub struct EmailAddr {
    value: String,
}

impl View for EmailAddr {
    type V = Seq<char>;

    closed spec fn view(&self) -> Seq<char> {
        self.value@
    }
}

impl EmailAddr {
    /// An email address; every string is accepted at this layer.
    pub fn from_str(s: &str) -> (r: Self)
        ensures
            r@ == s@,
    {
        EmailAddr { value: String::from_str(s) }
    }

    /// The address's characters.
    pub fn as_str(&self) -> (r: &str)
        ensures
            r@ == self@,
    {
        self.value.as_str()
    }
}

impl Clone for EmailAddr {
    fn clone(&self) -> (r: Self)
        ensures
            r@ == self@,
    {
        EmailAddr { value: self.value.clone() }
    }
}

// ---------------------------------------------------------------------------
// Extensions
// ---------------------------------------------------------------------------

/// Profile-keyed extension content: named payloads carried beside the
/// standard fields, keyed by namespace identifier, in insertion order.
#[derive(Debug)]
pub struct Extensions {
    entries: Vec<(Nsid, Doc)>,
}

impl View for Extensions {
    type V = Seq<(Seq<char>, ValueV)>;

    closed spec fn view(&self) -> Seq<(Seq<char>, ValueV)> {
        ext_entries_view(self.entries@)
    }
}

/// The models of extension entries, in order.
pub open spec fn ext_entries_view(s: Seq<(Nsid, Doc)>) -> Seq<(Seq<char>, ValueV)>
    decreases s,
{
    if s.len() == 0 {
        Seq::empty()
    } else {
        seq![(s[0].0@, value_view(&s[0].1))] + ext_entries_view(s.subrange(1, s.len() as int))
    }
}

pub proof fn lemma_ext_entries_view(s: Seq<(Nsid, Doc)>)
    ensures
        ext_entries_view(s).len() == s.len(),
        forall|i: int| 0 <= i < s.len() ==> ext_entries_view(s)[i]
            == (s[i].0@, value_view(&s[i].1)),
    decreases s,
{
    if s.len() > 0 {
        let sub = s.subrange(1, s.len() as int);
        lemma_ext_entries_view(sub);
        assert forall|i: int| 0 <= i < s.len() implies ext_entries_view(s)[i]
            == (s[i].0@, value_view(&s[i].1)) by {
            if i > 0 {
                assert(sub[i - 1] == s[i]);
            }
        }
    }
}

/// Every key is a valid namespace identifier and occurs once.
pub open spec fn extensions_wf(v: Seq<(Seq<char>, ValueV)>) -> bool {
    (forall|i: int| 0 <= i < v.len() ==> nsid_valid(#[trigger] v[i].0)) && (forall|i: int, j: int|
        0 <= i < j < v.len() ==> v[i].0 != v[j].0)
}

impl Extensions {
    /// An empty extension map.
    pub fn new() -> (r: Self)
        ensures
            r@ == Seq::<(Seq<char>, ValueV)>::empty(),
            extensions_wf(r@),
    {
        let r = Extensions { entries: Vec::new() };
        proof {
            assert(r@ =~= Seq::<(Seq<char>, ValueV)>::empty());
        }
        r
    }

    /// The number of extensions.
    pub fn len(&self) -> (r: usize)
        ensures
            r == self@.len(),
    {
        proof {
            lemma_ext_entries_view(self.entries@);
        }
        self.entries.len()
    }

    /// True when no extension is present.
    pub fn is_empty(&self) -> (r: bool)
        ensures
            r == (self@.len() == 0),
    {
        self.len() == 0
    }

    /// The entry at a given position, in insertion order.
    pub fn entry(&self, i: usize) -> (r: &(Nsid, Doc))
        requires
            i < self@.len(),
        ensures
            self@[i as int] == (r.0@, value_view(&r.1)),
    {
        proof {
            lemma_ext_entries_view(self.entries@);
        }
        &self.entries[i]
    }

    /// The payload stored under a namespace key, if any.
    pub fn get_raw(&self, key: &str) -> (r: Option<&Doc>)
        ensures
            match r {
                Some(v) => obj_get(self@, key@) == Some(v@),
                None => obj_get(self@, key@).is_none(),
            },
    {
        ext_find(&self.entries, key)
    }

    /// True when an extension is stored under the namespace key.
    pub fn contains(&self, key: &str) -> (r: bool)
        ensures
            r == obj_get(self@, key@).is_some(),
    {
        self.get_raw(key).is_some()
    }

    /// Appends an entry regardless of what is present; the decoder uses
    /// this to preserve what was on the wire.
    pub fn append(&mut self, key: Nsid, value: Doc)
        ensures
            final(self)@ == old(self)@ + seq![(key@, value@)],
    {
        self.entries.push((key, value));
        proof {
            lemma_ext_entries_view(self.entries@);
            lemma_ext_entries_view(old(self).entries@);
            assert(self@ =~= old(self)@ + seq![(key@, value@)]);
        }
    }

    /// Appends an extension under a key not yet present.
    pub fn push(&mut self, key: Nsid, value: Doc)
        requires
            obj_get(old(self)@, key@).is_none(),
        ensures
            final(self)@ == old(self)@ + seq![(key@, value@)],
    {
        self.entries.push((key, value));
        proof {
            lemma_ext_entries_view(self.entries@);
            lemma_ext_entries_view(old(self).entries@);
            assert(self@ =~= old(self)@ + seq![(key@, value@)]);
        }
    }
}

/// Finds the payload stored under a namespace key.
#[verifier::loop_isolation(false)]
fn ext_find<'a>(entries: &'a Vec<(Nsid, Doc)>, key: &str) -> (r: Option<&'a Doc>)
    ensures
        match r {
            Some(v) => obj_get(ext_entries_view(entries@), key@) == Some(v@),
            None => obj_get(ext_entries_view(entries@), key@).is_none(),
        },
{
    proof {
        lemma_ext_entries_view(entries@);
        assert(ext_entries_view(entries@).subrange(0, entries@.len() as int)
            =~= ext_entries_view(entries@));
    }
    let mut i: usize = 0;
    while i < entries.len()
        invariant
            i <= entries.len(),
            forall|j: int| 0 <= j < i ==> entries@[j].0@ != key@,
            obj_get(ext_entries_view(entries@), key@) == obj_get(
                ext_entries_view(entries@).subrange(i as int, entries@.len() as int),
                key@,
            ),
        decreases entries.len() - i,
    {
        let ghost pre = ext_entries_view(entries@).subrange(i as int, entries@.len() as int);
        if entries[i].0.is(key) {
            proof {
                assert(pre[0] == ext_entries_view(entries@)[i as int]);
            }
            return Some(&entries[i].1);
        }
        proof {
            assert(pre[0] == ext_entries_view(entries@)[i as int]);
            assert(pre.subrange(1, pre.len() as int)
                =~= ext_entries_view(entries@).subrange(i + 1, entries@.len() as int));
        }
        i += 1;
    }
    proof {
        assert(ext_entries_view(entries@).subrange(entries@.len() as int, entries@.len() as int)
            =~= Seq::<(Seq<char>, ValueV)>::empty());
    }
    None
}

} // verus!
