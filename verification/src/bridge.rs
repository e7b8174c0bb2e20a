//! The bridge to concrete wire formats and to the URL grammar: trusted
//! declarations around outside crates, each carrying only what that
//! crate's source shows, with named results for the renderings and the
//! parse so that the callers' contracts can be exact about them.

use vstd::prelude::*;

use crate::error::Error;
use crate::value::Doc;
use crate::value::ValueV;
use crate::message::Message;
use crate::target::Target;

verus! {

#[verifier::external_type_specification]
#[verifier::external_body]
pub struct ExJsonValue(serde_json::Value);

#[verifier::external_type_specification]
#[verifier::external_body]
pub struct ExCborValue(serde_cbor::Value);

/// Relies on the `serde_json::Value` constructors: each arm moves one
/// converted field, so the JSON tree mirrors the document tree.  This is
/// the conversion half of [`doc_to_json_text`].
#[verifier::external_body]
fn value_to_json(v: &Doc) -> serde_json::Value {
    match v {
        Doc::Null => serde_json::Value::Null,
        Doc::Bool(b) => serde_json::Value::Bool(*b),
        Doc::Int(n) => serde_json::Value::from(*n),
        Doc::Str(s) => serde_json::Value::String(s.clone()),
        Doc::Arr(items) => serde_json::Value::Array(items.iter().map(value_to_json).collect()),
        Doc::Obj(fields) => serde_json::Value::Object(
            fields.iter().map(|(k, v)| (k.clone(), value_to_json(v))).collect(),
        ),
    }
}

/// Relies on the `serde_json::Value` accessors to tell the variants apart;
/// a number outside the signed 64-bit range cannot be carried and fails.
/// This is the conversion half of [`json_text_to_doc`].
#[verifier::external_body]
fn json_to_value(v: &serde_json::Value) -> Result<Doc, Error> {
    match v {
        serde_json::Value::Null => Ok(Doc::Null),
        serde_json::Value::Bool(b) => Ok(Doc::Bool(*b)),
        serde_json::Value::Number(n) => n.as_i64().map(Doc::Int).ok_or_else(
            || Error::codec("number is not a signed 64-bit integer"),
        ),
        serde_json::Value::String(s) => Ok(Doc::Str(s.clone())),
        serde_json::Value::Array(a) => Ok(Doc::Arr(a.iter().map(json_to_value).collect::<
            Result<_, _>,
        >()?)),
        serde_json::Value::Object(f) => Ok(Doc::Obj(f.iter().map(
            |(k, x)| Ok((k.clone(), json_to_value(x)?)),
        ).collect::<Result<_, Error>>()?)),
    }
}

/// The name of what `serde_json::to_string` prints for a document tree,
/// carried over the one-for-one JSON conversion: the text depends on the
/// tree alone.
pub uninterp spec fn json_text_of(v: ValueV) -> Seq<char>;

/// Relies on `serde_json::to_string`, applied to the converted tree.
#[verifier::external_body]
fn doc_to_json_text(v: &Doc) -> (r: Result<String, Error>)
    ensures
        r matches Ok(s) ==> s@ == json_text_of(v@),
{
    serde_json::to_string(&value_to_json(v)).map_err(|_| Error::codec("JSON rendering failed"))
}

/// The name of the document tree `serde_json::from_str` reads out of a
/// string, carried back over the one-for-one JSON conversion — or nothing,
/// when the text is rejected or holds a number the tree cannot carry: the
/// outcome depends on the characters alone.
pub uninterp spec fn json_tree_of(s: Seq<char>) -> Option<ValueV>;

/// Relies on `serde_json::from_str`: yields the named tree exactly when
/// the text parses.
#[verifier::external_body]
fn json_text_to_doc(s: &str) -> (r: Result<Doc, Error>)
    ensures
        match r {
            Ok(d) => json_tree_of(s@) == Some(d@),
            Err(_) => json_tree_of(s@) is None,
        },
{
    match serde_json::from_str::<serde_json::Value>(s) {
        Ok(json) => json_to_value(&json),
        Err(_) => Err(Error::codec("JSON parsing failed")),
    }
}

/// Relies on `serde_cbor::value::to_value` over the serde data model: each
/// arm moves one converted field.  This is the conversion half of
/// [`doc_to_cbor_bytes`].
#[verifier::external_body]
fn value_to_cbor(v: &Doc) -> serde_cbor::Value {
    match v {
        Doc::Null => serde_cbor::Value::Null,
        Doc::Bool(b) => serde_cbor::Value::Bool(*b),
        Doc::Int(n) => serde_cbor::Value::Integer(*n as i128),
        Doc::Str(s) => serde_cbor::Value::Text(s.clone()),
        Doc::Arr(items) => serde_cbor::Value::Array(items.iter().map(value_to_cbor).collect()),
        Doc::Obj(fields) => serde_cbor::Value::Map(
            fields.iter().map(|(k, v)| (serde_cbor::Value::Text(k.clone()), value_to_cbor(
                v,
            ))).collect(),
        ),
    }
}

/// The name of what `serde_cbor::to_vec` emits for a document tree,
/// carried over the one-for-one CBOR conversion: the bytes depend on the
/// tree alone.
pub uninterp spec fn cbor_bytes_of(v: ValueV) -> Seq<u8>;

/// Relies on `serde_cbor::to_vec`, applied to the converted tree.
#[verifier::external_body]
fn doc_to_cbor_bytes(v: &Doc) -> (r: Result<Vec<u8>, Error>)
    ensures
        r matches Ok(b) ==> b@ == cbor_bytes_of(v@),
{
    serde_cbor::to_vec(&value_to_cbor(v)).map_err(|_| Error::codec("CBOR rendering failed"))
}

impl Message {
    /// Renders the message as JSON text: the verified codec builds the
    /// document tree, and serde_json prints it.  On success the text is
    /// the named rendering of this message's exact wire document.
    pub fn to_json_text(&self) -> (r: Result<String, Error>)
        requires
            crate::codec::message_codec_wf(self@),
        ensures
            r matches Ok(s) ==> s@ == json_text_of(crate::codec::enc_message(self@)),
    {
        let tree = self.to_value();
        doc_to_json_text(&tree)
    }

    /// Reads a message from JSON text: serde_json parses the text, and the
    /// verified codec reads the document tree.  Exactly the strings whose
    /// named tree exists and decodes as a message succeed, and the result
    /// is that tree's decoding.
    pub fn from_json_text(s: &str) -> (r: Result<Message, Error>)
        ensures
            match r {
                Ok(m) => json_tree_of(s@) matches Some(v) && crate::codec::dec_message(v)
                    == Some(m@),
                Err(_) => (json_tree_of(s@) is None) || (json_tree_of(s@) matches Some(v)
                    && crate::codec::dec_message(v) is None),
            },
    {
        let tree = match json_text_to_doc(s) {
            Ok(tree) => tree,
            Err(e) => {
                return Err(e);
            }
        };
        match Message::from_value(&tree) {
            Ok(m) => Ok(m),
            Err(e) => Err(e),
        }
    }

    /// Renders the message as CBOR bytes through the same document tree.
    /// On success the bytes are the named encoding of this message's
    /// exact wire document.
    pub fn to_cbor_bytes(&self) -> (r: Result<Vec<u8>, Error>)
        requires
            crate::codec::message_codec_wf(self@),
        ensures
            r matches Ok(b) ==> b@ == cbor_bytes_of(crate::codec::enc_message(self@)),
    {
        let tree = self.to_value();
        doc_to_cbor_bytes(&tree)
    }
}

/// The name of what `url::Url::parse` accepts: whether a string is an
/// absolute URL.  The result depends on the characters alone.
pub uninterp spec fn url_ok(s: Seq<char>) -> bool;

/// Relies on `url::Url::parse`: accepts exactly the absolute URLs of the
/// WHATWG grammar, deterministically in the input characters.
#[verifier::external_body]
fn check_url(s: &str) -> (r: bool)
    ensures
        r == url_ok(s@),
{
    url::Url::parse(s).is_ok()
}

impl Target {
    /// A URI target, checked against the URL grammar: a string the grammar
    /// rejects fails with a validation error.
    pub fn uri_checked(s: String) -> (r: Result<Target, Error>)
        ensures
            match r {
                Ok(t) => url_ok(s@) && t@ == crate::target::TargetV::Uri(s@),
                Err(_) => !url_ok(s@),
            },
    {
        if check_url(s.as_str()) {
            Ok(Target::Uri(s))
        } else {
            Err(Error::validation("not a valid URL"))
        }
    }
}

} // verus!
