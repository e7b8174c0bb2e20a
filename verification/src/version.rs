//! Protocol versions in "major.minor" form.

use vstd::prelude::*;
use vstd::string::StringExecFns;

use crate::error::ValidationError;
use crate::text::dec_u8_of;
use crate::text::lemma_u8_dec_parse;
use crate::text::lemma_split_no_sep;
use crate::text::lemma_split_prepend;
use crate::text::parse_u8_dec;
use crate::text::push_u8_dec;
use crate::text::split_char;
use crate::text::split_on;
use crate::text::u8_dec;
use crate::text::all_dec;

verus! {

/// A protocol version, written `major.minor` on the wire.
#[derive(Debug, Clone, Copy, PartialEq, Eq, Structural, PartialOrd, Ord, Hash)]
pub struct Version {
    pub major: u8,
    pub minor: u8,
}

/// The text of a version: both numbers in decimal around one dot.
pub open spec fn version_text(major: int, minor: int) -> Seq<char> {
    u8_dec(major) + seq!['.'] + u8_dec(minor)
}

/// The version a string names, if it is well-formed: one to three decimal
/// digits, a dot, and again one to three decimal digits.
pub open spec fn parse_version(s: Seq<char>) -> Option<Version> {
    let parts = split_on(s, '.');
    if parts.len() == 2 {
        match (parse_u8_dec(parts[0]), parse_u8_dec(parts[1])) {
            (Some(major), Some(minor)) => Some(
                Version { major: major as u8, minor: minor as u8 },
            ),
            _ => None,
        }
    } else {
        None
    }
}

impl Version {
    /// The given version.
    pub fn new(major: u8, minor: u8) -> (r: Self)
        ensures
            r == (Version { major, minor }),
    {
        Version { major, minor }
    }

    /// Renders the version as `major.minor`.
    pub fn to_text(&self) -> (r: String)
        ensures
            r@ == version_text(self.major as int, self.minor as int),
    {
        let mut out = String::new();
        push_u8_dec(&mut out, self.major);
        out.append(".");
        push_u8_dec(&mut out, self.minor);
        proof {
            reveal_strlit(".");
            assert((".")@ =~= seq!['.']);
            assert(out@ =~= version_text(self.major as int, self.minor as int));
        }
        out
    }

    /// Parses a `major.minor` string; any other shape is rejected.
    pub fn from_str(s: &str) -> (r: Result<Self, ValidationError>)
        ensures
            match r {
                Ok(v) => parse_version(s@) == Some(v),
                Err(_) => parse_version(s@).is_none(),
            },
    {
        let parts = split_char(s, '.');
        if parts.len() != 2 {
            return Err(ValidationError::new("invalid version format"));
        }
        proof {
            assert(parts.deep_view()[0] == parts@[0]@);
            assert(parts.deep_view()[1] == parts@[1]@);
        }
        let major = match dec_u8_of(parts[0]) {
            Some(v) => v,
            None => {
                return Err(ValidationError::new("invalid version: bad major number"));
            }
        };
        let minor = match dec_u8_of(parts[1]) {
            Some(v) => v,
            None => {
                return Err(ValidationError::new("invalid version: bad minor number"));
            }
        };
        Ok(Version { major, minor })
    }
}

/// Rendering a version and parsing the text gives the version back.
pub proof fn lemma_version_round_trip(v: Version)
    ensures
        parse_version(version_text(v.major as int, v.minor as int)) == Some(v),
{
    let maj = u8_dec(v.major as int);
    let min = u8_dec(v.minor as int);
    lemma_u8_dec_parse(v.major as int);
    lemma_u8_dec_parse(v.minor as int);
    assert(all_dec(maj) && all_dec(min));
    assert(forall|j: int| 0 <= j < maj.len() ==> maj[j] != '.');
    assert(forall|j: int| 0 <= j < min.len() ==> min[j] != '.');
    lemma_split_prepend(maj, '.', min);
    lemma_split_no_sep(min, '.');
    assert(version_text(v.major as int, v.minor as int) == maj + seq!['.'] + min);
    assert(split_on(maj + seq!['.'] + min, '.') == seq![maj] + seq![min]);
    assert((seq![maj] + seq![min])[0] == maj);
    assert((seq![maj] + seq![min])[1] == min);
}

} // verus!
