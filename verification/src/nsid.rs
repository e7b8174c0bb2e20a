//! Namespace identifiers and the single-pair map primitive.

use vstd::prelude::*;
use vstd::string::StrSliceExecFns;
use vstd::string::StringExecFns;

use crate::error::ValidationError;
use crate::error::ValidationErrorV;

verus! {

/// A namespace identifier is at most sixteen characters long.
pub open spec fn nsid_valid(s: Seq<char>) -> bool {
    s.len() <= 16
}

/// A bounded namespace identifier naming a profile.
#[derive(Debug)]
pub struct Nsid {
    value: String,
}

impl View for Nsid {
    type V = Seq<char>;

    closed spec fn view(&self) -> Seq<char> {
        self.value@
    }
}

impl Nsid {
    /// An identifier from a string known to be short enough.
    pub fn new_const(value: &str) -> (r: Self)
        requires
            nsid_valid(value@),
        ensures
            r@ == value@,
    {
        Nsid { value: String::from_str(value) }
    }

    /// Checks the length rule, with the message a failed construction carries.
    pub fn check(s: &str) -> (r: Result<(), &'static str>)
        ensures
            r matches Ok(()) <==> nsid_valid(s@),
            r matches Err(m) ==> m@ == "NSID must be 16 characters or fewer"@,
    {
        if s.unicode_len() > 16 {
            Err("NSID must be 16 characters or fewer")
        } else {
            Ok(())
        }
    }

    /// Parses an identifier: any string of at most sixteen characters is
    /// accepted; a longer one fails with a validation error.
    pub fn from_str(s: &str) -> (r: Result<Self, ValidationError>)
        ensures
            nsid_valid(s@) <==> r matches Ok(_),
            r matches Ok(n) ==> n@ == s@,
            r matches Err(e) ==> e@ == (ValidationErrorV {
                path: Seq::empty(),
                message: "NSID must be 16 characters or fewer"@,
            }),
    {
        match Nsid::check(s) {
            Ok(()) => Ok(Nsid { value: String::from_str(s) }),
            Err(m) => Err(ValidationError::new(m)),
        }
    }

    /// Parses an identifier from an owned string; the rule is the same as
    /// for [`Nsid::from_str`].
    pub fn try_from(value: String) -> (r: Result<Self, ValidationError>)
        ensures
            nsid_valid(value@) <==> r matches Ok(_),
            r matches Ok(n) ==> n@ == value@,
            r matches Err(e) ==> e@ == (ValidationErrorV {
                path: Seq::empty(),
                message: "NSID must be 16 characters or fewer"@,
            }),
    {
        match Nsid::check(value.as_str()) {
            Ok(()) => Ok(Nsid { value }),
            Err(m) => Err(ValidationError::new(m)),
        }
    }

    /// The identifier's characters.
    pub fn as_str(&self) -> (r: &str)
        ensures
            r@ == self@,
    {
        self.value.as_str()
    }

    /// The identifier as an owned string.
    pub fn to_text(&self) -> (r: String)
        ensures
            r@ == self@,
    {
        self.value.clone()
    }

    /// The `er` endpoint-response profile namespace.
    pub fn er() -> (r: Self)
        ensures
            r@ == "er"@,
    {
        proof {
            reveal_strlit("er");
        }
        Nsid::new_const("er")
    }

    /// The `slpf` stateless packet filtering profile namespace.
    pub fn slpf() -> (r: Self)
        ensures
            r@ == "slpf"@,
    {
        proof {
            reveal_strlit("slpf");
        }
        Nsid::new_const("slpf")
    }

    /// The `pf` packet filtering profile namespace.
    pub fn pf() -> (r: Self)
        ensures
            r@ == "pf"@,
    {
        proof {
            reveal_strlit("pf");
        }
        Nsid::new_const("pf")
    }

    /// True when this identifier has exactly the given characters.
    pub fn is(&self, name: &str) -> (r: bool)
        ensures
            r == (self@ == name@),
    {
        crate::str_eq(self.value.as_str(), name)
    }
}

impl Clone for Nsid {
    fn clone(&self) -> (r: Self)
        ensures
            r@ == self@,
    {
        Nsid { value: self.value.clone() }
    }
}

impl PartialEq for Nsid {
    fn eq(&self, other: &Nsid) -> (r: bool) {
        self.value == other.value
    }
}

impl Eq for Nsid {
}

impl vstd::std_specs::cmp::PartialEqSpecImpl for Nsid {
    open spec fn obeys_eq_spec() -> bool {
        true
    }

    open spec fn eq_spec(&self, other: &Nsid) -> bool {
        self@ == other@
    }
}

/// A map holding exactly one key-value pair: the wire primitive for one of
/// an open set of named variants, without a closed enum.
#[derive(Debug)]
pub struct Choice<K, V> {
    pub key: K,
    pub value: V,
}

impl<K, V> Choice<K, V> {
    /// The pair with the given key and value.
    pub fn new(key: K, value: V) -> (r: Self)
        ensures
            r == (Choice { key, value }),
    {
        Choice { key, value }
    }
}

} // verus!
