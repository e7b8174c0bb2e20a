//! OpenC2 command-and-control message library.
//!
//! The OpenC2 language defines messages that instruct and coordinate the
//! command and control of cyber defenses between networks and systems.  This
//! crate provides the message taxonomy (actions, targets, arguments), the
//! path-aware multi-error validation model, a codec-agnostic document-tree
//! representation of messages on the wire, and a registry that routes an
//! incoming command to the registered handlers that declare support for its
//! action, target kind and profile.

pub mod action;
pub mod actuator;
pub mod bridge;
pub mod codec;
pub mod command;
pub mod data;
pub mod edr;
pub mod er;
pub mod error;
pub mod message;
pub mod net;
pub mod nsid;
pub mod pf;
pub mod registry;
pub mod response;
pub mod target;
pub mod text;
pub mod time;
pub mod value;
pub mod version;

use vstd::prelude::*;

verus! {

/// Whether a container-like value has nothing in it; used to omit empty
/// fields on the wire.
pub trait IsEmpty {
    /// What emptiness means for this type.
    spec fn is_empty_spec(&self) -> bool;

    /// True when the value is empty.
    fn is_empty(&self) -> (r: bool)
        ensures
            r == self.is_empty_spec(),
    ;
}

/// True when an error result matches its model: success on both sides, or
/// an error whose model is the given one.
pub open spec fn err_result_matches(
    r: Result<(), crate::error::Error>,
    v: Result<(), crate::error::ErrorV>,
) -> bool {
    match r {
        Ok(()) => v matches Ok(()),
        Err(e) => v matches Err(ev) && e@ == ev,
    }
}

/// Checking a structure for validity that the type system cannot enforce.
pub trait Check {
    /// The exact outcome of the check, on the mathematical model.
    spec fn check_spec(&self) -> Result<(), crate::error::ErrorV>;

    /// Returns all the validation errors in the structure, or `Ok` if there
    /// are none.
    fn check(&self) -> (r: Result<(), crate::error::Error>)
        ensures
            err_result_matches(r, self.check_spec()),
    ;
}

/// Returns true when both strings hold the same characters.
pub fn str_eq(a: &str, b: &str) -> (r: bool)
    ensures
        r == (a@ == b@),
{
    let an = a.unicode_len();
    let bn = b.unicode_len();
    if an != bn {
        proof {
            assert(a@ != b@);
        }
        return false;
    }
    let mut i: usize = 0;
    while i < an
        invariant
            an == a@.len(),
            bn == b@.len(),
            an == bn,
            i <= an,
            forall|j: int| 0 <= j < i ==> a@[j] == b@[j],
        decreases an - i,
    {
        if a.get_char(i) != b.get_char(i) {
            proof {
                assert(a@[i as int] != b@[i as int]);
            }
            return false;
        }
        i += 1;
    }
    proof {
        assert(a@ =~= b@);
    }
    true
}

} // verus!
