//! Named actuator shapes a command can be addressed to.

use vstd::prelude::*;
use vstd::string::StringExecFns;

verus! {

/// An endpoint actuator, named by host.
pub struct Endpoint {
    name: String,
}

impl View for Endpoint {
    type V = Seq<char>;

    closed spec fn view(&self) -> Seq<char> {
        self.name@
    }
}

impl Endpoint {
    /// An endpoint with the given name.
    pub fn new(name: &str) -> (r: Self)
        ensures
            r@ == name@,
    {
        Endpoint { name: String::from_str(name) }
    }

    /// The endpoint's name.
    pub fn name(&self) -> (r: &str)
        ensures
            r@ == self@,
    {
        self.name.as_str()
    }
}

/// A network router actuator, named by its identifier.
pub struct NetworkRouter {
    actuator_id: String,
}

impl View for NetworkRouter {
    type V = Seq<char>;

    closed spec fn view(&self) -> Seq<char> {
        self.actuator_id@
    }
}

impl NetworkRouter {
    /// A router with the given identifier.
    pub fn new(actuator_id: &str) -> (r: Self)
        ensures
            r@ == actuator_id@,
    {
        NetworkRouter { actuator_id: String::from_str(actuator_id) }
    }
}

/// The entity that will execute an action on a target.
pub enum Actuator {
    Endpoint(Endpoint),
    NetworkRouter(NetworkRouter),
}

} // verus!
