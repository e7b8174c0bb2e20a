//! The packet filtering actuator profile: its argument vocabulary and its
//! profile-defined target kinds.

use vstd::prelude::*;

use crate::IsEmpty;

verus! {

/// How denied packets are handled.
#[derive(Debug, Clone, Copy, PartialEq, Eq, Structural)]
pub enum DropProcess {
    /// Drop the packet silently.
    NoNotification,
    /// Drop the packet and send an ICMP host unreachable to the source.
    Reject,
    /// Drop the traffic and send a false acknowledgment.
    FalseAck,
}

/// The direction a rule applies to.
#[derive(Debug, Clone, Copy, PartialEq, Eq, Structural)]
pub enum Direction {
    Both,
    Ingress,
    Egress,
}

/// The argument vocabulary this profile adds to commands.
pub struct PfArgs {
    pub drop_process: Option<DropProcess>,
    pub persistent: Option<bool>,
    pub direction: Option<Direction>,
    pub insert_rule: Option<u32>,
    pub logged: Option<bool>,
    pub description: Option<String>,
    pub stateful: Option<bool>,
    pub priority: Option<u32>,
}

impl PfArgs {
    /// Arguments with nothing set.
    pub fn new() -> (r: Self)
        ensures
            r.drop_process.is_none(),
            r.persistent.is_none(),
            r.direction.is_none(),
            r.insert_rule.is_none(),
            r.logged.is_none(),
            r.stateful.is_none(),
            r.priority.is_none(),
    {
        PfArgs {
            drop_process: None,
            persistent: None,
            direction: None,
            insert_rule: None,
            logged: None,
            description: None,
            stateful: None,
            priority: None,
        }
    }
}

impl IsEmpty for PfArgs {
    open spec fn is_empty_spec(&self) -> bool {
        self.drop_process.is_none() && self.persistent.is_none() && self.direction.is_none()
            && self.insert_rule.is_none() && self.logged.is_none()
            && self.description.is_none() && self.stateful.is_none()
            && self.priority.is_none()
    }

    fn is_empty(&self) -> (r: bool) {
        self.drop_process.is_none() && self.persistent.is_none() && self.direction.is_none()
            && self.insert_rule.is_none() && self.logged.is_none()
            && self.description.is_none() && self.stateful.is_none()
            && self.priority.is_none()
    }
}

/// The profile's target kinds, key-only.
#[derive(Debug, Clone, Copy, PartialEq, Eq, Structural)]
pub enum PfTargetType {
    RuleNumber,
    AdvConnection,
}

impl PfTargetType {
    /// The kind's lowercase wire name.
    pub fn as_str(&self) -> (r: &'static str)
        ensures
            (*self == PfTargetType::RuleNumber ==> r@ == "rule_number"@) && (*self
                == PfTargetType::AdvConnection ==> r@ == "adv_connection"@),
    {
        match self {
            PfTargetType::RuleNumber => "rule_number",
            PfTargetType::AdvConnection => "adv_connection",
        }
    }
}

/// An immutable identifier assigned when a filtering rule is created.
pub type RuleId = u32;

} // verus!
