//! The closed, forward-extensible vocabulary of actions.

use vstd::prelude::*;

use crate::error::ValidationError;

verus! {

broadcast use vstd::string::group_string_axioms;

/// The task or activity to be performed on a target.
///
/// To support future extension of the vocabulary, the enum is marked
/// non-exhaustive.
#[derive(Debug, Clone, Copy, PartialEq, Eq, Structural, Hash)]
#[non_exhaustive]
pub enum Action {
    /// Systematic examination of some aspect of the entity or its environment.
    Scan,
    /// Find an object physically, logically, functionally, or by organization.
    Locate,
    /// Initiate a request for information.
    Query,
    /// Task an entity to provide information to a designated recipient.
    Report,
    /// Set an entity's alerting preferences.
    Notify,
    /// Prevent an event or action from completion.
    Deny,
    /// Isolate a file, process, or entity so that it cannot modify or access
    /// assets or processes.
    Contain,
    /// Permit access to or execution of a target.
    Allow,
    Start,
    Stop,
    Restart,
    Pause,
    Resume,
    Cancel,
    /// Change a value, configuration, or state of a managed entity
    /// (written `set` on the wire).
    Assign,
    Update,
    Move,
    Redirect,
    Create,
    Delete,
    Snapshot,
    Detonate,
    Restore,
    Save,
    Throttle,
    Delay,
    Substitute,
    Copy,
    Sync,
    Investigate,
    Mitigate,
    Remediate,
}

/// The lowercase wire name of each action.
pub open spec fn action_text(a: Action) -> Seq<char> {
    match a {
        Action::Scan => "scan"@,
        Action::Locate => "locate"@,
        Action::Query => "query"@,
        Action::Report => "report"@,
        Action::Notify => "notify"@,
        Action::Deny => "deny"@,
        Action::Contain => "contain"@,
        Action::Allow => "allow"@,
        Action::Start => "start"@,
        Action::Stop => "stop"@,
        Action::Restart => "restart"@,
        Action::Pause => "pause"@,
        Action::Resume => "resume"@,
        Action::Cancel => "cancel"@,
        Action::Assign => "set"@,
        Action::Update => "update"@,
        Action::Move => "move"@,
        Action::Redirect => "redirect"@,
        Action::Create => "create"@,
        Action::Delete => "delete"@,
        Action::Snapshot => "snapshot"@,
        Action::Detonate => "detonate"@,
        Action::Restore => "restore"@,
        Action::Save => "save"@,
        Action::Throttle => "throttle"@,
        Action::Delay => "delay"@,
        Action::Substitute => "substitute"@,
        Action::Copy => "copy"@,
        Action::Sync => "sync"@,
        Action::Investigate => "investigate"@,
        Action::Mitigate => "mitigate"@,
        Action::Remediate => "remediate"@,
    }
}

/// The action a wire name denotes, if any.
pub open spec fn parse_action(s: Seq<char>) -> Option<Action> {
    if s == "scan"@ { Some(Action::Scan) }
    else if s == "locate"@ { Some(Action::Locate) }
    else if s == "query"@ { Some(Action::Query) }
    else if s == "report"@ { Some(Action::Report) }
    else if s == "notify"@ { Some(Action::Notify) }
    else if s == "deny"@ { Some(Action::Deny) }
    else if s == "contain"@ { Some(Action::Contain) }
    else if s == "allow"@ { Some(Action::Allow) }
    else if s == "start"@ { Some(Action::Start) }
    else if s == "stop"@ { Some(Action::Stop) }
    else if s == "restart"@ { Some(Action::Restart) }
    else if s == "pause"@ { Some(Action::Pause) }
    else if s == "resume"@ { Some(Action::Resume) }
    else if s == "cancel"@ { Some(Action::Cancel) }
    else if s == "set"@ { Some(Action::Assign) }
    else if s == "update"@ { Some(Action::Update) }
    else if s == "move"@ { Some(Action::Move) }
    else if s == "redirect"@ { Some(Action::Redirect) }
    else if s == "create"@ { Some(Action::Create) }
    else if s == "delete"@ { Some(Action::Delete) }
    else if s == "snapshot"@ { Some(Action::Snapshot) }
    else if s == "detonate"@ { Some(Action::Detonate) }
    else if s == "restore"@ { Some(Action::Restore) }
    else if s == "save"@ { Some(Action::Save) }
    else if s == "throttle"@ { Some(Action::Throttle) }
    else if s == "delay"@ { Some(Action::Delay) }
    else if s == "substitute"@ { Some(Action::Substitute) }
    else if s == "copy"@ { Some(Action::Copy) }
    else if s == "sync"@ { Some(Action::Sync) }
    else if s == "investigate"@ { Some(Action::Investigate) }
    else if s == "mitigate"@ { Some(Action::Mitigate) }
    else if s == "remediate"@ { Some(Action::Remediate) }
    else { None }
}

impl Action {
    /// The action's lowercase wire name.
    pub fn as_str(&self) -> (r: &'static str)
        ensures
            r@ == action_text(*self),
    {
        match self {
            Action::Scan => "scan",
            Action::Locate => "locate",
            Action::Query => "query",
            Action::Report => "report",
            Action::Notify => "notify",
            Action::Deny => "deny",
            Action::Contain => "contain",
            Action::Allow => "allow",
            Action::Start => "start",
            Action::Stop => "stop",
            Action::Restart => "restart",
            Action::Pause => "pause",
            Action::Resume => "resume",
            Action::Cancel => "cancel",
            Action::Assign => "set",
            Action::Update => "update",
            Action::Move => "move",
            Action::Redirect => "redirect",
            Action::Create => "create",
            Action::Delete => "delete",
            Action::Snapshot => "snapshot",
            Action::Detonate => "detonate",
            Action::Restore => "restore",
            Action::Save => "save",
            Action::Throttle => "throttle",
            Action::Delay => "delay",
            Action::Substitute => "substitute",
            Action::Copy => "copy",
            Action::Sync => "sync",
            Action::Investigate => "investigate",
            Action::Mitigate => "mitigate",
            Action::Remediate => "remediate",
        }
    }

    /// The action's wire name as an owned string.
    pub fn to_text(&self) -> (r: String)
        ensures
            r@ == action_text(*self),
    {
        <String as vstd::string::StringExecFns>::from_str(self.as_str())
    }

    /// Parses a lowercase wire name.
    pub fn from_str(s: &str) -> (r: Result<Self, ValidationError>)
        ensures
            match r {
                Ok(a) => parse_action(s@) == Some(a),
                Err(_) => parse_action(s@).is_none(),
            },
    {
        if crate::str_eq(s, "scan") { Ok(Action::Scan) }
        else if crate::str_eq(s, "locate") { Ok(Action::Locate) }
        else if crate::str_eq(s, "query") { Ok(Action::Query) }
        else if crate::str_eq(s, "report") { Ok(Action::Report) }
        else if crate::str_eq(s, "notify") { Ok(Action::Notify) }
        else if crate::str_eq(s, "deny") { Ok(Action::Deny) }
        else if crate::str_eq(s, "contain") { Ok(Action::Contain) }
        else if crate::str_eq(s, "allow") { Ok(Action::Allow) }
        else if crate::str_eq(s, "start") { Ok(Action::Start) }
        else if crate::str_eq(s, "stop") { Ok(Action::Stop) }
        else if crate::str_eq(s, "restart") { Ok(Action::Restart) }
        else if crate::str_eq(s, "pause") { Ok(Action::Pause) }
        else if crate::str_eq(s, "resume") { Ok(Action::Resume) }
        else if crate::str_eq(s, "cancel") { Ok(Action::Cancel) }
        else if crate::str_eq(s, "set") { Ok(Action::Assign) }
        else if crate::str_eq(s, "update") { Ok(Action::Update) }
        else if crate::str_eq(s, "move") { Ok(Action::Move) }
        else if crate::str_eq(s, "redirect") { Ok(Action::Redirect) }
        else if crate::str_eq(s, "create") { Ok(Action::Create) }
        else if crate::str_eq(s, "delete") { Ok(Action::Delete) }
        else if crate::str_eq(s, "snapshot") { Ok(Action::Snapshot) }
        else if crate::str_eq(s, "detonate") { Ok(Action::Detonate) }
        else if crate::str_eq(s, "restore") { Ok(Action::Restore) }
        else if crate::str_eq(s, "save") { Ok(Action::Save) }
        else if crate::str_eq(s, "throttle") { Ok(Action::Throttle) }
        else if crate::str_eq(s, "delay") { Ok(Action::Delay) }
        else if crate::str_eq(s, "substitute") { Ok(Action::Substitute) }
        else if crate::str_eq(s, "copy") { Ok(Action::Copy) }
        else if crate::str_eq(s, "sync") { Ok(Action::Sync) }
        else if crate::str_eq(s, "investigate") { Ok(Action::Investigate) }
        else if crate::str_eq(s, "mitigate") { Ok(Action::Mitigate) }
        else if crate::str_eq(s, "remediate") { Ok(Action::Remediate) }
        else { Err(ValidationError::new("unknown action")) }
    }

    /// Whether this action gathers information needed to determine the
    /// current state or enhance cyber situational awareness.
    pub fn controls_information(&self) -> (r: bool)
        ensures
            r == matches!(*self,
                Action::Scan | Action::Locate | Action::Query | Action::Report
                    | Action::Notify),
    {
        matches!(
            *self,
            Action::Scan | Action::Locate | Action::Query | Action::Report | Action::Notify
        )
    }

    /// Whether this action controls traffic flow and file permissions.
    pub fn controls_permissions(&self) -> (r: bool)
        ensures
            r == matches!(*self, Action::Deny | Action::Contain | Action::Allow),
    {
        matches!(*self, Action::Deny | Action::Contain | Action::Allow)
    }

    /// Whether this action controls the state or the activity of a system,
    /// a process, a connection, a host, or a device.
    pub fn controls_activity(&self) -> (r: bool)
        ensures
            r == matches!(*self,
                Action::Start | Action::Stop | Action::Restart | Action::Pause
                    | Action::Resume | Action::Cancel | Action::Assign | Action::Update
                    | Action::Move | Action::Redirect | Action::Create | Action::Delete
                    | Action::Snapshot | Action::Detonate | Action::Restore | Action::Save
                    | Action::Throttle | Action::Delay | Action::Substitute | Action::Copy
                    | Action::Sync),
    {
        matches!(
            *self,
            Action::Start | Action::Stop | Action::Restart | Action::Pause | Action::Resume
                | Action::Cancel | Action::Assign | Action::Update | Action::Move
                | Action::Redirect | Action::Create | Action::Delete | Action::Snapshot
                | Action::Detonate | Action::Restore | Action::Save | Action::Throttle
                | Action::Delay | Action::Substitute | Action::Copy | Action::Sync
        )
    }

    /// Whether this action is an effects-based action, communicating a
    /// desired impact rather than a specific task.
    pub fn is_effect(&self) -> (r: bool)
        ensures
            r == matches!(*self, Action::Investigate | Action::Mitigate | Action::Remediate),
    {
        matches!(*self, Action::Investigate | Action::Mitigate | Action::Remediate)
    }
}

/// Rendering an action's wire name and parsing it gives the action back.
/// Rendering an action's wire name and parsing it gives the action back.
pub proof fn lemma_action_round_trip(a: Action)
    ensures
        parse_action(action_text(a)) == Some(a),
{
    reveal_strlit("scan");
    reveal_strlit("locate");
    reveal_strlit("query");
    reveal_strlit("report");
    reveal_strlit("notify");
    reveal_strlit("deny");
    reveal_strlit("contain");
    reveal_strlit("allow");
    reveal_strlit("start");
    reveal_strlit("stop");
    reveal_strlit("restart");
    reveal_strlit("pause");
    reveal_strlit("resume");
    reveal_strlit("cancel");
    reveal_strlit("set");
    reveal_strlit("update");
    reveal_strlit("move");
    reveal_strlit("redirect");
    reveal_strlit("create");
    reveal_strlit("delete");
    reveal_strlit("snapshot");
    reveal_strlit("detonate");
    reveal_strlit("restore");
    reveal_strlit("save");
    reveal_strlit("throttle");
    reveal_strlit("delay");
    reveal_strlit("substitute");
    reveal_strlit("copy");
    reveal_strlit("sync");
    reveal_strlit("investigate");
    reveal_strlit("mitigate");
    reveal_strlit("remediate");
    assert(("scan")@.len() == 4);
    assert(("locate")@.len() == 6);
    assert(("query")@.len() == 5);
    assert(("report")@.len() == 6);
    assert(("notify")@.len() == 6);
    assert(("deny")@.len() == 4);
    assert(("contain")@.len() == 7);
    assert(("allow")@.len() == 5);
    assert(("start")@.len() == 5);
    assert(("stop")@.len() == 4);
    assert(("restart")@.len() == 7);
    assert(("pause")@.len() == 5);
    assert(("resume")@.len() == 6);
    assert(("cancel")@.len() == 6);
    assert(("set")@.len() == 3);
    assert(("update")@.len() == 6);
    assert(("move")@.len() == 4);
    assert(("redirect")@.len() == 8);
    assert(("create")@.len() == 6);
    assert(("delete")@.len() == 6);
    assert(("snapshot")@.len() == 8);
    assert(("detonate")@.len() == 8);
    assert(("restore")@.len() == 7);
    assert(("save")@.len() == 4);
    assert(("throttle")@.len() == 8);
    assert(("delay")@.len() == 5);
    assert(("substitute")@.len() == 10);
    assert(("copy")@.len() == 4);
    assert(("sync")@.len() == 4);
    assert(("investigate")@.len() == 11);
    assert(("mitigate")@.len() == 8);
    assert(("remediate")@.len() == 9);
    assert(("scan")@[0] == 's');
    assert(("scan")@[1] == 'c');
    assert(("scan")@[2] == 'a');
    assert(("scan")@[3] == 'n');
    assert(("locate")@[0] == 'l');
    assert(("locate")@[1] == 'o');
    assert(("locate")@[2] == 'c');
    assert(("locate")@[3] == 'a');
    assert(("locate")@[4] == 't');
    assert(("locate")@[5] == 'e');
    assert(("query")@[0] == 'q');
    assert(("query")@[1] == 'u');
    assert(("query")@[2] == 'e');
    assert(("query")@[3] == 'r');
    assert(("query")@[4] == 'y');
    assert(("report")@[0] == 'r');
    assert(("report")@[1] == 'e');
    assert(("report")@[2] == 'p');
    assert(("report")@[3] == 'o');
    assert(("report")@[4] == 'r');
    assert(("report")@[5] == 't');
    assert(("notify")@[0] == 'n');
    assert(("notify")@[1] == 'o');
    assert(("notify")@[2] == 't');
    assert(("notify")@[3] == 'i');
    assert(("notify")@[4] == 'f');
    assert(("notify")@[5] == 'y');
    assert(("deny")@[0] == 'd');
    assert(("deny")@[1] == 'e');
    assert(("deny")@[2] == 'n');
    assert(("deny")@[3] == 'y');
    assert(("contain")@[0] == 'c');
    assert(("contain")@[1] == 'o');
    assert(("contain")@[2] == 'n');
    assert(("contain")@[3] == 't');
    assert(("contain")@[4] == 'a');
    assert(("contain")@[5] == 'i');
    assert(("contain")@[6] == 'n');
    assert(("allow")@[0] == 'a');
    assert(("allow")@[1] == 'l');
    assert(("allow")@[2] == 'l');
    assert(("allow")@[3] == 'o');
    assert(("allow")@[4] == 'w');
    assert(("start")@[0] == 's');
    assert(("start")@[1] == 't');
    assert(("start")@[2] == 'a');
    assert(("start")@[3] == 'r');
    assert(("start")@[4] == 't');
    assert(("stop")@[0] == 's');
    assert(("stop")@[1] == 't');
    assert(("stop")@[2] == 'o');
    assert(("stop")@[3] == 'p');
    assert(("restart")@[0] == 'r');
    assert(("restart")@[1] == 'e');
    assert(("restart")@[2] == 's');
    assert(("restart")@[3] == 't');
    assert(("restart")@[4] == 'a');
    assert(("restart")@[5] == 'r');
    assert(("restart")@[6] == 't');
    assert(("pause")@[0] == 'p');
    assert(("pause")@[1] == 'a');
    assert(("pause")@[2] == 'u');
    assert(("pause")@[3] == 's');
    assert(("pause")@[4] == 'e');
    assert(("resume")@[0] == 'r');
    assert(("resume")@[1] == 'e');
    assert(("resume")@[2] == 's');
    assert(("resume")@[3] == 'u');
    assert(("resume")@[4] == 'm');
    assert(("resume")@[5] == 'e');
    assert(("cancel")@[0] == 'c');
    assert(("cancel")@[1] == 'a');
    assert(("cancel")@[2] == 'n');
    assert(("cancel")@[3] == 'c');
    assert(("cancel")@[4] == 'e');
    assert(("cancel")@[5] == 'l');
    assert(("set")@[0] == 's');
    assert(("set")@[1] == 'e');
    assert(("set")@[2] == 't');
    assert(("update")@[0] == 'u');
    assert(("update")@[1] == 'p');
    assert(("update")@[2] == 'd');
    assert(("update")@[3] == 'a');
    assert(("update")@[4] == 't');
    assert(("update")@[5] == 'e');
    assert(("move")@[0] == 'm');
    assert(("move")@[1] == 'o');
    assert(("move")@[2] == 'v');
    assert(("move")@[3] == 'e');
    assert(("redirect")@[0] == 'r');
    assert(("redirect")@[1] == 'e');
    assert(("redirect")@[2] == 'd');
    assert(("redirect")@[3] == 'i');
    assert(("redirect")@[4] == 'r');
    assert(("redirect")@[5] == 'e');
    assert(("redirect")@[6] == 'c');
    assert(("redirect")@[7] == 't');
    assert(("create")@[0] == 'c');
    assert(("create")@[1] == 'r');
    assert(("create")@[2] == 'e');
    assert(("create")@[3] == 'a');
    assert(("create")@[4] == 't');
    assert(("create")@[5] == 'e');
    assert(("delete")@[0] == 'd');
    assert(("delete")@[1] == 'e');
    assert(("delete")@[2] == 'l');
    assert(("delete")@[3] == 'e');
    assert(("delete")@[4] == 't');
    assert(("delete")@[5] == 'e');
    assert(("snapshot")@[0] == 's');
    assert(("snapshot")@[1] == 'n');
    assert(("snapshot")@[2] == 'a');
    assert(("snapshot")@[3] == 'p');
    assert(("snapshot")@[4] == 's');
    assert(("snapshot")@[5] == 'h');
    assert(("snapshot")@[6] == 'o');
    assert(("snapshot")@[7] == 't');
    assert(("detonate")@[0] == 'd');
    assert(("detonate")@[1] == 'e');
    assert(("detonate")@[2] == 't');
    assert(("detonate")@[3] == 'o');
    assert(("detonate")@[4] == 'n');
    assert(("detonate")@[5] == 'a');
    assert(("detonate")@[6] == 't');
    assert(("detonate")@[7] == 'e');
    assert(("restore")@[0] == 'r');
    assert(("restore")@[1] == 'e');
    assert(("restore")@[2] == 's');
    assert(("restore")@[3] == 't');
    assert(("restore")@[4] == 'o');
    assert(("restore")@[5] == 'r');
    assert(("restore")@[6] == 'e');
    assert(("save")@[0] == 's');
    assert(("save")@[1] == 'a');
    assert(("save")@[2] == 'v');
    assert(("save")@[3] == 'e');
    assert(("throttle")@[0] == 't');
    assert(("throttle")@[1] == 'h');
    assert(("throttle")@[2] == 'r');
    assert(("throttle")@[3] == 'o');
    assert(("throttle")@[4] == 't');
    assert(("throttle")@[5] == 't');
    assert(("throttle")@[6] == 'l');
    assert(("throttle")@[7] == 'e');
    assert(("delay")@[0] == 'd');
    assert(("delay")@[1] == 'e');
    assert(("delay")@[2] == 'l');
    assert(("delay")@[3] == 'a');
    assert(("delay")@[4] == 'y');
    assert(("substitute")@[0] == 's');
    assert(("substitute")@[1] == 'u');
    assert(("substitute")@[2] == 'b');
    assert(("substitute")@[3] == 's');
    assert(("substitute")@[4] == 't');
    assert(("substitute")@[5] == 'i');
    assert(("substitute")@[6] == 't');
    assert(("substitute")@[7] == 'u');
    assert(("substitute")@[8] == 't');
    assert(("substitute")@[9] == 'e');
    assert(("copy")@[0] == 'c');
    assert(("copy")@[1] == 'o');
    assert(("copy")@[2] == 'p');
    assert(("copy")@[3] == 'y');
    assert(("sync")@[0] == 's');
    assert(("sync")@[1] == 'y');
    assert(("sync")@[2] == 'n');
    assert(("sync")@[3] == 'c');
    assert(("investigate")@[0] == 'i');
    assert(("investigate")@[1] == 'n');
    assert(("investigate")@[2] == 'v');
    assert(("investigate")@[3] == 'e');
    assert(("investigate")@[4] == 's');
    assert(("investigate")@[5] == 't');
    assert(("investigate")@[6] == 'i');
    assert(("investigate")@[7] == 'g');
    assert(("investigate")@[8] == 'a');
    assert(("investigate")@[9] == 't');
    assert(("investigate")@[10] == 'e');
    assert(("mitigate")@[0] == 'm');
    assert(("mitigate")@[1] == 'i');
    assert(("mitigate")@[2] == 't');
    assert(("mitigate")@[3] == 'i');
    assert(("mitigate")@[4] == 'g');
    assert(("mitigate")@[5] == 'a');
    assert(("mitigate")@[6] == 't');
    assert(("mitigate")@[7] == 'e');
    assert(("remediate")@[0] == 'r');
    assert(("remediate")@[1] == 'e');
    assert(("remediate")@[2] == 'm');
    assert(("remediate")@[3] == 'e');
    assert(("remediate")@[4] == 'd');
    assert(("remediate")@[5] == 'i');
    assert(("remediate")@[6] == 'a');
    assert(("remediate")@[7] == 't');
    assert(("remediate")@[8] == 'e');
    match a {
        Action::Scan => {
            assert(parse_action(action_text(a)) == Some(a));
        }
        Action::Locate => {
            assert(parse_action(action_text(a)) == Some(a));
        }
        Action::Query => {
            assert(parse_action(action_text(a)) == Some(a));
        }
        Action::Report => {
            assert(parse_action(action_text(a)) == Some(a));
        }
        Action::Notify => {
            assert(parse_action(action_text(a)) == Some(a));
        }
        Action::Deny => {
            assert(parse_action(action_text(a)) == Some(a));
        }
        Action::Contain => {
            assert(parse_action(action_text(a)) == Some(a));
        }
        Action::Allow => {
            assert(parse_action(action_text(a)) == Some(a));
        }
        Action::Start => {
            assert(parse_action(action_text(a)) == Some(a));
        }
        Action::Stop => {
            assert(parse_action(action_text(a)) == Some(a));
        }
        Action::Restart => {
            assert(parse_action(action_text(a)) == Some(a));
        }
        Action::Pause => {
            assert(parse_action(action_text(a)) == Some(a));
        }
        Action::Resume => {
            assert(parse_action(action_text(a)) == Some(a));
        }
        Action::Cancel => {
            assert(parse_action(action_text(a)) == Some(a));
        }
        Action::Assign => {
            assert(parse_action(action_text(a)) == Some(a));
        }
        Action::Update => {
            assert(parse_action(action_text(a)) == Some(a));
        }
        Action::Move => {
            assert(parse_action(action_text(a)) == Some(a));
        }
        Action::Redirect => {
            assert(parse_action(action_text(a)) == Some(a));
        }
        Action::Create => {
            assert(parse_action(action_text(a)) == Some(a));
        }
        Action::Delete => {
            assert(parse_action(action_text(a)) == Some(a));
        }
        Action::Snapshot => {
            assert(parse_action(action_text(a)) == Some(a));
        }
        Action::Detonate => {
            assert(parse_action(action_text(a)) == Some(a));
        }
        Action::Restore => {
            assert(parse_action(action_text(a)) == Some(a));
        }
        Action::Save => {
            assert(parse_action(action_text(a)) == Some(a));
        }
        Action::Throttle => {
            assert(parse_action(action_text(a)) == Some(a));
        }
        Action::Delay => {
            assert(parse_action(action_text(a)) == Some(a));
        }
        Action::Substitute => {
            assert(parse_action(action_text(a)) == Some(a));
        }
        Action::Copy => {
            assert(parse_action(action_text(a)) == Some(a));
        }
        Action::Sync => {
            assert(parse_action(action_text(a)) == Some(a));
        }
        Action::Investigate => {
            assert(parse_action(action_text(a)) == Some(a));
        }
        Action::Mitigate => {
            assert(parse_action(action_text(a)) == Some(a));
        }
        Action::Remediate => {
            assert(parse_action(action_text(a)) == Some(a));
        }
    }
}

} // verus!
