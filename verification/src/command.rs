//! Commands: an action, its target, and the arguments that qualify it.

use vstd::prelude::*;
use vstd::string::StringExecFns;

use crate::Check;
use crate::IsEmpty;
use crate::action::Action;
use crate::data::CommandId;
use crate::data::Extensions;
use crate::data::ResponseType;
use crate::error::Error;
use crate::error::ErrorV;
use crate::error::NotImplementedErrorV;
use crate::error::PathSegV;
use crate::error::PathSegment;
use crate::error::ValidationError;
use crate::error::ValidationErrorV;
use crate::error::collapse_errors;
use crate::err_result_matches;
use crate::nsid::Nsid;
use crate::target::Target;
use crate::target::TargetV;
use crate::target::opt_text;
use crate::time::DateTime;
use crate::time::Duration;
use crate::value::ValueV;

verus! {

// ---------------------------------------------------------------------------
// Period
// ---------------------------------------------------------------------------

/// The window in which an action runs: a start, an end, a duration.
#[derive(Debug, Clone, Copy, PartialEq, Eq, Hash)]
pub struct Period {
    pub start_time: Option<DateTime>,
    pub stop_time: Option<DateTime>,
    pub duration: Option<Duration>,
}

impl Period {
    /// A period with nothing set.
    pub fn empty() -> (r: Self)
        ensures
            r == (Period { start_time: None, stop_time: None, duration: None }),
    {
        Period { start_time: None, stop_time: None, duration: None }
    }
}

impl IsEmpty for Period {
    open spec fn is_empty_spec(&self) -> bool {
        self.start_time.is_none() && self.stop_time.is_none() && self.duration.is_none()
    }

    fn is_empty(&self) -> (r: bool) {
        self.start_time.is_none() && self.stop_time.is_none() && self.duration.is_none()
    }
}

/// The rule a period must satisfy: setting start, stop, and duration all at
/// once is ambiguous and rejected, with the error at `duration`.
pub open spec fn period_check_spec(p: Period) -> Result<(), ErrorV> {
    if p.start_time.is_some() && p.stop_time.is_some() && p.duration.is_some() {
        Err(
            ErrorV::Validation(
                ValidationErrorV {
                    path: seq![PathSegV::Key("duration"@)],
                    message: "Only two of start_time, stop_time, and duration may be specified at once"@,
                },
            ),
        )
    } else {
        Ok(())
    }
}

/// The errors [`Period::require_empty`] reports: one not-implemented error
/// for each field that is set, each at its own field's path, duration
/// first.
pub open spec fn period_require_empty_errors(p: Period) -> Seq<ErrorV> {
    let d: Seq<ErrorV> = if p.duration.is_some() {
        seq![
            ErrorV::NotImplemented(
                NotImplementedErrorV {
                    message: "duration is not supported"@,
                    path: Some(seq![PathSegV::Key("duration"@)]),
                },
            ),
        ]
    } else {
        Seq::empty()
    };
    let st: Seq<ErrorV> = if p.start_time.is_some() {
        seq![
            ErrorV::NotImplemented(
                NotImplementedErrorV {
                    message: "start_time is not supported"@,
                    path: Some(seq![PathSegV::Key("start_time"@)]),
                },
            ),
        ]
    } else {
        Seq::empty()
    };
    let sp: Seq<ErrorV> = if p.stop_time.is_some() {
        seq![
            ErrorV::NotImplemented(
                NotImplementedErrorV {
                    message: "stop_time is not supported"@,
                    path: Some(seq![PathSegV::Key("stop_time"@)]),
                },
            ),
        ]
    } else {
        Seq::empty()
    };
    d + st + sp
}

impl Period {
    /// Fails unless the period is entirely empty: the stricter check a
    /// profile may impose when it supports no scheduling at all.
    pub fn require_empty(&self) -> (r: Result<(), Error>)
        ensures
            err_result_matches(r, collapse_errors(period_require_empty_errors(*self))),
    {
        let mut errors = Error::accumulator();
        if self.duration.is_some() {
            errors.push(Error::not_implemented("duration is not supported").at(
                PathSegment::key("duration"),
            ));
        }
        if self.start_time.is_some() {
            errors.push(Error::not_implemented("start_time is not supported").at(
                PathSegment::key("start_time"),
            ));
        }
        if self.stop_time.is_some() {
            errors.push(Error::not_implemented("stop_time is not supported").at(
                PathSegment::key("stop_time"),
            ));
        }
        proof {
            assert(errors@.errors =~= period_require_empty_errors(*self));
        }
        errors.finish()
    }
}

impl Check for Period {
    open spec fn check_spec(&self) -> Result<(), ErrorV> {
        period_check_spec(*self)
    }

    fn check(&self) -> (r: Result<(), Error>) {
        let mut acc = Error::accumulator();
        if self.start_time.is_some() && self.stop_time.is_some() && self.duration.is_some() {
            let e = Error::validation(
                "Only two of start_time, stop_time, and duration may be specified at once",
            );
            acc.push(e.at(PathSegment::key("duration")));
        }
        acc.finish()
    }
}

// ---------------------------------------------------------------------------
// Args
// ---------------------------------------------------------------------------

/// Mathematical model of command arguments.
#[verifier::ext_equal]
pub struct ArgsV {
    pub period: Period,
    pub response_requested: Option<ResponseType>,
    pub comment: Option<Seq<char>>,
    pub extensions: Seq<(Seq<char>, ValueV)>,
}

/// The arguments qualifying a command: its period, the responses asked
/// for, a note, and profile-keyed extension content.
pub struct Args {
    pub period: Period,
    pub response_requested: Option<ResponseType>,
    /// A human-readable note to annotate the action.
    pub comment: Option<String>,
    pub extensions: Extensions,
}

impl View for Args {
    type V = ArgsV;

    open spec fn view(&self) -> ArgsV {
        ArgsV {
            period: self.period,
            response_requested: self.response_requested,
            comment: opt_text(&self.comment),
            extensions: self.extensions@,
        }
    }
}

impl Args {
    /// Arguments with nothing set.
    pub fn new() -> (r: Self)
        ensures
            r@ == (ArgsV {
                period: Period { start_time: None, stop_time: None, duration: None },
                response_requested: None,
                comment: None,
                extensions: Seq::empty(),
            }),
    {
        Args {
            period: Period::empty(),
            response_requested: None,
            comment: None,
            extensions: Extensions::new(),
        }
    }
}

impl Default for Args {
    fn default() -> (r: Self)
        ensures
            r@ == (ArgsV {
                period: Period { start_time: None, stop_time: None, duration: None },
                response_requested: None,
                comment: None,
                extensions: Seq::empty(),
            }),
    {
        Args::new()
    }
}

impl IsEmpty for Args {
    open spec fn is_empty_spec(&self) -> bool {
        self.period.is_empty_spec() && self.response_requested.is_none()
            && self@.comment.is_none() && self@.extensions.len() == 0
    }

    fn is_empty(&self) -> (r: bool) {
        self.period.is_empty() && self.response_requested.is_none() && self.comment.is_none()
            && self.extensions.is_empty()
    }
}

impl Check for Args {
    /// The generic argument rule is the period rule: every violation that a
    /// period can have is reported here, and nothing else.
    open spec fn check_spec(&self) -> Result<(), ErrorV> {
        period_check_spec(self.period)
    }

    fn check(&self) -> (r: Result<(), Error>) {
        let mut acc = Error::accumulator();
        let pr = self.period.check();
        let opt = acc.handle(pr);
        proof {
            match period_check_spec(self.period) {
                Ok(()) => {
                    assert(acc@.errors =~= Seq::<ErrorV>::empty());
                }
                Err(e) => {
                    assert(acc@.errors =~= seq![e]);
                }
            }
        }
        acc.finish()
    }
}

// ---------------------------------------------------------------------------
// Command
// ---------------------------------------------------------------------------

/// Mathematical model of a command.
#[verifier::ext_equal]
pub struct CommandV {
    pub action: Action,
    pub target: TargetV,
    pub args: ArgsV,
    pub profile: Option<Seq<char>>,
    pub command_id: Option<Seq<char>>,
}

/// A command communicates an action to be performed on a target.
pub struct Command {
    /// The task or activity to be performed.
    pub action: Action,
    /// The object of the action.
    pub target: Target,
    pub args: Args,
    /// The profile whose actuator is asked to perform the action.
    pub profile: Option<Nsid>,
    pub command_id: Option<CommandId>,
}

impl View for Command {
    type V = CommandV;

    open spec fn view(&self) -> CommandV {
        CommandV {
            action: self.action,
            target: self.target@,
            args: self.args@,
            profile: match &self.profile {
                Some(p) => Some(p@),
                None => None,
            },
            command_id: opt_text(&self.command_id),
        }
    }
}

impl Command {
    /// A command without arguments, profile, or identifier.
    pub fn new(action: Action, target: Target) -> (r: Self)
        ensures
            r@.action == action,
            r@.target == target@,
            r@.args == (ArgsV {
                period: Period { start_time: None, stop_time: None, duration: None },
                response_requested: None,
                comment: None,
                extensions: Seq::empty(),
            }),
            r@.profile.is_none(),
            r@.command_id.is_none(),
    {
        Command { action, target, args: Args::new(), profile: None, command_id: None }
    }

    /// The same command with the given arguments.
    pub fn with_args(self, args: Args) -> (r: Self)
        ensures
            r@ == (CommandV { args: args@, ..self@ }),
    {
        Command { args, ..self }
    }

    /// The same command asking the given profile's actuator.
    pub fn with_profile(self, profile: Nsid) -> (r: Self)
        ensures
            r@ == (CommandV { profile: Some(profile@), ..self@ }),
    {
        Command { profile: Some(profile), ..self }
    }
}

} // verus!
