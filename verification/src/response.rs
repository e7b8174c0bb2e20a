//! Responses: status codes, result payloads, and the mapping from errors to
//! the response a caller sees.

use vstd::prelude::*;
use vstd::string::StringExecFns;

use crate::IsEmpty;
use crate::action::Action;
use crate::data::Extensions;
use crate::error::Error;
use crate::error::ErrorV;
use crate::error::path_text;
use crate::nsid::Nsid;
use crate::target::TargetType;
use crate::target::TargetTypeV;
use crate::target::opt_text;
use crate::value::ValueV;
use crate::version::Version;

verus! {

// ---------------------------------------------------------------------------
// Status codes
// ---------------------------------------------------------------------------

/// The status of a response, mirroring the HTTP code families.
#[derive(Debug, Clone, Copy, PartialEq, Eq, Structural, Hash)]
pub enum StatusCode {
    /// 102: an interim acknowledgment while work continues.
    Processing,
    /// 200: the command succeeded (written 200 `OK` on the wire).
    Okay,
    /// 400: the command was malformed.
    BadRequest,
    /// 401: authentication is required or failed.
    Unauthorized,
    /// 403: the producer is not allowed to ask this.
    Forbidden,
    /// 404: the target was not found.
    NotFound,
    /// 500: the consumer failed internally.
    InternalError,
    /// 501: the consumer does not support the request.
    NotImplemented,
    /// 503: the consumer is overloaded or down.
    ServiceUnavailable,
}

/// The numeric wire form of each status.
pub open spec fn status_code_num(s: StatusCode) -> int {
    match s {
        StatusCode::Processing => 102,
        StatusCode::Okay => 200,
        StatusCode::BadRequest => 400,
        StatusCode::Unauthorized => 401,
        StatusCode::Forbidden => 403,
        StatusCode::NotFound => 404,
        StatusCode::InternalError => 500,
        StatusCode::NotImplemented => 501,
        StatusCode::ServiceUnavailable => 503,
    }
}

/// The status a number denotes, if any.
pub open spec fn parse_status_code(n: int) -> Option<StatusCode> {
    if n == 102 { Some(StatusCode::Processing) }
    else if n == 200 { Some(StatusCode::Okay) }
    else if n == 400 { Some(StatusCode::BadRequest) }
    else if n == 401 { Some(StatusCode::Unauthorized) }
    else if n == 403 { Some(StatusCode::Forbidden) }
    else if n == 404 { Some(StatusCode::NotFound) }
    else if n == 500 { Some(StatusCode::InternalError) }
    else if n == 501 { Some(StatusCode::NotImplemented) }
    else if n == 503 { Some(StatusCode::ServiceUnavailable) }
    else { None }
}

impl StatusCode {
    /// The numeric wire form.
    pub fn code(&self) -> (r: u16)
        ensures
            r as int == status_code_num(*self),
    {
        match self {
            StatusCode::Processing => 102,
            StatusCode::Okay => 200,
            StatusCode::BadRequest => 400,
            StatusCode::Unauthorized => 401,
            StatusCode::Forbidden => 403,
            StatusCode::NotFound => 404,
            StatusCode::InternalError => 500,
            StatusCode::NotImplemented => 501,
            StatusCode::ServiceUnavailable => 503,
        }
    }

    /// The status a number denotes, if any.
    pub fn from_code(n: u16) -> (r: Option<StatusCode>)
        ensures
            r == parse_status_code(n as int),
    {
        if n == 102 { Some(StatusCode::Processing) }
        else if n == 200 { Some(StatusCode::Okay) }
        else if n == 400 { Some(StatusCode::BadRequest) }
        else if n == 401 { Some(StatusCode::Unauthorized) }
        else if n == 403 { Some(StatusCode::Forbidden) }
        else if n == 404 { Some(StatusCode::NotFound) }
        else if n == 500 { Some(StatusCode::InternalError) }
        else if n == 501 { Some(StatusCode::NotImplemented) }
        else if n == 503 { Some(StatusCode::ServiceUnavailable) }
        else { None }
    }

    /// Check if the status is within 100-199.
    pub fn is_informational(&self) -> (r: bool)
        ensures
            r == (100 <= status_code_num(*self) < 200),
    {
        matches!(self, StatusCode::Processing)
    }

    /// Check if the status is within 200-299.
    pub fn is_success(&self) -> (r: bool)
        ensures
            r == (200 <= status_code_num(*self) < 300),
    {
        matches!(self, StatusCode::Okay)
    }

    /// Check if the status is within 400-599.
    pub fn is_error(&self) -> (r: bool)
        ensures
            r == (400 <= status_code_num(*self) < 600),
    {
        self.is_producer_error() || self.is_consumer_error()
    }

    /// Check if the status is within 400-499.
    pub fn is_producer_error(&self) -> (r: bool)
        ensures
            r == (400 <= status_code_num(*self) < 500),
    {
        matches!(
            self,
            StatusCode::BadRequest | StatusCode::Unauthorized | StatusCode::Forbidden
                | StatusCode::NotFound
        )
    }

    /// Check if the status is within 500-599.
    pub fn is_consumer_error(&self) -> (r: bool)
        ensures
            r == (500 <= status_code_num(*self) < 600),
    {
        matches!(
            self,
            StatusCode::InternalError | StatusCode::NotImplemented
                | StatusCode::ServiceUnavailable
        )
    }
}

/// Rendering a status as its number and reading it back gives the status.
pub proof fn lemma_status_code_round_trip(s: StatusCode)
    ensures
        parse_status_code(status_code_num(s)) == Some(s),
{
}

// ---------------------------------------------------------------------------
// Action-target pair maps
// ---------------------------------------------------------------------------

/// Mathematical model of a pair map: actions to their declared target
/// kinds, in insertion order.
pub type ActionTargetsV = Seq<(Action, Seq<TargetTypeV>)>;

/// A capability map from action to the target kinds it applies to: the
/// declaration and routing key vocabulary of the registry.
pub struct ActionTargets {
    entries: Vec<(Action, Vec<TargetType>)>,
}

impl View for ActionTargets {
    type V = ActionTargetsV;

    closed spec fn view(&self) -> ActionTargetsV {
        at_entries_view(self.entries@)
    }
}

/// The models of pair-map entries, in order.
pub open spec fn at_entries_view(s: Seq<(Action, Vec<TargetType>)>) -> ActionTargetsV
    decreases s,
{
    if s.len() == 0 {
        Seq::empty()
    } else {
        seq![(s[0].0, s[0].1.deep_view())] + at_entries_view(s.subrange(1, s.len() as int))
    }
}

pub proof fn lemma_at_entries_view(s: Seq<(Action, Vec<TargetType>)>)
    ensures
        at_entries_view(s).len() == s.len(),
        forall|i: int| 0 <= i < s.len() ==> at_entries_view(s)[i]
            == (s[i].0, s[i].1.deep_view()),
    decreases s,
{
    if s.len() > 0 {
        let sub = s.subrange(1, s.len() as int);
        lemma_at_entries_view(sub);
        assert forall|i: int| 0 <= i < s.len() implies at_entries_view(s)[i]
            == (s[i].0, s[i].1.deep_view()) by {
            if i > 0 {
                assert(sub[i - 1] == s[i]);
            }
        }
    }
}

/// True when the map declares the given pair.
pub open spec fn at_has_pair(m: ActionTargetsV, a: Action, t: TargetTypeV) -> bool {
    exists|i: int, j: int|
        0 <= i < m.len() && 0 <= j < m[i].1.len() && m[i].0 == a && m[i].1[j] == t
}

/// True when the map has an entry for the given action.
pub open spec fn at_has_action(m: ActionTargetsV, a: Action) -> bool {
    exists|i: int| 0 <= i < m.len() && m[i].0 == a
}

/// Every action occurs once, and no kind is repeated under one action.
pub open spec fn at_wf(m: ActionTargetsV) -> bool {
    (forall|i: int, j: int| 0 <= i < j < m.len() ==> m[i].0 != m[j].0) && (forall|i: int|
        0 <= i < m.len() ==> (forall|j: int, k: int|
            0 <= j < k < (#[trigger] m[i].1).len() ==> m[i].1[j] != m[i].1[k]))
}

impl ActionTargets {
    /// An empty map.
    pub fn new() -> (r: Self)
        ensures
            r@ == Seq::<(Action, Seq<TargetTypeV>)>::empty(),
            at_wf(r@),
    {
        let r = ActionTargets { entries: Vec::new() };
        proof {
            assert(r@ =~= Seq::<(Action, Seq<TargetTypeV>)>::empty());
        }
        r
    }

    /// A map from raw entries, as the decoder reads them off the wire.
    pub fn from_entries(entries: Vec<(Action, Vec<TargetType>)>) -> (r: Self)
        ensures
            r@ == at_entries_view(entries@),
    {
        ActionTargets { entries }
    }

    /// The number of actions with declared kinds.
    pub fn len(&self) -> (r: usize)
        ensures
            r == self@.len(),
    {
        proof {
            lemma_at_entries_view(self.entries@);
        }
        self.entries.len()
    }

    /// The entry at a given position, in insertion order.
    pub fn entry(&self, i: usize) -> (r: &(Action, Vec<TargetType>))
        requires
            i < self@.len(),
        ensures
            self@[i as int] == (r.0, r.1.deep_view()),
    {
        proof {
            lemma_at_entries_view(self.entries@);
        }
        &self.entries[i]
    }

    /// True when the map declares the given pair.
    #[verifier::loop_isolation(false)]
    pub fn contains_pair(&self, a: Action, t: &TargetType) -> (r: bool)
        ensures
            r == at_has_pair(self@, a, t@),
    {
        proof {
            lemma_at_entries_view(self.entries@);
        }
        assert(forall|x: int| 0 <= x < self.entries@.len()
            ==> self@[x] == (self.entries@[x].0, self.entries@[x].1.deep_view()));
        let mut i: usize = 0;
        while i < self.entries.len()
            invariant
                i <= self.entries.len(),
                forall|x: int, j: int|
                    0 <= x < i && 0 <= j < self@[x].1.len() ==> !(self@[x].0 == a
                        && self@[x].1[j] == t@),
            decreases self.entries.len() - i,
        {
            if self.entries[i].0 == a {
                let tts = &self.entries[i].1;
                proof {
                    assert(tts.deep_view().len() == tts@.len());
                }
                let mut j: usize = 0;
                while j < tts.len()
                    invariant
                        j <= tts.len(),
                        forall|k: int| 0 <= k < j ==> tts.deep_view()[k] != t@,
                    decreases tts.len() - j,
                {
                    if &tts[j] == t {
                        proof {
                            assert(tts.deep_view().len() == tts@.len());
                            assert(tts.deep_view()[j as int] == tts@[j as int]@);
                            assert(self@[i as int]
                                == (self.entries@[i as int].0,
                                self.entries@[i as int].1.deep_view()));
                            assert(self@[i as int].1[j as int] == t@);
                        }
                        return true;
                    }
                    j += 1;
                }
            }
            i += 1;
        }
        false
    }

    /// Declares one more pair: absent parts are added, present ones left
    /// alone, and every pair declared before stays declared.
    #[verifier::loop_isolation(false)]
    pub fn insert(&mut self, a: Action, t: TargetType)
        requires
            at_wf(old(self)@),
        ensures
            at_wf(final(self)@),
            forall|x: Action, u: TargetTypeV|
                at_has_pair(final(self)@, x, u) <==> (at_has_pair(old(self)@, x, u) || (x == a
                    && u == t@)),
            forall|x: Action| at_has_action(final(self)@, x) <==> (at_has_action(old(self)@, x)
                || x == a),
    {
        proof {
            lemma_at_entries_view(self.entries@);
        }
        let n = self.entries.len();
        let mut i: usize = 0;
        while i < n
            invariant
                i <= n,
                self.entries@ == old(self).entries@,
                n == self.entries.len(),
                forall|x: int| 0 <= x < i ==> self@[x].0 != a,
            decreases n - i,
        {
            if self.entries[i].0 == a {
                let tts = &self.entries[i].1;
                let m = tts.len();
                let mut j: usize = 0;
                while j < m
                    invariant
                        j <= m,
                        m == self.entries[i as int].1.len(),
                        i < self.entries.len(),
                        forall|k: int| 0 <= k < j
                            ==> self.entries[i as int].1.deep_view()[k] != t@,
                    decreases m - j,
                {
                    if &self.entries[i].1[j] == &t {
                        proof {
                            lemma_at_entries_view(self.entries@);
                            assert(self.entries@[i as int].1.deep_view().len()
                                == self.entries@[i as int].1@.len());
                            assert(self.entries@[i as int].1.deep_view()[j as int]
                                == self.entries@[i as int].1@[j as int]@);
                            assert(self@[i as int]
                                == (self.entries@[i as int].0,
                                self.entries@[i as int].1.deep_view()));
                            assert(self@[i as int].1[j as int] == t@);
                            assert(at_has_pair(self@, a, t@));
                            assert(at_has_action(self@, a)) by {
                                assert(self@[i as int].0 == a);
                            }
                            assert(forall|x: Action, u: TargetTypeV|
                                at_has_pair(self@, x, u) <==> (at_has_pair(old(self)@, x, u) || (
                                x == a && u == t@)));
                        }
                        return;
                    }
                    j += 1;
                }
                let ghost oldv = self@;
                let ghost olde = self.entries@;
                proof {
                    assert(olde == old(self).entries@);
                    assert(oldv == old(self)@);
                    assert(at_wf(oldv));
                }
                let mut entry = (a, Vec::new());
                core::mem::swap(&mut entry, &mut self.entries[i]);
                let (ea, mut tv) = entry;
                tv.push(t);
                let mut entry2 = (ea, tv);
                core::mem::swap(&mut entry2, &mut self.entries[i]);
                proof {
                    lemma_at_entries_view(self.entries@);
                    lemma_at_entries_view(olde);
                    assert(self.entries@.len() == olde.len());
                    assert(forall|x: int| 0 <= x < olde.len() && x != i as int
                        ==> self.entries@[x] == olde[x]);
                    assert(self.entries@[i as int].0 == olde[i as int].0);
                    assert(self.entries@[i as int].1@ =~= olde[i as int].1@ + seq![t]);
                    assert(self.entries@[i as int].1.deep_view()
                        =~= olde[i as int].1.deep_view() + seq![t@]);
                    assert(oldv[i as int] == (olde[i as int].0, olde[i as int].1.deep_view()));
                    assert(oldv[i as int].0 == a);
                    assert(self@[i as int]
                        == (self.entries@[i as int].0, self.entries@[i as int].1.deep_view()));
                    assert(self@[i as int].1 =~= oldv[i as int].1 + seq![t@]);
                    assert(olde[i as int].1.deep_view().len() == olde[i as int].1@.len());
                    assert forall|k: int| 0 <= k < oldv[i as int].1.len()
                        implies oldv[i as int].1[k] != t@ by {
                        assert(olde[i as int].1.deep_view()[k] != t@);
                    }
                    assert forall|x: int| 0 <= x < self@.len() implies #[trigger] self@[x].0
                        == oldv[x].0 by {
                        if x != i as int {
                            assert(self.entries@[x] == olde[x]);
                        }
                    }
                    assert forall|x: int| 0 <= x < self@.len() && x != i as int
                        implies #[trigger] self@[x] == oldv[x] by {
                        assert(self.entries@[x] == olde[x]);
                    }
                    assert forall|x: Action, u: TargetTypeV|
                        at_has_pair(self@, x, u) <==> (at_has_pair(oldv, x, u) || (x == a && u
                            == t@)) by {
                        if at_has_pair(oldv, x, u) {
                            let (oi, oj) = choose|oi: int, oj: int|
                                0 <= oi < oldv.len() && 0 <= oj < oldv[oi].1.len() && oldv[oi].0
                                    == x && oldv[oi].1[oj] == u;
                            assert(self@[oi].1[oj] == u);
                        }
                        if x == a && u == t@ {
                            assert(self@[i as int].0 == a);
                            assert(self@[i as int].1[self@[i as int].1.len() - 1] == t@);
                            assert(at_has_pair(self@, x, u));
                        }
                        if at_has_pair(self@, x, u) {
                            let (ni, nj) = choose|ni: int, nj: int|
                                0 <= ni < self@.len() && 0 <= nj < self@[ni].1.len()
                                    && self@[ni].0 == x && self@[ni].1[nj] == u;
                            if ni == i as int && nj == self@[ni].1.len() - 1 {
                            } else {
                                assert(oldv[ni].1[nj] == u);
                            }
                        }
                    }
                    assert(forall|x: Action, u: TargetTypeV|
                        at_has_pair(self@, x, u) <==> (at_has_pair(old(self)@, x, u) || (x == a
                            && u == t@)));
                    assert(at_wf(self@)) by {
                        assert forall|x: int| 0 <= x < self@.len() && x != i as int
                            implies #[trigger] self@[x] == oldv[x] by {
                            assert(self.entries@[x] == olde[x]);
                        }
                        assert forall|i2: int, j2: int| 0 <= i2 < j2 < self@.len()
                            implies self@[i2].0 != self@[j2].0 by {
                            assert(oldv[i2].0 != oldv[j2].0);
                            assert(self@[i2].0 == oldv[i2].0);
                            assert(self@[j2].0 == oldv[j2].0);
                        }
                        assert forall|x: int| 0 <= x < self@.len() implies (forall|
                            j2: int,
                            k2: int,
                        |
                            0 <= j2 < k2 < (#[trigger] self@[x].1).len() ==> self@[x].1[j2]
                                != self@[x].1[k2]) by {
                            if x == i as int {
                                assert forall|j2: int, k2: int|
                                    0 <= j2 < k2 < self@[x].1.len() implies self@[x].1[j2]
                                        != self@[x].1[k2] by {
                                    if k2 == self@[x].1.len() - 1 {
                                        assert(self@[x].1[j2] == oldv[x].1[j2]);
                                    } else {
                                        assert(self@[x].1[j2] == oldv[x].1[j2]);
                                        assert(self@[x].1[k2] == oldv[x].1[k2]);
                                    }
                                }
                            }
                        }
                    }
                    assert(at_has_action(oldv, a)) by {
                        assert(oldv[i as int].0 == a);
                    }
                    assert forall|x: Action|
                        at_has_action(self@, x) <==> (at_has_action(oldv, x) || x == a) by {
                        if at_has_action(self@, x) {
                            let ni = choose|ni: int|
                                0 <= ni < self@.len() && self@[ni].0 == x;
                            assert(oldv[ni].0 == x);
                        }
                        if at_has_action(oldv, x) {
                            let oi = choose|oi: int|
                                0 <= oi < oldv.len() && oldv[oi].0 == x;
                            assert(self@[oi].0 == x);
                        }
                    }
                }
                return;
            }
            i += 1;
        }
        let ghost oldv = self@;
        let ghost olde = self.entries@;
        proof {
            assert(olde == old(self).entries@);
            assert(oldv == old(self)@);
            assert(at_wf(oldv));
            assert(forall|x: int| 0 <= x < oldv.len() ==> #[trigger] oldv[x].0 != a);
        }
        let mut tv: Vec<TargetType> = Vec::new();
        tv.push(t);
        proof {
            assert(tv.deep_view() =~= seq![t@]);
        }
        self.entries.push((a, tv));
        proof {
            lemma_at_entries_view(self.entries@);
            lemma_at_entries_view(olde);
            assert(self.entries@ =~= olde + seq![(a, tv)]);
            assert(self.entries@.len() == olde.len() + 1);
            assert(forall|x: int| 0 <= x < olde.len() ==> self.entries@[x] == olde[x]);
            assert(self@.len() == oldv.len() + 1);
            assert(forall|x: int| 0 <= x < oldv.len() ==> self@[x] == oldv[x]);
            assert(self@[oldv.len() as int].0 == a);
            assert(self@[oldv.len() as int].1 =~= seq![t@]);
            assert forall|x: int| 0 <= x < oldv.len() implies #[trigger] self@[x].0 != a by {
                assert(self@[x] == oldv[x]);
                assert(oldv[x].0 != a);
            }
            assert forall|i2: int, j2: int| 0 <= i2 < j2 < self@.len() implies self@[i2].0
                != self@[j2].0 by {
                if j2 < oldv.len() {
                    assert(self@[i2] == oldv[i2]);
                    assert(self@[j2] == oldv[j2]);
                    assert(oldv[i2].0 != oldv[j2].0);
                } else {
                    assert(self@[j2].0 == a);
                    assert(self@[i2].0 != a);
                }
            }
            assert forall|x: int| 0 <= x < self@.len() implies (forall|j2: int, k2: int|
                0 <= j2 < k2 < (#[trigger] self@[x].1).len() ==> self@[x].1[j2]
                    != self@[x].1[k2]) by {
                if x < oldv.len() {
                    assert(self@[x] == oldv[x]);
                    assert(forall|j2: int, k2: int|
                        0 <= j2 < k2 < (#[trigger] oldv[x].1).len() ==> oldv[x].1[j2]
                            != oldv[x].1[k2]);
                } else {
                    assert(self@[x].1.len() == 1);
                }
            }
            assert(at_wf(self@));
            assert forall|x: Action, u: TargetTypeV|
                at_has_pair(self@, x, u) <==> (at_has_pair(oldv, x, u) || (x == a && u == t@))
                by {
                if at_has_pair(oldv, x, u) {
                    let (oi, oj) = choose|oi: int, oj: int|
                        0 <= oi < oldv.len() && 0 <= oj < oldv[oi].1.len() && oldv[oi].0 == x
                            && oldv[oi].1[oj] == u;
                    assert(self@[oi].1[oj] == u);
                }
                if x == a && u == t@ {
                    assert(self@[oldv.len() as int].1[0] == t@);
                }
                if at_has_pair(self@, x, u) {
                    let (ni, nj) = choose|ni: int, nj: int|
                        0 <= ni < self@.len() && 0 <= nj < self@[ni].1.len() && self@[ni].0 == x
                            && self@[ni].1[nj] == u;
                    if ni < oldv.len() {
                        assert(oldv[ni].1[nj] == u);
                    }
                }
            }
            assert forall|x: Action|
                at_has_action(self@, x) <==> (at_has_action(oldv, x) || x == a) by {
                if at_has_action(self@, x) {
                    let ni = choose|ni: int| 0 <= ni < self@.len() && self@[ni].0 == x;
                    if ni < oldv.len() {
                        assert(oldv[ni].0 == x);
                    }
                }
                if at_has_action(oldv, x) {
                    let oi = choose|oi: int| 0 <= oi < oldv.len() && oldv[oi].0 == x;
                    assert(self@[oi].0 == x);
                }
                if x == a {
                    assert(self@[oldv.len() as int].0 == a);
                }
            }
        }
    }
}

// ---------------------------------------------------------------------------
// Results
// ---------------------------------------------------------------------------

/// Mathematical model of query results.
#[verifier::ext_equal]
pub struct ResultsV {
    pub versions: Seq<Version>,
    pub profiles: Seq<Seq<char>>,
    pub pairs: Option<ActionTargetsV>,
    pub rate_limit: Option<u64>,
    pub extensions: Seq<(Seq<char>, ValueV)>,
}

/// What a consumer reports back from a query: supported versions and
/// profiles, its declared pairs, and profile-specific extension content.
pub struct Results {
    pub versions: Vec<Version>,
    pub profiles: Vec<Nsid>,
    pub pairs: Option<ActionTargets>,
    pub rate_limit: Option<u64>,
    pub extensions: Extensions,
}

/// The models of a profile list, in order.
pub open spec fn nsids_view(s: Seq<Nsid>) -> Seq<Seq<char>>
    decreases s,
{
    if s.len() == 0 {
        Seq::empty()
    } else {
        seq![s[0]@] + nsids_view(s.subrange(1, s.len() as int))
    }
}

pub proof fn lemma_nsids_view(s: Seq<Nsid>)
    ensures
        nsids_view(s).len() == s.len(),
        forall|i: int| 0 <= i < s.len() ==> nsids_view(s)[i] == s[i]@,
    decreases s,
{
    if s.len() > 0 {
        let sub = s.subrange(1, s.len() as int);
        lemma_nsids_view(sub);
        assert forall|i: int| 0 <= i < s.len() implies nsids_view(s)[i] == s[i]@ by {
            if i > 0 {
                assert(sub[i - 1] == s[i]);
            }
        }
    }
}

impl View for Results {
    type V = ResultsV;

    open spec fn view(&self) -> ResultsV {
        ResultsV {
            versions: self.versions@,
            profiles: nsids_view(self.profiles@),
            pairs: match &self.pairs {
                Some(p) => Some(p@),
                None => None,
            },
            rate_limit: self.rate_limit,
            extensions: self.extensions@,
        }
    }
}

impl Results {
    /// Results with nothing reported.
    pub fn new() -> (r: Self)
        ensures
            r@ == (ResultsV {
                versions: Seq::empty(),
                profiles: Seq::empty(),
                pairs: None,
                rate_limit: None,
                extensions: Seq::empty(),
            }),
    {
        let r = Results {
            versions: Vec::new(),
            profiles: Vec::new(),
            pairs: None,
            rate_limit: None,
            extensions: Extensions::new(),
        };
        proof {
            assert(r@ =~= ResultsV {
                versions: Seq::empty(),
                profiles: Seq::empty(),
                pairs: None,
                rate_limit: None,
                extensions: Seq::empty(),
            });
        }
        r
    }
}

impl Default for Results {
    fn default() -> (r: Self)
        ensures
            r@ == (ResultsV {
                versions: Seq::empty(),
                profiles: Seq::empty(),
                pairs: None,
                rate_limit: None,
                extensions: Seq::empty(),
            }),
    {
        Results::new()
    }
}

impl IsEmpty for Results {
    open spec fn is_empty_spec(&self) -> bool {
        self@.versions.len() == 0 && self@.profiles.len() == 0 && self@.pairs.is_none()
            && self@.rate_limit.is_none() && self@.extensions.len() == 0
    }

    fn is_empty(&self) -> (r: bool) {
        proof {
            lemma_nsids_view(self.profiles@);
        }
        self.versions.len() == 0 && self.profiles.len() == 0 && self.pairs.is_none()
            && self.rate_limit.is_none() && self.extensions.is_empty()
    }
}

// ---------------------------------------------------------------------------
// Response
// ---------------------------------------------------------------------------

/// Mathematical model of a response.
#[verifier::ext_equal]
pub struct ResponseV {
    pub status: StatusCode,
    pub status_text: Option<Seq<char>>,
    pub results: Option<ResultsV>,
}

/// What a consumer sends back for a command: a status, optional prose, and
/// optional results.
pub struct Response {
    /// The status of the response to the command.
    pub status: StatusCode,
    /// A description providing additional information about the status.
    pub status_text: Option<String>,
    pub results: Option<Results>,
}

impl View for Response {
    type V = ResponseV;

    open spec fn view(&self) -> ResponseV {
        ResponseV {
            status: self.status,
            status_text: opt_text(&self.status_text),
            results: match &self.results {
                Some(r) => Some(r@),
                None => None,
            },
        }
    }
}

impl Response {
    /// A response with the given status and nothing else.
    pub fn new(status: StatusCode) -> (r: Self)
        ensures
            r@ == (ResponseV { status, status_text: None, results: None }),
    {
        Response { status, status_text: None, results: None }
    }

    /// The same response with the given prose.
    pub fn with_status_text(self, text: String) -> (r: Self)
        ensures
            r@ == (ResponseV { status_text: Some(text@), ..self@ }),
    {
        Response { status_text: Some(text), ..self }
    }

    /// The same response carrying results.
    pub fn with_results(self, results: Results) -> (r: Self)
        ensures
            r@ == (ResponseV { results: Some(results@), ..self@ }),
    {
        Response { results: Some(results), ..self }
    }
}

// ---------------------------------------------------------------------------
// Errors as responses
// ---------------------------------------------------------------------------

/// The status an error projects to: a validation failure is the client's
/// fault, a declined request is not implemented, everything else is an
/// internal failure; an aggregate projects through its first member only.
pub open spec fn err_status(e: ErrorV) -> StatusCode
    decreases e,
{
    match e {
        ErrorV::Validation(_) => StatusCode::BadRequest,
        ErrorV::NotImplemented(_) => StatusCode::NotImplemented,
        ErrorV::Multiple(errs) => if errs.len() > 0 {
            err_status(errs[0])
        } else {
            StatusCode::InternalError
        },
        _ => StatusCode::InternalError,
    }
}

/// The prose an error projects to.
pub open spec fn err_status_text(e: ErrorV) -> Seq<char>
    decreases e,
{
    match e {
        ErrorV::Validation(v) => path_text(v.path) + ": "@ + v.message,
        ErrorV::NotImplemented(n) => match n.path {
            Some(p) => n.message + " (at "@ + path_text(p) + ")"@,
            None => n.message,
        },
        ErrorV::Custom(m) => m,
        ErrorV::Codec(m) => m,
        ErrorV::Multiple(errs) => if errs.len() > 0 {
            err_status_text(errs[0])
        } else {
            "multiple errors"@
        },
    }
}

impl Response {
    /// The response a caller sees for an error.  An aggregate is projected
    /// through its first member alone: callers that need the full set must
    /// inspect the error value itself.
    pub fn from_error(e: &Error) -> (r: Response)
        ensures
            r@.status == err_status(e@),
            r@.status_text == Some(err_status_text(e@)),
            r@.results.is_none(),
        decreases e,
    {
        match e {
            Error::Validation(v) => {
                let mut text = v.path().to_text();
                text.append(": ");
                text.append(v.message());
                proof {
                    reveal_strlit(": ");
                }
                Response::new(StatusCode::BadRequest).with_status_text(text)
            }
            Error::NotImplemented(n) => {
                match n.path() {
                    Some(p) => {
                        let mut text = String::from_str(n.message());
                        text.append(" (at ");
                        text.append(p.to_text().as_str());
                        text.append(")");
                        proof {
                            reveal_strlit(" (at ");
                            reveal_strlit(")");
                        }
                        Response::new(StatusCode::NotImplemented).with_status_text(text)
                    }
                    None => Response::new(StatusCode::NotImplemented).with_status_text(
                        String::from_str(n.message()),
                    ),
                }
            }
            Error::Custom(m) => Response::new(StatusCode::InternalError).with_status_text(
                m.clone(),
            ),
            Error::Codec(m) => Response::new(StatusCode::InternalError).with_status_text(
                m.clone(),
            ),
            Error::Multiple(errs) => {
                if errs.len() > 0 {
                    proof {
                        assert(decreases_to!(*e => e->Multiple_0));
                        assert(decreases_to!(e->Multiple_0@ => e->Multiple_0@[0]));
                        crate::error::lemma_errs_view(errs@);
                    }
                    Response::from_error(&errs[0])
                } else {
                    Response::new(StatusCode::InternalError).with_status_text(
                        String::from_str("multiple errors"),
                    )
                }
            }
        }
    }
}

} // verus!
