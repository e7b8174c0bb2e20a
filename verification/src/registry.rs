//! The registry: registrations declaring which action-target pairs a
//! handler supports, a tombstoned slot list with a pair-keyed reverse
//! index, and the routing decisions for an incoming command.

use vstd::prelude::*;

use crate::action::Action;
use crate::data::Feature;
use crate::data::Extensions;
use crate::value::ValueV;
use crate::data::features_contain;
use crate::data::features_have;
use crate::command::Command;
use crate::command::CommandV;
use crate::error::Error;
use crate::error::ErrorV;
use crate::error::NotImplementedErrorV;
use crate::error::PathSegV;
use crate::nsid::Nsid;
use crate::response::ActionTargets;
use crate::response::ActionTargetsV;
use crate::response::Response;
use crate::response::ResponseV;
use crate::response::Results;
use crate::response::StatusCode;
use crate::response::at_has_pair;
use crate::response::at_wf;
use crate::response::nsids_view;
use crate::response::lemma_nsids_view;
use crate::target::Target;
use crate::target::TargetType;
use crate::target::TargetTypeV;
use crate::target::TargetV;
use crate::target::kind_of;
use crate::version::Version;

verus! {

// ---------------------------------------------------------------------------
// Registrations
// ---------------------------------------------------------------------------

/// Mathematical model of a registration: its declared capability set,
/// keyed by optional profile.
pub type RegistrationV = Seq<(Option<Seq<char>>, ActionTargetsV)>;

/// A registration: the action-target pairs a handler declares, under each
/// profile it serves, or under no profile at all.  The handler itself lives
/// with the caller; the registry routes by slot.
pub struct Registration {
    actions: Vec<(Option<Nsid>, ActionTargets)>,
}

impl View for Registration {
    type V = RegistrationV;

    closed spec fn view(&self) -> RegistrationV {
        reg_actions_view(self.actions@)
    }
}

/// The models of profile-keyed capability entries, in order.
pub open spec fn reg_actions_view(s: Seq<(Option<Nsid>, ActionTargets)>) -> RegistrationV
    decreases s,
{
    if s.len() == 0 {
        Seq::empty()
    } else {
        seq![(opt_nsid_view(&s[0].0), s[0].1@)] + reg_actions_view(s.subrange(1, s.len() as int))
    }
}

/// The model of an optional namespace key.
pub open spec fn opt_nsid_view(o: &Option<Nsid>) -> Option<Seq<char>> {
    match o {
        Some(p) => Some(p@),
        None => None,
    }
}

pub proof fn lemma_reg_actions_view(s: Seq<(Option<Nsid>, ActionTargets)>)
    ensures
        reg_actions_view(s).len() == s.len(),
        forall|i: int| 0 <= i < s.len() ==> reg_actions_view(s)[i]
            == (opt_nsid_view(&s[i].0), s[i].1@),
    decreases s,
{
    if s.len() > 0 {
        let sub = s.subrange(1, s.len() as int);
        lemma_reg_actions_view(sub);
        assert forall|i: int| 0 <= i < s.len() implies reg_actions_view(s)[i]
            == (opt_nsid_view(&s[i].0), s[i].1@) by {
            if i > 0 {
                assert(sub[i - 1] == s[i]);
            }
        }
    }
}

/// True when the registration declares the pair under the given profile key.
pub open spec fn reg_has_pair(
    rv: RegistrationV,
    profile: Option<Seq<char>>,
    a: Action,
    t: TargetTypeV,
) -> bool {
    exists|i: int| 0 <= i < rv.len() && rv[i].0 == profile && at_has_pair(#[trigger] rv[i].1, a, t)
}

/// True when the registration declares the pair under any profile key.
pub open spec fn reg_declares(rv: RegistrationV, a: Action, t: TargetTypeV) -> bool {
    exists|i: int| 0 <= i < rv.len() && at_has_pair(#[trigger] rv[i].1, a, t)
}

/// True when the registration names the profile.
pub open spec fn reg_has_profile(rv: RegistrationV, p: Seq<char>) -> bool {
    exists|i: int| 0 <= i < rv.len() && (#[trigger] rv[i]).0 == Some(p)
}

/// True when one of the first `k` declared pairs is the given one.
pub open spec fn pairs_prefix_has(
    pairsv: Seq<(Action, TargetType)>,
    k: int,
    x: Action,
    u: TargetTypeV,
) -> bool {
    exists|j: int| 0 <= j < k && (#[trigger] pairsv[j]).0 == x && pairsv[j].1@ == u
}

/// The capability set grown so far: what the output declares under a key
/// is what the input declared, plus the first `k` pairs of the list.
pub open spec fn caps_grown(
    outv: RegistrationV,
    origv: RegistrationV,
    pairsv: Seq<(Action, TargetType)>,
    k: int,
    key: Option<Seq<char>>,
) -> bool {
    forall|x: Action, u: TargetTypeV|
        reg_has_pair(outv, key, x, u) <==> (reg_has_pair(origv, key, x, u) || pairs_prefix_has(
            pairsv,
            k,
            x,
            u,
        ))
}

/// Every profile key occurs once and every pair map is well-formed.
pub open spec fn reg_wf(rv: RegistrationV) -> bool {
    (forall|i: int, j: int| 0 <= i < j < rv.len() ==> rv[i].0 != rv[j].0) && (forall|i: int|
        0 <= i < rv.len() ==> at_wf((#[trigger] rv[i]).1))
}

impl Registration {
    /// A registration declaring nothing yet.
    pub fn new() -> (r: Self)
        ensures
            r@ == Seq::<(Option<Seq<char>>, ActionTargetsV)>::empty(),
            reg_wf(r@),
    {
        let r = Registration { actions: Vec::new() };
        proof {
            assert(r@ =~= Seq::<(Option<Seq<char>>, ActionTargetsV)>::empty());
        }
        r
    }

    /// Declares one more pair under a profile key.  Every pair declared
    /// before stays declared, and nothing else is added.
    #[verifier::loop_isolation(false)]
    pub fn add_action(&mut self, profile: Option<Nsid>, action: Action, target: TargetType)
        requires
            reg_wf(old(self)@),
        ensures
            reg_wf(final(self)@),
            forall|p: Option<Seq<char>>, x: Action, u: TargetTypeV|
                reg_has_pair(final(self)@, p, x, u) <==> (reg_has_pair(old(self)@, p, x, u) || (
                p == opt_nsid_view(&profile) && x == action && u == target@)),
            forall|x: Action, u: TargetTypeV|
                reg_declares(final(self)@, x, u) <==> (reg_declares(old(self)@, x, u) || (x
                    == action && u == target@)),
            forall|p: Seq<char>|
                reg_has_profile(final(self)@, p) <==> (reg_has_profile(old(self)@, p)
                    || Some(p) == opt_nsid_view(&profile)),
    {
        proof {
            lemma_reg_actions_view(self.actions@);
        }
        let ghost oldv = self@;
        let key_is_none = profile.is_none();
        let n = self.actions.len();
        let mut i: usize = 0;
        while i < n
            invariant
                i <= n,
                self.actions@ == old(self).actions@,
                n == self.actions.len(),
                forall|x: int| 0 <= x < i ==> self@[x].0 != opt_nsid_view(&profile),
            decreases n - i,
        {
            let same = match (&self.actions[i].0, &profile) {
                (Some(a), Some(b)) => a == b,
                (None, None) => true,
                _ => false,
            };
            if same {
                let ghost olde = self.actions@;
                let mut entry = (None, ActionTargets::new());
                core::mem::swap(&mut entry, &mut self.actions[i]);
                let (ep, mut em) = entry;
                proof {
                    assert(olde[i as int].1@ == oldv[i as int].1);
                    assert(at_wf(em@));
                }
                em.insert(action, target);
                let mut entry2 = (ep, em);
                core::mem::swap(&mut entry2, &mut self.actions[i]);
                proof {
                    lemma_reg_actions_view(self.actions@);
                    lemma_reg_actions_view(olde);
                    assert(self.actions@.len() == olde.len());
                    assert(forall|x: int| 0 <= x < olde.len() && x != i as int
                        ==> self.actions@[x] == olde[x]);
                    assert forall|x: int| 0 <= x < self@.len() && x != i as int
                        implies #[trigger] self@[x] == oldv[x] by {
                        assert(self.actions@[x] == olde[x]);
                    }
                    assert(self@[i as int].0 == oldv[i as int].0);
                    assert(oldv[i as int].0 == opt_nsid_view(&profile));
                    assert(forall|x: Action, u: TargetTypeV|
                        at_has_pair(self@[i as int].1, x, u) <==> (at_has_pair(
                            oldv[i as int].1,
                            x,
                            u,
                        ) || (x == action && u == target@)));
                    assert forall|p: Option<Seq<char>>, x: Action, u: TargetTypeV|
                        reg_has_pair(self@, p, x, u) <==> (reg_has_pair(oldv, p, x, u) || (p
                            == opt_nsid_view(&profile) && x == action && u == target@)) by {
                        if reg_has_pair(oldv, p, x, u) {
                            let oi = choose|oi: int|
                                0 <= oi < oldv.len() && oldv[oi].0 == p && at_has_pair(
                                    #[trigger] oldv[oi].1,
                                    x,
                                    u,
                                );
                            assert(at_has_pair(self@[oi].1, x, u));
                        }
                        if p == opt_nsid_view(&profile) && x == action && u == target@ {
                            assert(at_has_pair(self@[i as int].1, x, u));
                        }
                        if reg_has_pair(self@, p, x, u) {
                            let ni = choose|ni: int|
                                0 <= ni < self@.len() && self@[ni].0 == p && at_has_pair(
                                    #[trigger] self@[ni].1,
                                    x,
                                    u,
                                );
                            if ni != i as int {
                                assert(at_has_pair(oldv[ni].1, x, u));
                            }
                        }
                    }
                    assert forall|x: Action, u: TargetTypeV|
                        reg_declares(self@, x, u) <==> (reg_declares(oldv, x, u) || (x == action
                            && u == target@)) by {
                        if reg_declares(oldv, x, u) {
                            let oi = choose|oi: int|
                                0 <= oi < oldv.len() && at_has_pair(#[trigger] oldv[oi].1, x, u);
                            assert(at_has_pair(self@[oi].1, x, u));
                        }
                        if x == action && u == target@ {
                            assert(at_has_pair(self@[i as int].1, x, u));
                        }
                        if reg_declares(self@, x, u) {
                            let ni = choose|ni: int|
                                0 <= ni < self@.len() && at_has_pair(#[trigger] self@[ni].1, x, u);
                            if ni != i as int {
                                assert(at_has_pair(oldv[ni].1, x, u));
                            }
                        }
                    }
                    assert forall|p: Seq<char>|
                        reg_has_profile(self@, p) <==> (reg_has_profile(oldv, p) || Some(p)
                            == opt_nsid_view(&profile)) by {
                        if reg_has_profile(oldv, p) {
                            let oi = choose|oi: int|
                                0 <= oi < oldv.len() && (#[trigger] oldv[oi]).0 == Some(p);
                            assert(self@[oi].0 == Some(p));
                        }
                        if Some(p) == opt_nsid_view(&profile) {
                            assert(self@[i as int].0 == Some(p));
                        }
                        if reg_has_profile(self@, p) {
                            let ni = choose|ni: int|
                                0 <= ni < self@.len() && (#[trigger] self@[ni]).0 == Some(p);
                            assert(oldv[ni].0 == Some(p));
                        }
                    }
                    assert forall|x: int| 0 <= x < self@.len() implies #[trigger] self@[x].0
                        == oldv[x].0 by {
                        if x != i as int {
                            assert(self@[x] == oldv[x]);
                        }
                    }
                    assert forall|i2: int, j2: int| 0 <= i2 < j2 < self@.len()
                        implies self@[i2].0 != self@[j2].0 by {
                        assert(oldv[i2].0 != oldv[j2].0);
                    }
                    assert forall|i2: int| 0 <= i2 < self@.len() implies at_wf(
                        (#[trigger] self@[i2]).1,
                    ) by {
                        if i2 != i as int {
                            assert(self@[i2] == oldv[i2]);
                            assert(at_wf(oldv[i2].1));
                        }
                    }
                }
                return;
            }
            i += 1;
        }
        let ghost olde = self.actions@;
        let mut em = ActionTargets::new();
        em.insert(action, target);
        self.actions.push((profile, em));
        proof {
            lemma_reg_actions_view(self.actions@);
            lemma_reg_actions_view(olde);
            assert(self.actions@.len() == olde.len() + 1);
            assert(forall|x: int| 0 <= x < olde.len() ==> self.actions@[x] == olde[x]);
            assert(self@.len() == oldv.len() + 1);
            assert forall|x: int| 0 <= x < oldv.len() implies #[trigger] self@[x] == oldv[x] by {
                assert(self.actions@[x] == olde[x]);
            }
            assert(self@[oldv.len() as int].0 == opt_nsid_view(&profile));
            assert(forall|x: Action, u: TargetTypeV|
                at_has_pair(self@[oldv.len() as int].1, x, u) <==> (x == action && u
                    == target@));
            assert(forall|x: int| 0 <= x < oldv.len() ==> self@[x].0 != opt_nsid_view(&profile));
            assert forall|i2: int, j2: int| 0 <= i2 < j2 < self@.len() implies self@[i2].0
                != self@[j2].0 by {
                if j2 < oldv.len() {
                    assert(oldv[i2].0 != oldv[j2].0);
                }
            }
            assert forall|i2: int| 0 <= i2 < self@.len() implies at_wf(
                (#[trigger] self@[i2]).1,
            ) by {
                if i2 < oldv.len() {
                    assert(self@[i2] == oldv[i2]);
                    assert(at_wf(oldv[i2].1));
                }
            }
            assert forall|p: Option<Seq<char>>, x: Action, u: TargetTypeV|
                reg_has_pair(self@, p, x, u) <==> (reg_has_pair(oldv, p, x, u) || (p
                    == opt_nsid_view(&profile) && x == action && u == target@)) by {
                if reg_has_pair(oldv, p, x, u) {
                    let oi = choose|oi: int|
                        0 <= oi < oldv.len() && oldv[oi].0 == p && at_has_pair(
                            #[trigger] oldv[oi].1,
                            x,
                            u,
                        );
                    assert(at_has_pair(self@[oi].1, x, u));
                }
                if p == opt_nsid_view(&profile) && x == action && u == target@ {
                    assert(at_has_pair(self@[oldv.len() as int].1, x, u));
                }
                if reg_has_pair(self@, p, x, u) {
                    let ni = choose|ni: int|
                        0 <= ni < self@.len() && self@[ni].0 == p && at_has_pair(
                            #[trigger] self@[ni].1,
                            x,
                            u,
                        );
                    if ni < oldv.len() {
                        assert(at_has_pair(oldv[ni].1, x, u));
                    }
                }
            }
            assert forall|x: Action, u: TargetTypeV|
                reg_declares(self@, x, u) <==> (reg_declares(oldv, x, u) || (x == action && u
                    == target@)) by {
                if reg_declares(oldv, x, u) {
                    let oi = choose|oi: int|
                        0 <= oi < oldv.len() && at_has_pair(#[trigger] oldv[oi].1, x, u);
                    assert(at_has_pair(self@[oi].1, x, u));
                }
                if x == action && u == target@ {
                    assert(at_has_pair(self@[oldv.len() as int].1, x, u));
                }
                if reg_declares(self@, x, u) {
                    let ni = choose|ni: int|
                        0 <= ni < self@.len() && at_has_pair(#[trigger] self@[ni].1, x, u);
                    if ni < oldv.len() {
                        assert(at_has_pair(oldv[ni].1, x, u));
                    }
                }
            }
            assert forall|p: Seq<char>|
                reg_has_profile(self@, p) <==> (reg_has_profile(oldv, p) || Some(p)
                    == opt_nsid_view(&profile)) by {
                if reg_has_profile(oldv, p) {
                    let oi = choose|oi: int|
                        0 <= oi < oldv.len() && (#[trigger] oldv[oi]).0 == Some(p);
                    assert(self@[oi].0 == Some(p));
                }
                if Some(p) == opt_nsid_view(&profile) {
                    assert(self@[oldv.len() as int].0 == Some(p));
                }
                if reg_has_profile(self@, p) {
                    let ni = choose|ni: int|
                        0 <= ni < self@.len() && (#[trigger] self@[ni]).0 == Some(p);
                    if ni < oldv.len() {
                        assert(oldv[ni].0 == Some(p));
                    }
                }
            }
        }
    }

    /// Declares pairs under a profile, consuming and returning the
    /// registration, builder style.
    #[verifier::loop_isolation(false)]
    pub fn with_actions(self, profile: &Nsid, pairs: Vec<(Action, TargetType)>) -> (r: Self)
        requires
            reg_wf(self@),
        ensures
            reg_wf(r@),
            caps_grown(r@, self@, pairs@, pairs@.len() as int, Some(profile@)),
            forall|p2: Option<Seq<char>>, x: Action, u: TargetTypeV|
                p2 != Some(profile@) ==> (#[trigger] reg_has_pair(r@, p2, x, u) <==> reg_has_pair(
                    self@,
                    p2,
                    x,
                    u,
                )),
            forall|p2: Seq<char>|
                #[trigger] reg_has_profile(r@, p2) <==> (reg_has_profile(self@, p2) || (Some(
                    p2,
                ) == Some(profile@) && pairs@.len() > 0)),
    {
        let ghost origv = self@;
        let mut out = self;
        let mut rest = pairs;
        let ghost pairsv = rest@;
        let total = rest.len();
        let mut k: usize = 0;
        proof {
            assert(rest@ =~= pairsv.skip(0));
            assert(pairsv.len() == total);
        }
        while rest.len() > 0
            invariant
                reg_wf(out@),
                pairsv.len() == total,
                k + rest.len() == pairsv.len(),
                rest@ == pairsv.skip(k as int),
                caps_grown(out@, origv, pairsv, k as int, Some(profile@)),
                forall|p2: Option<Seq<char>>, x: Action, u: TargetTypeV|
                    p2 != Some(profile@) ==> (#[trigger] reg_has_pair(out@, p2, x, u) <==> reg_has_pair(
                        origv,
                        p2,
                        x,
                        u,
                    )),
                forall|p2: Seq<char>|
                    #[trigger] reg_has_profile(out@, p2) <==> (reg_has_profile(origv, p2) || (
                    Some(p2) == Some(profile@) && k > 0)),
            decreases rest.len(),
        {
            let ghost kk = k as int;
            let (a, t) = rest.remove(0);
            proof {
                assert(pairsv.skip(kk)[0] == pairsv[kk]);
                assert((a, t) == pairsv[kk]);
            }
            let ghost prev = out@;
            out.add_action(Some(profile.clone()), a, t);
            proof {
                assert(rest@ =~= pairsv.skip(kk + 1));
                assert(caps_grown(prev, origv, pairsv, kk, Some(profile@)));
                assert forall|x: Action, u: TargetTypeV|
                    reg_has_pair(out@, Some(profile@), x, u) <==> (reg_has_pair(
                        origv,
                        Some(profile@),
                        x,
                        u,
                    ) || pairs_prefix_has(pairsv, kk + 1, x, u)) by {
                    assert(reg_has_pair(prev, Some(profile@), x, u) <==> (reg_has_pair(
                        origv,
                        Some(profile@),
                        x,
                        u,
                    ) || pairs_prefix_has(pairsv, kk, x, u)));
                    if reg_has_pair(out@, Some(profile@), x, u) {
                        if !reg_has_pair(prev, Some(profile@), x, u) {
                            assert(x == a && u == t@);
                            assert(pairsv[kk].0 == x && pairsv[kk].1@ == u);
                            assert(pairs_prefix_has(pairsv, kk + 1, x, u));
                        } else {
                            if !reg_has_pair(origv, Some(profile@), x, u) {
                                assert(pairs_prefix_has(pairsv, kk as int, x, u));
                                let j = choose|j: int|
                                    0 <= j < kk && (#[trigger] pairsv[j]).0 == x
                                        && pairsv[j].1@ == u;
                                assert(pairs_prefix_has(pairsv, kk + 1, x, u));
                            }
                        }
                    }
                    if reg_has_pair(origv, Some(profile@), x, u) {
                        assert(reg_has_pair(prev, Some(profile@), x, u));
                        assert(reg_has_pair(out@, Some(profile@), x, u));
                    }
                    if pairs_prefix_has(pairsv, kk + 1, x, u) {
                        let j = choose|j: int|
                            0 <= j < kk + 1 && (#[trigger] pairsv[j]).0 == x && pairsv[j].1@
                                == u;
                        if j < kk {
                            assert(pairs_prefix_has(pairsv, kk as int, x, u));
                            assert(reg_has_pair(prev, Some(profile@), x, u));
                        } else {
                            assert(x == a && u == t@);
                        }
                        assert(reg_has_pair(out@, Some(profile@), x, u));
                    }
                }
                assert(caps_grown(out@, origv, pairsv, kk + 1, Some(profile@)));
            }
            k += 1;
        }
        out
    }

    /// Declares pairs under no profile key.
    #[verifier::loop_isolation(false)]
    pub fn with_actions_without_profile(self, pairs: Vec<(Action, TargetType)>) -> (r: Self)
        requires
            reg_wf(self@),
        ensures
            reg_wf(r@),
            caps_grown(r@, self@, pairs@, pairs@.len() as int, None::<Seq<char>>),
            forall|p2: Option<Seq<char>>, x: Action, u: TargetTypeV|
                p2 != None::<Seq<char>> ==> (#[trigger] reg_has_pair(r@, p2, x, u) <==> reg_has_pair(
                    self@,
                    p2,
                    x,
                    u,
                )),
            forall|p2: Seq<char>|
                #[trigger] reg_has_profile(r@, p2) <==> (reg_has_profile(self@, p2) || (Some(
                    p2,
                ) == None::<Seq<char>> && pairs@.len() > 0)),
    {
        let ghost origv = self@;
        let mut out = self;
        let mut rest = pairs;
        let ghost pairsv = rest@;
        let total = rest.len();
        let mut k: usize = 0;
        proof {
            assert(rest@ =~= pairsv.skip(0));
            assert(pairsv.len() == total);
        }
        while rest.len() > 0
            invariant
                reg_wf(out@),
                pairsv.len() == total,
                k + rest.len() == pairsv.len(),
                rest@ == pairsv.skip(k as int),
                caps_grown(out@, origv, pairsv, k as int, None::<Seq<char>>),
                forall|p2: Option<Seq<char>>, x: Action, u: TargetTypeV|
                    p2 != None::<Seq<char>> ==> (#[trigger] reg_has_pair(out@, p2, x, u) <==> reg_has_pair(
                        origv,
                        p2,
                        x,
                        u,
                    )),
                forall|p2: Seq<char>|
                    #[trigger] reg_has_profile(out@, p2) <==> (reg_has_profile(origv, p2) || (
                    Some(p2) == None::<Seq<char>> && k > 0)),
            decreases rest.len(),
        {
            let ghost kk = k as int;
            let (a, t) = rest.remove(0);
            proof {
                assert(pairsv.skip(kk)[0] == pairsv[kk]);
                assert((a, t) == pairsv[kk]);
            }
            let ghost prev = out@;
            out.add_action(None, a, t);
            proof {
                assert(rest@ =~= pairsv.skip(kk + 1));
                assert(caps_grown(prev, origv, pairsv, kk, None::<Seq<char>>));
                assert forall|x: Action, u: TargetTypeV|
                    reg_has_pair(out@, None::<Seq<char>>, x, u) <==> (reg_has_pair(
                        origv,
                        None::<Seq<char>>,
                        x,
                        u,
                    ) || pairs_prefix_has(pairsv, kk + 1, x, u)) by {
                    assert(reg_has_pair(prev, None::<Seq<char>>, x, u) <==> (reg_has_pair(
                        origv,
                        None::<Seq<char>>,
                        x,
                        u,
                    ) || pairs_prefix_has(pairsv, kk, x, u)));
                    if reg_has_pair(out@, None::<Seq<char>>, x, u) {
                        if !reg_has_pair(prev, None::<Seq<char>>, x, u) {
                            assert(x == a && u == t@);
                            assert(pairsv[kk].0 == x && pairsv[kk].1@ == u);
                            assert(pairs_prefix_has(pairsv, kk + 1, x, u));
                        } else {
                            if !reg_has_pair(origv, None::<Seq<char>>, x, u) {
                                assert(pairs_prefix_has(pairsv, kk as int, x, u));
                                let j = choose|j: int|
                                    0 <= j < kk && (#[trigger] pairsv[j]).0 == x
                                        && pairsv[j].1@ == u;
                                assert(pairs_prefix_has(pairsv, kk + 1, x, u));
                            }
                        }
                    }
                    if reg_has_pair(origv, None::<Seq<char>>, x, u) {
                        assert(reg_has_pair(prev, None::<Seq<char>>, x, u));
                        assert(reg_has_pair(out@, None::<Seq<char>>, x, u));
                    }
                    if pairs_prefix_has(pairsv, kk + 1, x, u) {
                        let j = choose|j: int|
                            0 <= j < kk + 1 && (#[trigger] pairsv[j]).0 == x && pairsv[j].1@
                                == u;
                        if j < kk {
                            assert(pairs_prefix_has(pairsv, kk as int, x, u));
                            assert(reg_has_pair(prev, None::<Seq<char>>, x, u));
                        } else {
                            assert(x == a && u == t@);
                        }
                        assert(reg_has_pair(out@, None::<Seq<char>>, x, u));
                    }
                }
                assert(caps_grown(out@, origv, pairsv, kk + 1, None::<Seq<char>>));
            }
            k += 1;
        }
        out
    }

    /// Checks whether this registration declares the pair under the given
    /// profile.
    #[verifier::loop_isolation(false)]
    pub fn matches(&self, action: Action, target: &TargetType, profile: &Nsid) -> (r: bool)
        ensures
            r == reg_has_pair(self@, Some(profile@), action, target@),
    {
        proof {
            lemma_reg_actions_view(self.actions@);
        }
        let n = self.actions.len();
        let mut i: usize = 0;
        while i < n
            invariant
                i <= n,
                n == self.actions@.len(),
                forall|x: int| 0 <= x < i ==> !(self@[x].0 == Some(profile@) && at_has_pair(
                    (#[trigger] self@[x]).1,
                    action,
                    target@,
                )),
            decreases n - i,
        {
            let here = match &self.actions[i].0 {
                Some(p) => p == profile,
                None => false,
            };
            if here {
                if self.actions[i].1.contains_pair(action, target) {
                    proof {
                        assert(self@[i as int].0 == Some(profile@));
                        assert(at_has_pair(self@[i as int].1, action, target@));
                    }
                    return true;
                }
            }
            i += 1;
        }
        false
    }

    /// Checks whether this registration declares the pair under any key.
    #[verifier::loop_isolation(false)]
    pub fn declares(&self, action: Action, target: &TargetType) -> (r: bool)
        ensures
            r == reg_declares(self@, action, target@),
    {
        proof {
            lemma_reg_actions_view(self.actions@);
        }
        let n = self.actions.len();
        let mut i: usize = 0;
        while i < n
            invariant
                i <= n,
                n == self.actions@.len(),
                forall|x: int| 0 <= x < i ==> !at_has_pair(
                    (#[trigger] self@[x]).1,
                    action,
                    target@,
                ),
            decreases n - i,
        {
            if self.actions[i].1.contains_pair(action, target) {
                proof {
                    assert(at_has_pair(self@[i as int].1, action, target@));
                }
                return true;
            }
            i += 1;
        }
        false
    }

    /// The number of profile-keyed entries.
    pub fn len(&self) -> (r: usize)
        ensures
            r == self@.len(),
    {
        proof {
            lemma_reg_actions_view(self.actions@);
        }
        self.actions.len()
    }

    /// The entry at a given position.
    pub fn entry(&self, i: usize) -> (r: &(Option<Nsid>, ActionTargets))
        requires
            i < self@.len(),
        ensures
            self@[i as int] == (opt_nsid_view(&r.0), r.1@),
    {
        proof {
            lemma_reg_actions_view(self.actions@);
        }
        &self.actions[i]
    }
}

// ---------------------------------------------------------------------------
// The registry
// ---------------------------------------------------------------------------

/// A removal token: the slot an inserted registration occupies.  Slots are
/// tombstoned, never compacted, so a token stays valid for its lifetime.
pub struct ConsumerToken {
    slot: usize,
}

impl View for ConsumerToken {
    type V = int;

    closed spec fn view(&self) -> int {
        self.slot as int
    }
}

impl ConsumerToken {
    /// The slot this token names.
    pub fn slot(&self) -> (r: usize)
        ensures
            r as int == self@,
    {
        self.slot
    }
}

/// Mathematical model of the slot list.
pub type SlotsV = Seq<Option<RegistrationV>>;

/// Mathematical model of the reverse index.
pub type IndexV = Seq<((Action, TargetTypeV), Seq<int>)>;

/// The models of the slots, in order.
pub open spec fn slots_view(s: Seq<Option<Registration>>) -> SlotsV
    decreases s,
{
    if s.len() == 0 {
        Seq::empty()
    } else {
        seq![
            match &s[0] {
                Some(r) => Some(r@),
                None => None,
            },
        ] + slots_view(s.subrange(1, s.len() as int))
    }
}

pub proof fn lemma_slots_view(s: Seq<Option<Registration>>)
    ensures
        slots_view(s).len() == s.len(),
        forall|i: int| 0 <= i < s.len() ==> slots_view(s)[i] == (match &s[i] {
            Some(r) => Some(r@),
            None => None,
        }),
    decreases s,
{
    if s.len() > 0 {
        let sub = s.subrange(1, s.len() as int);
        lemma_slots_view(sub);
        assert forall|i: int| 0 <= i < s.len() implies slots_view(s)[i] == (match &s[i] {
            Some(r) => Some(r@),
            None => None,
        }) by {
            if i > 0 {
                assert(sub[i - 1] == s[i]);
            }
        }
    }
}

/// The models of the index entries, in order.
pub open spec fn index_view(s: Seq<((Action, TargetType), Vec<usize>)>) -> IndexV
    decreases s,
{
    if s.len() == 0 {
        Seq::empty()
    } else {
        seq![((s[0].0.0, s[0].0.1@), idxs_view(s[0].1@))] + index_view(
            s.subrange(1, s.len() as int),
        )
    }
}

/// The models of a bucket's slot numbers.
pub open spec fn idxs_view(s: Seq<usize>) -> Seq<int> {
    s.map_values(|u: usize| u as int)
}

pub proof fn lemma_index_view(s: Seq<((Action, TargetType), Vec<usize>)>)
    ensures
        index_view(s).len() == s.len(),
        forall|i: int| 0 <= i < s.len() ==> index_view(s)[i]
            == ((s[i].0.0, s[i].0.1@), idxs_view(s[i].1@)),
    decreases s,
{
    if s.len() > 0 {
        let sub = s.subrange(1, s.len() as int);
        lemma_index_view(sub);
        assert forall|i: int| 0 <= i < s.len() implies index_view(s)[i]
            == ((s[i].0.0, s[i].0.1@), idxs_view(s[i].1@)) by {
            if i > 0 {
                assert(sub[i - 1] == s[i]);
            }
        }
    }
}

/// True when the index holds the slot under the pair.
pub open spec fn idx_has(ix: IndexV, a: Action, t: TargetTypeV, i: int) -> bool {
    exists|k: int|
        0 <= k < ix.len() && (#[trigger] ix[k]).0 == (a, t) && ix[k].1.contains(i)
}

/// Appending a fresh one-slot bucket under a fresh pair adds exactly that
/// slot under that pair to the index.
proof fn lemma_bucket_pushed(
    oldix: IndexV,
    newix: IndexV,
    action: Action,
    t0: TargetTypeV,
    idx: int,
)
    requires
        newix.len() == oldix.len() + 1,
        forall|x: int| 0 <= x < oldix.len() ==> #[trigger] newix[x] == oldix[x],
        newix[oldix.len() as int].0 == (action, t0),
        newix[oldix.len() as int].1 == seq![idx],
        forall|x: int| 0 <= x < oldix.len() ==> (#[trigger] oldix[x]).0 != (action, t0),
    ensures
        forall|a: Action, t: TargetTypeV, i: int|
            #[trigger] idx_has(newix, a, t, i) <==> (idx_has(oldix, a, t, i) || (a == action
                && t == t0 && i == idx)),
{
    assert forall|a: Action, t: TargetTypeV, i: int|
        #[trigger] idx_has(newix, a, t, i) <==> (idx_has(oldix, a, t, i) || (a == action && t
            == t0 && i == idx)) by {
        if idx_has(oldix, a, t, i) {
            let kk = choose|kk: int|
                0 <= kk < oldix.len() && (#[trigger] oldix[kk]).0 == (a, t)
                    && oldix[kk].1.contains(i);
            assert(newix[kk].1.contains(i));
            assert(idx_has(newix, a, t, i));
        }
        if a == action && t == t0 && i == idx {
            assert(newix[oldix.len() as int].1[0] == idx);
            assert(newix[oldix.len() as int].1.contains(idx));
            assert(idx_has(newix, a, t, i));
        }
        if idx_has(newix, a, t, i) {
            let kk = choose|kk: int|
                0 <= kk < newix.len() && (#[trigger] newix[kk]).0 == (a, t)
                    && newix[kk].1.contains(i);
            if kk < oldix.len() {
                assert(oldix[kk].1.contains(i));
                assert(idx_has(oldix, a, t, i));
            } else {
                let jj = choose|jj: int|
                    0 <= jj < newix[kk].1.len() && newix[kk].1[jj] == i;
                assert(i == idx && a == action && t == t0);
            }
        }
    }
}

/// True when the slot is live and declares the pair.
pub open spec fn slot_declares(slots: SlotsV, i: int, a: Action, t: TargetTypeV) -> bool {
    0 <= i < slots.len() && (match slots[i] {
        Some(rv) => reg_declares(rv, a, t),
        None => false,
    })
}

/// True when the slot is live and declares the pair under the profile.
pub open spec fn slot_matches(
    slots: SlotsV,
    i: int,
    p: Seq<char>,
    a: Action,
    t: TargetTypeV,
) -> bool {
    0 <= i < slots.len() && (match slots[i] {
        Some(rv) => reg_has_pair(rv, Some(p), a, t),
        None => false,
    })
}

/// True when the slot is live and names the profile.
pub open spec fn slot_has_profile(slots: SlotsV, i: int, p: Seq<char>) -> bool {
    0 <= i < slots.len() && (match slots[i] {
        Some(rv) => reg_has_profile(rv, p),
        None => false,
    })
}

/// The registry invariant: index keys are unique; buckets are non-empty,
/// strictly ascending lists of live-range slots; and the index holds a
/// slot under a pair exactly when that slot's registration declares the
/// pair — the reverse index is precisely the declared pairs of the live
/// slots.
pub open spec fn registry_wf(slots: SlotsV, ix: IndexV) -> bool {
    (forall|k1: int, k2: int| 0 <= k1 < k2 < ix.len() ==> ix[k1].0 != ix[k2].0) && (forall|
        k: int,
    |
        0 <= k < ix.len() ==> (#[trigger] ix[k]).1.len() > 0) && (forall|k: int, j1: int, j2: int|
        0 <= k < ix.len() && 0 <= j1 < j2 < ix[k].1.len() ==> (#[trigger] ix[k].1[j1])
            < (#[trigger] ix[k].1[j2])) && (forall|k: int, j: int|
        0 <= k < ix.len() && 0 <= j < ix[k].1.len() ==> 0 <= (#[trigger] ix[k].1[j])
            < slots.len()) && (forall|a: Action, t: TargetTypeV, i: int|
        idx_has(ix, a, t, i) <==> slot_declares(slots, i, a, t)) && (forall|i: int|
        0 <= i < slots.len() ==> (match #[trigger] slots[i] {
            Some(rv) => reg_wf(rv),
            None => true,
        }))
}

/// A registry of consumers: an append-only, tombstoned slot list and a
/// reverse index from action-target pair to the slots declaring it.
pub struct Registry {
    consumers: Vec<Option<Registration>>,
    by_pair: Vec<((Action, TargetType), Vec<usize>)>,
}

impl Registry {
    /// The model of the slot list.
    pub closed spec fn slots(&self) -> SlotsV {
        slots_view(self.consumers@)
    }

    /// The model of the reverse index.
    pub closed spec fn index(&self) -> IndexV {
        index_view(self.by_pair@)
    }

    /// The registry invariant; every operation preserves it.
    pub open spec fn wf(&self) -> bool {
        registry_wf(self.slots(), self.index())
    }

    /// An empty registry.
    pub fn new() -> (r: Self)
        ensures
            r.wf(),
            r.slots() == Seq::<Option<RegistrationV>>::empty(),
    {
        let r = Registry { consumers: Vec::new(), by_pair: Vec::new() };
        proof {
            assert(r.slots() =~= Seq::<Option<RegistrationV>>::empty());
            assert(r.index() =~= Seq::<((Action, TargetTypeV), Seq<int>)>::empty());
            assert forall|a: Action, t: TargetTypeV, i: int|
                idx_has(r.index(), a, t, i) <==> slot_declares(r.slots(), i, a, t) by {
            }
        }
        r
    }

    /// The number of slots, live or tombstoned.
    pub fn slot_count(&self) -> (r: usize)
        ensures
            r == self.slots().len(),
    {
        proof {
            lemma_slots_view(self.consumers@);
        }
        self.consumers.len()
    }

    /// Whether a slot is live.
    pub fn is_live(&self, slot: usize) -> (r: bool)
        ensures
            r == (slot < self.slots().len() && self.slots()[slot as int].is_some()),
    {
        proof {
            lemma_slots_view(self.consumers@);
        }
        if slot < self.consumers.len() {
            self.consumers[slot].is_some()
        } else {
            false
        }
    }

    /// Adds one slot under one pair of the index, if it is not yet there.
    #[verifier::loop_isolation(false)]
    #[verifier::rlimit(100)]
    #[verifier::spinoff_prover]
    fn add_to_bucket(&mut self, action: Action, target: TargetType, idx: usize)
        requires
            forall|k1: int, k2: int|
                0 <= k1 < k2 < old(self).index().len() ==> old(self).index()[k1].0 != old(self).index()[k2].0,
            forall|k: int|
                0 <= k < old(self).index().len() ==> (#[trigger] old(self).index()[k]).1.len()
                    > 0,
            forall|k: int, j1: int, j2: int|
                0 <= k < old(self).index().len() && 0 <= j1 < j2 < old(self).index()[k].1.len()
                    ==> (#[trigger] old(self).index()[k].1[j1]) < (#[trigger] old(self).index()[k].1[j2]),
            forall|k: int, j: int|
                0 <= k < old(self).index().len() && 0 <= j < old(self).index()[k].1.len()
                    ==> 0 <= (#[trigger] old(self).index()[k].1[j]) < old(self).slots().len(),
            forall|k: int, j: int|
                0 <= k < old(self).index().len() && 0 <= j < old(self).index()[k].1.len()
                    ==> (#[trigger] old(self).index()[k].1[j]) <= idx as int,
            idx < old(self).slots().len(),
        ensures
            final(self).slots() == old(self).slots(),
            forall|k1: int, k2: int|
                0 <= k1 < k2 < final(self).index().len() ==> final(self).index()[k1].0 != final(self).index()[k2].0,
            forall|k: int|
                0 <= k < final(self).index().len() ==> (#[trigger] final(self).index()[k]).1.len() > 0,
            forall|k: int, j1: int, j2: int|
                0 <= k < final(self).index().len() && 0 <= j1 < j2 < final(self).index()[k].1.len() ==> (#[trigger] final(self).index()[k].1[j1]) < (
                #[trigger] final(self).index()[k].1[j2]),
            forall|k: int, j: int|
                0 <= k < final(self).index().len() && 0 <= j < final(self).index()[k].1.len()
                    ==> 0 <= (#[trigger] final(self).index()[k].1[j]) < final(self).slots().len(),
            forall|a: Action, t: TargetTypeV, i: int|
                #[trigger] idx_has(final(self).index(), a, t, i) <==> (idx_has(
                    old(self).index(),
                    a,
                    t,
                    i,
                ) || (a == action && t == target@ && i == idx as int)),
    {
        proof {
            lemma_index_view(self.by_pair@);
            lemma_slots_view(self.consumers@);
        }
        let ghost oldix = self.index();
        let n = self.by_pair.len();
        let mut k: usize = 0;
        while k < n
            invariant
                k <= n,
                self.by_pair@ == old(self).by_pair@,
                self.consumers@ == old(self).consumers@,
                n == self.by_pair.len(),
                forall|x: int| 0 <= x < k ==> (#[trigger] oldix[x]).0 != (action, target@),
            decreases n - k,
        {
            let same = self.by_pair[k].0.0 == action && &self.by_pair[k].0.1 == &target;
            proof {
                assert(self.index() == oldix);
                assert(self.index()[k as int]
                    == ((self.by_pair@[k as int].0.0, self.by_pair@[k as int].0.1@),
                    idxs_view(self.by_pair@[k as int].1@)));
            }
            if same {
                proof {
                    assert(self.index()[k as int].0 == (action, target@));
                }
                let already = contains_usize(&self.by_pair[k].1, idx);
                if already {
                    proof {
                        let jx = choose|jx: int|
                            0 <= jx < self.by_pair@[k as int].1@.len()
                                && self.by_pair@[k as int].1@[jx] == idx;
                        assert(self.index()[k as int].1[jx] == idx as int) by {
                            assert(idxs_view(self.by_pair@[k as int].1@)[jx]
                                == self.by_pair@[k as int].1@[jx] as int);
                        }
                        assert(self.index()[k as int].1.contains(idx as int));
                        assert(idx_has(self.index(), action, target@, idx as int));
                        assert forall|a: Action, t: TargetTypeV, i: int|
                            idx_has(self.index(), a, t, i) <==> (idx_has(oldix, a, t, i) || (a
                                == action && t == target@ && i == idx as int)) by {
                            assert(self.index() == oldix);
                            if a == action && t == target@ && i == idx as int {
                                assert(idx_has(self.index(), a, t, i));
                            }
                        }
                    }
                    return;
                }
                proof {
                    assert forall|x: int| 0 <= x < self.by_pair@[k as int].1@.len()
                        implies self.by_pair@[k as int].1@[x] != idx by {
                        if self.by_pair@[k as int].1@[x] == idx {
                            assert(self.by_pair@[k as int].1@.contains(idx));
                        }
                    }
                }
                let ghost olde = self.by_pair@;
                let mut entry = ((action, TargetType::Features), Vec::new());
                core::mem::swap(&mut entry, &mut self.by_pair[k]);
                let (ep, mut eb) = entry;
                eb.push(idx);
                let mut entry2 = (ep, eb);
                core::mem::swap(&mut entry2, &mut self.by_pair[k]);
                proof {
                    lemma_index_view(self.by_pair@);
                    lemma_index_view(olde);
                    assert(self.by_pair@.len() == olde.len());
                    assert(forall|x: int| 0 <= x < olde.len() && x != k as int
                        ==> self.by_pair@[x] == olde[x]);
                    assert forall|x: int| 0 <= x < self.index().len() && x != k as int
                        implies #[trigger] self.index()[x] == oldix[x] by {
                        assert(self.by_pair@[x] == olde[x]);
                    }
                    assert(self.by_pair@[k as int].0 == olde[k as int].0);
                    assert(self.by_pair@[k as int].1@ =~= olde[k as int].1@ + seq![idx]);
                    assert(idxs_view(self.by_pair@[k as int].1@)
                        =~= idxs_view(olde[k as int].1@) + seq![idx as int]);
                    assert(self.index()[k as int].0 == oldix[k as int].0);
                    assert(self.index()[k as int].1 =~= oldix[k as int].1 + seq![idx as int]);
                    assert(forall|x: int| 0 <= x < oldix[k as int].1.len()
                        ==> oldix[k as int].1[x] != idx as int) by {
                        assert forall|x: int| 0 <= x < oldix[k as int].1.len()
                            implies oldix[k as int].1[x] != idx as int by {
                            assert(oldix[k as int].1[x]
                                == olde[k as int].1@[x] as int);
                        }
                    }
                    assert forall|a: Action, t: TargetTypeV, i: int|
                        idx_has(self.index(), a, t, i) <==> (idx_has(oldix, a, t, i) || (a
                            == action && t == target@ && i == idx as int)) by {
                        if idx_has(oldix, a, t, i) {
                            let kk = choose|kk: int|
                                0 <= kk < oldix.len() && (#[trigger] oldix[kk]).0 == (a, t)
                                    && oldix[kk].1.contains(i);
                            if kk == k as int {
                                let jj = choose|jj: int|
                                    0 <= jj < oldix[kk].1.len() && oldix[kk].1[jj] == i;
                                assert(self.index()[kk].1[jj] == i);
                                assert(self.index()[kk].1.contains(i));
                            } else {
                                assert(self.index()[kk].1.contains(i));
                            }
                            assert(idx_has(self.index(), a, t, i));
                        }
                        if a == action && t == target@ && i == idx as int {
                            assert(self.index()[k as int].1[self.index()[k as int].1.len() - 1]
                                == idx as int);
                            assert(self.index()[k as int].1.contains(idx as int));
                            assert(idx_has(self.index(), a, t, i));
                        }
                        if idx_has(self.index(), a, t, i) {
                            let kk = choose|kk: int|
                                0 <= kk < self.index().len() && (#[trigger] self.index()[
                                    kk
                                ]).0 == (a, t) && self.index()[kk].1.contains(i);
                            let jj = choose|jj: int|
                                0 <= jj < self.index()[kk].1.len() && self.index()[kk].1[jj]
                                    == i;
                            if kk == k as int {
                                if jj == self.index()[kk].1.len() - 1 {
                                    assert(a == action && t == target@ && i == idx as int);
                                } else {
                                    assert(oldix[kk].1[jj] == i);
                                    assert(oldix[kk].1.contains(i));
                                    assert(idx_has(oldix, a, t, i));
                                }
                            } else {
                                assert(oldix[kk].1[jj] == i);
                                assert(oldix[kk].1.contains(i));
                                assert(idx_has(oldix, a, t, i));
                            }
                        }
                    }
                    assert(self.slots() == old(self).slots());
                    assert forall|k2: int, j: int|
                        0 <= k2 < self.index().len() && 0 <= j < self.index()[k2].1.len()
                        implies 0 <= (#[trigger] self.index()[k2].1[j]) < self.slots().len()
                        by {
                        if k2 != k as int {
                            assert(self.index()[k2] == oldix[k2]);
                        } else {
                            if j < oldix[k2].1.len() {
                                assert(self.index()[k2].1[j] == oldix[k2].1[j]);
                            } else {
                                assert(self.index()[k2].1[j] == idx as int);
                            }
                        }
                    }
                    assert forall|k2: int, j1: int, j2: int|
                        0 <= k2 < self.index().len() && 0 <= j1 < j2 < self.index()[k2].1.len()
                        implies (#[trigger] self.index()[k2].1[j1]) < (
                        #[trigger] self.index()[k2].1[j2]) by {
                        if k2 != k as int {
                            assert(self.index()[k2] == oldix[k2]);
                            assert(oldix[k2].1[j1] < oldix[k2].1[j2]);
                        } else {
                            if j2 < oldix[k2].1.len() {
                                assert(oldix[k2].1[j1] < oldix[k2].1[j2]);
                            } else {
                                assert(self.index()[k2].1[j2] == idx as int);
                                assert(self.index()[k2].1[j1] == oldix[k2].1[j1]);
                                assert(oldix[k2].1[j1] != idx as int);
                                assert(oldix[k2].1[j1] <= idx as int);
                            }
                        }
                    }
                    assert forall|k2: int| 0 <= k2 < self.index().len() implies (
                    #[trigger] self.index()[k2]).1.len() > 0 by {
                        if k2 != k as int {
                            assert(self.index()[k2] == oldix[k2]);
                        }
                    }
                    assert forall|k1: int, k2: int| 0 <= k1 < k2 < self.index().len()
                        implies self.index()[k1].0 != self.index()[k2].0 by {
                        assert(self.index()[k1].0 == oldix[k1].0);
                        assert(self.index()[k2].0 == oldix[k2].0);
                        assert(oldix[k1].0 != oldix[k2].0);
                    }
                }
                return;
            }
            k += 1;
        }
        let ghost olde = self.by_pair@;
        let mut bucket: Vec<usize> = Vec::new();
        bucket.push(idx);
        self.by_pair.push(((action, target), bucket));
        proof {
            lemma_index_view(self.by_pair@);
            lemma_index_view(olde);
            assert(self.by_pair@.len() == olde.len() + 1);
            assert(forall|x: int| 0 <= x < olde.len() ==> self.by_pair@[x] == olde[x]);
            assert forall|x: int| 0 <= x < oldix.len() implies #[trigger] self.index()[x]
                == oldix[x] by {
                assert(self.by_pair@[x] == olde[x]);
            }
            assert(self.index()[oldix.len() as int].0 == (action, target@));
            assert(self.index()[oldix.len() as int].1 =~= seq![idx as int]);
            assert forall|x: int| 0 <= x < oldix.len() implies (#[trigger] self.index()[x]).0
                != (action, target@) by {
                assert(self.index()[x] == oldix[x]);
                assert(oldix[x].0 != (action, target@));
            }
            assert forall|k1: int, k2: int| 0 <= k1 < k2 < self.index().len()
                implies self.index()[k1].0 != self.index()[k2].0 by {
                if k2 < oldix.len() {
                    assert(oldix[k1].0 != oldix[k2].0);
                }
            }
            lemma_bucket_pushed(oldix, self.index(), action, target@, idx as int);
            assert(self.slots() == old(self).slots());
            assert forall|k2: int, j: int|
                0 <= k2 < self.index().len() && 0 <= j < self.index()[k2].1.len() implies 0 <= (
                #[trigger] self.index()[k2].1[j]) < self.slots().len() by {
                if k2 < oldix.len() {
                    assert(self.index()[k2] == oldix[k2]);
                } else {
                    assert(self.index()[k2].1[j] == idx as int);
                }
            }
            assert forall|k2: int, j1: int, j2: int|
                0 <= k2 < self.index().len() && 0 <= j1 < j2 < self.index()[k2].1.len()
                implies (#[trigger] self.index()[k2].1[j1]) < (
                #[trigger] self.index()[k2].1[j2]) by {
                if k2 < oldix.len() {
                    assert(self.index()[k2] == oldix[k2]);
                    assert(oldix[k2].1[j1] < oldix[k2].1[j2]);
                }
            }
            assert forall|k2: int| 0 <= k2 < self.index().len() implies (
            #[trigger] self.index()[k2]).1.len() > 0 by {
                if k2 < oldix.len() {
                    assert(self.index()[k2] == oldix[k2]);
                }
            }
        }
    }
}

// ---------------------------------------------------------------------------
// Flattening a registration's declared pairs
// ---------------------------------------------------------------------------

/// True when a pair map declares the pair within its first `i` rows, plus
/// the first `j` kinds of row `i`.
pub open spec fn at_upto(m: ActionTargetsV, i: int, j: int, x: Action, u: TargetTypeV) -> bool {
    (exists|ii: int, jj: int|
        0 <= ii < i && 0 <= jj < m[ii].1.len() && (#[trigger] m[ii]).0 == x && (
        #[trigger] m[ii].1[jj]) == u) || (0 <= i < m.len() && m[i].0 == x && (exists|jj: int|
        0 <= jj < j && (#[trigger] m[i].1[jj]) == u))
}

impl ActionTargets {
    /// Every declared pair, flattened into a list.
    #[verifier::loop_isolation(false)]
    pub fn pairs_list(&self) -> (r: Vec<(Action, TargetType)>)
        ensures
            forall|x: Action, u: TargetTypeV|
                pairs_prefix_has(r@, r@.len() as int, x, u) <==> at_has_pair(self@, x, u),
    {
        let mut out: Vec<(Action, TargetType)> = Vec::new();
        let n = self.len();
        let mut i: usize = 0;
        while i < n
            invariant
                i <= n,
                n == self@.len(),
                forall|x: Action, u: TargetTypeV|
                    pairs_prefix_has(out@, out@.len() as int, x, u) <==> at_upto(
                        self@,
                        i as int,
                        0,
                        x,
                        u,
                    ),
            decreases n - i,
        {
            let row = self.entry(i);
            let a = row.0;
            let m = row.1.len();
            proof {
                assert(row.1.deep_view().len() == row.1@.len());
            }
            let mut j: usize = 0;
            while j < m
                invariant
                    j <= m,
                    i < n,
                    m == row.1@.len(),
                    self@[i as int] == (a, row.1.deep_view()),
                    forall|x: Action, u: TargetTypeV|
                        pairs_prefix_has(out@, out@.len() as int, x, u) <==> at_upto(
                            self@,
                            i as int,
                            j as int,
                            x,
                            u,
                        ),
                decreases m - j,
            {
                let t = row.1[j].clone();
                proof {
                    assert(row.1.deep_view()[j as int] == row.1@[j as int]@);
                    assert(t@ == self@[i as int].1[j as int]);
                }
                let ghost outv = out@;
                out.push((a, t));
                proof {
                    assert(out@ =~= outv + seq![(a, t)]);
                    assert forall|x: Action, u: TargetTypeV|
                        pairs_prefix_has(out@, out@.len() as int, x, u) <==> at_upto(
                            self@,
                            i as int,
                            j + 1,
                            x,
                            u,
                        ) by {
                        if pairs_prefix_has(out@, out@.len() as int, x, u) {
                            let kk = choose|kk: int|
                                0 <= kk < out@.len() && (#[trigger] out@[kk]).0 == x
                                    && out@[kk].1@ == u;
                            if kk < outv.len() {
                                assert(outv[kk] == out@[kk]);
                                assert(pairs_prefix_has(outv, outv.len() as int, x, u));
                                assert(at_upto(self@, i as int, j as int, x, u));
                                assert(at_upto(self@, i as int, j + 1, x, u));
                            } else {
                                assert(x == a && u == t@);
                                assert(self@[i as int].0 == x);
                                assert(self@[i as int].1[j as int] == u);
                                assert(at_upto(self@, i as int, j + 1, x, u));
                            }
                        }
                        if at_upto(self@, i as int, j + 1, x, u) {
                            if exists|ii: int, jj: int|
                                0 <= ii < i as int && 0 <= jj < self@[ii].1.len() && (
                                #[trigger] self@[ii]).0 == x && (#[trigger] self@[ii].1[jj])
                                    == u {
                                assert(at_upto(self@, i as int, j as int, x, u));
                                assert(pairs_prefix_has(outv, outv.len() as int, x, u));
                                let kk = choose|kk: int|
                                    0 <= kk < outv.len() && (#[trigger] outv[kk]).0 == x
                                        && outv[kk].1@ == u;
                                assert(out@[kk] == outv[kk]);
                                assert(pairs_prefix_has(out@, out@.len() as int, x, u));
                            } else {
                                let jj = choose|jj: int|
                                    0 <= jj < j + 1 && (#[trigger] self@[i as int].1[jj]) == u
                                        && self@[i as int].0 == x;
                                if jj < j as int {
                                    assert(at_upto(self@, i as int, j as int, x, u));
                                    assert(pairs_prefix_has(outv, outv.len() as int, x, u));
                                    let kk = choose|kk: int|
                                        0 <= kk < outv.len() && (#[trigger] outv[kk]).0 == x
                                            && outv[kk].1@ == u;
                                    assert(out@[kk] == outv[kk]);
                                    assert(pairs_prefix_has(out@, out@.len() as int, x, u));
                                } else {
                                    assert(x == a && u == t@);
                                    assert(out@[out@.len() - 1] == (a, t));
                                    assert(pairs_prefix_has(out@, out@.len() as int, x, u));
                                }
                            }
                        }
                    }
                }
                j += 1;
            }
            proof {
                assert forall|x: Action, u: TargetTypeV|
                    at_upto(self@, i as int, m as int, x, u) <==> at_upto(
                        self@,
                        i + 1,
                        0,
                        x,
                        u,
                    ) by {
                    if at_upto(self@, i as int, m as int, x, u) {
                        if exists|ii: int, jj: int|
                            0 <= ii < i as int && 0 <= jj < self@[ii].1.len() && (
                            #[trigger] self@[ii]).0 == x && (#[trigger] self@[ii].1[jj]) == u {
                        } else {
                            let jj = choose|jj: int|
                                0 <= jj < m as int && (#[trigger] self@[i as int].1[jj]) == u
                                    && self@[i as int].0 == x;
                            assert(0 <= jj < self@[i as int].1.len());
                        }
                        assert(at_upto(self@, i + 1, 0, x, u));
                    }
                    if at_upto(self@, i + 1, 0, x, u) {
                        let (ii, jj) = choose|ii: int, jj: int|
                            0 <= ii < i + 1 && 0 <= jj < self@[ii].1.len() && (
                            #[trigger] self@[ii]).0 == x && (#[trigger] self@[ii].1[jj]) == u;
                        if ii < i as int {
                        } else {
                            assert(self@[i as int].1[jj] == u);
                        }
                        assert(at_upto(self@, i as int, m as int, x, u));
                    }
                }
                assert forall|x: Action, u: TargetTypeV|
                    pairs_prefix_has(out@, out@.len() as int, x, u) <==> at_upto(
                        self@,
                        i + 1,
                        0,
                        x,
                        u,
                    ) by {
                    assert(pairs_prefix_has(out@, out@.len() as int, x, u) <==> at_upto(
                        self@,
                        i as int,
                        m as int,
                        x,
                        u,
                    ));
                    assert(at_upto(self@, i as int, m as int, x, u) <==> at_upto(
                        self@,
                        i + 1,
                        0,
                        x,
                        u,
                    ));
                }
            }
            i += 1;
        }
        proof {
            assert forall|x: Action, u: TargetTypeV|
                pairs_prefix_has(out@, out@.len() as int, x, u) <==> at_has_pair(self@, x, u)
                by {
                if at_upto(self@, n as int, 0, x, u) {
                    let (ii, jj) = choose|ii: int, jj: int|
                        0 <= ii < n as int && 0 <= jj < self@[ii].1.len() && (
                        #[trigger] self@[ii]).0 == x && (#[trigger] self@[ii].1[jj]) == u;
                    assert(at_has_pair(self@, x, u));
                }
                if at_has_pair(self@, x, u) {
                    let (ii, jj) = choose|ii: int, jj: int|
                        0 <= ii < self@.len() && 0 <= jj < self@[ii].1.len() && self@[ii].0
                            == x && self@[ii].1[jj] == u;
                    assert(at_upto(self@, n as int, 0, x, u));
                }
            }
        }
        out
    }
}

impl Registration {
    /// Every pair this registration declares, under any profile, flattened
    /// into a list.
    #[verifier::loop_isolation(false)]
    pub fn pairs_list(&self) -> (r: Vec<(Action, TargetType)>)
        ensures
            forall|x: Action, u: TargetTypeV|
                pairs_prefix_has(r@, r@.len() as int, x, u) <==> reg_declares(self@, x, u),
    {
        let mut out: Vec<(Action, TargetType)> = Vec::new();
        let n = self.len();
        let mut i: usize = 0;
        while i < n
            invariant
                i <= n,
                n == self@.len(),
                forall|x: Action, u: TargetTypeV|
                    pairs_prefix_has(out@, out@.len() as int, x, u) <==> (exists|ii: int|
                        0 <= ii < i && at_has_pair((#[trigger] self@[ii]).1, x, u)),
            decreases n - i,
        {
            let entry = self.entry(i);
            let mut row = entry.1.pairs_list();
            let ghost rowv = row@;
            let ghost outv = out@;
            out.append(&mut row);
            proof {
                assert(out@ =~= outv + rowv);
                assert forall|x: Action, u: TargetTypeV|
                    pairs_prefix_has(out@, out@.len() as int, x, u) <==> (exists|ii: int|
                        0 <= ii < i + 1 && at_has_pair((#[trigger] self@[ii]).1, x, u)) by {
                    if pairs_prefix_has(out@, out@.len() as int, x, u) {
                        let kk = choose|kk: int|
                            0 <= kk < out@.len() && (#[trigger] out@[kk]).0 == x && out@[kk].1@
                                == u;
                        if kk < outv.len() {
                            assert(out@[kk] == outv[kk]);
                            assert(pairs_prefix_has(outv, outv.len() as int, x, u));
                        } else {
                            assert(out@[kk] == rowv[kk - outv.len()]);
                            assert(pairs_prefix_has(rowv, rowv.len() as int, x, u));
                            assert(at_has_pair(self@[i as int].1, x, u));
                        }
                    }
                    if exists|ii: int|
                        0 <= ii < i + 1 && at_has_pair((#[trigger] self@[ii]).1, x, u) {
                        let ii = choose|ii: int|
                            0 <= ii < i + 1 && at_has_pair((#[trigger] self@[ii]).1, x, u);
                        if ii < i as int {
                            assert(pairs_prefix_has(outv, outv.len() as int, x, u));
                            let kk = choose|kk: int|
                                0 <= kk < outv.len() && (#[trigger] outv[kk]).0 == x
                                    && outv[kk].1@ == u;
                            assert(out@[kk] == outv[kk]);
                            assert(pairs_prefix_has(out@, out@.len() as int, x, u));
                        } else {
                            assert(at_has_pair(self@[i as int].1, x, u));
                            assert(pairs_prefix_has(rowv, rowv.len() as int, x, u));
                            let kk = choose|kk: int|
                                0 <= kk < rowv.len() && (#[trigger] rowv[kk]).0 == x
                                    && rowv[kk].1@ == u;
                            assert(out@[outv.len() + kk] == rowv[kk]);
                            assert(pairs_prefix_has(out@, out@.len() as int, x, u));
                        }
                    }
                }
            }
            i += 1;
        }
        proof {
            assert forall|x: Action, u: TargetTypeV|
                pairs_prefix_has(out@, out@.len() as int, x, u) <==> reg_declares(self@, x, u)
                by {
                if exists|ii: int| 0 <= ii < n as int && at_has_pair(
                    (#[trigger] self@[ii]).1,
                    x,
                    u,
                ) {
                    let ii = choose|ii: int|
                        0 <= ii < n as int && at_has_pair((#[trigger] self@[ii]).1, x, u);
                    assert(reg_declares(self@, x, u));
                }
                if reg_declares(self@, x, u) {
                    let ii = choose|ii: int|
                        0 <= ii < self@.len() && at_has_pair((#[trigger] self@[ii]).1, x, u);
                    assert(0 <= ii < n as int && at_has_pair(self@[ii].1, x, u));
                }
            }
        }
        out
    }
}

impl Registry {
    /// Registers a consumer's declared pairs: the registration takes a new
    /// slot, and every declared pair gains that slot in the reverse index.
    /// Returns the token that removes it again.
    #[verifier::loop_isolation(false)]
    pub fn insert(&mut self, registration: Registration) -> (token: ConsumerToken)
        requires
            old(self).wf(),
            reg_wf(registration@),
        ensures
            final(self).wf(),
            token@ == old(self).slots().len(),
            final(self).slots() == old(self).slots().push(Some(registration@)),
    {
        proof {
            lemma_slots_view(self.consumers@);
        }
        let ghost oldslots = self.slots();
        let ghost regv = registration@;
        let idx = self.consumers.len();
        let pairs = registration.pairs_list();
        self.consumers.push(Some(registration));
        proof {
            lemma_slots_view(self.consumers@);
            assert(self.slots() =~= oldslots.push(Some(regv)));
            assert(self.slots()[idx as int] == Some(regv));
            assert(forall|x: int| 0 <= x < oldslots.len()
                ==> #[trigger] self.slots()[x] == oldslots[x]);
        }
        let ghost pairsv = pairs@;
        let total = pairs.len();
        let mut rest = pairs;
        let mut k: usize = 0;
        proof {
            assert(rest@ =~= pairsv.skip(0));
        }
        while rest.len() > 0
            invariant
                pairsv.len() == total,
                k + rest.len() == pairsv.len(),
                rest@ == pairsv.skip(k as int),
                self.consumers@.len() == oldslots.len() + 1,
                self.slots() == oldslots.push(Some(regv)),
                idx as int == oldslots.len(),
                forall|k1: int, k2: int|
                    0 <= k1 < k2 < self.index().len() ==> self.index()[k1].0 != self.index()[
                        k2
                    ].0,
                forall|k2: int|
                    0 <= k2 < self.index().len() ==> (#[trigger] self.index()[k2]).1.len() > 0,
                forall|k2: int, j1: int, j2: int|
                    0 <= k2 < self.index().len() && 0 <= j1 < j2 < self.index()[k2].1.len()
                        ==> (#[trigger] self.index()[k2].1[j1]) < (
                    #[trigger] self.index()[k2].1[j2]),
                forall|k2: int, j: int|
                    0 <= k2 < self.index().len() && 0 <= j < self.index()[k2].1.len() ==> 0 <= (
                    #[trigger] self.index()[k2].1[j]) < self.slots().len(),
                forall|a: Action, t: TargetTypeV, i: int|
                    #[trigger] idx_has(self.index(), a, t, i) <==> ((i != idx as int
                        && slot_declares(oldslots, i, a, t)) || (i == idx as int
                        && pairs_prefix_has(pairsv, k as int, a, t))),
            decreases rest.len(),
        {
            let ghost kk = k as int;
            let ghost previx = self.index();
            let (a, t) = rest.remove(0);
            proof {
                assert(pairsv.skip(kk)[0] == pairsv[kk]);
                assert((a, t) == pairsv[kk]);
            }
            proof {
                assert forall|k2: int, j: int|
                    0 <= k2 < self.index().len() && 0 <= j < self.index()[k2].1.len()
                    implies (#[trigger] self.index()[k2].1[j]) <= idx as int by {
                    assert(self.index()[k2].1[j] < self.slots().len());
                }
            }
            self.add_to_bucket(a, t, idx);
            proof {
                lemma_slots_view(self.consumers@);
                assert(rest@ =~= pairsv.skip(kk + 1));
                assert forall|a2: Action, t2: TargetTypeV, i: int|
                    idx_has(self.index(), a2, t2, i) <==> ((i != idx as int && slot_declares(
                        oldslots,
                        i,
                        a2,
                        t2,
                    )) || (i == idx as int && pairs_prefix_has(pairsv, kk + 1, a2, t2))) by {
                    if idx_has(self.index(), a2, t2, i) {
                        if idx_has(previx, a2, t2, i) {
                            if i == idx as int {
                                assert(pairs_prefix_has(pairsv, kk, a2, t2));
                                let j = choose|j: int|
                                    0 <= j < kk && (#[trigger] pairsv[j]).0 == a2
                                        && pairsv[j].1@ == t2;
                                assert(pairs_prefix_has(pairsv, kk + 1, a2, t2));
                            }
                        } else {
                            assert(a2 == a && t2 == t@ && i == idx as int);
                            assert(pairsv[kk].0 == a2 && pairsv[kk].1@ == t2);
                            assert(pairs_prefix_has(pairsv, kk + 1, a2, t2));
                        }
                    }
                    if i != idx as int && slot_declares(oldslots, i, a2, t2) {
                        assert(idx_has(previx, a2, t2, i));
                        assert(idx_has(self.index(), a2, t2, i));
                    }
                    if i == idx as int && pairs_prefix_has(pairsv, kk + 1, a2, t2) {
                        let j = choose|j: int|
                            0 <= j < kk + 1 && (#[trigger] pairsv[j]).0 == a2 && pairsv[j].1@
                                == t2;
                        if j < kk {
                            assert(pairs_prefix_has(pairsv, kk, a2, t2));
                            assert(idx_has(previx, a2, t2, i));
                            assert(idx_has(self.index(), a2, t2, i));
                        } else {
                            assert(a2 == a && t2 == t@);
                            assert(idx_has(self.index(), a2, t2, i));
                        }
                    }
                }
            }
            k += 1;
        }
        proof {
            assert forall|a: Action, t: TargetTypeV, i: int|
                idx_has(self.index(), a, t, i) <==> slot_declares(self.slots(), i, a, t) by {
                if idx_has(self.index(), a, t, i) {
                    if i == idx as int {
                        assert(pairs_prefix_has(pairsv, pairsv.len() as int, a, t));
                        assert(reg_declares(regv, a, t));
                        assert(self.slots()[i] == Some(regv));
                    } else {
                        assert(slot_declares(oldslots, i, a, t));
                        assert(self.slots()[i] == oldslots[i]);
                    }
                    assert(slot_declares(self.slots(), i, a, t));
                }
                if slot_declares(self.slots(), i, a, t) {
                    if i == idx as int {
                        assert(self.slots()[i] == Some(regv));
                        assert(reg_declares(regv, a, t));
                        assert(pairs_prefix_has(pairsv, pairsv.len() as int, a, t));
                    } else {
                        assert(self.slots()[i] == oldslots[i]);
                        assert(slot_declares(oldslots, i, a, t));
                    }
                    assert(idx_has(self.index(), a, t, i));
                }
            }
            assert forall|i: int| 0 <= i < self.slots().len() implies (match #[trigger] self.slots()[i] {
                Some(rv) => reg_wf(rv),
                None => true,
            }) by {
                if i < oldslots.len() {
                    assert(self.slots()[i] == oldslots[i]);
                }
            }
        }
        ConsumerToken { slot: idx }
    }

    /// Unregisters a consumer: the slot is tombstoned and its pairs leave
    /// the reverse index, every other slot's entries untouched.  A token
    /// for a missing or already-removed slot does nothing.
    #[verifier::loop_isolation(false)]
    pub fn remove(&mut self, token: ConsumerToken) -> (r: Option<Registration>)
        requires
            old(self).wf(),
        ensures
            final(self).wf(),
            match r {
                Some(reg) => token@ < old(self).slots().len() && old(self).slots()[token@]
                    == Some(reg@) && final(self).slots() == old(self).slots().update(
                    token@,
                    None,
                ),
                None => (!(token@ < old(self).slots().len()) || old(self).slots()[token@].is_none()) && final(self).slots() == old(self).slots()
                    && final(self).index() == old(self).index(),
            },
    {
        proof {
            lemma_slots_view(self.consumers@);
        }
        let slot = token.slot();
        if slot >= self.consumers.len() {
            return None;
        }
        if self.consumers[slot].is_none() {
            return None;
        }
        let ghost oldslots = self.slots();
        let ghost oldix = self.index();
        let mut taken: Option<Registration> = None;
        core::mem::swap(&mut taken, &mut self.consumers[slot]);
        proof {
            lemma_slots_view(self.consumers@);
            assert(self.slots() =~= oldslots.update(slot as int, None));
            assert(forall|x: int| 0 <= x < oldslots.len() && x != slot as int
                ==> #[trigger] self.slots()[x] == oldslots[x]);
        }
        // Rebuild the index without this slot, dropping emptied buckets.
        let mut old_pairs: Vec<((Action, TargetType), Vec<usize>)> = Vec::new();
        core::mem::swap(&mut old_pairs, &mut self.by_pair);
        let ghost opv = index_view(old_pairs@);
        proof {
            lemma_index_view(old_pairs@);
            lemma_index_view(self.by_pair@);
            assert(opv == oldix);
            assert(self.index() =~= Seq::<((Action, TargetTypeV), Seq<int>)>::empty());
        }
        let n = old_pairs.len();
        let mut k: usize = 0;
        while k < n
            invariant
                k <= n,
                n == old_pairs@.len(),
                self.consumers@.len() == oldslots.len(),
                self.slots() == oldslots.update(slot as int, None),
                opv == index_view(old_pairs@),
                opv.len() == n,
                forall|k1: int, k2: int|
                    0 <= k1 < k2 < self.index().len() ==> self.index()[k1].0 != self.index()[
                        k2
                    ].0,
                forall|k2: int|
                    0 <= k2 < self.index().len() ==> (#[trigger] self.index()[k2]).1.len() > 0,
                forall|k2: int, j1: int, j2: int|
                    0 <= k2 < self.index().len() && 0 <= j1 < j2 < self.index()[k2].1.len()
                        ==> (#[trigger] self.index()[k2].1[j1]) < (
                    #[trigger] self.index()[k2].1[j2]),
                forall|k2: int, j: int|
                    0 <= k2 < self.index().len() && 0 <= j < self.index()[k2].1.len() ==> 0 <= (
                    #[trigger] self.index()[k2].1[j]) < self.slots().len(),
                forall|k2: int| 0 <= k2 < self.index().len() ==> (exists|k1: int|
                    0 <= k1 < k && (#[trigger] opv[k1]).0 == (#[trigger] self.index()[k2]).0),
                forall|a: Action, t: TargetTypeV, i: int|
                    #[trigger] idx_has(self.index(), a, t, i) <==> (i != slot as int && (exists|
                        k1: int,
                    |
                        0 <= k1 < k && (#[trigger] opv[k1]).0 == (a, t) && opv[k1].1.contains(
                            i,
                        ))),
            decreases n - k,
        {
            let ghost kk = k as int;
            let ghost previx = self.index();
            let entry = &old_pairs[k];
            let mut bucket: Vec<usize> = Vec::new();
            let bl = entry.1.len();
            let mut j: usize = 0;
            proof {
                assert(opv[kk] == ((entry.0.0, entry.0.1@), idxs_view(entry.1@)));
            }
            while j < bl
                invariant
                    j <= bl,
                    k < n,
                    bl == old_pairs@[k as int].1@.len(),
                    entry == &old_pairs@[k as int],
                    forall|x: int| 0 <= x < bucket@.len() ==> 0 <= (#[trigger] bucket@[x])
                        < self.consumers@.len(),
                    forall|x1: int, x2: int| 0 <= x1 < x2 < bucket@.len()
                        ==> bucket@[x1] < bucket@[x2],
                    forall|i: int|
                        #[trigger] idxs_view(bucket@).contains(i) <==> (i != slot as int && (
                        exists|jj: int|
                            0 <= jj < j && (#[trigger] opv[kk].1[jj]) == i)),
                    forall|x: int| 0 <= x < bucket@.len() ==> (exists|jj: int|
                        0 <= jj < j && (#[trigger] opv[kk].1[jj]) == (
                        #[trigger] bucket@[x]) as int),
                decreases bl - j,
            {
                let v = entry.1[j];
                proof {
                    assert(opv[kk].1[j as int] == entry.1@[j as int] as int);
                }
                if v != slot {
                    let already = contains_usize(&bucket, v);
                    if !already {
                        let ghost bv = bucket@;
                        bucket.push(v);
                        proof {
                            assert(bucket@ =~= bv + seq![v]);
                            assert(idxs_view(bucket@) =~= idxs_view(bv) + seq![v as int]);
                            assert forall|i: int|
                                idxs_view(bucket@).contains(i) <==> (i != slot as int && (
                                exists|jj: int|
                                    0 <= jj < j + 1 && (#[trigger] opv[kk].1[jj]) == i)) by {
                                if idxs_view(bucket@).contains(i) {
                                    let x = choose|x: int|
                                        0 <= x < idxs_view(bucket@).len() && idxs_view(
                                            bucket@,
                                        )[x] == i;
                                    if x < bv.len() {
                                        assert(idxs_view(bv)[x] == i);
                                        assert(idxs_view(bv).contains(i));
                                    } else {
                                        assert(i == v as int);
                                        assert(opv[kk].1[j as int] == i);
                                    }
                                }
                                if i != slot as int && (exists|jj: int|
                                    0 <= jj < j + 1 && (#[trigger] opv[kk].1[jj]) == i) {
                                    let jj = choose|jj: int|
                                        0 <= jj < j + 1 && (#[trigger] opv[kk].1[jj]) == i;
                                    if jj < j as int {
                                        assert(idxs_view(bv).contains(i));
                                        let x = choose|x: int|
                                            0 <= x < idxs_view(bv).len() && idxs_view(bv)[x]
                                                == i;
                                        assert(idxs_view(bucket@)[x] == i);
                                        assert(idxs_view(bucket@).contains(i));
                                    } else {
                                        assert(i == v as int);
                                        assert(idxs_view(bucket@)[bv.len() as int] == i);
                                        assert(idxs_view(bucket@).contains(i));
                                    }
                                }
                            }
                        }
                    } else {
                        proof {
                            assert forall|i: int|
                                idxs_view(bucket@).contains(i) <==> (i != slot as int && (
                                exists|jj: int|
                                    0 <= jj < j + 1 && (#[trigger] opv[kk].1[jj]) == i)) by {
                                if i != slot as int && (exists|jj: int|
                                    0 <= jj < j + 1 && (#[trigger] opv[kk].1[jj]) == i) {
                                    let jj = choose|jj: int|
                                        0 <= jj < j + 1 && (#[trigger] opv[kk].1[jj]) == i;
                                    if jj == j as int {
                                        assert(i == v as int);
                                        let x = choose|x: int|
                                            0 <= x < bucket@.len() && bucket@[x] == v;
                                        assert(idxs_view(bucket@)[x] == i);
                                        assert(idxs_view(bucket@).contains(i));
                                    }
                                }
                            }
                        }
                    }
                } else {
                    proof {
                        assert forall|i: int|
                            idxs_view(bucket@).contains(i) <==> (i != slot as int && (exists|
                                jj: int,
                            |
                                0 <= jj < j + 1 && (#[trigger] opv[kk].1[jj]) == i)) by {
                            if i != slot as int && (exists|jj: int|
                                0 <= jj < j + 1 && (#[trigger] opv[kk].1[jj]) == i) {
                                let jj = choose|jj: int|
                                    0 <= jj < j + 1 && (#[trigger] opv[kk].1[jj]) == i;
                                if jj == j as int {
                                    assert(i == slot as int);
                                }
                            }
                        }
                    }
                }
                j += 1;
            }
            if bucket.len() > 0 {
                let key = (entry.0.0, entry.0.1.clone());
                let ghost prevbp = self.by_pair@;
                self.by_pair.push((key, bucket));
                proof {
                    lemma_index_view(self.by_pair@);
                    lemma_index_view(prevbp);
                    assert(forall|x: int| 0 <= x < prevbp.len()
                        ==> #[trigger] self.by_pair@[x] == prevbp[x]);
                    assert forall|x: int| 0 <= x < previx.len() implies #[trigger] self.index()[
                        x
                    ] == previx[x] by {
                        assert(self.by_pair@[x] == prevbp[x]);
                    }
                    assert(self.index().len() == previx.len() + 1);
                    assert(self.index()[previx.len() as int].0 == (entry.0.0, entry.0.1@));
                    assert(self.index()[previx.len() as int].0 == opv[kk].0);
                    assert(self.index()[previx.len() as int].1 == idxs_view(bucket@));
                    assert forall|k1: int, k2: int| 0 <= k1 < k2 < self.index().len()
                        implies self.index()[k1].0 != self.index()[k2].0 by {
                        if k2 < previx.len() {
                            assert(self.index()[k1] == previx[k1]);
                            assert(self.index()[k2] == previx[k2]);
                        } else {
                            assert(self.index()[k1] == previx[k1]);
                            let k1o = choose|k1o: int|
                                0 <= k1o < kk && (#[trigger] opv[k1o]).0 == previx[k1].0;
                            assert(opv[k1o].0 != opv[kk].0);
                        }
                    }
                    assert forall|a: Action, t: TargetTypeV, i: int|
                        idx_has(self.index(), a, t, i) <==> (i != slot as int && (exists|
                            k1: int,
                        |
                            0 <= k1 < kk + 1 && (#[trigger] opv[k1]).0 == (a, t)
                                && opv[k1].1.contains(i))) by {
                        if idx_has(self.index(), a, t, i) {
                            let k2 = choose|k2: int|
                                0 <= k2 < self.index().len() && (#[trigger] self.index()[
                                    k2
                                ]).0 == (a, t) && self.index()[k2].1.contains(i);
                            if k2 < previx.len() {
                                assert(idx_has(previx, a, t, i));
                                let k1 = choose|k1: int|
                                    0 <= k1 < kk && (#[trigger] opv[k1]).0 == (a, t)
                                        && opv[k1].1.contains(i);
                                assert(0 <= k1 < kk + 1 && opv[k1].0 == (a, t)
                                    && opv[k1].1.contains(i));
                            } else {
                                assert(self.index()[k2].0 == opv[kk].0);
                                assert(idxs_view(bucket@).contains(i));
                                let jj = choose|jj: int|
                                    0 <= jj < bl as int && (#[trigger] opv[kk].1[jj]) == i;
                                assert(opv[kk].1.contains(i));
                                assert(i != slot as int);
                            }
                        }
                        if i != slot as int && (exists|k1: int|
                            0 <= k1 < kk + 1 && (#[trigger] opv[k1]).0 == (a, t)
                                && opv[k1].1.contains(i)) {
                            let k1 = choose|k1: int|
                                0 <= k1 < kk + 1 && (#[trigger] opv[k1]).0 == (a, t)
                                    && opv[k1].1.contains(i);
                            if k1 < kk {
                                assert(idx_has(previx, a, t, i));
                                let k2 = choose|k2: int|
                                    0 <= k2 < previx.len() && (#[trigger] previx[k2]).0 == (
                                    a,
                                    t,
                                    ) && previx[k2].1.contains(i);
                                assert(self.index()[k2] == previx[k2]);
                                assert(idx_has(self.index(), a, t, i));
                            } else {
                                let jj = choose|jj: int|
                                    0 <= jj < opv[kk].1.len() && (#[trigger] opv[kk].1[jj])
                                        == i;
                                assert(idxs_view(bucket@).contains(i));
                                assert(self.index()[previx.len() as int].1.contains(i));
                                assert(idx_has(self.index(), a, t, i));
                            }
                        }
                    }
                }
            } else {
                proof {
                    assert forall|a: Action, t: TargetTypeV, i: int|
                        idx_has(self.index(), a, t, i) <==> (i != slot as int && (exists|
                            k1: int,
                        |
                            0 <= k1 < kk + 1 && (#[trigger] opv[k1]).0 == (a, t)
                                && opv[k1].1.contains(i))) by {
                        if i != slot as int && (exists|k1: int|
                            0 <= k1 < kk + 1 && (#[trigger] opv[k1]).0 == (a, t)
                                && opv[k1].1.contains(i)) {
                            let k1 = choose|k1: int|
                                0 <= k1 < kk + 1 && (#[trigger] opv[k1]).0 == (a, t)
                                    && opv[k1].1.contains(i);
                            if k1 == kk {
                                let jj = choose|jj: int|
                                    0 <= jj < opv[kk].1.len() && (#[trigger] opv[kk].1[jj])
                                        == i;
                                assert(idxs_view(bucket@).contains(i));
                                assert(idxs_view(bucket@).len() == 0);
                                assert(false);
                            } else {
                                assert(idx_has(previx, a, t, i));
                            }
                        }
                    }
                }
            }
            k += 1;
        }
        proof {
            assert forall|a: Action, t: TargetTypeV, i: int|
                idx_has(self.index(), a, t, i) <==> slot_declares(self.slots(), i, a, t) by {
                if idx_has(self.index(), a, t, i) {
                    assert(i != slot as int);
                    let k1 = choose|k1: int|
                        0 <= k1 < n as int && (#[trigger] opv[k1]).0 == (a, t)
                            && opv[k1].1.contains(i);
                    assert(idx_has(oldix, a, t, i));
                    assert(slot_declares(oldslots, i, a, t));
                    assert(self.slots()[i] == oldslots[i]);
                }
                if slot_declares(self.slots(), i, a, t) {
                    assert(i != slot as int);
                    assert(self.slots()[i] == oldslots[i]);
                    assert(slot_declares(oldslots, i, a, t));
                    assert(idx_has(oldix, a, t, i));
                    let k1 = choose|k1: int|
                        0 <= k1 < oldix.len() && (#[trigger] oldix[k1]).0 == (a, t)
                            && oldix[k1].1.contains(i);
                    assert(idx_has(self.index(), a, t, i));
                }
            }
            assert forall|i: int| 0 <= i < self.slots().len() implies (match #[trigger] self.slots()[i] {
                Some(rv) => reg_wf(rv),
                None => true,
            }) by {
                if i != slot as int {
                    assert(self.slots()[i] == oldslots[i]);
                }
            }
            assert(oldslots[slot as int] matches Some(rv) && taken matches Some(reg)
                && reg@ == rv);
        }
        taken
    }
}

/// Whether a slot list holds the given slot number.
#[verifier::loop_isolation(false)]
fn contains_usize(v: &Vec<usize>, x: usize) -> (r: bool)
    ensures
        r == v@.contains(x),
{
    let mut i: usize = 0;
    while i < v.len()
        invariant
            i <= v.len(),
            forall|j: int| 0 <= j < i ==> v@[j] != x,
        decreases v.len() - i,
    {
        if v[i] == x {
            return true;
        }
        i += 1;
    }
    proof {
        if v@.contains(x) {
            let j = choose|j: int| 0 <= j < v@.len() && v@[j] == x;
            assert(false);
        }
    }
    false
}

// ---------------------------------------------------------------------------
// Aggregation and routing
// ---------------------------------------------------------------------------

/// True when some live slot declares the pair.
pub open spec fn registry_declares(slots: SlotsV, a: Action, t: TargetTypeV) -> bool {
    exists|i: int| slot_declares(slots, i, a, t)
}

/// True when some live slot among the first `i` names the profile, or slot
/// `i` does within its first `j` entries.
pub open spec fn profiles_upto(slots: SlotsV, i: int, j: int, p: Seq<char>) -> bool {
    (exists|ii: int| 0 <= ii < i && slot_has_profile(slots, ii, p)) || (0 <= i < slots.len()
        && (match slots[i] {
        Some(rv) => exists|jj: int| 0 <= jj < j && (#[trigger] rv[jj]).0 == Some(p),
        None => false,
    }))
}

/// True when the profile list holds the profile.
pub open spec fn nsids_contain(ps: Seq<Seq<char>>, p: Seq<char>) -> bool {
    exists|x: int| 0 <= x < ps.len() && ps[x] == p
}

/// Finds a profile in a list.
#[verifier::loop_isolation(false)]
fn nsids_have(ps: &Vec<Nsid>, p: &Nsid) -> (r: bool)
    ensures
        r == nsids_contain(nsids_view(ps@), p@),
{
    proof {
        lemma_nsids_view(ps@);
    }
    let mut x: usize = 0;
    while x < ps.len()
        invariant
            x <= ps.len(),
            forall|y: int| 0 <= y < x ==> ps@[y]@ != p@,
        decreases ps.len() - x,
    {
        if &ps[x] == p {
            proof {
                assert(nsids_view(ps@)[x as int] == p@);
            }
            return true;
        }
        x += 1;
    }
    proof {
        if nsids_contain(nsids_view(ps@), p@) {
            let y = choose|y: int|
                0 <= y < nsids_view(ps@).len() && nsids_view(ps@)[y] == p@;
            assert(ps@[y]@ == p@);
        }
    }
    false
}

impl Registry {
    /// The union of all pairs declared by live registrations: the keys of
    /// the reverse index.
    #[verifier::loop_isolation(false)]
    pub fn pairs(&self) -> (r: ActionTargets)
        requires
            self.wf(),
        ensures
            at_wf(r@),
            forall|a: Action, t: TargetTypeV|
                #[trigger] at_has_pair(r@, a, t) <==> registry_declares(self.slots(), a, t),
    {
        proof {
            lemma_index_view(self.by_pair@);
        }
        let mut out = ActionTargets::new();
        let n = self.by_pair.len();
        let mut k: usize = 0;
        while k < n
            invariant
                k <= n,
                n == self.index().len(),
                at_wf(out@),
                forall|a: Action, t: TargetTypeV|
                    #[trigger] at_has_pair(out@, a, t) <==> (exists|k1: int|
                        0 <= k1 < k && (#[trigger] self.index()[k1]).0 == (a, t)),
            decreases n - k,
        {
            let a = self.by_pair[k].0.0;
            let t = self.by_pair[k].0.1.clone();
            proof {
                assert(self.index()[k as int].0 == (a, t@));
            }
            let ghost prev = out@;
            out.insert(a, t);
            proof {
                assert forall|a2: Action, t2: TargetTypeV|
                    #[trigger] at_has_pair(out@, a2, t2) <==> (exists|k1: int|
                        0 <= k1 < k + 1 && (#[trigger] self.index()[k1]).0 == (a2, t2)) by {
                    if at_has_pair(out@, a2, t2) {
                        if at_has_pair(prev, a2, t2) {
                            let k1 = choose|k1: int|
                                0 <= k1 < k && (#[trigger] self.index()[k1]).0 == (a2, t2);
                            assert(0 <= k1 < k + 1 && self.index()[k1].0 == (a2, t2));
                        } else {
                            assert(a2 == a && t2 == t@);
                            assert(self.index()[k as int].0 == (a2, t2));
                        }
                    }
                    if exists|k1: int|
                        0 <= k1 < k + 1 && (#[trigger] self.index()[k1]).0 == (a2, t2) {
                        let k1 = choose|k1: int|
                            0 <= k1 < k + 1 && (#[trigger] self.index()[k1]).0 == (a2, t2);
                        if k1 < k as int {
                            assert(at_has_pair(prev, a2, t2));
                        } else {
                            assert(a2 == a && t2 == t@);
                        }
                        assert(at_has_pair(out@, a2, t2));
                    }
                }
            }
            k += 1;
        }
        proof {
            assert forall|a: Action, t: TargetTypeV|
                #[trigger] at_has_pair(out@, a, t) <==> registry_declares(self.slots(), a, t)
                by {
                if at_has_pair(out@, a, t) {
                    let k1 = choose|k1: int|
                        0 <= k1 < n as int && (#[trigger] self.index()[k1]).0 == (a, t);
                    assert(self.index()[k1].1.len() > 0);
                    let i = self.index()[k1].1[0];
                    assert(self.index()[k1].1.contains(i));
                    assert(idx_has(self.index(), a, t, i));
                    assert(slot_declares(self.slots(), i, a, t));
                }
                if registry_declares(self.slots(), a, t) {
                    let i = choose|i: int| slot_declares(self.slots(), i, a, t);
                    assert(idx_has(self.index(), a, t, i));
                    let k1 = choose|k1: int|
                        0 <= k1 < self.index().len() && (#[trigger] self.index()[k1]).0 == (
                        a,
                        t,
                        ) && self.index()[k1].1.contains(i);
                    assert(at_has_pair(out@, a, t));
                }
            }
        }
        out
    }

    /// The distinct profiles named by live registrations.
    #[verifier::loop_isolation(false)]
    pub fn profiles(&self) -> (r: Vec<Nsid>)
        requires
            self.wf(),
        ensures
            forall|p: Seq<char>|
                #[trigger] nsids_contain(nsids_view(r@), p) <==> (exists|i: int|
                    slot_has_profile(self.slots(), i, p)),
            forall|x1: int, x2: int| 0 <= x1 < x2 < r@.len() ==> r@[x1]@ != r@[x2]@,
    {
        proof {
            lemma_slots_view(self.consumers@);
        }
        let mut out: Vec<Nsid> = Vec::new();
        let n = self.consumers.len();
        let mut i: usize = 0;
        while i < n
            invariant
                i <= n,
                n == self.slots().len(),
                forall|x1: int, x2: int| 0 <= x1 < x2 < out@.len() ==> out@[x1]@ != out@[x2]@,
                forall|p: Seq<char>|
                    #[trigger] nsids_contain(nsids_view(out@), p) <==> profiles_upto(
                        self.slots(),
                        i as int,
                        0,
                        p,
                    ),
            decreases n - i,
        {
            match &self.consumers[i] {
                Some(reg) => {
                    proof {
                        assert(self.slots()[i as int] == Some(reg@));
                    }
                    let m = reg.len();
                    let mut j: usize = 0;
                    while j < m
                        invariant
                            j <= m,
                            i < n,
                            m == reg@.len(),
                            self.slots()[i as int] == Some(reg@),
                            forall|x1: int, x2: int| 0 <= x1 < x2 < out@.len()
                                ==> out@[x1]@ != out@[x2]@,
                            forall|p: Seq<char>|
                                #[trigger] nsids_contain(nsids_view(out@), p) <==> profiles_upto(
                                    self.slots(),
                                    i as int,
                                    j as int,
                                    p,
                                ),
                        decreases m - j,
                    {
                        let entry = reg.entry(j);
                        match &entry.0 {
                            Some(p) => {
                                proof {
                                    assert(reg@[j as int].0 == Some(p@));
                                }
                                let have = nsids_have(&out, p);
                                if !have {
                                    let ghost outv = out@;
                                    out.push(p.clone());
                                    proof {
                                        lemma_nsids_view(out@);
                                        lemma_nsids_view(outv);
                                        assert(nsids_view(out@) =~= nsids_view(outv) + seq![
                                            p@,
                                        ]);
                                        assert forall|x1: int, x2: int|
                                            0 <= x1 < x2 < out@.len() implies out@[x1]@
                                                != out@[x2]@ by {
                                            if x2 == out@.len() - 1 {
                                                if out@[x1]@ == p@ {
                                                    assert(nsids_view(outv)[x1] == p@);
                                                    assert(nsids_contain(
                                                        nsids_view(outv),
                                                        p@,
                                                    ));
                                                }
                                            } else {
                                                assert(outv[x1]@ != outv[x2]@);
                                            }
                                        }
                                        assert forall|q: Seq<char>|
                                            #[trigger] nsids_contain(nsids_view(out@), q)
                                                <==> profiles_upto(
                                                self.slots(),
                                                i as int,
                                                j + 1,
                                                q,
                                            ) by {
                                            if nsids_contain(nsids_view(out@), q) {
                                                let x = choose|x: int|
                                                    0 <= x < nsids_view(out@).len()
                                                        && nsids_view(out@)[x] == q;
                                                if x < outv.len() {
                                                    assert(nsids_view(outv)[x] == q);
                                                    assert(nsids_contain(nsids_view(outv), q));
                                                    assert(profiles_upto(
                                                        self.slots(),
                                                        i as int,
                                                        j as int,
                                                        q,
                                                    ));
                                                    assert(profiles_upto(
                                                        self.slots(),
                                                        i as int,
                                                        j + 1,
                                                        q,
                                                    ));
                                                } else {
                                                    assert(q == p@);
                                                    assert(reg@[j as int].0 == Some(q));
                                                    assert(profiles_upto(
                                                        self.slots(),
                                                        i as int,
                                                        j + 1,
                                                        q,
                                                    ));
                                                }
                                            }
                                            if profiles_upto(self.slots(), i as int, j + 1, q) {
                                                if profiles_upto(
                                                    self.slots(),
                                                    i as int,
                                                    j as int,
                                                    q,
                                                ) {
                                                    assert(nsids_contain(nsids_view(outv), q));
                                                    let x = choose|x: int|
                                                        0 <= x < nsids_view(outv).len()
                                                            && nsids_view(outv)[x] == q;
                                                    assert(nsids_view(out@)[x] == q);
                                                    assert(nsids_contain(nsids_view(out@), q));
                                                } else {
                                                    let jj = choose|jj: int|
                                                        0 <= jj < j + 1 && (
                                                        #[trigger] reg@[jj]).0 == Some(q);
                                                    assert(jj == j as int);
                                                    assert(q == p@);
                                                    assert(nsids_view(out@)[outv.len() as int]
                                                        == q);
                                                    assert(nsids_contain(nsids_view(out@), q));
                                                }
                                            }
                                        }
                                    }
                                } else {
                                    proof {
                                        assert forall|q: Seq<char>|
                                            #[trigger] nsids_contain(nsids_view(out@), q)
                                                <==> profiles_upto(
                                                self.slots(),
                                                i as int,
                                                j + 1,
                                                q,
                                            ) by {
                                            if profiles_upto(self.slots(), i as int, j + 1, q) {
                                                if !profiles_upto(
                                                    self.slots(),
                                                    i as int,
                                                    j as int,
                                                    q,
                                                ) {
                                                    let jj = choose|jj: int|
                                                        0 <= jj < j + 1 && (
                                                        #[trigger] reg@[jj]).0 == Some(q);
                                                    assert(q == p@);
                                                    assert(nsids_contain(nsids_view(out@), q));
                                                }
                                            }
                                            if nsids_contain(nsids_view(out@), q) {
                                                assert(profiles_upto(
                                                    self.slots(),
                                                    i as int,
                                                    j as int,
                                                    q,
                                                ));
                                                assert(profiles_upto(
                                                    self.slots(),
                                                    i as int,
                                                    j + 1,
                                                    q,
                                                ));
                                            }
                                        }
                                    }
                                }
                            }
                            None => {
                                proof {
                                    assert forall|q: Seq<char>|
                                        #[trigger] nsids_contain(nsids_view(out@), q)
                                            <==> profiles_upto(
                                            self.slots(),
                                            i as int,
                                            j + 1,
                                            q,
                                        ) by {
                                        if profiles_upto(self.slots(), i as int, j + 1, q) {
                                            if !profiles_upto(
                                                self.slots(),
                                                i as int,
                                                j as int,
                                                q,
                                            ) {
                                                let jj = choose|jj: int|
                                                    0 <= jj < j + 1 && (#[trigger] reg@[jj]).0
                                                        == Some(q);
                                                assert(jj == j as int);
                                                assert(reg@[j as int].0 == Some(q));
                                                assert(false);
                                            }
                                        }
                                        if nsids_contain(nsids_view(out@), q) {
                                            assert(profiles_upto(
                                                self.slots(),
                                                i as int,
                                                j as int,
                                                q,
                                            ));
                                            assert(profiles_upto(
                                                self.slots(),
                                                i as int,
                                                j + 1,
                                                q,
                                            ));
                                        }
                                    }
                                }
                            }
                        }
                        j += 1;
                    }
                    proof {
                        assert forall|q: Seq<char>|
                            profiles_upto(self.slots(), i as int, m as int, q)
                                <==> profiles_upto(self.slots(), i + 1, 0, q) by {
                            if profiles_upto(self.slots(), i as int, m as int, q) {
                                if exists|ii: int|
                                    0 <= ii < i as int && slot_has_profile(
                                        self.slots(),
                                        ii,
                                        q,
                                    ) {
                                } else {
                                    let jj = choose|jj: int|
                                        0 <= jj < m as int && (#[trigger] reg@[jj]).0 == Some(
                                            q,
                                        );
                                    assert(reg_has_profile(reg@, q));
                                    assert(slot_has_profile(self.slots(), i as int, q));
                                }
                                assert(profiles_upto(self.slots(), i + 1, 0, q));
                            }
                            if profiles_upto(self.slots(), i + 1, 0, q) {
                                let ii = choose|ii: int|
                                    0 <= ii < i + 1 && slot_has_profile(self.slots(), ii, q);
                                if ii == i as int {
                                    assert(reg_has_profile(reg@, q));
                                    let jj = choose|jj: int|
                                        0 <= jj < reg@.len() && (#[trigger] reg@[jj]).0
                                            == Some(q);
                                    assert(profiles_upto(self.slots(), i as int, m as int, q));
                                } else {
                                    assert(profiles_upto(self.slots(), i as int, m as int, q));
                                }
                            }
                        }
                        assert(forall|q: Seq<char>|
                            #[trigger] nsids_contain(nsids_view(out@), q) <==> profiles_upto(
                                self.slots(),
                                i + 1,
                                0,
                                q,
                            ));
                    }
                }
                None => {
                    proof {
                        assert(self.slots()[i as int] is None);
                        assert forall|q: Seq<char>|
                            #[trigger] nsids_contain(nsids_view(out@), q) <==> profiles_upto(
                                self.slots(),
                                i + 1,
                                0,
                                q,
                            ) by {
                            if profiles_upto(self.slots(), i + 1, 0, q) {
                                let ii = choose|ii: int|
                                    0 <= ii < i + 1 && slot_has_profile(self.slots(), ii, q);
                                if ii == i as int {
                                    assert(false);
                                }
                                assert(profiles_upto(self.slots(), i as int, 0, q));
                            }
                            if nsids_contain(nsids_view(out@), q) {
                                assert(profiles_upto(self.slots(), i as int, 0, q));
                                let ii = choose|ii: int|
                                    0 <= ii < i as int && slot_has_profile(
                                        self.slots(),
                                        ii,
                                        q,
                                    );
                                assert(profiles_upto(self.slots(), i + 1, 0, q));
                            }
                        }
                    }
                }
            }
            i += 1;
        }
        proof {
            assert forall|p: Seq<char>|
                #[trigger] nsids_contain(nsids_view(out@), p) <==> (exists|i2: int|
                    slot_has_profile(self.slots(), i2, p)) by {
                if nsids_contain(nsids_view(out@), p) {
                    assert(profiles_upto(self.slots(), n as int, 0, p));
                    let ii = choose|ii: int|
                        0 <= ii < n as int && slot_has_profile(self.slots(), ii, p);
                    assert(slot_has_profile(self.slots(), ii, p));
                }
                if exists|i2: int| slot_has_profile(self.slots(), i2, p) {
                    let i2 = choose|i2: int| slot_has_profile(self.slots(), i2, p);
                    assert(0 <= i2 < n as int);
                    assert(profiles_upto(self.slots(), n as int, 0, p));
                }
            }
        }
        out
    }
}

/// What a features reply must hold: the pairs union, the live profiles,
/// and the supported protocol version, each exactly when asked for.
pub open spec fn features_reply_ok(slots: SlotsV, fs: Seq<Feature>, rsp: ResponseV) -> bool {
    rsp.status == StatusCode::Okay && !features_contain(fs, Feature::RateLimit) && (match rsp.results {
        Some(res) => (features_contain(fs, Feature::Pairs) ==> (res.pairs matches Some(m) && (
        forall|a: Action, t: TargetTypeV|
            #[trigger] at_has_pair(m, a, t) <==> registry_declares(slots, a, t)))) && (
        features_contain(fs, Feature::Profiles) ==> (forall|p: Seq<char>|
            #[trigger] nsids_contain(res.profiles, p) <==> (exists|i: int|
                slot_has_profile(slots, i, p)))) && (features_contain(fs, Feature::Versions)
            ==> res.versions == seq![Version { major: 2, minor: 0 }]),
        None => false,
    })
}

/// The exact failure a rate-limit query produces: not implemented, at the
/// `features` field.
pub open spec fn rate_limit_refusal() -> ErrorV {
    ErrorV::NotImplemented(
        NotImplementedErrorV {
            message: "rate limit feature is not implemented"@,
            path: Some(seq![PathSegV::Key("features"@)]),
        },
    )
}

/// The exact failure a pair nobody serves produces.
pub open spec fn unsupported_pair_refusal(a: Action, t: TargetTypeV) -> ErrorV {
    ErrorV::NotImplemented(
        NotImplementedErrorV {
            message: "unsupported action-target pair: "@ + crate::action::action_text(a)
                + " - "@ + crate::target::target_type_text(t),
            path: None,
        },
    )
}

/// The exact failure an emptied profile filter produces.
pub open spec fn profile_refusal() -> ErrorV {
    ErrorV::NotImplemented(
        NotImplementedErrorV {
            message: "no registered consumer matches the requested profile"@,
            path: None,
        },
    )
}

/// True when some live slot serves the pair under the named profile, or
/// under any key when no profile is named: exactly when routing succeeds.
pub open spec fn pair_served(
    slots: SlotsV,
    a: Action,
    t: TargetTypeV,
    profile: Option<Seq<char>>,
) -> bool {
    match profile {
        Some(p) => exists|i: int| slot_matches(slots, i, p, a, t),
        None => exists|i: int| slot_declares(slots, i, a, t),
    }
}

/// True when the slot serves the pair under the given optional profile.
pub open spec fn slot_matches_any(
    slots: SlotsV,
    i: int,
    profile: Option<Seq<char>>,
    a: Action,
    t: TargetTypeV,
) -> bool {
    match profile {
        Some(p) => slot_matches(slots, i, p, a, t),
        None => slot_declares(slots, i, a, t),
    }
}

/// A slot that serves a pair under a profile declares the pair.
pub proof fn lemma_matches_implies_declares(
    slots: SlotsV,
    i: int,
    profile: Option<Seq<char>>,
    a: Action,
    t: TargetTypeV,
)
    ensures
        slot_matches_any(slots, i, profile, a, t) ==> slot_declares(slots, i, a, t),
{
    match profile {
        Some(p) => {
            if slot_matches(slots, i, p, a, t) {
                match slots[i] {
                    Some(rv) => {
                        let j = choose|j: int|
                            0 <= j < rv.len() && rv[j].0 == Some(p) && at_has_pair(
                                #[trigger] rv[j].1,
                                a,
                                t,
                            );
                        assert(reg_declares(rv, a, t));
                    }
                    None => {}
                }
            }
        }
        None => {}
    }
}

/// When routing a command succeeds: a features query succeeds unless the
/// rate limit is asked about; any other command succeeds exactly when a
/// live slot serves its pair, under the named profile if there is one.
pub open spec fn route_admissible(slots: SlotsV, cmd: CommandV) -> bool {
    match cmd.target {
        TargetV::Features(fs) => if cmd.action == Action::Query {
            !features_contain(fs, Feature::RateLimit)
        } else {
            pair_served(slots, cmd.action, kind_of(cmd.target), cmd.profile)
        },
        _ => pair_served(slots, cmd.action, kind_of(cmd.target), cmd.profile),
    }
}

/// What a forwarded candidate list must hold: non-empty, every slot live
/// and declaring the pair, every slot matching the named profile when one
/// is given, and complete: no qualifying slot is left out.
pub open spec fn forward_ok(
    slots: SlotsV,
    action: Action,
    t: TargetTypeV,
    profile: Option<Seq<char>>,
    c: Seq<usize>,
) -> bool {
    c.len() > 0 && (forall|x1: int, x2: int|
        0 <= x1 < x2 < c.len() ==> (#[trigger] c[x1]) < (#[trigger] c[x2])) && (forall|x: int|
        0 <= x < c.len() ==> slot_declares(slots, (#[trigger] c[x]) as int, action, t)) && (
    match profile {
        Some(p) => (forall|x: int|
            0 <= x < c.len() ==> slot_matches(slots, (#[trigger] c[x]) as int, p, action, t))
            && (forall|i: int|
            #[trigger] slot_matches(slots, i, p, action, t) ==> (exists|x: int|
                0 <= x < c.len() && (#[trigger] c[x]) as int == i)),
        None => forall|i: int|
            #[trigger] slot_declares(slots, i, action, t) ==> (exists|x: int|
                0 <= x < c.len() && (#[trigger] c[x]) as int == i),
    })
}

/// What the registry decides for an incoming command: an immediate reply
/// it can give itself, or the live slots to fan the message out to.
pub enum Dispatch {
    /// Answer at once with this response.
    Reply(Response),
    /// Forward the message to these slots, in strictly ascending slot
    /// order, so that the first entry is the lowest-numbered matching
    /// slot; the caller owns the handlers, drives them concurrently, and —
    /// as a provisional single-responder policy — takes the first
    /// producer's responses.
    Forward(Vec<usize>),
}

impl Registry {
    /// Answers a `query features` command: the union of live profiles,
    /// declared pairs, and the supported protocol version; asking for the
    /// rate limit always fails as unsupported.
    #[verifier::loop_isolation(false)]
    #[verifier::rlimit(100)]
    pub fn query_features(&self, fs: &Vec<Feature>) -> (r: Result<Response, Error>)
        requires
            self.wf(),
        ensures
            r matches Ok(_) <==> !features_contain(fs@, Feature::RateLimit),
            match r {
                Ok(rsp) => features_reply_ok(self.slots(), fs@, rsp@),
                Err(e) => e@ == rate_limit_refusal(),
            },
    {
        if features_have(fs, Feature::RateLimit) {
            return Err(Error::not_implemented("rate limit feature is not implemented").at(
                crate::error::PathSegment::key("features"),
            ));
        }
        let mut results = Results::new();
        if features_have(fs, Feature::Profiles) {
            results.profiles = self.profiles();
        }
        if features_have(fs, Feature::Versions) {
            let mut versions: Vec<Version> = Vec::new();
            versions.push(Version::new(2, 0));
            proof {
                assert(versions@ =~= seq![Version { major: 2, minor: 0 }]);
            }
            results.versions = versions;
        }
        if features_have(fs, Feature::Pairs) {
            results.pairs = Some(self.pairs());
        }
        let rsp = Response::new(StatusCode::Okay).with_results(results);
        proof {
            assert(features_reply_ok(self.slots(), fs@, rsp@));
        }
        Ok(rsp)
    }

    /// The live slots that declare the pair and, when a profile is named,
    /// declare it under that profile; fails as not implemented when none
    /// survives.
    #[verifier::loop_isolation(false)]
    #[verifier::rlimit(100)]
    #[verifier::spinoff_prover]
    pub fn matching_slots(
        &self,
        action: Action,
        target_type: &TargetType,
        profile: &Option<Nsid>,
    ) -> (r: Result<Vec<usize>, Error>)
        requires
            self.wf(),
        ensures
            r matches Ok(_) <==> pair_served(
                self.slots(),
                action,
                target_type@,
                opt_nsid_view(profile),
            ),
            match r {
                Ok(c) => forward_ok(
                    self.slots(),
                    action,
                    target_type@,
                    opt_nsid_view(profile),
                    c@,
                ),
                Err(e) => if forall|i: int|
                    !slot_declares(self.slots(), i, action, target_type@) {
                    e@ == unsupported_pair_refusal(action, target_type@)
                } else {
                    e@ == profile_refusal()
                },
            },
    {
                let mut candidates: Vec<usize> = Vec::new();
                proof {
                    lemma_index_view(self.by_pair@);
                    lemma_slots_view(self.consumers@);
                }
                let n = self.by_pair.len();
                let mut k: usize = 0;
                let mut found = false;
                while k < n
                    invariant
                        k <= n,
                        n == self.index().len(),
                        found ==> k == n,
                        !found ==> candidates@.len() == 0,
                        !found ==> (forall|k1: int|
                            0 <= k1 < k ==> (#[trigger] self.index()[k1]).0 != (
                                action,
                                target_type@,
                            )),
                        found ==> (exists|k1: int|
                            0 <= k1 < n as int && (#[trigger] self.index()[k1]).0 == (
                                action,
                                target_type@,
                            ) && idxs_view(candidates@) == self.index()[k1].1),
                    decreases n - k,
                {
                    let same = self.by_pair[k].0.0 == action && &self.by_pair[k].0.1
                        == target_type;
                    if same {
                        proof {
                            assert(self.index()[k as int].0 == (action, target_type@));
                        }
                        let bucket = &self.by_pair[k].1;
                        let mut j: usize = 0;
                        proof {
                            assert(candidates@ =~= bucket@.subrange(0, 0));
                        }
                        while j < bucket.len()
                            invariant
                                j <= bucket@.len(),
                                k < n,
                                candidates@ =~= bucket@.subrange(0, j as int),
                            decreases bucket@.len() - j,
                        {
                            candidates.push(bucket[j]);
                            proof {
                                assert(candidates@ =~= bucket@.subrange(0, j + 1));
                            }
                            j += 1;
                        }
                        proof {
                            assert(bucket@.subrange(0, bucket@.len() as int) =~= bucket@);
                            assert(candidates@ == self.by_pair@[k as int].1@);
                            assert(idxs_view(candidates@) =~= self.index()[k as int].1);
                        }
                        found = true;
                        k = n;
                    } else {
                        k += 1;
                    }
                }
                proof {
                    if !found {
                        assert forall|i: int|
                            !slot_declares(self.slots(), i, action, target_type@) by {
                            if slot_declares(self.slots(), i, action, target_type@) {
                                assert(idx_has(self.index(), action, target_type@, i));
                                let k1 = choose|k1: int|
                                    0 <= k1 < self.index().len() && (#[trigger] self.index()[
                                        k1
                                    ]).0 == (action, target_type@) && self.index()[
                                        k1
                                    ].1.contains(i);
                                assert(false);
                            }
                        }
                    }
                }
                if candidates.len() == 0 {
                    proof {
                        if found {
                            let k1 = choose|k1: int|
                                0 <= k1 < n as int && (#[trigger] self.index()[k1]).0 == (
                                    action,
                                    target_type@,
                                ) && idxs_view(candidates@) == self.index()[k1].1;
                            assert(self.index()[k1].1.len() > 0);
                            assert(false);
                        }
                        match profile {
                            Some(p) => {
                                assert forall|i: int|
                                    !slot_matches(self.slots(), i, p@, action, target_type@)
                                    by {
                                    lemma_matches_implies_declares(
                                        self.slots(),
                                        i,
                                        Some(p@),
                                        action,
                                        target_type@,
                                    );
                                }
                            }
                            None => {}
                        }
                        assert(!pair_served(
                            self.slots(),
                            action,
                            target_type@,
                            opt_nsid_view(profile),
                        ));
                    }
                    return Err(Error::not_implemented_pair(action, target_type));
                }
                proof {
                    assert(found);
                    let k1 = choose|k1: int|
                        0 <= k1 < n as int && (#[trigger] self.index()[k1]).0 == (
                            action,
                            target_type@,
                        ) && idxs_view(candidates@) == self.index()[k1].1;
                    assert forall|x: int| 0 <= x < candidates@.len() implies slot_declares(
                        self.slots(),
                        (#[trigger] candidates@[x]) as int,
                        action,
                        target_type@,
                    ) by {
                        assert(idxs_view(candidates@)[x] == candidates@[x] as int);
                        assert(self.index()[k1].1.contains(candidates@[x] as int));
                        assert(idx_has(self.index(), action, target_type@,
                            candidates@[x] as int));
                    }
                    assert forall|i: int|
                        slot_declares(self.slots(), i, action, target_type@) implies (exists|
                            x: int,
                        |
                            0 <= x < candidates@.len() && (#[trigger] candidates@[x]) as int
                                == i) by {
                        assert(idx_has(self.index(), action, target_type@, i));
                        let k2 = choose|k2: int|
                            0 <= k2 < self.index().len() && (#[trigger] self.index()[k2]).0
                                == (action, target_type@) && self.index()[k2].1.contains(i);
                        assert(k2 == k1);
                        let x = choose|x: int|
                            0 <= x < self.index()[k1].1.len() && self.index()[k1].1[x] == i;
                        assert(idxs_view(candidates@)[x] == i);
                        assert(candidates@[x] as int == i);
                    }
                    assert forall|x1: int, x2: int| 0 <= x1 < x2 < candidates@.len()
                        implies (#[trigger] candidates@[x1]) < (#[trigger] candidates@[x2])
                        by {
                        assert(idxs_view(candidates@)[x1] == candidates@[x1] as int);
                        assert(idxs_view(candidates@)[x2] == candidates@[x2] as int);
                        assert(self.index()[k1].1[x1] < self.index()[k1].1[x2]);
                    }
                }
                match profile {
                    Some(p) => {
                        let mut filtered: Vec<usize> = Vec::new();
                        let cn = candidates.len();
                        let mut x: usize = 0;
                        while x < cn
                            invariant
                                x <= cn,
                                cn == candidates@.len(),
                                forall|y: int| 0 <= y < filtered@.len() ==> slot_matches(
                                    self.slots(),
                                    (#[trigger] filtered@[y]) as int,
                                    p@,
                                    action,
                                    target_type@,
                                ),
                                forall|y1: int, y2: int| 0 <= y1 < y2 < filtered@.len()
                                    ==> (#[trigger] filtered@[y1]) < (
                                    #[trigger] filtered@[y2]),
                                forall|y: int| 0 <= y < filtered@.len() ==> (exists|z: int|
                                    0 <= z < x && (#[trigger] filtered@[y])
                                        == candidates@[z]),
                                forall|z: int|
                                    0 <= z < x && slot_matches(
                                        self.slots(),
                                        (#[trigger] candidates@[z]) as int,
                                        p@,
                                        action,
                                        target_type@,
                                    ) ==> (exists|y: int|
                                        0 <= y < filtered@.len() && (#[trigger] filtered@[y])
                                            == candidates@[z]),
                            decreases cn - x,
                        {
                            let ghost fvpre = filtered@;
                            let slot = candidates[x];
                            let keep = if slot < self.consumers.len() {
                                match &self.consumers[slot] {
                                    Some(reg) => {
                                        proof {
                                            assert(self.slots()[slot as int] == Some(reg@));
                                        }
                                        reg.matches(action, &target_type, p)
                                    }
                                    None => false,
                                }
                            } else {
                                false
                            };
                            if keep {
                                let ghost fv = filtered@;
                                filtered.push(slot);
                                proof {
                                    assert(filtered@ =~= fv + seq![slot]);
                                    assert forall|y1: int, y2: int|
                                        0 <= y1 < y2 < filtered@.len() implies (
                                        #[trigger] filtered@[y1]) < (
                                        #[trigger] filtered@[y2]) by {
                                        if y2 == filtered@.len() - 1 {
                                            let z = choose|z: int|
                                                0 <= z < x && (#[trigger] fv[y1])
                                                    == candidates@[z];
                                            assert(candidates@[z] < candidates@[x as int]);
                                            assert(filtered@[y1] == fv[y1]);
                                        } else {
                                            assert(fv[y1] < fv[y2]);
                                        }
                                    }
                                }
                            }
                            proof {
                                if !keep {
                                    assert(!slot_matches(
                                        self.slots(),
                                        candidates@[x as int] as int,
                                        p@,
                                        action,
                                        target_type@,
                                    ));
                                }
                                assert forall|z: int|
                                    0 <= z < x + 1 && slot_matches(
                                        self.slots(),
                                        (#[trigger] candidates@[z]) as int,
                                        p@,
                                        action,
                                        target_type@,
                                    ) implies (exists|y: int|
                                        0 <= y < filtered@.len() && (#[trigger] filtered@[y])
                                            == candidates@[z]) by {
                                    if z == x as int {
                                        assert(keep);
                                        assert(filtered@[filtered@.len() - 1]
                                            == candidates@[z]);
                                    } else {
                                        let y = choose|y: int|
                                            0 <= y < fvpre.len() && (#[trigger] fvpre[y])
                                                == candidates@[z];
                                        assert(filtered@[y] == candidates@[z]);
                                    }
                                }
                            }
                            x += 1;
                        }
                        if filtered.len() == 0 {
                            proof {
                                assert(slot_declares(
                                    self.slots(),
                                    candidates@[0] as int,
                                    action,
                                    target_type@,
                                ));
                                assert forall|i: int|
                                    !slot_matches(self.slots(), i, p@, action, target_type@)
                                    by {
                                    if slot_matches(self.slots(), i, p@, action, target_type@)
                                    {
                                        lemma_matches_implies_declares(
                                            self.slots(),
                                            i,
                                            Some(p@),
                                            action,
                                            target_type@,
                                        );
                                        assert(slot_declares(
                                            self.slots(),
                                            i,
                                            action,
                                            target_type@,
                                        ));
                                        let z = choose|z: int|
                                            0 <= z < candidates@.len() && (
                                            #[trigger] candidates@[z]) as int == i;
                                        let y = choose|y: int|
                                            0 <= y < filtered@.len() && (
                                            #[trigger] filtered@[y]) == candidates@[z];
                                        assert(false);
                                    }
                                }
                            }
                            return Err(Error::not_implemented(
                                "no registered consumer matches the requested profile",
                            ));
                        }
                        proof {
                            assert forall|i: int|
                                slot_matches(self.slots(), i, p@, action, target_type@)
                                implies (exists|y: int|
                                    0 <= y < filtered@.len() && (#[trigger] filtered@[y]) as int
                                        == i) by {
                                assert(slot_declares(self.slots(), i, action, target_type@));
                                let z = choose|z: int|
                                    0 <= z < candidates@.len() && (
                                    #[trigger] candidates@[z]) as int == i;
                                let y = choose|y: int|
                                    0 <= y < filtered@.len() && (#[trigger] filtered@[y])
                                        == candidates@[z];
                                assert(filtered@[y] as int == i);
                            }
                            assert forall|y: int| 0 <= y < filtered@.len()
                                implies slot_declares(
                                self.slots(),
                                (#[trigger] filtered@[y]) as int,
                                action,
                                target_type@,
                            ) by {
                                assert(slot_matches(
                                    self.slots(),
                                    filtered@[y] as int,
                                    p@,
                                    action,
                                    target_type@,
                                ));
                            }
                        }
                        proof {
                            assert(opt_nsid_view(profile) == Some(p@));
                            assert(slot_matches(
                                self.slots(),
                                filtered@[0] as int,
                                p@,
                                action,
                                target_type@,
                            ));
                            assert(forward_ok(
                                self.slots(),
                                action,
                                target_type@,
                                opt_nsid_view(profile),
                                filtered@,
                            ));
                        }
                        Ok(filtered)
                    }
                    None => {
                        proof {
                            assert(opt_nsid_view(profile) is None);
                            assert(slot_declares(
                                self.slots(),
                                candidates@[0] as int,
                                action,
                                target_type@,
                            ));
                            assert(forward_ok(
                                self.slots(),
                                action,
                                target_type@,
                                opt_nsid_view(profile),
                                candidates@,
                            ));
                        }
                        Ok(candidates)
                    }
                }

    }

    /// Decides how to serve a command: a `query features` command is
    /// answered directly, and any other command is routed to every live
    /// slot declaring its action-target pair, filtered by the named
    /// profile if there is one.
    pub fn route(&self, cmd: &Command) -> (r: Result<Dispatch, Error>)
        requires
            self.wf(),
        ensures
            r matches Ok(_) <==> route_admissible(self.slots(), cmd@),
            match r {
                Ok(d) => match d {
                    Dispatch::Reply(rsp) => cmd@.action == Action::Query && (match cmd@.target {
                        TargetV::Features(fs) => features_reply_ok(self.slots(), fs, rsp@),
                        _ => false,
                    }),
                    Dispatch::Forward(c) => !(cmd@.action == Action::Query && cmd@.target
                        matches TargetV::Features(_)) && forward_ok(
                        self.slots(),
                        cmd@.action,
                        kind_of(cmd@.target),
                        cmd@.profile,
                        c@,
                    ),
                },
                Err(e) => if cmd@.action == Action::Query && cmd@.target
                    matches TargetV::Features(_) {
                    e@ == rate_limit_refusal()
                } else if forall|i: int|
                    !slot_declares(self.slots(), i, cmd@.action, kind_of(cmd@.target)) {
                    e@ == unsupported_pair_refusal(cmd@.action, kind_of(cmd@.target))
                } else {
                    e@ == profile_refusal()
                },
            },
    {
        match (&cmd.action, &cmd.target) {
            (Action::Query, Target::Features(fs)) => {
                match self.query_features(fs) {
                    Ok(rsp) => Ok(Dispatch::Reply(rsp)),
                    Err(e) => Err(e),
                }
            }
            _ => {
                match self.matching_slots(cmd.action, &cmd.target.kind(), &cmd.profile) {
                    Ok(c) => Ok(Dispatch::Forward(c)),
                    Err(e) => Err(e),
                }
            }
        }
    }
}

/// Removing a slot removes exactly its contribution: a pair declared only
/// by the removed registration is no longer declared by any live slot, and
/// a pair also declared by some other live slot is still declared.  Since
/// the reverse index always holds exactly the live slots' declared pairs,
/// the same holds of the index and of the pair union after a removal.
pub proof fn lemma_remove_exact(
    slots_before: SlotsV,
    slots_after: SlotsV,
    slot: int,
    a: Action,
    t: TargetTypeV,
)
    requires
        0 <= slot < slots_before.len(),
        slots_after == slots_before.update(slot, None),
    ensures
        (forall|i: int| i != slot ==> !slot_declares(slots_before, i, a, t))
            ==> !registry_declares(slots_after, a, t),
        (exists|i: int| i != slot && slot_declares(slots_before, i, a, t))
            ==> registry_declares(slots_after, a, t),
{
    if forall|i: int| i != slot ==> !slot_declares(slots_before, i, a, t) {
        if registry_declares(slots_after, a, t) {
            let i = choose|i: int| slot_declares(slots_after, i, a, t);
            assert(i != slot);
            assert(slots_after[i] == slots_before[i]);
            assert(slot_declares(slots_before, i, a, t));
        }
    }
    if exists|i: int| i != slot && slot_declares(slots_before, i, a, t) {
        let i = choose|i: int| i != slot && slot_declares(slots_before, i, a, t);
        assert(slots_after[i] == slots_before[i]);
        assert(slot_declares(slots_after, i, a, t));
    }
}

impl Registration {
    /// The union of the pairs this registration declares, across all of
    /// its profile keys.
    #[verifier::loop_isolation(false)]
    pub fn declared_pairs(&self) -> (r: ActionTargets)
        ensures
            at_wf(r@),
            forall|a: Action, t: TargetTypeV|
                #[trigger] at_has_pair(r@, a, t) <==> reg_declares(self@, a, t),
    {
        let list = self.pairs_list();
        let ghost listv = list@;
        let mut out = ActionTargets::new();
        let total = list.len();
        let mut rest = list;
        let mut k: usize = 0;
        proof {
            assert(rest@ =~= listv.skip(0));
        }
        while rest.len() > 0
            invariant
                listv.len() == total,
                k + rest.len() == listv.len(),
                rest@ == listv.skip(k as int),
                at_wf(out@),
                forall|a: Action, t: TargetTypeV|
                    #[trigger] at_has_pair(out@, a, t) <==> pairs_prefix_has(
                        listv,
                        k as int,
                        a,
                        t,
                    ),
            decreases rest.len(),
        {
            let ghost kk = k as int;
            let ghost prev = out@;
            let (a, t) = rest.remove(0);
            proof {
                assert(listv.skip(kk)[0] == listv[kk]);
                assert((a, t) == listv[kk]);
            }
            out.insert(a, t);
            proof {
                assert(rest@ =~= listv.skip(kk + 1));
                assert forall|a2: Action, t2: TargetTypeV|
                    #[trigger] at_has_pair(out@, a2, t2) <==> pairs_prefix_has(
                        listv,
                        kk + 1,
                        a2,
                        t2,
                    ) by {
                    if at_has_pair(out@, a2, t2) {
                        if at_has_pair(prev, a2, t2) {
                            let j = choose|j: int|
                                0 <= j < kk && (#[trigger] listv[j]).0 == a2 && listv[j].1@
                                    == t2;
                            assert(pairs_prefix_has(listv, kk + 1, a2, t2));
                        } else {
                            assert(a2 == a && t2 == t@);
                            assert(listv[kk].0 == a2 && listv[kk].1@ == t2);
                            assert(pairs_prefix_has(listv, kk + 1, a2, t2));
                        }
                    }
                    if pairs_prefix_has(listv, kk + 1, a2, t2) {
                        let j = choose|j: int|
                            0 <= j < kk + 1 && (#[trigger] listv[j]).0 == a2 && listv[j].1@
                                == t2;
                        if j < kk {
                            assert(pairs_prefix_has(listv, kk, a2, t2));
                            assert(at_has_pair(prev, a2, t2));
                        } else {
                            assert(a2 == a && t2 == t@);
                        }
                        assert(at_has_pair(out@, a2, t2));
                    }
                }
            }
            k += 1;
        }
        out
    }

    /// The distinct profiles this registration names.
    #[verifier::loop_isolation(false)]
    pub fn profiles(&self) -> (r: Vec<Nsid>)
        ensures
            forall|p: Seq<char>|
                #[trigger] nsids_contain(nsids_view(r@), p) <==> reg_has_profile(self@, p),
            forall|x1: int, x2: int| 0 <= x1 < x2 < r@.len() ==> r@[x1]@ != r@[x2]@,
    {
        let mut out: Vec<Nsid> = Vec::new();
        let n = self.len();
        let mut j: usize = 0;
        proof {
            lemma_nsids_view(out@);
        }
        while j < n
            invariant
                j <= n,
                n == self@.len(),
                forall|x1: int, x2: int| 0 <= x1 < x2 < out@.len() ==> out@[x1]@ != out@[x2]@,
                forall|p: Seq<char>|
                    #[trigger] nsids_contain(nsids_view(out@), p) <==> (exists|jj: int|
                        0 <= jj < j && (#[trigger] self@[jj]).0 == Some(p)),
            decreases n - j,
        {
            let entry = self.entry(j);
            match &entry.0 {
                Some(p) => {
                    proof {
                        assert(self@[j as int].0 == Some(p@));
                    }
                    let have = nsids_have(&out, p);
                    if !have {
                        let ghost outv = out@;
                        out.push(p.clone());
                        proof {
                            lemma_nsids_view(out@);
                            lemma_nsids_view(outv);
                            assert(nsids_view(out@) =~= nsids_view(outv) + seq![p@]);
                            assert forall|x1: int, x2: int| 0 <= x1 < x2 < out@.len()
                                implies out@[x1]@ != out@[x2]@ by {
                                if x2 == out@.len() - 1 {
                                    if out@[x1]@ == p@ {
                                        assert(nsids_view(outv)[x1] == p@);
                                        assert(nsids_contain(nsids_view(outv), p@));
                                    }
                                } else {
                                    assert(outv[x1]@ != outv[x2]@);
                                }
                            }
                            assert forall|q: Seq<char>|
                                #[trigger] nsids_contain(nsids_view(out@), q) <==> (exists|
                                    jj: int,
                                |
                                    0 <= jj < j + 1 && (#[trigger] self@[jj]).0 == Some(q))
                                by {
                                if nsids_contain(nsids_view(out@), q) {
                                    let x = choose|x: int|
                                        0 <= x < nsids_view(out@).len() && nsids_view(out@)[x]
                                            == q;
                                    if x < outv.len() {
                                        assert(nsids_view(outv)[x] == q);
                                        assert(nsids_contain(nsids_view(outv), q));
                                        let jj = choose|jj: int|
                                            0 <= jj < j && (#[trigger] self@[jj]).0 == Some(
                                                q,
                                            );
                                        assert(0 <= jj < j + 1 && self@[jj].0 == Some(q));
                                    } else {
                                        assert(q == p@);
                                        assert(self@[j as int].0 == Some(q));
                                    }
                                }
                                if exists|jj: int|
                                    0 <= jj < j + 1 && (#[trigger] self@[jj]).0 == Some(q) {
                                    let jj = choose|jj: int|
                                        0 <= jj < j + 1 && (#[trigger] self@[jj]).0 == Some(
                                            q,
                                        );
                                    if jj < j as int {
                                        assert(nsids_contain(nsids_view(outv), q));
                                        let x = choose|x: int|
                                            0 <= x < nsids_view(outv).len() && nsids_view(
                                                outv,
                                            )[x] == q;
                                        assert(nsids_view(out@)[x] == q);
                                    } else {
                                        assert(q == p@);
                                        assert(nsids_view(out@)[outv.len() as int] == q);
                                    }
                                    assert(nsids_contain(nsids_view(out@), q));
                                }
                            }
                        }
                    } else {
                        proof {
                            assert forall|q: Seq<char>|
                                #[trigger] nsids_contain(nsids_view(out@), q) <==> (exists|
                                    jj: int,
                                |
                                    0 <= jj < j + 1 && (#[trigger] self@[jj]).0 == Some(q))
                                by {
                                if nsids_contain(nsids_view(out@), q) {
                                    let jj = choose|jj: int|
                                        0 <= jj < j && (#[trigger] self@[jj]).0 == Some(q);
                                    assert(0 <= jj < j + 1 && self@[jj].0 == Some(q));
                                }
                                if exists|jj: int|
                                    0 <= jj < j + 1 && (#[trigger] self@[jj]).0 == Some(q) {
                                    let jj = choose|jj: int|
                                        0 <= jj < j + 1 && (#[trigger] self@[jj]).0 == Some(
                                            q,
                                        );
                                    if jj == j as int {
                                        assert(q == p@);
                                        assert(nsids_contain(nsids_view(out@), q));
                                    }
                                }
                            }
                        }
                    }
                }
                None => {
                    proof {
                        assert(self@[j as int].0 is None);
                        assert forall|q: Seq<char>|
                            #[trigger] nsids_contain(nsids_view(out@), q) <==> (exists|
                                jj: int,
                            |
                                0 <= jj < j + 1 && (#[trigger] self@[jj]).0 == Some(q)) by {
                            if exists|jj: int|
                                0 <= jj < j + 1 && (#[trigger] self@[jj]).0 == Some(q) {
                                let jj = choose|jj: int|
                                    0 <= jj < j + 1 && (#[trigger] self@[jj]).0 == Some(q);
                                assert(jj != j as int);
                            }
                        }
                    }
                }
            }
            j += 1;
        }
        out
    }

    /// Answers a `query features` command from this registration alone:
    /// its own profiles and declared pairs — with, for each named profile,
    /// an extension entry carrying that profile's own pairs — and the
    /// supported protocol version; asking for the rate limit always fails
    /// as unsupported.
    pub fn query_features(&self, fs: &Vec<Feature>) -> (r: Result<Response, Error>)
        requires
            reg_wf(self@),
        ensures
            r matches Ok(_) <==> !features_contain(fs@, Feature::RateLimit),
            match r {
                Ok(rsp) => rsp@.status == StatusCode::Okay && (match rsp@.results {
                    Some(res) => (features_contain(fs@, Feature::Pairs) ==> (res.pairs
                        matches Some(m) && (forall|a: Action, t: TargetTypeV|
                        #[trigger] at_has_pair(m, a, t) <==> reg_declares(self@, a, t))))
                        && (features_contain(fs@, Feature::Profiles) ==> (forall|p: Seq<char>|
                        #[trigger] nsids_contain(res.profiles, p) <==> reg_has_profile(
                            self@,
                            p,
                        ))) && (features_contain(fs@, Feature::Versions) ==> res.versions
                        == seq![Version { major: 2, minor: 0 }]) && (features_contain(
                        fs@,
                        Feature::Pairs,
                    ) ==> res.extensions == reg_ext_entries(self@, self@.len() as int)),
                    None => false,
                }),
                Err(e) => e@ == rate_limit_refusal(),
            },
    {
        if features_have(fs, Feature::RateLimit) {
            return Err(Error::not_implemented("rate limit feature is not implemented").at(
                crate::error::PathSegment::key("features"),
            ));
        }
        let mut results = Results::new();
        if features_have(fs, Feature::Profiles) {
            results.profiles = self.profiles();
        }
        if features_have(fs, Feature::Versions) {
            let mut versions: Vec<Version> = Vec::new();
            versions.push(Version::new(2, 0));
            proof {
                assert(versions@ =~= seq![Version { major: 2, minor: 0 }]);
            }
            results.versions = versions;
        }
        if features_have(fs, Feature::Pairs) {
            results.pairs = Some(self.declared_pairs());
            let mut extensions = Extensions::new();
            let n = self.len();
            let mut j: usize = 0;
            proof {
                assert(extensions@ =~= reg_ext_entries(self@, 0));
            }
            while j < n
                invariant
                    j <= n,
                    n == self@.len(),
                    extensions@ == reg_ext_entries(self@, j as int),
                decreases n - j,
            {
                let entry = self.entry(j);
                match &entry.0 {
                    Some(p) => {
                        proof {
                            assert(self@[j as int]
                                == (Some(p@), entry.1@));
                        }
                        let ghost extv = extensions@;
                        extensions.append(
                            p.clone(),
                            crate::codec::wrap_one("pairs", entry.1.to_value()),
                        );
                        proof {
                            assert(extensions@ =~= reg_ext_entries(self@, j + 1));
                        }
                    }
                    None => {
                        proof {
                            assert(self@[j as int].0 is None);
                            assert(extensions@ =~= reg_ext_entries(self@, j + 1));
                        }
                    }
                }
                j += 1;
            }
            results.extensions = extensions;
        }
        Ok(Response::new(StatusCode::Okay).with_results(results))
    }
}

/// The extension entries a registration reports for its first `j` keys:
/// one entry per named profile, carrying that profile's own pair map
/// under `pairs`, in declaration order.
pub open spec fn reg_ext_entries(rv: RegistrationV, j: int) -> Seq<(Seq<char>, ValueV)>
    decreases j,
{
    if j <= 0 {
        Seq::empty()
    } else {
        reg_ext_entries(rv, j - 1) + (match rv[j - 1].0 {
            Some(p) => seq![
                (
                    p,
                    ValueV::Obj(
                        crate::codec::one_field(
                            "pairs"@,
                            ValueV::Obj(crate::codec::enc_at(rv[j - 1].1)),
                        ),
                    ),
                ),
            ],
            None => Seq::empty(),
        })
    }
}

/// True when slot `i` is live and its registration declares the pair
/// under the given profile key.
pub open spec fn slot_has_pair(
    slots: SlotsV,
    i: int,
    p: Option<Seq<char>>,
    x: Action,
    u: TargetTypeV,
) -> bool {
    0 <= i < slots.len() && (match slots[i] {
        Some(rv) => reg_has_pair(rv, p, x, u),
        None => false,
    })
}

/// What folding the first `i` slots declares.
pub open spec fn folded_upto(
    slots: SlotsV,
    i: int,
    p: Option<Seq<char>>,
    x: Action,
    u: TargetTypeV,
) -> bool {
    exists|ii: int| 0 <= ii < i && slot_has_pair(slots, ii, p, x, u)
}

impl Registration {
    /// Folds a whole registry into one registration: under each profile
    /// key, the union of every live slot's declared pairs — so a registry
    /// can itself be nested as a single consumer of another registry.
    #[verifier::loop_isolation(false)]
    pub fn from_registry(registry: &Registry) -> (r: Registration)
        requires
            registry.wf(),
        ensures
            reg_wf(r@),
            forall|p: Option<Seq<char>>, x: Action, u: TargetTypeV|
                #[trigger] reg_has_pair(r@, p, x, u) <==> (exists|i: int|
                    slot_has_pair(registry.slots(), i, p, x, u)),
    {
        proof {
            lemma_slots_view(registry.consumers@);
        }
        let ghost slots = registry.slots();
        let mut out = Registration::new();
        let n = registry.consumers.len();
        let mut i: usize = 0;
        while i < n
            invariant
                i <= n,
                n == slots.len(),
                reg_wf(out@),
                forall|p: Option<Seq<char>>, x: Action, u: TargetTypeV|
                    #[trigger] reg_has_pair(out@, p, x, u) <==> folded_upto(
                        slots,
                        i as int,
                        p,
                        x,
                        u,
                    ),
            decreases n - i,
        {
            match &registry.consumers[i] {
                Some(reg) => {
                    proof {
                        assert(slots[i as int] == Some(reg@));
                    }
                    let ghost slotbase = out@;
                    let m = reg.len();
                    let mut j: usize = 0;
                    while j < m
                        invariant
                            j <= m,
                            i < n,
                            m == reg@.len(),
                            slots[i as int] == Some(reg@),
                            reg_wf(reg@),
                            reg_wf(out@),
                            forall|p: Option<Seq<char>>, x: Action, u: TargetTypeV|
                                #[trigger] reg_has_pair(out@, p, x, u) <==> (reg_has_pair(
                                    slotbase,
                                    p,
                                    x,
                                    u,
                                ) || (exists|jj: int|
                                    0 <= jj < j && (#[trigger] reg@[jj]).0 == p
                                        && at_has_pair(reg@[jj].1, x, u))),
                        decreases m - j,
                    {
                        let entry = reg.entry(j);
                        let list = entry.1.pairs_list();
                        let ghost listv = list@;
                        let ghost prev = out@;
                        let ghost key = opt_nsid_view(&entry.0);
                        match &entry.0 {
                            Some(p) => {
                                out = out.with_actions(p, list);
                            }
                            None => {
                                out = out.with_actions_without_profile(list);
                            }
                        }
                        proof {
                            assert(reg@[j as int] == (key, entry.1@));
                            assert forall|p: Option<Seq<char>>, x: Action, u: TargetTypeV|
                                #[trigger] reg_has_pair(out@, p, x, u) <==> (reg_has_pair(
                                    slotbase,
                                    p,
                                    x,
                                    u,
                                ) || (exists|jj: int|
                                    0 <= jj < j + 1 && (#[trigger] reg@[jj]).0 == p
                                        && at_has_pair(reg@[jj].1, x, u))) by {
                                if p == key {
                                    assert(reg_has_pair(out@, p, x, u) <==> (reg_has_pair(
                                        prev,
                                        p,
                                        x,
                                        u,
                                    ) || pairs_prefix_has(listv, listv.len() as int, x, u)));
                                    assert(pairs_prefix_has(listv, listv.len() as int, x, u)
                                        <==> at_has_pair(entry.1@, x, u));
                                    if reg_has_pair(out@, p, x, u) {
                                        if reg_has_pair(prev, p, x, u) {
                                            if !reg_has_pair(slotbase, p, x, u) {
                                                let jj = choose|jj: int|
                                                    0 <= jj < j && (#[trigger] reg@[jj]).0
                                                        == p && at_has_pair(reg@[jj].1, x, u);
                                                assert(0 <= jj < j + 1 && reg@[jj].0 == p
                                                    && at_has_pair(reg@[jj].1, x, u));
                                            }
                                        } else {
                                            assert(at_has_pair(entry.1@, x, u));
                                            assert(reg@[j as int].0 == p && at_has_pair(
                                                reg@[j as int].1,
                                                x,
                                                u,
                                            ));
                                        }
                                    }
                                    if reg_has_pair(slotbase, p, x, u) {
                                        assert(reg_has_pair(prev, p, x, u));
                                    }
                                    if exists|jj: int|
                                        0 <= jj < j + 1 && (#[trigger] reg@[jj]).0 == p
                                            && at_has_pair(reg@[jj].1, x, u) {
                                        let jj = choose|jj: int|
                                            0 <= jj < j + 1 && (#[trigger] reg@[jj]).0 == p
                                                && at_has_pair(reg@[jj].1, x, u);
                                        if jj < j as int {
                                            assert(reg_has_pair(prev, p, x, u));
                                        } else {
                                            assert(at_has_pair(entry.1@, x, u));
                                            assert(pairs_prefix_has(
                                                listv,
                                                listv.len() as int,
                                                x,
                                                u,
                                            ));
                                        }
                                        assert(reg_has_pair(out@, p, x, u));
                                    }
                                } else {
                                    assert(reg_has_pair(out@, p, x, u) <==> reg_has_pair(
                                        prev,
                                        p,
                                        x,
                                        u,
                                    ));
                                    if exists|jj: int|
                                        0 <= jj < j + 1 && (#[trigger] reg@[jj]).0 == p
                                            && at_has_pair(reg@[jj].1, x, u) {
                                        let jj = choose|jj: int|
                                            0 <= jj < j + 1 && (#[trigger] reg@[jj]).0 == p
                                                && at_has_pair(reg@[jj].1, x, u);
                                        assert(jj < j as int);
                                    }
                                }
                            }
                        }
                        j += 1;
                    }
                    proof {
                        assert forall|p: Option<Seq<char>>, x: Action, u: TargetTypeV|
                            #[trigger] reg_has_pair(out@, p, x, u) <==> folded_upto(
                                slots,
                                i + 1,
                                p,
                                x,
                                u,
                            ) by {
                            if reg_has_pair(out@, p, x, u) {
                                if reg_has_pair(slotbase, p, x, u) {
                                    let ii = choose|ii: int|
                                        0 <= ii < i as int && slot_has_pair(
                                            slots,
                                            ii,
                                            p,
                                            x,
                                            u,
                                        );
                                    assert(folded_upto(slots, i + 1, p, x, u));
                                } else {
                                    let jj = choose|jj: int|
                                        0 <= jj < m as int && (#[trigger] reg@[jj]).0 == p
                                            && at_has_pair(reg@[jj].1, x, u);
                                    assert(reg_has_pair(reg@, p, x, u));
                                    assert(slot_has_pair(slots, i as int, p, x, u));
                                    assert(folded_upto(slots, i + 1, p, x, u));
                                }
                            }
                            if folded_upto(slots, i + 1, p, x, u) {
                                let ii = choose|ii: int|
                                    0 <= ii < i + 1 && slot_has_pair(slots, ii, p, x, u);
                                if ii < i as int {
                                    assert(reg_has_pair(slotbase, p, x, u));
                                } else {
                                    assert(reg_has_pair(reg@, p, x, u));
                                    let jj = choose|jj: int|
                                        0 <= jj < reg@.len() && (#[trigger] reg@[jj]).0 == p
                                            && at_has_pair(reg@[jj].1, x, u);
                                }
                                assert(reg_has_pair(out@, p, x, u));
                            }
                        }
                    }
                }
                None => {
                    proof {
                        assert(slots[i as int] is None);
                        assert forall|p: Option<Seq<char>>, x: Action, u: TargetTypeV|
                            #[trigger] reg_has_pair(out@, p, x, u) <==> folded_upto(
                                slots,
                                i + 1,
                                p,
                                x,
                                u,
                            ) by {
                            if folded_upto(slots, i + 1, p, x, u) {
                                let ii = choose|ii: int|
                                    0 <= ii < i + 1 && slot_has_pair(slots, ii, p, x, u);
                                assert(ii != i as int);
                                assert(folded_upto(slots, i as int, p, x, u));
                            }
                            if reg_has_pair(out@, p, x, u) {
                                let ii = choose|ii: int|
                                    0 <= ii < i as int && slot_has_pair(slots, ii, p, x, u);
                                assert(folded_upto(slots, i + 1, p, x, u));
                            }
                        }
                    }
                }
            }
            i += 1;
        }
        proof {
            assert forall|p: Option<Seq<char>>, x: Action, u: TargetTypeV|
                #[trigger] reg_has_pair(out@, p, x, u) <==> (exists|i2: int|
                    slot_has_pair(slots, i2, p, x, u)) by {
                if reg_has_pair(out@, p, x, u) {
                    let ii = choose|ii: int|
                        0 <= ii < n as int && slot_has_pair(slots, ii, p, x, u);
                    assert(slot_has_pair(slots, ii, p, x, u));
                }
                if exists|i2: int| slot_has_pair(slots, i2, p, x, u) {
                    let i2 = choose|i2: int| slot_has_pair(slots, i2, p, x, u);
                    assert(0 <= i2 < n as int);
                    assert(folded_upto(slots, n as int, p, x, u));
                }
            }
        }
        out
    }
}

} // verus!
