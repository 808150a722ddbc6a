//! The retention sweep: data model of the registry's search results, the
//! deletion plan a sweep derives from them, and the sequential orchestration
//! protocol — authenticate, paginate the search, decide, delete — as a state
//! machine. Every transition is specified; the caller performs the returned
//! action (an HTTP call) and feeds the outcome back as the next event.

use vstd::prelude::*;

verus! {

use crate::order::VersionOrder;
use crate::order::spec_compare;
use crate::policy::RetentionDecision;
use crate::policy::decide;
use crate::version::CanonicalVersion;
use crate::version::NormalizeError;
use crate::version::SpecVersion;
use crate::version::normalize;
use crate::version::spec_normalize;

/// One downloadable asset of a component.
pub struct Asset {
    pub download_url: String,
    pub path: String,
    pub id: String,
}

/// The mathematical value of an [`Asset`].
pub ghost struct SpecAsset {
    pub download_url: Seq<char>,
    pub path: Seq<char>,
    pub id: Seq<char>,
}

impl DeepView for Asset {
    type V = SpecAsset;

    open spec fn deep_view(&self) -> SpecAsset {
        SpecAsset { download_url: self.download_url@, path: self.path@, id: self.id@ }
    }
}

/// One component record in the registry: a versioned artifact with its
/// assets. Created by the registry; read-only here.
pub struct Component {
    pub id: String,
    pub repository: String,
    pub format: String,
    pub group: Option<String>,
    pub name: String,
    pub version: String,
    pub assets: Vec<Asset>,
}

/// The mathematical value of a [`Component`].
pub ghost struct SpecComponent {
    pub id: Seq<char>,
    pub repository: Seq<char>,
    pub format: Seq<char>,
    pub group: Option<Seq<char>>,
    pub name: Seq<char>,
    pub version: Seq<char>,
    pub assets: Seq<SpecAsset>,
}

impl DeepView for Component {
    type V = SpecComponent;

    open spec fn deep_view(&self) -> SpecComponent {
        SpecComponent {
            id: self.id@,
            repository: self.repository@,
            format: self.format@,
            group: self.group.deep_view(),
            name: self.name@,
            version: self.version@,
            assets: self.assets.deep_view(),
        }
    }
}

/// One page of search results: an ordered run of components and an optional
/// continuation token pointing at the next page.
pub struct SearchPage {
    pub items: Vec<Component>,
    pub continuation_token: Option<String>,
}

/// The identifiers a sweep deletes, in discovery order, given the result
/// set and the cutoff: a component's identifier is listed exactly when its
/// raw version normalizes to a canonical version that strictly precedes the
/// cutoff. `None` when some raw version does not normalize — then nothing
/// at all is deleted.
pub open spec fn spec_plan(items: Seq<SpecComponent>, cutoff: SpecVersion) -> Option<
    Seq<Seq<char>>,
>
    decreases items.len(),
{
    if items.len() == 0 {
        Option::Some(Seq::<Seq<char>>::empty())
    } else {
        match spec_normalize(items[0].version) {
            Option::None => Option::None,
            Option::Some(v) => match spec_plan(items.skip(1), cutoff) {
                Option::None => Option::None,
                Option::Some(rest) => if spec_compare(v, cutoff) == VersionOrder::Less {
                    Option::Some(seq![items[0].id] + rest)
                } else {
                    Option::Some(rest)
                },
            },
        }
    }
}

/// An accumulated prefix of deletion identifiers, followed by whatever a
/// remaining plan yields.
spec fn with_prefix(acc: Seq<Seq<char>>, rest: Option<Seq<Seq<char>>>) -> Option<Seq<Seq<char>>> {
    match rest {
        Option::None => Option::None,
        Option::Some(r) => Option::Some(acc + r),
    }
}

/// Derives the deletion plan for an accumulated result set: the identifiers
/// of the components whose canonical version strictly precedes the cutoff,
/// in discovery order. Fails on the first raw version that does not
/// normalize — then no identifier at all is produced, not even for
/// components already decided.
pub fn plan_deletions(items: &Vec<Component>, cutoff: &CanonicalVersion) -> (r: Result<
    Vec<String>,
    NormalizeError,
>)
    ensures
        match r {
            Ok(ids) => spec_plan(items.deep_view(), cutoff@) == Option::Some(ids.deep_view()),
            Err(_) => spec_plan(items.deep_view(), cutoff@) is None,
        },
{
    let ghost dv = items.deep_view();
    let n = items.len();
    let mut ids: Vec<String> = Vec::new();
    let mut i: usize = 0;
    proof {
        assert(dv.skip(0) =~= dv);
        assert(ids.deep_view() =~= Seq::<Seq<char>>::empty());
        assert(ids.deep_view() + spec_plan(dv, cutoff@).unwrap() =~= spec_plan(
            dv,
            cutoff@,
        ).unwrap()) by {
            if spec_plan(dv, cutoff@) is Some {
            }
        }
        assert(spec_plan(dv, cutoff@) == with_prefix(ids.deep_view(), spec_plan(dv, cutoff@)));
    }
    while i < n
        invariant
            i <= n,
            n == items@.len(),
            dv == items.deep_view(),
            spec_plan(dv, cutoff@) == with_prefix(ids.deep_view(), spec_plan(dv.skip(i as int), cutoff@)),
        decreases n - i,
    {
        proof {
            assert(dv.skip(i as int)[0] == dv[i as int]);
            assert(dv[i as int] == items@[i as int].deep_view());
            assert(dv.skip(i as int).skip(1) =~= dv.skip(i as int + 1));
        }
        let cv = match normalize(items[i].version.as_str()) {
            Ok(cv) => cv,
            Err(e) => {
                proof {
                    assert(spec_plan(dv.skip(i as int), cutoff@) is None);
                }
                return Err(e);
            },
        };
        let ghost pre = ids.deep_view();
        let d = decide(&cv, cutoff);
        if matches!(d, RetentionDecision::Delete) {
            ids.push(items[i].id.clone());
            proof {
                assert(ids.deep_view() =~= pre.push(items@[i as int].id@));
            }
        }
        proof {
            let tail = spec_plan(dv.skip(i as int + 1), cutoff@);
            match tail {
                Option::None => {
                    assert(spec_plan(dv.skip(i as int), cutoff@) is None);
                },
                Option::Some(rest) => {
                    if spec_compare(cv@, cutoff@) == VersionOrder::Less {
                        assert(spec_plan(dv.skip(i as int), cutoff@) == Option::Some(
                            seq![dv[i as int].id] + rest,
                        ));
                        assert(pre + (seq![dv[i as int].id] + rest) =~= ids.deep_view() + rest);
                    } else {
                        assert(spec_plan(dv.skip(i as int), cutoff@) == Option::Some(rest));
                    }
                },
            }
        }
        i = i + 1;
    }
    proof {
        assert(dv.skip(n as int) =~= Seq::<SpecComponent>::empty());
        assert(ids.deep_view() + Seq::<Seq<char>>::empty() =~= ids.deep_view());
    }
    Ok(ids)
}

/// Why a sweep stopped short.
#[derive(Debug, Clone, Copy, PartialEq, Eq, Structural)]
pub enum SweepError {
    /// The session endpoint refused the credentials.
    Auth,
    /// An HTTP call failed at the network level.
    Transport,
    /// A search response body did not have the expected shape.
    Serialization,
    /// A raw version string — a component's or the cutoff — did not
    /// normalize.
    Normalization,
    /// The delete endpoint returned an error response.
    Delete,
}

/// The next outside call the sweep's driver must perform.
pub enum SweepAction {
    /// Submit the credentials to the session endpoint.
    Authenticate,
    /// Fetch a search page, with the continuation token when one is given.
    Search { token: Option<String> },
    /// Delete the component with this identifier.
    DeleteComponent { id: String },
    /// Nothing further: the sweep is finished or failed.
    Stop,
}

/// Where a sweep stands.
pub enum SweepState {
    /// Not yet started.
    Idle,
    /// Credentials submitted, response pending.
    Authenticating,
    /// Accumulating search pages.
    Collecting { got: Vec<Component> },
    /// Issuing the planned deletions one at a time, in discovery order;
    /// those before `done` have been confirmed.
    Deleting { pending: Vec<String>, done: usize },
    /// The result set was exhausted.
    Finished { deleted: usize },
    /// Stopped on the first unrecoverable failure.
    Failed { error: SweepError },
}

/// The outcome of the previous action, fed back by the driver.
pub enum SweepEvent {
    /// Begin the run.
    Start,
    /// The session endpoint accepted the credentials.
    AuthSucceeded,
    /// The session endpoint refused the credentials, or the call failed.
    AuthFailed,
    /// A search page arrived and was decoded.
    PageReceived { page: SearchPage },
    /// The search call failed at the network level.
    SearchFailed,
    /// The search response could not be decoded.
    PageUnreadable,
    /// The delete endpoint confirmed the deletion.
    DeleteSucceeded,
    /// The delete endpoint returned an error, or the call failed.
    DeleteFailed,
}

/// Which events may answer which states: the protocol is sequential, one
/// response per outstanding call.
pub open spec fn sweep_accepts(state: SweepState, event: SweepEvent) -> bool {
    match (state, event) {
        (SweepState::Idle, SweepEvent::Start) => true,
        (SweepState::Authenticating, SweepEvent::AuthSucceeded) => true,
        (SweepState::Authenticating, SweepEvent::AuthFailed) => true,
        (SweepState::Collecting { .. }, SweepEvent::PageReceived { .. }) => true,
        (SweepState::Collecting { .. }, SweepEvent::SearchFailed) => true,
        (SweepState::Collecting { .. }, SweepEvent::PageUnreadable) => true,
        (SweepState::Deleting { .. }, SweepEvent::DeleteSucceeded) => true,
        (SweepState::Deleting { .. }, SweepEvent::DeleteFailed) => true,
        _ => false,
    }
}

/// What one step of the protocol does: the relation between the state and
/// event consumed and the state and action produced.
pub open spec fn sweep_post(
    state: SweepState,
    event: SweepEvent,
    cutoff_raw: Seq<char>,
    next: SweepState,
    action: SweepAction,
) -> bool {
    match (state, event) {
        (SweepState::Idle, SweepEvent::Start) => next is Authenticating
            && action is Authenticate,
        (SweepState::Authenticating, SweepEvent::AuthSucceeded) => (next matches
            SweepState::Collecting { got } && got@.len() == 0) && (action matches
            SweepAction::Search { token } && token is None),
        (SweepState::Authenticating, SweepEvent::AuthFailed) => (next matches SweepState::Failed {
            error,
        } && error == SweepError::Auth) && action is Stop,
        (SweepState::Collecting { got }, SweepEvent::PageReceived { page }) => {
            let all = got.deep_view() + page.items.deep_view();
            match page.continuation_token {
                Option::Some(tok) => (next matches SweepState::Collecting { got: g }
                    && g.deep_view() == all) && (action matches SweepAction::Search {
                    token: Option::Some(t),
                } && t@ == tok@),
                Option::None => match spec_normalize(cutoff_raw) {
                    Option::None => (next matches SweepState::Failed { error } && error
                        == SweepError::Normalization) && action is Stop,
                    Option::Some(cut) => match spec_plan(all, cut) {
                        Option::None => (next matches SweepState::Failed { error } && error
                            == SweepError::Normalization) && action is Stop,
                        Option::Some(ids) => if ids.len() == 0 {
                            (next matches SweepState::Finished { deleted } && deleted == 0)
                                && action is Stop
                        } else {
                            (next matches SweepState::Deleting { pending, done }
                                && pending.deep_view() == ids && done == 0) && (action matches
                                SweepAction::DeleteComponent { id } && id@ == ids[0])
                        },
                    },
                },
            }
        },
        (SweepState::Collecting { .. }, SweepEvent::SearchFailed) => (next matches
            SweepState::Failed { error } && error == SweepError::Transport) && action is Stop,
        (SweepState::Collecting { .. }, SweepEvent::PageUnreadable) => (next matches
            SweepState::Failed { error } && error == SweepError::Serialization) && action is Stop,
        (SweepState::Deleting { pending, done }, SweepEvent::DeleteSucceeded) => if done + 1
            < pending@.len() {
            (next matches SweepState::Deleting { pending: p, done: d } && p.deep_view()
                == pending.deep_view() && d == done + 1) && (action matches
                SweepAction::DeleteComponent { id } && id@ == pending.deep_view()[done + 1])
        } else {
            (next matches SweepState::Finished { deleted } && deleted == pending@.len())
                && action is Stop
        },
        (SweepState::Deleting { .. }, SweepEvent::DeleteFailed) => (next matches
            SweepState::Failed { error } && error == SweepError::Delete) && action is Stop,
        _ => true,
    }
}

/// Performs one step of the sweep protocol: consumes the state and the
/// event that answered the last action, and yields the next state together
/// with the next action for the driver to perform.
///
/// A page carrying a continuation token is answered with another search for
/// that token, and its items are appended; the page without one closes the
/// result set, upon which the cutoff is normalized, the deletion plan is
/// derived — failing fast, before any deletion, if any version does not
/// normalize — and the deletions are issued one at a time, in discovery
/// order.
pub fn sweep_step(state: SweepState, event: SweepEvent, cutoff_raw: &str) -> (r: (
    SweepState,
    SweepAction,
))
    requires
        sweep_accepts(state, event),
    ensures
        sweep_post(state, event, cutoff_raw@, r.0, r.1),
{
    match (state, event) {
        (SweepState::Idle, SweepEvent::Start) => (
            SweepState::Authenticating,
            SweepAction::Authenticate,
        ),
        (SweepState::Authenticating, SweepEvent::AuthSucceeded) => (
            SweepState::Collecting { got: Vec::new() },
            SweepAction::Search { token: Option::None },
        ),
        (SweepState::Authenticating, SweepEvent::AuthFailed) => (
            SweepState::Failed { error: SweepError::Auth },
            SweepAction::Stop,
        ),
        (SweepState::Collecting { got: mut got }, SweepEvent::PageReceived { page }) => {
            let SearchPage { items: mut page_items, continuation_token } = page;
            let ghost pre = got.deep_view();
            let ghost arrived = page_items.deep_view();
            got.append(&mut page_items);
            proof {
                assert(got.deep_view() =~= pre + arrived);
            }
            match continuation_token {
                Option::Some(tok) => (
                    SweepState::Collecting { got },
                    SweepAction::Search { token: Option::Some(tok) },
                ),
                Option::None => {
                    match normalize(cutoff_raw) {
                        Err(_) => (
                            SweepState::Failed { error: SweepError::Normalization },
                            SweepAction::Stop,
                        ),
                        Ok(cut) => match plan_deletions(&got, &cut) {
                            Err(_) => (
                                SweepState::Failed { error: SweepError::Normalization },
                                SweepAction::Stop,
                            ),
                            Ok(ids) => {
                                if ids.len() == 0 {
                                    (SweepState::Finished { deleted: 0 }, SweepAction::Stop)
                                } else {
                                    let first = ids[0].clone();
                                    (
                                        SweepState::Deleting { pending: ids, done: 0 },
                                        SweepAction::DeleteComponent { id: first },
                                    )
                                }
                            },
                        },
                    }
                },
            }
        },
        (SweepState::Collecting { .. }, SweepEvent::SearchFailed) => (
            SweepState::Failed { error: SweepError::Transport },
            SweepAction::Stop,
        ),
        (SweepState::Collecting { .. }, SweepEvent::PageUnreadable) => (
            SweepState::Failed { error: SweepError::Serialization },
            SweepAction::Stop,
        ),
        (SweepState::Deleting { pending, done }, SweepEvent::DeleteSucceeded) => {
            let len = pending.len();
            if done < len && len - done > 1 {
                let next_id = pending[done + 1].clone();
                (
                    SweepState::Deleting { pending, done: done + 1 },
                    SweepAction::DeleteComponent { id: next_id },
                )
            } else {
                (SweepState::Finished { deleted: len }, SweepAction::Stop)
            }
        },
        (SweepState::Deleting { .. }, SweepEvent::DeleteFailed) => (
            SweepState::Failed { error: SweepError::Delete },
            SweepAction::Stop,
        ),
        _ => {
            proof {
                assert(false);
            }
            (SweepState::Idle, SweepAction::Stop)
        },
    }
}

/// Whether a component outlives a sweep: its version normalizes and does
/// not strictly precede the cutoff.
pub open spec fn spec_keeps(c: SpecComponent, cutoff: SpecVersion) -> bool {
    match spec_normalize(c.version) {
        Option::Some(v) => spec_compare(v, cutoff) != VersionOrder::Less,
        Option::None => false,
    }
}

/// The components a completed sweep leaves in the registry, in order.
pub open spec fn surviving(items: Seq<SpecComponent>, cutoff: SpecVersion) -> Seq<SpecComponent>
    decreases items.len(),
{
    if items.len() == 0 {
        Seq::<SpecComponent>::empty()
    } else {
        let rest = surviving(items.skip(1), cutoff);
        if spec_keeps(items[0], cutoff) {
            seq![items[0]] + rest
        } else {
            rest
        }
    }
}

/// A sweep is idempotent: when a sweep completes — its plan exists, and
/// everything planned was deleted — a second sweep over the components it
/// left, with the same cutoff, plans no deletion at all.
pub proof fn lemma_sweep_idempotent(items: Seq<SpecComponent>, cutoff: SpecVersion)
    requires
        spec_plan(items, cutoff) is Some,
    ensures
        spec_plan(surviving(items, cutoff), cutoff) == Option::Some(Seq::<Seq<char>>::empty()),
    decreases items.len(),
{
    if items.len() > 0 {
        lemma_sweep_idempotent(items.skip(1), cutoff);
        if spec_keeps(items[0], cutoff) {
            let rest = surviving(items.skip(1), cutoff);
            assert((seq![items[0]] + rest).skip(1) =~= rest);
            assert((seq![items[0]] + rest)[0] == items[0]);
        }
    }
}

} // verus!
