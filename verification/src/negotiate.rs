//! Tiered credential negotiation.
//!
//! A connection to the session database is obtained by an ordered fallback
//! across three sign-in scopes: database, then namespace, then root.  A
//! failed attempt only falls through to the next, broader scope when the
//! remote rejected the credentials; any other failure aborts the whole
//! negotiation at once.  The sign-in calls themselves are performed by the
//! caller, which feeds each outcome back into the machine.

use vstd::prelude::*;

verus! {

/// The credential every sign-in attempt is derived from.
pub struct Credential {
    pub address: String,
    pub user: String,
    pub password: String,
    pub namespace: String,
    pub database: String,
}

/// How the caller classified a failed sign-in call.
#[derive(Clone, Copy, PartialEq, Eq, Structural, Debug)]
pub enum SignInError {
    /// The remote rejected the credentials or their scope.
    AuthenticationRejected,
    /// The remote could not be reached at all.
    ConnectivityFailure,
    /// Any other failure.
    Other,
}

/// Only a rejection by the remote permits falling through to a broader
/// scope.
pub open spec fn is_auth_class(e: SignInError) -> bool {
    e == SignInError::AuthenticationRejected
}

/// Whether this error permits trying the next, broader sign-in scope.
pub fn error_allows_fallback(e: SignInError) -> (r: bool)
    ensures
        r == is_auth_class(e),
{
    match e {
        SignInError::AuthenticationRejected => true,
        SignInError::ConnectivityFailure => false,
        SignInError::Other => false,
    }
}

/// The scope of one sign-in attempt, from narrowest to broadest.
#[derive(Clone, Copy, PartialEq, Eq, Structural, Debug)]
pub enum Tier {
    Database,
    Namespace,
    Root,
}

/// The parameters of one derived sign-in attempt.
pub enum SignInRequest {
    Database { namespace: String, database: String, user: String, password: String },
    Namespace { namespace: String, user: String, password: String },
    Root { user: String, password: String },
}

/// The request carries exactly the credential fields that its tier's scope
/// uses.
pub open spec fn request_matches(r: SignInRequest, cred: Credential, tier: Tier) -> bool {
    match tier {
        Tier::Database => r matches SignInRequest::Database { namespace, database, user, password }
            && namespace@ == cred.namespace@ && database@ == cred.database@ && user@ == cred.user@
            && password@ == cred.password@,
        Tier::Namespace => r matches SignInRequest::Namespace { namespace, user, password }
            && namespace@ == cred.namespace@ && user@ == cred.user@ && password@
            == cred.password@,
        Tier::Root => r matches SignInRequest::Root { user, password } && user@ == cred.user@
            && password@ == cred.password@,
    }
}

/// Builds the sign-in attempt that a tier derives from the credential.
pub fn attempt_request(cred: &Credential, tier: Tier) -> (r: SignInRequest)
    ensures
        request_matches(r, *cred, tier),
{
    match tier {
        Tier::Database => SignInRequest::Database {
            namespace: cred.namespace.clone(),
            database: cred.database.clone(),
            user: cred.user.clone(),
            password: cred.password.clone(),
        },
        Tier::Namespace => SignInRequest::Namespace {
            namespace: cred.namespace.clone(),
            user: cred.user.clone(),
            password: cred.password.clone(),
        },
        Tier::Root => SignInRequest::Root {
            user: cred.user.clone(),
            password: cred.password.clone(),
        },
    }
}

/// What still has to be selected on a connection obtained at a tier: the
/// database-scoped sign-in selects everything itself, broader scopes leave
/// the database (and namespace) to select explicitly.
#[derive(Clone, Copy, PartialEq, Eq, Structural, Debug)]
pub enum FollowUp {
    AlreadySelected,
    SelectDatabase,
    SelectNamespaceThenDatabase,
}

/// What the negotiation does after one attempt's outcome.
#[derive(Clone, Copy, PartialEq, Eq, Structural, Debug)]
pub enum NegotiationStep {
    /// Use the connection after performing the named selections.
    Connected(FollowUp),
    /// Retry at this broader scope.
    NextTier(Tier),
    /// Give the error up to the caller.
    Failed(SignInError),
}

/// The selections owed after a successful sign-in at each tier.
pub open spec fn follow_up_of(tier: Tier) -> FollowUp {
    match tier {
        Tier::Database => FollowUp::AlreadySelected,
        Tier::Namespace => FollowUp::SelectDatabase,
        Tier::Root => FollowUp::SelectNamespaceThenDatabase,
    }
}

/// The next broader scope of each tier.
pub open spec fn next_tier_of(tier: Tier) -> Tier {
    match tier {
        Tier::Database => Tier::Namespace,
        Tier::Namespace => Tier::Root,
        Tier::Root => Tier::Root,
    }
}

/// The whole decision table of the negotiation: success connects with the
/// tier's follow-up; an authentication-class failure below the root tier
/// falls through to the next scope; every other failure aborts.
pub open spec fn step_spec(tier: Tier, outcome: Result<(), SignInError>) -> NegotiationStep {
    match outcome {
        Result::Ok(_) => NegotiationStep::Connected(follow_up_of(tier)),
        Result::Err(e) => if is_auth_class(e) && tier != Tier::Root {
            NegotiationStep::NextTier(next_tier_of(tier))
        } else {
            NegotiationStep::Failed(e)
        },
    }
}

/// Decides what the negotiation does after one attempt's outcome.
pub fn negotiate_step(tier: Tier, outcome: Result<(), SignInError>) -> (r: NegotiationStep)
    ensures
        r == step_spec(tier, outcome),
{
    match outcome {
        Ok(_) => NegotiationStep::Connected(
            match tier {
                Tier::Database => FollowUp::AlreadySelected,
                Tier::Namespace => FollowUp::SelectDatabase,
                Tier::Root => FollowUp::SelectNamespaceThenDatabase,
            },
        ),
        Err(e) => {
            if error_allows_fallback(e) {
                match tier {
                    Tier::Database => NegotiationStep::NextTier(Tier::Namespace),
                    Tier::Namespace => NegotiationStep::NextTier(Tier::Root),
                    Tier::Root => NegotiationStep::Failed(e),
                }
            } else {
                NegotiationStep::Failed(e)
            }
        },
    }
}

/// The run of the machine from a tier over the outcomes the attempts would
/// return, in order: the tiers actually attempted and how the run ended.
pub open spec fn run_from(tier: Tier, outcomes: Seq<Result<(), SignInError>>) -> (
    Seq<Tier>,
    Option<NegotiationStep>,
)
    decreases outcomes.len(),
{
    if outcomes.len() == 0 {
        (Seq::empty(), Option::None)
    } else {
        match step_spec(tier, outcomes[0]) {
            NegotiationStep::NextTier(t) => {
                let (a, r) = run_from(t, outcomes.drop_first());
                (seq![tier] + a, r)
            },
            NegotiationStep::Connected(f) => (
                seq![tier],
                Option::Some(NegotiationStep::Connected(f)),
            ),
            NegotiationStep::Failed(e) => (seq![tier], Option::Some(NegotiationStep::Failed(e))),
        }
    }
}

/// A whole negotiation starts at the database-scoped tier.
pub open spec fn negotiation_run(outcomes: Seq<Result<(), SignInError>>) -> (
    Seq<Tier>,
    Option<NegotiationStep>,
)
{
    run_from(Tier::Database, outcomes)
}

/// Law: when the database-scoped attempt fails as an authentication
/// rejection and the namespace-scoped attempt succeeds, the run connects
/// with the database still to be selected, having attempted exactly the
/// database and namespace scopes; the root tier is never attempted.
pub proof fn lemma_namespace_fallback(e: SignInError, rest: Seq<Result<(), SignInError>>)
    requires
        is_auth_class(e),
    ensures
        ({
            let outcomes = seq![
                Result::<(), SignInError>::Err(e),
                Result::<(), SignInError>::Ok(()),
            ] + rest;
            negotiation_run(outcomes).0 == seq![Tier::Database, Tier::Namespace]
                && !negotiation_run(outcomes).0.contains(Tier::Root) && negotiation_run(
                outcomes,
            ).1 == Option::Some(NegotiationStep::Connected(FollowUp::SelectDatabase))
        }),
{
    reveal_with_fuel(run_from, 3);
    let outcomes = seq![Result::<(), SignInError>::Err(e), Result::<(), SignInError>::Ok(())]
        + rest;
    assert(outcomes[0] == Result::<(), SignInError>::Err(e));
    assert(outcomes.drop_first() =~= seq![Result::<(), SignInError>::Ok(())] + rest);
    assert(outcomes.drop_first()[0] == Result::<(), SignInError>::Ok(()));
    assert(negotiation_run(outcomes).0 =~= seq![Tier::Database, Tier::Namespace]);
    assert(!negotiation_run(outcomes).0.contains(Tier::Root)) by {
        let a = negotiation_run(outcomes).0;
        assert(a[0] == Tier::Database && a[1] == Tier::Namespace);
    }
}

/// Law: a failure of the database-scoped attempt that is not an
/// authentication rejection aborts the negotiation at once; no broader
/// scope is attempted.
pub proof fn lemma_fatal_error_aborts(e: SignInError, rest: Seq<Result<(), SignInError>>)
    requires
        !is_auth_class(e),
    ensures
        ({
            let outcomes = seq![Result::<(), SignInError>::Err(e)] + rest;
            negotiation_run(outcomes).0 == seq![Tier::Database] && negotiation_run(outcomes).1
                == Option::Some(NegotiationStep::Failed(e))
        }),
{
    reveal_with_fuel(run_from, 2);
    let outcomes = seq![Result::<(), SignInError>::Err(e)] + rest;
    assert(outcomes[0] == Result::<(), SignInError>::Err(e));
    assert(negotiation_run(outcomes).0 =~= seq![Tier::Database]);
}

/// The negotiation's state between attempts.
#[derive(Clone, Copy, PartialEq, Eq, Structural, Debug)]
pub enum NegotiationState {
    /// The next attempt to make.
    Attempting(Tier),
    /// Finished: use the connection after the named selections.
    Connected(FollowUp),
    /// Finished: surface this error.
    Failed(SignInError),
}

/// A negotiation in progress, driven by the caller that performs the
/// sign-in calls: ask for the pending tier, perform its attempt, feed the
/// outcome back, repeat until the state is final.
pub struct Negotiator {
    state: NegotiationState,
    trace: Ghost<Seq<Tier>>,
}

impl Negotiator {
    /// The current state.
    pub closed spec fn state_spec(&self) -> NegotiationState {
        self.state
    }

    /// The tiers whose attempts were performed so far, in order.
    pub closed spec fn trace(&self) -> Seq<Tier> {
        self.trace@
    }

    /// Starts a negotiation at the database-scoped tier.
    pub fn new() -> (r: Negotiator)
        ensures
            r.state_spec() == NegotiationState::Attempting(Tier::Database),
            r.trace() == Seq::<Tier>::empty(),
    {
        Negotiator { state: NegotiationState::Attempting(Tier::Database), trace: Ghost(Seq::empty()) }
    }

    /// The tier whose attempt the caller must perform next, if the
    /// negotiation has not finished.
    pub fn pending_tier(&self) -> (r: Option<Tier>)
        ensures
            match r {
                Option::Some(t) => self.state_spec() == NegotiationState::Attempting(t),
                Option::None => !(self.state_spec() matches NegotiationState::Attempting(_)),
            },
    {
        match self.state {
            NegotiationState::Attempting(t) => Some(t),
            _ => None,
        }
    }

    /// The current state, for callers inspecting the result.
    pub fn state(&self) -> (r: NegotiationState)
        ensures
            r == self.state_spec(),
    {
        self.state
    }

    /// Feeds the outcome of the pending attempt back into the machine.
    pub fn advance(&mut self, outcome: Result<(), SignInError>)
        requires
            old(self).state_spec() matches NegotiationState::Attempting(_),
        ensures
            ({
                let tier = (match old(self).state_spec() {
                    NegotiationState::Attempting(t) => t,
                    _ => arbitrary(),
                });
                final(self).trace() == old(self).trace().push(tier) && (match step_spec(
                    tier,
                    outcome,
                ) {
                    NegotiationStep::NextTier(t) => final(self).state_spec()
                        == NegotiationState::Attempting(t),
                    NegotiationStep::Connected(f) => final(self).state_spec()
                        == NegotiationState::Connected(f),
                    NegotiationStep::Failed(e) => final(self).state_spec()
                        == NegotiationState::Failed(e),
                })
            }),
    {
        let tier = match self.state {
            NegotiationState::Attempting(t) => t,
            _ => Tier::Database,
        };
        proof {
            self.trace@ = self.trace@.push(tier);
        }
        match negotiate_step(tier, outcome) {
            NegotiationStep::NextTier(t) => {
                self.state = NegotiationState::Attempting(t);
            },
            NegotiationStep::Connected(f) => {
                self.state = NegotiationState::Connected(f);
            },
            NegotiationStep::Failed(e) => {
                self.state = NegotiationState::Failed(e);
            },
        }
    }
}

} // verus!
