use typst_gateway::negotiate::{
    attempt_request, error_allows_fallback, negotiate_step, Credential, FollowUp, NegotiationState,
    NegotiationStep, Negotiator, SignInError, SignInRequest, Tier,
};

fn cred() -> Credential {
    Credential {
        address: "db.example".to_string(),
        user: "u".to_string(),
        password: "p".to_string(),
        namespace: "ns".to_string(),
        database: "db".to_string(),
    }
}

#[test]
fn only_authentication_errors_allow_fallback() {
    assert!(error_allows_fallback(SignInError::AuthenticationRejected));
    assert!(!error_allows_fallback(SignInError::ConnectivityFailure));
    assert!(!error_allows_fallback(SignInError::Other));
}

#[test]
fn attempts_carry_the_fields_of_their_scope() {
    let c = cred();
    match attempt_request(&c, Tier::Database) {
        SignInRequest::Database { namespace, database, user, password } => {
            assert_eq!(namespace, "ns");
            assert_eq!(database, "db");
            assert_eq!(user, "u");
            assert_eq!(password, "p");
        },
        _ => panic!("database-scoped attempt expected"),
    }
    match attempt_request(&c, Tier::Namespace) {
        SignInRequest::Namespace { namespace, user, password } => {
            assert_eq!(namespace, "ns");
            assert_eq!(user, "u");
            assert_eq!(password, "p");
        },
        _ => panic!("namespace-scoped attempt expected"),
    }
    match attempt_request(&c, Tier::Root) {
        SignInRequest::Root { user, password } => {
            assert_eq!(user, "u");
            assert_eq!(password, "p");
        },
        _ => panic!("root-scoped attempt expected"),
    }
}

#[test]
fn step_decision_table() {
    assert_eq!(
        negotiate_step(Tier::Database, Ok(())),
        NegotiationStep::Connected(FollowUp::AlreadySelected)
    );
    assert_eq!(
        negotiate_step(Tier::Database, Err(SignInError::AuthenticationRejected)),
        NegotiationStep::NextTier(Tier::Namespace)
    );
    assert_eq!(
        negotiate_step(Tier::Namespace, Ok(())),
        NegotiationStep::Connected(FollowUp::SelectDatabase)
    );
    assert_eq!(
        negotiate_step(Tier::Namespace, Err(SignInError::AuthenticationRejected)),
        NegotiationStep::NextTier(Tier::Root)
    );
    assert_eq!(
        negotiate_step(Tier::Root, Ok(())),
        NegotiationStep::Connected(FollowUp::SelectNamespaceThenDatabase)
    );
    assert_eq!(
        negotiate_step(Tier::Root, Err(SignInError::AuthenticationRejected)),
        NegotiationStep::Failed(SignInError::AuthenticationRejected)
    );
    assert_eq!(
        negotiate_step(Tier::Namespace, Err(SignInError::ConnectivityFailure)),
        NegotiationStep::Failed(SignInError::ConnectivityFailure)
    );
}

#[test]
fn namespace_success_selects_database_and_skips_root() {
    let mut neg = Negotiator::new();
    assert_eq!(neg.pending_tier(), Some(Tier::Database));
    neg.advance(Err(SignInError::AuthenticationRejected));
    // The machine fell through to the namespace scope, never to root.
    assert_eq!(neg.pending_tier(), Some(Tier::Namespace));
    neg.advance(Ok(()));
    assert_eq!(neg.pending_tier(), None);
    assert_eq!(neg.state(), NegotiationState::Connected(FollowUp::SelectDatabase));
}

#[test]
fn connectivity_failure_aborts_at_once() {
    let mut neg = Negotiator::new();
    assert_eq!(neg.pending_tier(), Some(Tier::Database));
    neg.advance(Err(SignInError::ConnectivityFailure));
    assert_eq!(neg.pending_tier(), None);
    assert_eq!(neg.state(), NegotiationState::Failed(SignInError::ConnectivityFailure));
}

#[test]
fn full_fallback_reaches_root() {
    let mut neg = Negotiator::new();
    neg.advance(Err(SignInError::AuthenticationRejected));
    neg.advance(Err(SignInError::AuthenticationRejected));
    assert_eq!(neg.pending_tier(), Some(Tier::Root));
    neg.advance(Ok(()));
    assert_eq!(neg.state(), NegotiationState::Connected(FollowUp::SelectNamespaceThenDatabase));
}

#[test]
fn exhausted_tiers_surface_the_last_error() {
    let mut neg = Negotiator::new();
    neg.advance(Err(SignInError::AuthenticationRejected));
    neg.advance(Err(SignInError::AuthenticationRejected));
    neg.advance(Err(SignInError::AuthenticationRejected));
    assert_eq!(neg.state(), NegotiationState::Failed(SignInError::AuthenticationRejected));
}
