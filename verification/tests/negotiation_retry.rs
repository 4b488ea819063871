use duskterm::negotiation::{AttemptNext, ConnectFailure, NegotiationProfile, SshAppState};

#[test]
fn a_modern_algorithm_failure_retries_with_the_legacy_profile() {
    let mut state = SshAppState::new();
    let first = state.after_attempt(
        "Host.Example ",
        22,
        NegotiationProfile::Modern,
        Some((ConnectFailure::NoCommonHostKeyAlgorithm, "no common host key algorithm")),
    );
    assert_eq!(first, AttemptNext::Retry(NegotiationProfile::LegacyRsaSha1));
    assert_eq!(state.preferred_profile_for_endpoint("host.example", 22), NegotiationProfile::Modern);
    let second = state.after_attempt("Host.Example ", 22, NegotiationProfile::LegacyRsaSha1, None);
    assert_eq!(second, AttemptNext::Connected);
    assert_eq!(state.preferred_profile_for_endpoint("host.example", 22), NegotiationProfile::LegacyRsaSha1);
}

#[test]
fn other_failures_are_final() {
    let mut state = SshAppState::new();
    let legacy = state.after_attempt(
        "h",
        2222,
        NegotiationProfile::LegacyRsaSha1,
        Some((ConnectFailure::UnknownAlgorithm, "unknown algorithm")),
    );
    assert_eq!(legacy, AttemptNext::Failed("Connection failed: unknown algorithm".to_string()));
}

#[test]
fn learned_profiles_are_kept_by_clones() {
    let mut s = SshAppState::new();
    s.remember_successful_profile(" Host.Example ", 22, NegotiationProfile::LegacyRsaSha1);
    assert_eq!(s.preferred_profile_for_endpoint("host.example", 22), NegotiationProfile::LegacyRsaSha1);
    assert_eq!(s.preferred_profile_for_endpoint("HOST.EXAMPLE", 22), NegotiationProfile::LegacyRsaSha1);
    assert_eq!(s.preferred_profile_for_endpoint("host.example", 2222), NegotiationProfile::Modern);
    assert_eq!(s.clone().preferred_profile_for_endpoint("host.example", 22), NegotiationProfile::LegacyRsaSha1);
}

#[test]
fn last_successful_profile_per_endpoint_wins() {
    let mut s = SshAppState::new();
    s.remember_successful_profile("a.example", 22, NegotiationProfile::LegacyRsaSha1);
    s.remember_successful_profile("b.example", 22, NegotiationProfile::LegacyRsaSha1);
    s.remember_successful_profile(" A.EXAMPLE", 22, NegotiationProfile::Modern);
    assert_eq!(s.preferred_profile_for_endpoint("a.example", 22), NegotiationProfile::Modern);
    assert_eq!(s.preferred_profile_for_endpoint("b.example", 22), NegotiationProfile::LegacyRsaSha1);
    assert_eq!(s.preferred_profile_for_endpoint("c.example", 22), NegotiationProfile::Modern);
}
