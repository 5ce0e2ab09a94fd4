use code_core::protocol::{
    default_true_bool, OpenRouterDataCollectionPolicy, OpenRouterProviderSort, PlanType, ReasoningEffort,
    ReasoningSummary, SandboxMode, Verbosity, WireApi,
};

#[test]
fn plan_type_parses_known_names_case_insensitively() {
    assert_eq!(PlanType::try_from_str(" Pro "), Some(PlanType::Pro));
    assert_eq!(PlanType::try_from_str("ENTERPRISE"), Some(PlanType::Enterprise));
    assert_eq!(PlanType::try_from_str("edu"), Some(PlanType::Edu));
    assert_eq!(PlanType::try_from_str("unknown"), None);
    assert_eq!(PlanType::try_from_str(""), None);
    assert_eq!(PlanType::default(), PlanType::Free);
}

#[test]
fn defaults_and_names_match_the_wire() {
    assert_eq!(ReasoningEffort::default(), ReasoningEffort::Medium);
    assert_eq!(ReasoningEffort::XHigh.as_str(), "xhigh");
    assert_eq!(ReasoningSummary::default().as_str(), "auto");
    assert_eq!(ReasoningSummary::Disabled.as_str(), "none");
    assert_eq!(Verbosity::default().as_str(), "medium");
    assert_eq!(SandboxMode::default().as_str(), "read-only");
    assert_eq!(SandboxMode::DangerFullAccess.as_str(), "danger-full-access");
    assert_eq!(WireApi::default(), WireApi::Chat);
    assert_eq!(OpenRouterDataCollectionPolicy::default(), OpenRouterDataCollectionPolicy::Allow);
    assert_eq!(OpenRouterProviderSort::default(), OpenRouterProviderSort::Price);
    assert!(default_true_bool());
}
