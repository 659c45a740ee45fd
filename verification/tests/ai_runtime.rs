use lartycc::ai_runtime::{default_context_tokens, ModelTier};

#[test]
fn tiers_have_increasing_context() {
    assert!(default_context_tokens(ModelTier::Tiny) < default_context_tokens(ModelTier::Medium));
}

#[test]
fn each_tier_has_its_documented_context() {
    assert_eq!(default_context_tokens(ModelTier::Tiny), 1_024);
    assert_eq!(default_context_tokens(ModelTier::Small), 2_048);
    assert_eq!(default_context_tokens(ModelTier::Medium), 4_096);
}
