//! Local inference boundary: model tiers and their context budgets.
use vstd::prelude::*;

verus! {

/// Size class of a local language model.
#[derive(Clone, Copy, Debug, PartialEq, Eq, Structural)]
pub enum ModelTier {
    Tiny,
    Small,
    Medium,
}

/// The number of context tokens that each tier is given by default.
pub open spec fn spec_context_tokens(tier: ModelTier) -> nat {
    match tier {
        ModelTier::Tiny => 1024,
        ModelTier::Small => 2048,
        ModelTier::Medium => 4096,
    }
}

/// Default context window of a model tier, in tokens.
pub fn default_context_tokens(tier: ModelTier) -> (tokens: usize)
    ensures
        tokens == spec_context_tokens(tier),
{
    match tier {
        ModelTier::Tiny => 1_024,
        ModelTier::Small => 2_048,
        ModelTier::Medium => 4_096,
    }
}

/// A larger tier never has a smaller default context than a smaller one.
pub proof fn lemma_context_grows_with_tier()
    ensures
        spec_context_tokens(ModelTier::Tiny) < spec_context_tokens(ModelTier::Small),
        spec_context_tokens(ModelTier::Small) < spec_context_tokens(ModelTier::Medium),
{
}

} // verus!
