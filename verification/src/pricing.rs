//! Which list-price tier a model falls in, for the cost estimate shown in
//! the UI. The local provider is always free; unknown Anthropic models count
//! as Sonnet and unknown Gemini models as Pro. (The prices of each tier,
//! USD per million tokens, are floating-point figures kept by the app.)

use vstd::prelude::*;
use crate::models::ProviderId;
use crate::text::{chars_of, to_lowercase, str_lower, contains_seq, contains_exec};

verus! {

/// A list-price tier.
#[derive(Debug, Clone, Copy, PartialEq, Eq, Structural)]
pub enum PriceTier {
    /// Anthropic Opus: 15 / 75 USD per million input / output tokens.
    Opus,
    /// Anthropic Haiku: 1 / 5.
    Haiku,
    /// Anthropic Sonnet and unknown Anthropic models: 3 / 15.
    Sonnet,
    /// Gemini Flash: 0.30 / 2.50.
    Flash,
    /// Gemini 2.5 Pro and unknown Gemini models: 1.25 / 10.
    Pro,
}

/// The tier of a model whose lower-cased name is `lowered`.
pub open spec fn tier_of_lowered_spec(provider: ProviderId, lowered: Seq<char>) -> Option<PriceTier> {
    match provider {
        ProviderId::Local => None,
        ProviderId::Anthropic => if contains_seq(lowered, "opus"@) {
            Some(PriceTier::Opus)
        } else if contains_seq(lowered, "haiku"@) {
            Some(PriceTier::Haiku)
        } else {
            Some(PriceTier::Sonnet)
        },
        ProviderId::Gemini => if contains_seq(lowered, "flash"@) {
            Some(PriceTier::Flash)
        } else {
            Some(PriceTier::Pro)
        },
    }
}

/// The tier of `model` at `provider`, matched case-insensitively on the
/// model family; `None` for the (free) local provider.
pub open spec fn price_tier_spec(provider: ProviderId, model: Seq<char>) -> Option<PriceTier> {
    tier_of_lowered_spec(provider, str_lower(model))
}

/// The tier of a model from its lower-cased name: what follows the
/// lower-casing in [`price_tier`].
pub fn tier_of_lowered(provider: ProviderId, lowered: &str) -> (r: Option<PriceTier>)
    ensures
        r == tier_of_lowered_spec(provider, lowered@),
{
    let m = chars_of(lowered);
    match provider {
        ProviderId::Local => None,
        ProviderId::Anthropic => if contains_exec(&m, &chars_of("opus")) {
            Some(PriceTier::Opus)
        } else if contains_exec(&m, &chars_of("haiku")) {
            Some(PriceTier::Haiku)
        } else {
            Some(PriceTier::Sonnet)
        },
        ProviderId::Gemini => if contains_exec(&m, &chars_of("flash")) {
            Some(PriceTier::Flash)
        } else {
            Some(PriceTier::Pro)
        },
    }
}

/// The price tier of a model (see [`price_tier_spec`]).
pub fn price_tier(provider: ProviderId, model: &str) -> (r: Option<PriceTier>)
    ensures
        r == price_tier_spec(provider, model@),
{
    if provider == ProviderId::Local {
        return None;
    }
    tier_of_lowered(provider, to_lowercase(model).as_str())
}

} // verus!
