//! The Tetrate router facade: enriching its billing errors with the
//! top-up URL.

use vstd::prelude::*;

use crate::errors::ProviderError;

verus! {

/// Where Tetrate credits are topped up.
pub open spec fn billing_url() -> Seq<char> {
    "https://router.tetrate.ai/billing"@
}

/// The Tetrate provider: its coordinates as plain values. The HTTP
/// client that carries requests lives with the embedding program.
#[derive(Debug, Clone, PartialEq)]
pub struct TetrateProvider {
    pub model: String,
    pub supports_streaming: bool,
    pub name: String,
}

impl TetrateProvider {
    /// A provider for the given model.
    pub fn new(model: String) -> (r: Self)
        ensures
            r.model == model,
            r.supports_streaming,
            r.name@ == "tetrate"@,
    {
        TetrateProvider { model, supports_streaming: true, name: "tetrate".to_owned() }
    }

    /// Point an exhausted-credits error at the billing page; every
    /// other error passes through unchanged.
    pub fn enrich_credits_error(err: ProviderError) -> (r: ProviderError)
        ensures
            match err {
                ProviderError::CreditsExhausted { details, .. } => ({
                    &&& r matches ProviderError::CreditsExhausted { details: d, top_up_url: t }
                    &&& d == details
                    &&& t matches Some(u)
                    &&& u@ == billing_url()
                }),
                _ => r == err,
            },
    {
        match err {
            ProviderError::CreditsExhausted { details, top_up_url: _ } => {
                let url = "https://router.tetrate.ai/billing".to_owned();
                proof {
                    assert(url@ == billing_url());
                }
                ProviderError::CreditsExhausted { details, top_up_url: Some(url) }
            },
            other => other,
        }
    }
}

} // verus!
