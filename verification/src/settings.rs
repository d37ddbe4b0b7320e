//! Per-model generation settings.
//!
//! Fractional quantities (temperature, nucleus thresholds, penalties) are
//! stored in thousandths, so that the settings stay in exact integer
//! arithmetic end to end: `temperature_milli == 800` stands for a
//! temperature of 0.8, and `repeat_penalty_milli == 1000` for the neutral
//! penalty of 1.0.

use vstd::prelude::*;

verus! {

/// How the next token is drawn from the model's logits.
#[derive(Debug, Clone, PartialEq)]
pub enum SamplingConfig {
    Greedy,
    Temperature {
        temperature_milli: u32,
        top_k: i32,
        top_p_milli: u32,
        min_p_milli: u32,
        seed: Option<u32>,
    },
    MirostatV2 {
        tau_milli: u32,
        eta_milli: u32,
        seed: Option<u32>,
    },
}

/// The default sampling chain: temperature 0.8, top-k 40, top-p 0.95,
/// min-p 0.05, no fixed seed.
pub open spec fn default_sampling_config() -> SamplingConfig {
    SamplingConfig::Temperature {
        temperature_milli: 800,
        top_k: 40,
        top_p_milli: 950,
        min_p_milli: 50,
        seed: None,
    }
}

impl Default for SamplingConfig {
    fn default() -> (r: Self)
        ensures
            r == default_sampling_config(),
    {
        SamplingConfig::Temperature {
            temperature_milli: 800,
            top_k: 40,
            top_p_milli: 950,
            min_p_milli: 50,
            seed: None,
        }
    }
}

/// Settings stored per model in the registry.
#[derive(Debug, Clone, PartialEq)]
pub struct ModelSettings {
    /// User override for the context size; used verbatim when set.
    pub context_size: Option<u32>,
    pub max_output_tokens: Option<usize>,
    pub sampling: SamplingConfig,
    /// Repeat penalty in thousandths; 1000 is neutral (off).
    pub repeat_penalty_milli: u32,
    pub repeat_last_n: i32,
    /// Frequency penalty in thousandths; 0 is off.
    pub frequency_penalty_milli: i32,
    /// Presence penalty in thousandths; 0 is off.
    pub presence_penalty_milli: i32,
    pub n_batch: Option<u32>,
    pub n_gpu_layers: Option<u32>,
    pub use_mlock: bool,
    pub flash_attention: Option<bool>,
    pub n_threads: Option<i32>,
    pub native_tool_calling: bool,
    pub use_jinja: bool,
}

/// The default settings for a freshly registered model.
pub open spec fn default_model_settings() -> ModelSettings {
    ModelSettings {
        context_size: None,
        max_output_tokens: None,
        sampling: default_sampling_config(),
        repeat_penalty_milli: 1000,
        repeat_last_n: 64,
        frequency_penalty_milli: 0,
        presence_penalty_milli: 0,
        n_batch: None,
        n_gpu_layers: None,
        use_mlock: false,
        flash_attention: None,
        n_threads: None,
        native_tool_calling: false,
        use_jinja: false,
    }
}

impl Default for ModelSettings {
    fn default() -> (r: Self)
        ensures
            r == default_model_settings(),
    {
        ModelSettings {
            context_size: None,
            max_output_tokens: None,
            sampling: SamplingConfig::default(),
            repeat_penalty_milli: 1000,
            repeat_last_n: 64,
            frequency_penalty_milli: 0,
            presence_penalty_milli: 0,
            n_batch: None,
            n_gpu_layers: None,
            use_mlock: false,
            flash_attention: None,
            n_threads: None,
            native_tool_calling: false,
            use_jinja: false,
        }
    }
}

/// The default window of recent tokens that the repeat penalty inspects.
pub fn default_repeat_last_n() -> (r: i32)
    ensures
        r == 64,
{
    64
}

} // verus!
