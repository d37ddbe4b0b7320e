//! Sampler planning: which sampling stages run, in which order, for a
//! given set of settings. The plan is handed to the native library's
//! sampler constructors by the embedding program; fractional parameters
//! stay in thousandths here (see `settings`).

use vstd::prelude::*;

use crate::settings::{ModelSettings, SamplingConfig};

verus! {

/// One stage of the sampling chain.
#[derive(Debug, Clone, PartialEq)]
pub enum SamplerStage {
    Penalties { last_n: i32, repeat_milli: u32, frequency_milli: i32, presence_milli: i32 },
    TopK { k: i32 },
    TopP { p_milli: u32, min_keep: usize },
    MinP { p_milli: u32, min_keep: usize },
    Temperature { t_milli: u32 },
    Dist { seed: u32 },
    Greedy,
    MirostatV2 { seed: u32, tau_milli: u32, eta_milli: u32 },
}

/// Whether any penalty deviates from its neutral value.
pub open spec fn has_penalties(s: ModelSettings) -> bool {
    s.repeat_penalty_milli != 1000 || s.frequency_penalty_milli != 0 || s.presence_penalty_milli
        != 0
}

/// The stages the sampling configuration alone contributes.
pub open spec fn sampling_stages(c: SamplingConfig) -> Seq<SamplerStage> {
    match c {
        SamplingConfig::Greedy => seq![SamplerStage::Greedy],
        SamplingConfig::Temperature { temperature_milli, top_k, top_p_milli, min_p_milli, seed } => seq![
            SamplerStage::TopK { k: top_k },
            SamplerStage::TopP { p_milli: top_p_milli, min_keep: 1 },
            SamplerStage::MinP { p_milli: min_p_milli, min_keep: 1 },
            SamplerStage::Temperature { t_milli: temperature_milli },
            SamplerStage::Dist {
                seed: match seed {
                    Some(v) => v,
                    None => 0,
                },
            },
        ],
        SamplingConfig::MirostatV2 { tau_milli, eta_milli, seed } => seq![
            SamplerStage::MirostatV2 {
                seed: match seed {
                    Some(v) => v,
                    None => 0,
                },
                tau_milli,
                eta_milli,
            },
        ],
    }
}

/// The full plan: a penalties stage first when any penalty is active,
/// then the configured sampling stages.
pub open spec fn sampler_plan_spec(s: ModelSettings) -> Seq<SamplerStage> {
    let tail = sampling_stages(s.sampling);
    if has_penalties(s) {
        seq![
            SamplerStage::Penalties {
                last_n: s.repeat_last_n,
                repeat_milli: s.repeat_penalty_milli,
                frequency_milli: s.frequency_penalty_milli,
                presence_milli: s.presence_penalty_milli,
            },
        ] + tail
    } else {
        tail
    }
}

/// Build the sampling chain for the given settings. A plan of one stage
/// is used as that sampler alone; a longer plan is wrapped in a chain.
pub fn build_sampler(settings: &ModelSettings) -> (r: Vec<SamplerStage>)
    ensures
        r@ == sampler_plan_spec(*settings),
        r@.len() >= 1,
{
    let mut stages: Vec<SamplerStage> = Vec::new();
    if settings.repeat_penalty_milli != 1000 || settings.frequency_penalty_milli != 0
        || settings.presence_penalty_milli != 0 {
        stages.push(
            SamplerStage::Penalties {
                last_n: settings.repeat_last_n,
                repeat_milli: settings.repeat_penalty_milli,
                frequency_milli: settings.frequency_penalty_milli,
                presence_milli: settings.presence_penalty_milli,
            },
        );
    }
    match &settings.sampling {
        SamplingConfig::Greedy => {
            stages.push(SamplerStage::Greedy);
        },
        SamplingConfig::Temperature { temperature_milli, top_k, top_p_milli, min_p_milli, seed } => {
            stages.push(SamplerStage::TopK { k: *top_k });
            stages.push(SamplerStage::TopP { p_milli: *top_p_milli, min_keep: 1 });
            stages.push(SamplerStage::MinP { p_milli: *min_p_milli, min_keep: 1 });
            stages.push(SamplerStage::Temperature { t_milli: *temperature_milli });
            let s: u32 = match seed {
                Some(v) => *v,
                None => 0,
            };
            stages.push(SamplerStage::Dist { seed: s });
        },
        SamplingConfig::MirostatV2 { tau_milli, eta_milli, seed } => {
            let s: u32 = match seed {
                Some(v) => *v,
                None => 0,
            };
            stages.push(
                SamplerStage::MirostatV2 { seed: s, tau_milli: *tau_milli, eta_milli: *eta_milli },
            );
        },
    }
    proof {
        assert(stages@ =~= sampler_plan_spec(*settings));
    }
    stages
}

} // verus!
