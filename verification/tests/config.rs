//! Context sizing, sampler plans, the registry, hub file parsing, and
//! the provider facades.

use local_inference::context_size::{context_cap, effective_context_size, estimate_max_context_for_memory, ModelKvMeta};
use local_inference::errors::ProviderError;
use local_inference::generation::validate_and_compute_context;
use local_inference::hf_models::{is_shard_file, parse_model_spec, parse_quantization_from_filename, recommend_variant, HfQuantVariant};
use local_inference::openai::OpenAiProvider;
use local_inference::registry::{display_name_from_repo, is_featured_model, model_id_from_repo, LocalModelEntry, LocalModelRegistry};
use local_inference::sampler::{build_sampler, SamplerStage};
use local_inference::settings::{ModelSettings, SamplingConfig};
use local_inference::tetrate::TetrateProvider;

fn default_settings() -> ModelSettings {
    ModelSettings::default()
}

#[test]
fn test_effective_context_size_basic() {
    assert_eq!(
        effective_context_size(100, &default_settings(), 4096, 4096, None),
        612
    );
}

#[test]
fn test_effective_context_size_capped_by_limit() {
    assert_eq!(
        effective_context_size(100, &default_settings(), 1024, 8192, None),
        612
    );
}

#[test]
fn test_effective_context_size_capped_by_memory() {
    assert_eq!(
        effective_context_size(100, &default_settings(), 4096, 4096, Some(800)),
        612
    );
}

#[test]
fn test_effective_context_size_memory_smaller_than_needed() {
    assert_eq!(
        effective_context_size(600, &default_settings(), 4096, 4096, Some(700)),
        700
    );
}

#[test]
fn test_effective_context_size_zero_limit_uses_train() {
    assert_eq!(
        effective_context_size(100, &default_settings(), 0, 2048, None),
        612
    );
}

#[test]
fn test_effective_context_size_prompt_exceeds_all_limits() {
    assert_eq!(
        effective_context_size(5000, &default_settings(), 4096, 4096, None),
        4096
    );
}

#[test]
fn test_context_cap_with_settings_override() {
    let mut settings = default_settings();
    settings.context_size = Some(2048);
    assert_eq!(context_cap(&settings, 4096, 8192, Some(1024)), 2048);
}

#[test]
fn test_context_cap_without_override() {
    assert_eq!(context_cap(&default_settings(), 4096, 8192, None), 4096);
}

#[test]
fn test_context_cap_memory_limited() {
    assert_eq!(
        context_cap(&default_settings(), 4096, 8192, Some(2048)),
        2048
    );
}

#[test]
fn preflight_rejects_prompt_over_memory() {
    // Over budget: the cap clamps the effective context, and a prompt
    // beyond the memory estimate fails before allocation.
    assert_eq!(
        effective_context_size(5000, &default_settings(), 4096, 4096, None),
        4096
    );
    match validate_and_compute_context(5000, &default_settings(), 4096, 4096, Some(3000)) {
        Err(ProviderError::ContextLengthExceeded(msg)) => {
            assert_eq!(
                msg,
                "Prompt (5000 tokens) exceeds estimated memory capacity (3000 tokens). Try a smaller model or reduce conversation length."
            );
        }
        other => panic!("expected ContextLengthExceeded, got {other:?}"),
    }
    let (p, eff) =
        validate_and_compute_context(100, &default_settings(), 4096, 4096, Some(3000)).unwrap();
    assert_eq!((p, eff), (100, 612));
}

#[test]
fn estimate_uses_half_the_memory() {
    let meta = ModelKvMeta {
        n_layer: 32,
        n_head: 32,
        n_head_kv: 8,
        n_embd: 4096,
        key_length: None,
        value_length: None,
    };
    // bytes per token = (128 + 128) * 8 * 32 * 2 = 131072
    assert_eq!(
        estimate_max_context_for_memory(&meta, 2 * 131072 * 1000),
        Some(1000)
    );
    assert_eq!(estimate_max_context_for_memory(&meta, 0), None);
    let broken = ModelKvMeta { n_head: 0, ..meta };
    assert_eq!(estimate_max_context_for_memory(&broken, 1 << 30), None);
}

#[test]
fn sampler_plan_default_settings() {
    let stages = build_sampler(&default_settings());
    assert_eq!(
        stages,
        vec![
            SamplerStage::TopK { k: 40 },
            SamplerStage::TopP { p_milli: 950, min_keep: 1 },
            SamplerStage::MinP { p_milli: 50, min_keep: 1 },
            SamplerStage::Temperature { t_milli: 800 },
            SamplerStage::Dist { seed: 0 },
        ]
    );
}

#[test]
fn sampler_plan_penalties_come_first() {
    let mut settings = default_settings();
    settings.repeat_penalty_milli = 1100;
    settings.sampling = SamplingConfig::Greedy;
    let stages = build_sampler(&settings);
    assert_eq!(stages.len(), 2);
    assert!(matches!(
        stages[0],
        SamplerStage::Penalties { last_n: 64, repeat_milli: 1100, frequency_milli: 0, presence_milli: 0 }
    ));
    assert!(matches!(stages[1], SamplerStage::Greedy));
}

#[test]
fn sampler_plan_greedy_is_single_stage() {
    let mut settings = default_settings();
    settings.sampling = SamplingConfig::Greedy;
    let stages = build_sampler(&settings);
    assert_eq!(stages, vec![SamplerStage::Greedy]);
}

#[test]
fn sampler_plan_mirostat() {
    let mut settings = default_settings();
    settings.sampling = SamplingConfig::MirostatV2 { tau_milli: 5000, eta_milli: 100, seed: Some(7) };
    let stages = build_sampler(&settings);
    assert_eq!(
        stages,
        vec![SamplerStage::MirostatV2 { seed: 7, tau_milli: 5000, eta_milli: 100 }]
    );
}

fn entry(id: &str, path: &str, size: u64) -> LocalModelEntry {
    LocalModelEntry {
        id: id.to_string(),
        display_name: id.to_string(),
        repo_id: id.split(':').next().unwrap().to_string(),
        filename: "model.gguf".to_string(),
        quantization: "Q4_K_M".to_string(),
        local_path: path.to_string(),
        source_url: String::new(),
        settings: ModelSettings::default(),
        size_bytes: size,
    }
}

#[test]
fn registry_add_then_get_and_has() {
    let mut reg = LocalModelRegistry::new();
    let e = entry("a/b:Q4_K_M", "/models/b.gguf", 10);
    reg.add_model(e.clone());
    assert!(reg.has_model("a/b:Q4_K_M"));
    assert_eq!(reg.get_model("a/b:Q4_K_M"), Some(&e));
    // upsert replaces
    let e2 = entry("a/b:Q4_K_M", "/models/b2.gguf", 20);
    reg.add_model(e2.clone());
    assert_eq!(reg.list_models().len(), 1);
    assert_eq!(reg.get_model("a/b:Q4_K_M"), Some(&e2));
}

#[test]
fn registry_remove_and_settings() {
    let mut reg = LocalModelRegistry::new();
    reg.add_model(entry("a/b:Q4_K_M", "/m/b.gguf", 1));
    reg.add_model(entry("c/d:Q8_0", "/m/d.gguf", 2));
    reg.remove_model("a/b:Q4_K_M");
    assert!(!reg.has_model("a/b:Q4_K_M"));
    assert!(reg.has_model("c/d:Q8_0"));

    let mut s = ModelSettings::default();
    s.context_size = Some(2048);
    assert!(reg.update_model_settings("c/d:Q8_0", s).is_ok());
    assert_eq!(reg.get_model_settings("c/d:Q8_0").unwrap().context_size, Some(2048));
    match reg.update_model_settings("nope", ModelSettings::default()) {
        Err(ProviderError::NotFound(_)) => {}
        other => panic!("expected NotFound, got {other:?}"),
    }
}

#[test]
fn registry_sync_keeps_featured_and_evicts_orphans() {
    // One downloaded featured model, one non-featured model missing on
    // disk, one non-featured model still present.
    let featured_id = "bartowski/Llama-3.2-1B-Instruct-GGUF:Q4_K_M";
    let mut reg = LocalModelRegistry::new();
    reg.add_model(entry(featured_id, "/m/llama.gguf", 1));
    reg.add_model(entry("x/y:Q2_K", "/m/gone.gguf", 1));
    reg.add_model(entry("p/q:Q8_0", "/m/here.gguf", 1));

    let keep_ids = vec![featured_id.to_string(), "p/q:Q8_0".to_string()];
    let changed = reg.sync_with_featured(Vec::new(), &keep_ids);
    assert!(changed);
    assert!(reg.has_model(featured_id));
    assert!(!reg.has_model("x/y:Q2_K"));
    assert!(reg.has_model("p/q:Q8_0"));

    // A featured entry missing from the registry is inserted even when
    // not downloaded.
    let mut reg2 = LocalModelRegistry::new();
    let placeholder = entry(featured_id, "/m/llama.gguf", 0);
    let changed2 = reg2.sync_with_featured(vec![placeholder], &Vec::new());
    assert!(changed2);
    assert!(reg2.has_model(featured_id));
}

#[test]
fn test_is_featured_model() {
    assert!(is_featured_model("bartowski/Llama-3.2-1B-Instruct-GGUF:Q4_K_M"));
    assert!(!is_featured_model("someone/else:Q4_K_M"));
}

#[test]
fn test_model_id_and_display_name() {
    assert_eq!(model_id_from_repo("a/b-GGUF", "Q4_K_M"), "a/b-GGUF:Q4_K_M");
    assert_eq!(display_name_from_repo("a/My-Model-GGUF", "Q4_K_M"), "My-Model (Q4_K_M)");
    assert_eq!(display_name_from_repo("plain", "Q8_0"), "plain (Q8_0)");
}

#[test]
fn test_parse_quantization() {
    assert_eq!(parse_quantization_from_filename("Model-Q4_K_M.gguf"), "Q4_K_M");
    assert_eq!(parse_quantization_from_filename("Model-Q8_0.gguf"), "Q8_0");
    assert_eq!(parse_quantization_from_filename("Model-IQ4_NL.gguf"), "IQ4_NL");
    assert_eq!(parse_quantization_from_filename("Model-F16.gguf"), "F16");
    assert_eq!(parse_quantization_from_filename("random-name.gguf"), "unknown");
}

#[test]
fn test_parse_quantization_with_directory() {
    assert_eq!(
        parse_quantization_from_filename("Q5_K_M/Model-Q5_K_M-00001-of-00002.gguf"),
        "Q5_K_M"
    );
}

#[test]
fn test_parse_quantization_extended_tags() {
    assert_eq!(parse_quantization_from_filename("Model-MXFP4_MOE.gguf"), "MXFP4_MOE");
    assert_eq!(parse_quantization_from_filename("Model-UD-TQ1_0.gguf"), "TQ1_0");
    assert_eq!(parse_quantization_from_filename("Model-Q2_K_L.gguf"), "Q2_K_L");
    assert_eq!(parse_quantization_from_filename("Model-UD-Q4_K_XL.gguf"), "Q4_K_XL");
    assert_eq!(parse_quantization_from_filename("Model-UD-IQ1_M.gguf"), "IQ1_M");
}

#[test]
fn test_is_shard_file() {
    assert!(is_shard_file("Q5_K_M/Model-Q5_K_M-00001-of-00002.gguf"));
    assert!(is_shard_file("Model-BF16-00003-of-00004.gguf"));
    assert!(!is_shard_file("Model-Q4_K_M.gguf"));
}

#[test]
fn test_parse_model_spec() {
    let (repo, quant) =
        parse_model_spec("bartowski/Llama-3.2-1B-Instruct-GGUF:Q4_K_M").unwrap();
    assert_eq!(repo, "bartowski/Llama-3.2-1B-Instruct-GGUF");
    assert_eq!(quant, "Q4_K_M");
}

#[test]
fn test_parse_model_spec_invalid() {
    assert!(parse_model_spec("no-colon").is_err());
    assert!(parse_model_spec("noslash:Q4_K_M").is_err());
}

fn variant(quant: &str, size: u64, desc: &str, rank: u8) -> HfQuantVariant {
    HfQuantVariant {
        quantization: quant.to_string(),
        size_bytes: size,
        filename: format!("m-{quant}.gguf"),
        download_url: String::new(),
        description: desc.to_string(),
        quality_rank: rank,
    }
}

#[test]
fn test_recommend_variant() {
    let variants = vec![
        variant("Q2_K", 2_000_000_000, "Small", 7),
        variant("Q4_K_M", 4_000_000_000, "Medium", 19),
        variant("Q8_0", 8_000_000_000, "Large", 25),
    ];

    assert_eq!(recommend_variant(&variants, 5_000_000_000), Some(1));
    assert_eq!(recommend_variant(&variants, 10_000_000_000), Some(2));
    assert_eq!(recommend_variant(&variants, 1_000_000_000), None);
}

#[test]
fn gpt_5_2_codex_uses_responses_when_base_path_is_default() {
    assert!(OpenAiProvider::should_use_responses_api(
        "gpt-5.2-codex",
        "v1/chat/completions"
    ));
}

#[test]
fn gpt_5_2_pro_uses_responses_when_base_path_is_default() {
    assert!(OpenAiProvider::should_use_responses_api(
        "gpt-5.2-pro",
        "v1/chat/completions"
    ));
}

#[test]
fn gpt_5_2_pro_with_date_uses_responses() {
    assert!(OpenAiProvider::should_use_responses_api(
        "gpt-5.2-pro-2025-12-11",
        "v1/chat/completions"
    ));
}

#[test]
fn explicit_chat_path_forces_chat_completions() {
    assert!(!OpenAiProvider::should_use_responses_api(
        "gpt-5.2-codex",
        "openai/v1/chat/completions"
    ));
}

#[test]
fn gpt_4o_does_not_use_responses() {
    assert!(!OpenAiProvider::should_use_responses_api(
        "gpt-4o",
        "v1/chat/completions"
    ));
}

#[test]
fn custom_chat_path_maps_to_responses_path() {
    let responses_path = OpenAiProvider::map_base_path(
        "openai/v1/chat/completions",
        "responses",
        "v1/responses",
    );
    assert_eq!(responses_path, "openai/v1/responses");
}

#[test]
fn responses_path_maps_to_models_path() {
    let models_path =
        OpenAiProvider::map_base_path("openai/v1/responses", "models", "v1/models");
    assert_eq!(models_path, "openai/v1/models");
}

#[test]
fn unknown_path_falls_back_to_default_models_path() {
    let models_path = OpenAiProvider::map_base_path("custom/path", "models", "v1/models");
    assert_eq!(models_path, "v1/models");
}

#[test]
fn absolute_chat_path_maps_to_absolute_responses_path() {
    let responses_path =
        OpenAiProvider::map_base_path("/v1/chat/completions", "responses", "v1/responses");
    assert_eq!(responses_path, "/v1/responses");
}

#[test]
fn unknown_absolute_path_falls_back_to_absolute_models_path() {
    let models_path = OpenAiProvider::map_base_path("/custom/path", "models", "v1/models");
    assert_eq!(models_path, "/v1/models");
}

#[test]
fn enrich_adds_dashboard_url() {
    let err = ProviderError::CreditsExhausted {
        details: "out of credits".to_string(),
        top_up_url: None,
    };
    match TetrateProvider::enrich_credits_error(err) {
        ProviderError::CreditsExhausted { top_up_url, .. } => {
            assert_eq!(
                top_up_url.as_deref(),
                Some("https://router.tetrate.ai/billing")
            );
        }
        _ => panic!("Expected CreditsExhausted variant"),
    }
}

#[test]
fn enrich_passes_through_other_errors() {
    let err = ProviderError::ServerError("boom".to_string());
    assert!(matches!(
        TetrateProvider::enrich_credits_error(err),
        ProviderError::ServerError(_)
    ));
}
