//! Context-window sizing: how large a KV cache the device memory can
//! hold, and how many tokens a generation context should be given.

use vstd::prelude::*;

use crate::settings::ModelSettings;

verus! {

/// Tokens reserved for generation beyond the prompt.
pub const GENERATION_HEADROOM: usize = 512;

/// The KV-cache-relevant metadata of a loaded model, as plain values.
///
/// `key_length` / `value_length` are the per-head K/V dimensions read
/// from the model file's metadata, when present; models with latent
/// attention have dimensions that differ from `n_embd / n_head`.
#[derive(Debug, Clone, PartialEq)]
pub struct ModelKvMeta {
    pub n_layer: u64,
    pub n_head: u64,
    pub n_head_kv: u64,
    pub n_embd: u64,
    pub key_length: Option<u64>,
    pub value_length: Option<u64>,
}

/// Bytes of KV cache per token: per-head K plus V dimensions, times the
/// number of KV heads, times the layer count, times two bytes per
/// half-precision element.
pub open spec fn kv_bytes_per_token(meta: ModelKvMeta) -> int {
    let head_dim = meta.n_embd as int / meta.n_head as int;
    let k = match meta.key_length {
        Some(x) => x as int,
        None => head_dim,
    };
    let v = match meta.value_length {
        Some(x) => x as int,
        None => head_dim,
    };
    (k + v) * (meta.n_head_kv as int) * (meta.n_layer as int) * 2
}

/// The maximum context the available memory can hold: half the free
/// bytes (the rest is reserved for compute scratch) divided by the KV
/// bytes each token costs; `None` when memory or metadata is missing.
pub open spec fn estimate_max_context_spec(meta: ModelKvMeta, available: u64) -> Option<usize> {
    if available == 0 {
        None
    } else if meta.n_head == 0 || meta.n_layer == 0 || meta.n_head_kv == 0 || meta.n_embd == 0 {
        None
    } else if kv_bytes_per_token(meta) == 0 {
        None
    } else {
        let q = (available as int / 2) / kv_bytes_per_token(meta);
        Some(if q > usize::MAX as int { usize::MAX } else { q as usize })
    }
}

/// Estimate the maximum context length whose KV cache fits in the
/// available accelerator or CPU memory.
pub fn estimate_max_context_for_memory(meta: &ModelKvMeta, available: u64) -> (r: Option<usize>)
    ensures
        r == estimate_max_context_spec(*meta, available),
{
    if available == 0 {
        return None;
    }
    if meta.n_head == 0 || meta.n_layer == 0 || meta.n_head_kv == 0 || meta.n_embd == 0 {
        return None;
    }

    let head_dim: u64 = meta.n_embd / meta.n_head;
    let k: u64 = match meta.key_length {
        Some(x) => x,
        None => head_dim,
    };
    let v: u64 = match meta.value_length {
        Some(x) => x,
        None => head_dim,
    };
    let kv: u128 = k as u128 + v as u128;
    let ghost bpt = kv_bytes_per_token(*meta);
    proof {
        assert(bpt == (kv as int) * (meta.n_head_kv as int) * (meta.n_layer as int) * 2);
    }
    if kv == 0 {
        proof {
            assert(bpt == 0) by (nonlinear_arith)
                requires
                    bpt == (kv as int) * (meta.n_head_kv as int) * (meta.n_layer as int) * 2,
                    kv == 0,
            ;
        }
        return None;
    }
    proof {
        assert(bpt >= kv as int) by (nonlinear_arith)
            requires
                bpt == (kv as int) * (meta.n_head_kv as int) * (meta.n_layer as int) * 2,
                kv >= 1,
                meta.n_head_kv >= 1,
                meta.n_layer >= 1,
        ;
    }

    let usable: u64 = available / 2;

    let q: u64 = if kv > usable as u128 {
        proof {
            vstd::arithmetic::div_mod::lemma_basic_div(usable as int, bpt);
        }
        0
    } else {
        let kv64: u64 = kv as u64;
        let q1: u64 = usable / kv64;
        let q2: u64 = q1 / meta.n_head_kv;
        let q3: u64 = q2 / meta.n_layer;
        let q4: u64 = q3 / 2;
        proof {
            vstd::arithmetic::div_mod::lemma_div_denominator(
                usable as int,
                kv as int,
                meta.n_head_kv as int,
            );
            vstd::arithmetic::div_mod::lemma_div_denominator(
                usable as int,
                (kv as int) * (meta.n_head_kv as int),
                meta.n_layer as int,
            );
            vstd::arithmetic::div_mod::lemma_div_denominator(
                usable as int,
                (kv as int) * (meta.n_head_kv as int) * (meta.n_layer as int),
                2,
            );
        }
        q4
    };

    if q > usize::MAX as u64 {
        Some(usize::MAX)
    } else {
        Some(q as usize)
    }
}

/// The context cap: the user override verbatim when set; otherwise the
/// configured limit (or the model's trained context when the limit is
/// zero), clamped by the memory estimate when that is tighter.
pub open spec fn context_cap_spec(
    settings: ModelSettings,
    context_limit: usize,
    n_ctx_train: usize,
    memory_max_ctx: Option<usize>,
) -> usize {
    match settings.context_size {
        Some(user) => user as usize,
        None => {
            let limit = if context_limit > 0 {
                context_limit
            } else {
                n_ctx_train
            };
            match memory_max_ctx {
                Some(mem_max) => if mem_max < limit {
                    mem_max
                } else {
                    limit
                },
                None => limit,
            }
        },
    }
}

/// Compute the context cap for a generation.
pub fn context_cap(
    settings: &ModelSettings,
    context_limit: usize,
    n_ctx_train: usize,
    memory_max_ctx: Option<usize>,
) -> (r: usize)
    ensures
        r == context_cap_spec(*settings, context_limit, n_ctx_train, memory_max_ctx),
{
    if let Some(user) = settings.context_size {
        return user as usize;
    }

    let limit = if context_limit > 0 {
        context_limit
    } else {
        n_ctx_train
    };

    match memory_max_ctx {
        Some(mem_max) => if mem_max < limit {
            mem_max
        } else {
            limit
        },
        None => limit,
    }
}

/// The effective context for a generation: the prompt plus the
/// generation headroom, clamped to the cap.
pub open spec fn effective_context_size_spec(
    prompt_token_count: usize,
    settings: ModelSettings,
    context_limit: usize,
    n_ctx_train: usize,
    memory_max_ctx: Option<usize>,
) -> int {
    let cap = context_cap_spec(settings, context_limit, n_ctx_train, memory_max_ctx);
    let needed = prompt_token_count + GENERATION_HEADROOM;
    if needed > cap {
        cap as int
    } else {
        needed
    }
}

/// Number of tokens the generation context is created with.
pub fn effective_context_size(
    prompt_token_count: usize,
    settings: &ModelSettings,
    context_limit: usize,
    n_ctx_train: usize,
    memory_max_ctx: Option<usize>,
) -> (r: usize)
    requires
        prompt_token_count + GENERATION_HEADROOM <= usize::MAX,
    ensures
        r == effective_context_size_spec(
            prompt_token_count,
            *settings,
            context_limit,
            n_ctx_train,
            memory_max_ctx,
        ),
{
    let cap = context_cap(settings, context_limit, n_ctx_train, memory_max_ctx);
    let needed = prompt_token_count + GENERATION_HEADROOM;
    if needed > cap {
        cap
    } else {
        needed
    }
}

/// Law: without a user override, the effective context size never
/// exceeds the configured limit (or the trained context when the limit
/// is zero), nor the memory estimate, and it equals the prompt length
/// plus the generation headroom whenever that fits under the cap. This
/// holds for every prompt length; with a user override the cap is the
/// override verbatim and the limit bound need not hold.
pub proof fn lemma_effective_context_size_bounds(
    prompt_token_count: usize,
    settings: ModelSettings,
    context_limit: usize,
    n_ctx_train: usize,
    memory_max_ctx: Option<usize>,
)
    requires
        settings.context_size is None,
    ensures
        ({
            let cap = context_cap_spec(settings, context_limit, n_ctx_train, memory_max_ctx);
            let eff = effective_context_size_spec(
                prompt_token_count,
                settings,
                context_limit,
                n_ctx_train,
                memory_max_ctx,
            );
            let limit = if context_limit > 0 {
                context_limit
            } else {
                n_ctx_train
            };
            &&& eff <= limit
            &&& (memory_max_ctx matches Some(m) ==> eff <= m)
            &&& eff <= cap
            &&& eff >= vstd::math::min((prompt_token_count + GENERATION_HEADROOM) as int, cap as int)
            &&& eff == vstd::math::min((prompt_token_count + GENERATION_HEADROOM) as int, cap as int)
        }),
{
}

} // verus!
