//! The registry of locally available models: a catalog of entries keyed
//! by model id, with per-model settings.
//!
//! This module holds the catalog's logic; reading and writing the
//! registry file (under its file lock) is the embedding program's part,
//! which persists after every mutation here.

use vstd::prelude::*;

use crate::settings::ModelSettings;
use crate::text::{chars_to_string, extend_chars, str_eq, str_to_chars, strip_rep};
use crate::errors::ProviderError;

verus! {

/// One model known locally: its identity, file, source, and settings.
#[derive(Debug, Clone, PartialEq)]
pub struct LocalModelEntry {
    /// Stable id, `repo_id + ":" + quantization`; unique in a registry.
    pub id: String,
    pub display_name: String,
    pub repo_id: String,
    pub filename: String,
    pub quantization: String,
    /// Absolute path of the weight file inside the data directory.
    pub local_path: String,
    pub source_url: String,
    pub settings: ModelSettings,
    /// Advertised size; zero when unknown.
    pub size_bytes: u64,
}

/// The persisted catalog: a list of entries with unique ids.
#[derive(Debug, Clone, PartialEq)]
pub struct LocalModelRegistry {
    pub models: Vec<LocalModelEntry>,
}

/// The first position holding `id`, if any.
pub open spec fn first_with_id(models: Seq<LocalModelEntry>, id: Seq<char>) -> Option<int>
    decreases models.len(),
{
    if models.len() == 0 {
        None
    } else if models[0].id@ == id {
        Some(0int)
    } else {
        match first_with_id(models.drop_first(), id) {
            Some(i) => Some(i + 1),
            None => None,
        }
    }
}

/// Some entry holds `id`.
pub open spec fn has_id(models: Seq<LocalModelEntry>, id: Seq<char>) -> bool {
    exists|i: int| 0 <= i < models.len() && (#[trigger] models[i]).id@ == id
}

/// `first_with_id` finds exactly the first entry with the id.
pub proof fn lemma_first_with_id(models: Seq<LocalModelEntry>, id: Seq<char>)
    ensures
        match first_with_id(models, id) {
            Some(i) => 0 <= i < models.len() && models[i].id@ == id && forall|j: int|
                0 <= j < i ==> (#[trigger] models[j]).id@ != id,
            None => !has_id(models, id),
        },
    decreases models.len(),
{
    if models.len() > 0 && models[0].id@ != id {
        lemma_first_with_id(models.drop_first(), id);
        match first_with_id(models.drop_first(), id) {
            Some(i) => {
                assert(models.drop_first()[i] == models[i + 1]);
                assert forall|j: int| 0 <= j < i + 1 implies (#[trigger] models[j]).id@ != id by {
                    if j >= 1 {
                        assert(models.drop_first()[j - 1] == models[j]);
                    }
                }
            },
            None => {
                if has_id(models, id) {
                    let w = choose|i: int|
                        0 <= i < models.len() && (#[trigger] models[i]).id@ == id;
                    assert(models.drop_first()[w - 1] == models[w]);
                }
            },
        }
    }
}

/// Exec search for the first entry with `id`.
fn find_index(models: &Vec<LocalModelEntry>, id: &str) -> (r: Option<usize>)
    ensures
        match r {
            Some(u) => first_with_id(models@, id@) == Some(u as int),
            None => first_with_id(models@, id@) is None,
        },
{
    let mut i: usize = 0;
    while i < models.len()
        invariant
            i <= models@.len(),
            forall|j: int| 0 <= j < i ==> (#[trigger] models@[j]).id@ != id@,
        decreases models@.len() - i,
    {
        if str_eq(models[i].id.as_str(), id) {
            proof {
                lemma_first_with_id(models@, id@);
                match first_with_id(models@, id@) {
                    Some(w) => {
                        assert(w == i as int) by {
                            if w < i as int {
                                assert(models@[w].id@ != id@);
                            }
                        }
                    },
                    None => {
                        assert(models@[i as int].id@ == id@);
                    },
                }
            }
            return Some(i);
        }
        i += 1;
    }
    proof {
        lemma_first_with_id(models@, id@);
        if first_with_id(models@, id@) is Some {
            let w = first_with_id(models@, id@)->Some_0;
            assert(models@[w].id@ != id@);
        }
    }
    None
}

impl LocalModelRegistry {
    /// An empty registry, as loading a missing file yields.
    pub fn new() -> (r: Self)
        ensures
            r.models@ =~= Seq::<LocalModelEntry>::empty(),
    {
        LocalModelRegistry { models: Vec::new() }
    }

    /// Insert the entry, or replace the entry that already carries its
    /// id. The caller persists the registry afterwards.
    pub fn add_model(&mut self, entry: LocalModelEntry)
        ensures
            ({
                match first_with_id(old(self).models@, entry.id@) {
                    Some(i) => final(self).models@ == old(self).models@.update(i, entry),
                    None => final(self).models@ == old(self).models@.push(entry),
                }
            }),
    {
        match find_index(&self.models, entry.id.as_str()) {
            Some(i) => {
                proof {
                    lemma_first_with_id(self.models@, entry.id@);
                }
                self.models.set(i, entry);
            },
            None => {
                self.models.push(entry);
            },
        }
    }

    /// Remove every entry with this id. The caller persists afterwards.
    pub fn remove_model(&mut self, id: &str)
        ensures
            final(self).models@ == old(self).models@.filter(
                |m: LocalModelEntry| m.id@ != id@,
            ),
    {
        let empty: Vec<String> = Vec::new();
        retain_entries(&mut self.models, RetainRule::IdDiffers, id, &empty);
        proof {
            lemma_filter_congruence(
                old(self).models@,
                |m: LocalModelEntry| RetainRule::IdDiffers.keeps(m, id@, empty@),
                |m: LocalModelEntry| m.id@ != id@,
            );
        }
    }

    /// The first entry with this id, if any.
    pub fn get_model(&self, id: &str) -> (r: Option<&LocalModelEntry>)
        ensures
            match r {
                Some(m) => first_with_id(self.models@, id@) matches Some(i) && *m
                    == self.models@[i],
                None => !has_id(self.models@, id@),
            },
    {
        match find_index(&self.models, id) {
            Some(i) => {
                proof {
                    lemma_first_with_id(self.models@, id@);
                }
                Some(&self.models[i])
            },
            None => {
                proof {
                    lemma_first_with_id(self.models@, id@);
                }
                None
            },
        }
    }

    /// Whether some entry carries this id.
    pub fn has_model(&self, id: &str) -> (r: bool)
        ensures
            r == has_id(self.models@, id@),
    {
        proof {
            lemma_first_with_id(self.models@, id@);
        }
        match find_index(&self.models, id) {
            Some(_) => true,
            None => false,
        }
    }

    /// The settings of the entry with this id, if any.
    pub fn get_model_settings(&self, id: &str) -> (r: Option<&ModelSettings>)
        ensures
            match r {
                Some(s) => first_with_id(self.models@, id@) matches Some(i) && *s
                    == self.models@[i].settings,
                None => !has_id(self.models@, id@),
            },
    {
        match self.get_model(id) {
            Some(m) => Some(&m.settings),
            None => None,
        }
    }

    /// Replace the settings of the entry with this id; unknown ids are
    /// an error. The caller persists afterwards.
    pub fn update_model_settings(&mut self, id: &str, settings: ModelSettings) -> (r: Result<
        (),
        ProviderError,
    >)
        ensures
            match r {
                Ok(()) => ({
                    let fm = final(self).models@;
                    &&& has_id(old(self).models@, id@)
                    &&& first_with_id(old(self).models@, id@) matches Some(i) && fm == old(
                        self,
                    ).models@.update(
                        i,
                        LocalModelEntry { settings, ..old(self).models@[i] },
                    )
                }),
                Err(e) => ({
                    &&& !has_id(old(self).models@, id@)
                    &&& final(self).models@ == old(self).models@
                    &&& e is NotFound
                }),
            },
    {
        proof {
            lemma_first_with_id(self.models@, id@);
        }
        match find_index(&self.models, id) {
            Some(i) => {
                let old_entry = self.models.remove(i);
                let new_entry = LocalModelEntry { settings, ..old_entry };
                self.models.insert(i, new_entry);
                proof {
                    assert(self.models@ =~= old(self).models@.update(
                        i as int,
                        LocalModelEntry { settings, ..old(self).models@[i as int] },
                    ));
                }
                Ok(())
            },
            None => {
                let mut msg = str_to_chars("Model not found: ");
                let idc = str_to_chars(id);
                extend_chars(&mut msg, &idc);
                Err(ProviderError::NotFound(chars_to_string(&msg)))
            },
        }
    }

    /// All entries, in registry order.
    pub fn list_models(&self) -> (r: &Vec<LocalModelEntry>)
        ensures
            r@ == self.models@,
    {
        &self.models
    }

    /// Sync against the featured set: every featured entry missing from
    /// the registry is inserted; then only entries that are present on
    /// disk or downloading (their ids are in `keep_ids`) or featured are
    /// retained. Returns whether anything changed, so the caller knows
    /// to persist (best effort).
    pub fn sync_with_featured(
        &mut self,
        featured_entries: Vec<LocalModelEntry>,
        keep_ids: &Vec<String>,
    ) -> (changed: bool)
        ensures
            ({
                let with_featured = add_missing(old(self).models@, featured_entries@);
                let kept = with_featured.filter(
                    |m: LocalModelEntry|
                        id_in(keep_ids@, m.id@) || is_featured_id(m.id@),
                );
                &&& final(self).models@ == kept
                &&& changed == (with_featured.len() != old(self).models@.len() || kept.len()
                    != with_featured.len())
            }),
    {
        let mut changed = false;
        let n_before_inserts = self.models.len();
        let mut featured = featured_entries;
        let ghost fseq = featured@;
        let mut k: usize = 0;
        proof {
            assert(add_missing(self.models@, fseq.subrange(0, 0)) =~= self.models@);
        }
        while k < featured.len()
            invariant
                k <= featured@.len(),
                featured@ == fseq,
                self.models@ == add_missing(old(self).models@, fseq.subrange(0, k as int)),
                self.models@.len() >= old(self).models@.len(),
                changed == (self.models@.len() != old(self).models@.len()),
            decreases featured@.len() - k,
        {
            let entry = clone_entry(&featured[k]);
            let present = self.has_model(entry.id.as_str());
            if !present {
                self.models.push(entry);
                changed = true;
            }
            proof {
                assert(fseq.subrange(0, k + 1).drop_last() =~= fseq.subrange(0, k as int));
                assert(fseq.subrange(0, k + 1).last() == fseq[k as int]);
                lemma_add_missing_unfold(old(self).models@, fseq.subrange(0, k + 1));
            }
            k += 1;
        }
        proof {
            assert(fseq.subrange(0, fseq.len() as int) =~= fseq);
        }

        let before_retain = self.models.len();
        retain_entries(&mut self.models, RetainRule::KeepOrFeatured, "", keep_ids);
        proof {
            lemma_filter_congruence(
                add_missing(old(self).models@, featured_entries@),
                |m: LocalModelEntry| RetainRule::KeepOrFeatured.keeps(m, ""@, keep_ids@),
                |m: LocalModelEntry| id_in(keep_ids@, m.id@) || is_featured_id(m.id@),
            );
        }
        if self.models.len() != before_retain {
            changed = true;
        }
        changed
    }
}

/// `ids` holds `id`.
pub open spec fn id_in(ids: Seq<String>, id: Seq<char>) -> bool {
    exists|i: int| 0 <= i < ids.len() && (#[trigger] ids[i])@ == id
}

/// The featured model specs: curated presets that always appear in the
/// registry, downloaded or not.
pub open spec fn featured_spec_0() -> Seq<char> {
    "bartowski/Llama-3.2-1B-Instruct-GGUF:Q4_K_M"@
}

pub open spec fn featured_spec_1() -> Seq<char> {
    "bartowski/Llama-3.2-3B-Instruct-GGUF:Q4_K_M"@
}

pub open spec fn featured_spec_2() -> Seq<char> {
    "bartowski/Hermes-2-Pro-Mistral-7B-GGUF:Q4_K_M"@
}

pub open spec fn featured_spec_3() -> Seq<char> {
    "bartowski/Mistral-Small-24B-Instruct-2501-GGUF:Q4_K_M"@
}

/// An id names a featured model. Featured specs are their own ids:
/// `repo:QUANT` parses to `(repo, QUANT)` and reassembles to itself.
pub open spec fn is_featured_id(id: Seq<char>) -> bool {
    id == featured_spec_0() || id == featured_spec_1() || id == featured_spec_2() || id
        == featured_spec_3()
}

/// The four featured model specs, in presentation order.
pub fn featured_model_specs() -> (r: Vec<String>)
    ensures
        r@.len() == 4,
        r@[0]@ == featured_spec_0(),
        r@[1]@ == featured_spec_1(),
        r@[2]@ == featured_spec_2(),
        r@[3]@ == featured_spec_3(),
{
    let mut v: Vec<String> = Vec::new();
    v.push("bartowski/Llama-3.2-1B-Instruct-GGUF:Q4_K_M".to_owned());
    v.push("bartowski/Llama-3.2-3B-Instruct-GGUF:Q4_K_M".to_owned());
    v.push("bartowski/Hermes-2-Pro-Mistral-7B-GGUF:Q4_K_M".to_owned());
    v.push("bartowski/Mistral-Small-24B-Instruct-2501-GGUF:Q4_K_M".to_owned());
    v
}

/// Whether a model id corresponds to a featured model.
pub fn is_featured_model(model_id: &str) -> (r: bool)
    ensures
        r == is_featured_id(model_id@),
{
    str_eq(model_id, "bartowski/Llama-3.2-1B-Instruct-GGUF:Q4_K_M") || str_eq(
        model_id,
        "bartowski/Llama-3.2-3B-Instruct-GGUF:Q4_K_M",
    ) || str_eq(model_id, "bartowski/Hermes-2-Pro-Mistral-7B-GGUF:Q4_K_M") || str_eq(
        model_id,
        "bartowski/Mistral-Small-24B-Instruct-2501-GGUF:Q4_K_M",
    )
}

/// `base` with those of `extra` whose ids are missing appended, in order.
pub open spec fn add_missing(
    base: Seq<LocalModelEntry>,
    extra: Seq<LocalModelEntry>,
) -> Seq<LocalModelEntry>
    decreases extra.len(),
{
    if extra.len() == 0 {
        base
    } else {
        let sofar = add_missing(base, extra.drop_last());
        if has_id(sofar, extra.last().id@) {
            sofar
        } else {
            sofar.push(extra.last())
        }
    }
}

proof fn lemma_add_missing_unfold(base: Seq<LocalModelEntry>, extra: Seq<LocalModelEntry>)
    requires
        extra.len() > 0,
    ensures
        add_missing(base, extra) == ({
            let sofar = add_missing(base, extra.drop_last());
            if has_id(sofar, extra.last().id@) {
                sofar
            } else {
                sofar.push(extra.last())
            }
        }),
{
}

/// Copy an entry field by field.
fn clone_entry(e: &LocalModelEntry) -> (r: LocalModelEntry)
    ensures
        r == *e,
{
    LocalModelEntry {
        id: clone_string(&e.id),
        display_name: clone_string(&e.display_name),
        repo_id: clone_string(&e.repo_id),
        filename: clone_string(&e.filename),
        quantization: clone_string(&e.quantization),
        local_path: clone_string(&e.local_path),
        source_url: clone_string(&e.source_url),
        settings: clone_settings_pub(&e.settings),
        size_bytes: e.size_bytes,
    }
}

fn clone_string(s: &String) -> (r: String)
    ensures
        r@ == s@,
        r == *s,
{
    s.clone()
}

pub fn clone_settings_pub(s: &ModelSettings) -> (r: ModelSettings)
    ensures
        r == *s,
{
    ModelSettings {
        context_size: s.context_size,
        max_output_tokens: s.max_output_tokens,
        sampling: match &s.sampling {
            crate::settings::SamplingConfig::Greedy => crate::settings::SamplingConfig::Greedy,
            crate::settings::SamplingConfig::Temperature {
                temperature_milli,
                top_k,
                top_p_milli,
                min_p_milli,
                seed,
            } => crate::settings::SamplingConfig::Temperature {
                temperature_milli: *temperature_milli,
                top_k: *top_k,
                top_p_milli: *top_p_milli,
                min_p_milli: *min_p_milli,
                seed: *seed,
            },
            crate::settings::SamplingConfig::MirostatV2 { tau_milli, eta_milli, seed } => crate::settings::SamplingConfig::MirostatV2 {
                tau_milli: *tau_milli,
                eta_milli: *eta_milli,
                seed: *seed,
            },
        },
        repeat_penalty_milli: s.repeat_penalty_milli,
        repeat_last_n: s.repeat_last_n,
        frequency_penalty_milli: s.frequency_penalty_milli,
        presence_penalty_milli: s.presence_penalty_milli,
        n_batch: s.n_batch,
        n_gpu_layers: s.n_gpu_layers,
        use_mlock: s.use_mlock,
        flash_attention: s.flash_attention,
        n_threads: s.n_threads,
        native_tool_calling: s.native_tool_calling,
        use_jinja: s.use_jinja,
    }
}

/// Which entries a retain pass keeps.
pub enum RetainRule {
    /// Keep entries whose id differs from the given id.
    IdDiffers,
    /// Keep entries whose id is in the keep list or featured.
    KeepOrFeatured,
}

impl RetainRule {
    pub open spec fn keeps(self, m: LocalModelEntry, id: Seq<char>, keep_ids: Seq<String>) -> bool {
        match self {
            RetainRule::IdDiffers => m.id@ != id,
            RetainRule::KeepOrFeatured => id_in(keep_ids, m.id@) || is_featured_id(m.id@),
        }
    }
}

/// Whether the rule keeps this entry.
fn rule_keeps(rule: &RetainRule, m: &LocalModelEntry, id: &str, keep_ids: &Vec<String>) -> (r:
    bool)
    ensures
        r == rule.keeps(*m, id@, keep_ids@),
{
    match rule {
        RetainRule::IdDiffers => !str_eq(m.id.as_str(), id),
        RetainRule::KeepOrFeatured => {
            let mut i: usize = 0;
            while i < keep_ids.len()
                invariant
                    rule is KeepOrFeatured,
                    i <= keep_ids@.len(),
                    forall|j: int| 0 <= j < i ==> (#[trigger] keep_ids@[j])@ != m.id@,
                decreases keep_ids@.len() - i,
            {
                if str_eq(keep_ids[i].as_str(), m.id.as_str()) {
                    proof {
                        assert(id_in(keep_ids@, m.id@)) by {
                            assert((keep_ids@[i as int])@ == m.id@);
                        }
                        assert(rule.keeps(*m, id@, keep_ids@));
                    }
                    return true;
                }
                i += 1;
            }
            proof {
                if id_in(keep_ids@, m.id@) {
                    let w = choose|j: int|
                        0 <= j < keep_ids@.len() && (#[trigger] keep_ids@[j])@ == m.id@;
                    assert(keep_ids@[w]@ != m.id@);
                }
            }
            is_featured_model(m.id.as_str())
        },
    }
}

/// Remove every entry the rule does not keep, preserving order.
fn retain_entries(
    models: &mut Vec<LocalModelEntry>,
    rule: RetainRule,
    id: &str,
    keep_ids: &Vec<String>,
)
    ensures
        final(models)@ == old(models)@.filter(
            |m: LocalModelEntry| rule.keeps(m, id@, keep_ids@),
        ),
{
    let ghost orig = models@;
    let ghost pred = |m: LocalModelEntry| rule.keeps(m, id@, keep_ids@);
    let mut i: usize = 0;
    proof {
        assert(orig.subrange(0, 0) =~= Seq::<LocalModelEntry>::empty());
        lemma_filter_split(models@, pred, 0);
    }
    while i < models.len()
        invariant
            i <= models@.len(),
            models@.subrange(0, i as int) == models@.subrange(0, i as int).filter(pred),
            forall|j: int| 0 <= j < i ==> pred(#[trigger] models@[j]),
            orig.filter(pred) == models@.subrange(0, i as int) + models@.subrange(
                i as int,
                models@.len() as int,
            ).filter(pred),
            pred == (|m: LocalModelEntry| rule.keeps(m, id@, keep_ids@)),
        decreases models@.len() - i,
    {
        let ghost pre = models@;
        let keep = rule_keeps(&rule, &models[i], id, keep_ids);
        if keep {
            i += 1;
            proof {
                lemma_filter_head(pre.subrange(i - 1, pre.len() as int), pred);
                assert(pre.subrange(0, i as int) =~= pre.subrange(0, i - 1).push(
                    pre[i - 1],
                ));
                assert(pre.subrange(i - 1, pre.len() as int).drop_first() =~= pre.subrange(
                    i as int,
                    pre.len() as int,
                ));
                lemma_filter_push_kept(pre.subrange(0, i - 1), pre[i - 1], pred);
                assert(pre.subrange(0, i - 1) + seq![pre[i - 1]] + pre.subrange(
                    i as int,
                    pre.len() as int,
                ).filter(pred) =~= pre.subrange(0, i as int) + pre.subrange(
                    i as int,
                    pre.len() as int,
                ).filter(pred));
            }
        } else {
            let _ = models.remove(i);
            proof {
                lemma_filter_head(pre.subrange(i as int, pre.len() as int), pred);
                assert(pre.subrange(i as int, pre.len() as int).drop_first() =~= pre.subrange(
                    i + 1,
                    pre.len() as int,
                ));
                assert(models@ =~= pre.subrange(0, i as int) + pre.subrange(
                    i + 1,
                    pre.len() as int,
                ));
                assert(models@.subrange(0, i as int) =~= pre.subrange(0, i as int));
                assert(models@.subrange(i as int, models@.len() as int) =~= pre.subrange(
                    i + 1,
                    pre.len() as int,
                ));
            }
        }
    }
    proof {
        assert(models@.subrange(i as int, models@.len() as int) =~= Seq::<
            LocalModelEntry,
        >::empty());
        assert(Seq::<LocalModelEntry>::empty().filter(pred) =~= Seq::<
            LocalModelEntry,
        >::empty());
        assert(models@.subrange(0, i as int) =~= models@);
    }
}

/// Filtering an empty sequence, split form used by the retain loop.
pub proof fn lemma_filter_split<A>(s: Seq<A>, pred: spec_fn(A) -> bool, i: int)
    requires
        i == 0,
    ensures
        s.filter(pred) == s.subrange(0, 0) + s.subrange(0, s.len() as int).filter(pred),
{
    assert(s.subrange(0, s.len() as int) =~= s);
    assert(s.subrange(0, 0) =~= Seq::<A>::empty());
    assert(s.subrange(0, 0) + s.filter(pred) =~= s.filter(pred));
}

/// Filter of a non-empty sequence: head kept or dropped, then the rest.
pub proof fn lemma_filter_head<A>(s: Seq<A>, pred: spec_fn(A) -> bool)
    requires
        s.len() > 0,
    ensures
        s.filter(pred) == if pred(s[0]) {
            seq![s[0]] + s.drop_first().filter(pred)
        } else {
            s.drop_first().filter(pred)
        },
    decreases s.len(),
{
    if s.len() == 1 {
        assert(s.drop_first() =~= Seq::<A>::empty());
        reveal_with_fuel(Seq::filter, 2);
        assert(s.drop_last() =~= Seq::<A>::empty());
        assert(s.last() == s[0]);
        if pred(s[0]) {
            assert(s.filter(pred) =~= seq![s[0]] + s.drop_first().filter(pred));
        }
    } else {
        lemma_filter_head(s.drop_last(), pred);
        assert(s.drop_last()[0] == s[0]);
        assert(s.drop_first().drop_last() =~= s.drop_last().drop_first());
        lemma_filter_unfold(s, pred);
        lemma_filter_unfold(s.drop_first(), pred);
        assert(s.drop_first().last() == s.last());
        if pred(s[0]) {
            assert(seq![s[0]] + s.drop_first().filter(pred) =~= if pred(s.last()) {
                (seq![s[0]] + s.drop_first().drop_last().filter(pred)).push(s.last())
            } else {
                seq![s[0]] + s.drop_first().drop_last().filter(pred)
            });
        }
    }
}

/// One unfolding of `filter` from the back.
pub proof fn lemma_filter_unfold<A>(s: Seq<A>, pred: spec_fn(A) -> bool)
    requires
        s.len() > 0,
    ensures
        s.filter(pred) == if pred(s.last()) {
            s.drop_last().filter(pred).push(s.last())
        } else {
            s.drop_last().filter(pred)
        },
{
    reveal(Seq::filter);
}

/// Appending a kept element appends it to the filter.
pub proof fn lemma_filter_push_kept<A>(s: Seq<A>, x: A, pred: spec_fn(A) -> bool)
    requires
        pred(x),
    ensures
        s.push(x).filter(pred) == s.filter(pred).push(x),
{
    lemma_filter_unfold(s.push(x), pred);
    assert(s.push(x).drop_last() =~= s);
}


/// The id of a model: `repo_id:quantization`.
pub open spec fn model_id_spec(repo_id: Seq<char>, quantization: Seq<char>) -> Seq<char> {
    repo_id + ":"@ + quantization
}

/// Generate the unique id of a model from its repo and quantization.
pub fn model_id_from_repo(repo_id: &str, quantization: &str) -> (r: String)
    ensures
        r@ == model_id_spec(repo_id@, quantization@),
{
    let mut out = str_to_chars(repo_id);
    let colon = str_to_chars(":");
    let quant = str_to_chars(quantization);
    extend_chars(&mut out, &colon);
    extend_chars(&mut out, &quant);
    chars_to_string(&out)
}

/// The display name of a model: the repo's final segment with any
/// trailing `-GGUF` or `-gguf` removed, then the quantization in
/// parentheses.
pub open spec fn display_name_spec(repo_id: Seq<char>, quantization: Seq<char>) -> Seq<char> {
    let segment = match crate::text::rfind_spec(repo_id, "/"@) {
        Some(i) => repo_id.subrange(i + 1, repo_id.len() as int),
        None => repo_id,
    };
    let name = crate::text::strip_suffix_rep(
        crate::text::strip_suffix_rep(segment, "-GGUF"@),
        "-gguf"@,
    );
    name + " ("@ + quantization + ")"@
}

/// Generate a display name from a repo id and quantization.
pub fn display_name_from_repo(repo_id: &str, quantization: &str) -> (r: String)
    ensures
        r@ == display_name_spec(repo_id@, quantization@),
{
    proof {
        reveal_strlit("/");
        reveal_strlit("-GGUF");
        reveal_strlit("-gguf");
    }
    let repo = str_to_chars(repo_id);
    let slash = str_to_chars("/");
    let rl = repo.len();
    let segment = match rfind_sub_aligned(&repo, &slash) {
        Some(i) => crate::text::subrange_chars(&repo, i + 1, rl),
        None => {
            let w = crate::text::subrange_chars(&repo, 0, rl);
            proof {
                assert(w@ =~= repo@);
            }
            w
        },
    };
    let upper_tag = str_to_chars("-GGUF");
    let lower_tag = str_to_chars("-gguf");
    let name0 = strip_rep(&segment, &upper_tag);
    let name = strip_rep(&name0, &lower_tag);
    let mut out = name;
    let open_paren = str_to_chars(" (");
    let quant = str_to_chars(quantization);
    let close_paren = str_to_chars(")");
    extend_chars(&mut out, &open_paren);
    extend_chars(&mut out, &quant);
    extend_chars(&mut out, &close_paren);
    proof {
        assert(out@ =~= display_name_spec(repo_id@, quantization@));
    }
    chars_to_string(&out)
}

/// `rfind` aligned with `rfind_spec`, with in-range occurrence facts.
fn rfind_sub_aligned(hay: &Vec<char>, needle: &Vec<char>) -> (r: Option<usize>)
    requires
        needle@.len() > 0,
    ensures
        match r {
            Some(u) => crate::text::rfind_spec(hay@, needle@) == Some(u as int) && u
                + needle@.len() <= hay@.len(),
            None => crate::text::rfind_spec(hay@, needle@) is None,
        },
{
    let r = crate::text::rfind_exec(hay, needle);
    proof {
        if r is Some {
            crate::text::lemma_rfind_characterization(hay@, needle@);
        }
    }
    r
}

/// Two predicates that agree everywhere filter alike.
pub proof fn lemma_filter_congruence<A>(s: Seq<A>, p: spec_fn(A) -> bool, q: spec_fn(A) -> bool)
    requires
        forall|a: A| #[trigger] p(a) == q(a),
    ensures
        s.filter(p) == s.filter(q),
    decreases s.len(),
{
    reveal(Seq::filter);
    if s.len() > 0 {
        lemma_filter_congruence(s.drop_last(), p, q);
    }
}

/// Law: adding a model makes it retrievable. After `add_model(e)`,
/// `get_model(e.id)` finds an entry equal to `e` and `has_model(e.id)`
/// holds, whatever the registry held before.
pub proof fn lemma_add_model_then_get(models: Seq<LocalModelEntry>, entry: LocalModelEntry)
    ensures
        ({
            let after = match first_with_id(models, entry.id@) {
                Some(i) => models.update(i, entry),
                None => models.push(entry),
            };
            &&& has_id(after, entry.id@)
            &&& first_with_id(after, entry.id@) matches Some(j) && after[j] == entry
        }),
{
    lemma_first_with_id(models, entry.id@);
    let after = match first_with_id(models, entry.id@) {
        Some(i) => models.update(i, entry),
        None => models.push(entry),
    };
    lemma_first_with_id(after, entry.id@);
    match first_with_id(models, entry.id@) {
        Some(i) => {
            assert(after[i] == entry);
            assert(has_id(after, entry.id@));
            match first_with_id(after, entry.id@) {
                Some(j) => {
                    assert(j <= i) by {
                        if j > i {
                            assert(after[i].id@ != entry.id@);
                        }
                    }
                    assert(j >= i) by {
                        if j < i {
                            assert(after[j] == models[j]);
                            assert(models[j].id@ != entry.id@);
                        }
                    }
                },
                None => {
                    assert(false);
                },
            }
        },
        None => {
            let n = models.len() as int;
            assert(after[n] == entry);
            assert(has_id(after, entry.id@));
            match first_with_id(after, entry.id@) {
                Some(j) => {
                    assert(j >= n) by {
                        if j < n {
                            assert(after[j] == models[j]);
                            assert(!has_id(models, entry.id@));
                            assert(models[j].id@ != entry.id@);
                        }
                    }
                },
                None => {
                    assert(false);
                },
            }
        },
    }
}

} // verus!
