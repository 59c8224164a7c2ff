//! The input pipeline: cleaning, resolution, event attribution and
//! duplicate folding of a batch of raw items.
use crate::assets::AssetIndex;
use crate::events::{attribute_event, best_event, haystack_of, EventOutcome};
use crate::models::{CleanItem, DedupeGroup, RawSourceItem, UnresolvedRecord};
use crate::dedupe::{first_hit, fold_run, fold_step, DedupeState, Fold, FoldInputV, FoldV};
use crate::metrics::{build_metrics, RunMetrics};
use crate::resolve::{
    decision_of, evidence_of, gap_of, keys_of, ranked_games, ranked_keys, resolve_item,
    track_candidates_of, CandidateScore, DecisionV, EvidenceV, ResolutionOutcome,
};
use crate::strs::{concat, concat3, contains_string, has_prefix, join_strings, join_with, owned, str_eq};
use crate::text_utils::{
    fingerprint, fingerprint_of, infer_source_layer, normalize_author, normalize_content_type,
    normalize_platform, normalize_source_type, normalize_text, normalize_timestamp, semantic_basis,
    normalized_text_of, norm_lower, new_run_id, run_id_of, utc_now_iso, is_utc_stamp, platform_of, source_type_of, content_type_of,
    semantic_basis_of, source_layer_of, timestamp_of, tokenize, tokens_of,
};
use crate::urls::{extract_reference_urls, normalize_url, normalized_url_of, reference_urls_of};
use vstd::prelude::*;

verus! {

/// The pipeline, with the asset index it resolves against.
pub struct SPGInputPipeline {
    pub assets: AssetIndex,
}

/// The reference URLs of an item: those of its title and text, then its
/// original URL (normalized) when that is nonempty and not among them.
pub open spec fn with_original_url(refs: Seq<Seq<char>>, original: Option<Seq<char>>) -> Seq<
    Seq<char>,
> {
    match original {
        Some(o) => {
            let n = normalized_url_of(o);
            if n.len() > 0 && !refs.contains(n) {
                refs.push(n)
            } else {
                refs
            }
        },
        None => refs,
    }
}

/// The 24-digit fingerprint of one text.
pub open spec fn fp24(s: Seq<char>) -> Seq<char> {
    fingerprint_of(seq![s], 24)
}

pub open spec fn fingerprints_of(urls: Seq<Seq<char>>) -> Seq<Seq<char>> {
    urls.map_values(|u: Seq<char>| fp24(u))
}

impl CleanItem {
    /// The item is the cleaned form of `raw`.
    pub open spec fn cleans(&self, raw: RawSourceItem) -> bool {
        let platform = platform_of(raw.platform@);
        let source_type = source_type_of(raw.source_type@);
        let title = normalized_text_of(raw.title@);
        let text = normalized_text_of(raw.text@);
        let url = normalized_url_of(raw.url@);
        let refs = with_original_url(
            reference_urls_of(raw.title@ + " "@ + raw.text@),
            raw.original_url.deep_view(),
        );
        &&& self.clean_id@ == "clean_"@ + raw.source_id@
        &&& self.source_id@ == raw.source_id@
        &&& self.platform@ == platform
        &&& self.source_type@ == source_type
        &&& self.content_type@ == content_type_of(raw.content_type@)
        &&& self.source_layer@ == source_layer_of(source_type, platform)
        &&& self.title@ == raw.title@
        &&& self.text@ == raw.text@
        &&& self.author@ == raw.author@
        &&& self.published_at@ == raw.published_at@
        &&& self.normalized_published_at.deep_view() == timestamp_of(raw.published_at@)
        &&& self.url@ == raw.url@
        &&& self.normalized_title@ == title
        &&& self.normalized_text@ == text
        &&& self.normalized_author@ == norm_lower(raw.author@)
        &&& self.normalized_url@ == url
        &&& self.reference_urls.deep_view() == refs
        &&& self.title_tokens.deep_view() == tokens_of(title)
        &&& self.text_tokens.deep_view() == tokens_of(text)
        &&& self.title_fingerprint@ == fp24(title)
        &&& self.text_fingerprint@ == fp24(text)
        &&& self.url_fingerprint.deep_view() == (if url.len() == 0 {
            None
        } else {
            Some(fp24(url))
        })
        &&& self.reference_url_fingerprints.deep_view() == fingerprints_of(refs)
        &&& self.content_fingerprint@ == fingerprint_of(seq![title, text], 24)
    }
}

fn fingerprint24(s: &str) -> (r: String)
    ensures
        r@ == fp24(s@),
{
    let parts: [&str; 1] = [s];
    proof {
        assert(parts.deep_view() =~= seq![s@]);
    }
    fingerprint(&parts, 24)
}

fn url_fingerprints(urls: &Vec<String>) -> (r: Vec<String>)
    ensures
        r.deep_view() == fingerprints_of(urls.deep_view()),
{
    let ghost uv = urls.deep_view();
    let mut out: Vec<String> = Vec::new();
    let mut i: usize = 0;
    while i < urls.len()
        invariant
            uv == urls.deep_view(),
            i <= uv.len(),
            out.deep_view() == fingerprints_of(uv.take(i as int)),
        decreases uv.len() - i,
    {
        let f = fingerprint24(urls[i].as_str());
        let ghost before = out.deep_view();
        out.push(f);
        proof {
            assert(out.deep_view() =~= before.push(fp24(uv[i as int])));
            assert(uv.take(i + 1) =~= uv.take(i as int).push(uv[i as int]));
            assert(out.deep_view() =~= fingerprints_of(uv.take(i + 1)));
        }
        i += 1;
    }
    proof {
        assert(uv.take(uv.len() as int) == uv);
    }
    out
}

fn add_original_url(refs: &mut Vec<String>, original: &Option<String>)
    ensures
        final(refs).deep_view() == with_original_url(old(refs).deep_view(), original.deep_view()),
{
    match original {
        Some(o) => {
            let n = normalize_url(o.as_str());
            if !n.as_str().is_empty() && !contains_string(refs, n.as_str()) {
                let ghost before = refs.deep_view();
                refs.push(n);
                proof {
                    assert(refs.deep_view() =~= before.push(n@));
                }
            }
        },
        None => {},
    }
}

impl SPGInputPipeline {
    pub fn new(assets: AssetIndex) -> (r: SPGInputPipeline)
        ensures
            r.assets == assets,
    {
        SPGInputPipeline { assets }
    }

    /// Normalizes an item and computes its tokens and fingerprints.
    pub fn clean_item(&self, raw: &RawSourceItem) -> (r: CleanItem)
        ensures
            r.cleans(*raw),
    {
        let platform = normalize_platform(raw.platform.as_str());
        let source_type = normalize_source_type(raw.source_type.as_str());
        let content_type = normalize_content_type(raw.content_type.as_str());
        let source_layer = infer_source_layer(source_type.as_str(), platform.as_str());
        let normalized_title = normalize_text(raw.title.as_str());
        let normalized_text = normalize_text(raw.text.as_str());
        let normalized_author = normalize_author(raw.author.as_str());
        let normalized_url = normalize_url(raw.url.as_str());
        let joined = concat3(raw.title.as_str(), " ", raw.text.as_str());
        let mut reference_urls = extract_reference_urls(joined.as_str());
        add_original_url(&mut reference_urls, &raw.original_url);
        let normalized_published_at = normalize_timestamp(raw.published_at.as_str());
        let title_tokens = tokenize(normalized_title.as_str());
        let text_tokens = tokenize(normalized_text.as_str());
        let title_fingerprint = fingerprint24(normalized_title.as_str());
        let text_fingerprint = fingerprint24(normalized_text.as_str());
        let url_fingerprint = if normalized_url.as_str().is_empty() {
            None
        } else {
            Some(fingerprint24(normalized_url.as_str()))
        };
        let reference_url_fingerprints = url_fingerprints(&reference_urls);
        let parts: [&str; 2] = [normalized_title.as_str(), normalized_text.as_str()];
        proof {
            assert(parts.deep_view() =~= seq![normalized_title@, normalized_text@]);
        }
        let content_fingerprint = fingerprint(&parts, 24);
        CleanItem {
            clean_id: concat("clean_", raw.source_id.as_str()),
            source_id: raw.source_id.clone(),
            platform,
            source_type,
            content_type,
            source_layer,
            title: raw.title.clone(),
            text: raw.text.clone(),
            author: raw.author.clone(),
            published_at: raw.published_at.clone(),
            normalized_published_at,
            url: raw.url.clone(),
            normalized_title,
            normalized_text,
            normalized_author,
            normalized_url,
            reference_urls,
            title_tokens,
            text_tokens,
            title_fingerprint,
            text_fingerprint,
            url_fingerprint,
            reference_url_fingerprints,
            content_fingerprint,
        }
    }

    /// Resolves the games (or track) a clean item is about.
    pub fn resolve_candidates(&self, clean: &CleanItem) -> (r: ResolutionOutcome)
        ensures
            r.resolves(
                self.assets,
                evidence_of(
                    self.assets,
                    clean.normalized_author@,
                    clean.normalized_url@,
                    clean.normalized_title@,
                    clean.normalized_text@,
                ),
                clean.source_layer@,
            ),
    {
        resolve_item(
            &self.assets,
            clean.normalized_author.as_str(),
            clean.normalized_url.as_str(),
            clean.normalized_title.as_str(),
            clean.normalized_text.as_str(),
            clean.source_layer.as_str(),
        )
    }

    /// Attributes an event to a clean item.
    pub fn attribute_event(&self, clean: &CleanItem) -> (r: EventOutcome)
        ensures
            r.attributes(
                best_event(
                    self.assets.event_rules.deep_view(),
                    haystack_of(clean.normalized_title@, clean.normalized_text@),
                ),
            ),
    {
        attribute_event(&self.assets, clean.normalized_title.as_str(), clean.normalized_text.as_str())
    }
}

// ---------------------------------------------------------------------------
// signals

/// One step of a signal's trace: the stage and what it decided.
pub struct TraceStep {
    pub stage: String,
    pub decision: String,
}

impl DeepView for TraceStep {
    type V = (Seq<char>, Seq<char>);

    open spec fn deep_view(&self) -> (Seq<char>, Seq<char>) {
        (self.stage@, self.decision@)
    }
}

/// A resolved, attributed and folded item.
pub struct SourceSignal {
    pub signal_id: String,
    pub run_id: String,
    pub asset_version: String,
    pub rule_version: String,
    pub raw_source_ids: Vec<String>,
    pub platform: String,
    pub source_layer: String,
    pub source_type: String,
    pub content_type: String,
    pub title: String,
    pub text: String,
    pub author: String,
    pub published_at: String,
    pub normalized_published_at: Option<String>,
    pub url: String,
    pub scope: String,
    pub track_id: Option<String>,
    pub track_candidates: Vec<String>,
    pub dedupe_key: String,
    pub information_key: String,
    pub dup_group_id: String,
    pub canonical_signal_id: String,
    pub dup_rank: i64,
    pub duplicate_type: String,
    pub game_candidates: Vec<String>,
    pub resolved_game_id: Option<String>,
    pub entity_resolution_method: String,
    /// In hundredths.
    pub entity_resolution_confidence: u32,
    pub event_type: Option<String>,
    pub attribution_keywords: Vec<String>,
    pub unresolved_reason: Option<String>,
    pub state: String,
    pub trace: Vec<TraceStep>,
    pub created_at: String,
    /// The scored candidates behind the resolution.
    pub candidate_scores: Vec<CandidateScore>,
    /// The gap between the top two candidates, in hundredths.
    pub resolution_gap: u32,
    pub primary_content_key: String,
    pub matched_content_key: Option<String>,
    pub content_keys: Vec<String>,
}

pub open spec fn content_fp_of(raw: RawSourceItem) -> Seq<char> {
    fingerprint_of(seq![normalized_text_of(raw.title@), normalized_text_of(raw.text@)], 24)
}

/// The signal id: `sig_` and a fingerprint of run, source and content.
pub open spec fn signal_id_of(run_id: Seq<char>, raw: RawSourceItem) -> Seq<char> {
    "sig_"@ + fingerprint_of(seq![run_id, raw.source_id@, content_fp_of(raw)], 20)
}

pub open spec fn url_fp_of(raw: RawSourceItem) -> Option<Seq<char>> {
    let url = normalized_url_of(raw.url@);
    if url.len() == 0 {
        None
    } else {
        Some(fp24(url))
    }
}

pub open spec fn refs_of(raw: RawSourceItem) -> Seq<Seq<char>> {
    with_original_url(reference_urls_of(raw.title@ + " "@ + raw.text@), raw.original_url.deep_view())
}

pub open spec fn url_keys(fps: Seq<Seq<char>>) -> Seq<Seq<char>> {
    fps.map_values(|f: Seq<char>| "url::"@ + f)
}

/// The content keys of an item: its URL, its reference URLs, its content.
pub open spec fn content_keys_of(raw: RawSourceItem) -> Seq<Seq<char>> {
    let own = match url_fp_of(raw) {
        Some(f) => seq!["url::"@ + f],
        None => Seq::<Seq<char>>::empty(),
    };
    own + url_keys(fingerprints_of(refs_of(raw))) + seq!["content::"@ + content_fp_of(raw)]
}

/// The item's own content key: its URL, else its content.
pub open spec fn primary_key_of(raw: RawSourceItem) -> Seq<char> {
    match url_fp_of(raw) {
        Some(f) => "url::"@ + f,
        None => "content::"@ + content_fp_of(raw),
    }
}

pub open spec fn layer_of(raw: RawSourceItem) -> Seq<char> {
    source_layer_of(source_type_of(raw.source_type@), platform_of(raw.platform@))
}

pub open spec fn evidence_for_raw(assets: AssetIndex, raw: RawSourceItem) -> Seq<EvidenceV> {
    evidence_of(
        assets,
        norm_lower(raw.author@),
        normalized_url_of(raw.url@),
        normalized_text_of(raw.title@),
        normalized_text_of(raw.text@),
    )
}

pub open spec fn decision_for(assets: AssetIndex, raw: RawSourceItem) -> DecisionV {
    decision_of(assets, evidence_for_raw(assets, raw), layer_of(raw))
}

pub open spec fn event_for(assets: AssetIndex, raw: RawSourceItem) -> Option<
    (Seq<char>, Seq<Seq<char>>),
> {
    best_event(
        assets.event_rules.deep_view(),
        haystack_of(normalized_text_of(raw.title@), normalized_text_of(raw.text@)),
    )
}

/// What the information key is about: the game, else the track, else the
/// source.
pub open spec fn info_basis_of(d: DecisionV, source_id: Seq<char>) -> Seq<char> {
    match d.game {
        Some(g) => "game::"@ + g,
        None => match d.track {
            Some(t) => "track::"@ + t,
            None => "source::"@ + source_id,
        },
    }
}

/// The information key: what the item is about, its event (or `general`)
/// and a fingerprint of its semantic basis.
pub open spec fn information_key_of(assets: AssetIndex, raw: RawSourceItem) -> Seq<char> {
    let event_key = match event_for(assets, raw) {
        Some(b) => b.0,
        None => "general"@,
    };
    let basis = semantic_basis_of(normalized_text_of(raw.title@), normalized_text_of(raw.text@));
    "info::"@ + info_basis_of(decision_for(assets, raw), raw.source_id@) + "::"@ + event_key
        + "::"@ + fingerprint_of(seq![basis], 20)
}

pub open spec fn fold_input_of(assets: AssetIndex, run_id: Seq<char>, raw: RawSourceItem) -> FoldInputV {
    FoldInputV {
        signal_id: signal_id_of(run_id, raw),
        source_id: raw.source_id@,
        content_keys: content_keys_of(raw),
        information_key: information_key_of(assets, raw),
    }
}

pub open spec fn fold_inputs(assets: AssetIndex, run_id: Seq<char>, items: Seq<RawSourceItem>) -> Seq<
    FoldInputV,
> {
    items.map_values(|raw: RawSourceItem| fold_input_of(assets, run_id, raw))
}

/// The state of a signal: folded, else canonical (a game), track level, or
/// unresolved.
pub open spec fn state_of(fold: FoldV, d: DecisionV) -> Seq<char> {
    if fold.duplicate_type != "none"@ {
        "folded"@
    } else if d.game is Some {
        "canonical"@
    } else if d.track is Some {
        "track_level"@
    } else {
        "unresolved"@
    }
}

/// The stages of a signal's trace and their decisions.
pub open spec fn trace_of(d: DecisionV, event: Option<(Seq<char>, Seq<Seq<char>>)>, fold: FoldV) -> Seq<
    (Seq<char>, Seq<char>),
> {
    seq![
        ("clean"@, "normalized"@),
        ("candidate_identification"@, "scored_candidates"@),
        ("entity_resolution"@, d.method),
        (
            "event_attribution"@,
            match event {
                Some(b) => b.0,
                None => "no_event"@,
            },
        ),
        (
            "dedupe"@,
            if fold.duplicate_type == "none"@ {
                "canonical"@
            } else {
                fold.duplicate_type
            },
        ),
    ]
}

/// The version of the rules.
pub open spec fn rule_version_text() -> Seq<char> {
    "v0.1.0"@
}

/// A resolution-log record: one step of the trace of one signal.
pub struct ResolutionLog {
    pub run_id: String,
    pub asset_version: String,
    pub rule_version: String,
    pub signal_id: String,
    pub source_id: String,
    pub stage: String,
    pub decision: String,
    pub created_at: String,
}

/// What a resolution-log record says, but for the instant it was made.
#[verifier::ext_equal]
pub struct LogV {
    pub run_id: Seq<char>,
    pub asset_version: Seq<char>,
    pub rule_version: Seq<char>,
    pub signal_id: Seq<char>,
    pub source_id: Seq<char>,
    pub stage: Seq<char>,
    pub decision: Seq<char>,
}

impl DeepView for ResolutionLog {
    type V = LogV;

    open spec fn deep_view(&self) -> LogV {
        LogV {
            run_id: self.run_id@,
            asset_version: self.asset_version@,
            rule_version: self.rule_version@,
            signal_id: self.signal_id@,
            source_id: self.source_id@,
            stage: self.stage@,
            decision: self.decision@,
        }
    }
}

/// The record of trace step `step` of signal `signal_id`, from source
/// `source_id`, in run `run_id` against assets of version `asset_version`.
pub open spec fn log_step(
    asset_version: Seq<char>,
    run_id: Seq<char>,
    signal_id: Seq<char>,
    source_id: Seq<char>,
    step: (Seq<char>, Seq<char>),
) -> LogV {
    LogV {
        run_id,
        asset_version,
        rule_version: rule_version_text(),
        signal_id,
        source_id,
        stage: step.0,
        decision: step.1,
    }
}

/// The record of trace step `step` of the signal of item `raw`.
pub open spec fn log_of(assets: AssetIndex, run_id: Seq<char>, raw: RawSourceItem, step: (
    Seq<char>,
    Seq<char>,
)) -> LogV {
    log_step(assets.asset_version@, run_id, signal_id_of(run_id, raw), raw.source_id@, step)
}

/// The records of the signal of item `raw`, folded as `fold`: one per
/// trace step, in order.
pub open spec fn item_logs(assets: AssetIndex, run_id: Seq<char>, raw: RawSourceItem, fold: FoldV) -> Seq<
    LogV,
> {
    trace_of(decision_for(assets, raw), event_for(assets, raw), fold).map_values(
        |step: (Seq<char>, Seq<char>)| log_of(assets, run_id, raw, step),
    )
}

/// The records of a run: those of each item in turn, `folds[i]` saying how
/// `items[i]` was folded.
pub open spec fn run_logs(
    assets: AssetIndex,
    run_id: Seq<char>,
    items: Seq<RawSourceItem>,
    folds: Seq<FoldV>,
) -> Seq<LogV>
    decreases items.len(),
{
    if items.len() == 0 || folds.len() == 0 {
        Seq::<LogV>::empty()
    } else {
        run_logs(assets, run_id, items.drop_last(), folds.drop_last()) + item_logs(
            assets,
            run_id,
            items.last(),
            folds.last(),
        )
    }
}

impl SourceSignal {
    /// The signal is item `raw` of run `run_id`, resolved against `assets`,
    /// folded as `fold` says.
    pub open spec fn describes(
        &self,
        assets: AssetIndex,
        run_id: Seq<char>,
        raw: RawSourceItem,
        fold: FoldV,
    ) -> bool {
        let d = decision_for(assets, raw);
        let evs = evidence_for_raw(assets, raw);
        let event = event_for(assets, raw);
        &&& self.signal_id@ == signal_id_of(run_id, raw)
        &&& self.run_id@ == run_id
        &&& self.asset_version@ == assets.asset_version@
        &&& self.rule_version@ == rule_version_text()
        &&& self.raw_source_ids.deep_view() == seq![raw.source_id@]
        &&& self.platform@ == platform_of(raw.platform@)
        &&& self.source_layer@ == layer_of(raw)
        &&& self.source_type@ == source_type_of(raw.source_type@)
        &&& self.content_type@ == content_type_of(raw.content_type@)
        &&& self.title@ == raw.title@
        &&& self.text@ == raw.text@
        &&& self.author@ == raw.author@
        &&& self.published_at@ == raw.published_at@
        &&& self.normalized_published_at.deep_view() == timestamp_of(raw.published_at@)
        &&& self.url@ == raw.url@
        &&& self.scope@ == d.scope
        &&& self.track_id.deep_view() == d.track
        &&& self.track_candidates.deep_view() == track_candidates_of(assets, ranked_games(evs))
        &&& self.dedupe_key@ == (match fold.matched {
            Some(k) => k,
            None => primary_key_of(raw),
        })
        &&& self.information_key@ == information_key_of(assets, raw)
        &&& self.dup_group_id@ == fold.group_id
        &&& self.canonical_signal_id@ == fold.canonical
        &&& self.dup_rank == fold.rank
        &&& self.duplicate_type@ == fold.duplicate_type
        &&& self.game_candidates.deep_view() == ranked_games(evs)
        &&& self.resolved_game_id.deep_view() == d.game
        &&& self.entity_resolution_method@ == d.method
        &&& self.entity_resolution_confidence == d.confidence
        &&& self.event_type.deep_view() == (match event {
            Some(b) => Some(b.0),
            None => None,
        })
        &&& self.attribution_keywords.deep_view() == (match event {
            Some(b) => b.1,
            None => Seq::<Seq<char>>::empty(),
        })
        &&& self.unresolved_reason.deep_view() == d.reason
        &&& self.state@ == state_of(fold, d)
        &&& self.trace.deep_view() == trace_of(d, event, fold)
        &&& keys_of(self.candidate_scores.deep_view()) == ranked_keys(evs)
        &&& self.resolution_gap == gap_of(evs)
        &&& self.primary_content_key@ == primary_key_of(raw)
        &&& self.matched_content_key.deep_view() == fold.matched
        &&& self.content_keys.deep_view() == content_keys_of(raw)
    }
}

impl UnresolvedRecord {
    /// The record reports item `raw` of run `run_id` as unresolved.
    pub open spec fn reports(&self, assets: AssetIndex, run_id: Seq<char>, raw: RawSourceItem) -> bool {
        let d = decision_for(assets, raw);
        let evs = evidence_for_raw(assets, raw);
        &&& d.reason is Some
        &&& self.unresolved_id@ == "unresolved_"@ + signal_id_of(run_id, raw)
        &&& self.run_id@ == run_id
        &&& self.asset_version@ == assets.asset_version@
        &&& self.rule_version@ == rule_version_text()
        &&& self.source_id@ == raw.source_id@
        &&& self.title@ == raw.title@
        &&& self.platform@ == platform_of(raw.platform@)
        &&& self.track_id.deep_view() == d.track
        &&& self.track_candidates.deep_view() == track_candidates_of(assets, ranked_games(evs))
        &&& self.reason@ == d.reason.unwrap()
        &&& self.candidate_game_ids.deep_view() == ranked_games(evs)
    }
}

/// The version of the rules.
pub fn rule_version() -> (r: String)
    ensures
        r@ == rule_version_text(),
{
    owned("v0.1.0")
}

fn copy_strings_of(v: &Vec<String>) -> (r: Vec<String>)
    ensures
        r.deep_view() == v.deep_view(),
{
    crate::models::copy_strings(v)
}

fn prefixed_keys(out: &mut Vec<String>, fps: &Vec<String>)
    ensures
        final(out).deep_view() == old(out).deep_view() + url_keys(fps.deep_view()),
{
    let ghost start = out.deep_view();
    let ghost fv = fps.deep_view();
    let mut i: usize = 0;
    while i < fps.len()
        invariant
            fv == fps.deep_view(),
            i <= fv.len(),
            out.deep_view() == start + url_keys(fv.take(i as int)),
        decreases fv.len() - i,
    {
        let k = concat("url::", fps[i].as_str());
        let ghost before = out.deep_view();
        out.push(k);
        proof {
            assert(out.deep_view() =~= before.push("url::"@ + fv[i as int]));
            assert(fv.take(i + 1) =~= fv.take(i as int).push(fv[i as int]));
            assert(url_keys(fv.take(i + 1)) =~= url_keys(fv.take(i as int)).push(
                "url::"@ + fv[i as int],
            ));
        }
        i += 1;
    }
    proof {
        assert(fv.take(fv.len() as int) == fv);
    }
}

fn step(stage: &str, decision: &str) -> (r: TraceStep)
    ensures
        r.deep_view() == (stage@, decision@),
{
    TraceStep { stage: owned(stage), decision: owned(decision) }
}

/// The trace steps of a signal.
fn trace_steps(method: &str, event_type: &Option<String>, duplicate_type: &str) -> (r: Vec<
    TraceStep,
>)
    ensures
        r.deep_view() == seq![
            ("clean"@, "normalized"@),
            ("candidate_identification"@, "scored_candidates"@),
            ("entity_resolution"@, method@),
            (
                "event_attribution"@,
                match event_type.deep_view() {
                    Some(k) => k,
                    None => "no_event"@,
                },
            ),
            (
                "dedupe"@,
                if duplicate_type@ == "none"@ {
                    "canonical"@
                } else {
                    duplicate_type@
                },
            ),
        ],
{
    let mut v: Vec<TraceStep> = Vec::new();
    v.push(step("clean", "normalized"));
    v.push(step("candidate_identification", "scored_candidates"));
    v.push(step("entity_resolution", method));
    match event_type {
        Some(k) => v.push(step("event_attribution", k.as_str())),
        None => v.push(step("event_attribution", "no_event")),
    }
    if str_eq(duplicate_type, "none") {
        v.push(step("dedupe", "canonical"));
    } else {
        v.push(step("dedupe", duplicate_type));
    }
    proof {
        assert(v.deep_view() =~= seq![
            ("clean"@, "normalized"@),
            ("candidate_identification"@, "scored_candidates"@),
            ("entity_resolution"@, method@),
            (
                "event_attribution"@,
                match event_type.deep_view() {
                    Some(k) => k,
                    None => "no_event"@,
                },
            ),
            (
                "dedupe"@,
                if duplicate_type@ == "none"@ {
                    "canonical"@
                } else {
                    duplicate_type@
                },
            ),
        ]);
    }
    v
}

/// The processed form of one item.
pub struct ProcessedItem {
    pub clean: CleanItem,
    pub signal: SourceSignal,
    pub unresolved: Option<UnresolvedRecord>,
    pub logs: Vec<ResolutionLog>,
}

impl SPGInputPipeline {
    /// The content keys and information key of a clean item.
    fn keys_for(
        &self,
        raw: &RawSourceItem,
        clean: &CleanItem,
        res: &ResolutionOutcome,
        event: &EventOutcome,
    ) -> (r: (Vec<String>, String, String))
        requires
            clean.cleans(*raw),
            res.resolves(self.assets, evidence_for_raw(self.assets, *raw), layer_of(*raw)),
            event.attributes(event_for(self.assets, *raw)),
        ensures
            r.0.deep_view() == content_keys_of(*raw),
            r.1@ == primary_key_of(*raw),
            r.2@ == information_key_of(self.assets, *raw),
    {
        let mut keys: Vec<String> = Vec::new();
        let primary = match &clean.url_fingerprint {
            Some(f) => {
                keys.push(concat("url::", f.as_str()));
                concat("url::", f.as_str())
            },
            None => concat("content::", clean.content_fingerprint.as_str()),
        };
        let ghost own = keys.deep_view();
        proof {
            assert(own =~= match url_fp_of(*raw) {
                Some(f) => seq!["url::"@ + f],
                None => Seq::<Seq<char>>::empty(),
            });
        }
        prefixed_keys(&mut keys, &clean.reference_url_fingerprints);
        let ghost mid = keys.deep_view();
        keys.push(concat("content::", clean.content_fingerprint.as_str()));
        proof {
            assert(keys.deep_view() =~= mid.push("content::"@ + content_fp_of(*raw)));
            assert(keys.deep_view() =~= content_keys_of(*raw));
        }
        let basis = match &res.resolved_game_id {
            Some(g) => concat("game::", g.as_str()),
            None => match &res.resolved_track_id {
                Some(t) => concat("track::", t.as_str()),
                None => concat("source::", raw.source_id.as_str()),
            },
        };
        let event_key = match &event.event_type {
            Some(k) => k.clone(),
            None => owned("general"),
        };
        let semantic = semantic_basis(clean.normalized_title.as_str(), clean.normalized_text.as_str());
        let parts: [&str; 1] = [semantic.as_str()];
        proof {
            assert(parts.deep_view() =~= seq![semantic@]);
        }
        let sfp = fingerprint(&parts, 20);
        let a = concat3("info::", basis.as_str(), "::");
        let b = concat3(a.as_str(), event_key.as_str(), "::");
        let info = concat(b.as_str(), sfp.as_str());
        (keys, primary, info)
    }

    /// The resolution-log records of a signal: one per step of its trace.
    fn trace_logs(
        &self,
        trace: &Vec<TraceStep>,
        run_id: &str,
        signal_id: &str,
        source_id: &str,
        now: &str,
    ) -> (r: Vec<ResolutionLog>)
        ensures
            r.deep_view() == trace.deep_view().map_values(
                |step: (Seq<char>, Seq<char>)|
                    log_step(self.assets.asset_version@, run_id@, signal_id@, source_id@, step),
            ),
            forall|j: int| 0 <= j < r@.len() ==> (#[trigger] r@[j]).created_at@ == now@,
    {
        let ghost tv = trace.deep_view();
        let ghost av = self.assets.asset_version@;
        let mut out: Vec<ResolutionLog> = Vec::new();
        let mut j: usize = 0;
        while j < trace.len()
            invariant
                j <= tv.len(),
                tv == trace.deep_view(),
                av == self.assets.asset_version@,
                out.deep_view() == tv.take(j as int).map_values(
                    |step: (Seq<char>, Seq<char>)| log_step(av, run_id@, signal_id@, source_id@, step),
                ),
                forall|i: int| 0 <= i < out@.len() ==> (#[trigger] out@[i]).created_at@ == now@,
            decreases tv.len() - j,
        {
            let ghost before = out.deep_view();
            let e = ResolutionLog {
                run_id: owned(run_id),
                asset_version: self.assets.asset_version.clone(),
                rule_version: rule_version(),
                signal_id: owned(signal_id),
                source_id: owned(source_id),
                stage: trace[j].stage.clone(),
                decision: trace[j].decision.clone(),
                created_at: owned(now),
            };
            out.push(e);
            proof {
                let ghost x = log_step(av, run_id@, signal_id@, source_id@, tv[j as int]);
                assert(trace@[j as int].deep_view() == tv[j as int]);
                assert(e.deep_view() =~= x);
                assert(out.deep_view() =~= before.push(x));
                assert(tv.take(j + 1) =~= tv.take(j as int).push(tv[j as int]));
                assert(tv.take(j + 1).map_values(
                    |step: (Seq<char>, Seq<char>)| log_step(av, run_id@, signal_id@, source_id@, step),
                ) =~= tv.take(j as int).map_values(
                    |step: (Seq<char>, Seq<char>)| log_step(av, run_id@, signal_id@, source_id@, step),
                ).push(x));
            }
            j += 1;
        }
        proof {
            assert(tv.take(tv.len() as int) == tv);
        }
        out
    }

    /// Cleans, resolves, attributes and folds one item.
    #[verifier::rlimit(60)]
    fn process_item(
        &self,
        raw: &RawSourceItem,
        run_id: &str,
        state: &mut DedupeState,
        now: &str,
    ) -> (r: ProcessedItem)
        requires
            old(state).groups@.len() < usize::MAX,
        ensures
            r.clean.cleans(*raw),
            r.signal.created_at@ == now@,
            r.unresolved matches Some(u) ==> u.created_at@ == now@,
            forall|j: int|
                0 <= j < final(state).groups@.len() ==> #[trigger] final(state).groups@[j].created_at@
                    == now@ || (j < old(state).groups@.len() && final(state).groups@[j].created_at@
                    == old(state).groups@[j].created_at@),
            (final(state).view_state(), r.signal.fold_of()) == fold_step(
                old(state).view_state(),
                fold_input_of(self.assets, run_id@, *raw),
                run_id@,
            ),
            r.signal.describes(self.assets, run_id@, *raw, r.signal.fold_of()),
            final(state).groups@.len() <= old(state).groups@.len() + 1,
            r.unresolved is Some <==> decision_for(self.assets, *raw).reason is Some,
            r.unresolved matches Some(u) ==> u.reports(self.assets, run_id@, *raw),
            r.logs.deep_view() == item_logs(self.assets, run_id@, *raw, r.signal.fold_of()),
            forall|j: int| 0 <= j < r.logs@.len() ==> (#[trigger] r.logs@[j]).created_at@ == now@,
    {
        let clean = self.clean_item(raw);
        let res = self.resolve_candidates(&clean);
        let event = self.attribute_event(&clean);
        let parts: [&str; 3] = [run_id, raw.source_id.as_str(), clean.content_fingerprint.as_str()];
        proof {
            assert(parts.deep_view() =~= seq![run_id@, raw.source_id@, content_fp_of(*raw)]);
        }
        let sfp = fingerprint(&parts, 20);
        let signal_id = concat("sig_", sfp.as_str());
        let (content_keys, primary, information_key) = self.keys_for(raw, &clean, &res, &event);
        let fold = state.fold(
            signal_id.as_str(),
            raw.source_id.as_str(),
            &content_keys,
            information_key.as_str(),
            run_id,
            now,
        );
        let dedupe_key = match &fold.matched_content_key {
            Some(k) => k.clone(),
            None => primary.clone(),
        };
        let folded = !str_eq(fold.duplicate_type.as_str(), "none");
        let state_text = if folded {
            owned("folded")
        } else if res.resolved_game_id.is_some() {
            owned("canonical")
        } else if res.resolved_track_id.is_some() {
            owned("track_level")
        } else {
            owned("unresolved")
        };
        let trace = trace_steps(
            res.method.as_str(),
            &event.event_type,
            fold.duplicate_type.as_str(),
        );
        proof {
            let ev = event_for(self.assets, *raw);
            assert((match event.event_type.deep_view() {
                Some(k) => k,
                None => "no_event"@,
            }) == (match ev {
                Some(b) => b.0,
                None => "no_event"@,
            }));
            assert(trace.deep_view() =~= trace_of(decision_for(self.assets, *raw), ev, fold.view_fold()));
        }
        let logs = self.trace_logs(&trace, run_id, signal_id.as_str(), raw.source_id.as_str(), now);
        let unresolved = match &res.unresolved_reason {
            Some(reason) => Some(
                UnresolvedRecord {
                    unresolved_id: concat("unresolved_", signal_id.as_str()),
                    run_id: owned(run_id),
                    asset_version: self.assets.asset_version.clone(),
                    rule_version: rule_version(),
                    source_id: raw.source_id.clone(),
                    title: raw.title.clone(),
                    platform: clean.platform.clone(),
                    track_id: res.resolved_track_id.clone(),
                    track_candidates: copy_strings_of(&res.track_candidates),
                    reason: reason.clone(),
                    candidate_game_ids: copy_strings_of(&res.candidates),
                    created_at: owned(now),
                },
            ),
            None => None,
        };
        proof {
            if event_for(self.assets, *raw) is None {
                assert(event.keywords.deep_view() =~= Seq::<Seq<char>>::empty());
            }
        }
        let mut raw_source_ids: Vec<String> = Vec::new();
        raw_source_ids.push(raw.source_id.clone());
        proof {
            assert(raw_source_ids.deep_view() =~= seq![raw.source_id@]);
        }
        let signal = SourceSignal {
            signal_id,
            run_id: owned(run_id),
            asset_version: self.assets.asset_version.clone(),
            rule_version: rule_version(),
            raw_source_ids,
            platform: clean.platform.clone(),
            source_layer: clean.source_layer.clone(),
            source_type: clean.source_type.clone(),
            content_type: clean.content_type.clone(),
            title: clean.title.clone(),
            text: clean.text.clone(),
            author: clean.author.clone(),
            published_at: clean.published_at.clone(),
            normalized_published_at: clean.normalized_published_at.clone(),
            url: clean.url.clone(),
            scope: res.scope,
            track_id: res.resolved_track_id,
            track_candidates: res.track_candidates,
            dedupe_key,
            information_key,
            dup_group_id: fold.dup_group_id,
            canonical_signal_id: fold.canonical_signal_id,
            dup_rank: fold.dup_rank,
            duplicate_type: fold.duplicate_type,
            game_candidates: res.candidates,
            resolved_game_id: res.resolved_game_id,
            entity_resolution_method: res.method,
            entity_resolution_confidence: res.confidence,
            event_type: event.event_type,
            attribution_keywords: event.keywords,
            unresolved_reason: res.unresolved_reason,
            state: state_text,
            trace,
            created_at: owned(now),
            candidate_scores: res.scored,
            resolution_gap: res.gap,
            primary_content_key: primary,
            matched_content_key: fold.matched_content_key,
            content_keys,
        };
        proof {
            assert(logs.deep_view() =~= item_logs(self.assets, run_id@, *raw, signal.fold_of()));
        }
        ProcessedItem { clean, signal, unresolved, logs }
    }
}

impl SourceSignal {
    /// How the signal was folded.
    pub open spec fn fold_of(&self) -> FoldV {
        FoldV {
            duplicate_type: self.duplicate_type@,
            canonical: self.canonical_signal_id@,
            matched: self.matched_content_key.deep_view(),
            group_id: self.dup_group_id@,
            rank: self.dup_rank as int,
        }
    }
}

/// The result of processing a batch of items.
pub struct PipelineRunResult {
    pub run_id: String,
    pub asset_version: String,
    pub rule_version: String,
    pub run_created_at: String,
    pub raw_items: Vec<RawSourceItem>,
    pub clean_items: Vec<CleanItem>,
    pub signals: Vec<SourceSignal>,
    pub dedupe_groups: Vec<DedupeGroup>,
    pub resolution_logs: Vec<ResolutionLog>,
    pub unresolved_records: Vec<UnresolvedRecord>,
    pub metrics: RunMetrics,
}

pub open spec fn source_ids_of(items: Seq<RawSourceItem>) -> Seq<Seq<char>> {
    items.map_values(|raw: RawSourceItem| raw.source_id@)
}

/// The positions of the items that resolution leaves unresolved.
pub open spec fn unresolved_positions(assets: AssetIndex, items: Seq<RawSourceItem>) -> Seq<int>
    decreases items.len(),
{
    if items.len() == 0 {
        Seq::<int>::empty()
    } else {
        let p = unresolved_positions(assets, items.drop_last());
        if decision_for(assets, items.last()).reason is Some {
            p.push(items.len() - 1)
        } else {
            p
        }
    }
}

impl PipelineRunResult {
    /// The result is the processing of `items` against `assets` under its
    /// own run id.
    pub open spec fn processes(&self, assets: AssetIndex, items: Seq<RawSourceItem>) -> bool {
        let run = self.run_id@;
        let folded = fold_run(fold_inputs(assets, run, items), run);
        let ups = unresolved_positions(assets, items);
        &&& exists|n: int| run == run_id_of(n, join_with(source_ids_of(items), "|"@))
        &&& is_utc_stamp(self.run_created_at@)
        &&& self.asset_version@ == assets.asset_version@
        &&& self.rule_version@ == rule_version_text()
        &&& self.raw_items@ == items
        &&& self.clean_items@.len() == items.len()
        &&& forall|i: int| 0 <= i < items.len() ==> #[trigger] self.clean_items@[i].cleans(items[i])
        &&& self.signals@.len() == items.len()
        &&& forall|i: int|
            0 <= i < items.len() ==> #[trigger] self.signals@[i].describes(
                assets,
                run,
                items[i],
                folded.1[i],
            )
        &&& self.dedupe_groups.deep_view() == folded.0.groups
        &&& self.resolution_logs.deep_view() == run_logs(assets, run, items, folded.1)
        &&& self.unresolved_records@.len() == ups.len()
        &&& forall|k: int|
            0 <= k < ups.len() ==> #[trigger] self.unresolved_records@[k].reports(
                assets,
                run,
                items[ups[k]],
            )
        &&& self.metrics.summarizes(self.signals@)
        &&& forall|i: int|
            0 <= i < self.signals@.len() ==> is_utc_stamp(#[trigger] self.signals@[i].created_at@)
        &&& forall|j: int|
            0 <= j < self.dedupe_groups@.len() ==> is_utc_stamp(
                #[trigger] self.dedupe_groups@[j].created_at@,
            )
        &&& forall|k: int|
            0 <= k < self.unresolved_records@.len() ==> is_utc_stamp(
                #[trigger] self.unresolved_records@[k].created_at@,
            )
        &&& forall|k: int|
            0 <= k < self.resolution_logs@.len() ==> is_utc_stamp(
                #[trigger] self.resolution_logs@[k].created_at@,
            )
    }
}

fn source_id_list(items: &Vec<RawSourceItem>) -> (r: Vec<String>)
    ensures
        r.deep_view() == source_ids_of(items@),
{
    let mut out: Vec<String> = Vec::new();
    let mut i: usize = 0;
    while i < items.len()
        invariant
            i <= items@.len(),
            out.deep_view() == source_ids_of(items@.take(i as int)),
        decreases items@.len() - i,
    {
        let ghost before = out.deep_view();
        out.push(items[i].source_id.clone());
        proof {
            assert(out.deep_view() =~= before.push(items@[i as int].source_id@));
            assert(items@.take(i + 1) =~= items@.take(i as int).push(items@[i as int]));
            assert(source_ids_of(items@.take(i + 1)) =~= source_ids_of(items@.take(i as int)).push(
                items@[i as int].source_id@,
            ));
        }
        i += 1;
    }
    proof {
        assert(items@.take(items@.len() as int) == items@);
    }
    out
}

impl SPGInputPipeline {
    /// Processes a batch of items in order: cleans, resolves and attributes
    /// each, folds duplicates, and counts the run.
    #[verifier::rlimit(40)]
    pub fn process(&self, items: Vec<RawSourceItem>) -> (r: PipelineRunResult)
        ensures
            r.processes(self.assets, items@),
    {
        let ids = source_id_list(&items);
        let seed = join_strings(&ids, "|");
        let run_id = new_run_id(seed.as_str());
        let run_created_at = utc_now_iso();
        let ghost run = run_id@;
        let ghost xs = fold_inputs(self.assets, run, items@);
        let mut state = DedupeState::new();
        let mut clean_items: Vec<CleanItem> = Vec::new();
        let mut signals: Vec<SourceSignal> = Vec::new();
        let mut unresolved_records: Vec<UnresolvedRecord> = Vec::new();
        let mut resolution_logs: Vec<ResolutionLog> = Vec::new();
        let ghost mut folds: Seq<FoldV> = Seq::empty();
        let mut i: usize = 0;
        proof {
            assert(xs.take(0) =~= Seq::<FoldInputV>::empty());
        }
        while i < items.len()
            invariant
                run == run_id@,
                xs == fold_inputs(self.assets, run, items@),
                i <= items@.len(),
                state.groups@.len() <= i,
                state.view_state() == fold_run(xs.take(i as int), run).0,
                folds == fold_run(xs.take(i as int), run).1,
                folds.len() == i,
                clean_items@.len() == i,
                signals@.len() == i,
                forall|k: int| 0 <= k < i ==> #[trigger] clean_items@[k].cleans(items@[k]),
                forall|k: int|
                    0 <= k < i ==> #[trigger] signals@[k].describes(
                        self.assets,
                        run,
                        items@[k],
                        folds[k],
                    ),
                unresolved_records@.len() == unresolved_positions(
                    self.assets,
                    items@.take(i as int),
                ).len(),
                forall|k: int|
                    0 <= k < unresolved_records@.len() ==> #[trigger] unresolved_records@[k].reports(
                        self.assets,
                        run,
                        items@[unresolved_positions(self.assets, items@.take(i as int))[k]],
                    ),
                forall|k: int|
                    0 <= k < signals@.len() ==> is_utc_stamp(#[trigger] signals@[k].created_at@),
                forall|j: int|
                    0 <= j < state.groups@.len() ==> is_utc_stamp(
                        #[trigger] state.groups@[j].created_at@,
                    ),
                forall|k: int|
                    0 <= k < unresolved_records@.len() ==> is_utc_stamp(
                        #[trigger] unresolved_records@[k].created_at@,
                    ),
                resolution_logs.deep_view() == run_logs(self.assets, run, items@.take(i as int), folds),
                forall|k: int|
                    0 <= k < resolution_logs@.len() ==> is_utc_stamp(
                        #[trigger] resolution_logs@[k].created_at@,
                    ),
            decreases items@.len() - i,
        {
            let now = utc_now_iso();
            let ghost pre = xs.take(i as int);
            proof {
                assert(xs.take(i + 1).drop_last() == pre);
                assert(xs.take(i + 1).last() == fold_input_of(self.assets, run, items@[i as int]));
                assert(items@.take(i + 1).drop_last() == items@.take(i as int));
                assert(items@.take(i + 1).last() == items@[i as int]);
            }
            let ghost groups0 = state.groups@;
            let item = self.process_item(&items[i], run_id.as_str(), &mut state, now.as_str());
            proof {
                assert forall|j: int| 0 <= j < state.groups@.len() implies is_utc_stamp(
                    #[trigger] state.groups@[j].created_at@,
                ) by {
                    if state.groups@[j].created_at@ != now@ {
                        assert(is_utc_stamp(groups0[j].created_at@));
                    }
                }
            }
            let ghost f = item.signal.fold_of();
            let ghost logs0 = resolution_logs@;
            let ghost lv0 = resolution_logs.deep_view();
            let mut new_logs = item.logs;
            let ghost added = new_logs@;
            let ghost added_v = new_logs.deep_view();
            resolution_logs.append(&mut new_logs);
            proof {
                assert(resolution_logs@ == logs0 + added);
                assert(resolution_logs.deep_view() =~= lv0 + added_v);
                assert forall|k: int| 0 <= k < resolution_logs@.len() implies is_utc_stamp(
                    #[trigger] resolution_logs@[k].created_at@,
                ) by {
                    if k >= logs0.len() {
                        assert(resolution_logs@[k] == added[k - logs0.len()]);
                    } else {
                        assert(resolution_logs@[k] == logs0[k]);
                    }
                }
            }
            let ghost ups = unresolved_positions(self.assets, items@.take(i as int));
            proof {
                assert(run_logs(self.assets, run, items@.take(i + 1), folds.push(f)) == run_logs(
                    self.assets,
                    run,
                    items@.take(i as int),
                    folds,
                ) + item_logs(self.assets, run, items@[i as int], f)) by {
                    assert(folds.push(f).drop_last() =~= folds);
                }
                folds = folds.push(f);
            }
            clean_items.push(item.clean);
            signals.push(item.signal);
            match item.unresolved {
                Some(u) => {
                    unresolved_records.push(u);
                },
                None => {},
            }
            proof {
                let ups2 = unresolved_positions(self.assets, items@.take(i + 1));
                assert forall|k: int| 0 <= k < unresolved_records@.len() implies #[trigger]
                    unresolved_records@[k].reports(self.assets, run, items@[ups2[k]]) by {
                    if k < ups.len() {
                        assert(ups2[k] == ups[k]);
                    }
                }
            }
            i += 1;
        }
        proof {
            assert(xs.take(items@.len() as int) == xs);
            assert(items@.take(items@.len() as int) == items@);
        }
        let metrics = build_metrics(&signals);
        PipelineRunResult {
            run_id,
            asset_version: self.assets.asset_version.clone(),
            rule_version: rule_version(),
            run_created_at,
            raw_items: items,
            clean_items,
            signals,
            dedupe_groups: state.groups,
            resolution_logs,
            unresolved_records,
            metrics,
        }
    }
}

/// In a processed run, a signal is folded exactly when it is a duplicate; a
/// signal that is not a duplicate is its own canonical signal, of rank 0;
/// and a duplicate's canonical signal is an earlier signal of the run that
/// is not a duplicate.
#[verifier::rlimit(60)]
pub proof fn lemma_folded_signals_point_back(
    r: PipelineRunResult,
    assets: AssetIndex,
    items: Seq<RawSourceItem>,
)
    requires
        r.processes(assets, items),
    ensures
        forall|i: int|
            0 <= i < r.signals@.len() ==> (#[trigger] r.signals@[i].state@ == "folded"@ <==> r.signals@[i].duplicate_type@
                != "none"@),
        forall|i: int|
            0 <= i < r.signals@.len() && #[trigger] r.signals@[i].duplicate_type@ == "none"@
                ==> r.signals@[i].canonical_signal_id@ == r.signals@[i].signal_id@
                && r.signals@[i].dup_rank == 0,
        forall|i: int|
            0 <= i < r.signals@.len() && #[trigger] r.signals@[i].duplicate_type@ != "none"@
                ==> exists|j: int|
                0 <= j < i && r.signals@[j].duplicate_type@ == "none"@
                    && #[trigger] r.signals@[j].signal_id@ == r.signals@[i].canonical_signal_id@,
{
    reveal_strlit("folded");
    reveal_strlit("canonical");
    reveal_strlit("track_level");
    reveal_strlit("unresolved");
    assert("folded"@[0] != "canonical"@[0]);
    assert("folded"@[0] != "track_level"@[0]);
    assert("folded"@[0] != "unresolved"@[0]);
    let run = r.run_id@;
    let xs = fold_inputs(assets, run, items);
    let folds = fold_run(xs, run).1;
    crate::dedupe::lemma_duplicates_point_to_earlier_canonicals(xs, run);
    assert forall|i: int| 0 <= i < r.signals@.len() implies #[trigger] r.signals@[i].describes(
        assets,
        run,
        items[i],
        folds[i],
    ) && xs[i].signal_id == r.signals@[i].signal_id@ by {
        assert(r.signals@[i].describes(assets, run, items[i], folds[i]));
    }
    assert forall|i: int| 0 <= i < r.signals@.len() implies (#[trigger] r.signals@[i].state@
        == "folded"@ <==> r.signals@[i].duplicate_type@ != "none"@) by {
        assert(r.signals@[i].describes(assets, run, items[i], folds[i]));
    }
    assert forall|i: int|
        0 <= i < r.signals@.len() && #[trigger] r.signals@[i].duplicate_type@ == "none"@ implies r.signals@[i].canonical_signal_id@
            == r.signals@[i].signal_id@ && r.signals@[i].dup_rank == 0 by {
        assert(r.signals@[i].describes(assets, run, items[i], folds[i]));
    }
    assert forall|i: int|
        0 <= i < r.signals@.len() && #[trigger] r.signals@[i].duplicate_type@ != "none"@ implies exists|
        j: int,
    | 0 <= j < i && r.signals@[j].duplicate_type@ == "none"@ && #[trigger] r.signals@[j].signal_id@
        == r.signals@[i].canonical_signal_id@ by {
        assert(r.signals@[i].describes(assets, run, items[i], folds[i]));
        assert(folds[i].duplicate_type != "none"@);
        let j = choose|j: int|
            0 <= j < i && folds[j].duplicate_type == "none"@ && #[trigger] xs[j].signal_id
                == folds[i].canonical;
        assert(r.signals@[j].describes(assets, run, items[j], folds[j]));
        assert(xs[j].signal_id == r.signals@[j].signal_id@);
    }
}

proof fn lemma_run_logs_shape(
    assets: AssetIndex,
    run_id: Seq<char>,
    items: Seq<RawSourceItem>,
    folds: Seq<FoldV>,
)
    requires
        items.len() == folds.len(),
    ensures
        run_logs(assets, run_id, items, folds).len() == 5 * items.len(),
        forall|m: int|
            0 <= m < 5 * items.len() ==> #[trigger] run_logs(assets, run_id, items, folds)[m]
                == item_logs(assets, run_id, items[m / 5], folds[m / 5])[m % 5],
    decreases items.len(),
{
    if items.len() > 0 {
        let n = items.len() as int;
        lemma_run_logs_shape(assets, run_id, items.drop_last(), folds.drop_last());
        let pre = run_logs(assets, run_id, items.drop_last(), folds.drop_last());
        let last = item_logs(assets, run_id, items.last(), folds.last());
        assert(last.len() == 5);
        assert forall|m: int| 0 <= m < 5 * n implies #[trigger] run_logs(
            assets,
            run_id,
            items,
            folds,
        )[m] == item_logs(assets, run_id, items[m / 5], folds[m / 5])[m % 5] by {
            if m < 5 * (n - 1) {
                assert(m / 5 < n - 1);
                assert(items.drop_last()[m / 5] == items[m / 5]);
                assert(folds.drop_last()[m / 5] == folds[m / 5]);
            } else {
                assert(m / 5 == n - 1);
                assert(m % 5 == m - 5 * (n - 1));
            }
        }
    }
}

/// A processed run keeps five resolution-log records per item, in order:
/// record `m` is step `m % 5` of the trace of signal `m / 5`, and carries
/// the run id, the assets' version, the rules' version, that signal's id
/// and its item's source id.
#[verifier::rlimit(40)]
pub proof fn lemma_five_logs_per_item(r: PipelineRunResult, assets: AssetIndex, items: Seq<RawSourceItem>)
    requires
        r.processes(assets, items),
    ensures
        r.resolution_logs@.len() == 5 * items.len(),
        forall|m: int|
            0 <= m < r.resolution_logs@.len() ==> {
                let l = #[trigger] r.resolution_logs@[m];
                let s = r.signals@[m / 5];
                &&& l.run_id@ == r.run_id@
                &&& l.asset_version@ == r.asset_version@
                &&& l.rule_version@ == r.rule_version@
                &&& l.signal_id@ == s.signal_id@
                &&& l.source_id@ == items[m / 5].source_id@
                &&& l.stage@ == s.trace.deep_view()[m % 5].0
                &&& l.decision@ == s.trace.deep_view()[m % 5].1
            },
{
    let run = r.run_id@;
    let folds = fold_run(fold_inputs(assets, run, items), run).1;
    crate::dedupe::lemma_groups_invariant(fold_inputs(assets, run, items), run);
    lemma_run_logs_shape(assets, run, items, folds);
    assert(r.resolution_logs@.len() == r.resolution_logs.deep_view().len());
    assert forall|m: int| 0 <= m < r.resolution_logs@.len() implies {
        let l = #[trigger] r.resolution_logs@[m];
        let s = r.signals@[m / 5];
        &&& l.run_id@ == r.run_id@
        &&& l.asset_version@ == r.asset_version@
        &&& l.rule_version@ == r.rule_version@
        &&& l.signal_id@ == s.signal_id@
        &&& l.source_id@ == items[m / 5].source_id@
        &&& l.stage@ == s.trace.deep_view()[m % 5].0
        &&& l.decision@ == s.trace.deep_view()[m % 5].1
    } by {
        let i = m / 5;
        assert(0 <= i < items.len());
        assert(r.signals@[i].describes(assets, run, items[i], folds[i]));
        assert(r.resolution_logs.deep_view()[m] == r.resolution_logs@[m].deep_view());
    }
}


/// The information key of an item is about what it resolved to (its game,
/// else its track), its event and its semantic basis, and nothing else of
/// it: two items resolved to the same game (or, without a game, to the
/// same track), attributed the same event and with the same semantic basis
/// have the same information key, whatever their sources. The key of an
/// item resolved to game `g` begins `info::game::g::`, and that of one
/// resolved to track `t` only begins `info::track::t::`.
pub proof fn lemma_information_key_is_about(assets: AssetIndex, a: RawSourceItem, b: RawSourceItem)
    ensures
        ({
            let da = decision_for(assets, a);
            let db = decision_for(assets, b);
            let ea = match event_for(assets, a) {
                Some(e) => Some(e.0),
                None => None,
            };
            let eb = match event_for(assets, b) {
                Some(e) => Some(e.0),
                None => None,
            };
            let sa = semantic_basis_of(normalized_text_of(a.title@), normalized_text_of(a.text@));
            let sb = semantic_basis_of(normalized_text_of(b.title@), normalized_text_of(b.text@));
            &&& ((da.game is Some && da.game == db.game) || (da.game is None && db.game is None
                && da.track is Some && da.track == db.track)) && ea == eb && sa == sb
                ==> information_key_of(assets, a) == information_key_of(assets, b)
            &&& da.game matches Some(g) ==> has_prefix(
                information_key_of(assets, a),
                "info::game::"@ + g + "::"@,
            )
            &&& da.game is None ==> (da.track matches Some(t) ==> has_prefix(
                information_key_of(assets, a),
                "info::track::"@ + t + "::"@,
            ))
        }),
{
    reveal_strlit("info::");
    reveal_strlit("game::");
    reveal_strlit("track::");
    reveal_strlit("info::game::");
    reveal_strlit("info::track::");
    reveal_strlit("::");
    let da = decision_for(assets, a);
    let key = information_key_of(assets, a);
    let event_key = match event_for(assets, a) {
        Some(e) => e.0,
        None => "general"@,
    };
    let rest = event_key + "::"@ + fingerprint_of(
        seq![semantic_basis_of(normalized_text_of(a.title@), normalized_text_of(a.text@))],
        20,
    );
    if let Some(g) = da.game {
        let p = "info::game::"@ + g + "::"@;
        assert(key =~= p + rest);
        assert(key.subrange(0, p.len() as int) =~= p);
    } else if let Some(t) = da.track {
        let p = "info::track::"@ + t + "::"@;
        assert(key =~= p + rest);
        assert(key.subrange(0, p.len() as int) =~= p);
    }
}


/// In a processed run, a later item resolved to the same game as an
/// earlier item that was kept as canonical, attributed the same event and
/// with the same semantic basis, is folded as an information duplicate
/// when its content keys hit nothing at its turn, whatever its source.
#[verifier::rlimit(60)]
pub proof fn lemma_same_story_folds(
    r: PipelineRunResult,
    assets: AssetIndex,
    items: Seq<RawSourceItem>,
    i: int,
    j: int,
)
    requires
        r.processes(assets, items),
        0 <= i < j < items.len(),
        decision_for(assets, items[i]).game is Some,
        decision_for(assets, items[i]).game == decision_for(assets, items[j]).game,
        (match event_for(assets, items[i]) {
            Some(e) => Some(e.0),
            None => None,
        }) == (match event_for(assets, items[j]) {
            Some(e) => Some(e.0),
            None => None,
        }),
        semantic_basis_of(normalized_text_of(items[i].title@), normalized_text_of(items[i].text@))
            == semantic_basis_of(
            normalized_text_of(items[j].title@),
            normalized_text_of(items[j].text@),
        ),
        r.signals@[i].duplicate_type@ == "none"@,
        first_hit(
            fold_run(fold_inputs(assets, r.run_id@, items).take(j), r.run_id@).0.content,
            content_keys_of(items[j]),
        ) is None,
    ensures
        r.signals@[j].duplicate_type@ == "information_duplicate"@,
        r.signals@[j].state@ == "folded"@,
{
    reveal_strlit("none");
    reveal_strlit("information_duplicate");
    assert("information_duplicate"@[0] != "none"@[0]);
    let run = r.run_id@;
    let xs = fold_inputs(assets, run, items);
    let folds = fold_run(xs, run).1;
    crate::dedupe::lemma_groups_invariant(xs, run);
    lemma_information_key_is_about(assets, items[i], items[j]);
    assert(r.signals@[i].describes(assets, run, items[i], folds[i]));
    assert(r.signals@[j].describes(assets, run, items[j], folds[j]));
    assert(xs[i].information_key == xs[j].information_key);
    crate::dedupe::lemma_same_information_folds(xs, run, i, j);
}

} // verus!
