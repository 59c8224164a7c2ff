//! The entity assets: games, their aliases, official accounts and URL seeds,
//! negative aliases and event keyword rules.
use vstd::prelude::*;

verus! {

/// One alias of a game, how strongly it identifies the game, and where it
/// comes from.
pub struct AliasRule {
    pub value: String,
    pub strength: String,
    pub source: String,
}

impl DeepView for AliasRule {
    type V = (Seq<char>, Seq<char>, Seq<char>);

    open spec fn deep_view(&self) -> (Seq<char>, Seq<char>, Seq<char>) {
        (self.value@, self.strength@, self.source@)
    }
}

/// A game with its names, track and official channels.
pub struct GameAsset {
    pub game_id: String,
    pub standard_name: String,
    pub track: String,
    pub representative_work: String,
    pub aliases: Vec<AliasRule>,
    pub official_accounts: Vec<String>,
    pub official_url_seeds: Vec<String>,
}

/// The keywords of one kind of event.
pub struct EventRule {
    pub kind: String,
    pub keywords: Vec<String>,
}

/// The whole asset bundle. Event kinds are distinct (they are the keys of a
/// JSON object).
pub struct AssetBundle {
    pub games: Vec<GameAsset>,
    pub negative_aliases: Vec<String>,
    pub event_rules: Vec<EventRule>,
}

/// Ghost form of an event rule.
pub struct EventRuleV {
    pub kind: Seq<char>,
    pub keywords: Seq<Seq<char>>,
}

impl DeepView for EventRule {
    type V = EventRuleV;

    open spec fn deep_view(&self) -> EventRuleV {
        EventRuleV { kind: self.kind@, keywords: self.keywords.deep_view() }
    }
}

pub fn copy_strings(v: &Vec<String>) -> (r: Vec<String>)
    ensures
        r.deep_view() == v.deep_view(),
{
    let mut out: Vec<String> = Vec::new();
    let mut i: usize = 0;
    while i < v.len()
        invariant
            i <= v@.len(),
            out.deep_view() == v.deep_view().take(i as int),
        decreases v@.len() - i,
    {
        let ghost before = out.deep_view();
        out.push(v[i].clone());
        proof {
            assert(out.deep_view() =~= before.push(v@[i as int]@));
            assert(v.deep_view().take(i + 1) =~= v.deep_view().take(i as int).push(v@[i as int]@));
            assert(out.deep_view() =~= v.deep_view().take(i + 1));
        }
        i += 1;
    }
    proof {
        assert(v.deep_view().take(v@.len() as int) =~= v.deep_view());
    }
    out
}

impl EventRule {
    pub fn copy(&self) -> (r: EventRule)
        ensures
            r.deep_view() == self.deep_view(),
    {
        EventRule { kind: self.kind.clone(), keywords: copy_strings(&self.keywords) }
    }
}

/// A raw item as collected from a source. `original_url` is the
/// `original_url` text of the item's metadata, where it has one.
pub struct RawSourceItem {
    pub source_id: String,
    pub platform: String,
    pub source_type: String,
    pub content_type: String,
    pub title: String,
    pub text: String,
    pub author: String,
    pub published_at: String,
    pub url: String,
    pub fetched_at: String,
    pub original_url: Option<String>,
}

/// An item with its normalized fields, tokens and fingerprints.
pub struct CleanItem {
    pub clean_id: String,
    pub source_id: String,
    pub platform: String,
    pub source_type: String,
    pub content_type: String,
    pub source_layer: String,
    pub title: String,
    pub text: String,
    pub author: String,
    pub published_at: String,
    pub normalized_published_at: Option<String>,
    pub url: String,
    pub normalized_title: String,
    pub normalized_text: String,
    pub normalized_author: String,
    pub normalized_url: String,
    pub reference_urls: Vec<String>,
    pub title_tokens: Vec<String>,
    pub text_tokens: Vec<String>,
    pub title_fingerprint: String,
    pub text_fingerprint: String,
    pub url_fingerprint: Option<String>,
    pub reference_url_fingerprints: Vec<String>,
    pub content_fingerprint: String,
}

/// A group of signals folded onto one canonical signal.
pub struct DedupeGroup {
    pub dup_group_id: String,
    pub run_id: String,
    pub canonical_signal_id: String,
    pub duplicate_type: String,
    pub dedupe_key: String,
    pub member_signal_ids: Vec<String>,
    pub member_source_ids: Vec<String>,
    pub created_at: String,
}

/// Ghost form of a dedupe group (its creation time aside).
pub struct GroupV {
    pub id: Seq<char>,
    pub run_id: Seq<char>,
    pub canonical: Seq<char>,
    pub duplicate_type: Seq<char>,
    pub dedupe_key: Seq<char>,
    pub members: Seq<Seq<char>>,
    pub sources: Seq<Seq<char>>,
}

impl DeepView for DedupeGroup {
    type V = GroupV;

    open spec fn deep_view(&self) -> GroupV {
        GroupV {
            id: self.dup_group_id@,
            run_id: self.run_id@,
            canonical: self.canonical_signal_id@,
            duplicate_type: self.duplicate_type@,
            dedupe_key: self.dedupe_key@,
            members: self.member_signal_ids.deep_view(),
            sources: self.member_source_ids.deep_view(),
        }
    }
}

/// An item that could not be tied to a game or track.
pub struct UnresolvedRecord {
    pub unresolved_id: String,
    pub run_id: String,
    pub asset_version: String,
    pub rule_version: String,
    pub source_id: String,
    pub title: String,
    pub platform: String,
    pub track_id: Option<String>,
    pub track_candidates: Vec<String>,
    pub reason: String,
    pub candidate_game_ids: Vec<String>,
    pub created_at: String,
}

} // verus!
