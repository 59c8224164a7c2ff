//! The asset index: the lookups that entity resolution and event attribution
//! use, built from an asset bundle.
use crate::ext::lowercase;
use crate::models::{copy_strings, AliasRule, AssetBundle, EventRule, EventRuleV, GameAsset};
use crate::strs::{
    compare_str, concat, lemma_lex_asymmetric, lemma_lex_irreflexive, lemma_lex_total,
    lemma_lex_transitive, lex_le, lex_lt, str_eq, LexOrder,
};
use crate::strs::is_plain;
use crate::text_utils::{
    fingerprint, fingerprint_of, lemma_plain_normalizes_once, norm_lower, normalize_lower,
    normalize_text, normalized_text_of,
};
use vstd::prelude::*;
use vstd::relations::{sorted_by, total_ordering};
use vstd::seq_lib::lemma_sorted_unique;

verus! {

/// A game that an alias points to, with the alias's strength and source.
pub struct AliasLookup {
    pub game_id: String,
    pub strength: String,
    pub source: String,
}

pub struct LookupV {
    pub game_id: Seq<char>,
    pub strength: Seq<char>,
    pub source: Seq<char>,
}

impl DeepView for AliasLookup {
    type V = LookupV;

    open spec fn deep_view(&self) -> LookupV {
        LookupV { game_id: self.game_id@, strength: self.strength@, source: self.source@ }
    }
}

impl AliasLookup {
    pub fn copy(&self) -> (r: AliasLookup)
        ensures
            r.deep_view() == self.deep_view(),
    {
        AliasLookup {
            game_id: self.game_id.clone(),
            strength: self.strength.clone(),
            source: self.source.clone(),
        }
    }
}

/// One alias (normalized and lowercased) and one game it points to.
pub struct AliasEntry {
    pub alias: String,
    pub lookup: AliasLookup,
}

impl DeepView for AliasEntry {
    type V = (Seq<char>, LookupV);

    open spec fn deep_view(&self) -> (Seq<char>, LookupV) {
        (self.alias@, self.lookup.deep_view())
    }
}

/// A key and the value it maps to. In an index the last pair with a key
/// wins, as later insertions into a map replace earlier ones.
pub struct IndexPair {
    pub key: String,
    pub value: String,
}

impl DeepView for IndexPair {
    type V = (Seq<char>, Seq<char>);

    open spec fn deep_view(&self) -> (Seq<char>, Seq<char>) {
        (self.key@, self.value@)
    }
}

/// The lookups built from an asset bundle.
///
/// `alias_index` holds every (alias, game) entry in bundle order; the
/// entries of one alias together are what a map from alias to games holds.
/// `official_account_index` and `game_track_index` resolve a key to the
/// value of its last pair.
pub struct AssetIndex {
    pub bundle: AssetBundle,
    pub alias_index: Vec<AliasEntry>,
    pub official_account_index: Vec<IndexPair>,
    pub official_url_seed_index: Vec<IndexPair>,
    pub game_track_index: Vec<IndexPair>,
    pub negative_aliases: Vec<String>,
    pub event_rules: Vec<EventRule>,
    pub asset_version: String,
}

// ---------------------------------------------------------------------------
// specification of the index

pub open spec fn rule_entry(g: GameAsset, a: AliasRule) -> (Seq<char>, LookupV) {
    (norm_lower(a.value@), LookupV { game_id: g.game_id@, strength: a.strength@, source: a.source@ })
}

pub open spec fn rule_entries(g: GameAsset, rules: Seq<AliasRule>) -> Seq<(Seq<char>, LookupV)>
    decreases rules.len(),
{
    if rules.len() == 0 {
        Seq::<(Seq<char>, LookupV)>::empty()
    } else {
        rule_entries(g, rules.drop_last()).push(rule_entry(g, rules.last()))
    }
}

/// The entries of a game: its standard name (strong, `standard_name`), then
/// each alias.
pub open spec fn game_alias_entries(g: GameAsset) -> Seq<(Seq<char>, LookupV)> {
    seq![
        (
            norm_lower(g.standard_name@),
            LookupV {
                game_id: g.game_id@,
                strength: "strong"@,
                source: "standard_name"@,
            },
        ),
    ] + rule_entries(g, g.aliases@)
}

pub open spec fn alias_entries_of(games: Seq<GameAsset>) -> Seq<(Seq<char>, LookupV)>
    decreases games.len(),
{
    if games.len() == 0 {
        Seq::<(Seq<char>, LookupV)>::empty()
    } else {
        alias_entries_of(games.drop_last()) + game_alias_entries(games.last())
    }
}

/// Pairs of one game: each string of `keys`, normalized (and lowercased when
/// `lower`), with the game's id.
pub open spec fn keyed_pairs(keys: Seq<String>, game_id: Seq<char>, lower: bool) -> Seq<
    (Seq<char>, Seq<char>),
>
    decreases keys.len(),
{
    if keys.len() == 0 {
        Seq::<(Seq<char>, Seq<char>)>::empty()
    } else {
        let k = if lower {
            norm_lower(keys.last()@)
        } else {
            normalized_text_of(keys.last()@)
        };
        keyed_pairs(keys.drop_last(), game_id, lower).push((k, game_id))
    }
}

pub open spec fn account_pairs_of(games: Seq<GameAsset>) -> Seq<(Seq<char>, Seq<char>)>
    decreases games.len(),
{
    if games.len() == 0 {
        Seq::<(Seq<char>, Seq<char>)>::empty()
    } else {
        let g = games.last();
        account_pairs_of(games.drop_last()) + keyed_pairs(g.official_accounts@, g.game_id@, true)
    }
}

pub open spec fn seed_pairs_of(games: Seq<GameAsset>) -> Seq<(Seq<char>, Seq<char>)>
    decreases games.len(),
{
    if games.len() == 0 {
        Seq::<(Seq<char>, Seq<char>)>::empty()
    } else {
        let g = games.last();
        seed_pairs_of(games.drop_last()) + keyed_pairs(g.official_url_seeds@, g.game_id@, true)
    }
}

pub open spec fn track_pairs_of(games: Seq<GameAsset>) -> Seq<(Seq<char>, Seq<char>)>
    decreases games.len(),
{
    if games.len() == 0 {
        Seq::<(Seq<char>, Seq<char>)>::empty()
    } else {
        let g = games.last();
        track_pairs_of(games.drop_last()).push((g.game_id@, g.track@))
    }
}

pub open spec fn lowered_all(v: Seq<String>) -> Seq<Seq<char>>
    decreases v.len(),
{
    if v.len() == 0 {
        Seq::<Seq<char>>::empty()
    } else {
        lowered_all(v.drop_last()).push(norm_lower(v.last()@))
    }
}

/// The event rules with normalized lowercased keywords, in bundle order.
pub open spec fn lowered_rules(rules: Seq<EventRule>) -> Seq<EventRuleV>
    decreases rules.len(),
{
    if rules.len() == 0 {
        Seq::<EventRuleV>::empty()
    } else {
        let r = rules.last();
        lowered_rules(rules.drop_last()).push(
            EventRuleV { kind: r.kind@, keywords: lowered_all(r.keywords@) },
        )
    }
}

/// Order of event rules by kind.
pub open spec fn kind_order() -> spec_fn(EventRuleV, EventRuleV) -> bool {
    |a: EventRuleV, b: EventRuleV| lex_le(a.kind, b.kind)
}

/// The value of the last pair with `key`.
pub open spec fn lookup_last(pairs: Seq<(Seq<char>, Seq<char>)>, key: Seq<char>) -> Option<
    Seq<char>,
>
    decreases pairs.len(),
{
    if pairs.len() == 0 {
        None
    } else if pairs.last().0 == key {
        Some(pairs.last().1)
    } else {
        lookup_last(pairs.drop_last(), key)
    }
}

pub open spec fn asset_version_of(bundle_json: Seq<char>) -> Seq<char> {
    "entity_assets_"@ + fingerprint_of(seq![bundle_json], 12)
}

impl AssetIndex {
    /// The index describes `bundle`, and its version is taken from the
    /// serialized form `bundle_json`.
    pub open spec fn indexes(&self, bundle: AssetBundle, bundle_json: Seq<char>) -> bool {
        let games = bundle.games@;
        &&& self.bundle == bundle
        &&& self.alias_index.deep_view() == alias_entries_of(games)
        &&& self.official_account_index.deep_view() == account_pairs_of(games)
        &&& self.official_url_seed_index.deep_view() == seed_pairs_of(games)
        &&& self.game_track_index.deep_view() == track_pairs_of(games)
        &&& self.negative_aliases.deep_view() == lowered_all(bundle.negative_aliases@)
        &&& sorted_by(self.event_rules.deep_view(), kind_order())
        &&& self.event_rules.deep_view().to_multiset() == lowered_rules(
            bundle.event_rules@,
        ).to_multiset()
        &&& self.asset_version@ == asset_version_of(bundle_json)
    }

    /// The track of a game.
    pub open spec fn track_of(&self, game_id: Seq<char>) -> Option<Seq<char>> {
        lookup_last(self.game_track_index.deep_view(), game_id)
    }

    /// The game an official account (normalized, lowercased) belongs to.
    pub open spec fn account_game(&self, author: Seq<char>) -> Option<Seq<char>> {
        lookup_last(self.official_account_index.deep_view(), author)
    }

    /// The track of a game, if the bundle lists it.
    pub fn track_for_game(&self, game_id: &str) -> (r: Option<String>)
        ensures
            r.deep_view() == self.track_of(game_id@),
    {
        lookup_last_exec(&self.game_track_index, game_id)
    }

    /// The game of an official account, if any.
    pub fn account_game_for(&self, author: &str) -> (r: Option<String>)
        ensures
            r.deep_view() == self.account_game(author@),
    {
        lookup_last_exec(&self.official_account_index, author)
    }

    /// Whether a (normalized, lowercased) alias is a negative alias.
    pub fn is_negative_alias(&self, alias: &str) -> (r: bool)
        ensures
            r == self.negative_aliases.deep_view().contains(alias@),
    {
        let mut i: usize = 0;
        while i < self.negative_aliases.len()
            invariant
                i <= self.negative_aliases@.len(),
                forall|j: int| 0 <= j < i ==> self.negative_aliases@[j]@ != alias@,
            decreases self.negative_aliases@.len() - i,
        {
            if str_eq(self.negative_aliases[i].as_str(), alias) {
                proof {
                    assert(self.negative_aliases.deep_view()[i as int] == alias@);
                }
                return true;
            }
            i += 1;
        }
        proof {
            if self.negative_aliases.deep_view().contains(alias@) {
                let k = choose|k: int|
                    0 <= k < self.negative_aliases.deep_view().len()
                        && self.negative_aliases.deep_view()[k] == alias@;
                assert(self.negative_aliases@[k]@ == alias@);
            }
        }
        false
    }
}

pub fn lookup_last_exec(pairs: &Vec<IndexPair>, key: &str) -> (r: Option<String>)
    ensures
        r.deep_view() == lookup_last(pairs.deep_view(), key@),
{
    let ghost pv = pairs.deep_view();
    let mut i = pairs.len();
    proof {
        assert(pv.take(pv.len() as int) == pv);
    }
    while i > 0
        invariant
            pv == pairs.deep_view(),
            i <= pv.len(),
            lookup_last(pv.take(i as int), key@) == lookup_last(pv, key@),
        decreases i,
    {
        proof {
            assert(pv.take(i as int).last() == pairs@[i - 1].deep_view());
            assert(pv.take(i as int).drop_last() == pv.take(i - 1));
        }
        if str_eq(pairs[i - 1].key.as_str(), key) {
            return Some(pairs[i - 1].value.clone());
        }
        i -= 1;
    }
    None
}

// ---------------------------------------------------------------------------
// building

fn push_game_aliases(out: &mut Vec<AliasEntry>, g: &GameAsset)
    ensures
        final(out).deep_view() == old(out).deep_view() + game_alias_entries(*g),
{
    let ghost start = out.deep_view();
    out.push(
        AliasEntry {
            alias: normalize_lower(g.standard_name.as_str()),
            lookup: AliasLookup {
                game_id: g.game_id.clone(),
                strength: crate::strs::owned("strong"),
                source: crate::strs::owned("standard_name"),
            },
        },
    );
    let ghost head = out.deep_view();
    let mut j: usize = 0;
    while j < g.aliases.len()
        invariant
            j <= g.aliases@.len(),
            out.deep_view() == head + rule_entries(*g, g.aliases@.take(j as int)),
        decreases g.aliases@.len() - j,
    {
        proof {
            assert(g.aliases@.take(j + 1).drop_last() == g.aliases@.take(j as int));
        }
        let a = &g.aliases[j];
        let ghost before = out.deep_view();
        out.push(
            AliasEntry {
                alias: normalize_lower(a.value.as_str()),
                lookup: AliasLookup {
                    game_id: g.game_id.clone(),
                    strength: a.strength.clone(),
                    source: a.source.clone(),
                },
            },
        );
        proof {
            assert(out.deep_view() =~= before.push(rule_entry(*g, *a)));
            assert(g.aliases@.take(j + 1).last() == *a);
            assert(rule_entries(*g, g.aliases@.take(j + 1)) == rule_entries(
                *g,
                g.aliases@.take(j as int),
            ).push(rule_entry(*g, *a)));
            assert(out.deep_view() =~= head + rule_entries(*g, g.aliases@.take(j + 1)));
        }
        j += 1;
    }
    proof {
        assert(g.aliases@.take(g.aliases@.len() as int) == g.aliases@);
        assert(out.deep_view() =~= start + game_alias_entries(*g));
    }
}

fn push_keyed(out: &mut Vec<IndexPair>, keys: &Vec<String>, game_id: &String, lower: bool)
    ensures
        final(out).deep_view() == old(out).deep_view() + keyed_pairs(keys@, game_id@, lower),
{
    let ghost start = out.deep_view();
    let mut j: usize = 0;
    while j < keys.len()
        invariant
            j <= keys@.len(),
            out.deep_view() == start + keyed_pairs(keys@.take(j as int), game_id@, lower),
        decreases keys@.len() - j,
    {
        proof {
            assert(keys@.take(j + 1).drop_last() == keys@.take(j as int));
        }
        let k = if lower {
            normalize_lower(keys[j].as_str())
        } else {
            normalize_text(keys[j].as_str())
        };
        let ghost before = out.deep_view();
        out.push(IndexPair { key: k, value: game_id.clone() });
        proof {
            assert(out.deep_view() =~= before.push((k@, game_id@)));
            assert(keys@.take(j + 1).last() == keys@[j as int]);
            assert(out.deep_view() =~= start + keyed_pairs(keys@.take(j + 1), game_id@, lower));
        }
        j += 1;
    }
    proof {
        assert(keys@.take(keys@.len() as int) == keys@);
    }
}

fn lowered_strings(v: &Vec<String>) -> (r: Vec<String>)
    ensures
        r.deep_view() == lowered_all(v@),
{
    let mut out: Vec<String> = Vec::new();
    let mut j: usize = 0;
    while j < v.len()
        invariant
            j <= v@.len(),
            out.deep_view() == lowered_all(v@.take(j as int)),
        decreases v@.len() - j,
    {
        proof {
            assert(v@.take(j + 1).drop_last() == v@.take(j as int));
        }
        out.push(normalize_lower(v[j].as_str()));
        proof {
            assert(out.deep_view() =~= lowered_all(v@.take(j + 1)));
        }
        j += 1;
    }
    proof {
        assert(v@.take(v@.len() as int) == v@);
    }
    out
}

fn lowered_rule(r: &EventRule) -> (o: EventRule)
    ensures
        o.deep_view() == (EventRuleV { kind: r.kind@, keywords: lowered_all(r.keywords@) }),
{
    EventRule { kind: r.kind.clone(), keywords: lowered_strings(&r.keywords) }
}

fn kind_le_exec(a: &EventRule, b: &EventRule) -> (r: bool)
    ensures
        r == lex_le(a.kind@, b.kind@),
{
    match compare_str(a.kind.as_str(), b.kind.as_str()) {
        LexOrder::Greater => {
            proof {
                lemma_lex_asymmetric(b.kind@, a.kind@);
                lemma_lex_irreflexive(a.kind@);
            }
            false
        },
        _ => true,
    }
}

/// The rules with lowered keywords, sorted by kind.
fn sorted_lowered_rules(rules: &Vec<EventRule>) -> (r: Vec<EventRule>)
    ensures
        sorted_by(r.deep_view(), kind_order()),
        r.deep_view().to_multiset() == lowered_rules(rules@).to_multiset(),
{
    let ghost input = lowered_rules(rules@);
    let mut out: Vec<EventRule> = Vec::new();
    let mut i: usize = 0;
    proof {
        assert(out.deep_view() =~= lowered_rules(rules@.take(0)));
    }
    while i < rules.len()
        invariant
            input == lowered_rules(rules@),
            i <= rules@.len(),
            sorted_by(out.deep_view(), kind_order()),
            out.deep_view().to_multiset() == lowered_rules(rules@.take(i as int)).to_multiset(),
        decreases rules@.len() - i,
    {
        let x = lowered_rule(&rules[i]);
        let ghost xv = x.deep_view();
        let mut j: usize = 0;
        while j < out.len()
            invariant
                j <= out@.len(),
                xv == x.deep_view(),
                forall|k: int| 0 <= k < j ==> lex_le(#[trigger] out.deep_view()[k].kind, xv.kind),
            ensures
                j <= out@.len(),
                forall|k: int| 0 <= k < j ==> lex_le(#[trigger] out.deep_view()[k].kind, xv.kind),
                j < out@.len() ==> !lex_le(out.deep_view()[j as int].kind, xv.kind),
            decreases out@.len() - j,
        {
            proof {
                assert(out.deep_view()[j as int] == out@[j as int].deep_view());
            }
            if !kind_le_exec(&out[j], &x) {
                break;
            }
            j += 1;
        }
        let ghost before = out.deep_view();
        proof {
            if j < before.len() {
                lemma_lex_total(before[j as int].kind, xv.kind);
                assert(lex_le(xv.kind, before[j as int].kind));
            }
        }
        out.insert(j, x);
        proof {
            let le = kind_order();
            let now = out.deep_view();
            assert(now =~= before.insert(j as int, xv));
            assert forall|a: int, b: int| 0 <= a < b < now.len() implies #[trigger] le(
                now[a],
                now[b],
            ) by {
                if b < j {
                    assert(le(before[a], before[b]));
                } else if a < j && b == j {
                } else if a < j && b > j {
                    assert(le(before[a], xv));
                    if b - 1 > j {
                        assert(le(before[j as int], before[b - 1]));
                    }
                    lemma_lex_transitive(before[a].kind, xv.kind, before[j as int].kind);
                    lemma_lex_transitive(xv.kind, before[j as int].kind, before[b - 1].kind);
                    lemma_lex_transitive(before[a].kind, xv.kind, before[b - 1].kind);
                } else if a == j {
                    if b - 1 > j {
                        assert(le(before[j as int], before[b - 1]));
                        lemma_lex_transitive(xv.kind, before[j as int].kind, before[b - 1].kind);
                    }
                } else {
                    assert(le(before[a - 1], before[b - 1]));
                }
            }
            vstd::seq_lib::to_multiset_insert(before, j as int, xv);
            assert(rules@.take(i + 1).drop_last() == rules@.take(i as int));
            lowered_rules(rules@.take(i as int)).to_multiset_ensures();
        }
        i += 1;
    }
    proof {
        assert(rules@.take(rules@.len() as int) == rules@);
    }
    out
}

/// Builds the lookups of a bundle. `bundle_json` is the bundle's JSON
/// serialization, whose fingerprint names the asset version.
pub fn build_asset_index(bundle: AssetBundle, bundle_json: &str) -> (r: AssetIndex)
    ensures
        r.indexes(bundle, bundle_json@),
{
    let mut alias_index: Vec<AliasEntry> = Vec::new();
    let mut official_account_index: Vec<IndexPair> = Vec::new();
    let mut official_url_seed_index: Vec<IndexPair> = Vec::new();
    let mut game_track_index: Vec<IndexPair> = Vec::new();
    let negative_aliases = lowered_strings(&bundle.negative_aliases);
    let event_rules = sorted_lowered_rules(&bundle.event_rules);
    let parts: [&str; 1] = [bundle_json];
    let fp = fingerprint(&parts, 12);
    proof {
        assert(parts.deep_view() =~= seq![bundle_json@]);
    }
    let asset_version = concat("entity_assets_", fp.as_str());
    let ghost games = bundle.games@;
    let mut i: usize = 0;
    while i < bundle.games.len()
        invariant
            games == bundle.games@,
            i <= games.len(),
            alias_index.deep_view() == alias_entries_of(games.take(i as int)),
            official_account_index.deep_view() == account_pairs_of(games.take(i as int)),
            official_url_seed_index.deep_view() == seed_pairs_of(games.take(i as int)),
            game_track_index.deep_view() == track_pairs_of(games.take(i as int)),
        decreases games.len() - i,
    {
        proof {
            assert(games.take(i + 1).drop_last() == games.take(i as int));
            assert(games.take(i + 1).last() == games[i as int]);
        }
        let g = &bundle.games[i];
        game_track_index.push(IndexPair { key: g.game_id.clone(), value: g.track.clone() });
        push_game_aliases(&mut alias_index, g);
        push_keyed(&mut official_account_index, &g.official_accounts, &g.game_id, true);
        push_keyed(&mut official_url_seed_index, &g.official_url_seeds, &g.game_id, true);
        proof {
            assert(game_track_index.deep_view() =~= track_pairs_of(games.take(i + 1)));
        }
        i += 1;
    }
    proof {
        assert(games.take(games.len() as int) == games);
    }
    AssetIndex {
        bundle,
        alias_index,
        official_account_index,
        official_url_seed_index,
        game_track_index,
        negative_aliases,
        event_rules,
        asset_version,
    }
}

// ---------------------------------------------------------------------------
// normalizing a bundle

pub open spec fn normalized_all(v: Seq<Seq<char>>) -> Seq<Seq<char>> {
    v.map_values(|x: Seq<char>| normalized_text_of(x))
}

/// An alias with its value normalized and its strength and source
/// normalized and lowercased.
pub open spec fn normalized_alias(a: (Seq<char>, Seq<char>, Seq<char>)) -> (
    Seq<char>,
    Seq<char>,
    Seq<char>,
) {
    (normalized_text_of(a.0), norm_lower(a.1), norm_lower(a.2))
}

impl GameAsset {
    /// This game is `g` with normalized names: the standard name,
    /// representative work, aliases, accounts and URL seeds normalized, the
    /// track, alias strengths and sources also lowercased.
    pub open spec fn normalizes(&self, g: GameAsset) -> bool {
        &&& self.game_id@ == g.game_id@
        &&& self.standard_name@ == normalized_text_of(g.standard_name@)
        &&& self.track@ == norm_lower(g.track@)
        &&& self.representative_work@ == normalized_text_of(g.representative_work@)
        &&& self.aliases.deep_view() == g.aliases.deep_view().map_values(
            |a: (Seq<char>, Seq<char>, Seq<char>)| normalized_alias(a),
        )
        &&& self.official_accounts.deep_view() == normalized_all(g.official_accounts.deep_view())
        &&& self.official_url_seeds.deep_view() == normalized_all(g.official_url_seeds.deep_view())
    }
}

/// The position of the first rule with `kind`, or -1.
pub open spec fn kind_position(rules: Seq<EventRuleV>, kind: Seq<char>) -> int
    decreases rules.len(),
{
    if rules.len() == 0 {
        -1
    } else {
        let p = kind_position(rules.drop_last(), kind);
        if p >= 0 {
            p
        } else if rules.last().kind == kind {
            rules.len() - 1
        } else {
            -1
        }
    }
}

/// The rules with normalized lowercased kinds and normalized keywords. Rules
/// whose kinds become equal are one rule, as keys of a map are: the last of
/// them, at the place of the first.
pub open spec fn normalized_rules(rules: Seq<EventRuleV>) -> Seq<EventRuleV>
    decreases rules.len(),
{
    if rules.len() == 0 {
        Seq::<EventRuleV>::empty()
    } else {
        let rest = normalized_rules(rules.drop_last());
        let r = rules.last();
        let n = EventRuleV { kind: norm_lower(r.kind), keywords: normalized_all(r.keywords) };
        let p = kind_position(rest, n.kind);
        if p >= 0 {
            rest.update(p, n)
        } else {
            rest.push(n)
        }
    }
}

fn normalized_strings(v: &Vec<String>) -> (r: Vec<String>)
    ensures
        r.deep_view() == normalized_all(v.deep_view()),
{
    let ghost vv = v.deep_view();
    let mut out: Vec<String> = Vec::new();
    let mut j: usize = 0;
    while j < v.len()
        invariant
            vv == v.deep_view(),
            j <= vv.len(),
            out.deep_view() == normalized_all(vv.take(j as int)),
        decreases vv.len() - j,
    {
        let n = normalize_text(v[j].as_str());
        let ghost before = out.deep_view();
        out.push(n);
        proof {
            assert(out.deep_view() =~= before.push(n@));
            assert(vv.take(j + 1) =~= vv.take(j as int).push(vv[j as int]));
            assert(out.deep_view() =~= normalized_all(vv.take(j + 1)));
        }
        j += 1;
    }
    proof {
        assert(vv.take(vv.len() as int) == vv);
    }
    out
}

fn normalize_game(g: &GameAsset) -> (r: GameAsset)
    ensures
        r.normalizes(*g),
{
    let ghost av = g.aliases.deep_view();
    let mut aliases: Vec<AliasRule> = Vec::new();
    let mut j: usize = 0;
    while j < g.aliases.len()
        invariant
            av == g.aliases.deep_view(),
            j <= av.len(),
            aliases.deep_view() == av.take(j as int).map_values(
                |a: (Seq<char>, Seq<char>, Seq<char>)| normalized_alias(a),
            ),
        decreases av.len() - j,
    {
        let a = &g.aliases[j];
        let n = AliasRule {
            value: normalize_text(a.value.as_str()),
            strength: normalize_lower(a.strength.as_str()),
            source: normalize_lower(a.source.as_str()),
        };
        let ghost before = aliases.deep_view();
        aliases.push(n);
        proof {
            assert(aliases.deep_view() =~= before.push(n.deep_view()));
            assert(av[j as int] == a.deep_view());
            assert(aliases.deep_view() =~= av.take(j + 1).map_values(
                |a: (Seq<char>, Seq<char>, Seq<char>)| normalized_alias(a),
            ));
        }
        j += 1;
    }
    proof {
        assert(av.take(av.len() as int) == av);
    }
    GameAsset {
        game_id: g.game_id.clone(),
        standard_name: normalize_text(g.standard_name.as_str()),
        track: normalize_lower(g.track.as_str()),
        representative_work: normalize_text(g.representative_work.as_str()),
        aliases,
        official_accounts: normalized_strings(&g.official_accounts),
        official_url_seeds: normalized_strings(&g.official_url_seeds),
    }
}

fn rule_position(rules: &Vec<EventRule>, kind: &str) -> (r: Option<usize>)
    ensures
        r matches Some(p) ==> kind_position(rules.deep_view(), kind@) == p as int && p
            < rules@.len(),
        r is None ==> kind_position(rules.deep_view(), kind@) == -1,
{
    let ghost rv = rules.deep_view();
    let mut i: usize = 0;
    while i < rules.len()
        invariant
            rv == rules.deep_view(),
            i <= rv.len(),
            kind_position(rv.take(i as int), kind@) == -1,
        decreases rv.len() - i,
    {
        proof {
            assert(rv.take(i + 1).drop_last() == rv.take(i as int));
            assert(rv.take(i + 1).last() == rv[i as int]);
        }
        if str_eq(rules[i].kind.as_str(), kind) {
            proof {
                assert(kind_position(rv.take(i + 1), kind@) == i);
                lemma_kind_position_prefix(rv, kind@, i + 1);
            }
            return Some(i);
        }
        i += 1;
    }
    proof {
        assert(rv.take(rv.len() as int) == rv);
    }
    None
}

proof fn lemma_kind_position_prefix(rs: Seq<EventRuleV>, kind: Seq<char>, n: int)
    requires
        0 <= n <= rs.len(),
        kind_position(rs.take(n), kind) >= 0,
    ensures
        kind_position(rs, kind) == kind_position(rs.take(n), kind),
    decreases rs.len() - n,
{
    if n < rs.len() {
        assert(rs.take(n + 1).drop_last() == rs.take(n));
        lemma_kind_position_prefix(rs, kind, n + 1);
    } else {
        assert(rs.take(n) == rs);
    }
}

/// The bundle with every name, alias, keyword and kind normalized.
pub fn normalize_bundle(bundle: AssetBundle) -> (r: AssetBundle)
    ensures
        r.normalizes(bundle),
        r.games@.len() == bundle.games@.len(),
        forall|i: int| 0 <= i < bundle.games@.len() ==> #[trigger] r.games@[i].normalizes(
            bundle.games@[i],
        ),
        r.negative_aliases.deep_view() == normalized_all(bundle.negative_aliases.deep_view()),
        r.event_rules.deep_view() == normalized_rules(bundle.event_rules.deep_view()),
{
    let mut games: Vec<GameAsset> = Vec::new();
    let mut i: usize = 0;
    while i < bundle.games.len()
        invariant
            i <= bundle.games@.len(),
            games@.len() == i,
            forall|k: int| 0 <= k < i ==> #[trigger] games@[k].normalizes(bundle.games@[k]),
        decreases bundle.games@.len() - i,
    {
        games.push(normalize_game(&bundle.games[i]));
        i += 1;
    }
    let ghost rv = bundle.event_rules.deep_view();
    let mut rules: Vec<EventRule> = Vec::new();
    let mut j: usize = 0;
    proof {
        assert(rules.deep_view() =~= normalized_rules(rv.take(0)));
    }
    while j < bundle.event_rules.len()
        invariant
            rv == bundle.event_rules.deep_view(),
            j <= rv.len(),
            rules.deep_view() == normalized_rules(rv.take(j as int)),
        decreases rv.len() - j,
    {
        proof {
            assert(rv.take(j + 1).drop_last() == rv.take(j as int));
            assert(rv.take(j + 1).last() == rv[j as int]);
        }
        let r = &bundle.event_rules[j];
        let n = EventRule { kind: normalize_lower(r.kind.as_str()), keywords: normalized_strings(&r.keywords) };
        let ghost nv = n.deep_view();
        let ghost before = rules.deep_view();
        match rule_position(&rules, n.kind.as_str()) {
            Some(p) => {
                rules.set(p, n);
                proof {
                    assert(rules.deep_view() =~= before.update(p as int, nv));
                }
            },
            None => {
                rules.push(n);
                proof {
                    assert(rules.deep_view() =~= before.push(nv));
                }
            },
        }
        j += 1;
    }
    proof {
        assert(rv.take(rv.len() as int) == rv);
    }
    AssetBundle {
        games,
        negative_aliases: normalized_strings(&bundle.negative_aliases),
        event_rules: rules,
    }
}

// ---------------------------------------------------------------------------
// alias rows of a bundle

/// One stored alias: the alias text, its game and track, strength and
/// source.
pub struct AliasRow {
    pub alias: String,
    pub game_id: String,
    pub track: String,
    pub strength: String,
    pub source: String,
}

pub struct AliasRowV {
    pub alias: Seq<char>,
    pub game_id: Seq<char>,
    pub track: Seq<char>,
    pub strength: Seq<char>,
    pub source: Seq<char>,
}

impl DeepView for AliasRow {
    type V = AliasRowV;

    open spec fn deep_view(&self) -> AliasRowV {
        AliasRowV {
            alias: self.alias@,
            game_id: self.game_id@,
            track: self.track@,
            strength: self.strength@,
            source: self.source@,
        }
    }
}

pub open spec fn rule_rows(g: GameAsset, rules: Seq<AliasRule>) -> Seq<AliasRowV>
    decreases rules.len(),
{
    if rules.len() == 0 {
        Seq::<AliasRowV>::empty()
    } else {
        let a = rules.last();
        rule_rows(g, rules.drop_last()).push(
            AliasRowV {
                alias: a.value@,
                game_id: g.game_id@,
                track: g.track@,
                strength: a.strength@,
                source: a.source@,
            },
        )
    }
}

/// The rows of a game: its standard name (strong, `standard_name`), then its
/// aliases as written in the bundle.
pub open spec fn game_rows(g: GameAsset) -> Seq<AliasRowV> {
    seq![
        AliasRowV {
            alias: g.standard_name@,
            game_id: g.game_id@,
            track: g.track@,
            strength: "strong"@,
            source: "standard_name"@,
        },
    ] + rule_rows(g, g.aliases@)
}

pub open spec fn alias_rows_of(games: Seq<GameAsset>) -> Seq<AliasRowV>
    decreases games.len(),
{
    if games.len() == 0 {
        Seq::<AliasRowV>::empty()
    } else {
        alias_rows_of(games.drop_last()) + game_rows(games.last())
    }
}

fn push_game_rows(out: &mut Vec<AliasRow>, g: &GameAsset)
    ensures
        final(out).deep_view() == old(out).deep_view() + game_rows(*g),
{
    let ghost start = out.deep_view();
    out.push(
        AliasRow {
            alias: g.standard_name.clone(),
            game_id: g.game_id.clone(),
            track: g.track.clone(),
            strength: crate::strs::owned("strong"),
            source: crate::strs::owned("standard_name"),
        },
    );
    let ghost head = out.deep_view();
    let mut j: usize = 0;
    while j < g.aliases.len()
        invariant
            j <= g.aliases@.len(),
            out.deep_view() == head + rule_rows(*g, g.aliases@.take(j as int)),
        decreases g.aliases@.len() - j,
    {
        proof {
            assert(g.aliases@.take(j + 1).drop_last() == g.aliases@.take(j as int));
            assert(g.aliases@.take(j + 1).last() == g.aliases@[j as int]);
        }
        let a = &g.aliases[j];
        let row = AliasRow {
            alias: a.value.clone(),
            game_id: g.game_id.clone(),
            track: g.track.clone(),
            strength: a.strength.clone(),
            source: a.source.clone(),
        };
        let ghost before = out.deep_view();
        out.push(row);
        proof {
            assert(out.deep_view() =~= before.push(row.deep_view()));
            assert(out.deep_view() =~= head + rule_rows(*g, g.aliases@.take(j + 1)));
        }
        j += 1;
    }
    proof {
        assert(g.aliases@.take(g.aliases@.len() as int) == g.aliases@);
        assert(out.deep_view() =~= start + game_rows(*g));
    }
}

/// The alias rows that a bundle stores, game by game.
pub fn alias_rows(bundle: &AssetBundle) -> (r: Vec<AliasRow>)
    ensures
        r.deep_view() == alias_rows_of(bundle.games@),
{
    let ghost games = bundle.games@;
    let mut out: Vec<AliasRow> = Vec::new();
    let mut i: usize = 0;
    while i < bundle.games.len()
        invariant
            games == bundle.games@,
            i <= games.len(),
            out.deep_view() == alias_rows_of(games.take(i as int)),
        decreases games.len() - i,
    {
        proof {
            assert(games.take(i + 1).drop_last() == games.take(i as int));
            assert(games.take(i + 1).last() == games[i as int]);
        }
        push_game_rows(&mut out, &bundle.games[i]);
        i += 1;
    }
    proof {
        assert(games.take(games.len() as int) == games);
    }
    out
}

/// The asset version of a bundle from its JSON serialization.
pub fn asset_version_for(bundle_json: &str) -> (r: String)
    ensures
        r@ == asset_version_of(bundle_json@),
{
    let parts: [&str; 1] = [bundle_json];
    let fp = fingerprint(&parts, 12);
    proof {
        assert(parts.deep_view() =~= seq![bundle_json@]);
    }
    concat("entity_assets_", fp.as_str())
}


// ---------------------------------------------------------------------------
// normalizing twice

impl AssetBundle {
    /// This bundle is `b` normalized: its games are `b`'s in order, each
    /// normalized; its negative aliases and event rules are `b`'s
    /// normalized.
    pub open spec fn normalizes(&self, b: AssetBundle) -> bool {
        &&& self.games@.len() == b.games@.len()
        &&& forall|i: int| 0 <= i < b.games@.len() ==> #[trigger] self.games@[i].normalizes(b.games@[i])
        &&& self.negative_aliases.deep_view() == normalized_all(b.negative_aliases.deep_view())
        &&& self.event_rules.deep_view() == normalized_rules(b.event_rules.deep_view())
    }

    /// Every text of the bundle is plain: ASCII and CJK unified ideographs
    /// only.
    pub open spec fn is_plain_bundle(&self) -> bool {
        &&& forall|i: int| 0 <= i < self.games@.len() ==> (#[trigger] self.games@[i]).is_plain_game()
        &&& all_plain(self.negative_aliases.deep_view())
        &&& forall|k: int|
            0 <= k < self.event_rules@.len() ==> is_plain((#[trigger] self.event_rules@[k]).kind@)
                && all_plain(self.event_rules@[k].keywords.deep_view())
    }
}

impl GameAsset {
    /// Every text of the game that normalization touches is plain.
    pub open spec fn is_plain_game(&self) -> bool {
        &&& is_plain(self.standard_name@)
        &&& is_plain(self.track@)
        &&& is_plain(self.representative_work@)
        &&& forall|j: int|
            0 <= j < self.aliases@.len() ==> is_plain((#[trigger] self.aliases@[j]).value@) && is_plain(
                self.aliases@[j].strength@,
            ) && is_plain(self.aliases@[j].source@)
        &&& all_plain(self.official_accounts.deep_view())
        &&& all_plain(self.official_url_seeds.deep_view())
    }
}

pub open spec fn all_plain(v: Seq<Seq<char>>) -> bool {
    forall|i: int| 0 <= i < v.len() ==> is_plain(#[trigger] v[i])
}

/// The event rules are already normalized: each kind and keyword is its
/// own normalized form, and no two rules share a kind.
pub open spec fn rules_settled(rules: Seq<EventRuleV>) -> bool {
    &&& forall|k: int|
        0 <= k < rules.len() ==> norm_lower((#[trigger] rules[k]).kind) == rules[k].kind
            && normalized_all(rules[k].keywords) == rules[k].keywords
    &&& forall|a: int, b: int| 0 <= a < b < rules.len() ==> #[trigger] rules[a].kind != #[trigger] rules[b].kind
}

proof fn lemma_all_plain_once(v: Seq<Seq<char>>)
    requires
        all_plain(v),
    ensures
        normalized_all(normalized_all(v)) == normalized_all(v),
        all_plain(normalized_all(v)),
{
    assert forall|i: int| 0 <= i < v.len() implies #[trigger] normalized_all(normalized_all(v))[i]
        == normalized_all(v)[i] && is_plain(normalized_all(v)[i]) by {
        lemma_plain_normalizes_once(v[i]);
    }
    assert(normalized_all(normalized_all(v)) =~= normalized_all(v));
}

proof fn lemma_kind_position_facts(rules: Seq<EventRuleV>, kind: Seq<char>)
    ensures
        kind_position(rules, kind) >= 0 ==> kind_position(rules, kind) < rules.len()
            && rules[kind_position(rules, kind)].kind == kind,
        kind_position(rules, kind) == -1 ==> forall|k: int|
            0 <= k < rules.len() ==> #[trigger] rules[k].kind != kind,
        kind_position(rules, kind) >= -1,
    decreases rules.len(),
{
    if rules.len() > 0 {
        lemma_kind_position_facts(rules.drop_last(), kind);
        assert forall|k: int| 0 <= k < rules.len() - 1 implies #[trigger] rules[k] == rules.drop_last()[k] by {}
    }
}

proof fn lemma_rules_settle(rules: Seq<EventRuleV>)
    requires
        forall|k: int|
            0 <= k < rules.len() ==> is_plain((#[trigger] rules[k]).kind) && all_plain(rules[k].keywords),
    ensures
        rules_settled(normalized_rules(rules)),
    decreases rules.len(),
{
    if rules.len() > 0 {
        let init = rules.drop_last();
        assert forall|k: int| 0 <= k < init.len() implies is_plain((#[trigger] init[k]).kind) && all_plain(
            init[k].keywords,
        ) by {
            assert(init[k] == rules[k]);
        }
        lemma_rules_settle(init);
        let rest = normalized_rules(init);
        let r = rules.last();
        assert(r == rules[rules.len() - 1]);
        lemma_plain_normalizes_once(r.kind);
        lemma_all_plain_once(r.keywords);
        let n = EventRuleV { kind: norm_lower(r.kind), keywords: normalized_all(r.keywords) };
        lemma_kind_position_facts(rest, n.kind);
        let out = normalized_rules(rules);
        let p = kind_position(rest, n.kind);
        if p >= 0 {
            assert(out == rest.update(p, n));
            assert forall|a: int, b: int| 0 <= a < b < out.len() implies #[trigger] out[a].kind
                != #[trigger] out[b].kind by {
                assert(out[a].kind == rest[a].kind);
                assert(out[b].kind == rest[b].kind);
            }
        } else {
            assert(out == rest.push(n));
            assert forall|a: int, b: int| 0 <= a < b < out.len() implies #[trigger] out[a].kind
                != #[trigger] out[b].kind by {
                if b == rest.len() {
                    assert(out[a] == rest[a]);
                } else {
                    assert(out[a] == rest[a] && out[b] == rest[b]);
                }
            }
        }
    }
}

proof fn lemma_settled_rules_fixed(rules: Seq<EventRuleV>)
    requires
        rules_settled(rules),
    ensures
        normalized_rules(rules) == rules,
    decreases rules.len(),
{
    if rules.len() > 0 {
        let init = rules.drop_last();
        assert forall|k: int| 0 <= k < init.len() implies #[trigger] init[k] == rules[k] by {}
        lemma_settled_rules_fixed(init);
        let r = rules.last();
        assert(r == rules[rules.len() - 1]);
        let n = EventRuleV { kind: norm_lower(r.kind), keywords: normalized_all(r.keywords) };
        assert(n == r);
        lemma_kind_position_facts(init, r.kind);
        if kind_position(init, r.kind) >= 0 {
            let p = kind_position(init, r.kind);
            assert(rules[p].kind == r.kind);
        }
        assert(init.push(r) =~= rules);
    }
}

/// Normalizing a bundle of plain text (ASCII and CJK unified ideographs)
/// twice is normalizing it once: its normalized form normalizes to itself.
pub proof fn lemma_normalize_bundle_idempotent(b: AssetBundle, n: AssetBundle)
    requires
        b.is_plain_bundle(),
        n.normalizes(b),
    ensures
        n.normalizes(n),
{
    assert forall|i: int| 0 <= i < n.games@.len() implies #[trigger] n.games@[i].normalizes(
        n.games@[i],
    ) by {
        let g = b.games@[i];
        let m = n.games@[i];
        assert(m.normalizes(g));
        assert(g.is_plain_game());
        lemma_plain_normalizes_once(g.standard_name@);
        lemma_plain_normalizes_once(g.track@);
        lemma_plain_normalizes_once(g.representative_work@);
        lemma_all_plain_once(g.official_accounts.deep_view());
        lemma_all_plain_once(g.official_url_seeds.deep_view());
        let av = g.aliases.deep_view();
        assert forall|j: int| 0 <= j < av.len() implies #[trigger] normalized_alias(
            normalized_alias(av[j]),
        ) == normalized_alias(av[j]) by {
            assert(av[j] == g.aliases@[j].deep_view());
            assert(is_plain(g.aliases@[j].value@));
            lemma_plain_normalizes_once(av[j].0);
            lemma_plain_normalizes_once(av[j].1);
            lemma_plain_normalizes_once(av[j].2);
        }
        let mv = m.aliases.deep_view();
        assert(mv.map_values(|a: (Seq<char>, Seq<char>, Seq<char>)| normalized_alias(a)) =~= mv);
    }
    lemma_all_plain_once(b.negative_aliases.deep_view());
    let rv = b.event_rules.deep_view();
    assert forall|k: int| 0 <= k < rv.len() implies is_plain((#[trigger] rv[k]).kind) && all_plain(
        rv[k].keywords,
    ) by {
        assert(rv[k] == b.event_rules@[k].deep_view());
    }
    lemma_rules_settle(rv);
    lemma_settled_rules_fixed(normalized_rules(rv));
}

} // verus!
