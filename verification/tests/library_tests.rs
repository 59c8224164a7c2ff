use spg::assets::{alias_rows, asset_version_for, build_asset_index, normalize_bundle};
use spg::dedupe::DedupeState;
use spg::events::{attribute_event, event_priority};
use spg::focus::{
    mock_sources_for, stored_game_focus, EdgeStrength, GalaxyCount, NodeAngle, NodeSize,
};
use spg::galaxy::{
    event_list_item, game_list_item, lists_events, stored_list, summary_from_counts,
    GalaxyService, MockGalaxyRepository,
};
use spg::metrics::tally;
use spg::models::{AliasRule, AssetBundle, EventRule, GameAsset, RawSourceItem};
use spg::pipeline::{rule_version, SPGInputPipeline};
use spg::providers::{
    bool_to_int, build_setup_page, compute_unlock_state, default_settings, mask_secret,
    plan_save, provider_view, secret_is_set, secret_key, simulate_test_at, test_use_amount, LatestTestRecord,
    ProviderKind, ProviderStatusView, SecretChange,
};
use spg::resolve::resolve_item;
use spg::scores::{
    add_scores, capped_hundredths, mul_score, score_hundredths, SCORE_003, SCORE_005, SCORE_010, SCORE_012,
    SCORE_015, SCORE_055, SCORE_058, SCORE_068, SCORE_070, SCORE_072, SCORE_078, SCORE_086,
    SCORE_088, SCORE_090, SCORE_098, SCORE_099, UNIT_ONE,
};
use spg::secrets::{keyring_choice, MemorySecretStore, SecretStore};
use spg::strs::{decimal, dedup_strings, sort_strings};
use spg::text_utils::{
    fingerprint, infer_source_layer, new_run_id, normalize_author, normalize_content_type,
    normalize_platform, normalize_source_type, normalize_text, normalize_timestamp, run_id_at,
    tokenize, utc_text_of,
};
use spg::urls::{extract_reference_urls, normalize_url, url_seed_matches};
use spg::vault::{
    base64_text, open_payload, seal_payload, seal_payload_fresh, vault_key, VaultError,
};

fn s(x: &str) -> String {
    x.to_string()
}

fn f(units: u64) -> f64 {
    units as f64 / UNIT_ONE as f64
}

// ---------------------------------------------------------------------------
// scores

#[test]
fn score_constants_are_the_f64_literals() {
    let table = [
        (SCORE_099, 0.99),
        (SCORE_098, 0.98),
        (SCORE_090, 0.9),
        (SCORE_088, 0.88),
        (SCORE_086, 0.86),
        (SCORE_078, 0.78),
        (SCORE_072, 0.72),
        (SCORE_070, 0.70),
        (SCORE_068, 0.68),
        (SCORE_058, 0.58),
        (SCORE_055, 0.55),
        (SCORE_015, 0.15),
        (SCORE_012, 0.12),
        (SCORE_010, 0.10),
        (SCORE_005, 0.05),
        (SCORE_003, 0.03),
    ];
    for (units, value) in table {
        assert_eq!(f(units), value);
    }
    assert_eq!(f(UNIT_ONE), 1.0);
}

#[test]
fn score_arithmetic_rounds_as_f64() {
    for (units, value) in [(SCORE_088, 0.88), (SCORE_078, 0.78), (SCORE_070, 0.70), (SCORE_058, 0.58)] {
        assert_eq!(f(add_scores(units, SCORE_005)), value + 0.05);
    }
    for k in 1..=4u64 {
        assert_eq!(f(mul_score(k, SCORE_003)), k as f64 * 0.03);
    }
}

fn candidate_units(base: u64, n: u64) -> u64 {
    let bonus = if n <= 1 {
        0
    } else if n <= 5 {
        mul_score(n - 1, SCORE_003).min(SCORE_012)
    } else {
        SCORE_012
    };
    add_scores(base, bonus).min(SCORE_099)
}

fn candidate_f64(base: f64, n: u64) -> f64 {
    let bonus = ((n.saturating_sub(1)) as f64 * 0.03).min(0.12);
    (base + bonus).min(0.99)
}

#[test]
fn candidate_scores_and_decisions_agree_with_f64() {
    let mut bases: Vec<(u64, f64)> = vec![(SCORE_099, 0.99), (SCORE_098, 0.98)];
    for (units, value) in [(SCORE_088, 0.88), (SCORE_078, 0.78), (SCORE_070, 0.70), (SCORE_058, 0.58)] {
        bases.push((units, value));
        bases.push((add_scores(units, SCORE_005), (value + 0.05f64).min(0.99)));
    }
    let mut cands: Vec<(u64, f64)> = Vec::new();
    for (units, value) in &bases {
        for n in 1..=9u64 {
            let u = candidate_units(*units, n);
            let x = candidate_f64(*value, n);
            assert_eq!(f(u), x);
            cands.push((u, x));
        }
    }
    let thresholds = [
        (SCORE_086, 0.86),
        (SCORE_072, 0.72),
        (SCORE_068, 0.68),
        (SCORE_055, 0.55),
        (SCORE_090, 0.9),
    ];
    for (u, x) in &cands {
        for (t, v) in thresholds {
            assert_eq!(*u >= t, *x >= v);
        }
        assert_eq!(score_hundredths(*u) as f64 / 100.0, (x * 100.0).round() / 100.0);
    }
    let mut mismatched_decimal_gaps = 0;
    for (u1, x1) in &cands {
        for (u2, x2) in &cands {
            assert_eq!(u1 > u2, x1 > x2);
            assert_eq!(u1 == u2, x1 == x2);
            if u1 >= u2 {
                let gu = u1 - u2;
                let gx = x1 - x2;
                assert_eq!(gu >= SCORE_010, gx >= 0.10);
                assert_eq!(gu >= SCORE_015, gx >= 0.15);
                assert_eq!(score_hundredths(gu) as f64 / 100.0, (gx * 100.0).round() / 100.0);
                let decimal = score_hundredths(*u1) - score_hundredths(*u2);
                if (decimal >= 10) != (gx >= 0.10) {
                    mismatched_decimal_gaps += 1;
                }
            }
        }
    }
    // hundredths alone would decide some gaps differently from f64
    assert!(mismatched_decimal_gaps > 0);
}

#[test]
fn score_hundredths_rounds_to_nearest() {
    assert_eq!(score_hundredths(SCORE_099), 99);
    assert_eq!(score_hundredths(SCORE_088 - SCORE_078), 10);
    assert_eq!(score_hundredths(add_scores(SCORE_088, SCORE_005)), 93);
    assert_eq!(score_hundredths(0), 0);
}

// ---------------------------------------------------------------------------
// resolution

fn game(id: &str, name: &str, aliases: &[(&str, &str, &str)], accounts: &[&str]) -> GameAsset {
    GameAsset {
        game_id: s(id),
        standard_name: s(name),
        track: s("slg"),
        representative_work: s(name),
        aliases: aliases
            .iter()
            .map(|(v, st, so)| AliasRule { value: s(v), strength: s(st), source: s(so) })
            .collect(),
        official_accounts: accounts.iter().map(|a| s(a)).collect(),
        official_url_seeds: vec![],
    }
}

fn bundle_of(games: Vec<GameAsset>) -> AssetBundle {
    AssetBundle { games, negative_aliases: vec![], event_rules: vec![] }
}

#[test]
fn gap_of_exactly_a_tenth_in_decimals_is_below_a_tenth() {
    let index = build_asset_index(
        bundle_of(vec![
            game("game_a", "甲游戏", &[("甲", "strong", "short_name")], &[]),
            game("game_b", "乙游戏", &[("乙", "strong", "short_name")], &[]),
        ]),
        "b",
    );
    // 0.88 (strong, title) against 0.78 (strong, body): 0.88 - 0.78 < 0.10 in f64
    let r = resolve_item(&index, "作者", "", "甲", "乙", "content_platform");
    assert_eq!(r.candidates, vec![s("game_a"), s("game_b")]);
    assert_eq!(r.method, "track_fallback");
    assert_eq!(r.resolved_track_id.as_deref(), Some("slg"));
    assert_eq!(r.confidence, 88);
    assert_eq!(r.gap, 10);
}

#[test]
fn standard_name_alone_resolves_with_its_score() {
    let index = build_asset_index(bundle_of(vec![game("game_a", "甲游戏", &[], &[])]), "b");
    let r = resolve_item(&index, "作者", "", "甲游戏新闻", "正文", "content_platform");
    assert_eq!(r.method, "standard_name_match");
    assert_eq!(r.resolved_game_id.as_deref(), Some("game_a"));
    assert_eq!(r.confidence, 93);
    assert_eq!(r.scored[0].evidences.len(), 1);
    assert_eq!(r.scored[0].evidences[0].source, "standard_name");
}

#[test]
fn weak_single_alias_needs_point_seventy_two() {
    let index = build_asset_index(
        bundle_of(vec![game("game_a", "甲游戏", &[("甲", "weak", "short_name")], &[])]),
        "b",
    );
    let in_title = resolve_item(&index, "作者", "", "甲", "", "content_platform");
    assert_eq!(in_title.method, "track_fallback");
    assert_eq!(in_title.confidence, 70);
    let official = resolve_item(&index, "作者", "", "甲", "", "official");
    assert_eq!(official.method, "context_resolution");
    assert_eq!(official.resolved_game_id.as_deref(), Some("game_a"));
}

#[test]
fn official_account_resolves_with_full_confidence() {
    let index = build_asset_index(
        bundle_of(vec![game("game_a", "甲游戏", &[], &["甲官方"])]),
        "b",
    );
    let r = resolve_item(&index, "甲官方", "", "公告", "正文", "official");
    assert_eq!(r.method, "official_account_match");
    assert_eq!(r.confidence, 99);
    assert_eq!(r.scope, "game");
    assert!(r.unresolved_reason.is_none());
}

#[test]
fn no_evidence_is_unresolved_without_candidates() {
    let index = build_asset_index(bundle_of(vec![game("game_a", "甲游戏", &[], &[])]), "b");
    let r = resolve_item(&index, "作者", "", "无关", "内容", "media");
    assert!(r.candidates.is_empty());
    assert_eq!(r.method, "unresolved");
    assert_eq!(r.unresolved_reason.as_deref(), Some("no_candidate"));
    assert_eq!(r.confidence, 0);
}

// ---------------------------------------------------------------------------
// events

fn event_index(rules: Vec<EventRule>) -> spg::assets::AssetIndex {
    build_asset_index(AssetBundle { games: vec![], negative_aliases: vec![], event_rules: rules }, "e")
}

fn rule(kind: &str, keywords: &[&str]) -> EventRule {
    EventRule { kind: s(kind), keywords: keywords.iter().map(|k| s(k)).collect() }
}

#[test]
fn more_hits_win_then_priority_then_kind() {
    let index = event_index(vec![
        rule("activity", &["活动", "福利"]),
        rule("version", &["版本"]),
        rule("zeta", &["公告"]),
        rule("alpha", &["公告"]),
    ]);
    let more = attribute_event(&index, "版本活动福利", "");
    assert_eq!(more.event_type.as_deref(), Some("activity"));
    assert_eq!(more.keywords, vec![s("活动"), s("福利")]);
    let tie = attribute_event(&index, "版本活动", "");
    assert_eq!(tie.event_type.as_deref(), Some("version"));
    let kinds = attribute_event(&index, "公告", "");
    assert_eq!(kinds.event_type.as_deref(), Some("alpha"));
    let none = attribute_event(&index, "无关", "内容");
    assert!(none.event_type.is_none());
    assert!(none.keywords.is_empty());
}

#[test]
fn event_priorities() {
    assert_eq!(event_priority("version"), 0);
    assert_eq!(event_priority("launch"), 1);
    assert_eq!(event_priority("test"), 2);
    assert_eq!(event_priority("collab"), 3);
    assert_eq!(event_priority("activity"), 4);
    assert_eq!(event_priority("controversy"), 5);
    assert_eq!(event_priority("season"), 9);
}

// ---------------------------------------------------------------------------
// folding

#[test]
fn folding_joins_groups_in_order() {
    let mut st = DedupeState::new();
    let keys_a = vec![s("url::a"), s("content::a")];
    let keys_b = vec![s("url::b"), s("url::a"), s("content::b")];
    let keys_c = vec![s("content::c")];
    let a = st.fold("sig_a", "src_a", &keys_a, "info::x", "run", "t0");
    assert_eq!(a.duplicate_type, "none");
    assert_eq!(a.canonical_signal_id, "sig_a");
    assert_eq!(a.dup_rank, 0);
    let b = st.fold("sig_b", "src_b", &keys_b, "info::y", "run", "t1");
    assert_eq!(b.duplicate_type, "content_near_duplicate");
    assert_eq!(b.canonical_signal_id, "sig_a");
    assert_eq!(b.matched_content_key.as_deref(), Some("url::a"));
    assert_eq!(b.dup_rank, 1);
    let c = st.fold("sig_c", "src_c", &keys_c, "info::x", "run", "t2");
    assert_eq!(c.duplicate_type, "information_duplicate");
    assert_eq!(c.canonical_signal_id, "sig_a");
    assert_eq!(c.dup_rank, 1);
    assert_eq!(st.groups.len(), 2);
    assert_eq!(st.groups[0].member_signal_ids, vec![s("sig_a"), s("sig_b")]);
    assert_eq!(st.groups[0].member_source_ids, vec![s("src_a"), s("src_b")]);
    assert_eq!(st.groups[0].created_at, "t1");
    assert!(st.groups[0].dup_group_id.starts_with("dup_"));
    let again = st.fold("sig_b", "src_b", &keys_b, "info::y", "run", "t3");
    assert_eq!(again.dup_rank, 1);
    assert_eq!(st.groups[0].member_signal_ids.len(), 2);
}

// ---------------------------------------------------------------------------
// pipeline

fn raw(source_id: &str, title: &str, text: &str, url: &str, published_at: &str) -> RawSourceItem {
    RawSourceItem {
        source_id: s(source_id),
        platform: s("B站"),
        source_type: s("社区"),
        content_type: s("视频"),
        title: s(title),
        text: s(text),
        author: s("Author"),
        published_at: s(published_at),
        url: s(url),
        fetched_at: s(""),
        original_url: Some(s("https://example.com/orig/?utm_source=x")),
    }
}

#[test]
fn clean_item_normalizes_fields() {
    let pipeline = SPGInputPipeline::new(event_index(vec![]));
    let clean = pipeline.clean_item(&raw(
        "r1",
        "  标题　One ",
        "see https://a.com/x?utm_medium=y&k=1 now",
        "https://a.com/x/?b=2&a=1#top",
        "2026/04/10 11:10",
    ));
    assert_eq!(clean.clean_id, "clean_r1");
    assert_eq!(clean.platform, "bilibili");
    assert_eq!(clean.source_type, "community");
    assert_eq!(clean.content_type, "video");
    assert_eq!(clean.source_layer, "community");
    assert_eq!(clean.normalized_title, "标题 One");
    assert_eq!(clean.normalized_author, "author");
    assert_eq!(clean.normalized_url, "https://a.com/x/?a=1&b=2");
    assert_eq!(clean.reference_urls, vec![s("https://a.com/x?k=1"), s("https://example.com/orig")]);
    assert_eq!(clean.normalized_published_at.as_deref(), Some("2026-04-10T03:10:00Z"));
    assert_eq!(clean.title_tokens, vec![s("标题"), s("one")]);
    assert_eq!(clean.title_fingerprint.len(), 24);
    assert!(clean.url_fingerprint.is_some());
    assert_eq!(clean.reference_url_fingerprints.len(), 2);
}

#[test]
fn process_counts_the_run() {
    let pipeline = SPGInputPipeline::new(build_asset_index(
        bundle_of(vec![game("game_a", "甲游戏", &[], &["甲官方"])]),
        "b",
    ));
    let mut first = raw("r1", "甲游戏公告", "内容一", "https://a.com/1", "2026-04-10");
    first.author = s("甲官方");
    let second = raw("r2", "无关", "内容二", "https://a.com/1", "2026-04-10");
    let mut third = raw("r3", "无关标题", "内容三", "https://b.com/3", "");
    third.original_url = None;
    let result = pipeline.process(vec![first, second, third]);
    assert!(result.run_id.starts_with("run_"));
    assert_eq!(result.rule_version, rule_version());
    assert_eq!(result.signals.len(), 3);
    assert_eq!(result.signals[0].state, "canonical");
    assert_eq!(result.signals[1].state, "folded");
    assert_eq!(result.signals[1].canonical_signal_id, result.signals[0].signal_id);
    assert_eq!(result.signals[2].state, "unresolved");
    assert_eq!(result.signals[0].trace.len(), 5);
    assert_eq!(result.signals[0].trace[2].decision, "official_account_match");
    assert_eq!(result.signals[1].trace[4].decision, "content_near_duplicate");
    assert_eq!(result.unresolved_records.len(), 2);
    assert_eq!(result.unresolved_records[0].reason, "no_candidate");
    let m = &result.metrics;
    assert_eq!(m.processed_items, 3);
    assert_eq!(m.unresolved_count, 1);
    assert_eq!(m.duplicate_count, 1);
    assert_eq!(m.high, 1);
    assert_eq!(m.low, 2);
    assert_eq!(m.medium, 0);
    assert_eq!(m.signals_per_game.len(), 1);
    assert_eq!(m.signals_per_game[0].key, "game_a");
    assert_eq!(m.platform_counts[0].count, 3);
    assert_eq!(result.signals[2].normalized_published_at, None);
    assert_eq!(result.signals[0].normalized_published_at.as_deref(), Some("2026-04-09T16:00:00Z"));
}

#[test]
fn process_logs_five_steps_per_signal() {
    let pipeline = SPGInputPipeline::new(build_asset_index(
        bundle_of(vec![game("game_a", "甲游戏", &[], &["甲官方"])]),
        "b",
    ));
    let mut first = raw("r1", "甲游戏公告", "内容一", "https://a.com/1", "2026-04-10");
    first.author = s("甲官方");
    let second = raw("r2", "无关", "内容二", "https://a.com/1", "2026-04-10");
    let result = pipeline.process(vec![first, second]);
    assert_eq!(result.resolution_logs.len(), 10);
    for (m, log) in result.resolution_logs.iter().enumerate() {
        let signal = &result.signals[m / 5];
        assert_eq!(log.run_id, result.run_id);
        assert_eq!(log.asset_version, result.asset_version);
        assert_eq!(log.rule_version, "v0.1.0");
        assert_eq!(log.signal_id, signal.signal_id);
        assert_eq!(log.source_id, signal.raw_source_ids[0]);
        assert_eq!(log.stage, signal.trace[m % 5].stage);
        assert_eq!(log.decision, signal.trace[m % 5].decision);
        assert!(log.created_at.ends_with('Z'));
    }
    assert_eq!(result.resolution_logs[0].stage, "clean");
    assert_eq!(result.resolution_logs[2].decision, "official_account_match");
    assert_eq!(result.resolution_logs[5].source_id, "r2");
    assert_eq!(result.resolution_logs[9].decision, "content_near_duplicate");
    // the duplicate stands in its group at its rank, behind the canonical signal
    assert_eq!(result.dedupe_groups.len(), 1);
    let group = &result.dedupe_groups[0];
    assert_eq!(group.member_signal_ids[0], result.signals[0].signal_id);
    assert_eq!(
        group.member_signal_ids[result.signals[1].dup_rank as usize],
        result.signals[1].signal_id
    );
    assert_eq!(group.member_signal_ids.len() - 1, 1);
    assert_eq!(capped_hundredths(SCORE_099 + 1000), 99);
    assert_eq!(capped_hundredths(SCORE_088), 88);
}

#[test]
fn tally_counts_in_first_order() {
    let t = tally(&vec![s("b"), s("a"), s("b")]);
    assert_eq!(t.len(), 2);
    assert_eq!((t[0].key.as_str(), t[0].count), ("b", 2));
    assert_eq!((t[1].key.as_str(), t[1].count), ("a", 1));
}

// ---------------------------------------------------------------------------
// assets

#[test]
fn normalize_bundle_normalizes_and_merges_kinds() {
    let bundle = AssetBundle {
        games: vec![GameAsset {
            game_id: s("g"),
            standard_name: s("  ＡＢＣ  Game "),
            track: s(" SLG "),
            representative_work: s("w"),
            aliases: vec![AliasRule { value: s(" a "), strength: s("Strong"), source: s("Short_Name") }],
            official_accounts: vec![s(" Acc ")],
            official_url_seeds: vec![s(" stzb.163.com ")],
        }],
        negative_aliases: vec![s(" x ")],
        event_rules: vec![rule("Version", &[" 版本 "]), rule("version ", &["更新"])],
    };
    let n = normalize_bundle(bundle);
    assert_eq!(n.games[0].standard_name, "ABC Game");
    assert_eq!(n.games[0].track, "slg");
    assert_eq!(n.games[0].aliases[0].strength, "strong");
    assert_eq!(n.games[0].aliases[0].source, "short_name");
    assert_eq!(n.games[0].official_accounts, vec![s("Acc")]);
    assert_eq!(n.negative_aliases, vec![s("x")]);
    assert_eq!(n.event_rules.len(), 1);
    assert_eq!(n.event_rules[0].kind, "version");
    assert_eq!(n.event_rules[0].keywords, vec![s("更新")]);
}

#[test]
fn normalizing_twice_is_normalizing_once() {
    let bundle = AssetBundle {
        games: vec![GameAsset {
            game_id: s("g"),
            standard_name: s("  率土  Game "),
            track: s(" SLG "),
            representative_work: s("w\t1"),
            aliases: vec![AliasRule { value: s(" a  b "), strength: s("Strong"), source: s("Short_Name") }],
            official_accounts: vec![s(" Acc ")],
            official_url_seeds: vec![s(" stzb.163.com ")],
        }],
        negative_aliases: vec![s(" x ")],
        event_rules: vec![rule("Version", &[" 版本 "]), rule("launch", &["上线"]), rule("version ", &["更新"])],
    };
    let once = normalize_bundle(bundle);
    let twice = normalize_bundle(AssetBundle {
        games: once
            .games
            .iter()
            .map(|g| GameAsset {
                game_id: g.game_id.clone(),
                standard_name: g.standard_name.clone(),
                track: g.track.clone(),
                representative_work: g.representative_work.clone(),
                aliases: g
                    .aliases
                    .iter()
                    .map(|a| AliasRule { value: a.value.clone(), strength: a.strength.clone(), source: a.source.clone() })
                    .collect(),
                official_accounts: g.official_accounts.clone(),
                official_url_seeds: g.official_url_seeds.clone(),
            })
            .collect(),
        negative_aliases: once.negative_aliases.clone(),
        event_rules: once
            .event_rules
            .iter()
            .map(|r| EventRule { kind: r.kind.clone(), keywords: r.keywords.clone() })
            .collect(),
    });
    assert_eq!(twice.games[0].standard_name, once.games[0].standard_name);
    assert_eq!(twice.games[0].track, "slg");
    assert_eq!(twice.games[0].representative_work, "w 1");
    assert_eq!(twice.games[0].aliases[0].value, "a b");
    assert_eq!(twice.games[0].aliases[0].strength, once.games[0].aliases[0].strength);
    assert_eq!(twice.negative_aliases, once.negative_aliases);
    assert_eq!(twice.event_rules.len(), 2);
    assert_eq!(twice.event_rules[0].kind, "version");
    assert_eq!(twice.event_rules[0].keywords, vec![s("更新")]);
    assert_eq!(twice.event_rules[1].kind, "launch");
    for text in ["  a \u{3000}\u{200b}b\n\tc ", "率土 之滨", "ＡＢＣ１２３"] {
        let once = normalize_text(text);
        assert_eq!(normalize_text(&once), once);
    }
    for name in [" B站 ", "Weibo", "TapTap社区", " Some Site ", "", "官方"] {
        let once = normalize_platform(name);
        assert_eq!(normalize_platform(&once), once);
    }
    assert_eq!(normalize_platform(" Some  Site "), "some site");
    assert_eq!(normalize_platform(""), "unknown");
}

#[test]
fn keyring_is_read_first_when_it_holds_a_secret() {
    assert_eq!(keyring_choice(Some(s("sk-1"))), Some(s("sk-1")));
    assert_eq!(keyring_choice(Some(s("  "))), None);
    assert_eq!(keyring_choice(None), None);
}

#[test]
fn index_lookups_and_rows() {
    let bundle = bundle_of(vec![game("game_a", "甲游戏", &[("甲", "weak", "short_name")], &[" 甲 Official "])]);
    let rows = alias_rows(&bundle);
    assert_eq!(rows.len(), 2);
    assert_eq!(rows[0].alias, "甲游戏");
    assert_eq!(rows[0].source, "standard_name");
    assert_eq!(rows[1].strength, "weak");
    let index = build_asset_index(bundle, "{}");
    assert_eq!(index.track_for_game("game_a").as_deref(), Some("slg"));
    assert_eq!(index.track_for_game("nope"), None);
    assert_eq!(index.account_game_for("甲 official").as_deref(), Some("game_a"));
    assert!(index.asset_version.starts_with("entity_assets_"));
    assert_eq!(index.asset_version, asset_version_for("{}"));
    assert_eq!(index.asset_version.len(), "entity_assets_".len() + 12);
}

// ---------------------------------------------------------------------------
// text and outside calls

#[test]
fn normalize_text_applies_nfkc_and_collapses_blanks() {
    assert_eq!(normalize_text("ＡＢＣ\u{200b}x\u{3000} y  "), "ABC x y");
    assert_eq!(normalize_author("  ABC  Def "), "abc def");
}

#[test]
fn canonical_names() {
    assert_eq!(normalize_platform("B站"), "bilibili");
    assert_eq!(normalize_platform("官方源"), "official");
    assert_eq!(normalize_platform("  "), "unknown");
    assert_eq!(normalize_platform("Other"), "other");
    assert_eq!(normalize_source_type("官号"), "official");
    assert_eq!(normalize_content_type("公告"), "announcement");
    assert_eq!(infer_source_layer("media", "weibo"), "media");
    assert_eq!(infer_source_layer("content_platform", "taptap"), "community");
    assert_eq!(infer_source_layer("content_platform", "weibo"), "content_platform");
}

#[test]
fn fingerprint_is_sha1_hex_of_normalized_parts() {
    assert_eq!(fingerprint(&["abc"], 40), "a9993e364706816aba3e25717850c26c9cd0d89d");
    assert_eq!(fingerprint(&[" ABC "], 8), "a9993e36");
    assert_eq!(fingerprint(&["abc", ""], 40), "a9993e364706816aba3e25717850c26c9cd0d89d");
    assert_eq!(fingerprint(&["abc"], 100).len(), 40);
}

#[test]
fn tokens_skip_stop_words() {
    assert_eq!(tokenize("Hello 世界 和 我们 test_1"), vec![s("hello"), s("世界"), s("test_1")]);
}

#[test]
fn urls_drop_tracking_and_sort_query() {
    assert_eq!(
        normalize_url("https://Example.com/a/?utm_source=x&b=2&a=1#frag"),
        "https://example.com/a/?a=1&b=2"
    );
    assert_eq!(normalize_url("https://example.com/path/?utm_source=x&spm=1"), "https://example.com/path");
    assert_eq!(normalize_url(" not a url "), "not a url");
    assert_eq!(
        extract_reference_urls("a https://x.com/p?from=1 b https://x.com/p c"),
        vec![s("https://x.com/p")]
    );
    assert!(url_seed_matches("https://sub.stzb.163.com/x", "stzb.163.com"));
    assert!(url_seed_matches("https://stzb.163.com/x", "stzb.163.com"));
    assert!(!url_seed_matches("https://other.163.com/x", "stzb.163.com"));
    assert!(url_seed_matches("https://eggy-party.163.com/x", "eggy-party"));
    assert!(url_seed_matches("not a url with seed", "seed"));
}

#[test]
fn timestamps_read_every_layout() {
    assert_eq!(normalize_timestamp("2026-04-10T10:00:00+08:00").as_deref(), Some("2026-04-10T02:00:00Z"));
    assert_eq!(normalize_timestamp("2026-04-10 10:00:30").as_deref(), Some("2026-04-10T02:00:30Z"));
    assert_eq!(normalize_timestamp("2026-04-10 10:00").as_deref(), Some("2026-04-10T02:00:00Z"));
    assert_eq!(normalize_timestamp("2026/04/10 11:10:05").as_deref(), Some("2026-04-10T03:10:05Z"));
    assert_eq!(normalize_timestamp("2026/04/10 11:10").as_deref(), Some("2026-04-10T03:10:00Z"));
    assert_eq!(normalize_timestamp("2026-04-10").as_deref(), Some("2026-04-09T16:00:00Z"));
    assert_eq!(normalize_timestamp("2026/04/10").as_deref(), Some("2026-04-09T16:00:00Z"));
    assert_eq!(normalize_timestamp("yesterday"), None);
    assert_eq!(normalize_timestamp("   "), None);
    assert_eq!(utc_text_of(0), "1970-01-01T00:00:00Z");
}

#[test]
fn run_ids_carry_time_and_seed() {
    let id = run_id_at(123, "seed");
    assert!(id.starts_with("run_123_"));
    assert_eq!(id.len(), "run_123_".len() + 8);
    assert_eq!(id, format!("run_123_{}", fingerprint(&["seed"], 8)));
    assert!(new_run_id("seed").starts_with("run_"));
}

#[test]
fn decimal_text_of_integers() {
    assert_eq!(decimal(0), "0");
    assert_eq!(decimal(7), "7");
    assert_eq!(decimal(-45), "-45");
    assert_eq!(decimal(1_775_786_400_000_000_000), "1775786400000000000");
    assert_eq!(decimal(i128::MIN), i128::MIN.to_string());
    assert_eq!(decimal(i128::MAX), i128::MAX.to_string());
}

#[test]
fn string_helpers_sort_and_dedup() {
    assert_eq!(sort_strings(vec![s("b"), s("a"), s("c")]), vec![s("a"), s("b"), s("c")]);
    assert_eq!(dedup_strings(&vec![s("b"), s("a"), s("b")]), vec![s("b"), s("a")]);
}

// ---------------------------------------------------------------------------
// providers

#[test]
fn provider_names_and_parsing() {
    assert_eq!(ProviderKind::all().len(), 6);
    assert_eq!(ProviderKind::Doubao.slug(), "doubao");
    assert_eq!(ProviderKind::Gemini.display_name(), "Gemini");
    assert_eq!(ProviderKind::Serper.monthly_limit(), 2_500);
    assert_eq!(ProviderKind::Firecrawl.daily_soft_limit(), 16);
    assert_eq!(ProviderKind::Tavily.default_role(), "freshness_verify");
    assert_eq!(ProviderKind::Exa.priority(), 5);
    assert_eq!(ProviderKind::Doubao.default_base_url(), "https://ark.cn-beijing.volces.com");
    assert_eq!(ProviderKind::parse(" Doubao "), Ok(ProviderKind::Doubao));
    assert_eq!(ProviderKind::parse("EXA"), Ok(ProviderKind::Exa));
    assert_eq!(ProviderKind::parse("  XyZ "), Err(s("unknown provider: xyz")));
    assert_eq!(secret_key(ProviderKind::Serper), "provider::serper");
    assert_eq!(bool_to_int(true), 1);
    assert_eq!(bool_to_int(false), 0);
}

#[test]
fn secrets_are_masked() {
    assert_eq!(mask_secret("secret-demo-key"), "••••••-key");
    assert_eq!(mask_secret("  ab "), "••••••ab");
    assert_eq!(mask_secret("   "), "");
    assert!(secret_is_set(&Some(s(" k "))));
    assert!(!secret_is_set(&Some(s("  "))));
    assert!(!secret_is_set(&None));
}

#[test]
fn simulated_tests_reach_the_lowest_limits() {
    let mut settings = default_settings(ProviderKind::Gemini);
    assert_eq!(test_use_amount(ProviderKind::Gemini, &settings, Some("ok")), 121);
    assert_eq!(test_use_amount(ProviderKind::Gemini, &settings, None), 66);
    settings.monthly_limit = i64::MIN + 121;
    let ready = simulate_test_at(ProviderKind::Gemini, &settings, Some("ok"), s("t"));
    assert!(ready.ok);
    assert_eq!(ready.quota_snapshot.used_monthly, 121);
    assert_eq!(ready.quota_snapshot.remaining_monthly, 0);
    settings.monthly_limit = i64::MIN + 66;
    let missing = simulate_test_at(ProviderKind::Gemini, &settings, None, s("t"));
    assert_eq!(missing.status, "missing_api_key");
    assert_eq!(missing.quota_snapshot.remaining_monthly, 0);
}

#[test]
fn simulated_tests_cover_every_path() {
    let settings = default_settings(ProviderKind::Doubao);
    let ready = simulate_test_at(ProviderKind::Doubao, &settings, Some(" ok-key "), s("t"));
    assert!(ready.ok);
    assert_eq!(ready.status, "ready");
    assert_eq!(ready.latency_ms, 217);
    assert_eq!(ready.quota_snapshot.used_monthly, 26);
    assert_eq!(ready.quota_snapshot.remaining_monthly, 99_973);
    assert_eq!(ready.verified_at, "t");
    let timeout = simulate_test_at(ProviderKind::Serper, &default_settings(ProviderKind::Serper), Some("timeout-token"), s("t"));
    assert_eq!(timeout.status, "timeout");
    assert_eq!(timeout.latency_ms, 3_200);
    assert_eq!(timeout.quota_snapshot.used_monthly, 22);
    let failed = simulate_test_at(ProviderKind::Serper, &default_settings(ProviderKind::Serper), Some("fail-token"), s("t"));
    assert_eq!(failed.status, "failed");
    assert!(!failed.ok);
    let missing = simulate_test_at(ProviderKind::Exa, &default_settings(ProviderKind::Exa), None, s("t"));
    assert_eq!(missing.status, "missing_api_key");
    let mut paused = default_settings(ProviderKind::Exa);
    paused.enabled = false;
    paused.base_url = s("https://FAIL.example");
    let disabled = simulate_test_at(ProviderKind::Exa, &paused, Some("k"), s("t"));
    assert_eq!(disabled.status, "disabled");
    let mut failing_url = default_settings(ProviderKind::Exa);
    failing_url.base_url = s("https://FAIL.example");
    let by_url = simulate_test_at(ProviderKind::Exa, &failing_url, Some("k"), s("t"));
    assert_eq!(by_url.status, "failed");
    let mut tiny = default_settings(ProviderKind::Gemini);
    tiny.monthly_limit = 10;
    let capped = simulate_test_at(ProviderKind::Gemini, &tiny, Some("k"), s("t"));
    assert_eq!(capped.quota_snapshot.remaining_monthly, 0);
}

fn view(p: ProviderKind, key: &str, status: &str, enabled: bool) -> ProviderStatusView {
    let mut settings = default_settings(p);
    settings.enabled = enabled;
    provider_view(
        p,
        settings,
        Some(s(key)),
        Some(LatestTestRecord {
            status: s(status),
            latency_ms: 1,
            error_message: None,
            verified_at: s("t"),
        }),
    )
}

#[test]
fn unlock_requires_all_six_ready() {
    let all: Vec<ProviderStatusView> = ProviderKind::all()
        .into_iter()
        .map(|p| view(p, "key-1234", "ready", true))
        .collect();
    let state = compute_unlock_state(&all);
    assert!(state.unlocked);
    assert_eq!(state.ready_count, 6);
    assert!(state.blockers.is_empty());
    let mut some: Vec<ProviderStatusView> = ProviderKind::all()
        .into_iter()
        .map(|p| view(p, "key-1234", "ready", true))
        .collect();
    some[0] = view(ProviderKind::Doubao, "", "ready", true);
    some[1] = view(ProviderKind::Serper, "k", "timeout", true);
    some[2] = view(ProviderKind::Firecrawl, "k", "ready", false);
    let locked = build_setup_page("setup", some);
    assert!(!locked.unlock_state.unlocked);
    assert_eq!(locked.unlock_state.ready_count, 3);
    assert_eq!(locked.unlock_state.total_count, 6);
    assert_eq!(
        locked.unlock_state.blockers,
        vec![
            s("Doubao 尚未录入 API Key。"),
            s("Serper 最近一次测试状态为 timeout。"),
            s("Firecrawl 已暂停，主系统保持锁定。"),
        ]
    );
}

#[test]
fn provider_view_status_without_tests() {
    let configured = provider_view(ProviderKind::Exa, default_settings(ProviderKind::Exa), Some(s("abcdef")), None);
    assert_eq!(configured.status, "configured");
    assert_eq!(configured.api_key, "••••••cdef");
    assert_eq!(configured.latency_ms, None);
    let empty = provider_view(ProviderKind::Exa, default_settings(ProviderKind::Exa), Some(s("")), None);
    assert_eq!(empty.status, "awaiting_configuration");
    let none = provider_view(ProviderKind::Exa, default_settings(ProviderKind::Exa), None, None);
    assert_eq!(none.status, "awaiting_configuration");
    assert_eq!(none.api_key, "");
}

// ---------------------------------------------------------------------------
// secrets

#[test]
fn memory_store_round_trips() {
    let mut store = MemorySecretStore::new();
    assert_eq!(store.get_secret("provider::doubao"), Ok(None));
    store.set_secret("provider::doubao", "secret-demo-key").unwrap();
    store.set_secret("provider::exa", "other").unwrap();
    assert_eq!(store.get_secret("provider::doubao"), Ok(Some(s("secret-demo-key"))));
    store.set_secret("provider::doubao", "second").unwrap();
    assert_eq!(store.get("provider::doubao").as_deref(), Some("second"));
    store.delete_secret("provider::doubao").unwrap();
    assert_eq!(store.get("provider::doubao"), None);
    assert_eq!(store.get("provider::exa").as_deref(), Some("other"));
}

// ---------------------------------------------------------------------------
// galaxy

#[test]
fn sample_galaxy_lists_and_summary() {
    let repo = MockGalaxyRepository::new();
    let games = repo.list("games");
    assert_eq!(games.tab, "games");
    assert_eq!(games.games.len(), 7);
    assert_eq!(games.games[0].id, "rate-land");
    assert_eq!(games.games[1].aliases, vec![s("三战"), s("三国志战略版"), s("SZ")]);
    let events = repo.list("events");
    assert_eq!(events.tab, "events");
    assert_eq!(events.events.len(), 5);
    assert_eq!(events.events[4].game_id, "mouding");
    assert_eq!(repo.list("other").tab, "games");
    let summary = repo.summary(s("now"));
    assert_eq!(summary.game_count, 7);
    assert_eq!(summary.event_count, 5);
    assert_eq!(summary.source_count, 6);
    let service = GalaxyService::new(s("core.db"));
    assert_eq!(service.summary(None).game_count, 7);
    assert_eq!(service.list("events", Vec::new(), Vec::new()).events.len(), 5);
    assert_eq!(service.list("x", Vec::new(), Vec::new()).games.len(), 7);
}

#[test]
fn stored_rows_choose_their_tab() {
    let names = vec![spg::assets::IndexPair { key: s("game_a"), value: s("甲游戏") }];
    let service = GalaxyService::new(s("core.db"));
    let stored_games = vec![game_list_item("game_a", 3, "slg", &names)];
    let list = service.list("games", stored_games, Vec::new());
    assert_eq!(list.tab, "games");
    assert_eq!(list.games.len(), 1);
    assert_eq!(list.games[0].name, "甲游戏");
    assert!(list.events.is_empty());
    let stored_events = vec![event_list_item("version", "game_a", 3, 2, "标题", &names)];
    let events = service.list("events", Vec::new(), stored_events);
    assert_eq!(events.tab, "events");
    assert_eq!(events.events.len(), 1);
    assert!(events.games.is_empty());
    // no stored rows for the tab: the sample
    assert_eq!(service.list("events", vec![game_list_item("g", 1, "slg", &names)], Vec::new()).events.len(), 5);
    assert!(stored_list("events", Vec::new(), Vec::new()).is_none());
    assert!(stored_list("games", Vec::new(), Vec::new()).is_none());
    assert!(lists_events("events") && !lists_events("games"));
}

#[test]
fn stored_rows_become_views() {
    assert!(summary_from_counts(0, 0, 3, 1, s("t")).is_none());
    let some = summary_from_counts(2, 0, 3, 1, s("t")).unwrap();
    assert_eq!(some.headline, "SLG 赛道星图");
    assert_eq!(some.game_count, 2);
    let names = vec![spg::assets::IndexPair { key: s("game_a"), value: s("甲游戏") }];
    let ev = event_list_item("version", "", 3, 2, "标题", &names);
    assert_eq!(ev.id, "sqlite-event-version-none");
    assert_eq!(ev.game_name, "");
    let ev2 = event_list_item("version", "game_a", 3, 2, "标题", &names);
    assert_eq!(ev2.id, "sqlite-event-version-game_a");
    assert_eq!(ev2.game_name, "甲游戏");
    let g = game_list_item("game_b", 4, "slg", &names);
    assert_eq!(g.name, "game_b");
    assert_eq!(g.aliases, vec![s("slg")]);
}

// ---------------------------------------------------------------------------
// focus views

fn is_star(view: &spg::focus::GalaxyFocusView) -> bool {
    view.nodes.len() == view.edges.len() + 1
        && view.nodes[0].orbit == 0
        && view.edges.iter().enumerate().all(|(i, e)| {
            e.source == view.nodes[0].id && e.target == view.nodes[i + 1].id && view.nodes[i + 1].orbit > 0
        })
}

#[test]
fn sample_game_focus_places_events_and_sources() {
    let repo = MockGalaxyRepository::new();
    let view = repo.focus_game("rate-land").unwrap();
    assert_eq!(view.focus_id, "rate-land");
    assert_eq!(view.focus_kind, "game");
    assert_eq!(view.title, "率土之滨");
    assert_eq!(view.subtitle, "核心标的 · 网易 · 赛季节奏长期稳定，适合作为 SLG 中枢样本。");
    assert_eq!(view.narrative.len(), 3);
    assert_eq!(view.available_layers, vec![s("games"), s("events"), s("sources")]);
    // the game, its one sample event, and its four sample sources
    assert_eq!(view.nodes.len(), 6);
    assert_eq!(view.edges.len(), 5);
    assert_eq!(view.nodes[0].id, "game::rate-land");
    assert_eq!(view.nodes[0].size, NodeSize::Fixed(26));
    assert_eq!(view.nodes[1].id, "event::evt-season-shift");
    assert_eq!(view.nodes[1].angle, NodeAngle::Spaced { step: 72, index: 0 });
    assert_eq!(view.nodes[1].size, NodeSize::Scaled { base: 13, value: 88, divisor: 20 });
    assert_eq!(
        view.edges[0].strength,
        EdgeStrength::Clamped { value: 88, divisor: 100, floor_hundredths: 25 }
    );
    assert_eq!(view.nodes[2].id, "source::rate-land::0");
    assert_eq!(view.nodes[2].label, "官方公告");
    assert_eq!(view.nodes[5].id, "source::rate-land::3");
    assert_eq!(view.nodes[5].angle, NodeAngle::Spaced { step: 58, index: 3 });
    assert_eq!(view.nodes[5].size, NodeSize::Scaled { base: 11, value: 25, divisor: 10 });
    assert_eq!(view.edges[4].strength, EdgeStrength::Weight { tenths: 25 });
    assert!(is_star(&view));
    // a game with no sample event has only its sources
    let civ = repo.focus_game("civ").unwrap();
    assert_eq!(civ.nodes.len(), 4);
    assert_eq!(civ.nodes[1].label, "官方");
    assert!(is_star(&civ));
    assert!(repo.focus_game("missing").is_none());
}

#[test]
fn sample_event_focus_links_its_game() {
    let repo = MockGalaxyRepository::new();
    let view = repo.focus_event("evt-alliance-war").unwrap();
    assert_eq!(view.focus_kind, "event");
    assert_eq!(view.title, "联盟战与城战热度");
    assert_eq!(view.subtitle, "三国志·战略版 · activity · 热度 92");
    assert_eq!(view.nodes[0].id, "event::evt-alliance-war");
    assert_eq!(view.nodes[1].id, "game::sango-slg");
    assert_eq!(view.nodes[1].angle, NodeAngle::Fixed(20));
    assert_eq!(view.edges[0].edge_type, "game_link");
    assert_eq!(
        view.edges[0].strength,
        EdgeStrength::Clamped { value: 92, divisor: 100, floor_hundredths: 30 }
    );
    assert_eq!(view.nodes.len(), 6);
    assert_eq!(view.nodes[2].id, "source::evt-alliance-war::0");
    assert_eq!(view.nodes[3].label, "小红书");
    assert_eq!(view.nodes[3].size, NodeSize::Scaled { base: 10, value: 32, divisor: 10 });
    assert!(is_star(&view));
    assert!(repo.focus_event("missing").is_none());
    let service = GalaxyService::new(s("core.db"));
    assert!(service.focus_event("evt-season-shift", None).is_some());
    assert_eq!(service.focus_game("rok", None).unwrap().nodes.len(), 6);
}

#[test]
fn stored_focus_counts_events_and_platforms() {
    let names = vec![spg::assets::IndexPair { key: s("game_a"), value: s("甲游戏") }];
    let events = vec![
        GalaxyCount { label: s("version"), count: 20 },
        GalaxyCount { label: s("activity"), count: 2 },
    ];
    let sources = vec![GalaxyCount { label: s("bilibili"), count: 5 }];
    assert!(stored_game_focus(&names, "game_a", Some(0), &events, &sources).is_none());
    assert!(stored_game_focus(&names, "game_a", None, &events, &sources).is_none());
    let view = stored_game_focus(&names, "game_a", Some(9), &events, &sources).unwrap();
    assert_eq!(view.title, "甲游戏");
    assert_eq!(view.subtitle, "来源、事件和信号围绕当前实体展开");
    assert_eq!(view.nodes.len(), 4);
    assert_eq!(view.nodes[0].detail, "当前聚焦游戏");
    assert_eq!(view.nodes[1].id, "event::game_a::version");
    assert_eq!(view.nodes[1].detail, "20 条相关信号");
    assert_eq!(view.nodes[1].size, NodeSize::Capped { base: 12, count: 20, cap: 16 });
    assert_eq!(view.nodes[2].angle, NodeAngle::Spaced { step: 60, index: 1 });
    assert_eq!(view.nodes[3].id, "source::game_a::bilibili");
    assert_eq!(view.nodes[3].detail, "5 个来源节点");
    assert_eq!(
        view.edges[2].strength,
        EdgeStrength::Clamped { value: 5, divisor: 8, floor_hundredths: 25 }
    );
    assert!(is_star(&view));
    let unnamed = stored_game_focus(&names, "game_b", Some(1), &Vec::new(), &Vec::new()).unwrap();
    assert_eq!(unnamed.title, "game_b");
    assert_eq!(unnamed.nodes.len(), 1);
}

#[test]
fn sample_sources_by_game() {
    let rate = mock_sources_for("rate-land");
    assert_eq!(rate.len(), 4);
    assert_eq!(rate[3].weight_tenths, 25);
    let other = mock_sources_for("hongtu");
    assert_eq!(other.len(), 3);
    assert_eq!(other[0].name, "官方");
    assert_eq!(other[0].weight_tenths, 43);
}

#[test]
fn empty_focus_waits_for_data() {
    let view = spg::focus::empty_focus();
    assert_eq!(view.focus_id, "empty");
    assert_eq!(view.title, "等待星图数据");
    assert_eq!(view.narrative.len(), 2);
    assert!(view.nodes.is_empty() && view.edges.is_empty());
    assert_eq!(view.available_layers.len(), 3);
}

// ---------------------------------------------------------------------------
// the secret vault

fn hex(bytes: &[u8]) -> String {
    bytes.iter().map(|b| format!("{b:02x}")).collect()
}

#[test]
fn vault_key_is_sha256_of_user_and_host() {
    let key = vault_key("alice", "box");
    assert_eq!(key.len(), 32);
    assert_eq!(hex(&key), "ed2c4cccca0c54ac09bfc7e46989ec8e2097668c159fb8e5cbb8d01e23e26979");
}

#[test]
fn vault_payload_matches_known_ciphertext_and_round_trips() {
    let key = vault_key("alice", "box");
    let nonce: Vec<u8> = (0u8..12).collect();
    let plaintext = br#"{"k":"v"}"#.to_vec();
    let payload = seal_payload(&plaintext, &nonce, &key).unwrap();
    assert_eq!(payload, "AAECAwQFBgcICQoLBOAD2ccFS4S1aiqtCPY7eWbXWd8R6I/aSw==");
    assert_eq!(open_payload(&payload, &key).unwrap(), Some(plaintext.clone()));
    // surrounding whitespace, as a file may hold it, is ignored
    let padded = format!("  {payload}\n");
    assert_eq!(open_payload(&padded, &key).unwrap(), Some(plaintext.clone()));
    // a fresh nonce still reads back
    let fresh = seal_payload_fresh(&plaintext, &key).unwrap();
    assert_eq!(fresh.len(), payload.len());
    assert_eq!(open_payload(&fresh, &key).unwrap(), Some(plaintext));
}

#[test]
fn vault_payload_errors() {
    let key = vault_key("alice", "box");
    let other = vault_key("bob", "box");
    let nonce: Vec<u8> = vec![7u8; 12];
    let payload = seal_payload(&b"secret".to_vec(), &nonce, &key).unwrap();
    assert_eq!(open_payload(&payload, &other), Err(VaultError::Decrypt));
    assert_eq!(open_payload("not base64!", &key), Err(VaultError::Decode));
    // fewer than twelve bytes hold no vault
    assert_eq!(open_payload("AAEC", &key), Ok(None));
    assert_eq!(VaultError::Decrypt.message(), "failed to decrypt fallback secret vault");
    assert_eq!(VaultError::Decode.message(), "failed to decode fallback secret payload");
    assert_eq!(VaultError::Encrypt.message(), "failed to encrypt secret vault");
}

#[test]
fn page_state_is_standard_base64() {
    assert_eq!(base64_text("hi 星"), "aGkg5pif");
    assert_eq!(base64_text(""), "");
}

#[test]
fn saving_a_provider_trims_and_plans_the_secret() {
    let request = |key: Option<&str>| spg::providers::ProviderUpdateRequest {
        enabled: true,
        api_key: key.map(|k| k.to_string()),
        base_url: s("  https://api.example.com \n"),
        monthly_limit: 1000,
        daily_soft_limit: 50,
        default_role: s(" search "),
        priority: 2,
    };
    let keep = plan_save(&request(None));
    assert_eq!(keep.enabled, 1);
    assert_eq!(keep.base_url, "https://api.example.com");
    assert_eq!(keep.default_role, "search");
    assert_eq!(keep.monthly_limit, 1000);
    assert_eq!(keep.priority, 2);
    assert!(matches!(keep.secret, SecretChange::Keep));
    assert!(matches!(plan_save(&request(Some("   "))).secret, SecretChange::Delete));
    match plan_save(&request(Some(" sk-123 "))).secret {
        SecretChange::Store(key) => assert_eq!(key, "sk-123"),
        _ => panic!("expected a stored key"),
    }
}
