use spg::assets::{build_asset_index, normalize_bundle};
use spg::models::{AliasRule, AssetBundle, EventRule, GameAsset, RawSourceItem};
use spg::pipeline::SPGInputPipeline;

fn s(x: &str) -> String {
    x.to_string()
}

fn make_pipeline_from_bundle(bundle: AssetBundle) -> SPGInputPipeline {
    SPGInputPipeline::new(build_asset_index(bundle, "asset_bundle"))
}

fn make_raw_item(
    source_id: &str,
    platform: &str,
    source_type: &str,
    title: &str,
    text: &str,
    author: &str,
    url: &str,
) -> RawSourceItem {
    RawSourceItem {
        source_id: s(source_id),
        platform: s(platform),
        source_type: s(source_type),
        content_type: s("post"),
        title: s(title),
        text: s(text),
        author: s(author),
        published_at: s("2026-04-10T10:00:00+08:00"),
        url: s(url),
        fetched_at: s("2026-04-10T10:05:00+08:00"),
        original_url: None,
    }
}

fn game(
    id: &str,
    name: &str,
    aliases: &[(&str, &str, &str)],
    accounts: &[&str],
    seeds: &[&str],
) -> GameAsset {
    GameAsset {
        game_id: s(id),
        standard_name: s(name),
        track: s("slg"),
        representative_work: s(name),
        aliases: aliases
            .iter()
            .map(|(value, strength, source)| AliasRule {
                value: s(value),
                strength: s(strength),
                source: s(source),
            })
            .collect(),
        official_accounts: accounts.iter().map(|a| s(a)).collect(),
        official_url_seeds: seeds.iter().map(|a| s(a)).collect(),
    }
}

fn rule(kind: &str, keywords: &[&str]) -> EventRule {
    EventRule { kind: s(kind), keywords: keywords.iter().map(|k| s(k)).collect() }
}

/// A small SLG asset bundle in the shape of the project's default assets.
fn default_like_bundle() -> AssetBundle {
    normalize_bundle(AssetBundle {
        games: vec![
            game(
                "game_stzb",
                "率土之滨",
                &[("率土", "strong", "short_name")],
                &["率土之滨官方"],
                &["stzb.163.com"],
            ),
            game(
                "game_sgzzlb",
                "三国志战略版",
                &[("三战", "strong", "short_name")],
                &["三国志战略版官方"],
                &["sgzzlb.lingxigames.com"],
            ),
        ],
        negative_aliases: vec![],
        event_rules: vec![
            rule("version", &["版本", "更新"]),
            rule("activity", &["活动"]),
            rule("season", &["新赛季", "赛季开启"]),
        ],
    })
}

fn make_pipeline() -> SPGInputPipeline {
    make_pipeline_from_bundle(default_like_bundle())
}

#[test]
fn resolves_official_source_with_strong_match() {
    let pipeline = make_pipeline();
    let item = make_raw_item(
        "raw_official_stzb_test",
        "official",
        "official",
        "率土之滨新赛季公告",
        "率土之滨官方发布新赛季征服赛季公告。",
        "率土之滨官方",
        "https://stzb.163.com/news/season",
    );

    let result = pipeline.process(vec![item]);
    let signal = &result.signals[0];
    assert_eq!(signal.resolved_game_id.as_deref(), Some("game_stzb"));
    assert_eq!(signal.track_id.as_deref(), Some("slg"));
    assert_eq!(signal.entity_resolution_method, "official_account_match");
    assert_eq!(signal.state, "canonical");
    assert_eq!(signal.normalized_published_at.as_deref(), Some("2026-04-10T02:00:00Z"));
}

#[test]
fn folds_content_duplicates_when_same_url_is_reused() {
    let pipeline = make_pipeline();
    let first = make_raw_item(
        "raw_dup_one",
        "official",
        "official",
        "率土之滨新赛季征服赛季公告",
        "率土之滨官方发布新赛季征服赛季公告，包含武将觉醒调整。",
        "率土之滨官方",
        "https://stzb.163.com/news/season12?utm_source=weibo",
    );
    let second = make_raw_item(
        "raw_dup_two",
        "weibo",
        "official",
        "率土之滨新赛季重点整理",
        "这条微博只放重点总结，但链接仍然指向同一篇官方公告。",
        "率土之滨官方",
        "https://stzb.163.com/news/season12",
    );

    let result = pipeline.process(vec![first, second]);
    assert_eq!(result.dedupe_groups.len(), 1);
    let duplicate = result
        .signals
        .iter()
        .find(|signal| signal.duplicate_type == "content_near_duplicate")
        .expect("content duplicate");
    assert!(duplicate.dedupe_key.starts_with("url::"));
}

#[test]
fn folds_content_duplicates_when_repost_contains_original_url_in_text() {
    let pipeline = make_pipeline();
    let original = make_raw_item(
        "raw_dup_original",
        "official",
        "official",
        "率土之滨新赛季征服赛季公告",
        "率土之滨官方发布新赛季征服赛季公告，包含武将觉醒调整。",
        "率土之滨官方",
        "https://stzb.163.com/news/season12",
    );
    let repost = make_raw_item(
        "raw_dup_repost",
        "weibo",
        "content_platform",
        "搬运一下率土新赛季公告重点",
        "原文链接：https://stzb.163.com/news/season12?utm_source=weibo 我这里只做重点整理。",
        "SLG热榜搬运号",
        "https://weibo.com/u/1?id=3",
    );

    let result = pipeline.process(vec![original, repost]);
    let duplicate = result
        .signals
        .iter()
        .find(|signal| signal.duplicate_type == "content_near_duplicate")
        .expect("repost duplicate");
    assert!(duplicate.dedupe_key.starts_with("url::"));
}

#[test]
fn keeps_distinct_versions_out_of_information_duplicates() {
    let pipeline = make_pipeline();
    let s12 = make_raw_item(
        "raw_stzb_s12",
        "official",
        "official",
        "率土之滨S12赛季征服赛季公告",
        "率土之滨官方发布S12赛季征服赛季公告，包含武将觉醒调整。",
        "率土之滨官方",
        "https://stzb.163.com/news/s12",
    );
    let s13 = make_raw_item(
        "raw_stzb_s13",
        "official",
        "official",
        "率土之滨S13赛季征服赛季公告",
        "率土之滨官方发布S13赛季征服赛季公告，包含同盟战规则变动。",
        "率土之滨官方",
        "https://stzb.163.com/news/s13",
    );

    let result = pipeline.process(vec![s12, s13]);
    assert_eq!(result.dedupe_groups.len(), 0);
    assert!(result.signals.iter().all(|signal| signal.duplicate_type == "none"));
}

#[test]
fn falls_back_to_track_when_candidates_share_same_track() {
    let bundle = AssetBundle {
        games: vec![
            GameAsset {
                game_id: s("game_alpha"),
                standard_name: s("征服王朝"),
                track: s("slg"),
                representative_work: s("征服王朝"),
                aliases: vec![AliasRule {
                    value: s("征服"),
                    strength: s("weak"),
                    source: s("shared_alias"),
                }],
                official_accounts: vec![],
                official_url_seeds: vec![],
            },
            GameAsset {
                game_id: s("game_beta"),
                standard_name: s("征服时代"),
                track: s("slg"),
                representative_work: s("征服时代"),
                aliases: vec![AliasRule {
                    value: s("征服"),
                    strength: s("weak"),
                    source: s("shared_alias"),
                }],
                official_accounts: vec![],
                official_url_seeds: vec![],
            },
        ],
        negative_aliases: vec![],
        event_rules: vec![EventRule { kind: s("version"), keywords: vec![s("版本")] }],
    };
    let pipeline = make_pipeline_from_bundle(bundle);
    let item = make_raw_item(
        "raw_shared_track",
        "bilibili",
        "content_platform",
        "征服新版本体验",
        "征服这波版本节奏变化很大。",
        "测试作者",
        "https://www.bilibili.com/video/BVtrack001",
    );

    let result = pipeline.process(vec![item]);
    let signal = &result.signals[0];
    assert_eq!(signal.scope, "track");
    assert_eq!(signal.state, "track_level");
    assert_eq!(signal.track_id.as_deref(), Some("slg"));
    assert!(signal.resolved_game_id.is_none());
    assert_eq!(result.unresolved_records.len(), 0);
}

#[test]
fn prefers_version_event_when_hits_tie() {
    let pipeline = make_pipeline();
    let item = make_raw_item(
        "raw_event_tie",
        "bilibili",
        "content_platform",
        "率土之滨版本活动整理",
        "率土之滨这次版本活动信息汇总。",
        "测试作者",
        "https://www.bilibili.com/video/BVevent001",
    );

    let result = pipeline.process(vec![item]);
    assert_eq!(result.signals[0].event_type.as_deref(), Some("version"));
}

#[test]
fn url_seed_matches_domain_not_substring() {
    let pipeline = make_pipeline();
    let item = make_raw_item(
        "raw_url_seed_test",
        "official",
        "official",
        "率土之滨版本公告",
        "率土之滨官方发布版本公告。",
        "未知作者",
        "https://stzb.163.com/news/version",
    );

    let result = pipeline.process(vec![item]);
    let signal = &result.signals[0];
    assert_eq!(signal.resolved_game_id.as_deref(), Some("game_stzb"));
    assert!(
        signal.entity_resolution_method == "official_url_seed_match"
            || signal.entity_resolution_method == "alias_match"
            || signal.entity_resolution_method == "standard_name_match"
    );
}

#[test]
fn url_seed_rejects_partial_domain_collision() {
    let bundle = AssetBundle {
        games: vec![GameAsset {
            game_id: s("game_test"),
            standard_name: s("测试游戏XYZ"),
            track: s("slg"),
            representative_work: s("测试游戏XYZ"),
            aliases: vec![],
            official_accounts: vec![],
            official_url_seeds: vec![s("stzb.163.com")],
        }],
        negative_aliases: vec![],
        event_rules: vec![],
    };
    let pipeline = make_pipeline_from_bundle(bundle);
    let item = make_raw_item(
        "raw_no_match",
        "bilibili",
        "content_platform",
        "其他163产品新闻",
        "这是一个完全不相关的内容。",
        "测试作者",
        "https://other.163.com/news/something",
    );

    let result = pipeline.process(vec![item]);
    let signal = &result.signals[0];
    assert_ne!(signal.entity_resolution_method, "official_url_seed_match");
}

#[test]
fn negative_alias_blocks_match() {
    let bundle = AssetBundle {
        games: vec![GameAsset {
            game_id: s("game_neg"),
            standard_name: s("手游世界"),
            track: s("slg"),
            representative_work: s("手游世界"),
            aliases: vec![AliasRule {
                value: s("手游"),
                strength: s("weak"),
                source: s("short_name"),
            }],
            official_accounts: vec![],
            official_url_seeds: vec![],
        }],
        negative_aliases: vec![s("手游")],
        event_rules: vec![],
    };
    let pipeline = make_pipeline_from_bundle(bundle);
    let item = make_raw_item(
        "raw_neg_alias",
        "bilibili",
        "content_platform",
        "最近手游推荐",
        "手游排行榜今日推荐。",
        "测试作者",
        "https://www.bilibili.com/video/BVneg001",
    );

    let result = pipeline.process(vec![item]);
    let signal = &result.signals[0];
    assert_eq!(signal.scope, "unresolved");
}

#[test]
fn empty_input_produces_empty_result() {
    let pipeline = make_pipeline();
    let result = pipeline.process(vec![]);
    assert_eq!(result.signals.len(), 0);
    assert_eq!(result.dedupe_groups.len(), 0);
    assert_eq!(result.unresolved_records.len(), 0);
}

#[test]
fn malformed_url_does_not_panic() {
    let pipeline = make_pipeline();
    let item = make_raw_item(
        "raw_bad_url",
        "bilibili",
        "content_platform",
        "率土之滨攻略分享",
        "率土之滨同盟战打法分享。",
        "测试作者",
        "not-a-valid-url!!!",
    );

    let result = pipeline.process(vec![item]);
    assert_eq!(result.signals.len(), 1);
    assert_eq!(result.signals[0].resolved_game_id.as_deref(), Some("game_stzb"));
}

#[test]
fn information_duplicate_detected_for_same_semantic_content() {
    let pipeline = make_pipeline();
    let first = make_raw_item(
        "raw_info_dup_1",
        "official",
        "official",
        "率土之滨新赛季征服赛季公告",
        "率土之滨官方发布新赛季征服赛季公告，包含武将觉醒调整。",
        "率土之滨官方",
        "https://stzb.163.com/news/season-announce",
    );
    let second = make_raw_item(
        "raw_info_dup_2",
        "weibo",
        "media",
        "率土之滨新赛季征服赛季公告解读",
        "率土之滨官方发布新赛季征服赛季公告，包含武将觉醒调整。简单解读一下。",
        "游戏媒体号",
        "https://weibo.com/u/media?id=slg001",
    );

    let result = pipeline.process(vec![first, second]);
    assert!(result.signals.len() == 2);
    let resolved_count = result
        .signals
        .iter()
        .filter(|s| s.resolved_game_id.as_deref() == Some("game_stzb"))
        .count();
    assert!(resolved_count >= 1);
}

#[test]
fn slg_season_event_is_attributed() {
    let pipeline = make_pipeline();
    let item = make_raw_item(
        "raw_season_event",
        "official",
        "official",
        "率土之滨新赛季开启公告",
        "率土之滨新赛季征服赛季正式开启，同盟战规则全面调整。",
        "率土之滨官方",
        "https://stzb.163.com/news/season-open",
    );

    let result = pipeline.process(vec![item]);
    let signal = &result.signals[0];
    assert_eq!(signal.resolved_game_id.as_deref(), Some("game_stzb"));
    assert!(
        signal.event_type.as_deref() == Some("season")
            || signal.event_type.as_deref() == Some("version"),
        "expected season or version event, got {:?}",
        signal.event_type
    );
}
