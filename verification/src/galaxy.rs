//! The galaxy view of the web front end: lists of games and events and a
//! summary, from the stored signals where there are any, else from a fixed
//! sample of SLG games and events.
use crate::assets::{lookup_last, lookup_last_exec, IndexPair};
use crate::strs::{concat, concat3, owned, str_eq};
use crate::text_utils::{is_utc_stamp, utc_now_iso};
use vstd::prelude::*;

verus! {

/// A game in the galaxy list.
pub struct GalaxyGameListItem {
    pub id: String,
    pub name: String,
    pub studio: String,
    pub stage: String,
    pub aliases: Vec<String>,
    pub official_url: String,
    pub signal_count: i64,
    pub note: String,
}

/// An event in the galaxy list.
pub struct GalaxyEventListItem {
    pub id: String,
    pub title: String,
    pub event_type: String,
    pub game_id: String,
    pub game_name: String,
    pub heat: i64,
    pub source_count: i64,
    pub note: String,
}

/// The headline numbers of the galaxy.
pub struct GalaxySummaryView {
    pub headline: String,
    pub subheadline: String,
    pub game_count: i64,
    pub event_count: i64,
    pub source_count: i64,
    pub track_count: i64,
    pub last_updated: String,
}

/// One tab of the galaxy list: games or events.
pub struct GalaxyListResponse {
    pub tab: String,
    pub games: Vec<GalaxyGameListItem>,
    pub events: Vec<GalaxyEventListItem>,
}

/// A sample game.
pub struct MockGame {
    pub id: String,
    pub name: String,
    pub studio: String,
    pub stage: String,
    pub aliases: Vec<String>,
    pub official_url: String,
    pub signal_count: i64,
    pub note: String,
}

/// A sample event.
pub struct MockEvent {
    pub id: String,
    pub title: String,
    pub event_type: String,
    pub game_id: String,
    pub game_name: String,
    pub heat: i64,
    pub source_count: i64,
    pub note: String,
}

impl MockGame {
    /// `item` shows this game.
    pub open spec fn shown_by(&self, item: GalaxyGameListItem) -> bool {
        &&& item.id@ == self.id@
        &&& item.name@ == self.name@
        &&& item.studio@ == self.studio@
        &&& item.stage@ == self.stage@
        &&& item.aliases.deep_view() == self.aliases.deep_view()
        &&& item.official_url@ == self.official_url@
        &&& item.signal_count == self.signal_count
        &&& item.note@ == self.note@
    }
}

impl MockEvent {
    /// `item` shows this event.
    pub open spec fn shown_by(&self, item: GalaxyEventListItem) -> bool {
        &&& item.id@ == self.id@
        &&& item.title@ == self.title@
        &&& item.event_type@ == self.event_type@
        &&& item.game_id@ == self.game_id@
        &&& item.game_name@ == self.game_name@
        &&& item.heat == self.heat
        &&& item.source_count == self.source_count
        &&& item.note@ == self.note@
    }
}

impl GalaxyListResponse {
    /// The response is the `tab` tab of the sample: its events for
    /// `events`, else its games.
    pub open spec fn lists(&self, games: Seq<MockGame>, events: Seq<MockEvent>, tab: Seq<char>) -> bool {
        if tab == "events"@ {
            &&& self.tab@ == "events"@
            &&& self.games@.len() == 0
            &&& self.events@.len() == events.len()
            &&& forall|i: int|
                0 <= i < events.len() ==> #[trigger] events[i].shown_by(self.events@[i])
        } else {
            &&& self.tab@ == "games"@
            &&& self.events@.len() == 0
            &&& self.games@.len() == games.len()
            &&& forall|i: int| 0 <= i < games.len() ==> #[trigger] games[i].shown_by(self.games@[i])
        }
    }
}

pub(crate) fn strings_of(items: &[&str]) -> (r: Vec<String>)
    ensures
        r.deep_view() == items.deep_view(),
{
    let mut out: Vec<String> = Vec::new();
    let mut i: usize = 0;
    while i < items.len()
        invariant
            i <= items@.len(),
            out.deep_view() == items.deep_view().take(i as int),
        decreases items@.len() - i,
    {
        let ghost before = out.deep_view();
        out.push(owned(items[i]));
        proof {
            assert(out.deep_view() =~= before.push(items@[i as int]@));
            assert(items.deep_view().take(i + 1) =~= items.deep_view().take(i as int).push(
                items@[i as int]@,
            ));
        }
        i += 1;
    }
    proof {
        assert(items.deep_view().take(items@.len() as int) == items.deep_view());
    }
    out
}

impl MockGame {
    pub fn new(
        id: &str,
        name: &str,
        studio: &str,
        stage: &str,
        aliases: &[&str],
        official_url: &str,
        signal_count: i64,
        note: &str,
    ) -> (r: MockGame)
        ensures
            r.id@ == id@,
            r.name@ == name@,
            r.studio@ == studio@,
            r.stage@ == stage@,
            r.aliases.deep_view() == aliases.deep_view(),
            r.official_url@ == official_url@,
            r.signal_count == signal_count,
            r.note@ == note@,
    {
        MockGame {
            id: owned(id),
            name: owned(name),
            studio: owned(studio),
            stage: owned(stage),
            aliases: strings_of(aliases),
            official_url: owned(official_url),
            signal_count,
            note: owned(note),
        }
    }

    /// The game as a list item.
    pub fn to_view(&self) -> (r: GalaxyGameListItem)
        ensures
            r.id@ == self.id@,
            r.name@ == self.name@,
            r.studio@ == self.studio@,
            r.stage@ == self.stage@,
            r.aliases.deep_view() == self.aliases.deep_view(),
            r.official_url@ == self.official_url@,
            r.signal_count == self.signal_count,
            r.note@ == self.note@,
    {
        GalaxyGameListItem {
            id: self.id.clone(),
            name: self.name.clone(),
            studio: self.studio.clone(),
            stage: self.stage.clone(),
            aliases: crate::models::copy_strings(&self.aliases),
            official_url: self.official_url.clone(),
            signal_count: self.signal_count,
            note: self.note.clone(),
        }
    }
}

impl MockEvent {
    pub fn new(
        id: &str,
        title: &str,
        event_type: &str,
        game_id: &str,
        game_name: &str,
        heat: i64,
        source_count: i64,
        note: &str,
    ) -> (r: MockEvent)
        ensures
            r.id@ == id@,
            r.title@ == title@,
            r.event_type@ == event_type@,
            r.game_id@ == game_id@,
            r.game_name@ == game_name@,
            r.heat == heat,
            r.source_count == source_count,
            r.note@ == note@,
    {
        MockEvent {
            id: owned(id),
            title: owned(title),
            event_type: owned(event_type),
            game_id: owned(game_id),
            game_name: owned(game_name),
            heat,
            source_count,
            note: owned(note),
        }
    }

    /// The event as a list item.
    pub fn to_view(&self) -> (r: GalaxyEventListItem)
        ensures
            r.id@ == self.id@,
            r.title@ == self.title@,
            r.event_type@ == self.event_type@,
            r.game_id@ == self.game_id@,
            r.game_name@ == self.game_name@,
            r.heat == self.heat,
            r.source_count == self.source_count,
            r.note@ == self.note@,
    {
        GalaxyEventListItem {
            id: self.id.clone(),
            title: self.title.clone(),
            event_type: self.event_type.clone(),
            game_id: self.game_id.clone(),
            game_name: self.game_name.clone(),
            heat: self.heat,
            source_count: self.source_count,
            note: self.note.clone(),
        }
    }
}

/// What a sample game holds.
#[verifier::ext_equal]
pub struct MockGameV {
    pub id: Seq<char>,
    pub name: Seq<char>,
    pub studio: Seq<char>,
    pub stage: Seq<char>,
    pub aliases: Seq<Seq<char>>,
    pub official_url: Seq<char>,
    pub signal_count: int,
    pub note: Seq<char>,
}

/// What a sample event holds.
#[verifier::ext_equal]
pub struct MockEventV {
    pub id: Seq<char>,
    pub title: Seq<char>,
    pub event_type: Seq<char>,
    pub game_id: Seq<char>,
    pub game_name: Seq<char>,
    pub heat: int,
    pub source_count: int,
    pub note: Seq<char>,
}

impl DeepView for MockGame {
    type V = MockGameV;

    open spec fn deep_view(&self) -> MockGameV {
        MockGameV {
            id: self.id@,
            name: self.name@,
            studio: self.studio@,
            stage: self.stage@,
            aliases: self.aliases.deep_view(),
            official_url: self.official_url@,
            signal_count: self.signal_count as int,
            note: self.note@,
        }
    }
}

impl DeepView for MockEvent {
    type V = MockEventV;

    open spec fn deep_view(&self) -> MockEventV {
        MockEventV {
            id: self.id@,
            title: self.title@,
            event_type: self.event_type@,
            game_id: self.game_id@,
            game_name: self.game_name@,
            heat: self.heat as int,
            source_count: self.source_count as int,
            note: self.note@,
        }
    }
}

/// A sample game with the given fields.
pub open spec fn game_v(
    id: &str,
    name: &str,
    studio: &str,
    stage: &str,
    aliases: Seq<Seq<char>>,
    official_url: &str,
    signal_count: int,
    note: &str,
) -> MockGameV {
    MockGameV {
        id: id@,
        name: name@,
        studio: studio@,
        stage: stage@,
        aliases,
        official_url: official_url@,
        signal_count,
        note: note@,
    }
}

/// A sample event with the given fields.
pub open spec fn event_v(
    id: &str,
    title: &str,
    event_type: &str,
    game_id: &str,
    game_name: &str,
    heat: int,
    source_count: int,
    note: &str,
) -> MockEventV {
    MockEventV {
        id: id@,
        title: title@,
        event_type: event_type@,
        game_id: game_id@,
        game_name: game_name@,
        heat,
        source_count,
        note: note@,
    }
}

/// The sample games.
pub open spec fn sample_games() -> Seq<MockGameV> {
    seq![
        game_v("rate-land", "率土之滨", "网易", "核心标的", seq!["率土"@, "RSZ"@],
            "https://stzb.163.com", 128, "赛季节奏长期稳定，适合作为 SLG 中枢样本。"),
        game_v("sango-slg", "三国志·战略版", "灵犀互娱", "核心标的",
            seq!["三战"@, "三国志战略版"@, "SZ"@], "https://sango.xd.com", 141,
            "内容讨论密度高，适合观察版本与联盟战热点。"),
        game_v("rok", "万国觉醒", "莉莉丝", "核心标的", seq!["ROK"@, "万国"@],
            "https://riseofkingdoms.com", 97, "全球化内容多，转载链路明显。"),
        game_v("civ", "文明与征服", "点点互动", "跟踪标的", seq!["文明"@, "CivC"@],
            "https://www.wmyzf.com", 66, "题材特殊，适合做长尾跟踪。"),
        game_v("aoe", "重返帝国", "腾讯", "跟踪标的", seq!["重返"@, "AOE Mobile"@],
            "https://zfdg.qq.com", 72, "版本和商业投放经常同步抬升。"),
        game_v("hongtu", "鸿图之下", "祖龙娱乐", "跟踪标的", seq!["鸿图"@],
            "https://htzx.qq.com", 51, "话题集中在玩法和赛季体验。"),
        game_v("mouding", "三国：谋定天下", "灵犀互娱", "观察标的", seq!["谋定天下"@, "谋定"@],
            "https://sgmdtx.com", 43, "新品观察位，适合放在外层轨道。"),
    ]
}

/// The sample events.
pub open spec fn sample_events() -> Seq<MockEventV> {
    seq![
        event_v("evt-season-shift", "赛季节奏变化", "version", "rate-land", "率土之滨", 88, 5,
            "围绕赛季更新、武将平衡与城战节奏。"),
        event_v("evt-alliance-war", "联盟战与城战热度", "activity", "sango-slg", "三国志·战略版",
            92, 6, "联盟冲突与版本活动一起抬升讨论。"),
        event_v("evt-creator-surge", "创作者内容热度", "activity", "rok", "万国觉醒", 75, 4,
            "搬运、解说和攻略二创明显增多。"),
        event_v("evt-commercial-push", "商业投放加码", "launch", "aoe", "重返帝国", 61, 4,
            "版本宣传与投放在同一周期放大。"),
        event_v("evt-new-product-watch", "新品赛道观察", "test", "mouding", "三国：谋定天下", 58,
            3, "外层观察轨道，用来承接新品信号。"),
    ]
}

/// The sample games and events.
pub struct MockGalaxyRepository {
    pub games: Vec<MockGame>,
    pub events: Vec<MockEvent>,
}

impl MockGalaxyRepository {
    pub open spec fn holds_samples(&self) -> bool {
        &&& self.games.deep_view() == sample_games()
        &&& self.events.deep_view() == sample_events()
    }

    /// The sample data.
    pub fn new() -> (r: MockGalaxyRepository)
        ensures
            r.holds_samples(),
    {
        let mut games: Vec<MockGame> = Vec::new();
        let g = MockGame::new(
            "rate-land",
            "率土之滨",
            "网易",
            "核心标的",
            &["率土", "RSZ"],
            "https://stzb.163.com",
            128,
            "赛季节奏长期稳定，适合作为 SLG 中枢样本。",
        );
        assert(g.deep_view() =~= sample_games()[0]);
        games.push(g);
        let g = MockGame::new(
            "sango-slg",
            "三国志·战略版",
            "灵犀互娱",
            "核心标的",
            &["三战", "三国志战略版", "SZ"],
            "https://sango.xd.com",
            141,
            "内容讨论密度高，适合观察版本与联盟战热点。",
        );
        assert(g.deep_view() =~= sample_games()[1]);
        games.push(g);
        let g = MockGame::new(
            "rok",
            "万国觉醒",
            "莉莉丝",
            "核心标的",
            &["ROK", "万国"],
            "https://riseofkingdoms.com",
            97,
            "全球化内容多，转载链路明显。",
        );
        assert(g.deep_view() =~= sample_games()[2]);
        games.push(g);
        let g = MockGame::new(
            "civ",
            "文明与征服",
            "点点互动",
            "跟踪标的",
            &["文明", "CivC"],
            "https://www.wmyzf.com",
            66,
            "题材特殊，适合做长尾跟踪。",
        );
        assert(g.deep_view() =~= sample_games()[3]);
        games.push(g);
        let g = MockGame::new(
            "aoe",
            "重返帝国",
            "腾讯",
            "跟踪标的",
            &["重返", "AOE Mobile"],
            "https://zfdg.qq.com",
            72,
            "版本和商业投放经常同步抬升。",
        );
        assert(g.deep_view() =~= sample_games()[4]);
        games.push(g);
        let g = MockGame::new(
            "hongtu",
            "鸿图之下",
            "祖龙娱乐",
            "跟踪标的",
            &["鸿图"],
            "https://htzx.qq.com",
            51,
            "话题集中在玩法和赛季体验。",
        );
        assert(g.deep_view() =~= sample_games()[5]);
        games.push(g);
        let g = MockGame::new(
            "mouding",
            "三国：谋定天下",
            "灵犀互娱",
            "观察标的",
            &["谋定天下", "谋定"],
            "https://sgmdtx.com",
            43,
            "新品观察位，适合放在外层轨道。",
        );
        assert(g.deep_view() =~= sample_games()[6]);
        games.push(g);
        assert(games.deep_view() =~= sample_games());
        let mut events: Vec<MockEvent> = Vec::new();
        let e = MockEvent::new(
            "evt-season-shift",
            "赛季节奏变化",
            "version",
            "rate-land",
            "率土之滨",
            88,
            5,
            "围绕赛季更新、武将平衡与城战节奏。",
        );
        assert(e.deep_view() =~= sample_events()[0]);
        events.push(e);
        let e = MockEvent::new(
            "evt-alliance-war",
            "联盟战与城战热度",
            "activity",
            "sango-slg",
            "三国志·战略版",
            92,
            6,
            "联盟冲突与版本活动一起抬升讨论。",
        );
        assert(e.deep_view() =~= sample_events()[1]);
        events.push(e);
        let e = MockEvent::new(
            "evt-creator-surge",
            "创作者内容热度",
            "activity",
            "rok",
            "万国觉醒",
            75,
            4,
            "搬运、解说和攻略二创明显增多。",
        );
        assert(e.deep_view() =~= sample_events()[2]);
        events.push(e);
        let e = MockEvent::new(
            "evt-commercial-push",
            "商业投放加码",
            "launch",
            "aoe",
            "重返帝国",
            61,
            4,
            "版本宣传与投放在同一周期放大。",
        );
        assert(e.deep_view() =~= sample_events()[3]);
        events.push(e);
        let e = MockEvent::new(
            "evt-new-product-watch",
            "新品赛道观察",
            "test",
            "mouding",
            "三国：谋定天下",
            58,
            3,
            "外层观察轨道，用来承接新品信号。",
        );
        assert(e.deep_view() =~= sample_events()[4]);
        events.push(e);
        assert(events.deep_view() =~= sample_events());
        MockGalaxyRepository { games, events }
    }

    /// The summary of the sample, updated at `last_updated`.
    pub fn summary(&self, last_updated: String) -> (r: GalaxySummaryView)
        requires
            self.holds_samples(),
        ensures
            r.headline@ == "SLG 星河总览"@,
            r.subheadline@ == "蓝白轻量主界面，左侧筛选游戏与事件，右侧星系持续缓速运动。"@,
            r.game_count == sample_games().len(),
            r.event_count == sample_events().len(),
            r.source_count == 6,
            r.track_count == 1,
            r.last_updated@ == last_updated@,
    {
        GalaxySummaryView {
            headline: owned("SLG 星河总览"),
            subheadline: owned("蓝白轻量主界面，左侧筛选游戏与事件，右侧星系持续缓速运动。"),
            game_count: self.games.len() as i64,
            event_count: self.events.len() as i64,
            source_count: 6,
            track_count: 1,
            last_updated,
        }
    }

    /// The events tab for `events`, else the games tab.
    pub fn list(&self, tab: &str) -> (r: GalaxyListResponse)
        ensures
            r.lists(self.games@, self.events@, tab@),
    {
        if str_eq(tab, "events") {
            let mut events: Vec<GalaxyEventListItem> = Vec::new();
            let mut i: usize = 0;
            while i < self.events.len()
                invariant
                    i <= self.events@.len(),
                    events@.len() == i,
                    forall|k: int| 0 <= k < i ==> #[trigger] self.events@[k].shown_by(events@[k]),
                decreases self.events@.len() - i,
            {
                events.push(self.events[i].to_view());
                i += 1;
            }
            GalaxyListResponse { tab: owned("events"), games: Vec::new(), events }
        } else {
            let mut games: Vec<GalaxyGameListItem> = Vec::new();
            let mut i: usize = 0;
            while i < self.games.len()
                invariant
                    i <= self.games@.len(),
                    games@.len() == i,
                    forall|k: int| 0 <= k < i ==> #[trigger] self.games@[k].shown_by(games@[k]),
                decreases self.games@.len() - i,
            {
                games.push(self.games[i].to_view());
                i += 1;
            }
            GalaxyListResponse { tab: owned("games"), games, events: Vec::new() }
        }
    }
}

// ---------------------------------------------------------------------------
// the stored signals

/// The summary of the stored SLG signals from their distinct counts of
/// games, event kinds, platforms and tracks; `None` when there are neither
/// games nor events.
pub fn summary_from_counts(
    game_count: i64,
    event_count: i64,
    source_count: i64,
    track_count: i64,
    last_updated: String,
) -> (r: Option<GalaxySummaryView>)
    ensures
        (game_count == 0 && event_count == 0) <==> r is None,
        r matches Some(v) ==> v.headline@ == "SLG 赛道星图"@ && v.subheadline@
            == "当前视图优先展示 SQLite 中已归并的 SLG 信号。"@ && v.game_count == game_count
            && v.event_count == event_count && v.source_count == source_count && v.track_count
            == track_count && v.last_updated@ == last_updated@,
{
    if game_count == 0 && event_count == 0 {
        return None;
    }
    Some(
        GalaxySummaryView {
            headline: owned("SLG 赛道星图"),
            subheadline: owned("当前视图优先展示 SQLite 中已归并的 SLG 信号。"),
            game_count,
            event_count,
            source_count,
            track_count,
            last_updated,
        },
    )
}

/// The name of a game: its standard name in the assets, else its id.
pub fn game_name(names: &Vec<IndexPair>, game_id: &str) -> (r: String)
    ensures
        r@ == (match lookup_last(names.deep_view(), game_id@) {
            Some(n) => n,
            None => game_id@,
        }),
{
    match lookup_last_exec(names, game_id) {
        Some(n) => n,
        None => owned(game_id),
    }
}

/// An event row of the stored signals (kind, game, heat, platforms, title)
/// as a list item.
pub fn event_list_item(
    event_type: &str,
    game_id: &str,
    heat: i64,
    source_count: i64,
    title: &str,
    names: &Vec<IndexPair>,
) -> (r: GalaxyEventListItem)
    ensures
        r.id@ == "sqlite-event-"@ + event_type@ + "-"@ + (if game_id@.len() == 0 {
            "none"@
        } else {
            game_id@
        }),
        r.title@ == title@,
        r.event_type@ == event_type@,
        r.game_id@ == game_id@,
        r.game_name@ == (match lookup_last(names.deep_view(), game_id@) {
            Some(n) => n,
            None => game_id@,
        }),
        r.heat == heat,
        r.source_count == source_count,
        r.note@ == "来自当前 SQLite 快照"@,
{
    let suffix = if game_id.is_empty() {
        "none"
    } else {
        game_id
    };
    let head = concat3("sqlite-event-", event_type, "-");
    GalaxyEventListItem {
        id: concat(head.as_str(), suffix),
        title: owned(title),
        event_type: owned(event_type),
        game_id: owned(game_id),
        game_name: game_name(names, game_id),
        heat,
        source_count,
        note: owned("来自当前 SQLite 快照"),
    }
}

/// A game row of the stored signals (game, signal count, track) as a list
/// item.
pub fn game_list_item(
    game_id: &str,
    signal_count: i64,
    track_id: &str,
    names: &Vec<IndexPair>,
) -> (r: GalaxyGameListItem)
    ensures
        r.id@ == game_id@,
        r.name@ == (match lookup_last(names.deep_view(), game_id@) {
            Some(n) => n,
            None => game_id@,
        }),
        r.studio@ == "SQLite 聚合"@,
        r.stage@ == "实时快照"@,
        r.aliases.deep_view() == seq![track_id@],
        r.official_url@.len() == 0,
        r.signal_count == signal_count,
        r.note@ == "来自当前 SQLite 快照"@,
{
    let mut aliases: Vec<String> = Vec::new();
    aliases.push(owned(track_id));
    proof {
        assert(aliases.deep_view() =~= seq![track_id@]);
    }
    GalaxyGameListItem {
        id: owned(game_id),
        name: game_name(names, game_id),
        studio: owned("SQLite 聚合"),
        stage: owned("实时快照"),
        aliases,
        official_url: String::new(),
        signal_count,
        note: owned("来自当前 SQLite 快照"),
    }
}

// ---------------------------------------------------------------------------
// the service

/// The galaxy service: the stored signals at `core_db_path`, and the sample
/// for when they hold nothing.
pub struct GalaxyService {
    pub core_db_path: String,
    pub mock: MockGalaxyRepository,
}

impl GalaxyService {
    pub fn new(core_db_path: String) -> (r: GalaxyService)
        ensures
            r.core_db_path == core_db_path,
            r.mock.holds_samples(),
    {
        GalaxyService { core_db_path, mock: MockGalaxyRepository::new() }
    }

    /// The summary of the stored signals (`stored`), else of the sample,
    /// updated now.
    pub fn summary(&self, stored: Option<GalaxySummaryView>) -> (r: GalaxySummaryView)
        requires
            self.mock.holds_samples(),
        ensures
            stored matches Some(s) ==> r == s,
            stored is None ==> {
                &&& r.headline@ == "SLG 星河总览"@
                &&& r.subheadline@ == "蓝白轻量主界面，左侧筛选游戏与事件，右侧星系持续缓速运动。"@
                &&& r.game_count == sample_games().len()
                &&& r.event_count == sample_events().len()
                &&& r.source_count == 6
                &&& r.track_count == 1
                &&& is_utc_stamp(r.last_updated@)
            },
    {
        match stored {
            Some(s) => s,
            None => self.mock.summary(utc_now_iso()),
        }
    }

    /// The `events` tab when `tab` is `events`, else the `games` tab: the
    /// stored rows of that tab (`stored_games` or `stored_events`, as read
    /// for it) when there are any, else the sample's.
    pub fn list(
        &self,
        tab: &str,
        stored_games: Vec<GalaxyGameListItem>,
        stored_events: Vec<GalaxyEventListItem>,
    ) -> (r: GalaxyListResponse)
        requires
            self.mock.holds_samples(),
        ensures
            r.tab@ == (if tab@ == "events"@ {
                "events"@
            } else {
                "games"@
            }),
            tab@ == "events"@ ==> r.games@.len() == 0 && r.events@.len() > 0,
            tab@ != "events"@ ==> r.events@.len() == 0 && r.games@.len() > 0,
            tab@ == "events"@ && stored_events@.len() > 0 ==> r.events@ == stored_events@,
            tab@ != "events"@ && stored_games@.len() > 0 ==> r.games@ == stored_games@,
            (tab@ == "events"@ && stored_events@.len() == 0) || (tab@ != "events"@
                && stored_games@.len() == 0) ==> r.lists(self.mock.games@, self.mock.events@, tab@),
    {
        match stored_list(tab, stored_games, stored_events) {
            Some(s) => s,
            None => {
                let r = self.mock.list(tab);
                proof {
                    reveal_strlit("events");
                    reveal_strlit("games");
                    assert(self.mock.games.deep_view().len() == 7);
                    assert(self.mock.events.deep_view().len() == 5);
                }
                r
            },
        }
    }
}

/// Whether `tab` asks for the events tab (else it is the games tab).
pub fn lists_events(tab: &str) -> (r: bool)
    ensures
        r == (tab@ == "events"@),
{
    str_eq(tab, "events")
}

/// The stored rows as the `tab` tab: the events tab when `tab` is
/// `events`, else the games tab, each holding the rows read for it; `None`
/// when there are no such rows.
pub fn stored_list(
    tab: &str,
    games: Vec<GalaxyGameListItem>,
    events: Vec<GalaxyEventListItem>,
) -> (r: Option<GalaxyListResponse>)
    ensures
        tab@ == "events"@ ==> (r is None <==> events@.len() == 0),
        tab@ != "events"@ ==> (r is None <==> games@.len() == 0),
        r matches Some(l) ==> (if tab@ == "events"@ {
            &&& l.tab@ == "events"@
            &&& l.games@.len() == 0
            &&& l.events@ == events@
        } else {
            &&& l.tab@ == "games"@
            &&& l.events@.len() == 0
            &&& l.games@ == games@
        }),
{
    if lists_events(tab) {
        if events.len() == 0 {
            None
        } else {
            Some(GalaxyListResponse { tab: owned("events"), games: Vec::new(), events })
        }
    } else {
        if games.len() == 0 {
            None
        } else {
            Some(GalaxyListResponse { tab: owned("games"), games, events: Vec::new() })
        }
    }
}

} // verus!
