//! The focus view of the galaxy: one game or event at the centre, with its
//! events and sources on orbits around it.
//!
//! A node's angle and size and an edge's strength are drawn as floating
//! point numbers; here each is kept as the integers it is computed from and
//! the formula that computes it.
use crate::assets::{lookup_last, IndexPair};
use crate::galaxy::{
    game_name, strings_of, GalaxyService, MockEvent, MockEventV, MockGalaxyRepository, MockGame,
    MockGameV,
};
use crate::strs::{concat, concat3, decimal, decimal_of, owned, str_eq};
use vstd::prelude::*;

verus! {

/// Where on its orbit a node stands, in degrees.
#[derive(Clone, Copy, Debug, PartialEq, Eq, Structural)]
pub enum NodeAngle {
    /// This many degrees.
    Fixed(i64),
    /// `step * index` degrees: the `index`-th of nodes `step` degrees apart.
    Spaced { step: i64, index: usize },
}

/// The size of a node.
#[derive(Clone, Copy, Debug, PartialEq, Eq, Structural)]
pub enum NodeSize {
    /// This size.
    Fixed(i64),
    /// `base + min(count, cap)`.
    Capped { base: i64, count: i64, cap: i64 },
    /// `base + value / divisor`.
    Scaled { base: i64, value: i64, divisor: i64 },
}

/// The strength of an edge.
#[derive(Clone, Copy, Debug, PartialEq, Eq, Structural)]
pub enum EdgeStrength {
    /// `value / divisor`, held between `floor_hundredths / 100` and 1.
    Clamped { value: i64, divisor: i64, floor_hundredths: i64 },
    /// A tenth of a weight given in tenths: `(tenths / 10) / 10`.
    Weight { tenths: i64 },
}

/// A node of the focus view.
pub struct GalaxyNode {
    pub id: String,
    pub label: String,
    pub node_type: String,
    pub orbit: i64,
    pub angle: NodeAngle,
    pub size: NodeSize,
    pub accent: String,
    pub detail: String,
}

/// An edge of the focus view.
pub struct GalaxyEdge {
    pub source: String,
    pub target: String,
    pub edge_type: String,
    pub strength: EdgeStrength,
}

/// The focus view of one game or event.
pub struct GalaxyFocusView {
    pub focus_id: String,
    pub focus_kind: String,
    pub title: String,
    pub subtitle: String,
    pub narrative: Vec<String>,
    pub nodes: Vec<GalaxyNode>,
    pub edges: Vec<GalaxyEdge>,
    pub available_layers: Vec<String>,
}

/// A stored count: an event kind or a platform, and how many signals it has.
pub struct GalaxyCount {
    pub label: String,
    pub count: i64,
}

/// A source of the sample, with its weight in tenths.
pub struct MockSource {
    pub name: String,
    pub weight_tenths: i64,
    pub note: String,
}

#[verifier::ext_equal]
pub struct GalaxyNodeV {
    pub id: Seq<char>,
    pub label: Seq<char>,
    pub node_type: Seq<char>,
    pub orbit: int,
    pub angle: NodeAngle,
    pub size: NodeSize,
    pub accent: Seq<char>,
    pub detail: Seq<char>,
}

#[verifier::ext_equal]
pub struct GalaxyEdgeV {
    pub source: Seq<char>,
    pub target: Seq<char>,
    pub edge_type: Seq<char>,
    pub strength: EdgeStrength,
}

#[verifier::ext_equal]
pub struct GalaxyFocusV {
    pub focus_id: Seq<char>,
    pub focus_kind: Seq<char>,
    pub title: Seq<char>,
    pub subtitle: Seq<char>,
    pub narrative: Seq<Seq<char>>,
    pub nodes: Seq<GalaxyNodeV>,
    pub edges: Seq<GalaxyEdgeV>,
    pub layers: Seq<Seq<char>>,
}

#[verifier::ext_equal]
pub struct MockSourceV {
    pub name: Seq<char>,
    pub tenths: int,
    pub note: Seq<char>,
}

impl DeepView for GalaxyNode {
    type V = GalaxyNodeV;

    open spec fn deep_view(&self) -> GalaxyNodeV {
        GalaxyNodeV {
            id: self.id@,
            label: self.label@,
            node_type: self.node_type@,
            orbit: self.orbit as int,
            angle: self.angle,
            size: self.size,
            accent: self.accent@,
            detail: self.detail@,
        }
    }
}

impl DeepView for GalaxyEdge {
    type V = GalaxyEdgeV;

    open spec fn deep_view(&self) -> GalaxyEdgeV {
        GalaxyEdgeV {
            source: self.source@,
            target: self.target@,
            edge_type: self.edge_type@,
            strength: self.strength,
        }
    }
}

impl DeepView for GalaxyFocusView {
    type V = GalaxyFocusV;

    open spec fn deep_view(&self) -> GalaxyFocusV {
        GalaxyFocusV {
            focus_id: self.focus_id@,
            focus_kind: self.focus_kind@,
            title: self.title@,
            subtitle: self.subtitle@,
            narrative: self.narrative.deep_view(),
            nodes: self.nodes.deep_view(),
            edges: self.edges.deep_view(),
            layers: self.available_layers.deep_view(),
        }
    }
}

impl DeepView for GalaxyCount {
    type V = (Seq<char>, int);

    open spec fn deep_view(&self) -> (Seq<char>, int) {
        (self.label@, self.count as int)
    }
}

impl DeepView for MockSource {
    type V = MockSourceV;

    open spec fn deep_view(&self) -> MockSourceV {
        MockSourceV { name: self.name@, tenths: self.weight_tenths as int, note: self.note@ }
    }
}

// ---------------------------------------------------------------------------
// the sample sources

pub open spec fn source_v(name: &str, tenths: int, note: &str) -> MockSourceV {
    MockSourceV { name: name@, tenths, note: note@ }
}

/// The sources of the sample around a game.
pub open spec fn mock_sources_of(game_id: Seq<char>) -> Seq<MockSourceV> {
    if game_id == "rate-land"@ {
        seq![
            source_v("官方公告", 50, "高置信官方源"),
            source_v("Bilibili", 40, "长视频攻略与战报"),
            source_v("抖音", 30, "短视频高频搬运"),
            source_v("微博", 25, "节点扩散与二次传播"),
        ]
    } else if game_id == "sango-slg"@ {
        seq![
            source_v("官方账号", 50, "版本与活动公告"),
            source_v("小红书", 32, "阵容分享与轻攻略"),
            source_v("Bilibili", 46, "深度拆解与联盟战内容"),
            source_v("TapTap", 28, "用户体验反馈"),
        ]
    } else if game_id == "rok"@ {
        seq![
            source_v("YouTube 搬运", 36, "国际内容二次传播"),
            source_v("微博", 26, "热点扩散"),
            source_v("Bilibili", 39, "长视频战报"),
            source_v("官方公告", 45, "版本源头"),
        ]
    } else {
        seq![
            source_v("官方", 43, "官方公告与活动页"),
            source_v("Bilibili", 34, "创作者内容"),
            source_v("抖音", 29, "轻量热视频"),
        ]
    }
}

fn mock_source(name: &str, weight_tenths: i64, note: &str) -> (r: MockSource)
    ensures
        r.deep_view() == source_v(name, weight_tenths as int, note),
{
    MockSource { name: owned(name), weight_tenths, note: owned(note) }
}

/// The sources of the sample around a game.
pub fn mock_sources_for(game_id: &str) -> (r: Vec<MockSource>)
    ensures
        r.deep_view() == mock_sources_of(game_id@),
{
    let mut v: Vec<MockSource> = Vec::new();
    if str_eq(game_id, "rate-land") {
        v.push(mock_source("官方公告", 50, "高置信官方源"));
        v.push(mock_source("Bilibili", 40, "长视频攻略与战报"));
        v.push(mock_source("抖音", 30, "短视频高频搬运"));
        v.push(mock_source("微博", 25, "节点扩散与二次传播"));
    } else if str_eq(game_id, "sango-slg") {
        v.push(mock_source("官方账号", 50, "版本与活动公告"));
        v.push(mock_source("小红书", 32, "阵容分享与轻攻略"));
        v.push(mock_source("Bilibili", 46, "深度拆解与联盟战内容"));
        v.push(mock_source("TapTap", 28, "用户体验反馈"));
    } else if str_eq(game_id, "rok") {
        v.push(mock_source("YouTube 搬运", 36, "国际内容二次传播"));
        v.push(mock_source("微博", 26, "热点扩散"));
        v.push(mock_source("Bilibili", 39, "长视频战报"));
        v.push(mock_source("官方公告", 45, "版本源头"));
    } else {
        v.push(mock_source("官方", 43, "官方公告与活动页"));
        v.push(mock_source("Bilibili", 34, "创作者内容"));
        v.push(mock_source("抖音", 29, "轻量热视频"));
    }
    assert(v.deep_view() =~= mock_sources_of(game_id@));
    v
}

// ---------------------------------------------------------------------------
// what a focus view shows

pub open spec fn node_v(
    id: Seq<char>,
    label: Seq<char>,
    node_type: &str,
    orbit: int,
    angle: NodeAngle,
    size: NodeSize,
    accent: &str,
    detail: Seq<char>,
) -> GalaxyNodeV {
    GalaxyNodeV {
        id,
        label,
        node_type: node_type@,
        orbit,
        angle,
        size,
        accent: accent@,
        detail,
    }
}

pub open spec fn edge_v(
    source: Seq<char>,
    target: Seq<char>,
    edge_type: &str,
    strength: EdgeStrength,
) -> GalaxyEdgeV {
    GalaxyEdgeV { source, target, edge_type: edge_type@, strength }
}

/// The layers a focus view can show.
pub open spec fn layers_v() -> Seq<Seq<char>> {
    seq!["games"@, "events"@, "sources"@]
}

/// The first game of `games` with id `id`.
pub open spec fn first_game(games: Seq<MockGameV>, id: Seq<char>) -> Option<MockGameV>
    decreases games.len(),
{
    if games.len() == 0 {
        None
    } else if games[0].id == id {
        Some(games[0])
    } else {
        first_game(games.drop_first(), id)
    }
}

/// The first event of `events` with id `id`.
pub open spec fn first_event(events: Seq<MockEventV>, id: Seq<char>) -> Option<MockEventV>
    decreases events.len(),
{
    if events.len() == 0 {
        None
    } else if events[0].id == id {
        Some(events[0])
    } else {
        first_event(events.drop_first(), id)
    }
}

/// The events of `events` about the game `game_id`, in order.
pub open spec fn related_events(events: Seq<MockEventV>, game_id: Seq<char>) -> Seq<MockEventV>
    decreases events.len(),
{
    if events.len() == 0 {
        Seq::<MockEventV>::empty()
    } else {
        let p = related_events(events.drop_last(), game_id);
        if events.last().game_id == game_id {
            p.push(events.last())
        } else {
            p
        }
    }
}

/// The node of the `k`-th event around a game of the sample.
pub open spec fn mock_event_node(e: MockEventV, k: int) -> GalaxyNodeV {
    node_v(
        "event::"@ + e.id,
        e.title,
        "event",
        1,
        NodeAngle::Spaced { step: 72, index: k as usize },
        NodeSize::Scaled { base: 13, value: e.heat as i64, divisor: 20 },
        "#5b9bff",
        e.note,
    )
}

/// The edge from the game at `center` to an event of the sample.
pub open spec fn mock_event_edge(center: Seq<char>, e: MockEventV) -> GalaxyEdgeV {
    edge_v(
        center,
        "event::"@ + e.id,
        "event_link",
        EdgeStrength::Clamped { value: e.heat as i64, divisor: 100, floor_hundredths: 25 },
    )
}

/// The id of the `j`-th source around `owner`.
pub open spec fn source_node_id(owner: Seq<char>, j: int) -> Seq<char> {
    "source::"@ + owner + "::"@ + decimal_of(j)
}

/// The node of the `j`-th sample source around `owner`.
pub open spec fn mock_source_node(
    owner: Seq<char>,
    s: MockSourceV,
    j: int,
    step: i64,
    base: i64,
) -> GalaxyNodeV {
    node_v(
        source_node_id(owner, j),
        s.name,
        "source",
        2,
        NodeAngle::Spaced { step, index: j as usize },
        NodeSize::Scaled { base, value: s.tenths as i64, divisor: 10 },
        "#8bc2ff",
        s.note,
    )
}

/// The edge from `center` to the `j`-th sample source around `owner`.
pub open spec fn mock_source_edge(
    center: Seq<char>,
    owner: Seq<char>,
    s: MockSourceV,
    j: int,
) -> GalaxyEdgeV {
    edge_v(
        center,
        source_node_id(owner, j),
        "source_link",
        EdgeStrength::Weight { tenths: s.tenths as i64 },
    )
}

/// The focus view of the sample game `game_id`: `None` when the sample has
/// no such game.
pub open spec fn mock_game_focus(
    games: Seq<MockGameV>,
    events: Seq<MockEventV>,
    game_id: Seq<char>,
) -> Option<GalaxyFocusV> {
    match first_game(games, game_id) {
        None => None,
        Some(g) => {
            let center = "game::"@ + game_id;
            let rel = related_events(events, game_id);
            let srcs = mock_sources_of(game_id);
            Some(
                GalaxyFocusV {
                    focus_id: g.id,
                    focus_kind: "game"@,
                    title: g.name,
                    subtitle: g.stage + " · "@ + g.studio + " · "@ + g.note,
                    narrative: seq![
                        "核心节点承接游戏实体，周围环绕热点事件和主要来源。"@,
                        "拖拽可以旋转星图，滚轮可以缩放观察距离。"@,
                        "当前首发只组织 SLG 赛道，后续再扩多赛道总导航。"@,
                    ],
                    nodes: seq![
                        node_v(
                            center,
                            g.name,
                            "game",
                            0,
                            NodeAngle::Fixed(0),
                            NodeSize::Fixed(26),
                            "#2d79ff",
                            g.note,
                        ),
                    ] + rel.map(|k: int, e: MockEventV| mock_event_node(e, k)) + srcs.map(
                        |j: int, s: MockSourceV| mock_source_node(game_id, s, j, 58, 11),
                    ),
                    edges: rel.map(|k: int, e: MockEventV| mock_event_edge(center, e)) + srcs.map(
                        |j: int, s: MockSourceV| mock_source_edge(center, game_id, s, j),
                    ),
                    layers: layers_v(),
                },
            )
        },
    }
}

/// The focus view of the sample event `event_id`: `None` when the sample
/// has no such event, or no game for it.
pub open spec fn mock_event_focus(
    games: Seq<MockGameV>,
    events: Seq<MockEventV>,
    event_id: Seq<char>,
) -> Option<GalaxyFocusV> {
    match first_event(events, event_id) {
        None => None,
        Some(e) => match first_game(games, e.game_id) {
            None => None,
            Some(g) => {
                let center = "event::"@ + e.id;
                let srcs = mock_sources_of(e.game_id);
                Some(
                    GalaxyFocusV {
                        focus_id: e.id,
                        focus_kind: "event"@,
                        title: e.title,
                        subtitle: e.game_name + " · "@ + e.event_type + " · 热度 "@ + decimal_of(
                            e.heat,
                        ),
                        narrative: seq![
                            "事件视图把热点放到中心，帮助你反向追到游戏和主要来源。"@,
                            "不同图层可以单独开关，便于只看游戏、事件或来源。"@,
                            "星图不是静态装饰，而是围绕焦点保持缓速运动。"@,
                        ],
                        nodes: seq![
                            node_v(
                                center,
                                e.title,
                                "event",
                                0,
                                NodeAngle::Fixed(0),
                                NodeSize::Fixed(24),
                                "#2d79ff",
                                e.note,
                            ),
                            node_v(
                                "game::"@ + g.id,
                                g.name,
                                "game",
                                1,
                                NodeAngle::Fixed(20),
                                NodeSize::Fixed(18),
                                "#5b9bff",
                                g.note,
                            ),
                        ] + srcs.map(|j: int, s: MockSourceV| mock_source_node(e.id, s, j, 60, 10)),
                        edges: seq![
                            edge_v(
                                center,
                                "game::"@ + g.id,
                                "game_link",
                                EdgeStrength::Clamped {
                                    value: e.heat as i64,
                                    divisor: 100,
                                    floor_hundredths: 30,
                                },
                            ),
                        ] + srcs.map(|j: int, s: MockSourceV| mock_source_edge(center, e.id, s, j)),
                        layers: layers_v(),
                    },
                )
            },
        },
    }
}

/// The node of the `k`-th stored count around the game `game_id`: an
/// event kind when `events`, else a platform.
pub open spec fn count_node(game_id: Seq<char>, row: (Seq<char>, int), k: int, events: bool) -> GalaxyNodeV {
    if events {
        node_v(
            "event::"@ + game_id + "::"@ + row.0,
            row.0,
            "event",
            1,
            NodeAngle::Spaced { step: 60, index: k as usize },
            NodeSize::Capped { base: 12, count: row.1 as i64, cap: 16 },
            "#5fa8ff",
            decimal_of(row.1) + " 条相关信号"@,
        )
    } else {
        node_v(
            "source::"@ + game_id + "::"@ + row.0,
            row.0,
            "source",
            2,
            NodeAngle::Spaced { step: 72, index: k as usize },
            NodeSize::Capped { base: 10, count: row.1 as i64, cap: 14 },
            "#7ab8ff",
            decimal_of(row.1) + " 个来源节点"@,
        )
    }
}

/// The edge from the game `game_id` to a stored count.
pub open spec fn count_edge(game_id: Seq<char>, row: (Seq<char>, int), events: bool) -> GalaxyEdgeV {
    if events {
        edge_v(
            "game::"@ + game_id,
            "event::"@ + game_id + "::"@ + row.0,
            "related_event",
            EdgeStrength::Clamped { value: row.1 as i64, divisor: 10, floor_hundredths: 30 },
        )
    } else {
        edge_v(
            "game::"@ + game_id,
            "source::"@ + game_id + "::"@ + row.0,
            "source_link",
            EdgeStrength::Clamped { value: row.1 as i64, divisor: 8, floor_hundredths: 25 },
        )
    }
}

/// The focus view of the stored game `game_id`, from its signal count and
/// its counts by event kind and by platform: `None` when it has no signals.
pub open spec fn stored_game_focus_of(
    names: Seq<(Seq<char>, Seq<char>)>,
    game_id: Seq<char>,
    signal_count: Option<i64>,
    events: Seq<(Seq<char>, int)>,
    sources: Seq<(Seq<char>, int)>,
) -> Option<GalaxyFocusV> {
    if (match signal_count {
        Some(n) => n,
        None => 0,
    }) == 0 {
        None
    } else {
        let name = match lookup_last(names, game_id) {
            Some(n) => n,
            None => game_id,
        };
        Some(
            GalaxyFocusV {
                focus_id: game_id,
                focus_kind: "game"@,
                title: name,
                subtitle: "来源、事件和信号围绕当前实体展开"@,
                narrative: seq![
                    "主星体表示当前聚焦的 SLG 游戏实体。"@,
                    "第一层轨道展示主要事件，第二层轨道展示高频来源。"@,
                    "当前数据来自 SQLite 快照，因此会随着新入库结果自动刷新。"@,
                ],
                nodes: seq![
                    node_v(
                        "game::"@ + game_id,
                        name,
                        "game",
                        0,
                        NodeAngle::Fixed(0),
                        NodeSize::Fixed(24),
                        "#2d79ff",
                        "当前聚焦游戏"@,
                    ),
                ] + events.map(|k: int, r: (Seq<char>, int)| count_node(game_id, r, k, true))
                    + sources.map(|k: int, r: (Seq<char>, int)| count_node(game_id, r, k, false)),
                edges: events.map(|k: int, r: (Seq<char>, int)| count_edge(game_id, r, true))
                    + sources.map(|k: int, r: (Seq<char>, int)| count_edge(game_id, r, false)),
                layers: layers_v(),
            },
        )
    }
}

// ---------------------------------------------------------------------------
// building the views

fn find_game(games: &Vec<MockGame>, id: &str) -> (r: Option<usize>)
    ensures
        match r {
            Some(i) => i < games@.len() && first_game(games.deep_view(), id@) == Some(
                games.deep_view()[i as int],
            ),
            None => first_game(games.deep_view(), id@) is None,
        },
{
    let ghost gv = games.deep_view();
    let mut i: usize = 0;
    proof {
        assert(gv.subrange(0, gv.len() as int) == gv);
    }
    while i < games.len()
        invariant
            i <= games@.len(),
            gv == games.deep_view(),
            first_game(gv, id@) == first_game(gv.subrange(i as int, gv.len() as int), id@),
        decreases games@.len() - i,
    {
        let ghost rest = gv.subrange(i as int, gv.len() as int);
        assert(rest[0] == gv[i as int]);
        if str_eq(games[i].id.as_str(), id) {
            return Some(i);
        }
        assert(rest.drop_first() =~= gv.subrange(i + 1, gv.len() as int));
        i += 1;
    }
    assert(gv.subrange(i as int, gv.len() as int).len() == 0);
    None
}

fn find_event(events: &Vec<MockEvent>, id: &str) -> (r: Option<usize>)
    ensures
        match r {
            Some(i) => i < events@.len() && first_event(events.deep_view(), id@) == Some(
                events.deep_view()[i as int],
            ),
            None => first_event(events.deep_view(), id@) is None,
        },
{
    let ghost ev = events.deep_view();
    let mut i: usize = 0;
    proof {
        assert(ev.subrange(0, ev.len() as int) == ev);
    }
    while i < events.len()
        invariant
            i <= events@.len(),
            ev == events.deep_view(),
            first_event(ev, id@) == first_event(ev.subrange(i as int, ev.len() as int), id@),
        decreases events@.len() - i,
    {
        let ghost rest = ev.subrange(i as int, ev.len() as int);
        assert(rest[0] == ev[i as int]);
        if str_eq(events[i].id.as_str(), id) {
            return Some(i);
        }
        assert(rest.drop_first() =~= ev.subrange(i + 1, ev.len() as int));
        i += 1;
    }
    assert(ev.subrange(i as int, ev.len() as int).len() == 0);
    None
}

fn available_layers() -> (r: Vec<String>)
    ensures
        r.deep_view() == layers_v(),
{
    let v = strings_of(&["games", "events", "sources"]);
    assert(v.deep_view() =~= layers_v());
    v
}

/// Appends the nodes and edges of the sample sources around `owner`,
/// whose node is `center`.
fn push_mock_sources(
    nodes: &mut Vec<GalaxyNode>,
    edges: &mut Vec<GalaxyEdge>,
    sources: &Vec<MockSource>,
    owner: &str,
    center: &str,
    step: i64,
    base: i64,
)
    ensures
        final(nodes).deep_view() == old(nodes).deep_view() + sources.deep_view().map(
            |j: int, s: MockSourceV| mock_source_node(owner@, s, j, step, base),
        ),
        final(edges).deep_view() == old(edges).deep_view() + sources.deep_view().map(
            |j: int, s: MockSourceV| mock_source_edge(center@, owner@, s, j),
        ),
{
    let ghost n0 = nodes.deep_view();
    let ghost e0 = edges.deep_view();
    let ghost sv = sources.deep_view();
    let mut j: usize = 0;
    while j < sources.len()
        invariant
            j <= sources@.len(),
            sv == sources.deep_view(),
            nodes.deep_view() == n0 + sv.take(j as int).map(
                |j: int, s: MockSourceV| mock_source_node(owner@, s, j, step, base),
            ),
            edges.deep_view() == e0 + sv.take(j as int).map(
                |j: int, s: MockSourceV| mock_source_edge(center@, owner@, s, j),
            ),
        decreases sources@.len() - j,
    {
        let s = &sources[j];
        let ghost sj = sv[j as int];
        assert(s.deep_view() == sj);
        let head = concat3("source::", owner, "::");
        let digits = decimal(j as i128);
        let id = concat(head.as_str(), digits.as_str());
        let ghost nb = nodes.deep_view();
        let ghost eb = edges.deep_view();
        nodes.push(
            GalaxyNode {
                id: id.clone(),
                label: s.name.clone(),
                node_type: owned("source"),
                orbit: 2,
                angle: NodeAngle::Spaced { step, index: j },
                size: NodeSize::Scaled { base, value: s.weight_tenths, divisor: 10 },
                accent: owned("#8bc2ff"),
                detail: s.note.clone(),
            },
        );
        edges.push(
            GalaxyEdge {
                source: owned(center),
                target: id,
                edge_type: owned("source_link"),
                strength: EdgeStrength::Weight { tenths: s.weight_tenths },
            },
        );
        proof {
            assert(sv.take(j + 1) =~= sv.take(j as int).push(sj));
            assert(sv.take(j + 1).map(
                |j: int, s: MockSourceV| mock_source_node(owner@, s, j, step, base),
            ) =~= sv.take(j as int).map(
                |j: int, s: MockSourceV| mock_source_node(owner@, s, j, step, base),
            ).push(mock_source_node(owner@, sj, j as int, step, base)));
            assert(sv.take(j + 1).map(
                |j: int, s: MockSourceV| mock_source_edge(center@, owner@, s, j),
            ) =~= sv.take(j as int).map(
                |j: int, s: MockSourceV| mock_source_edge(center@, owner@, s, j),
            ).push(mock_source_edge(center@, owner@, sj, j as int)));
            assert(nodes.deep_view() =~= nb.push(mock_source_node(owner@, sj, j as int, step, base)));
            assert(edges.deep_view() =~= eb.push(mock_source_edge(center@, owner@, sj, j as int)));
        }
        j += 1;
    }
    proof {
        assert(sv.take(sv.len() as int) == sv);
    }
}

impl MockGalaxyRepository {
    /// The focus view of the sample game `game_id`, or `None` when the
    /// sample has no such game.
    #[verifier::rlimit(40)]
    pub fn focus_game(&self, game_id: &str) -> (r: Option<GalaxyFocusView>)
        ensures
            r.deep_view() == mock_game_focus(
                self.games.deep_view(),
                self.events.deep_view(),
                game_id@,
            ),
    {
        let ghost gv = self.games.deep_view();
        let ghost ev = self.events.deep_view();
        let found = find_game(&self.games, game_id);
        let gi = match found {
            None => {
                return None;
            },
            Some(gi) => gi,
        };
        let game = &self.games[gi];
        let ghost g = gv[gi as int];
        assert(game.deep_view() == g);
        let center = concat("game::", game_id);
        let mut nodes: Vec<GalaxyNode> = Vec::new();
        nodes.push(
            GalaxyNode {
                id: center.clone(),
                label: game.name.clone(),
                node_type: owned("game"),
                orbit: 0,
                angle: NodeAngle::Fixed(0),
                size: NodeSize::Fixed(26),
                accent: owned("#2d79ff"),
                detail: game.note.clone(),
            },
        );
        let ghost first = node_v(
            center@,
            g.name,
            "game",
            0,
            NodeAngle::Fixed(0),
            NodeSize::Fixed(26),
            "#2d79ff",
            g.note,
        );
        assert(nodes.deep_view() =~= seq![first]);
        let mut edges: Vec<GalaxyEdge> = Vec::new();
        let mut i: usize = 0;
        let mut k: usize = 0;
        proof {
            assert(ev.take(0) =~= Seq::<MockEventV>::empty());
            assert(related_events(ev.take(0), game_id@).map(
                |k: int, e: MockEventV| mock_event_node(e, k),
            ) =~= Seq::<GalaxyNodeV>::empty());
            assert(related_events(ev.take(0), game_id@).map(
                |k: int, e: MockEventV| mock_event_edge(center@, e),
            ) =~= Seq::<GalaxyEdgeV>::empty());
        }
        while i < self.events.len()
            invariant
                i <= self.events@.len(),
                ev == self.events.deep_view(),
                k == related_events(ev.take(i as int), game_id@).len(),
                k <= i,
                center@ == "game::"@ + game_id@,
                nodes.deep_view() == seq![first] + related_events(ev.take(i as int), game_id@).map(
                    |k: int, e: MockEventV| mock_event_node(e, k),
                ),
                edges.deep_view() == related_events(ev.take(i as int), game_id@).map(
                    |k: int, e: MockEventV| mock_event_edge(center@, e),
                ),
            decreases self.events@.len() - i,
        {
            let e = &self.events[i];
            let ghost evi = ev[i as int];
            assert(e.deep_view() == evi);
            let ghost rel = related_events(ev.take(i as int), game_id@);
            proof {
                assert(ev.take(i + 1).drop_last() =~= ev.take(i as int));
                assert(ev.take(i + 1).last() == evi);
            }
            if str_eq(e.game_id.as_str(), game_id) {
                let nid = concat("event::", e.id.as_str());
                let ghost nb = nodes.deep_view();
                let ghost eb = edges.deep_view();
                nodes.push(
                    GalaxyNode {
                        id: nid.clone(),
                        label: e.title.clone(),
                        node_type: owned("event"),
                        orbit: 1,
                        angle: NodeAngle::Spaced { step: 72, index: k },
                        size: NodeSize::Scaled { base: 13, value: e.heat, divisor: 20 },
                        accent: owned("#5b9bff"),
                        detail: e.note.clone(),
                    },
                );
                edges.push(
                    GalaxyEdge {
                        source: center.clone(),
                        target: nid,
                        edge_type: owned("event_link"),
                        strength: EdgeStrength::Clamped {
                            value: e.heat,
                            divisor: 100,
                            floor_hundredths: 25,
                        },
                    },
                );
                proof {
                    let rel2 = related_events(ev.take(i + 1), game_id@);
                    assert(rel2 == rel.push(evi));
                    assert(rel2.map(|k: int, e: MockEventV| mock_event_node(e, k)) =~= rel.map(
                        |k: int, e: MockEventV| mock_event_node(e, k),
                    ).push(mock_event_node(evi, k as int)));
                    assert(rel2.map(|k: int, e: MockEventV| mock_event_edge(center@, e)) =~= rel.map(
                        |k: int, e: MockEventV| mock_event_edge(center@, e),
                    ).push(mock_event_edge(center@, evi)));
                    assert(nodes.deep_view() =~= nb.push(mock_event_node(evi, k as int)));
                    assert(edges.deep_view() =~= eb.push(mock_event_edge(center@, evi)));
                }
                k += 1;
            }
            i += 1;
        }
        proof {
            assert(ev.take(ev.len() as int) == ev);
        }
        let sources = mock_sources_for(game_id);
        push_mock_sources(&mut nodes, &mut edges, &sources, game_id, center.as_str(), 58, 11);
        let head = concat3(game.stage.as_str(), " · ", game.studio.as_str());
        let subtitle = concat3(head.as_str(), " · ", game.note.as_str());
        let narrative = strings_of(
            &[
                "核心节点承接游戏实体，周围环绕热点事件和主要来源。",
                "拖拽可以旋转星图，滚轮可以缩放观察距离。",
                "当前首发只组织 SLG 赛道，后续再扩多赛道总导航。",
            ],
        );
        let r = GalaxyFocusView {
            focus_id: game.id.clone(),
            focus_kind: owned("game"),
            title: game.name.clone(),
            subtitle,
            narrative,
            nodes,
            edges,
            available_layers: available_layers(),
        };
        proof {
            assert(r.narrative.deep_view() =~= mock_game_focus(gv, ev, game_id@).unwrap().narrative);
            assert(r.deep_view() =~= mock_game_focus(gv, ev, game_id@).unwrap());
        }
        Some(r)
    }

    /// The focus view of the sample event `event_id`, or `None` when the
    /// sample has no such event or no game for it.
    #[verifier::rlimit(40)]
    pub fn focus_event(&self, event_id: &str) -> (r: Option<GalaxyFocusView>)
        ensures
            r.deep_view() == mock_event_focus(
                self.games.deep_view(),
                self.events.deep_view(),
                event_id@,
            ),
    {
        let ghost gv = self.games.deep_view();
        let ghost ev = self.events.deep_view();
        let ei = match find_event(&self.events, event_id) {
            None => {
                return None;
            },
            Some(ei) => ei,
        };
        let event = &self.events[ei];
        let ghost e = ev[ei as int];
        assert(event.deep_view() == e);
        let gi = match find_game(&self.games, event.game_id.as_str()) {
            None => {
                return None;
            },
            Some(gi) => gi,
        };
        let game = &self.games[gi];
        let ghost g = gv[gi as int];
        assert(game.deep_view() == g);
        let center = concat("event::", event.id.as_str());
        let game_node = concat("game::", game.id.as_str());
        let mut nodes: Vec<GalaxyNode> = Vec::new();
        nodes.push(
            GalaxyNode {
                id: center.clone(),
                label: event.title.clone(),
                node_type: owned("event"),
                orbit: 0,
                angle: NodeAngle::Fixed(0),
                size: NodeSize::Fixed(24),
                accent: owned("#2d79ff"),
                detail: event.note.clone(),
            },
        );
        nodes.push(
            GalaxyNode {
                id: game_node.clone(),
                label: game.name.clone(),
                node_type: owned("game"),
                orbit: 1,
                angle: NodeAngle::Fixed(20),
                size: NodeSize::Fixed(18),
                accent: owned("#5b9bff"),
                detail: game.note.clone(),
            },
        );
        let mut edges: Vec<GalaxyEdge> = Vec::new();
        edges.push(
            GalaxyEdge {
                source: center.clone(),
                target: game_node,
                edge_type: owned("game_link"),
                strength: EdgeStrength::Clamped {
                    value: event.heat,
                    divisor: 100,
                    floor_hundredths: 30,
                },
            },
        );
        let ghost n0 = nodes.deep_view();
        let ghost e0 = edges.deep_view();
        let sources = mock_sources_for(event.game_id.as_str());
        push_mock_sources(
            &mut nodes,
            &mut edges,
            &sources,
            event.id.as_str(),
            center.as_str(),
            60,
            10,
        );
        let head = concat3(event.game_name.as_str(), " · ", event.event_type.as_str());
        let heat = decimal(event.heat as i128);
        let subtitle = concat3(head.as_str(), " · 热度 ", heat.as_str());
        let narrative = strings_of(
            &[
                "事件视图把热点放到中心，帮助你反向追到游戏和主要来源。",
                "不同图层可以单独开关，便于只看游戏、事件或来源。",
                "星图不是静态装饰，而是围绕焦点保持缓速运动。",
            ],
        );
        let r = GalaxyFocusView {
            focus_id: event.id.clone(),
            focus_kind: owned("event"),
            title: event.title.clone(),
            subtitle,
            narrative,
            nodes,
            edges,
            available_layers: available_layers(),
        };
        proof {
            let want = mock_event_focus(gv, ev, event_id@).unwrap();
            assert(n0 =~= seq![want.nodes[0], want.nodes[1]]);
            assert(e0 =~= seq![want.edges[0]]);
            assert(r.narrative.deep_view() =~= want.narrative);
            assert(r.nodes.deep_view() =~= want.nodes);
            assert(r.edges.deep_view() =~= want.edges);
            assert(r.deep_view() =~= want);
        }
        Some(r)
    }
}

/// Appends the nodes and edges of the stored counts around the game
/// `game_id`: event kinds when `events`, else platforms.
fn push_counts(
    nodes: &mut Vec<GalaxyNode>,
    edges: &mut Vec<GalaxyEdge>,
    rows: &Vec<GalaxyCount>,
    game_id: &str,
    events: bool,
)
    ensures
        final(nodes).deep_view() == old(nodes).deep_view() + rows.deep_view().map(
            |k: int, r: (Seq<char>, int)| count_node(game_id@, r, k, events),
        ),
        final(edges).deep_view() == old(edges).deep_view() + rows.deep_view().map(
            |k: int, r: (Seq<char>, int)| count_edge(game_id@, r, events),
        ),
{
    let ghost n0 = nodes.deep_view();
    let ghost e0 = edges.deep_view();
    let ghost rv = rows.deep_view();
    let center = concat("game::", game_id);
    let mut k: usize = 0;
    while k < rows.len()
        invariant
            k <= rows@.len(),
            rv == rows.deep_view(),
            center@ == "game::"@ + game_id@,
            nodes.deep_view() == n0 + rv.take(k as int).map(
                |k: int, r: (Seq<char>, int)| count_node(game_id@, r, k, events),
            ),
            edges.deep_view() == e0 + rv.take(k as int).map(
                |k: int, r: (Seq<char>, int)| count_edge(game_id@, r, events),
            ),
        decreases rows@.len() - k,
    {
        let row = &rows[k];
        let ghost rk = rv[k as int];
        assert(row.deep_view() == rk);
        let kind = if events {
            "event::"
        } else {
            "source::"
        };
        let head = concat3(kind, game_id, "::");
        let id = concat(head.as_str(), row.label.as_str());
        let digits = decimal(row.count as i128);
        let detail = if events {
            concat(digits.as_str(), " 条相关信号")
        } else {
            concat(digits.as_str(), " 个来源节点")
        };
        let ghost nb = nodes.deep_view();
        let ghost eb = edges.deep_view();
        if events {
            nodes.push(
                GalaxyNode {
                    id: id.clone(),
                    label: row.label.clone(),
                    node_type: owned("event"),
                    orbit: 1,
                    angle: NodeAngle::Spaced { step: 60, index: k },
                    size: NodeSize::Capped { base: 12, count: row.count, cap: 16 },
                    accent: owned("#5fa8ff"),
                    detail,
                },
            );
            edges.push(
                GalaxyEdge {
                    source: center.clone(),
                    target: id,
                    edge_type: owned("related_event"),
                    strength: EdgeStrength::Clamped {
                        value: row.count,
                        divisor: 10,
                        floor_hundredths: 30,
                    },
                },
            );
        } else {
            nodes.push(
                GalaxyNode {
                    id: id.clone(),
                    label: row.label.clone(),
                    node_type: owned("source"),
                    orbit: 2,
                    angle: NodeAngle::Spaced { step: 72, index: k },
                    size: NodeSize::Capped { base: 10, count: row.count, cap: 14 },
                    accent: owned("#7ab8ff"),
                    detail,
                },
            );
            edges.push(
                GalaxyEdge {
                    source: center.clone(),
                    target: id,
                    edge_type: owned("source_link"),
                    strength: EdgeStrength::Clamped {
                        value: row.count,
                        divisor: 8,
                        floor_hundredths: 25,
                    },
                },
            );
        }
        proof {
            assert(rv.take(k + 1) =~= rv.take(k as int).push(rk));
            assert(rv.take(k + 1).map(
                |k: int, r: (Seq<char>, int)| count_node(game_id@, r, k, events),
            ) =~= rv.take(k as int).map(
                |k: int, r: (Seq<char>, int)| count_node(game_id@, r, k, events),
            ).push(count_node(game_id@, rk, k as int, events)));
            assert(rv.take(k + 1).map(
                |k: int, r: (Seq<char>, int)| count_edge(game_id@, r, events),
            ) =~= rv.take(k as int).map(
                |k: int, r: (Seq<char>, int)| count_edge(game_id@, r, events),
            ).push(count_edge(game_id@, rk, events)));
            assert(nodes.deep_view() =~= nb.push(count_node(game_id@, rk, k as int, events)));
            assert(edges.deep_view() =~= eb.push(count_edge(game_id@, rk, events)));
        }
        k += 1;
    }
    proof {
        assert(rv.take(rv.len() as int) == rv);
    }
}

/// The focus view of the stored game `game_id`, from its signal count and
/// its counts by event kind and by platform, named by `names` (game id to
/// standard name): `None` when it has no signals.
pub fn stored_game_focus(
    names: &Vec<IndexPair>,
    game_id: &str,
    signal_count: Option<i64>,
    events: &Vec<GalaxyCount>,
    sources: &Vec<GalaxyCount>,
) -> (r: Option<GalaxyFocusView>)
    ensures
        r.deep_view() == stored_game_focus_of(
            names.deep_view(),
            game_id@,
            signal_count,
            events.deep_view(),
            sources.deep_view(),
        ),
{
    let count = match signal_count {
        Some(n) => n,
        None => 0,
    };
    if count == 0 {
        return None;
    }
    let name = game_name(names, game_id);
    let mut nodes: Vec<GalaxyNode> = Vec::new();
    nodes.push(
        GalaxyNode {
            id: concat("game::", game_id),
            label: name.clone(),
            node_type: owned("game"),
            orbit: 0,
            angle: NodeAngle::Fixed(0),
            size: NodeSize::Fixed(24),
            accent: owned("#2d79ff"),
            detail: owned("当前聚焦游戏"),
        },
    );
    let ghost n0 = nodes.deep_view();
    let mut edges: Vec<GalaxyEdge> = Vec::new();
    let ghost e0 = edges.deep_view();
    push_counts(&mut nodes, &mut edges, events, game_id, true);
    push_counts(&mut nodes, &mut edges, sources, game_id, false);
    let narrative = strings_of(
        &[
            "主星体表示当前聚焦的 SLG 游戏实体。",
            "第一层轨道展示主要事件，第二层轨道展示高频来源。",
            "当前数据来自 SQLite 快照，因此会随着新入库结果自动刷新。",
        ],
    );
    let r = GalaxyFocusView {
        focus_id: owned(game_id),
        focus_kind: owned("game"),
        title: name,
        subtitle: owned("来源、事件和信号围绕当前实体展开"),
        narrative,
        nodes,
        edges,
        available_layers: available_layers(),
    };
    proof {
        let want = stored_game_focus_of(
            names.deep_view(),
            game_id@,
            signal_count,
            events.deep_view(),
            sources.deep_view(),
        ).unwrap();
        assert(n0 =~= seq![want.nodes[0]]);
        assert(e0 =~= Seq::<GalaxyEdgeV>::empty());
        assert(r.narrative.deep_view() =~= want.narrative);
        assert(r.nodes.deep_view() =~= want.nodes);
        assert(r.edges.deep_view() =~= want.edges);
        assert(r.deep_view() =~= want);
    }
    Some(r)
}

impl GalaxyService {
    /// The focus view of the game `game_id` from the stored signals
    /// (`stored`), else from the sample.
    pub fn focus_game(&self, game_id: &str, stored: Option<GalaxyFocusView>) -> (r: Option<
        GalaxyFocusView,
    >)
        ensures
            stored is Some ==> r == stored,
            stored is None ==> r.deep_view() == mock_game_focus(
                self.mock.games.deep_view(),
                self.mock.events.deep_view(),
                game_id@,
            ),
    {
        match stored {
            Some(f) => Some(f),
            None => self.mock.focus_game(game_id),
        }
    }

    /// The focus view of the event `event_id` from the stored signals
    /// (`stored`), else from the sample.
    pub fn focus_event(&self, event_id: &str, stored: Option<GalaxyFocusView>) -> (r: Option<
        GalaxyFocusView,
    >)
        ensures
            stored is Some ==> r == stored,
            stored is None ==> r.deep_view() == mock_event_focus(
                self.mock.games.deep_view(),
                self.mock.events.deep_view(),
                event_id@,
            ),
    {
        match stored {
            Some(f) => Some(f),
            None => self.mock.focus_event(event_id),
        }
    }
}

/// The focus view shown while the galaxy has no game to focus on.
pub open spec fn empty_focus_v() -> GalaxyFocusV {
    GalaxyFocusV {
        focus_id: "empty"@,
        focus_kind: "game"@,
        title: "等待星图数据"@,
        subtitle: "当前还没有可用的 SLG 焦点。"@,
        narrative: seq!["先完成 Provider 配置并接入真实信号。"@, "随后左侧列表会自动替换成实际的游戏与事件。"@],
        nodes: Seq::<GalaxyNodeV>::empty(),
        edges: Seq::<GalaxyEdgeV>::empty(),
        layers: layers_v(),
    }
}

/// The focus view shown while the galaxy has no game to focus on.
pub fn empty_focus() -> (r: GalaxyFocusView)
    ensures
        r.deep_view() == empty_focus_v(),
{
    let narrative = strings_of(
        &["先完成 Provider 配置并接入真实信号。", "随后左侧列表会自动替换成实际的游戏与事件。"],
    );
    let r = GalaxyFocusView {
        focus_id: owned("empty"),
        focus_kind: owned("game"),
        title: owned("等待星图数据"),
        subtitle: owned("当前还没有可用的 SLG 焦点。"),
        narrative,
        nodes: Vec::new(),
        edges: Vec::new(),
        available_layers: available_layers(),
    };
    proof {
        assert(r.narrative.deep_view() =~= empty_focus_v().narrative);
        assert(r.nodes.deep_view() =~= Seq::<GalaxyNodeV>::empty());
        assert(r.edges.deep_view() =~= Seq::<GalaxyEdgeV>::empty());
        assert(r.deep_view() =~= empty_focus_v());
    }
    r
}

// ---------------------------------------------------------------------------
// laws

/// The view is a star: one node at the centre, and one edge from the
/// centre to each other node, in the order of the nodes.
pub open spec fn is_star(v: GalaxyFocusV) -> bool {
    &&& v.nodes.len() == v.edges.len() + 1
    &&& v.nodes[0].orbit == 0
    &&& forall|i: int|
        0 <= i < v.edges.len() ==> (#[trigger] v.edges[i]).source == v.nodes[0].id
            && v.edges[i].target == v.nodes[i + 1].id && v.nodes[i + 1].orbit > 0
}

/// Every focus view of the sample game is a star around the game.
pub proof fn lemma_game_focus_is_star(
    games: Seq<MockGameV>,
    events: Seq<MockEventV>,
    game_id: Seq<char>,
)
    ensures
        mock_game_focus(games, events, game_id) matches Some(v) ==> is_star(v) && v.nodes[0].id
            == "game::"@ + game_id,
{
    if let Some(v) = mock_game_focus(games, events, game_id) {
        let rel = related_events(events, game_id);
        let r = rel.len();
        assert forall|i: int| 0 <= i < v.edges.len() implies (#[trigger] v.edges[i]).source
            == v.nodes[0].id && v.edges[i].target == v.nodes[i + 1].id && v.nodes[i + 1].orbit
            > 0 by {
            if i < r {
                assert(v.edges[i] == mock_event_edge("game::"@ + game_id, rel[i]));
                assert(v.nodes[i + 1] == mock_event_node(rel[i], i));
            } else {
                let srcs = mock_sources_of(game_id);
                assert(v.edges[i] == mock_source_edge("game::"@ + game_id, game_id, srcs[i - r], i - r));
                assert(v.nodes[i + 1] == mock_source_node(game_id, srcs[i - r], i - r, 58, 11));
            }
        }
    }
}

/// Every focus view of a sample event is a star around the event, with
/// its game first.
pub proof fn lemma_event_focus_is_star(
    games: Seq<MockGameV>,
    events: Seq<MockEventV>,
    event_id: Seq<char>,
)
    ensures
        mock_event_focus(games, events, event_id) matches Some(v) ==> is_star(v) && v.nodes[0].id
            == "event::"@ + event_id && v.nodes[1].node_type == "game"@,
{
    lemma_first_event_id(events, event_id);
    if let Some(v) = mock_event_focus(games, events, event_id) {
        let e = first_event(events, event_id).unwrap();
        let srcs = mock_sources_of(e.game_id);
        assert forall|i: int| 0 <= i < v.edges.len() implies (#[trigger] v.edges[i]).source
            == v.nodes[0].id && v.edges[i].target == v.nodes[i + 1].id && v.nodes[i + 1].orbit
            > 0 by {
            if i > 0 {
                assert(v.edges[i] == mock_source_edge("event::"@ + e.id, e.id, srcs[i - 1], i - 1));
                assert(v.nodes[i + 1] == mock_source_node(e.id, srcs[i - 1], i - 1, 60, 10));
            }
        }
    }
}

proof fn lemma_first_event_id(events: Seq<MockEventV>, id: Seq<char>)
    ensures
        first_event(events, id) matches Some(e) ==> e.id == id,
    decreases events.len(),
{
    if events.len() > 0 && events[0].id != id {
        lemma_first_event_id(events.drop_first(), id);
    }
}

/// Every focus view of a stored game is a star around the game.
pub proof fn lemma_stored_focus_is_star(
    names: Seq<(Seq<char>, Seq<char>)>,
    game_id: Seq<char>,
    signal_count: Option<i64>,
    events: Seq<(Seq<char>, int)>,
    sources: Seq<(Seq<char>, int)>,
)
    ensures
        stored_game_focus_of(names, game_id, signal_count, events, sources) matches Some(v)
            ==> is_star(v) && v.nodes[0].id == "game::"@ + game_id,
{
    if let Some(v) = stored_game_focus_of(names, game_id, signal_count, events, sources) {
        let r = events.len();
        assert forall|i: int| 0 <= i < v.edges.len() implies (#[trigger] v.edges[i]).source
            == v.nodes[0].id && v.edges[i].target == v.nodes[i + 1].id && v.nodes[i + 1].orbit
            > 0 by {
            if i < r {
                assert(v.edges[i] == count_edge(game_id, events[i], true));
                assert(v.nodes[i + 1] == count_node(game_id, events[i], i, true));
            } else {
                assert(v.edges[i] == count_edge(game_id, sources[i - r], false));
                assert(v.nodes[i + 1] == count_node(game_id, sources[i - r], i - r, false));
            }
        }
    }
}

} // verus!
