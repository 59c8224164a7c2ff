//! The outside providers of the web front end (search, crawling and
//! reasoning services), their settings, their simulated connection tests,
//! and the unlock rule: the main system opens once every provider is ready.
use crate::strs::{
    ascii_lower, ascii_lower_all, char_count, chars_of, concat, concat3, contains_str, contains_sub, first_non_ws, is_ws,
    last_non_ws_end, owned, str_eq, string_of_range, trim, trim_ws,
};
use crate::text_utils::{utc_now_iso, utc_text};
use vstd::prelude::*;

verus! {

/// The providers.
#[derive(PartialEq, Eq, Structural, Clone, Copy, Debug, Hash, PartialOrd, Ord)]
pub enum ProviderKind {
    Doubao,
    Serper,
    Firecrawl,
    Tavily,
    Exa,
    Gemini,
}

/// Every provider, in priority order.
pub open spec fn all_providers() -> Seq<ProviderKind> {
    seq![
        ProviderKind::Doubao,
        ProviderKind::Serper,
        ProviderKind::Firecrawl,
        ProviderKind::Tavily,
        ProviderKind::Exa,
        ProviderKind::Gemini,
    ]
}

impl ProviderKind {
    pub open spec fn slug_of(self) -> Seq<char> {
        match self {
            ProviderKind::Doubao => "doubao"@,
            ProviderKind::Serper => "serper"@,
            ProviderKind::Firecrawl => "firecrawl"@,
            ProviderKind::Tavily => "tavily"@,
            ProviderKind::Exa => "exa"@,
            ProviderKind::Gemini => "gemini"@,
        }
    }

    pub open spec fn display_name_of(self) -> Seq<char> {
        match self {
            ProviderKind::Doubao => "Doubao"@,
            ProviderKind::Serper => "Serper"@,
            ProviderKind::Firecrawl => "Firecrawl"@,
            ProviderKind::Tavily => "Tavily"@,
            ProviderKind::Exa => "Exa"@,
            ProviderKind::Gemini => "Gemini"@,
        }
    }

    pub open spec fn description_of(self) -> Seq<char> {
        match self {
            ProviderKind::Doubao => "日常主解析器，承担清洗、归因和结构化输出。"@,
            ProviderKind::Serper => "默认搜索入口，负责高频发现与召回。"@,
            ProviderKind::Firecrawl => "正文抽取器，只用于值得抓取的页面。"@,
            ProviderKind::Tavily => "时效验证补位，适合新闻与热点核验。"@,
            ProviderKind::Exa => "长尾语义扩展，做深挖和相邻发现。"@,
            ProviderKind::Gemini => "复杂 fallback，处理特殊页面和临时补位。"@,
        }
    }

    pub open spec fn base_url_of(self) -> Seq<char> {
        match self {
            ProviderKind::Doubao => "https://ark.cn-beijing.volces.com"@,
            ProviderKind::Serper => "https://google.serper.dev"@,
            ProviderKind::Firecrawl => "https://api.firecrawl.dev"@,
            ProviderKind::Tavily => "https://api.tavily.com"@,
            ProviderKind::Exa => "https://api.exa.ai"@,
            ProviderKind::Gemini => "https://generativelanguage.googleapis.com"@,
        }
    }

    pub open spec fn monthly_limit_of(self) -> int {
        match self {
            ProviderKind::Doubao => 99_999,
            ProviderKind::Serper => 2_500,
            ProviderKind::Firecrawl => 500,
            ProviderKind::Tavily => 1_000,
            ProviderKind::Exa => 1_000,
            ProviderKind::Gemini => 5_000,
        }
    }

    pub open spec fn daily_soft_limit_of(self) -> int {
        match self {
            ProviderKind::Doubao => 5_000,
            ProviderKind::Serper => 90,
            ProviderKind::Firecrawl => 16,
            ProviderKind::Tavily => 33,
            ProviderKind::Exa => 33,
            ProviderKind::Gemini => 166,
        }
    }

    pub open spec fn role_of(self) -> Seq<char> {
        match self {
            ProviderKind::Doubao => "primary_reasoner"@,
            ProviderKind::Serper => "primary_search"@,
            ProviderKind::Firecrawl => "content_fetch"@,
            ProviderKind::Tavily => "freshness_verify"@,
            ProviderKind::Exa => "long_tail_discovery"@,
            ProviderKind::Gemini => "complex_fallback"@,
        }
    }

    pub open spec fn priority_of(self) -> int {
        match self {
            ProviderKind::Doubao => 1,
            ProviderKind::Serper => 2,
            ProviderKind::Firecrawl => 3,
            ProviderKind::Tavily => 4,
            ProviderKind::Exa => 5,
            ProviderKind::Gemini => 6,
        }
    }

    /// Every provider, in priority order.
    pub fn all() -> (r: Vec<ProviderKind>)
        ensures
            r@ == all_providers(),
    {
        let mut v: Vec<ProviderKind> = Vec::new();
        v.push(ProviderKind::Doubao);
        v.push(ProviderKind::Serper);
        v.push(ProviderKind::Firecrawl);
        v.push(ProviderKind::Tavily);
        v.push(ProviderKind::Exa);
        v.push(ProviderKind::Gemini);
        proof {
            assert(v@ =~= all_providers());
        }
        v
    }

    pub fn slug(self) -> (r: &'static str)
        ensures
            r@ == self.slug_of(),
    {
        match self {
            ProviderKind::Doubao => "doubao",
            ProviderKind::Serper => "serper",
            ProviderKind::Firecrawl => "firecrawl",
            ProviderKind::Tavily => "tavily",
            ProviderKind::Exa => "exa",
            ProviderKind::Gemini => "gemini",
        }
    }

    pub fn display_name(self) -> (r: &'static str)
        ensures
            r@ == self.display_name_of(),
    {
        match self {
            ProviderKind::Doubao => "Doubao",
            ProviderKind::Serper => "Serper",
            ProviderKind::Firecrawl => "Firecrawl",
            ProviderKind::Tavily => "Tavily",
            ProviderKind::Exa => "Exa",
            ProviderKind::Gemini => "Gemini",
        }
    }

    pub fn description(self) -> (r: &'static str)
        ensures
            r@ == self.description_of(),
    {
        match self {
            ProviderKind::Doubao => "日常主解析器，承担清洗、归因和结构化输出。",
            ProviderKind::Serper => "默认搜索入口，负责高频发现与召回。",
            ProviderKind::Firecrawl => "正文抽取器，只用于值得抓取的页面。",
            ProviderKind::Tavily => "时效验证补位，适合新闻与热点核验。",
            ProviderKind::Exa => "长尾语义扩展，做深挖和相邻发现。",
            ProviderKind::Gemini => "复杂 fallback，处理特殊页面和临时补位。",
        }
    }

    pub fn default_base_url(self) -> (r: &'static str)
        ensures
            r@ == self.base_url_of(),
    {
        match self {
            ProviderKind::Doubao => "https://ark.cn-beijing.volces.com",
            ProviderKind::Serper => "https://google.serper.dev",
            ProviderKind::Firecrawl => "https://api.firecrawl.dev",
            ProviderKind::Tavily => "https://api.tavily.com",
            ProviderKind::Exa => "https://api.exa.ai",
            ProviderKind::Gemini => "https://generativelanguage.googleapis.com",
        }
    }

    pub fn monthly_limit(self) -> (r: i64)
        ensures
            r == self.monthly_limit_of(),
    {
        match self {
            ProviderKind::Doubao => 99_999,
            ProviderKind::Serper => 2_500,
            ProviderKind::Firecrawl => 500,
            ProviderKind::Tavily => 1_000,
            ProviderKind::Exa => 1_000,
            ProviderKind::Gemini => 5_000,
        }
    }

    pub fn daily_soft_limit(self) -> (r: i64)
        ensures
            r == self.daily_soft_limit_of(),
    {
        match self {
            ProviderKind::Doubao => 5_000,
            ProviderKind::Serper => 90,
            ProviderKind::Firecrawl => 16,
            ProviderKind::Tavily => 33,
            ProviderKind::Exa => 33,
            ProviderKind::Gemini => 166,
        }
    }

    pub fn default_role(self) -> (r: &'static str)
        ensures
            r@ == self.role_of(),
    {
        match self {
            ProviderKind::Doubao => "primary_reasoner",
            ProviderKind::Serper => "primary_search",
            ProviderKind::Firecrawl => "content_fetch",
            ProviderKind::Tavily => "freshness_verify",
            ProviderKind::Exa => "long_tail_discovery",
            ProviderKind::Gemini => "complex_fallback",
        }
    }

    pub fn priority(self) -> (r: i64)
        ensures
            r == self.priority_of(),
    {
        match self {
            ProviderKind::Doubao => 1,
            ProviderKind::Serper => 2,
            ProviderKind::Firecrawl => 3,
            ProviderKind::Tavily => 4,
            ProviderKind::Exa => 5,
            ProviderKind::Gemini => 6,
        }
    }
}

// ---------------------------------------------------------------------------
// parsing a provider name


fn ascii_lower_char(c: char) -> (r: char)
    ensures
        r == ascii_lower(c),
{
    if 'A' <= c && c <= 'Z' {
        let b: u8 = (c as u32 + 32) as u8;
        b as char
    } else {
        c
    }
}

/// `str::to_ascii_lowercase`.
pub fn to_ascii_lowercase(s: &str) -> (r: String)
    ensures
        r@ == ascii_lower_all(s@),
{
    let cs = chars_of(s);
    let mut out = String::new();
    let mut i: usize = 0;
    while i < cs.len()
        invariant
            cs@ == s@,
            i <= cs@.len(),
            out@ == ascii_lower_all(cs@.take(i as int)),
        decreases cs@.len() - i,
    {
        let l = ascii_lower_char(cs[i]);
        crate::strs::push_char(&mut out, l);
        proof {
            assert(cs@.take(i + 1) =~= cs@.take(i as int).push(cs@[i as int]));
            assert(out@ =~= ascii_lower_all(cs@.take(i + 1)));
        }
        i += 1;
    }
    proof {
        assert(cs@.take(cs@.len() as int) == cs@);
    }
    out
}

/// The provider named (case-insensitively, surrounding whitespace aside) by
/// a text, if any.
pub open spec fn provider_named(name: Seq<char>) -> Option<ProviderKind> {
    if name == "doubao"@ {
        Some(ProviderKind::Doubao)
    } else if name == "serper"@ {
        Some(ProviderKind::Serper)
    } else if name == "firecrawl"@ {
        Some(ProviderKind::Firecrawl)
    } else if name == "tavily"@ {
        Some(ProviderKind::Tavily)
    } else if name == "exa"@ {
        Some(ProviderKind::Exa)
    } else if name == "gemini"@ {
        Some(ProviderKind::Gemini)
    } else {
        None
    }
}

impl ProviderKind {
    /// Reads a provider name: trimmed and lowercased, it must be a slug;
    /// otherwise the error is `unknown provider: ` and that text.
    pub fn parse(value: &str) -> (r: Result<ProviderKind, String>)
        ensures
            ({
                let key = ascii_lower_all(trim_ws(value@));
                match provider_named(key) {
                    Some(p) => r == Ok::<ProviderKind, String>(p),
                    None => r is Err && r->Err_0@ == "unknown provider: "@ + key,
                }
            }),
    {
        let trimmed = trim(value);
        let key = to_ascii_lowercase(trimmed.as_str());
        let k = key.as_str();
        if str_eq(k, "doubao") {
            Ok(ProviderKind::Doubao)
        } else if str_eq(k, "serper") {
            Ok(ProviderKind::Serper)
        } else if str_eq(k, "firecrawl") {
            Ok(ProviderKind::Firecrawl)
        } else if str_eq(k, "tavily") {
            Ok(ProviderKind::Tavily)
        } else if str_eq(k, "exa") {
            Ok(ProviderKind::Exa)
        } else if str_eq(k, "gemini") {
            Ok(ProviderKind::Gemini)
        } else {
            Err(concat("unknown provider: ", k))
        }
    }
}

// ---------------------------------------------------------------------------
// views

/// How a provider stands, as the setup page shows it.
pub struct ProviderStatusView {
    pub provider: String,
    pub display_name: String,
    pub description: String,
    pub enabled: bool,
    /// The masked API key, empty when none is stored.
    pub api_key: String,
    pub base_url: String,
    pub monthly_limit: i64,
    pub daily_soft_limit: i64,
    pub default_role: String,
    pub priority: i64,
    pub status: String,
    pub last_verified_at: Option<String>,
    pub last_error: Option<String>,
    pub latency_ms: Option<i64>,
}

/// Whether the main system is unlocked, and what still blocks it.
pub struct UnlockStateView {
    pub ready_count: usize,
    pub total_count: usize,
    pub unlocked: bool,
    pub blockers: Vec<String>,
}

/// New settings for a provider. An API key of `Some` replaces the stored
/// one (a blank key deletes it); `None` keeps it.
pub struct ProviderUpdateRequest {
    pub enabled: bool,
    pub api_key: Option<String>,
    pub base_url: String,
    pub monthly_limit: i64,
    pub daily_soft_limit: i64,
    pub default_role: String,
    pub priority: i64,
}

/// The quota of a provider after a test.
pub struct QuotaSnapshot {
    pub used_monthly: i64,
    pub remaining_monthly: i64,
    pub daily_soft_limit: i64,
    pub monthly_limit: i64,
}

/// The outcome of testing a provider.
pub struct ProviderTestResponse {
    pub provider: String,
    pub ok: bool,
    pub status: String,
    pub latency_ms: i64,
    pub quota_snapshot: QuotaSnapshot,
    pub error_message: Option<String>,
    pub verified_at: String,
}

/// The setup page: its mode, the providers and the unlock state.
pub struct SetupPageView {
    pub mode: String,
    pub providers: Vec<ProviderStatusView>,
    pub unlock_state: UnlockStateView,
}

/// The stored settings of a provider.
pub struct StoredSettings {
    pub enabled: bool,
    pub base_url: String,
    pub monthly_limit: i64,
    pub daily_soft_limit: i64,
    pub default_role: String,
    pub priority: i64,
}

/// The latest recorded test of a provider.
pub struct LatestTestRecord {
    pub status: String,
    pub latency_ms: i64,
    pub error_message: Option<String>,
    pub verified_at: String,
}

/// The settings of a provider that has none stored: enabled, with its
/// defaults.
pub fn default_settings(provider: ProviderKind) -> (r: StoredSettings)
    ensures
        r.enabled,
        r.base_url@ == provider.base_url_of(),
        r.monthly_limit == provider.monthly_limit_of(),
        r.daily_soft_limit == provider.daily_soft_limit_of(),
        r.default_role@ == provider.role_of(),
        r.priority == provider.priority_of(),
{
    StoredSettings {
        enabled: true,
        base_url: owned(provider.default_base_url()),
        monthly_limit: provider.monthly_limit(),
        daily_soft_limit: provider.daily_soft_limit(),
        default_role: owned(provider.default_role()),
        priority: provider.priority(),
    }
}

/// The key under which a provider's API key is kept.
pub fn secret_key(provider: ProviderKind) -> (r: String)
    ensures
        r@ == "provider::"@ + provider.slug_of(),
{
    concat("provider::", provider.slug())
}

/// What saving a provider does to its stored secret.
pub enum SecretChange {
    /// Leaves it as it is.
    Keep,
    /// Removes it.
    Delete,
    /// Stores this key in its place.
    Store(String),
}

/// A saved provider: the settings row to store and the change to its
/// secret.
pub struct ProviderSave {
    pub enabled: i64,
    pub base_url: String,
    pub monthly_limit: i64,
    pub daily_soft_limit: i64,
    pub default_role: String,
    pub priority: i64,
    pub secret: SecretChange,
}

/// What saving `request` stores: its settings with the base URL and role
/// trimmed, and its API key trimmed; a key that trims to nothing removes
/// the stored one, and no key leaves it.
pub fn plan_save(request: &ProviderUpdateRequest) -> (r: ProviderSave)
    ensures
        r.enabled == (if request.enabled {
            1int
        } else {
            0int
        }),
        r.base_url@ == trim_ws(request.base_url@),
        r.monthly_limit == request.monthly_limit,
        r.daily_soft_limit == request.daily_soft_limit,
        r.default_role@ == trim_ws(request.default_role@),
        r.priority == request.priority,
        match request.api_key {
            None => r.secret is Keep,
            Some(k) => if trim_ws(k@).len() == 0 {
                r.secret is Delete
            } else {
                r.secret matches SecretChange::Store(t) && t@ == trim_ws(k@)
            },
        },
{
    let secret = match &request.api_key {
        None => SecretChange::Keep,
        Some(k) => {
            let t = trim(k.as_str());
            if t.as_str().is_empty() {
                SecretChange::Delete
            } else {
                SecretChange::Store(t)
            }
        },
    };
    ProviderSave {
        enabled: bool_to_int(request.enabled),
        base_url: trim(request.base_url.as_str()),
        monthly_limit: request.monthly_limit,
        daily_soft_limit: request.daily_soft_limit,
        default_role: trim(request.default_role.as_str()),
        priority: request.priority,
        secret,
    }
}

pub fn bool_to_int(value: bool) -> (r: i64)
    ensures
        r == (if value {
            1int
        } else {
            0int
        }),
{
    if value {
        1
    } else {
        0
    }
}

/// A secret as shown: six bullets and its last four characters (after
/// trimming); empty for a blank secret.
pub open spec fn masked(secret: Seq<char>) -> Seq<char> {
    let t = trim_ws(secret);
    if t.len() == 0 {
        Seq::<char>::empty()
    } else {
        let start = if t.len() >= 4 {
            t.len() - 4
        } else {
            0
        };
        "••••••"@ + t.subrange(start as int, t.len() as int)
    }
}

pub fn mask_secret(secret: &str) -> (r: String)
    ensures
        r@ == masked(secret@),
{
    let trimmed = trim(secret);
    let cs = chars_of(trimmed.as_str());
    let n = cs.len();
    if n == 0 {
        return String::new();
    }
    let start = if n >= 4 {
        n - 4
    } else {
        0
    };
    let suffix = string_of_range(&cs, start, n);
    concat("••••••", suffix.as_str())
}

/// Whether a stored secret counts as set: present and not blank.
pub fn secret_is_set(secret: &Option<String>) -> (r: bool)
    ensures
        r == (secret matches Some(s) && trim_ws(s@).len() > 0),
{
    match secret {
        Some(s) => {
            let t = trim(s.as_str());
            !t.as_str().is_empty()
        },
        None => false,
    }
}

/// A provider counts as ready when enabled, with a key, and last tested
/// ready.
pub open spec fn ready(v: ProviderStatusView) -> bool {
    v.enabled && v.api_key@.len() > 0 && v.status@ == "ready"@
}

pub fn is_ready(view: &ProviderStatusView) -> (r: bool)
    ensures
        r == ready(*view),
{
    view.enabled && !view.api_key.as_str().is_empty() && str_eq(view.status.as_str(), "ready")
}

/// Why a provider that is not ready blocks the unlock.
pub open spec fn blocker_of(v: ProviderStatusView) -> Seq<char> {
    if !v.enabled {
        v.display_name@ + " 已暂停，主系统保持锁定。"@
    } else if v.api_key@.len() == 0 {
        v.display_name@ + " 尚未录入 API Key。"@
    } else if v.status@ != "ready"@ {
        v.display_name@ + " 最近一次测试状态为 "@ + v.status@ + "。"@
    } else {
        v.display_name@ + " 尚未通过解锁校验。"@
    }
}

pub open spec fn ready_count_of(views: Seq<ProviderStatusView>) -> int
    decreases views.len(),
{
    if views.len() == 0 {
        0
    } else {
        ready_count_of(views.drop_last()) + if ready(views.last()) {
            1int
        } else {
            0int
        }
    }
}

pub open spec fn blockers_of(views: Seq<ProviderStatusView>) -> Seq<Seq<char>>
    decreases views.len(),
{
    if views.len() == 0 {
        Seq::<Seq<char>>::empty()
    } else {
        let rest = blockers_of(views.drop_last());
        if ready(views.last()) {
            rest
        } else {
            rest.push(blocker_of(views.last()))
        }
    }
}

fn blocker(view: &ProviderStatusView) -> (r: String)
    ensures
        r@ == blocker_of(*view),
{
    let name = view.display_name.as_str();
    if !view.enabled {
        concat(name, " 已暂停，主系统保持锁定。")
    } else if view.api_key.as_str().is_empty() {
        concat(name, " 尚未录入 API Key。")
    } else if !str_eq(view.status.as_str(), "ready") {
        let head = concat3(name, " 最近一次测试状态为 ", view.status.as_str());
        concat(head.as_str(), "。")
    } else {
        concat(name, " 尚未通过解锁校验。")
    }
}

proof fn lemma_ready_count_bound(views: Seq<ProviderStatusView>)
    ensures
        0 <= ready_count_of(views) <= views.len(),
    decreases views.len(),
{
    if views.len() > 0 {
        lemma_ready_count_bound(views.drop_last());
    }
}

/// The unlock state of the given provider views: how many are ready, of all
/// six providers, unlocked when all six are, and a blocker for each that is
/// not ready, in order.
pub fn compute_unlock_state(views: &Vec<ProviderStatusView>) -> (r: UnlockStateView)
    ensures
        r.ready_count == ready_count_of(views@),
        r.total_count == all_providers().len(),
        r.unlocked == (ready_count_of(views@) == all_providers().len()),
        r.blockers.deep_view() == blockers_of(views@),
{
    let ghost vv = views@;
    let mut ready_count: usize = 0;
    let mut blockers: Vec<String> = Vec::new();
    let mut i: usize = 0;
    while i < views.len()
        invariant
            vv == views@,
            i <= vv.len(),
            ready_count == ready_count_of(vv.take(i as int)),
            blockers.deep_view() == blockers_of(vv.take(i as int)),
        decreases vv.len() - i,
    {
        proof {
            assert(vv.take(i + 1).drop_last() == vv.take(i as int));
            assert(vv.take(i + 1).last() == vv[i as int]);
            lemma_ready_count_bound(vv.take(i as int));
        }
        if is_ready(&views[i]) {
            ready_count += 1;
        } else {
            let b = blocker(&views[i]);
            let ghost before = blockers.deep_view();
            blockers.push(b);
            proof {
                assert(blockers.deep_view() =~= before.push(b@));
            }
        }
        i += 1;
    }
    proof {
        assert(vv.take(vv.len() as int) == vv);
    }
    let total = ProviderKind::all().len();
    UnlockStateView {
        ready_count,
        total_count: total,
        unlocked: ready_count == total,
        blockers,
    }
}

/// The setup page of a mode, with the unlock state of its providers.
pub fn build_setup_page(mode: &str, providers: Vec<ProviderStatusView>) -> (r: SetupPageView)
    ensures
        r.mode@ == mode@,
        r.providers@ == providers@,
        r.unlock_state.ready_count == ready_count_of(providers@),
        r.unlock_state.total_count == all_providers().len(),
        r.unlock_state.unlocked == (ready_count_of(providers@) == all_providers().len()),
        r.unlock_state.blockers.deep_view() == blockers_of(providers@),
{
    let unlock_state = compute_unlock_state(&providers);
    SetupPageView { mode: owned(mode), providers, unlock_state }
}

fn copy_opt(s: &Option<String>) -> (r: Option<String>)
    ensures
        r.deep_view() == s.deep_view(),
{
    match s {
        Some(t) => Some(t.clone()),
        None => None,
    }
}

/// The status of a provider: that of its latest test, else configured when
/// a secret is stored (not empty), else awaiting configuration.
pub open spec fn status_of(secret: Option<Seq<char>>, latest: Option<Seq<char>>) -> Seq<char> {
    match latest {
        Some(s) => s,
        None => match secret {
            Some(k) => if k.len() == 0 {
                "awaiting_configuration"@
            } else {
                "configured"@
            },
            None => "awaiting_configuration"@,
        },
    }
}

/// The view of a provider from its settings, stored secret and latest test.
pub fn provider_view(
    provider: ProviderKind,
    settings: StoredSettings,
    secret: Option<String>,
    latest: Option<LatestTestRecord>,
) -> (r: ProviderStatusView)
    ensures
        r.provider@ == provider.slug_of(),
        r.display_name@ == provider.display_name_of(),
        r.description@ == provider.description_of(),
        r.enabled == settings.enabled,
        r.api_key@ == (match secret {
            Some(k) => masked(k@),
            None => Seq::<char>::empty(),
        }),
        r.base_url@ == settings.base_url@,
        r.monthly_limit == settings.monthly_limit,
        r.daily_soft_limit == settings.daily_soft_limit,
        r.default_role@ == settings.default_role@,
        r.priority == settings.priority,
        r.status@ == status_of(
            secret.deep_view(),
            match latest {
                Some(t) => Some(t.status@),
                None => None,
            },
        ),
        r.last_verified_at.deep_view() == (match latest {
            Some(t) => Some(t.verified_at@),
            None => None,
        }),
        r.last_error.deep_view() == (match latest {
            Some(t) => t.error_message.deep_view(),
            None => None,
        }),
        r.latency_ms == (match latest {
            Some(t) => Some(t.latency_ms),
            None => None,
        }),
{
    let status = match &latest {
        Some(t) => t.status.clone(),
        None => match &secret {
            Some(k) => if k.as_str().is_empty() {
                owned("awaiting_configuration")
            } else {
                owned("configured")
            },
            None => owned("awaiting_configuration"),
        },
    };
    let api_key = match &secret {
        Some(k) => mask_secret(k.as_str()),
        None => String::new(),
    };
    let (latency_ms, last_verified_at, last_error) = match &latest {
        Some(t) => (Some(t.latency_ms), Some(t.verified_at.clone()), copy_opt(&t.error_message)),
        None => (None, None, None),
    };
    ProviderStatusView {
        provider: owned(provider.slug()),
        display_name: owned(provider.display_name()),
        description: owned(provider.description()),
        enabled: settings.enabled,
        api_key,
        base_url: settings.base_url,
        monthly_limit: settings.monthly_limit,
        daily_soft_limit: settings.daily_soft_limit,
        default_role: settings.default_role,
        priority: settings.priority,
        status,
        last_verified_at,
        last_error,
        latency_ms,
    }
}

// ---------------------------------------------------------------------------
// simulated tests

/// The outcome of a simulated test: disabled; missing key; a key or base
/// URL that mentions `timeout`; one that mentions `fail`; else ready, with
/// a latency of 180 ms plus 37 ms per priority step.
pub open spec fn test_outcome(enabled: bool, key: Seq<char>, base_url: Seq<char>, priority: int) -> (
    bool,
    Seq<char>,
    int,
    Option<Seq<char>>,
) {
    if !enabled {
        (false, "disabled"@, 0, Some("provider has been paused from the setup page"@))
    } else if key.len() == 0 {
        (false, "missing_api_key"@, 0, Some("API key is required before provider testing"@))
    } else if contains_sub(key, "timeout"@) || contains_sub(base_url, "timeout"@) {
        (false, "timeout"@, 3_200, Some("simulated timeout path reached"@))
    } else if contains_sub(key, "fail"@) || contains_sub(base_url, "fail"@) {
        (
            false,
            "failed"@,
            640,
            Some("simulated provider failure returned a non-200 response"@),
        )
    } else {
        (true, "ready"@, 180 + priority * 37, None)
    }
}

/// The monthly use a test records: 19 per priority step plus 7 when it
/// passed, 11 per step when it failed.
pub open spec fn used_monthly_of(ok: bool, priority: int) -> int {
    if ok {
        priority * 19 + 7
    } else {
        priority * 11
    }
}

fn some_text(s: &str) -> (r: Option<String>)
    ensures
        r.deep_view() == Some(s@),
{
    Some(owned(s))
}

impl ProviderTestResponse {
    /// The response is the simulated test of `provider` with `settings` and
    /// the stored secret, verified at `verified_at`.
    pub open spec fn simulates(
        &self,
        provider: ProviderKind,
        settings: StoredSettings,
        secret: Option<Seq<char>>,
        verified_at: Seq<char>,
    ) -> bool {
        let o = outcome_for(provider, settings, secret);
        let used = test_use(provider, settings, secret);
        &&& self.provider@ == provider.slug_of()
        &&& self.ok == o.0
        &&& self.status@ == o.1
        &&& self.latency_ms == o.2
        &&& self.error_message.deep_view() == o.3
        &&& self.verified_at@ == verified_at
        &&& self.quota_snapshot.used_monthly == used
        &&& self.quota_snapshot.remaining_monthly == (if settings.monthly_limit - used >= 0 {
            settings.monthly_limit - used
        } else {
            0
        })
        &&& self.quota_snapshot.daily_soft_limit == settings.daily_soft_limit
        &&& self.quota_snapshot.monthly_limit == settings.monthly_limit
    }
}

/// The outcome of a test of `provider` with `settings` and `secret`.
pub open spec fn outcome_for(
    provider: ProviderKind,
    settings: StoredSettings,
    secret: Option<Seq<char>>,
) -> (bool, Seq<char>, int, Option<Seq<char>>) {
    let key = match secret {
        Some(k) => trim_ws(k),
        None => Seq::<char>::empty(),
    };
    test_outcome(settings.enabled, key, ascii_lower_all(settings.base_url@), provider.priority_of())
}

/// The monthly use that a test of `provider` with `settings` and `secret`
/// records.
pub open spec fn test_use(provider: ProviderKind, settings: StoredSettings, secret: Option<Seq<char>>) -> int {
    used_monthly_of(outcome_for(provider, settings, secret).0, provider.priority_of())
}

/// The monthly use that a test of `provider` with `settings` and `secret`
/// records, which the test takes from the monthly limit.
pub fn test_use_amount(provider: ProviderKind, settings: &StoredSettings, secret: Option<&str>) -> (r: i64)
    ensures
        r == test_use(
            provider,
            *settings,
            match secret {
                Some(k) => Some(k@),
                None => None,
            },
        ),
        0 <= r <= 121,
{
    let api_key = match secret {
        Some(k) => trim(k),
        None => String::new(),
    };
    let base_url = to_ascii_lowercase(settings.base_url.as_str());
    let key = api_key.as_str();
    let url = base_url.as_str();
    let ok = settings.enabled && !key.is_empty() && !(contains_str(key, "timeout") || contains_str(
        url,
        "timeout",
    )) && !(contains_str(key, "fail") || contains_str(url, "fail"));
    let p = provider.priority();
    if ok {
        p * 19 + 7
    } else {
        p * 11
    }
}

/// A simulated test of a provider, verified at `verified_at`.
pub fn simulate_test_at(
    provider: ProviderKind,
    settings: &StoredSettings,
    secret: Option<&str>,
    verified_at: String,
) -> (r: ProviderTestResponse)
    requires
        settings.monthly_limit >= i64::MIN + test_use(
            provider,
            *settings,
            match secret {
                Some(k) => Some(k@),
                None => None,
            },
        ),
    ensures
        r.simulates(
            provider,
            *settings,
            match secret {
                Some(k) => Some(k@),
                None => None,
            },
            verified_at@,
        ),
{
    let api_key = match secret {
        Some(k) => trim(k),
        None => String::new(),
    };
    let p = provider.priority();
    let base_url = to_ascii_lowercase(settings.base_url.as_str());
    let key = api_key.as_str();
    let url = base_url.as_str();
    let (ok, status, latency_ms, error_message) = if !settings.enabled {
        (false, owned("disabled"), 0i64, some_text("provider has been paused from the setup page"))
    } else if key.is_empty() {
        (
            false,
            owned("missing_api_key"),
            0i64,
            some_text("API key is required before provider testing"),
        )
    } else if contains_str(key, "timeout") || contains_str(url, "timeout") {
        (false, owned("timeout"), 3_200i64, some_text("simulated timeout path reached"))
    } else if contains_str(key, "fail") || contains_str(url, "fail") {
        (
            false,
            owned("failed"),
            640i64,
            some_text("simulated provider failure returned a non-200 response"),
        )
    } else {
        (true, owned("ready"), 180 + p * 37, None)
    };
    let used_monthly = if ok {
        p * 19 + 7
    } else {
        p * 11
    };
    let left = settings.monthly_limit - used_monthly;
    let remaining_monthly = if left >= 0 {
        left
    } else {
        0
    };
    ProviderTestResponse {
        provider: owned(provider.slug()),
        ok,
        status,
        latency_ms,
        quota_snapshot: QuotaSnapshot {
            used_monthly,
            remaining_monthly,
            daily_soft_limit: settings.daily_soft_limit,
            monthly_limit: settings.monthly_limit,
        },
        error_message,
        verified_at,
    }
}

/// A simulated test of a provider, verified now.
pub fn simulate_test(
    provider: ProviderKind,
    settings: &StoredSettings,
    secret: Option<&str>,
) -> (r: ProviderTestResponse)
    requires
        settings.monthly_limit >= i64::MIN + test_use(
            provider,
            *settings,
            match secret {
                Some(k) => Some(k@),
                None => None,
            },
        ),
    ensures
        exists|n: int|
            r.simulates(
                provider,
                *settings,
                match secret {
                    Some(k) => Some(k@),
                    None => None,
                },
                utc_text(n),
            ),
{
    let verified_at = utc_now_iso();
    simulate_test_at(provider, settings, secret, verified_at)
}

// ---------------------------------------------------------------------------
// laws

proof fn lemma_ready_and_blocked(views: Seq<ProviderStatusView>)
    ensures
        ready_count_of(views) + blockers_of(views).len() == views.len(),
        (ready_count_of(views) == views.len()) <==> (forall|i: int|
            0 <= i < views.len() ==> #[trigger] ready(views[i])),
    decreases views.len(),
{
    if views.len() > 0 {
        let init = views.drop_last();
        lemma_ready_and_blocked(init);
        lemma_ready_count_bound(init);
        assert forall|i: int| 0 <= i < init.len() implies #[trigger] views[i] == init[i] by {}
        if ready_count_of(views) == views.len() {
            assert forall|i: int| 0 <= i < views.len() implies #[trigger] ready(views[i]) by {
                if i < init.len() {
                    assert(views[i] == init[i]);
                } else {
                    assert(views[i] == views.last());
                }
            }
        }
        if forall|i: int| 0 <= i < views.len() ==> #[trigger] ready(views[i]) {
            assert(ready(views[views.len() - 1]));
            assert forall|i: int| 0 <= i < init.len() implies #[trigger] ready(init[i]) by {
                assert(ready(views[i]));
            }
        }
    }
}

/// The main system unlocks only with all six providers ready: for one view
/// per provider, it is unlocked exactly when every view is ready, and
/// exactly when nothing blocks it.
pub proof fn lemma_unlock_needs_every_provider(views: Seq<ProviderStatusView>)
    requires
        views.len() == all_providers().len(),
    ensures
        (ready_count_of(views) == all_providers().len()) <==> (forall|i: int|
            0 <= i < views.len() ==> #[trigger] ready(views[i])),
        (ready_count_of(views) == all_providers().len()) <==> blockers_of(views).len() == 0,
{
    lemma_ready_and_blocked(views);
}

/// A simulated test passes exactly when its status is `ready`, and exactly
/// when it reports no error; a paused provider is `disabled`, and an enabled
/// one without key is `missing_api_key`.
pub proof fn lemma_test_outcome(enabled: bool, key: Seq<char>, base_url: Seq<char>, priority: int)
    ensures
        ({
            let o = test_outcome(enabled, key, base_url, priority);
            &&& o.0 <==> o.1 == "ready"@
            &&& o.0 <==> o.3 is None
            &&& !enabled ==> o.1 == "disabled"@
            &&& enabled && key.len() == 0 ==> o.1 == "missing_api_key"@
        }),
{
    reveal_strlit("ready");
    reveal_strlit("disabled");
    reveal_strlit("missing_api_key");
    reveal_strlit("timeout");
    reveal_strlit("failed");
    assert("ready"@[0] != "disabled"@[0]);
    assert("ready"@[0] != "missing_api_key"@[0]);
    assert("ready"@[0] != "timeout"@[0]);
    assert("ready"@[0] != "failed"@[0]);
}

/// A masked secret shows at most its last four characters after six
/// bullets, and is empty exactly for a blank secret.
pub proof fn lemma_mask_shows_little(secret: Seq<char>)
    ensures
        masked(secret).len() == 0 <==> trim_ws(secret).len() == 0,
        masked(secret).len() <= 10,
        masked(secret).len() > 0 ==> masked(secret).take(6) == "••••••"@,
{
    reveal_strlit("••••••");
    let t = trim_ws(secret);
    if t.len() > 0 {
        let m = masked(secret);
        assert(m.take(6) =~= "••••••"@);
    }
}


proof fn lemma_lowercase_word(s: Seq<char>)
    requires
        forall|i: int| 0 <= i < s.len() ==> 'a' <= #[trigger] s[i] && s[i] <= 'z',
    ensures
        ascii_lower_all(trim_ws(s)) == s,
{
    if s.len() > 0 {
        assert(!is_ws(s[0]));
        assert(!is_ws(s[s.len() - 1]));
        assert(first_non_ws(s, 0) == 0);
        assert(last_non_ws_end(s, s.len() as int) == s.len());
        assert(s.subrange(0, s.len() as int) =~= s);
    } else {
        assert(trim_ws(s) =~= s);
    }
    assert(trim_ws(s) == s);
    assert(ascii_lower_all(s) =~= s);
}

/// A provider's name reads back as that provider: its slug, which is also
/// the text it is displayed by, trimmed and lowercased names it.
pub proof fn lemma_slug_round_trip(p: ProviderKind)
    ensures
        provider_named(ascii_lower_all(trim_ws(p.slug_of()))) == Some(p),
{
    reveal_strlit("doubao");
    reveal_strlit("serper");
    reveal_strlit("firecrawl");
    reveal_strlit("tavily");
    reveal_strlit("exa");
    reveal_strlit("gemini");
    let s = p.slug_of();
    assert forall|i: int| 0 <= i < s.len() implies 'a' <= #[trigger] s[i] && s[i] <= 'z' by {}
    lemma_lowercase_word(s);
    assert("doubao"@[0] != "serper"@[0]);
    assert("doubao"@[0] != "firecrawl"@[0]);
    assert("doubao"@[0] != "tavily"@[0]);
    assert("doubao"@[0] != "exa"@[0]);
    assert("doubao"@[0] != "gemini"@[0]);
    assert("serper"@[0] != "firecrawl"@[0]);
    assert("serper"@[0] != "tavily"@[0]);
    assert("serper"@[0] != "exa"@[0]);
    assert("serper"@[0] != "gemini"@[0]);
    assert("firecrawl"@[0] != "tavily"@[0]);
    assert("firecrawl"@[0] != "exa"@[0]);
    assert("firecrawl"@[0] != "gemini"@[0]);
    assert("tavily"@[0] != "exa"@[0]);
    assert("tavily"@[0] != "gemini"@[0]);
    assert("exa"@[0] != "gemini"@[0]);
}

} // verus!
