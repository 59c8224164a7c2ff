//! Entity resolution: the evidence that ties an item to games, the scored
//! and ranked candidates, and the decision which game (or track) the item is
//! about.
use crate::assets::{lookup_last, lookup_last_exec, AliasEntry, AssetIndex, IndexPair, LookupV};
use crate::ext::{lowercase, lowercase_of};
use crate::scores::{
    add_scores, f64_add, f64_mul, hundredths, max_units, min_units, mul_score, score_hundredths,
    SCORE_003, SCORE_005, SCORE_010, SCORE_012, SCORE_015, SCORE_055, SCORE_058, SCORE_068,
    SCORE_070, SCORE_072, SCORE_078, SCORE_086, SCORE_088, SCORE_090, SCORE_098, SCORE_099,
};
use crate::strs::{
    char_count, contains_str, contains_sub, dedup_strings, lemma_lex_asymmetric,
    lemma_lex_irreflexive, lemma_lex_total, lemma_lex_transitive, lex_le, owned, sort_strings, str_eq, str_le, str_order,
};
use crate::urls::{url_seed_matches, url_seed_matches_of};
use vstd::prelude::*;
use vstd::relations::{sorted_by, total_ordering};
use vstd::seq_lib::lemma_sorted_unique;

verus! {

/// One reason to think that an item is about a game.
pub struct MatchEvidence {
    pub game_id: String,
    pub alias: String,
    pub strength: String,
    pub source: String,
    /// The score in score units (see `scores`).
    pub score: u64,
}

pub struct EvidenceV {
    pub game_id: Seq<char>,
    pub alias: Seq<char>,
    pub strength: Seq<char>,
    pub source: Seq<char>,
    pub score: int,
}

impl DeepView for MatchEvidence {
    type V = EvidenceV;

    open spec fn deep_view(&self) -> EvidenceV {
        EvidenceV {
            game_id: self.game_id@,
            alias: self.alias@,
            strength: self.strength@,
            source: self.source@,
            score: self.score as int,
        }
    }
}

impl MatchEvidence {
    pub fn copy(&self) -> (r: MatchEvidence)
        ensures
            r.deep_view() == self.deep_view(),
    {
        MatchEvidence {
            game_id: self.game_id.clone(),
            alias: self.alias.clone(),
            strength: self.strength.clone(),
            source: self.source.clone(),
            score: self.score,
        }
    }
}

// ---------------------------------------------------------------------------
// evidence

/// The score of an alias found in an item: strong aliases score more, in the
/// title more than in the body, and a standard name gets `0.05` on top; at
/// most `0.99`.
pub open spec fn alias_score(strength: Seq<char>, source: Seq<char>, in_title: bool) -> int {
    let base = if strength == "strong"@ {
        if in_title {
            SCORE_088 as int
        } else {
            SCORE_078 as int
        }
    } else {
        if in_title {
            SCORE_070 as int
        } else {
            SCORE_058 as int
        }
    };
    let s = if source == "standard_name"@ {
        f64_add(base, SCORE_005 as int)
    } else {
        base
    };
    min_units(s, SCORE_099 as int)
}

pub open spec fn lookup_evidence(l: LookupV, alias: Seq<char>, in_title: bool) -> EvidenceV {
    EvidenceV {
        game_id: l.game_id,
        alias,
        strength: l.strength,
        source: l.source,
        score: alias_score(l.strength, l.source, in_title),
    }
}

/// The game of the item's author, if the author is an official account.
pub open spec fn account_evidence(pairs: Seq<(Seq<char>, Seq<char>)>, author: Seq<char>) -> Seq<
    EvidenceV,
> {
    match lookup_last(pairs, author) {
        Some(g) => seq![
            EvidenceV {
                game_id: g,
                alias: author,
                strength: "strong"@,
                source: "official_account"@,
                score: SCORE_099 as int,
            },
        ],
        None => Seq::<EvidenceV>::empty(),
    }
}

/// Every official URL seed that the item's (nonempty) URL matches.
pub open spec fn seed_evidence(pairs: Seq<(Seq<char>, Seq<char>)>, url: Seq<char>) -> Seq<
    EvidenceV,
>
    decreases pairs.len(),
{
    if pairs.len() == 0 {
        Seq::<EvidenceV>::empty()
    } else {
        let p = pairs.last();
        let rest = seed_evidence(pairs.drop_last(), url);
        if url.len() > 0 && url_seed_matches_of(url, p.0) {
            rest.push(
                EvidenceV {
                    game_id: p.1,
                    alias: p.0,
                    strength: "strong"@,
                    source: "official_url_seed"@,
                    score: SCORE_098 as int,
                },
            )
        } else {
            rest
        }
    }
}

/// Every alias entry (not empty, not negative) whose alias the lowercased
/// title contains, or else the lowercased body.
pub open spec fn alias_evidence(
    entries: Seq<(Seq<char>, LookupV)>,
    negatives: Seq<Seq<char>>,
    title: Seq<char>,
    body: Seq<char>,
) -> Seq<EvidenceV>
    decreases entries.len(),
{
    if entries.len() == 0 {
        Seq::<EvidenceV>::empty()
    } else {
        let a = entries.last().0;
        let l = entries.last().1;
        let rest = alias_evidence(entries.drop_last(), negatives, title, body);
        if a.len() == 0 || negatives.contains(a) {
            rest
        } else if contains_sub(title, a) {
            rest.push(lookup_evidence(l, a, true))
        } else if contains_sub(body, a) {
            rest.push(lookup_evidence(l, a, false))
        } else {
            rest
        }
    }
}

/// All evidence for an item with the given normalized author, URL, title and
/// text: official account, then URL seeds, then aliases.
pub open spec fn evidence_of(
    index: AssetIndex,
    author: Seq<char>,
    url: Seq<char>,
    title: Seq<char>,
    text: Seq<char>,
) -> Seq<EvidenceV> {
    account_evidence(index.official_account_index.deep_view(), author) + seed_evidence(
        index.official_url_seed_index.deep_view(),
        url,
    ) + alias_evidence(
        index.alias_index.deep_view(),
        index.negative_aliases.deep_view(),
        lowercase_of(title),
        lowercase_of(text),
    )
}

fn alias_score_exec(strength: &str, source: &str, in_title: bool) -> (r: u64)
    ensures
        r == alias_score(strength@, source@, in_title),
{
    let base = if str_eq(strength, "strong") {
        if in_title {
            SCORE_088
        } else {
            SCORE_078
        }
    } else {
        if in_title {
            SCORE_070
        } else {
            SCORE_058
        }
    };
    let s = if str_eq(source, "standard_name") {
        add_scores(base, SCORE_005)
    } else {
        base
    };
    if s <= SCORE_099 {
        s
    } else {
        SCORE_099
    }
}

fn push_seed_evidence(out: &mut Vec<MatchEvidence>, pairs: &Vec<IndexPair>, url: &str)
    ensures
        final(out).deep_view() == old(out).deep_view() + seed_evidence(pairs.deep_view(), url@),
{
    let ghost start = out.deep_view();
    let ghost pv = pairs.deep_view();
    let nonempty = char_count(url) > 0;
    let mut i: usize = 0;
    while i < pairs.len()
        invariant
            pv == pairs.deep_view(),
            nonempty == (url@.len() > 0),
            i <= pv.len(),
            out.deep_view() == start + seed_evidence(pv.take(i as int), url@),
        decreases pv.len() - i,
    {
        proof {
            assert(pv.take(i + 1).drop_last() == pv.take(i as int));
            assert(pv.take(i + 1).last() == pv[i as int]);
        }
        let p = &pairs[i];
        if nonempty && url_seed_matches(url, p.key.as_str()) {
            let ghost before = out.deep_view();
            let e = MatchEvidence {
                game_id: p.value.clone(),
                alias: p.key.clone(),
                strength: owned("strong"),
                source: owned("official_url_seed"),
                score: SCORE_098,
            };
            out.push(e);
            proof {
                assert(out.deep_view() =~= before.push(e.deep_view()));
            }
        }
        proof {
            assert(out.deep_view() =~= start + seed_evidence(pv.take(i + 1), url@));
        }
        i += 1;
    }
    proof {
        assert(pv.take(pv.len() as int) == pv);
    }
}

fn push_alias_evidence(
    out: &mut Vec<MatchEvidence>,
    index: &AssetIndex,
    title: &str,
    body: &str,
)
    ensures
        final(out).deep_view() == old(out).deep_view() + alias_evidence(
            index.alias_index.deep_view(),
            index.negative_aliases.deep_view(),
            title@,
            body@,
        ),
{
    let ghost start = out.deep_view();
    let ghost ev = index.alias_index.deep_view();
    let ghost neg = index.negative_aliases.deep_view();
    let mut i: usize = 0;
    while i < index.alias_index.len()
        invariant
            ev == index.alias_index.deep_view(),
            neg == index.negative_aliases.deep_view(),
            i <= ev.len(),
            out.deep_view() == start + alias_evidence(ev.take(i as int), neg, title@, body@),
        decreases ev.len() - i,
    {
        proof {
            assert(ev.take(i + 1).drop_last() == ev.take(i as int));
            assert(ev.take(i + 1).last() == ev[i as int]);
        }
        let entry: &AliasEntry = &index.alias_index[i];
        let a = entry.alias.as_str();
        if char_count(a) > 0 && !index.is_negative_alias(a) {
            let in_title = contains_str(title, a);
            let in_body = in_title || contains_str(body, a);
            if in_body {
                let ghost before = out.deep_view();
                let e = MatchEvidence {
                    game_id: entry.lookup.game_id.clone(),
                    alias: entry.alias.clone(),
                    strength: entry.lookup.strength.clone(),
                    source: entry.lookup.source.clone(),
                    score: alias_score_exec(
                        entry.lookup.strength.as_str(),
                        entry.lookup.source.as_str(),
                        in_title,
                    ),
                };
                out.push(e);
                proof {
                    assert(out.deep_view() =~= before.push(e.deep_view()));
                }
            }
        }
        proof {
            assert(out.deep_view() =~= start + alias_evidence(ev.take(i + 1), neg, title@, body@));
        }
        i += 1;
    }
    proof {
        assert(ev.take(ev.len() as int) == ev);
    }
}

/// Collects the evidence of an item.
pub fn collect_evidence(
    index: &AssetIndex,
    author: &str,
    url: &str,
    title: &str,
    text: &str,
) -> (r: Vec<MatchEvidence>)
    ensures
        r.deep_view() == evidence_of(*index, author@, url@, title@, text@),
{
    let mut out: Vec<MatchEvidence> = Vec::new();
    match lookup_last_exec(&index.official_account_index, author) {
        Some(g) => {
            out.push(
                MatchEvidence {
                    game_id: g,
                    alias: owned(author),
                    strength: owned("strong"),
                    source: owned("official_account"),
                    score: SCORE_099,
                },
            );
        },
        None => {},
    }
    proof {
        assert(out.deep_view() =~= account_evidence(
            index.official_account_index.deep_view(),
            author@,
        ));
    }
    push_seed_evidence(&mut out, &index.official_url_seed_index, url);
    let lowered_title = lowercase(title);
    let lowered_text = lowercase(text);
    push_alias_evidence(&mut out, index, lowered_title.as_str(), lowered_text.as_str());
    out
}

// ---------------------------------------------------------------------------
// candidates

/// A candidate game with its score and evidence.
pub struct CandidateScore {
    pub game_id: String,
    pub score: u64,
    pub evidences: Vec<MatchEvidence>,
}

pub struct CandidateV {
    pub game_id: Seq<char>,
    pub score: int,
    pub evidences: Seq<EvidenceV>,
}

impl DeepView for CandidateScore {
    type V = CandidateV;

    open spec fn deep_view(&self) -> CandidateV {
        CandidateV {
            game_id: self.game_id@,
            score: self.score as int,
            evidences: self.evidences.deep_view(),
        }
    }
}

/// The evidence for game `g`, in order.
pub open spec fn evidence_for(evs: Seq<EvidenceV>, g: Seq<char>) -> Seq<EvidenceV>
    decreases evs.len(),
{
    if evs.len() == 0 {
        Seq::<EvidenceV>::empty()
    } else {
        let rest = evidence_for(evs.drop_last(), g);
        if evs.last().game_id == g {
            rest.push(evs.last())
        } else {
            rest
        }
    }
}

/// The highest score of some evidence (0 for none).
pub open spec fn top_score(evs: Seq<EvidenceV>) -> int
    decreases evs.len(),
{
    if evs.len() == 0 {
        0
    } else {
        max_units(top_score(evs.drop_last()), evs.last().score)
    }
}

/// `0.03` for each piece of evidence after the first, at most `0.12`.
pub open spec fn bonus_units(count: int) -> int {
    if count <= 1 {
        0
    } else if count <= 5 {
        min_units(f64_mul(count - 1, SCORE_003 as int), SCORE_012 as int)
    } else {
        SCORE_012 as int
    }
}

/// A candidate's score: its best evidence plus the bonus, at most `0.99`.
pub open spec fn candidate_score(evs: Seq<EvidenceV>) -> int {
    min_units(f64_add(top_score(evs), bonus_units(evs.len() as int)), SCORE_099 as int)
}

pub open spec fn candidate_view(evs: Seq<EvidenceV>, g: Seq<char>) -> CandidateV {
    CandidateV {
        game_id: g,
        score: candidate_score(evidence_for(evs, g)),
        evidences: evidence_for(evs, g),
    }
}

/// The game of each piece of evidence.
pub open spec fn game_ids(evs: Seq<EvidenceV>) -> Seq<Seq<char>> {
    evs.map_values(|e: EvidenceV| e.game_id)
}

/// The games with evidence, in order of first evidence.
pub open spec fn distinct_games(evs: Seq<EvidenceV>) -> Seq<Seq<char>> {
    game_ids(evs).remove_duplicates(Seq::<Seq<char>>::empty())
}

/// Ranking order: higher score first, then game id.
pub open spec fn rank_le(a: (int, Seq<char>), b: (int, Seq<char>)) -> bool {
    a.0 > b.0 || (a.0 == b.0 && lex_le(a.1, b.1))
}

pub open spec fn rank_order() -> spec_fn((int, Seq<char>), (int, Seq<char>)) -> bool {
    |a: (int, Seq<char>), b: (int, Seq<char>)| rank_le(a, b)
}

pub open spec fn key_of(evs: Seq<EvidenceV>, g: Seq<char>) -> (int, Seq<char>) {
    (candidate_score(evidence_for(evs, g)), g)
}

pub open spec fn keys_of(cs: Seq<CandidateV>) -> Seq<(int, Seq<char>)> {
    cs.map_values(|c: CandidateV| (c.score, c.game_id))
}

/// (score, game) of each candidate, ranked.
pub open spec fn ranked_keys(evs: Seq<EvidenceV>) -> Seq<(int, Seq<char>)> {
    distinct_games(evs).map_values(|g: Seq<char>| key_of(evs, g)).sort_by(rank_order())
}

/// The candidate games, ranked.
pub open spec fn ranked_games(evs: Seq<EvidenceV>) -> Seq<Seq<char>> {
    ranked_keys(evs).map_values(|k: (int, Seq<char>)| k.1)
}

pub open spec fn scores_bounded(evs: Seq<EvidenceV>) -> bool {
    forall|i: int| 0 <= i < evs.len() ==> 0 <= #[trigger] evs[i].score <= SCORE_099
}

/// Candidates are ranked by a total order: higher score first, then the
/// smaller game id.
pub proof fn lemma_rank_order_total()
    ensures
        total_ordering(rank_order()),
{
    let le = rank_order();
    assert forall|x: (int, Seq<char>)| #[trigger] le(x, x) by {
        lemma_lex_irreflexive(x.1);
    }
    assert forall|x: (int, Seq<char>), y: (int, Seq<char>)| #[trigger]
        le(x, y) && #[trigger] le(y, x) implies x == y by {
        lemma_lex_asymmetric(x.1, y.1);
    }
    assert forall|x: (int, Seq<char>), y: (int, Seq<char>), z: (int, Seq<char>)| #[trigger]
        le(x, y) && #[trigger] le(y, z) implies le(x, z) by {
        if x.0 == y.0 && y.0 == z.0 {
            lemma_lex_transitive(x.1, y.1, z.1);
        }
    }
    assert forall|x: (int, Seq<char>), y: (int, Seq<char>)| #[trigger]
        le(x, y) || #[trigger] le(y, x) by {
        lemma_lex_total(x.1, y.1);
    }
}

proof fn lemma_seed_scores(pairs: Seq<(Seq<char>, Seq<char>)>, url: Seq<char>)
    ensures
        scores_bounded(seed_evidence(pairs, url)),
    decreases pairs.len(),
{
    if pairs.len() > 0 {
        lemma_seed_scores(pairs.drop_last(), url);
    }
}

proof fn lemma_alias_scores(
    entries: Seq<(Seq<char>, LookupV)>,
    negatives: Seq<Seq<char>>,
    title: Seq<char>,
    body: Seq<char>,
)
    ensures
        scores_bounded(alias_evidence(entries, negatives, title, body)),
    decreases entries.len(),
{
    if entries.len() > 0 {
        lemma_alias_scores(entries.drop_last(), negatives, title, body);
        let l = entries.last().1;
        let a = entries.last().0;
        lemma_round_nonneg(SCORE_088 as int + SCORE_005 as int);
        lemma_round_nonneg(SCORE_078 as int + SCORE_005 as int);
        lemma_round_nonneg(SCORE_070 as int + SCORE_005 as int);
        lemma_round_nonneg(SCORE_058 as int + SCORE_005 as int);
        assert(alias_score(l.strength, l.source, true) >= 0);
        assert(alias_score(l.strength, l.source, false) >= 0);
    }
}

proof fn lemma_round_nonneg(x: int)
    requires
        x >= 0,
    ensures
        f64_add(x, 0) >= 0,
        crate::scores::round_even(x, crate::scores::ulp_at(x)) >= 0,
{
    let u = crate::scores::ulp_at(x);
    assert(u >= 1);
    assert(x / u >= 0) by (nonlinear_arith)
        requires
            x >= 0,
            u >= 1,
    ;
    assert((x / u) * u >= 0) by (nonlinear_arith)
        requires
            x / u >= 0,
            u >= 1,
    ;
    assert((x / u + 1) * u >= 0) by (nonlinear_arith)
        requires
            x / u >= 0,
            u >= 1,
    ;
}

/// Every piece of evidence scores between 0 and `0.99`.
pub proof fn lemma_evidence_scores(
    index: AssetIndex,
    author: Seq<char>,
    url: Seq<char>,
    title: Seq<char>,
    text: Seq<char>,
)
    ensures
        scores_bounded(evidence_of(index, author, url, title, text)),
{
    let a = account_evidence(index.official_account_index.deep_view(), author);
    let s = seed_evidence(index.official_url_seed_index.deep_view(), url);
    let l = alias_evidence(
        index.alias_index.deep_view(),
        index.negative_aliases.deep_view(),
        lowercase_of(title),
        lowercase_of(text),
    );
    lemma_seed_scores(index.official_url_seed_index.deep_view(), url);
    lemma_alias_scores(
        index.alias_index.deep_view(),
        index.negative_aliases.deep_view(),
        lowercase_of(title),
        lowercase_of(text),
    );
    let all = a + s + l;
    assert forall|i: int| 0 <= i < all.len() implies 0 <= #[trigger] all[i].score <= SCORE_099 by {
        if i < a.len() {
        } else if i < a.len() + s.len() {
            assert(all[i] == s[i - a.len()]);
        } else {
            assert(all[i] == l[i - a.len() - s.len()]);
        }
    }
}

fn evidence_for_game(evs: &Vec<MatchEvidence>, g: &str) -> (r: Vec<MatchEvidence>)
    ensures
        r.deep_view() == evidence_for(evs.deep_view(), g@),
{
    let ghost ev = evs.deep_view();
    let mut out: Vec<MatchEvidence> = Vec::new();
    let mut i: usize = 0;
    while i < evs.len()
        invariant
            ev == evs.deep_view(),
            i <= ev.len(),
            out.deep_view() == evidence_for(ev.take(i as int), g@),
        decreases ev.len() - i,
    {
        proof {
            assert(ev.take(i + 1).drop_last() == ev.take(i as int));
            assert(ev.take(i + 1).last() == ev[i as int]);
        }
        if str_eq(evs[i].game_id.as_str(), g) {
            let ghost before = out.deep_view();
            let e = evs[i].copy();
            out.push(e);
            proof {
                assert(out.deep_view() =~= before.push(e.deep_view()));
            }
        }
        i += 1;
    }
    proof {
        assert(ev.take(ev.len() as int) == ev);
    }
    out
}

fn top_score_exec(evs: &Vec<MatchEvidence>) -> (r: u64)
    requires
        scores_bounded(evs.deep_view()),
    ensures
        r == top_score(evs.deep_view()),
        r <= SCORE_099,
{
    let ghost ev = evs.deep_view();
    let mut best: u64 = 0;
    let mut i: usize = 0;
    while i < evs.len()
        invariant
            ev == evs.deep_view(),
            scores_bounded(ev),
            i <= ev.len(),
            best == top_score(ev.take(i as int)),
            best <= SCORE_099,
        decreases ev.len() - i,
    {
        proof {
            assert(ev.take(i + 1).drop_last() == ev.take(i as int));
            assert(ev.take(i + 1).last() == ev[i as int]);
            assert(ev[i as int].score == evs@[i as int].score);
        }
        if evs[i].score >= best {
            best = evs[i].score;
        }
        i += 1;
    }
    proof {
        assert(ev.take(ev.len() as int) == ev);
    }
    best
}

fn candidate_score_exec(evs: &Vec<MatchEvidence>) -> (r: u64)
    requires
        scores_bounded(evs.deep_view()),
    ensures
        r == candidate_score(evs.deep_view()),
{
    let top = top_score_exec(evs);
    let n = evs.len();
    let bonus = if n <= 1 {
        0
    } else if n <= 5 {
        let m = mul_score((n - 1) as u64, SCORE_003);
        if m <= SCORE_012 {
            m
        } else {
            SCORE_012
        }
    } else {
        SCORE_012
    };
    let s = add_scores(top, bonus);
    if s <= SCORE_099 {
        s
    } else {
        SCORE_099
    }
}

fn game_id_list(evs: &Vec<MatchEvidence>) -> (r: Vec<String>)
    ensures
        r.deep_view() == game_ids(evs.deep_view()),
{
    let ghost ev = evs.deep_view();
    let mut out: Vec<String> = Vec::new();
    let mut i: usize = 0;
    while i < evs.len()
        invariant
            ev == evs.deep_view(),
            i <= ev.len(),
            out.deep_view() == game_ids(ev.take(i as int)),
        decreases ev.len() - i,
    {
        let ghost before = out.deep_view();
        out.push(evs[i].game_id.clone());
        proof {
            assert(out.deep_view() =~= before.push(ev[i as int].game_id));
            assert(ev.take(i + 1) =~= ev.take(i as int).push(ev[i as int]));
            assert(out.deep_view() =~= game_ids(ev.take(i + 1)));
        }
        i += 1;
    }
    proof {
        assert(ev.take(ev.len() as int) == ev);
    }
    out
}

/// The candidates in order of first evidence.
fn group_candidates(evs: &Vec<MatchEvidence>) -> (r: Vec<CandidateScore>)
    requires
        scores_bounded(evs.deep_view()),
    ensures
        r.deep_view() == distinct_games(evs.deep_view()).map_values(
            |g: Seq<char>| candidate_view(evs.deep_view(), g),
        ),
{
    let ghost ev = evs.deep_view();
    let ids = game_id_list(evs);
    let games = dedup_strings(&ids);
    let ghost gs = games.deep_view();
    let mut out: Vec<CandidateScore> = Vec::new();
    let mut i: usize = 0;
    while i < games.len()
        invariant
            ev == evs.deep_view(),
            scores_bounded(ev),
            gs == games.deep_view(),
            gs == distinct_games(ev),
            i <= gs.len(),
            out.deep_view() == gs.take(i as int).map_values(|g: Seq<char>| candidate_view(ev, g)),
        decreases gs.len() - i,
    {
        let mine = evidence_for_game(evs, games[i].as_str());
        proof {
            lemma_evidence_for_bounded(ev, gs[i as int]);
        }
        let score = candidate_score_exec(&mine);
        let ghost before = out.deep_view();
        let c = CandidateScore { game_id: games[i].clone(), score, evidences: mine };
        out.push(c);
        proof {
            assert(out.deep_view() =~= before.push(c.deep_view()));
            assert(c.deep_view() == candidate_view(ev, gs[i as int]));
            assert(out.deep_view() =~= gs.take(i + 1).map_values(
                |g: Seq<char>| candidate_view(ev, g),
            ));
        }
        i += 1;
    }
    proof {
        assert(gs.take(gs.len() as int) == gs);
    }
    out
}

proof fn lemma_evidence_for_bounded(evs: Seq<EvidenceV>, g: Seq<char>)
    requires
        scores_bounded(evs),
    ensures
        scores_bounded(evidence_for(evs, g)),
    decreases evs.len(),
{
    if evs.len() > 0 {
        assert(scores_bounded(evs.drop_last())) by {
            assert forall|i: int| 0 <= i < evs.drop_last().len() implies 0
                <= #[trigger] evs.drop_last()[i].score <= SCORE_099 by {
                assert(evs.drop_last()[i] == evs[i]);
            }
        }
        lemma_evidence_for_bounded(evs.drop_last(), g);
        assert(evs.last() == evs[evs.len() - 1]);
    }
}

fn rank_le_exec(a: &CandidateScore, b: &CandidateScore) -> (r: bool)
    ensures
        r == rank_le((a.score as int, a.game_id@), (b.score as int, b.game_id@)),
{
    if a.score > b.score {
        true
    } else if a.score == b.score {
        str_le(a.game_id.as_str(), b.game_id.as_str())
    } else {
        false
    }
}

/// Sorts candidates into ranking order.
fn rank_candidates(cands: Vec<CandidateScore>, Ghost(evs): Ghost<Seq<EvidenceV>>) -> (r: Vec<
    CandidateScore,
>)
    requires
        forall|k: int|
            0 <= k < cands@.len() ==> #[trigger] cands.deep_view()[k] == candidate_view(
                evs,
                cands.deep_view()[k].game_id,
            ),
    ensures
        keys_of(r.deep_view()) == keys_of(cands.deep_view()).sort_by(rank_order()),
        forall|k: int|
            0 <= k < r@.len() ==> #[trigger] r.deep_view()[k] == candidate_view(
                evs,
                r.deep_view()[k].game_id,
            ),
{
    let ghost input = keys_of(cands.deep_view());
    let ghost cv = cands.deep_view();
    let mut out: Vec<CandidateScore> = Vec::new();
    let ghost n = cv.len();
    proof {
        lemma_rank_order_total();
        assert(keys_of(out.deep_view()) =~= input.take(0));
        assert(n == cands@.len());
        assert(cands.deep_view() == cv.skip(0));
    }
    let mut rest = cands;
    let ghost mut i: int = 0;
    while rest.len() > 0
        invariant
            input == keys_of(cv),
            n == cv.len(),
            total_ordering(rank_order()),
            0 <= i <= n,
            i + rest@.len() == n,
            rest.deep_view() == cv.skip(i),
            sorted_by(keys_of(out.deep_view()), rank_order()),
            keys_of(out.deep_view()).to_multiset() == input.take(i).to_multiset(),
            forall|k: int|
                0 <= k < out@.len() ==> #[trigger] out.deep_view()[k] == candidate_view(
                    evs,
                    out.deep_view()[k].game_id,
                ),
            forall|k: int|
                0 <= k < cv.len() ==> #[trigger] cv[k] == candidate_view(evs, cv[k].game_id),
        decreases rest@.len(),
    {
        let ghost rv = rest.deep_view();
        let x = rest.remove(0);
        proof {
            assert(rest.deep_view() =~= rv.drop_first());
            assert(rv[0] == cv[i]);
            assert(rest.deep_view() =~= cv.skip(i + 1));
        }
        let ghost xk = (x.score as int, x.game_id@);
        let mut j: usize = 0;
        while j < out.len()
            invariant
                j <= out@.len(),
                xk == (x.score as int, x.game_id@),
                forall|k: int| 0 <= k < j ==> rank_le(#[trigger] keys_of(out.deep_view())[k], xk),
            ensures
                j <= out@.len(),
                forall|k: int| 0 <= k < j ==> rank_le(#[trigger] keys_of(out.deep_view())[k], xk),
                j < out@.len() ==> !rank_le(keys_of(out.deep_view())[j as int], xk),
            decreases out@.len() - j,
        {
            if !rank_le_exec(&out[j], &x) {
                break;
            }
            j += 1;
        }
        let ghost before = out.deep_view();
        let ghost bk = keys_of(before);
        proof {
            if j < bk.len() {
                let le = rank_order();
                assert(le(bk[j as int], xk) || le(xk, bk[j as int]));
            }
        }
        out.insert(j, x);
        proof {
            let le = rank_order();
            let now = keys_of(out.deep_view());
            assert(out.deep_view() =~= before.insert(j as int, x.deep_view()));
            assert(now =~= bk.insert(j as int, xk));
            assert forall|a: int, b: int| 0 <= a < b < now.len() implies #[trigger] le(
                now[a],
                now[b],
            ) by {
                if b < j {
                    assert(le(bk[a], bk[b]));
                } else if a < j && b == j {
                } else if a < j && b > j {
                    assert(le(bk[a], xk));
                    assert(le(xk, bk[j as int]));
                    if b - 1 > j {
                        assert(le(bk[j as int], bk[b - 1]));
                    }
                } else if a == j {
                    assert(le(xk, bk[j as int]));
                    if b - 1 > j {
                        assert(le(bk[j as int], bk[b - 1]));
                    }
                } else {
                    assert(le(bk[a - 1], bk[b - 1]));
                }
            }
            assert(input[i] == xk);
            crate::strs::multiset_insert_step(bk, j as int, xk, input, i);
            assert forall|k: int| 0 <= k < out@.len() implies #[trigger] out.deep_view()[k]
                == candidate_view(evs, out.deep_view()[k].game_id) by {
                if k < j {
                    assert(out.deep_view()[k] == before[k]);
                } else if k == j {
                    assert(out.deep_view()[k] == cv[i]);
                } else {
                    assert(out.deep_view()[k] == before[k - 1]);
                }
            }
        }
        proof {
            i = i + 1;
        }
    }
    proof {
        assert(input.take(n as int) == input);
        input.lemma_sort_by_ensures(rank_order());
        lemma_sorted_unique(keys_of(out.deep_view()), input.sort_by(rank_order()), rank_order());
    }
    out
}

// ---------------------------------------------------------------------------
// tracks and decision

/// The tracks of the games that have one, in order.
pub open spec fn present_tracks(index: AssetIndex, games: Seq<Seq<char>>) -> Seq<Seq<char>>
    decreases games.len(),
{
    if games.len() == 0 {
        Seq::<Seq<char>>::empty()
    } else {
        let rest = present_tracks(index, games.drop_last());
        match index.track_of(games.last()) {
            Some(t) => rest.push(t),
            None => rest,
        }
    }
}

/// The distinct tracks of the games, in `str` order.
pub open spec fn track_candidates_of(index: AssetIndex, games: Seq<Seq<char>>) -> Seq<Seq<char>> {
    present_tracks(index, games).remove_duplicates(Seq::<Seq<char>>::empty()).sort_by(str_order())
}

/// The distinct tracks of the candidate games, sorted.
pub fn unique_tracks(assets: &AssetIndex, candidates: &Vec<String>) -> (r: Vec<String>)
    ensures
        r.deep_view() == track_candidates_of(*assets, candidates.deep_view()),
{
    let ghost gs = candidates.deep_view();
    let mut present: Vec<String> = Vec::new();
    let mut i: usize = 0;
    while i < candidates.len()
        invariant
            gs == candidates.deep_view(),
            i <= gs.len(),
            present.deep_view() == present_tracks(*assets, gs.take(i as int)),
        decreases gs.len() - i,
    {
        proof {
            assert(gs.take(i + 1).drop_last() == gs.take(i as int));
            assert(gs.take(i + 1).last() == gs[i as int]);
        }
        match assets.track_for_game(candidates[i].as_str()) {
            Some(t) => {
                let ghost before = present.deep_view();
                present.push(t);
                proof {
                    assert(present.deep_view() =~= before.push(t@));
                }
            },
            None => {},
        }
        i += 1;
    }
    proof {
        assert(gs.take(gs.len() as int) == gs);
    }
    let distinct = dedup_strings(&present);
    sort_strings(distinct)
}

/// Whether some evidence comes from `source`.
pub open spec fn has_source(evs: Seq<EvidenceV>, source: Seq<char>) -> bool {
    exists|i: int| 0 <= i < evs.len() && #[trigger] evs[i].source == source
}

fn has_source_exec(evs: &Vec<MatchEvidence>, source: &str) -> (r: bool)
    ensures
        r == has_source(evs.deep_view(), source@),
{
    let mut i: usize = 0;
    while i < evs.len()
        invariant
            i <= evs@.len(),
            forall|k: int| 0 <= k < i ==> evs.deep_view()[k].source != source@,
        decreases evs@.len() - i,
    {
        if str_eq(evs[i].source.as_str(), source) {
            proof {
                assert(evs.deep_view()[i as int].source == source@);
            }
            return true;
        }
        i += 1;
    }
    false
}

/// What the resolution decides.
pub struct DecisionV {
    pub method: Seq<char>,
    pub game: Option<Seq<char>>,
    pub track: Option<Seq<char>>,
    /// In hundredths.
    pub confidence: int,
    pub scope: Seq<char>,
    pub reason: Option<Seq<char>>,
}

/// The decision for an item of source layer `layer` with evidence `evs`,
/// first rule that applies:
/// an official account of the top candidate; an official URL seed of it;
/// its standard name as the only candidate; a score of `0.86` with no rival
/// within `0.10`; a single candidate of `0.72`; an official or media item
/// with a score of `0.68` and no rival within `0.15`; (for the track only)
/// one track among the candidates and a score of `0.55`; else unresolved.
pub open spec fn decision_of(index: AssetIndex, evs: Seq<EvidenceV>, layer: Seq<char>) -> DecisionV {
    let ranked = ranked_keys(evs);
    if ranked.len() == 0 {
        DecisionV {
            method: "unresolved"@,
            game: None,
            track: None,
            confidence: 0,
            scope: "unresolved"@,
            reason: Some("no_candidate"@),
        }
    } else {
        let top = ranked[0].0;
        let g = ranked[0].1;
        let second = if ranked.len() > 1 {
            ranked[1].0
        } else {
            0
        };
        let gap = top - second;
        let top_evs = evidence_for(evs, g);
        let tt = index.track_of(g);
        let tracks = track_candidates_of(index, ranked_games(evs));
        if has_source(top_evs, "official_account"@) {
            DecisionV {
                method: "official_account_match"@,
                game: Some(g),
                track: tt,
                confidence: 99,
                scope: "game"@,
                reason: None,
            }
        } else if has_source(top_evs, "official_url_seed"@) {
            DecisionV {
                method: "official_url_seed_match"@,
                game: Some(g),
                track: tt,
                confidence: 98,
                scope: "game"@,
                reason: None,
            }
        } else if ranked.len() == 1 && has_source(top_evs, "standard_name"@) {
            DecisionV {
                method: "standard_name_match"@,
                game: Some(g),
                track: tt,
                confidence: hundredths(max_units(top, SCORE_090 as int)),
                scope: "game"@,
                reason: None,
            }
        } else if top >= SCORE_086 && (ranked.len() == 1 || gap >= SCORE_010) {
            DecisionV {
                method: "alias_match"@,
                game: Some(g),
                track: tt,
                confidence: hundredths(top),
                scope: "game"@,
                reason: None,
            }
        } else if ranked.len() == 1 && top >= SCORE_072 {
            DecisionV {
                method: "weak_alias_match"@,
                game: Some(g),
                track: tt,
                confidence: hundredths(top),
                scope: "game"@,
                reason: None,
            }
        } else if (layer == "official"@ || layer == "media"@) && top >= SCORE_068 && gap
            >= SCORE_015 {
            DecisionV {
                method: "context_resolution"@,
                game: Some(g),
                track: tt,
                confidence: hundredths(top),
                scope: "game"@,
                reason: None,
            }
        } else if tracks.len() == 1 && top >= SCORE_055 {
            DecisionV {
                method: "track_fallback"@,
                game: None,
                track: Some(tracks[0]),
                confidence: hundredths(top),
                scope: "track"@,
                reason: None,
            }
        } else {
            DecisionV {
                method: "unresolved"@,
                game: None,
                track: None,
                confidence: hundredths(top),
                scope: "unresolved"@,
                reason: Some("ambiguous_candidate"@),
            }
        }
    }
}

/// The gap between the top two candidates (the top one alone: its score),
/// in hundredths; 0 without candidates.
pub open spec fn gap_of(evs: Seq<EvidenceV>) -> int {
    let ranked = ranked_keys(evs);
    if ranked.len() == 0 {
        0
    } else if ranked.len() == 1 {
        hundredths(ranked[0].0)
    } else {
        hundredths(ranked[0].0 - ranked[1].0)
    }
}

/// The outcome of entity resolution for one item.
pub struct ResolutionOutcome {
    /// The candidate games, ranked.
    pub candidates: Vec<String>,
    /// The distinct tracks of the candidates, sorted.
    pub track_candidates: Vec<String>,
    /// The ranked candidates with scores and evidence.
    pub scored: Vec<CandidateScore>,
    pub resolved_game_id: Option<String>,
    pub resolved_track_id: Option<String>,
    pub method: String,
    /// In hundredths.
    pub confidence: u32,
    /// The gap between the top two scores, in hundredths.
    pub gap: u32,
    pub scope: String,
    pub unresolved_reason: Option<String>,
}

impl ResolutionOutcome {
    /// The outcome is the resolution of an item with evidence `evs` and
    /// source layer `layer` against `index`.
    pub open spec fn resolves(&self, index: AssetIndex, evs: Seq<EvidenceV>, layer: Seq<char>) -> bool {
        let d = decision_of(index, evs, layer);
        &&& self.candidates.deep_view() == ranked_games(evs)
        &&& keys_of(self.scored.deep_view()) == ranked_keys(evs)
        &&& forall|k: int|
            0 <= k < self.scored@.len() ==> #[trigger] self.scored.deep_view()[k]
                == candidate_view(evs, self.scored.deep_view()[k].game_id)
        &&& self.track_candidates.deep_view() == track_candidates_of(index, ranked_games(evs))
        &&& self.resolved_game_id.deep_view() == d.game
        &&& self.resolved_track_id.deep_view() == d.track
        &&& self.method@ == d.method
        &&& self.confidence == d.confidence
        &&& self.gap == gap_of(evs)
        &&& self.scope@ == d.scope
        &&& self.unresolved_reason.deep_view() == d.reason
    }
}

fn some_owned(s: &str) -> (r: Option<String>)
    ensures
        r.deep_view() == Some(s@),
{
    Some(owned(s))
}

/// Resolves an item with normalized author, URL, title and text and the
/// given source layer.
pub fn resolve_item(
    index: &AssetIndex,
    author: &str,
    url: &str,
    title: &str,
    text: &str,
    layer: &str,
) -> (r: ResolutionOutcome)
    ensures
        r.resolves(*index, evidence_of(*index, author@, url@, title@, text@), layer@),
{
    let evs = collect_evidence(index, author, url, title, text);
    let ghost ev = evs.deep_view();
    proof {
        lemma_evidence_scores(*index, author@, url@, title@, text@);
    }
    let grouped = group_candidates(&evs);
    let ghost gv = grouped.deep_view();
    proof {
        assert forall|k: int| 0 <= k < grouped@.len() implies #[trigger] grouped.deep_view()[k]
            == candidate_view(ev, grouped.deep_view()[k].game_id) by {
            let dg = distinct_games(evs.deep_view());
            assert(gv.len() == dg.len());
            assert(gv[k] == candidate_view(evs.deep_view(), dg[k]));
        }
        assert(keys_of(gv) =~= distinct_games(ev).map_values(|g: Seq<char>| key_of(ev, g)));
    }
    let scored = rank_candidates(grouped, Ghost(ev));
    let ghost ks = keys_of(scored.deep_view());
    proof {
        lemma_rank_order_total();
        distinct_games(ev).map_values(|g: Seq<char>| key_of(ev, g)).lemma_sort_by_ensures(
            rank_order(),
        );
        assert(ks == ranked_keys(ev));
    }
    let mut candidates: Vec<String> = Vec::new();
    let mut i: usize = 0;
    while i < scored.len()
        invariant
            ks == keys_of(scored.deep_view()),
            i <= scored@.len(),
            candidates.deep_view() == ks.take(i as int).map_values(|k: (int, Seq<char>)| k.1),
        decreases scored@.len() - i,
    {
        let ghost before = candidates.deep_view();
        candidates.push(scored[i].game_id.clone());
        proof {
            assert(candidates.deep_view() =~= before.push(scored@[i as int].game_id@));
            assert(ks[i as int].1 == scored@[i as int].game_id@);
            assert(ks.take(i + 1) =~= ks.take(i as int).push(ks[i as int]));
            assert(candidates.deep_view() =~= ks.take(i + 1).map_values(
                |k: (int, Seq<char>)| k.1,
            ));
        }
        i += 1;
    }
    proof {
        assert(ks.take(ks.len() as int) == ks);
    }
    let tracks = unique_tracks(index, &candidates);
    let d = decide(index, &scored, &tracks, layer, Ghost(ev));
    ResolutionOutcome {
        candidates,
        track_candidates: tracks,
        scored,
        resolved_game_id: d.resolved_game_id,
        resolved_track_id: d.resolved_track_id,
        method: d.method,
        confidence: d.confidence,
        gap: d.gap,
        scope: d.scope,
        unresolved_reason: d.unresolved_reason,
    }
}

/// The decided part of a resolution.
struct Decision {
    resolved_game_id: Option<String>,
    resolved_track_id: Option<String>,
    method: String,
    confidence: u32,
    gap: u32,
    scope: String,
    unresolved_reason: Option<String>,
}

impl Decision {
    spec fn is(&self, d: DecisionV, gap: int) -> bool {
        &&& self.resolved_game_id.deep_view() == d.game
        &&& self.resolved_track_id.deep_view() == d.track
        &&& self.method@ == d.method
        &&& self.confidence == d.confidence
        &&& self.gap == gap
        &&& self.scope@ == d.scope
        &&& self.unresolved_reason.deep_view() == d.reason
    }
}

fn decided(
    game: Option<String>,
    track: Option<String>,
    method: &str,
    confidence: u32,
    gap: u32,
    scope: &str,
) -> (r: Decision)
    ensures
        r.resolved_game_id == game,
        r.resolved_track_id == track,
        r.method@ == method@,
        r.confidence == confidence,
        r.gap == gap,
        r.scope@ == scope@,
        r.unresolved_reason is None,
{
    Decision {
        resolved_game_id: game,
        resolved_track_id: track,
        method: owned(method),
        confidence,
        gap,
        scope: owned(scope),
        unresolved_reason: None,
    }
}

#[verifier::rlimit(40)]
fn decide(
    index: &AssetIndex,
    scored: &Vec<CandidateScore>,
    tracks: &Vec<String>,
    layer: &str,
    Ghost(ev): Ghost<Seq<EvidenceV>>,
) -> (d: Decision)
    requires
        keys_of(scored.deep_view()) == ranked_keys(ev),
        forall|k: int|
            0 <= k < scored@.len() ==> #[trigger] scored.deep_view()[k] == candidate_view(
                ev,
                scored.deep_view()[k].game_id,
            ),
        tracks.deep_view() == track_candidates_of(*index, ranked_games(ev)),
        sorted_by(ranked_keys(ev), rank_order()),
    ensures
        d.is(decision_of(*index, ev, layer@), gap_of(ev)),
{
    let ghost ks = keys_of(scored.deep_view());
    let n = scored.len();
    if n == 0 {
        return Decision {
            resolved_game_id: None,
            resolved_track_id: None,
            method: owned("unresolved"),
            confidence: 0,
            gap: 0,
            scope: owned("unresolved"),
            unresolved_reason: some_owned("no_candidate"),
        };
    }
    let top = scored[0].score;
    let g = &scored[0].game_id;
    let second = if n > 1 {
        scored[1].score
    } else {
        0
    };
    proof {
        let le = rank_order();
        assert(ks[0] == (top as int, g@));
        if n > 1 {
            assert(ks[1] == (second as int, scored@[1].game_id@));
            assert(le(ks[0], ks[1]));
        }
        assert(scored.deep_view()[0] == candidate_view(ev, g@));
        assert(ranked_games(ev)[0] == g@);
    }
    let gap_units = top - second;
    let gap = score_hundredths(gap_units);
    let tt = index.track_for_game(g.as_str());
    let top_evs = &scored[0].evidences;
    if has_source_exec(top_evs, "official_account") {
        decided(Some(g.clone()), tt, "official_account_match", 99, gap, "game")
    } else if has_source_exec(top_evs, "official_url_seed") {
        decided(Some(g.clone()), tt, "official_url_seed_match", 98, gap, "game")
    } else if n == 1 && has_source_exec(top_evs, "standard_name") {
        let best = if top >= SCORE_090 {
            top
        } else {
            SCORE_090
        };
        decided(Some(g.clone()), tt, "standard_name_match", score_hundredths(best), gap, "game")
    } else if top >= SCORE_086 && (n == 1 || gap_units >= SCORE_010) {
        decided(Some(g.clone()), tt, "alias_match", score_hundredths(top), gap, "game")
    } else if n == 1 && top >= SCORE_072 {
        decided(Some(g.clone()), tt, "weak_alias_match", score_hundredths(top), gap, "game")
    } else if (str_eq(layer, "official") || str_eq(layer, "media")) && top >= SCORE_068
        && gap_units >= SCORE_015 {
        decided(Some(g.clone()), tt, "context_resolution", score_hundredths(top), gap, "game")
    } else if tracks.len() == 1 && top >= SCORE_055 {
        let t = tracks[0].clone();
        decided(None, Some(t), "track_fallback", score_hundredths(top), gap, "track")
    } else {
        Decision {
            resolved_game_id: None,
            resolved_track_id: None,
            method: owned("unresolved"),
            confidence: score_hundredths(top),
            gap,
            scope: owned("unresolved"),
            unresolved_reason: some_owned("ambiguous_candidate"),
        }
    }
}
// ---------------------------------------------------------------------------
// laws

/// The scope of a resolution agrees with what it resolved: a game-level
/// scope has a game, a track-level scope a track and no game, and exactly
/// the unresolved scope has a reason (no candidate at all giving
/// `no_candidate` with confidence 0).
pub proof fn lemma_scope_agrees(index: AssetIndex, evs: Seq<EvidenceV>, layer: Seq<char>)
    ensures
        ({
            let d = decision_of(index, evs, layer);
            &&& (d.scope == "game"@ <==> d.game is Some)
            &&& (d.scope == "track"@ <==> (d.game is None && d.track is Some))
            &&& (d.scope == "unresolved"@ <==> d.reason is Some)
            &&& (d.scope == "unresolved"@ <==> d.method == "unresolved"@)
            &&& (ranked_keys(evs).len() == 0 ==> d.reason == Some("no_candidate"@)
                && d.confidence == 0)
        }),
{
    reveal_strlit("game");
    reveal_strlit("track");
    reveal_strlit("unresolved");
    reveal_strlit("official_account_match");
    reveal_strlit("official_url_seed_match");
    reveal_strlit("standard_name_match");
    reveal_strlit("alias_match");
    reveal_strlit("weak_alias_match");
    reveal_strlit("context_resolution");
    reveal_strlit("track_fallback");
    assert("game"@[0] != "track"@[0]);
    assert("game"@[0] != "unresolved"@[0]);
    assert("track"@.len() != "unresolved"@.len());
}

/// A resolved game is the top-ranked candidate, and a resolved track is
/// that game's track or the one track of all candidates.
pub proof fn lemma_resolved_is_top(index: AssetIndex, evs: Seq<EvidenceV>, layer: Seq<char>)
    ensures
        ({
            let d = decision_of(index, evs, layer);
            &&& d.game matches Some(g) ==> ranked_games(evs).len() > 0 && ranked_games(evs)[0]
                == g && d.track == index.track_of(g)
            &&& (d.game is None && d.track is Some) ==> track_candidates_of(
                index,
                ranked_games(evs),
            ).len() == 1 && d.track == Some(
                track_candidates_of(index, ranked_games(evs))[0],
            )
        }),
{
}

/// No candidate scores above `0.99`.
pub proof fn lemma_candidate_score_bounded(evs: Seq<EvidenceV>)
    ensures
        candidate_score(evs) <= SCORE_099,
{
}

proof fn lemma_round_keeps_floor(x: int)
    requires
        SCORE_099 <= x < 0x800000000000000,
    ensures
        crate::scores::round_even(x, crate::scores::ulp_at(x)) >= SCORE_099,
{
    let u = crate::scores::ulp_at(x);
    let q = x / u;
    vstd::arithmetic::div_mod::lemma_fundamental_div_mod(x, u);
    if x < 0x400000000000000 {
        assert(u == 32);
        let k: int = 8917127262193582;
        assert(k * 32 == SCORE_099);
        assert(q >= k) by (nonlinear_arith)
            requires
                x == 32 * q + x % 32,
                0 <= x % 32 < 32,
                x >= k * 32,
        ;
        assert(q * 32 >= k * 32) by (nonlinear_arith)
            requires
                q >= k,
        ;
        assert((q + 1) * 32 >= k * 32) by (nonlinear_arith)
            requires
                q >= k,
        ;
    } else {
        assert(u == 64);
        let k: int = 0x10000000000000;
        assert(q >= k) by (nonlinear_arith)
            requires
                x == 64 * q + x % 64,
                0 <= x % 64 < 64,
                x >= k * 64,
        ;
        assert(q * 64 >= k * 64) by (nonlinear_arith)
            requires
                q >= k,
        ;
        assert((q + 1) * 64 >= k * 64) by (nonlinear_arith)
            requires
                q >= k,
        ;
    }
}

proof fn lemma_bonus_bounds(count: int)
    ensures
        0 <= bonus_units(count) <= SCORE_012,
{
    if 1 < count <= 5 {
        let p = (count - 1) * (SCORE_003 as int);
        assert((count - 1) * 8646911284551352int >= 0) by (nonlinear_arith)
            requires
                count > 1,
        ;
        lemma_round_nonneg(p);
    }
}

proof fn lemma_top_score_at_least(evs: Seq<EvidenceV>, i: int)
    requires
        0 <= i < evs.len(),
    ensures
        top_score(evs) >= evs[i].score,
    decreases evs.len(),
{
    if i < evs.len() - 1 {
        lemma_top_score_at_least(evs.drop_last(), i);
        assert(evs.drop_last()[i] == evs[i]);
    }
}

proof fn lemma_top_score_at_most(evs: Seq<EvidenceV>)
    requires
        scores_bounded(evs),
    ensures
        top_score(evs) <= SCORE_099,
    decreases evs.len(),
{
    if evs.len() > 0 {
        assert(scores_bounded(evs.drop_last())) by {
            assert forall|i: int| 0 <= i < evs.drop_last().len() implies 0
                <= #[trigger] evs.drop_last()[i].score <= SCORE_099 by {
                assert(evs.drop_last()[i] == evs[i]);
            }
        }
        lemma_top_score_at_most(evs.drop_last());
        assert(evs.last() == evs[evs.len() - 1]);
    }
}

proof fn lemma_evidence_for_keeps(evs: Seq<EvidenceV>, g: Seq<char>, i: int)
    requires
        0 <= i < evs.len(),
        evs[i].game_id == g,
    ensures
        exists|j: int|
            0 <= j < evidence_for(evs, g).len() && #[trigger] evidence_for(evs, g)[j] == evs[i],
    decreases evs.len(),
{
    if i < evs.len() - 1 {
        lemma_evidence_for_keeps(evs.drop_last(), g, i);
        let prev = evidence_for(evs.drop_last(), g);
        let j = choose|j: int| 0 <= j < prev.len() && #[trigger] prev[j] == evs.drop_last()[i];
        assert(evs.drop_last()[i] == evs[i]);
        if evs.last().game_id == g {
            assert(evidence_for(evs, g)[j] == prev[j]);
        }
        assert(0 <= j < evidence_for(evs, g).len() && evidence_for(evs, g)[j] == evs[i]);
    } else {
        let prev = evidence_for(evs.drop_last(), g);
        assert(evs.last() == evs[i]);
        let k = prev.len() as int;
        assert(evidence_for(evs, g)[k] == evs[i]);
        assert(0 <= k < evidence_for(evs, g).len() && evidence_for(evs, g)[k] == evs[i]);
    }
}

/// An official account is the strongest evidence: when the author is an
/// official account of game `g`, `g` is a candidate and scores `0.99`, the
/// most that any candidate scores.
pub proof fn lemma_official_account_scores_most(
    index: AssetIndex,
    author: Seq<char>,
    url: Seq<char>,
    title: Seq<char>,
    text: Seq<char>,
)
    requires
        index.account_game(author) is Some,
    ensures
        ({
            let evs = evidence_of(index, author, url, title, text);
            let g = index.account_game(author).unwrap();
            &&& distinct_games(evs).contains(g)
            &&& candidate_score(evidence_for(evs, g)) == SCORE_099
            &&& forall|h: Seq<char>| #[trigger] candidate_score(evidence_for(evs, h)) <= SCORE_099
        }),
{
    let evs = evidence_of(index, author, url, title, text);
    let g = index.account_game(author).unwrap();
    lemma_evidence_scores(index, author, url, title, text);
    let acc = account_evidence(index.official_account_index.deep_view(), author);
    assert(acc.len() == 1);
    assert(evs[0] == acc[0]);
    assert(evs[0].game_id == g && evs[0].score == SCORE_099);
    lemma_evidence_for_keeps(evs, g, 0);
    let mine = evidence_for(evs, g);
    let j = choose|j: int| 0 <= j < mine.len() && #[trigger] mine[j] == evs[0];
    lemma_top_score_at_least(mine, j);
    lemma_evidence_for_bounded(evs, g);
    lemma_top_score_at_most(mine);
    lemma_bonus_bounds(mine.len() as int);
    lemma_round_keeps_floor(top_score(mine) + bonus_units(mine.len() as int));
    assert(game_ids(evs)[0] == g);
    game_ids(evs).lemma_remove_duplicates_properties(Seq::<Seq<char>>::empty());
    assert(game_ids(evs).contains(g));
}


/// How an item is resolved, from its ranked candidates (score, game), the
/// evidence for the top one, and the layer of its source:
/// - no candidate: unresolved, `no_candidate`, confidence 0;
/// - an official account of the top game: that game, confidence 0.99;
/// - else an official URL seed of it: that game, confidence 0.98;
/// - else a lone candidate named by its standard name: that game, with at
///   least 0.90;
/// - else a top score of at least 0.86, alone or 0.10 clear of the second:
///   that game, at its score;
/// - else a lone candidate scoring at least 0.72: that game, at its score;
/// - else an official or media source whose top score is at least 0.68 and
///   0.15 clear: that game, at its score;
/// - else candidates of one track with a top score of at least 0.55: that
///   track, no game;
/// - else unresolved, `ambiguous_candidate`.
/// A resolved game carries its own track.
pub proof fn lemma_resolution_rules(index: AssetIndex, evs: Seq<EvidenceV>, layer: Seq<char>)
    ensures
        ({
            let ranked = ranked_keys(evs);
            let d = decision_of(index, evs, layer);
            &&& ranked.len() == 0 ==> d.game is None && d.track is None && d.method == "unresolved"@
                && d.scope == "unresolved"@ && d.reason == Some("no_candidate"@) && d.confidence == 0
            &&& ranked.len() > 0 ==> {
                let top = ranked[0].0;
                let g = ranked[0].1;
                let gap = if ranked.len() > 1 {
                    top - ranked[1].0
                } else {
                    top
                };
                let ev = evidence_for(evs, g);
                let account = has_source(ev, "official_account"@);
                let seed = has_source(ev, "official_url_seed"@);
                let named = ranked.len() == 1 && has_source(ev, "standard_name"@);
                let strong = top >= SCORE_086 && (ranked.len() == 1 || gap >= SCORE_010);
                let weak = ranked.len() == 1 && top >= SCORE_072;
                let context = (layer == "official"@ || layer == "media"@) && top >= SCORE_068 && gap
                    >= SCORE_015;
                let tracks = track_candidates_of(index, ranked_games(evs));
                let fallback = tracks.len() == 1 && top >= SCORE_055;
                &&& account ==> d.method == "official_account_match"@ && d.game == Some(g)
                    && d.confidence == 99
                &&& !account && seed ==> d.method == "official_url_seed_match"@ && d.game == Some(g)
                    && d.confidence == 98
                &&& !account && !seed && named ==> d.method == "standard_name_match"@ && d.game
                    == Some(g) && d.confidence == hundredths(if top >= SCORE_090 {
                    top
                } else {
                    SCORE_090 as int
                })
                &&& !account && !seed && !named && strong ==> d.method == "alias_match"@ && d.game
                    == Some(g) && d.confidence == hundredths(top)
                &&& !account && !seed && !named && !strong && weak ==> d.method
                    == "weak_alias_match"@ && d.game == Some(g) && d.confidence == hundredths(top)
                &&& !account && !seed && !named && !strong && !weak && context ==> d.method
                    == "context_resolution"@ && d.game == Some(g) && d.confidence == hundredths(top)
                &&& !account && !seed && !named && !strong && !weak && !context && fallback
                    ==> d.method == "track_fallback"@ && d.game is None && d.track == Some(tracks[0])
                    && d.scope == "track"@ && d.confidence == hundredths(top) && d.reason is None
                &&& !account && !seed && !named && !strong && !weak && !context && !fallback
                    ==> d.method == "unresolved"@ && d.game is None && d.track is None && d.scope
                    == "unresolved"@ && d.reason == Some("ambiguous_candidate"@) && d.confidence
                    == hundredths(top)
                &&& d.game is Some ==> d.game == Some(g) && d.track == index.track_of(g) && d.scope
                    == "game"@ && d.reason is None
            }
        }),
{
}

/// A lone candidate game scoring at least 0.72 is always the resolved
/// game, at game scope and with its own track; when no official account,
/// official URL seed or standard name decides and it scores under 0.86,
/// it is resolved as a weak alias match at its score.
pub proof fn lemma_lone_candidate_resolves(index: AssetIndex, evs: Seq<EvidenceV>, layer: Seq<char>)
    requires
        ranked_keys(evs).len() == 1,
        ranked_keys(evs)[0].0 >= SCORE_072,
    ensures
        ({
            let g = ranked_keys(evs)[0].1;
            let top = ranked_keys(evs)[0].0;
            let ev = evidence_for(evs, g);
            let d = decision_of(index, evs, layer);
            &&& d.game == Some(g)
            &&& d.scope == "game"@
            &&& d.track == index.track_of(g)
            &&& (!has_source(ev, "official_account"@) && !has_source(ev, "official_url_seed"@)
                && !has_source(ev, "standard_name"@) && top < SCORE_086) ==> d.method
                == "weak_alias_match"@ && d.confidence == hundredths(top)
        }),
{
}


/// An alias found in the title scores 0.88 when strong, else 0.70; found
/// only in the text, 0.78 when strong, else 0.58 (before the bonus of a
/// standard name).
pub proof fn lemma_alias_score_table(strength: Seq<char>, source: Seq<char>)
    requires
        source != "standard_name"@,
    ensures
        strength == "strong"@ ==> alias_score(strength, source, true) == SCORE_088 && alias_score(
            strength,
            source,
            false,
        ) == SCORE_078,
        strength != "strong"@ ==> alias_score(strength, source, true) == SCORE_070 && alias_score(
            strength,
            source,
            false,
        ) == SCORE_058,
{
}

} // verus!
