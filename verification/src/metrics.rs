//! Run metrics: how many signals a run produced, how many are unresolved or
//! duplicates, how confident the resolutions are, and the signals per game,
//! per track and per platform.
use crate::pipeline::SourceSignal;
use crate::strs::{dedup_strings, str_eq};
use vstd::prelude::*;

verus! {

/// A key and how many signals have it.
pub struct CountEntry {
    pub key: String,
    pub count: usize,
}

impl DeepView for CountEntry {
    type V = (Seq<char>, int);

    open spec fn deep_view(&self) -> (Seq<char>, int) {
        (self.key@, self.count as int)
    }
}

/// The metrics of a run. The ratios of the report are these counts over
/// `processed_items`.
pub struct RunMetrics {
    pub processed_items: usize,
    pub unresolved_count: usize,
    pub duplicate_count: usize,
    /// Confidence of at least 0.85.
    pub high: usize,
    /// Confidence of at least 0.65, below 0.85.
    pub medium: usize,
    /// Confidence below 0.65.
    pub low: usize,
    pub signals_per_game: Vec<CountEntry>,
    pub signals_per_track: Vec<CountEntry>,
    pub platform_counts: Vec<CountEntry>,
}

/// How often `k` occurs in `ks`.
pub open spec fn occurrences(ks: Seq<Seq<char>>, k: Seq<char>) -> int
    decreases ks.len(),
{
    if ks.len() == 0 {
        0
    } else {
        occurrences(ks.drop_last(), k) + if ks.last() == k {
            1int
        } else {
            0int
        }
    }
}

/// Each distinct key, in order of first occurrence, with its count.
pub open spec fn tally_of(ks: Seq<Seq<char>>) -> Seq<(Seq<char>, int)> {
    ks.remove_duplicates(Seq::<Seq<char>>::empty()).map_values(
        |k: Seq<char>| (k, occurrences(ks, k)),
    )
}

/// How many of the confidences lie in `[lo, hi)`.
pub open spec fn in_band(cs: Seq<int>, lo: int, hi: int) -> int
    decreases cs.len(),
{
    if cs.len() == 0 {
        0
    } else {
        in_band(cs.drop_last(), lo, hi) + if lo <= cs.last() && cs.last() < hi {
            1int
        } else {
            0int
        }
    }
}

pub open spec fn states_of(sigs: Seq<SourceSignal>) -> Seq<Seq<char>> {
    sigs.map_values(|s: SourceSignal| s.state@)
}

pub open spec fn duplicate_types_of(sigs: Seq<SourceSignal>) -> Seq<Seq<char>> {
    sigs.map_values(|s: SourceSignal| s.duplicate_type@)
}

pub open spec fn confidences_of(sigs: Seq<SourceSignal>) -> Seq<int> {
    sigs.map_values(|s: SourceSignal| s.entity_resolution_confidence as int)
}

pub open spec fn platforms_of(sigs: Seq<SourceSignal>) -> Seq<Seq<char>> {
    sigs.map_values(|s: SourceSignal| s.platform@)
}

/// The resolved games of the signals that have one, in order.
pub open spec fn games_of(sigs: Seq<SourceSignal>) -> Seq<Seq<char>>
    decreases sigs.len(),
{
    if sigs.len() == 0 {
        Seq::<Seq<char>>::empty()
    } else {
        let rest = games_of(sigs.drop_last());
        match sigs.last().resolved_game_id {
            Some(g) => rest.push(g@),
            None => rest,
        }
    }
}

/// The tracks of the signals that have one, in order.
pub open spec fn tracks_of(sigs: Seq<SourceSignal>) -> Seq<Seq<char>>
    decreases sigs.len(),
{
    if sigs.len() == 0 {
        Seq::<Seq<char>>::empty()
    } else {
        let rest = tracks_of(sigs.drop_last());
        match sigs.last().track_id {
            Some(t) => rest.push(t@),
            None => rest,
        }
    }
}

impl RunMetrics {
    /// The metrics count the signals `sigs`.
    pub open spec fn summarizes(&self, sigs: Seq<SourceSignal>) -> bool {
        let cs = confidences_of(sigs);
        &&& self.processed_items == sigs.len()
        &&& self.unresolved_count == occurrences(states_of(sigs), "unresolved"@)
        &&& self.duplicate_count == sigs.len() - occurrences(duplicate_types_of(sigs), "none"@)
        &&& self.high == in_band(cs, 85, 0x1_0000_0000)
        &&& self.medium == in_band(cs, 65, 85)
        &&& self.low == in_band(cs, 0, 65)
        &&& self.signals_per_game.deep_view() == tally_of(games_of(sigs))
        &&& self.signals_per_track.deep_view() == tally_of(tracks_of(sigs))
        &&& self.platform_counts.deep_view() == tally_of(platforms_of(sigs))
    }
}

proof fn lemma_occurrences_bound(ks: Seq<Seq<char>>, k: Seq<char>)
    ensures
        0 <= occurrences(ks, k) <= ks.len(),
    decreases ks.len(),
{
    if ks.len() > 0 {
        lemma_occurrences_bound(ks.drop_last(), k);
    }
}

proof fn lemma_band_bound(cs: Seq<int>, lo: int, hi: int)
    ensures
        0 <= in_band(cs, lo, hi) <= cs.len(),
    decreases cs.len(),
{
    if cs.len() > 0 {
        lemma_band_bound(cs.drop_last(), lo, hi);
    }
}

fn count_of(keys: &Vec<String>, k: &str) -> (r: usize)
    ensures
        r == occurrences(keys.deep_view(), k@),
{
    let ghost kv = keys.deep_view();
    let mut n: usize = 0;
    let mut i: usize = 0;
    while i < keys.len()
        invariant
            kv == keys.deep_view(),
            i <= kv.len(),
            n == occurrences(kv.take(i as int), k@),
        decreases kv.len() - i,
    {
        proof {
            assert(kv.take(i + 1).drop_last() == kv.take(i as int));
            assert(kv.take(i + 1).last() == kv[i as int]);
            lemma_occurrences_bound(kv.take(i as int), k@);
        }
        if str_eq(keys[i].as_str(), k) {
            n += 1;
        }
        i += 1;
    }
    proof {
        assert(kv.take(kv.len() as int) == kv);
    }
    n
}

/// Counts each distinct key.
pub fn tally(keys: &Vec<String>) -> (r: Vec<CountEntry>)
    ensures
        r.deep_view() == tally_of(keys.deep_view()),
{
    let distinct = dedup_strings(keys);
    let ghost dv = distinct.deep_view();
    let mut out: Vec<CountEntry> = Vec::new();
    let mut i: usize = 0;
    while i < distinct.len()
        invariant
            dv == distinct.deep_view(),
            dv == keys.deep_view().remove_duplicates(Seq::<Seq<char>>::empty()),
            i <= dv.len(),
            out.deep_view() == dv.take(i as int).map_values(
                |k: Seq<char>| (k, occurrences(keys.deep_view(), k)),
            ),
        decreases dv.len() - i,
    {
        let c = count_of(keys, distinct[i].as_str());
        let e = CountEntry { key: distinct[i].clone(), count: c };
        let ghost before = out.deep_view();
        out.push(e);
        proof {
            assert(out.deep_view() =~= before.push(e.deep_view()));
            assert(out.deep_view() =~= dv.take(i + 1).map_values(
                |k: Seq<char>| (k, occurrences(keys.deep_view(), k)),
            ));
        }
        i += 1;
    }
    proof {
        assert(dv.take(dv.len() as int) == dv);
    }
    out
}

/// Counts the signals of a run.
pub fn build_metrics(signals: &Vec<SourceSignal>) -> (r: RunMetrics)
    ensures
        r.summarizes(signals@),
{
    let ghost sv = signals@;
    let mut states: Vec<String> = Vec::new();
    let mut dups: Vec<String> = Vec::new();
    let mut platforms: Vec<String> = Vec::new();
    let mut games: Vec<String> = Vec::new();
    let mut tracks: Vec<String> = Vec::new();
    let mut high: usize = 0;
    let mut medium: usize = 0;
    let mut low: usize = 0;
    let mut i: usize = 0;
    while i < signals.len()
        invariant
            sv == signals@,
            i <= sv.len(),
            states.deep_view() == states_of(sv.take(i as int)),
            dups.deep_view() == duplicate_types_of(sv.take(i as int)),
            platforms.deep_view() == platforms_of(sv.take(i as int)),
            games.deep_view() == games_of(sv.take(i as int)),
            tracks.deep_view() == tracks_of(sv.take(i as int)),
            high == in_band(confidences_of(sv.take(i as int)), 85, 0x1_0000_0000),
            medium == in_band(confidences_of(sv.take(i as int)), 65, 85),
            low == in_band(confidences_of(sv.take(i as int)), 0, 65),
        decreases sv.len() - i,
    {
        let s = &signals[i];
        let ghost pre = sv.take(i as int);
        let ghost post = sv.take(i + 1);
        proof {
            assert(post.drop_last() == pre);
            assert(post.last() == sv[i as int]);
            assert(confidences_of(post).drop_last() =~= confidences_of(pre));
            assert(confidences_of(post).last() == s.entity_resolution_confidence as int);
            lemma_band_bound(confidences_of(pre), 85, 0x1_0000_0000);
            lemma_band_bound(confidences_of(pre), 65, 85);
            lemma_band_bound(confidences_of(pre), 0, 65);
        }
        let c = s.entity_resolution_confidence;
        if c >= 85 {
            high += 1;
        } else if c >= 65 {
            medium += 1;
        } else {
            low += 1;
        }
        let ghost b0 = states.deep_view();
        let ghost b1 = dups.deep_view();
        let ghost b2 = platforms.deep_view();
        states.push(s.state.clone());
        dups.push(s.duplicate_type.clone());
        platforms.push(s.platform.clone());
        proof {
            assert(states.deep_view() =~= b0.push(s.state@));
            assert(dups.deep_view() =~= b1.push(s.duplicate_type@));
            assert(platforms.deep_view() =~= b2.push(s.platform@));
            assert(states_of(post) =~= states_of(pre).push(s.state@));
            assert(duplicate_types_of(post) =~= duplicate_types_of(pre).push(s.duplicate_type@));
            assert(platforms_of(post) =~= platforms_of(pre).push(s.platform@));
        }
        match &s.resolved_game_id {
            Some(g) => {
                let ghost b = games.deep_view();
                games.push(g.clone());
                proof {
                    assert(games.deep_view() =~= b.push(g@));
                }
            },
            None => {},
        }
        match &s.track_id {
            Some(t) => {
                let ghost b = tracks.deep_view();
                tracks.push(t.clone());
                proof {
                    assert(tracks.deep_view() =~= b.push(t@));
                }
            },
            None => {},
        }
        i += 1;
    }
    proof {
        assert(sv.take(sv.len() as int) == sv);
        lemma_occurrences_bound(dups.deep_view(), "none"@);
    }
    let unresolved_count = count_of(&states, "unresolved");
    let kept = count_of(&dups, "none");
    RunMetrics {
        processed_items: signals.len(),
        unresolved_count,
        duplicate_count: signals.len() - kept,
        high,
        medium,
        low,
        signals_per_game: tally(&games),
        signals_per_track: tally(&tracks),
        platform_counts: tally(&platforms),
    }
}

proof fn lemma_bands_partition(cs: Seq<int>)
    requires
        forall|i: int| 0 <= i < cs.len() ==> 0 <= #[trigger] cs[i] < 0x1_0000_0000,
    ensures
        in_band(cs, 85, 0x1_0000_0000) + in_band(cs, 65, 85) + in_band(cs, 0, 65) == cs.len(),
    decreases cs.len(),
{
    if cs.len() > 0 {
        let init = cs.drop_last();
        assert forall|i: int| 0 <= i < init.len() implies 0 <= #[trigger] init[i] < 0x1_0000_0000 by {
            assert(init[i] == cs[i]);
        }
        lemma_bands_partition(init);
        assert(cs.last() == cs[cs.len() - 1]);
    }
}

/// Every signal falls in exactly one confidence band.
pub proof fn lemma_bands_cover_signals(sigs: Seq<SourceSignal>)
    ensures
        in_band(confidences_of(sigs), 85, 0x1_0000_0000) + in_band(confidences_of(sigs), 65, 85)
            + in_band(confidences_of(sigs), 0, 65) == sigs.len(),
{
    let cs = confidences_of(sigs);
    assert forall|i: int| 0 <= i < cs.len() implies 0 <= #[trigger] cs[i] < 0x1_0000_0000 by {
        assert(cs[i] == sigs[i].entity_resolution_confidence as int);
    }
    lemma_bands_partition(cs);
}

} // verus!
