//! Duplicate folding. Items are folded in order: an item whose content keys
//! (URL and content fingerprints) were seen is a content near-duplicate of
//! the signal that introduced the key; else an item whose information key
//! was seen is an information duplicate; else it is canonical and introduces
//! its keys. Duplicates join the group of the key they matched.
use crate::assets::{lookup_last, lookup_last_exec, IndexPair};
use crate::models::{DedupeGroup, GroupV};
use crate::strs::{concat, contains_string, owned, str_eq};
use crate::text_utils::{fingerprint, fingerprint_of};
use vstd::prelude::*;

verus! {

/// The first of `keys` that `index` maps, with the signal it maps to.
pub open spec fn first_hit(index: Seq<(Seq<char>, Seq<char>)>, keys: Seq<Seq<char>>) -> Option<
    (Seq<char>, Seq<char>),
>
    decreases keys.len(),
{
    if keys.len() == 0 {
        None
    } else {
        match lookup_last(index, keys[0]) {
            Some(v) => Some((keys[0], v)),
            None => first_hit(index, keys.drop_first()),
        }
    }
}

/// The position of the first group with `id`, or -1.
pub open spec fn group_index(groups: Seq<GroupV>, id: Seq<char>) -> int
    decreases groups.len(),
{
    if groups.len() == 0 {
        -1
    } else {
        let p = group_index(groups.drop_last(), id);
        if p >= 0 {
            p
        } else if groups.last().id == id {
            groups.len() - 1
        } else {
            -1
        }
    }
}

/// The group id of a dedupe key.
pub open spec fn group_id_of(key: Seq<char>) -> Seq<char> {
    "dup_"@ + fingerprint_of(seq![key], 16)
}

/// The folding state: content key to signal, information key to signal,
/// canonical signal to source, and the groups in order of creation.
pub struct DedupeStateV {
    pub content: Seq<(Seq<char>, Seq<char>)>,
    pub info: Seq<(Seq<char>, Seq<char>)>,
    pub sources: Seq<(Seq<char>, Seq<char>)>,
    pub groups: Seq<GroupV>,
}

/// How one item was folded.
pub struct FoldV {
    pub duplicate_type: Seq<char>,
    pub canonical: Seq<char>,
    pub matched: Option<Seq<char>>,
    pub group_id: Seq<char>,
    pub rank: int,
}

/// What folding needs of an item.
pub struct FoldInputV {
    pub signal_id: Seq<char>,
    pub source_id: Seq<char>,
    pub content_keys: Seq<Seq<char>>,
    pub information_key: Seq<char>,
}

pub open spec fn keyed_to(keys: Seq<Seq<char>>, sid: Seq<char>) -> Seq<(Seq<char>, Seq<char>)> {
    keys.map_values(|k: Seq<char>| (k, sid))
}

/// A duplicate of signal `canon` joins the group of `group_key` (created
/// with the canonical signal and its source first when new), once.
pub open spec fn join_group(
    st: DedupeStateV,
    dtype: Seq<char>,
    canon: Seq<char>,
    matched: Option<Seq<char>>,
    group_key: Seq<char>,
    sid: Seq<char>,
    src: Seq<char>,
    run_id: Seq<char>,
) -> (DedupeStateV, FoldV) {
    let gid = group_id_of(group_key);
    let idx = group_index(st.groups, gid);
    let csrc = match lookup_last(st.sources, canon) {
        Some(s) => s,
        None => Seq::<char>::empty(),
    };
    let g0 = if idx >= 0 {
        st.groups[idx]
    } else {
        GroupV {
            id: gid,
            run_id,
            canonical: canon,
            duplicate_type: dtype,
            dedupe_key: group_key,
            members: seq![canon],
            sources: if csrc.len() == 0 {
                Seq::<Seq<char>>::empty()
            } else {
                seq![csrc]
            },
        }
    };
    let g1 = if g0.members.contains(sid) {
        g0
    } else {
        GroupV { members: g0.members.push(sid), sources: g0.sources.push(src), ..g0 }
    };
    let groups = if idx >= 0 {
        st.groups.update(idx, g1)
    } else {
        st.groups.push(g1)
    };
    (
        DedupeStateV { groups, ..st },
        FoldV {
            duplicate_type: dtype,
            canonical: canon,
            matched,
            group_id: gid,
            rank: ((g1.members.len() - 1) as i64) as int,
        },
    )
}

/// Folding one item.
pub open spec fn fold_step(st: DedupeStateV, x: FoldInputV, run_id: Seq<char>) -> (
    DedupeStateV,
    FoldV,
) {
    match first_hit(st.content, x.content_keys) {
        Some(hit) => join_group(
            st,
            "content_near_duplicate"@,
            hit.1,
            Some(hit.0),
            hit.0,
            x.signal_id,
            x.source_id,
            run_id,
        ),
        None => match lookup_last(st.info, x.information_key) {
            Some(canon) => join_group(
                st,
                "information_duplicate"@,
                canon,
                None,
                x.information_key,
                x.signal_id,
                x.source_id,
                run_id,
            ),
            None => (
                DedupeStateV {
                    content: st.content + keyed_to(x.content_keys, x.signal_id),
                    info: st.info.push((x.information_key, x.signal_id)),
                    sources: st.sources.push((x.signal_id, x.source_id)),
                    groups: st.groups,
                },
                FoldV {
                    duplicate_type: "none"@,
                    canonical: x.signal_id,
                    matched: None,
                    group_id: Seq::<char>::empty(),
                    rank: 0,
                },
            ),
        },
    }
}

pub open spec fn empty_state() -> DedupeStateV {
    DedupeStateV {
        content: Seq::empty(),
        info: Seq::empty(),
        sources: Seq::empty(),
        groups: Seq::empty(),
    }
}

/// Folding a run of items from the empty state: the final state and how
/// each item was folded.
pub open spec fn fold_run(xs: Seq<FoldInputV>, run_id: Seq<char>) -> (DedupeStateV, Seq<FoldV>)
    decreases xs.len(),
{
    if xs.len() == 0 {
        (empty_state(), Seq::empty())
    } else {
        let prev = fold_run(xs.drop_last(), run_id);
        let step = fold_step(prev.0, xs.last(), run_id);
        (step.0, prev.1.push(step.1))
    }
}

/// How an item was folded, executable.
pub struct Fold {
    pub duplicate_type: String,
    pub canonical_signal_id: String,
    pub matched_content_key: Option<String>,
    pub dup_group_id: String,
    pub dup_rank: i64,
}

impl Fold {
    pub open spec fn view_fold(&self) -> FoldV {
        FoldV {
            duplicate_type: self.duplicate_type@,
            canonical: self.canonical_signal_id@,
            matched: self.matched_content_key.deep_view(),
            group_id: self.dup_group_id@,
            rank: self.dup_rank as int,
        }
    }
}

/// The folding state.
pub struct DedupeState {
    pub content_index: Vec<IndexPair>,
    pub information_index: Vec<IndexPair>,
    pub canonical_sources: Vec<IndexPair>,
    pub groups: Vec<DedupeGroup>,
}

impl DedupeState {
    pub open spec fn view_state(&self) -> DedupeStateV {
        DedupeStateV {
            content: self.content_index.deep_view(),
            info: self.information_index.deep_view(),
            sources: self.canonical_sources.deep_view(),
            groups: self.groups.deep_view(),
        }
    }

    pub fn new() -> (r: DedupeState)
        ensures
            r.view_state() == empty_state(),
            r.groups@.len() == 0,
    {
        let r = DedupeState {
            content_index: Vec::new(),
            information_index: Vec::new(),
            canonical_sources: Vec::new(),
            groups: Vec::new(),
        };
        proof {
            assert(r.view_state().content =~= Seq::<(Seq<char>, Seq<char>)>::empty());
            assert(r.view_state().info =~= Seq::<(Seq<char>, Seq<char>)>::empty());
            assert(r.view_state().sources =~= Seq::<(Seq<char>, Seq<char>)>::empty());
            assert(r.view_state().groups =~= Seq::<GroupV>::empty());
        }
        r
    }
}

fn first_hit_exec(index: &Vec<IndexPair>, keys: &Vec<String>) -> (r: Option<(String, String)>)
    ensures
        r.deep_view() == first_hit(index.deep_view(), keys.deep_view()),
{
    let ghost kv = keys.deep_view();
    let ghost iv = index.deep_view();
    let mut i: usize = 0;
    proof {
        assert(kv.skip(0) == kv);
    }
    while i < keys.len()
        invariant
            kv == keys.deep_view(),
            iv == index.deep_view(),
            i <= kv.len(),
            first_hit(iv, kv) == first_hit(iv, kv.skip(i as int)),
        decreases kv.len() - i,
    {
        proof {
            assert(kv.skip(i as int)[0] == kv[i as int]);
            assert(kv.skip(i as int).drop_first() == kv.skip(i + 1));
        }
        match lookup_last_exec(index, keys[i].as_str()) {
            Some(v) => {
                return Some((keys[i].clone(), v));
            },
            None => {},
        }
        i += 1;
    }
    proof {
        assert(kv.skip(i as int).len() == 0);
    }
    None
}

fn group_position(groups: &Vec<DedupeGroup>, id: &str) -> (r: Option<usize>)
    ensures
        r matches Some(p) ==> group_index(groups.deep_view(), id@) == p as int && p < groups@.len(),
        r is None ==> group_index(groups.deep_view(), id@) == -1,
{
    let ghost gv = groups.deep_view();
    let mut i: usize = 0;
    while i < groups.len()
        invariant
            gv == groups.deep_view(),
            i <= gv.len(),
            group_index(gv.take(i as int), id@) == -1,
        decreases gv.len() - i,
    {
        proof {
            assert(gv.take(i + 1).drop_last() == gv.take(i as int));
            assert(gv.take(i + 1).last() == gv[i as int]);
        }
        if str_eq(groups[i].dup_group_id.as_str(), id) {
            proof {
                assert(group_index(gv.take(i + 1), id@) == i);
                lemma_group_index_prefix(gv, id@, i + 1);
            }
            return Some(i);
        }
        i += 1;
    }
    proof {
        assert(gv.take(gv.len() as int) == gv);
    }
    None
}

/// A group found in a prefix is found at the same place in the whole.
proof fn lemma_group_index_prefix(gs: Seq<GroupV>, id: Seq<char>, n: int)
    requires
        0 <= n <= gs.len(),
        group_index(gs.take(n), id) >= 0,
    ensures
        group_index(gs, id) == group_index(gs.take(n), id),
    decreases gs.len() - n,
{
    if n < gs.len() {
        assert(gs.take(n + 1).drop_last() == gs.take(n));
        lemma_group_index_prefix(gs, id, n + 1);
    } else {
        assert(gs.take(n) == gs);
    }
}

fn group_id_for(key: &str) -> (r: String)
    ensures
        r@ == group_id_of(key@),
{
    let parts: [&str; 1] = [key];
    proof {
        assert(parts.deep_view() =~= seq![key@]);
    }
    let fp = fingerprint(&parts, 16);
    concat("dup_", fp.as_str())
}

fn push_keyed(index: &mut Vec<IndexPair>, keys: &Vec<String>, sid: &str)
    ensures
        final(index).deep_view() == old(index).deep_view() + keyed_to(keys.deep_view(), sid@),
{
    let ghost start = index.deep_view();
    let ghost kv = keys.deep_view();
    let mut i: usize = 0;
    while i < keys.len()
        invariant
            kv == keys.deep_view(),
            i <= kv.len(),
            index.deep_view() == start + keyed_to(kv.take(i as int), sid@),
        decreases kv.len() - i,
    {
        let ghost before = index.deep_view();
        index.push(IndexPair { key: keys[i].clone(), value: owned(sid) });
        proof {
            assert(index.deep_view() =~= before.push((kv[i as int], sid@)));
            assert(kv.take(i + 1) =~= kv.take(i as int).push(kv[i as int]));
            assert(keyed_to(kv.take(i + 1), sid@) =~= keyed_to(kv.take(i as int), sid@).push(
                (kv[i as int], sid@),
            ));
        }
        i += 1;
    }
    proof {
        assert(kv.take(kv.len() as int) == kv);
    }
}

fn one_string(s: &str) -> (r: Vec<String>)
    ensures
        r.deep_view() == seq![s@],
{
    let mut v: Vec<String> = Vec::new();
    v.push(owned(s));
    proof {
        assert(v.deep_view() =~= seq![s@]);
    }
    v
}

impl DedupeState {
    #[verifier::rlimit(30)]
    fn join(
        &mut self,
        dtype: &str,
        canon: &str,
        matched: Option<String>,
        group_key: &str,
        sid: &str,
        src: &str,
        run_id: &str,
        now: &str,
    ) -> (r: Fold)
        requires
            old(self).groups@.len() < usize::MAX,
        ensures
            (final(self).view_state(), r.view_fold()) == join_group(
                old(self).view_state(),
                dtype@,
                canon@,
                matched.deep_view(),
                group_key@,
                sid@,
                src@,
                run_id@,
            ),
            final(self).groups@.len() <= old(self).groups@.len() + 1,
            forall|j: int|
                0 <= j < final(self).groups@.len() ==> #[trigger] final(self).groups@[j].created_at@
                    == now@ || (j < old(self).groups@.len() && final(self).groups@[j].created_at@
                    == old(self).groups@[j].created_at@),
    {
        let ghost st = self.view_state();
        let gid = group_id_for(group_key);
        let pos = group_position(&self.groups, gid.as_str());
        let mut g = match pos {
            Some(p) => self.groups.remove(p),
            None => {
                let csrc = match lookup_last_exec(&self.canonical_sources, canon) {
                    Some(s) => s,
                    None => String::new(),
                };
                let sources = if csrc.as_str().is_empty() {
                    Vec::new()
                } else {
                    one_string(csrc.as_str())
                };
                DedupeGroup {
                    dup_group_id: gid.clone(),
                    run_id: owned(run_id),
                    canonical_signal_id: owned(canon),
                    duplicate_type: owned(dtype),
                    dedupe_key: owned(group_key),
                    member_signal_ids: one_string(canon),
                    member_source_ids: sources,
                    created_at: owned(now),
                }
            },
        };
        let ghost g0 = g.deep_view();
        proof {
            if pos is Some {
                assert(g0 == st.groups[group_index(st.groups, gid@)]);
            } else {
                assert(g.member_source_ids.deep_view() =~= (if lookup_last(st.sources, canon@) is Some
                    && lookup_last(st.sources, canon@).unwrap().len() > 0 {
                    seq![lookup_last(st.sources, canon@).unwrap()]
                } else {
                    Seq::<Seq<char>>::empty()
                }));
            }
        }
        if !contains_string(&g.member_signal_ids, sid) {
            let ghost m0 = g.member_signal_ids.deep_view();
            let ghost s0 = g.member_source_ids.deep_view();
            g.member_signal_ids.push(owned(sid));
            g.member_source_ids.push(owned(src));
            proof {
                assert(g.member_signal_ids.deep_view() =~= m0.push(sid@));
                assert(g.member_source_ids.deep_view() =~= s0.push(src@));
            }
        }
        let n = g.member_signal_ids.len();
        proof {
            assert(n >= 1);
        }
        let rank = (n - 1) as i64;
        let ghost g1 = g.deep_view();
        match pos {
            Some(p) => {
                let ghost rest = self.groups.deep_view();
                self.groups.insert(p, g);
                proof {
                    assert(self.groups.deep_view() =~= rest.insert(p as int, g1));
                    assert(self.groups.deep_view() =~= st.groups.update(p as int, g1));
                }
            },
            None => {
                let ghost before = self.groups.deep_view();
                self.groups.push(g);
                proof {
                    assert(self.groups.deep_view() =~= before.push(g1));
                }
            },
        }
        Fold {
            duplicate_type: owned(dtype),
            canonical_signal_id: owned(canon),
            matched_content_key: matched,
            dup_group_id: gid,
            dup_rank: rank,
        }
    }

    /// Folds one item: its signal and source, content keys in order, and
    /// information key; `now` stamps a new group.
    pub fn fold(
        &mut self,
        sid: &str,
        src: &str,
        content_keys: &Vec<String>,
        information_key: &str,
        run_id: &str,
        now: &str,
    ) -> (r: Fold)
        requires
            old(self).groups@.len() < usize::MAX,
        ensures
            (final(self).view_state(), r.view_fold()) == fold_step(
                old(self).view_state(),
                FoldInputV {
                    signal_id: sid@,
                    source_id: src@,
                    content_keys: content_keys.deep_view(),
                    information_key: information_key@,
                },
                run_id@,
            ),
            final(self).groups@.len() <= old(self).groups@.len() + 1,
            forall|j: int|
                0 <= j < final(self).groups@.len() ==> #[trigger] final(self).groups@[j].created_at@
                    == now@ || (j < old(self).groups@.len() && final(self).groups@[j].created_at@
                    == old(self).groups@[j].created_at@),
    {
        match first_hit_exec(&self.content_index, content_keys) {
            Some((k, canon)) => {
                let matched = Some(k.clone());
                self.join(
                    "content_near_duplicate",
                    canon.as_str(),
                    matched,
                    k.as_str(),
                    sid,
                    src,
                    run_id,
                    now,
                )
            },
            None => match lookup_last_exec(&self.information_index, information_key) {
                Some(canon) => self.join(
                    "information_duplicate",
                    canon.as_str(),
                    None,
                    information_key,
                    sid,
                    src,
                    run_id,
                    now,
                ),
                None => {
                    push_keyed(&mut self.content_index, content_keys, sid);
                    let ghost i0 = self.information_index.deep_view();
                    self.information_index.push(
                        IndexPair { key: owned(information_key), value: owned(sid) },
                    );
                    let ghost s0 = self.canonical_sources.deep_view();
                    self.canonical_sources.push(IndexPair { key: owned(sid), value: owned(src) });
                    proof {
                        assert(self.information_index.deep_view() =~= i0.push(
                            (information_key@, sid@),
                        ));
                        assert(self.canonical_sources.deep_view() =~= s0.push((sid@, src@)));
                    }
                    Fold {
                        duplicate_type: owned("none"),
                        canonical_signal_id: owned(sid),
                        matched_content_key: None,
                        dup_group_id: String::new(),
                        dup_rank: 0,
                    }
                },
            },
        }
    }
}

// ---------------------------------------------------------------------------
// laws

proof fn lemma_lookup_member(pairs: Seq<(Seq<char>, Seq<char>)>, key: Seq<char>)
    ensures
        lookup_last(pairs, key) matches Some(v) ==> exists|i: int|
            0 <= i < pairs.len() && #[trigger] pairs[i] == (key, v),
    decreases pairs.len(),
{
    if pairs.len() > 0 {
        lemma_lookup_member(pairs.drop_last(), key);
        if pairs.last().0 != key {
            if lookup_last(pairs, key) is Some {
                let v = lookup_last(pairs, key).unwrap();
                let i = choose|i: int|
                    0 <= i < pairs.drop_last().len() && #[trigger] pairs.drop_last()[i] == (key, v);
                assert(pairs[i] == (key, v));
            }
        } else {
            assert(pairs[pairs.len() - 1] == pairs.last());
        }
    }
}

proof fn lemma_first_hit_member(index: Seq<(Seq<char>, Seq<char>)>, keys: Seq<Seq<char>>)
    ensures
        first_hit(index, keys) matches Some(h) ==> lookup_last(index, h.0) == Some(h.1),
    decreases keys.len(),
{
    if keys.len() > 0 && lookup_last(index, keys[0]) is None {
        lemma_first_hit_member(index, keys.drop_first());
    }
}

/// Every signal an index points to is an item folded as canonical.
pub open spec fn points_to_canonical(
    pairs: Seq<(Seq<char>, Seq<char>)>,
    xs: Seq<FoldInputV>,
    folds: Seq<FoldV>,
) -> bool {
    forall|i: int|
        0 <= i < pairs.len() ==> exists|j: int|
            0 <= j < xs.len() && j < folds.len() && folds[j].duplicate_type == "none"@
                && #[trigger] xs[j].signal_id == #[trigger] pairs[i].1
}

/// What folding a run keeps true.
pub open spec fn run_invariant(xs: Seq<FoldInputV>, st: DedupeStateV, folds: Seq<FoldV>) -> bool {
    &&& folds.len() == xs.len()
    &&& points_to_canonical(st.content, xs, folds)
    &&& points_to_canonical(st.info, xs, folds)
    &&& forall|i: int|
        0 <= i < folds.len() ==> (#[trigger] folds[i].duplicate_type == "none"@ ==> folds[i].canonical
            == xs[i].signal_id && folds[i].rank == 0 && folds[i].matched is None)
    &&& forall|i: int|
        0 <= i < folds.len() && #[trigger] folds[i].duplicate_type != "none"@ ==> exists|j: int|
            0 <= j < i && folds[j].duplicate_type == "none"@ && #[trigger] xs[j].signal_id
                == folds[i].canonical
}

proof fn lemma_run_invariant(xs: Seq<FoldInputV>, run_id: Seq<char>)
    ensures
        run_invariant(xs, fold_run(xs, run_id).0, fold_run(xs, run_id).1),
    decreases xs.len(),
{
    reveal_strlit("none");
    reveal_strlit("content_near_duplicate");
    reveal_strlit("information_duplicate");
    assert("content_near_duplicate"@[0] != "none"@[0]);
    assert("information_duplicate"@[0] != "none"@[0]);
    if xs.len() > 0 {
        let init = xs.drop_last();
        lemma_run_invariant(init, run_id);
        let prev = fold_run(init, run_id);
        let st = prev.0;
        let x = xs.last();
        let n = init.len() as int;
        let step = fold_step(st, x, run_id);
        let folds = prev.1.push(step.1);
        assert forall|j: int| 0 <= j < n implies #[trigger] xs[j] == init[j] by {}
        assert(xs[n] == x);
        assert forall|j: int| 0 <= j < n implies #[trigger] folds[j] == prev.1[j] by {}
        assert(folds[n] == step.1);
        // earlier witnesses stay witnesses
        assert forall|pairs: Seq<(Seq<char>, Seq<char>)>| points_to_canonical(
            pairs,
            init,
            prev.1,
        ) implies points_to_canonical(pairs, xs, folds) by {
            assert forall|i: int| 0 <= i < pairs.len() implies exists|j: int|
                0 <= j < xs.len() && j < folds.len() && folds[j].duplicate_type == "none"@
                    && #[trigger] xs[j].signal_id == #[trigger] pairs[i].1 by {
                let j = choose|j: int|
                    0 <= j < init.len() && j < prev.1.len() && prev.1[j].duplicate_type
                        == "none"@ && #[trigger] init[j].signal_id == pairs[i].1;
                assert(xs[j] == init[j]);
                assert(folds[j] == prev.1[j]);
            }
        }
        lemma_first_hit_member(st.content, x.content_keys);
        match first_hit(st.content, x.content_keys) {
            Some(hit) => {
                lemma_lookup_member(st.content, hit.0);
                let i = choose|i: int| 0 <= i < st.content.len() && #[trigger] st.content[i] == (
                    hit.0,
                    hit.1,
                );
                let j = choose|j: int|
                    0 <= j < init.len() && j < prev.1.len() && prev.1[j].duplicate_type
                        == "none"@ && #[trigger] init[j].signal_id == #[trigger] st.content[i].1;
                assert(xs[j] == init[j]);
                assert(folds[j] == prev.1[j]);
                assert(step.1.canonical == hit.1);
            },
            None => match lookup_last(st.info, x.information_key) {
                Some(canon) => {
                    lemma_lookup_member(st.info, x.information_key);
                    let i = choose|i: int| 0 <= i < st.info.len() && #[trigger] st.info[i] == (
                        x.information_key,
                        canon,
                    );
                    let j = choose|j: int|
                        0 <= j < init.len() && j < prev.1.len() && prev.1[j].duplicate_type
                            == "none"@ && #[trigger] init[j].signal_id == #[trigger] st.info[i].1;
                    assert(xs[j] == init[j]);
                    assert(folds[j] == prev.1[j]);
                },
                None => {
                    let ns = step.0;
                    assert forall|i: int| 0 <= i < ns.content.len() implies exists|j: int|
                        0 <= j < xs.len() && j < folds.len() && folds[j].duplicate_type == "none"@
                            && #[trigger] xs[j].signal_id == #[trigger] ns.content[i].1 by {
                        if i < st.content.len() {
                            assert(ns.content[i] == st.content[i]);
                            assert(points_to_canonical(st.content, xs, folds));
                        } else {
                            assert(ns.content[i].1 == x.signal_id);
                            assert(xs[n].signal_id == x.signal_id);
                        }
                    }
                    assert forall|i: int| 0 <= i < ns.info.len() implies exists|j: int|
                        0 <= j < xs.len() && j < folds.len() && folds[j].duplicate_type == "none"@
                            && #[trigger] xs[j].signal_id == #[trigger] ns.info[i].1 by {
                        if i < st.info.len() {
                            assert(ns.info[i] == st.info[i]);
                            assert(points_to_canonical(st.info, xs, folds));
                        } else {
                            assert(ns.info[i].1 == x.signal_id);
                            assert(xs[n].signal_id == x.signal_id);
                        }
                    }
                },
            },
        }
        assert forall|i: int|
            0 <= i < folds.len() && #[trigger] folds[i].duplicate_type != "none"@ implies exists|
            j: int,
        | 0 <= j < i && folds[j].duplicate_type == "none"@ && #[trigger] xs[j].signal_id
            == folds[i].canonical by {
            if i < n {
                let j = choose|j: int|
                    0 <= j < i && prev.1[j].duplicate_type == "none"@ && #[trigger] init[j].signal_id
                        == prev.1[i].canonical;
                assert(xs[j] == init[j]);
                assert(folds[j] == prev.1[j]);
            }
        }
    } else {
        assert(fold_run(xs, run_id).1 =~= Seq::<FoldV>::empty());
    }
}

/// Folding a run: an item folded as canonical is its own canonical signal,
/// with rank 0; a duplicate points to an earlier item folded as canonical.
pub proof fn lemma_duplicates_point_to_earlier_canonicals(xs: Seq<FoldInputV>, run_id: Seq<char>)
    ensures
        ({
            let folds = fold_run(xs, run_id).1;
            &&& folds.len() == xs.len()
            &&& forall|i: int|
                0 <= i < xs.len() ==> (#[trigger] folds[i].duplicate_type == "none"@
                    ==> folds[i].canonical == xs[i].signal_id && folds[i].rank == 0)
            &&& forall|i: int|
                0 <= i < xs.len() && #[trigger] folds[i].duplicate_type != "none"@ ==> exists|j: int|
                    0 <= j < i && folds[j].duplicate_type == "none"@ && #[trigger] xs[j].signal_id
                        == folds[i].canonical
        }),
{
    lemma_run_invariant(xs, run_id);
}

proof fn lemma_group_index_facts(gs: Seq<GroupV>, id: Seq<char>)
    ensures
        group_index(gs, id) == -1 ==> forall|k: int| 0 <= k < gs.len() ==> #[trigger] gs[k].id != id,
        group_index(gs, id) >= 0 ==> group_index(gs, id) < gs.len() && gs[group_index(gs, id)].id
            == id,
    decreases gs.len(),
{
    if gs.len() > 0 {
        lemma_group_index_facts(gs.drop_last(), id);
        assert forall|k: int| 0 <= k < gs.len() - 1 implies #[trigger] gs[k] == gs.drop_last()[k] by {}
        assert(gs.last() == gs[gs.len() - 1]);
    }
}

/// What the groups of a folding run keep true: distinct ids, each group led
/// by its canonical signal, and every duplicate in the group it was folded
/// into.
pub open spec fn groups_invariant(xs: Seq<FoldInputV>, st: DedupeStateV, folds: Seq<FoldV>) -> bool {
    let gs = st.groups;
    &&& forall|a: int, b: int| 0 <= a < b < gs.len() ==> #[trigger] gs[a].id != #[trigger] gs[b].id
    &&& forall|k: int|
        0 <= k < gs.len() ==> (#[trigger] gs[k]).members.len() >= 1 && gs[k].members[0]
            == gs[k].canonical
    &&& forall|i: int|
        0 <= i < folds.len() && #[trigger] folds[i].duplicate_type != "none"@ ==> exists|k: int|
            0 <= k < gs.len() && gs[k].id == folds[i].group_id && (#[trigger] gs[k]).members.contains(
                xs[i].signal_id,
            )
}

pub(crate) proof fn lemma_groups_invariant(xs: Seq<FoldInputV>, run_id: Seq<char>)
    ensures
        fold_run(xs, run_id).1.len() == xs.len(),
        groups_invariant(xs, fold_run(xs, run_id).0, fold_run(xs, run_id).1),
    decreases xs.len(),
{
    reveal_strlit("none");
    reveal_strlit("content_near_duplicate");
    reveal_strlit("information_duplicate");
    assert("content_near_duplicate"@[0] != "none"@[0]);
    assert("information_duplicate"@[0] != "none"@[0]);
    if xs.len() > 0 {
        let init = xs.drop_last();
        lemma_groups_invariant(init, run_id);
        let prev = fold_run(init, run_id);
        let st = prev.0;
        let x = xs.last();
        let n = init.len() as int;
        let step = fold_step(st, x, run_id);
        let folds = prev.1.push(step.1);
        let gs = st.groups;
        let ns = step.0.groups;
        assert forall|j: int| 0 <= j < n implies #[trigger] xs[j] == init[j] by {}
        assert(xs[n] == x);
        assert forall|j: int| 0 <= j < n implies #[trigger] folds[j] == prev.1[j] by {}
        assert(folds[n] == step.1);
        let hit = first_hit(st.content, x.content_keys);
        let info_hit = lookup_last(st.info, x.information_key);
        if hit is None && info_hit is None {
            assert(ns == gs);
            assert forall|i: int|
                0 <= i < folds.len() && #[trigger] folds[i].duplicate_type != "none"@ implies exists|
                k: int,
            | 0 <= k < ns.len() && ns[k].id == folds[i].group_id && (#[trigger] ns[k]).members.contains(
                xs[i].signal_id,
            ) by {
                assert(i < n);
                assert(folds[i] == prev.1[i]);
                assert(xs[i] == init[i]);
            }
        } else {
            let (dtype, canon, matched, key) = if hit is Some {
                (
                    "content_near_duplicate"@,
                    hit.unwrap().1,
                    Some(hit.unwrap().0),
                    hit.unwrap().0,
                )
            } else {
                ("information_duplicate"@, info_hit.unwrap(), None, x.information_key)
            };
            assert(step == join_group(st, dtype, canon, matched, key, x.signal_id, x.source_id, run_id));
            let gid = group_id_of(key);
            let idx = group_index(gs, gid);
            lemma_group_index_facts(gs, gid);
            let csrc = match lookup_last(st.sources, canon) {
                Some(s) => s,
                None => Seq::<char>::empty(),
            };
            let g0 = if idx >= 0 {
                gs[idx]
            } else {
                GroupV {
                    id: gid,
                    run_id,
                    canonical: canon,
                    duplicate_type: dtype,
                    dedupe_key: key,
                    members: seq![canon],
                    sources: if csrc.len() == 0 {
                        Seq::<Seq<char>>::empty()
                    } else {
                        seq![csrc]
                    },
                }
            };
            let g1 = if g0.members.contains(x.signal_id) {
                g0
            } else {
                GroupV { members: g0.members.push(x.signal_id), sources: g0.sources.push(x.source_id), ..g0 }
            };
            assert(g1.id == g0.id && g1.canonical == g0.canonical);
            assert(g1.members.len() >= g0.members.len());
            assert(g1.members.contains(x.signal_id)) by {
                if !g0.members.contains(x.signal_id) {
                    assert(g1.members[g0.members.len() as int] == x.signal_id);
                }
            }
            assert forall|s: Seq<char>| g0.members.contains(s) implies g1.members.contains(s) by {
                if !g0.members.contains(x.signal_id) {
                    let k = choose|k: int| 0 <= k < g0.members.len() && g0.members[k] == s;
                    assert(g1.members[k] == s);
                }
            }
            if g0.members.len() >= 1 {
                assert(g1.members[0] == g0.members[0]);
            }
            if idx >= 0 {
                assert(ns == gs.update(idx, g1));
                assert(gs[idx].id == gid);
            } else {
                assert(ns == gs.push(g1));
                assert(g0.members[0] == canon);
            }
            // distinct ids
            assert forall|a: int, b: int| 0 <= a < b < ns.len() implies #[trigger] ns[a].id
                != #[trigger] ns[b].id by {
                if idx >= 0 {
                    if a == idx {
                        assert(gs[b].id != gs[a].id);
                    } else if b == idx {
                        assert(gs[a].id != gs[b].id);
                    }
                } else {
                    if b == gs.len() {
                        assert(gs[a].id != gid);
                    }
                }
            }
            assert forall|k: int| 0 <= k < ns.len() implies (#[trigger] ns[k]).members.len() >= 1
                && ns[k].members[0] == ns[k].canonical by {
                if (idx >= 0 && k == idx) || (idx < 0 && k == gs.len()) {
                    assert(ns[k] == g1);
                } else {
                    assert(ns[k] == gs[k]);
                }
            }
            assert forall|i: int|
                0 <= i < folds.len() && #[trigger] folds[i].duplicate_type != "none"@ implies exists|
                k: int,
            | 0 <= k < ns.len() && ns[k].id == folds[i].group_id && (#[trigger] ns[k]).members.contains(
                xs[i].signal_id,
            ) by {
                if i == n {
                    let k = if idx >= 0 {
                        idx
                    } else {
                        gs.len() as int
                    };
                    assert(ns[k] == g1);
                    assert(folds[i].group_id == gid);
                    assert(xs[i].signal_id == x.signal_id);
                } else {
                    assert(folds[i] == prev.1[i]);
                    assert(xs[i] == init[i]);
                    let k = choose|k: int|
                        0 <= k < gs.len() && gs[k].id == prev.1[i].group_id && (
                        #[trigger] gs[k]).members.contains(init[i].signal_id);
                    if idx >= 0 && k == idx {
                        assert(ns[k] == g1);
                        assert(gs[k] == g0);
                    } else {
                        assert(ns[k] == gs[k]);
                    }
                }
            }
        }
    } else {
        assert(fold_run(xs, run_id).1 =~= Seq::<FoldV>::empty());
    }
}

/// Folding a run groups duplicates: group ids are distinct, each group's
/// first member is its canonical signal, and every duplicate is a member of
/// the group whose id it carries.
pub proof fn lemma_duplicates_are_grouped(xs: Seq<FoldInputV>, run_id: Seq<char>)
    ensures
        groups_invariant(xs, fold_run(xs, run_id).0, fold_run(xs, run_id).1),
{
    lemma_groups_invariant(xs, run_id);
}


/// How many items of a run were folded as duplicates.
pub open spec fn dup_count(folds: Seq<FoldV>) -> int
    decreases folds.len(),
{
    if folds.len() == 0 {
        0
    } else {
        dup_count(folds.drop_last()) + if folds.last().duplicate_type != "none"@ {
            1int
        } else {
            0int
        }
    }
}

/// How many members the groups hold beyond their canonical signals.
pub open spec fn extra_members(gs: Seq<GroupV>) -> int
    decreases gs.len(),
{
    if gs.len() == 0 {
        0
    } else {
        extra_members(gs.drop_last()) + (gs.last().members.len() - 1)
    }
}

/// The signal ids of a run are distinct.
pub open spec fn distinct_signals(xs: Seq<FoldInputV>) -> bool {
    forall|a: int, b: int| 0 <= a < b < xs.len() ==> #[trigger] xs[a].signal_id != #[trigger] xs[b].signal_id
}

/// What the groups keep of the ranks: every member is a signal of the run,
/// each duplicate stands in its group at its rank, and the groups hold one
/// extra member per duplicate.
pub open spec fn rank_invariant(xs: Seq<FoldInputV>, gs: Seq<GroupV>, folds: Seq<FoldV>) -> bool {
    &&& folds.len() == xs.len()
    &&& forall|k: int, m: int|
        0 <= k < gs.len() && 0 <= m < gs[k].members.len() ==> exists|j: int|
            0 <= j < xs.len() && #[trigger] xs[j].signal_id == #[trigger] gs[k].members[m]
    &&& forall|k: int|
        0 <= k < gs.len() ==> 1 <= (#[trigger] gs[k]).members.len() <= xs.len() + 1
    &&& forall|i: int|
        0 <= i < folds.len() && #[trigger] folds[i].duplicate_type != "none"@ ==> exists|k: int|
            0 <= k < gs.len() && gs[k].id == folds[i].group_id && 0 < folds[i].rank
                < (#[trigger] gs[k]).members.len() && gs[k].members[folds[i].rank] == xs[i].signal_id
    &&& extra_members(gs) == dup_count(folds)
}

proof fn lemma_extra_members_update(gs: Seq<GroupV>, i: int, g: GroupV)
    requires
        0 <= i < gs.len(),
    ensures
        extra_members(gs.update(i, g)) == extra_members(gs) - (gs[i].members.len() - 1) + (
        g.members.len() - 1),
    decreases gs.len(),
{
    if i < gs.len() - 1 {
        lemma_extra_members_update(gs.drop_last(), i, g);
        assert(gs.update(i, g).drop_last() =~= gs.drop_last().update(i, g));
    } else {
        assert(gs.update(i, g).drop_last() =~= gs.drop_last());
    }
}

proof fn lemma_join_ranks(
    xs: Seq<FoldInputV>,
    st: DedupeStateV,
    folds: Seq<FoldV>,
    dtype: Seq<char>,
    canon: Seq<char>,
    matched: Option<Seq<char>>,
    group_key: Seq<char>,
    x: FoldInputV,
    run_id: Seq<char>,
)
    requires
        rank_invariant(xs, st.groups, folds),
        dtype != "none"@,
        forall|j: int| 0 <= j < xs.len() ==> #[trigger] xs[j].signal_id != x.signal_id,
        exists|j: int| 0 <= j < xs.len() && #[trigger] xs[j].signal_id == canon,
        xs.len() + 2 < 0x7fff_ffff_ffff_ffff,
    ensures
        ({
            let step = join_group(
                st,
                dtype,
                canon,
                matched,
                group_key,
                x.signal_id,
                x.source_id,
                run_id,
            );
            rank_invariant(xs.push(x), step.0.groups, folds.push(step.1))
        }),
{
    let sid = x.signal_id;
    let gs = st.groups;
    let gid = group_id_of(group_key);
    let idx = group_index(gs, gid);
    lemma_group_index_facts(gs, gid);
    let step = join_group(st, dtype, canon, matched, group_key, sid, x.source_id, run_id);
    let xs2 = xs.push(x);
    let gs2 = step.0.groups;
    let folds2 = folds.push(step.1);
    let n = xs.len() as int;
    assert forall|j: int| 0 <= j < n implies #[trigger] xs2[j] == xs[j] by {}
    assert(xs2[n] == x);
    let csrc = match lookup_last(st.sources, canon) {
        Some(s) => s,
        None => Seq::<char>::empty(),
    };
    let g0 = if idx >= 0 {
        gs[idx]
    } else {
        GroupV {
            id: gid,
            run_id,
            canonical: canon,
            duplicate_type: dtype,
            dedupe_key: group_key,
            members: seq![canon],
            sources: if csrc.len() == 0 {
                Seq::<Seq<char>>::empty()
            } else {
                seq![csrc]
            },
        }
    };
    // the new signal is in no group yet
    assert(!g0.members.contains(sid)) by {
        if g0.members.contains(sid) {
            let m = choose|m: int| 0 <= m < g0.members.len() && g0.members[m] == sid;
            if idx >= 0 {
                assert(gs[idx].members[m] == sid);
                let j = choose|j: int|
                    0 <= j < xs.len() && #[trigger] xs[j].signal_id == #[trigger] gs[idx].members[m];
                assert(xs[j].signal_id != sid);
            } else {
                assert(g0.members[0] == canon);
            }
        }
    }
    let g1 = GroupV { members: g0.members.push(sid), sources: g0.sources.push(x.source_id), ..g0 };
    assert(g0.members.len() <= n + 1);
    assert(g1.members.len() <= n + 2);
    assert(step.1.rank == g1.members.len() - 1);
    // every member is a signal of the run
    assert forall|k: int, m: int| 0 <= k < gs2.len() && 0 <= m < gs2[k].members.len() implies exists|
        j: int,
    | 0 <= j < xs2.len() && #[trigger] xs2[j].signal_id == #[trigger] gs2[k].members[m] by {
        if (idx >= 0 && k == idx) || (idx < 0 && k == gs.len()) {
            assert(gs2[k] == g1);
            if m == g1.members.len() - 1 {
                assert(xs2[n].signal_id == gs2[k].members[m]);
            } else if idx >= 0 {
                assert(gs2[k].members[m] == gs[idx].members[m]);
                let j = choose|j: int|
                    0 <= j < xs.len() && #[trigger] xs[j].signal_id == #[trigger] gs[idx].members[m];
                assert(xs2[j].signal_id == gs2[k].members[m]);
            } else {
                let j = choose|j: int| 0 <= j < xs.len() && #[trigger] xs[j].signal_id == canon;
                assert(xs2[j].signal_id == gs2[k].members[m]);
            }
        } else {
            assert(gs2[k] == gs[k]);
            let j = choose|j: int|
                0 <= j < xs.len() && #[trigger] xs[j].signal_id == #[trigger] gs[k].members[m];
            assert(xs2[j].signal_id == gs2[k].members[m]);
        }
    }
    assert forall|k: int| 0 <= k < gs2.len() implies 1 <= (#[trigger] gs2[k]).members.len()
        <= xs2.len() + 1 by {
        if !((idx >= 0 && k == idx) || (idx < 0 && k == gs.len())) {
            assert(gs2[k] == gs[k]);
        }
    }
    // each duplicate at its rank
    assert forall|i: int|
        0 <= i < folds2.len() && #[trigger] folds2[i].duplicate_type != "none"@ implies exists|k: int|
        0 <= k < gs2.len() && gs2[k].id == folds2[i].group_id && 0 < folds2[i].rank
            < (#[trigger] gs2[k]).members.len() && gs2[k].members[folds2[i].rank]
            == xs2[i].signal_id by {
        if i == n {
            let k = if idx >= 0 {
                idx
            } else {
                gs.len() as int
            };
            assert(gs2[k] == g1);
            assert(g1.members[g1.members.len() - 1] == sid);
        } else {
            assert(folds2[i] == folds[i]);
            let k = choose|k: int|
                0 <= k < gs.len() && gs[k].id == folds[i].group_id && 0 < folds[i].rank
                    < (#[trigger] gs[k]).members.len() && gs[k].members[folds[i].rank]
                    == xs[i].signal_id;
            if idx >= 0 && k == idx {
                assert(gs2[k] == g1);
                assert(g1.members[folds[i].rank] == gs[k].members[folds[i].rank]);
            } else {
                assert(gs2[k] == gs[k]);
            }
        }
    }
    // one extra member per duplicate
    assert(folds2.drop_last() =~= folds);
    if idx >= 0 {
        lemma_extra_members_update(gs, idx, g1);
    } else {
        assert(gs2.drop_last() =~= gs);
    }
}

proof fn lemma_rank_invariant(xs: Seq<FoldInputV>, run_id: Seq<char>)
    requires
        distinct_signals(xs),
        xs.len() < 0x7fff_ffff_ffff_fff0,
    ensures
        rank_invariant(xs, fold_run(xs, run_id).0.groups, fold_run(xs, run_id).1),
    decreases xs.len(),
{
    reveal_strlit("none");
    reveal_strlit("content_near_duplicate");
    reveal_strlit("information_duplicate");
    assert("content_near_duplicate"@[0] != "none"@[0]);
    assert("information_duplicate"@[0] != "none"@[0]);
    if xs.len() > 0 {
        let init = xs.drop_last();
        let x = xs.last();
        let n = init.len() as int;
        assert forall|a: int, b: int| 0 <= a < b < init.len() implies #[trigger] init[a].signal_id
            != #[trigger] init[b].signal_id by {
            assert(init[a] == xs[a] && init[b] == xs[b]);
        }
        lemma_rank_invariant(init, run_id);
        lemma_run_invariant(xs, run_id);
        let prev = fold_run(init, run_id);
        let st = prev.0;
        assert(xs =~= init.push(x));
        assert forall|j: int| 0 <= j < init.len() implies #[trigger] init[j].signal_id
            != x.signal_id by {
            assert(init[j] == xs[j]);
            assert(x == xs[n]);
        }
        let folds = fold_run(xs, run_id).1;
        assert(folds == prev.1.push(fold_step(st, x, run_id).1));
        assert(folds[n] == fold_step(st, x, run_id).1);
        match first_hit(st.content, x.content_keys) {
            Some(hit) => {
                assert(folds[n].duplicate_type != "none"@);
                let j = choose|j: int|
                    0 <= j < n && folds[j].duplicate_type == "none"@ && #[trigger] xs[j].signal_id
                        == folds[n].canonical;
                assert(init[j].signal_id == hit.1);
                lemma_join_ranks(
                    init,
                    st,
                    prev.1,
                    "content_near_duplicate"@,
                    hit.1,
                    Some(hit.0),
                    hit.0,
                    x,
                    run_id,
                );
            },
            None => match lookup_last(st.info, x.information_key) {
                Some(canon) => {
                    assert(folds[n].duplicate_type != "none"@);
                    let j = choose|j: int|
                        0 <= j < n && folds[j].duplicate_type == "none"@ && #[trigger] xs[j].signal_id
                            == folds[n].canonical;
                    assert(init[j].signal_id == canon);
                    lemma_join_ranks(
                        init,
                        st,
                        prev.1,
                        "information_duplicate"@,
                        canon,
                        None,
                        x.information_key,
                        x,
                        run_id,
                    );
                },
                None => {
                    let gs = st.groups;
                    let folds2 = prev.1.push(fold_step(st, x, run_id).1);
                    assert(folds2.drop_last() =~= prev.1);
                    assert forall|k: int, m: int|
                        0 <= k < gs.len() && 0 <= m < gs[k].members.len() implies exists|j: int|
                        0 <= j < xs.len() && #[trigger] xs[j].signal_id == #[trigger] gs[k].members[m] by {
                        let j = choose|j: int|
                            0 <= j < init.len() && #[trigger] init[j].signal_id
                                == #[trigger] gs[k].members[m];
                        assert(xs[j] == init[j]);
                    }
                    assert forall|i: int|
                        0 <= i < folds2.len() && #[trigger] folds2[i].duplicate_type != "none"@ implies exists|
                        k: int,
                    | 0 <= k < gs.len() && gs[k].id == folds2[i].group_id && 0 < folds2[i].rank
                        < (#[trigger] gs[k]).members.len() && gs[k].members[folds2[i].rank]
                        == xs[i].signal_id by {
                        assert(i < n);
                        assert(folds2[i] == prev.1[i]);
                        assert(xs[i] == init[i]);
                    }
                },
            },
        }
    }
}

/// Folding a run whose signal ids are distinct groups its duplicates by
/// rank: the first item is never a duplicate; every duplicate stands in the
/// one group with its group id at the position of its rank, behind the
/// canonical signal at the head; and the groups hold, beyond their
/// canonical signals, exactly one member per duplicate.
pub proof fn lemma_groups_count_duplicates(xs: Seq<FoldInputV>, run_id: Seq<char>)
    requires
        distinct_signals(xs),
        xs.len() < 0x7fff_ffff_ffff_fff0,
    ensures
        ({
            let gs = fold_run(xs, run_id).0.groups;
            let folds = fold_run(xs, run_id).1;
            &&& xs.len() > 0 ==> folds[0].duplicate_type == "none"@
            &&& forall|a: int, b: int| 0 <= a < b < gs.len() ==> #[trigger] gs[a].id != #[trigger] gs[b].id
            &&& forall|k: int|
                0 <= k < gs.len() ==> (#[trigger] gs[k]).members.len() >= 1 && gs[k].members[0]
                    == gs[k].canonical
            &&& forall|i: int|
                0 <= i < folds.len() && #[trigger] folds[i].duplicate_type != "none"@ ==> exists|k: int|
                    0 <= k < gs.len() && gs[k].id == folds[i].group_id && 0 < folds[i].rank
                        < (#[trigger] gs[k]).members.len() && gs[k].members[folds[i].rank]
                        == xs[i].signal_id
            &&& extra_members(gs) == dup_count(folds)
        }),
{
    lemma_rank_invariant(xs, run_id);
    lemma_groups_invariant(xs, run_id);
    lemma_run_invariant(xs, run_id);
    let gs = fold_run(xs, run_id).0.groups;
    let folds = fold_run(xs, run_id).1;
    if xs.len() > 0 {
        if folds[0].duplicate_type != "none"@ {
            let j = choose|j: int|
                0 <= j < 0 && folds[j].duplicate_type == "none"@ && #[trigger] xs[j].signal_id
                    == folds[0].canonical;
        }
    }
}


proof fn lemma_fold_run_prefix(xs: Seq<FoldInputV>, run_id: Seq<char>, m: int)
    requires
        0 <= m <= xs.len(),
    ensures
        fold_run(xs.take(m), run_id).1 == fold_run(xs, run_id).1.take(m),
        m < xs.len() ==> fold_run(xs, run_id).1[m] == fold_step(
            fold_run(xs.take(m), run_id).0,
            xs[m],
            run_id,
        ).1,
    decreases xs.len(),
{
    lemma_groups_invariant(xs, run_id);
    if m == xs.len() {
        assert(xs.take(m) =~= xs);
        assert(fold_run(xs, run_id).1.take(m) =~= fold_run(xs, run_id).1);
    } else {
        let init = xs.drop_last();
        lemma_fold_run_prefix(init, run_id, m);
        lemma_groups_invariant(init, run_id);
        assert(init.take(m) =~= xs.take(m));
        let prev = fold_run(init, run_id);
        let f = fold_run(xs, run_id).1;
        assert(f == prev.1.push(fold_step(prev.0, xs.last(), run_id).1));
        assert(f.take(m) =~= prev.1.take(m));
        if m == init.len() {
            assert(init.take(m) =~= init);
            assert(xs[m] == xs.last());
        } else {
            assert(f[m] == prev.1[m]);
            assert(init[m] == xs[m]);
        }
    }
}

/// Every item folded as canonical has its information key registered.
proof fn lemma_info_registered(xs: Seq<FoldInputV>, run_id: Seq<char>)
    ensures
        forall|i: int|
            0 <= i < xs.len() && #[trigger] fold_run(xs, run_id).1[i].duplicate_type == "none"@
                ==> lookup_last(fold_run(xs, run_id).0.info, xs[i].information_key) is Some,
    decreases xs.len(),
{
    reveal_strlit("none");
    reveal_strlit("content_near_duplicate");
    reveal_strlit("information_duplicate");
    assert("content_near_duplicate"@[0] != "none"@[0]);
    assert("information_duplicate"@[0] != "none"@[0]);
    lemma_groups_invariant(xs, run_id);
    if xs.len() > 0 {
        let init = xs.drop_last();
        lemma_info_registered(init, run_id);
        lemma_groups_invariant(init, run_id);
        let prev = fold_run(init, run_id);
        let x = xs.last();
        let step = fold_step(prev.0, x, run_id);
        let f = fold_run(xs, run_id).1;
        let info = fold_run(xs, run_id).0.info;
        assert forall|i: int|
            0 <= i < xs.len() && #[trigger] fold_run(xs, run_id).1[i].duplicate_type == "none"@
                implies lookup_last(info, xs[i].information_key) is Some by {
            let k = xs[i].information_key;
            if i < init.len() {
                assert(f[i] == prev.1[i]);
                assert(xs[i] == init[i]);
                assert(lookup_last(prev.0.info, k) is Some);
                if first_hit(prev.0.content, x.content_keys) is None && lookup_last(
                    prev.0.info,
                    x.information_key,
                ) is None {
                    let p = (x.information_key, x.signal_id);
                    assert(info == prev.0.info.push(p));
                    assert(info.drop_last() =~= prev.0.info);
                }
            } else {
                assert(f[i] == step.1);
                assert(xs[i] == x);
                if first_hit(prev.0.content, x.content_keys) is None && lookup_last(
                    prev.0.info,
                    x.information_key,
                ) is None {
                    assert(info == prev.0.info.push((x.information_key, x.signal_id)));
                }
            }
        }
    }
}

/// A later item with the information key of an earlier item folded as
/// canonical, and whose content keys hit nothing when its turn comes, is
/// folded as an information duplicate.
pub proof fn lemma_same_information_folds(xs: Seq<FoldInputV>, run_id: Seq<char>, i: int, j: int)
    requires
        0 <= i < j < xs.len(),
        fold_run(xs, run_id).1[i].duplicate_type == "none"@,
        xs[i].information_key == xs[j].information_key,
        first_hit(fold_run(xs.take(j), run_id).0.content, xs[j].content_keys) is None,
    ensures
        fold_run(xs, run_id).1[j].duplicate_type == "information_duplicate"@,
{
    lemma_fold_run_prefix(xs, run_id, j);
    let pre = xs.take(j);
    lemma_info_registered(pre, run_id);
    lemma_groups_invariant(pre, run_id);
    lemma_groups_invariant(xs, run_id);
    assert(fold_run(pre, run_id).1[i] == fold_run(xs, run_id).1.take(j)[i]);
    assert(fold_run(xs, run_id).1.take(j)[i] == fold_run(xs, run_id).1[i]);
    assert(pre[i] == xs[i]);
    assert(fold_run(pre, run_id).1[i].duplicate_type == "none"@);
    assert(lookup_last(fold_run(pre, run_id).0.info, xs[j].information_key) is Some);
}

} // verus!
