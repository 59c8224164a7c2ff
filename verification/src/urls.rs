//! URL canonicalization: tracking parameters dropped, query sorted, fragment
//! and trailing slashes removed; reference URLs found in free text; domain
//! aware matching of official URL seeds.
use crate::ext::{
    lowercase, lowercase_of, regex_find_all, regex_matches_of, url_host_path, url_host_path_of,
    url_query_pairs, url_query_pairs_of, url_with_query, url_with_query_of, url_without_query,
    url_without_query_of,
};
use crate::strs::{
    compare_str, concat, contains_str, contains_string, contains_sub, ends_with_str, has_prefix, has_suffix,
    lemma_lex_asymmetric, lemma_lex_irreflexive, lemma_lex_total, lemma_lex_transitive, lex_le,
    lex_lt, lex_order, starts_with_str, str_eq, string_of_range, chars_of, LexOrder,
};
use crate::text_utils::{normalize_text, normalized_text_of};
use vstd::prelude::*;
use vstd::relations::{sorted_by, total_ordering};
use vstd::seq_lib::lemma_sorted_unique;

verus! {

/// A query pair: key and value.
pub type QueryPair = (String, String);

/// Keys of tracking parameters (already lowercased): a fixed list and every
/// key that starts with `utm_`.
pub open spec fn is_tracking_key(k: Seq<char>) -> bool {
    ||| k == "spm"@
    ||| k == "spm_id_from"@
    ||| k == "from"@
    ||| k == "from_source"@
    ||| k == "fromsharecode"@
    ||| k == "fromuid"@
    ||| k == "share_source"@
    ||| k == "share_medium"@
    ||| k == "share_app_id"@
    ||| k == "share_iid"@
    ||| k == "scene"@
    ||| has_prefix(k, "utm_"@)
}

/// The pairs whose lowercased key is no tracking key, in order.
pub open spec fn kept_pairs(pairs: Seq<(Seq<char>, Seq<char>)>) -> Seq<(Seq<char>, Seq<char>)>
    decreases pairs.len(),
{
    if pairs.len() == 0 {
        Seq::<(Seq<char>, Seq<char>)>::empty()
    } else {
        let prev = kept_pairs(pairs.drop_last());
        if is_tracking_key(lowercase_of(pairs.last().0)) {
            prev
        } else {
            prev.push(pairs.last())
        }
    }
}

/// Order of pairs: by key, then by value.
pub open spec fn pair_le(a: (Seq<char>, Seq<char>), b: (Seq<char>, Seq<char>)) -> bool {
    lex_lt(a.0, b.0) || (a.0 == b.0 && lex_le(a.1, b.1))
}

pub open spec fn pair_order() -> spec_fn((Seq<char>, Seq<char>), (Seq<char>, Seq<char>)) -> bool {
    |a: (Seq<char>, Seq<char>), b: (Seq<char>, Seq<char>)| pair_le(a, b)
}

/// Query pairs are sorted by a total order: by key, then by value, each
/// in `str` order.
pub proof fn lemma_pair_order_total()
    ensures
        total_ordering(pair_order()),
{
    let le = pair_order();
    assert forall|x: (Seq<char>, Seq<char>)| #[trigger] le(x, x) by {}
    assert forall|x: (Seq<char>, Seq<char>), y: (Seq<char>, Seq<char>)|
        #[trigger] le(x, y) && #[trigger] le(y, x) implies x == y by {
        lemma_lex_asymmetric(x.0, y.0);
        lemma_lex_asymmetric(x.1, y.1);
    }
    assert forall|x: (Seq<char>, Seq<char>), y: (Seq<char>, Seq<char>), z: (Seq<char>, Seq<char>)|
        #[trigger] le(x, y) && #[trigger] le(y, z) implies le(x, z) by {
        lemma_lex_transitive(x.0, y.0, z.0);
        lemma_lex_transitive(x.1, y.1, z.1);
    }
    assert forall|x: (Seq<char>, Seq<char>), y: (Seq<char>, Seq<char>)|
        #[trigger] le(x, y) || #[trigger] le(y, x) by {
        lemma_lex_total(x.0, y.0);
        lemma_lex_total(x.1, y.1);
    }
}

/// Drops every trailing `/` (`str::trim_end_matches('/')`).
pub open spec fn trim_trailing_slashes(s: Seq<char>) -> Seq<char>
    decreases s.len(),
{
    if s.len() > 0 && s.last() == '/' {
        trim_trailing_slashes(s.drop_last())
    } else {
        s
    }
}

/// The canonical form of a URL. A text that does not parse as a URL stays
/// as its normalized text; otherwise the fragment and the tracking
/// parameters are dropped, the other query pairs are sorted by key and
/// value, and trailing slashes are removed.
pub open spec fn normalized_url_of(input: Seq<char>) -> Seq<char> {
    let n = normalized_text_of(input);
    match url_query_pairs_of(n) {
        None => n,
        Some(pairs) => {
            let kept = kept_pairs(pairs).sort_by(pair_order());
            let rebuilt = if kept.len() == 0 {
                url_without_query_of(n)
            } else {
                url_with_query_of(n, kept)
            };
            match rebuilt {
                None => n,
                Some(u) => trim_trailing_slashes(u),
            }
        },
    }
}

fn is_tracking_key_exec(k: &str) -> (r: bool)
    ensures
        r == is_tracking_key(k@),
{
    str_eq(k, "spm") || str_eq(k, "spm_id_from") || str_eq(k, "from") || str_eq(k, "from_source")
        || str_eq(k, "fromsharecode") || str_eq(k, "fromuid") || str_eq(k, "share_source")
        || str_eq(k, "share_medium") || str_eq(k, "share_app_id") || str_eq(k, "share_iid")
        || str_eq(k, "scene") || starts_with_str(k, "utm_")
}

fn pair_le_exec(a: &QueryPair, b: &QueryPair) -> (r: bool)
    ensures
        r == pair_le(a.deep_view(), b.deep_view()),
{
    match compare_str(a.0.as_str(), b.0.as_str()) {
        LexOrder::Less => true,
        LexOrder::Greater => {
            proof {
                lemma_lex_asymmetric(b.0@, a.0@);
            }
            false
        },
        LexOrder::Equal => {
            proof {
                lemma_lex_irreflexive(a.0@);
            }
            match compare_str(a.1.as_str(), b.1.as_str()) {
                LexOrder::Greater => {
                    proof {
                        lemma_lex_asymmetric(b.1@, a.1@);
                    }
                    false
                },
                _ => true,
            }
        },
    }
}

/// Sorts pairs by key, then value.
fn sort_pairs(v: Vec<QueryPair>) -> (r: Vec<QueryPair>)
    ensures
        r.deep_view() == v.deep_view().sort_by(pair_order()),
{
    let ghost input = v.deep_view();
    let mut out: Vec<QueryPair> = Vec::new();
    let mut i: usize = 0;
    proof {
        lemma_pair_order_total();
        assert(out.deep_view() =~= input.take(0));
    }
    while i < v.len()
        invariant
            input == v.deep_view(),
            i <= input.len(),
            total_ordering(pair_order()),
            sorted_by(out.deep_view(), pair_order()),
            out.deep_view().to_multiset() == input.take(i as int).to_multiset(),
        decreases input.len() - i,
    {
        let x = (v[i].0.clone(), v[i].1.clone());
        let ghost xv = x.deep_view();
        proof {
            assert(xv == input[i as int]);
        }
        let mut j: usize = 0;
        while j < out.len()
            invariant
                j <= out@.len(),
                xv == x.deep_view(),
                forall|k: int| 0 <= k < j ==> pair_le(#[trigger] out.deep_view()[k], xv),
            ensures
                j <= out@.len(),
                forall|k: int| 0 <= k < j ==> pair_le(#[trigger] out.deep_view()[k], xv),
                j < out@.len() ==> !pair_le(out.deep_view()[j as int], xv),
            decreases out@.len() - j,
        {
            proof {
                assert(out.deep_view()[j as int] == out@[j as int].deep_view());
            }
            if !pair_le_exec(&out[j], &x) {
                break;
            }
            j += 1;
        }
        let ghost before = out.deep_view();
        proof {
            if j < before.len() {
                assert(!pair_le(before[j as int], xv));
                let le = pair_order();
                assert(le(before[j as int], xv) || le(xv, before[j as int]));
                assert(pair_le(xv, before[j as int]));
            }
        }
        out.insert(j, x);
        proof {
            let le = pair_order();
            let now = out.deep_view();
            assert(now =~= before.insert(j as int, xv));
            assert forall|a: int, b: int| 0 <= a < b < now.len() implies #[trigger] le(
                now[a],
                now[b],
            ) by {
                if b < j {
                    assert(le(before[a], before[b]));
                } else if a < j && b == j {
                } else if a < j && b > j {
                    assert(le(before[a], xv));
                    assert(le(xv, before[j as int]));
                    assert(le(before[j as int], before[b - 1]) || j as int == b - 1);
                } else if a == j {
                    assert(le(xv, before[j as int]));
                    if b - 1 > j {
                        assert(le(before[j as int], before[b - 1]));
                    }
                } else {
                    assert(le(before[a - 1], before[b - 1]));
                }
            }
            vstd::seq_lib::to_multiset_insert(before, j as int, xv);
            assert(input.take(i + 1) == input.take(i as int).push(xv));
            input.take(i as int).to_multiset_ensures();
        }
        i += 1;
    }
    proof {
        assert(input.take(input.len() as int) == input);
        input.lemma_sort_by_ensures(pair_order());
        lemma_sorted_unique(out.deep_view(), input.sort_by(pair_order()), pair_order());
    }
    out
}

fn kept_pairs_exec(pairs: &Vec<QueryPair>) -> (r: Vec<QueryPair>)
    ensures
        r.deep_view() == kept_pairs(pairs.deep_view()),
{
    let ghost pv = pairs.deep_view();
    let mut out: Vec<QueryPair> = Vec::new();
    let mut i: usize = 0;
    while i < pairs.len()
        invariant
            pv == pairs.deep_view(),
            i <= pv.len(),
            out.deep_view() == kept_pairs(pv.take(i as int)),
        decreases pv.len() - i,
    {
        proof {
            assert(pv.take(i + 1).drop_last() == pv.take(i as int));
            assert(pv.take(i + 1).last() == pairs@[i as int].deep_view());
        }
        let lowered = lowercase(pairs[i].0.as_str());
        if !is_tracking_key_exec(lowered.as_str()) {
            out.push((pairs[i].0.clone(), pairs[i].1.clone()));
            proof {
                assert(out.deep_view() =~= kept_pairs(pv.take(i + 1)));
            }
        }
        i += 1;
    }
    proof {
        assert(pv.take(pv.len() as int) == pv);
    }
    out
}

fn trim_trailing_slashes_exec(s: &str) -> (r: String)
    ensures
        r@ == trim_trailing_slashes(s@),
{
    let cs = chars_of(s);
    let mut end = cs.len();
    proof {
        assert(cs@.take(cs@.len() as int) == cs@);
    }
    while end > 0 && cs[end - 1] == '/'
        invariant
            end <= cs@.len(),
            trim_trailing_slashes(cs@.take(end as int)) == trim_trailing_slashes(s@),
            cs@ == s@,
        decreases end,
    {
        proof {
            assert(cs@.take(end as int).drop_last() == cs@.take(end - 1));
        }
        end -= 1;
    }
    proof {
        if end == 0 {
            assert(cs@.take(0).len() == 0);
        }
        assert(cs@.take(end as int) == cs@.subrange(0, end as int));
        assert(cs@.take(cs@.len() as int) == cs@);
    }
    string_of_range(&cs, 0, end)
}

/// Canonicalizes a URL (see `normalized_url_of`).
pub fn normalize_url(input: &str) -> (r: String)
    ensures
        r@ == normalized_url_of(input@),
{
    let normalized = normalize_text(input);
    let pairs = match url_query_pairs(normalized.as_str()) {
        None => {
            return normalized;
        },
        Some(pairs) => pairs,
    };
    let kept = sort_pairs(kept_pairs_exec(&pairs));
    let rebuilt = if kept.len() == 0 {
        url_without_query(normalized.as_str())
    } else {
        url_with_query(normalized.as_str(), &kept)
    };
    match rebuilt {
        None => normalized,
        Some(u) => trim_trailing_slashes_exec(u.as_str()),
    }
}

pub open spec fn url_pattern() -> Seq<char> {
    "https?://[^\\s<>\"'）)]+"@
}

/// The canonical forms of the matches that are not empty, in order.
pub open spec fn nonempty_normalized_urls(ms: Seq<Seq<char>>) -> Seq<Seq<char>>
    decreases ms.len(),
{
    if ms.len() == 0 {
        Seq::<Seq<char>>::empty()
    } else {
        let prev = nonempty_normalized_urls(ms.drop_last());
        let n = normalized_url_of(ms.last());
        if n.len() > 0 {
            prev.push(n)
        } else {
            prev
        }
    }
}

/// The distinct canonical URLs of the `http(s)://` links in a text, in order
/// of first appearance.
pub open spec fn reference_urls_of(text: Seq<char>) -> Seq<Seq<char>> {
    nonempty_normalized_urls(regex_matches_of(url_pattern(), text)).remove_duplicates(
        Seq::<Seq<char>>::empty(),
    )
}

/// The canonical URLs of the links in `text`, without repeats.
pub fn extract_reference_urls(text: &str) -> (r: Vec<String>)
    ensures
        r.deep_view() == reference_urls_of(text@),
{
    let matches = regex_find_all("https?://[^\\s<>\"'）)]+", text);
    let ghost ms = matches.deep_view();
    let ghost e = Seq::<Seq<char>>::empty();
    let mut results: Vec<String> = Vec::new();
    let mut i: usize = 0;
    proof {
        assert(results.deep_view() =~= e);
        assert(nonempty_normalized_urls(ms.take(0)) == e);
    }
    while i < matches.len()
        invariant
            ms == matches.deep_view(),
            e == Seq::<Seq<char>>::empty(),
            i <= ms.len(),
            results.deep_view() == nonempty_normalized_urls(ms.take(i as int)).remove_duplicates(e),
        decreases ms.len() - i,
    {
        let ghost before = nonempty_normalized_urls(ms.take(i as int));
        proof {
            assert(ms.take(i + 1).drop_last() == ms.take(i as int));
            assert(ms.take(i + 1).last() == matches@[i as int]@);
        }
        let normalized = normalize_url(matches[i].as_str());
        if !normalized.as_str().is_empty() {
            proof {
                assert(nonempty_normalized_urls(ms.take(i + 1)) == before + seq![normalized@]);
                before.lemma_remove_duplicates_append(normalized@, e);
                before.lemma_remove_duplicates_properties(e);
                assert(before + e =~= before);
            }
            if !contains_string(&results, normalized.as_str()) {
                results.push(normalized);
                proof {
                    assert(results.deep_view() =~= before.remove_duplicates(e) + seq![
                        normalized@,
                    ]);
                }
            }
        }
        i += 1;
    }
    proof {
        assert(ms.take(ms.len() as int) == ms);
    }
    results
}

/// Whether a canonical URL belongs to an official URL seed: the host is the
/// seed or a subdomain of it, or host and path contain the seed. A text that
/// is no URL matches when its lowercase form contains the seed; a URL
/// without host never matches.
pub open spec fn url_seed_matches_of(url: Seq<char>, seed: Seq<char>) -> bool {
    match url_host_path_of(url) {
        None => contains_sub(lowercase_of(url), seed),
        Some((None, _)) => false,
        Some((Some(host), path)) => {
            let h = lowercase_of(host);
            let s = lowercase_of(seed);
            ||| h == s
            ||| has_suffix(h, "."@ + s)
            ||| contains_sub(h + path, s)
        },
    }
}

pub fn url_seed_matches(normalized_url: &str, seed: &str) -> (r: bool)
    ensures
        r == url_seed_matches_of(normalized_url@, seed@),
{
    match url_host_path(normalized_url) {
        None => {
            let lowered = lowercase(normalized_url);
            contains_str(lowered.as_str(), seed)
        },
        Some((None, _)) => false,
        Some((Some(host), path)) => {
            let h = lowercase(host.as_str());
            let s = lowercase(seed);
            if str_eq(h.as_str(), s.as_str()) {
                return true;
            }
            let dotted = concat(".", s.as_str());
            if ends_with_str(h.as_str(), dotted.as_str()) {
                return true;
            }
            let full = concat(h.as_str(), path.as_str());
            contains_str(full.as_str(), s.as_str())
        },
    }
}


/// The query pairs kept are exactly the pairs of the query whose key,
/// lowercased, is none of `spm`, `spm_id_from`, `from`, `from_source`,
/// `fromsharecode`, `fromuid`, `share_source`, `share_medium`,
/// `share_app_id`, `share_iid`, `scene`, and does not start with `utm_`.
pub proof fn lemma_kept_pairs_drop_tracking(pairs: Seq<(Seq<char>, Seq<char>)>)
    ensures
        forall|p: (Seq<char>, Seq<char>)|
            #[trigger] kept_pairs(pairs).contains(p) <==> pairs.contains(p) && !({
                let k = lowercase_of(p.0);
                (k == "spm"@ || k == "spm_id_from"@ || k == "from"@ || k == "from_source"@
                || k == "fromsharecode"@ || k == "fromuid"@ || k == "share_source"@ || k
                == "share_medium"@ || k == "share_app_id"@ || k == "share_iid"@ || k == "scene"@
                || has_prefix(k, "utm_"@))
            }),
    decreases pairs.len(),
{
    if pairs.len() > 0 {
        let init = pairs.drop_last();
        lemma_kept_pairs_drop_tracking(init);
        assert(pairs =~= init.push(pairs.last()));
        assert forall|p: (Seq<char>, Seq<char>)|
            #[trigger] kept_pairs(pairs).contains(p) <==> pairs.contains(p) && !({
                let k = lowercase_of(p.0);
                (k == "spm"@ || k == "spm_id_from"@ || k == "from"@ || k == "from_source"@
                || k == "fromsharecode"@ || k == "fromuid"@ || k == "share_source"@ || k
                == "share_medium"@ || k == "share_app_id"@ || k == "share_iid"@ || k == "scene"@
                || has_prefix(k, "utm_"@))
            }) by {
            assert(init.contains(p) ==> pairs.contains(p)) by {
                if init.contains(p) {
                    let j = choose|j: int| 0 <= j < init.len() && init[j] == p;
                    assert(pairs[j] == p);
                }
            }
            if pairs.contains(p) && p != pairs.last() {
                let j = choose|j: int| 0 <= j < pairs.len() && pairs[j] == p;
                assert(j < init.len());
                assert(init[j] == p);
            }
            let prev = kept_pairs(init);
            if !is_tracking_key(lowercase_of(pairs.last().0)) {
                assert(prev.push(pairs.last())[prev.len() as int] == pairs.last());
                if prev.contains(p) {
                    let j = choose|j: int| 0 <= j < prev.len() && prev[j] == p;
                    assert(prev.push(pairs.last())[j] == p);
                }
                if prev.push(pairs.last()).contains(p) && p != pairs.last() {
                    let j = choose|j: int| 0 <= j < prev.len() + 1 && prev.push(pairs.last())[j] == p;
                    assert(prev[j] == p);
                }
            }
        }
    }
}

/// A URL that parses keeps, in its canonical form, only its pairs whose
/// lowercased key is no tracking parameter (`spm`, `spm_id_from`, `from`,
/// `from_source`, `fromsharecode`, `fromuid`, `share_source`,
/// `share_medium`, `share_app_id`, `share_iid`, `scene`, or a key starting
/// with `utm_`), every one of them, sorted by key and value; with none
/// left the query is dropped. A text that does not parse stays as its
/// normalized text.
pub proof fn lemma_normalized_url_drops_tracking(input: Seq<char>)
    ensures
        ({
            let n = normalized_text_of(input);
            match url_query_pairs_of(n) {
                None => normalized_url_of(input) == n,
                Some(ps) => exists|q: Seq<(Seq<char>, Seq<char>)>|
                    #![trigger sorted_by(q, pair_order())]
                    sorted_by(q, pair_order()) && (forall|p: (Seq<char>, Seq<char>)|
                        #[trigger] q.contains(p) <==> ps.contains(p) && !({
                            let k = lowercase_of(p.0);
                            (k == "spm"@ || k == "spm_id_from"@ || k == "from"@ || k == "from_source"@
                || k == "fromsharecode"@ || k == "fromuid"@ || k == "share_source"@ || k
                == "share_medium"@ || k == "share_app_id"@ || k == "share_iid"@ || k == "scene"@
                || has_prefix(k, "utm_"@))
                        })) && normalized_url_of(input) == match (if q.len() == 0 {
                        url_without_query_of(n)
                    } else {
                        url_with_query_of(n, q)
                    }) {
                        None => n,
                        Some(u) => trim_trailing_slashes(u),
                    },
            }
        }),
{
    let n = normalized_text_of(input);
    if let Some(ps) = url_query_pairs_of(n) {
        let kept = kept_pairs(ps);
        let q = kept.sort_by(pair_order());
        lemma_kept_pairs_drop_tracking(ps);
        lemma_pair_order_total();
        kept.lemma_sort_by_ensures(pair_order());
        kept.to_multiset_ensures();
        q.to_multiset_ensures();
        assert forall|p: (Seq<char>, Seq<char>)| #[trigger] q.contains(p) <==> kept.contains(p) by {
            assert(q.to_multiset().count(p) == kept.to_multiset().count(p));
        }
        assert(q.len() == kept.len()) by {
            assert(q.to_multiset().len() == kept.to_multiset().len());
        }
        assert(sorted_by(q, pair_order()));
    }
}

/// Trimming trailing slashes leaves no trailing slash and removes only
/// slashes: the text is the result followed by slashes.
pub proof fn lemma_trailing_slashes_trimmed(u: Seq<char>)
    ensures
        trim_trailing_slashes(u).len() <= u.len(),
        trim_trailing_slashes(u).len() > 0 ==> trim_trailing_slashes(u).last() != '/',
        trim_trailing_slashes(u) == u.take(trim_trailing_slashes(u).len() as int),
        forall|i: int|
            trim_trailing_slashes(u).len() <= i < u.len() ==> #[trigger] u[i] == '/',
    decreases u.len(),
{
    if u.len() > 0 && u.last() == '/' {
        lemma_trailing_slashes_trimmed(u.drop_last());
        let t = trim_trailing_slashes(u);
        assert(u.drop_last().take(t.len() as int) =~= u.take(t.len() as int));
        assert forall|i: int| t.len() <= i < u.len() implies #[trigger] u[i] == '/' by {
            if i < u.len() - 1 {
                assert(u.drop_last()[i] == u[i]);
            }
        }
    } else {
        assert(u.take(u.len() as int) =~= u);
    }
}

} // verus!
