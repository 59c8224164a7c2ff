//! Event attribution: which kind of event an item reports, by the keywords
//! of the event rules that its title and text contain.
use crate::assets::AssetIndex;
use crate::ext::{lowercase, lowercase_of};
use crate::models::{EventRule, EventRuleV};
use crate::strs::{
    compare_str, concat3, occurs_at, lemma_lex_asymmetric, lemma_lex_irreflexive, lemma_lex_total, lemma_lex_transitive, contains_str, contains_sub, dedup_strings, lex_lt, sort_strings,
    str_eq, str_order, lemma_str_order_total, LexOrder,
};
use vstd::relations::sorted_by;
use vstd::prelude::*;

verus! {

/// The rank of an event kind when two kinds have as many keyword hits:
/// version, launch, test, collab, activity, controversy, then the rest.
pub open spec fn priority_of(kind: Seq<char>) -> int {
    if kind == "version"@ {
        0
    } else if kind == "launch"@ {
        1
    } else if kind == "test"@ {
        2
    } else if kind == "collab"@ {
        3
    } else if kind == "activity"@ {
        4
    } else if kind == "controversy"@ {
        5
    } else {
        9
    }
}

pub fn event_priority(event_type: &str) -> (r: usize)
    ensures
        r == priority_of(event_type@),
{
    if str_eq(event_type, "version") {
        0
    } else if str_eq(event_type, "launch") {
        1
    } else if str_eq(event_type, "test") {
        2
    } else if str_eq(event_type, "collab") {
        3
    } else if str_eq(event_type, "activity") {
        4
    } else if str_eq(event_type, "controversy") {
        5
    } else {
        9
    }
}

/// What the keywords are searched in: the lowercased title and text.
pub open spec fn haystack_of(title: Seq<char>, text: Seq<char>) -> Seq<char> {
    lowercase_of(title) + " "@ + lowercase_of(text)
}

/// The keywords of a rule that occur in the haystack.
pub open spec fn found_keywords(keywords: Seq<Seq<char>>, haystack: Seq<char>) -> Seq<Seq<char>>
    decreases keywords.len(),
{
    if keywords.len() == 0 {
        Seq::<Seq<char>>::empty()
    } else {
        let rest = found_keywords(keywords.drop_last(), haystack);
        if contains_sub(haystack, keywords.last()) {
            rest.push(keywords.last())
        } else {
            rest
        }
    }
}

/// The distinct keywords of a rule that occur, sorted.
pub open spec fn event_hits(rule: EventRuleV, haystack: Seq<char>) -> Seq<Seq<char>> {
    found_keywords(rule.keywords, haystack).remove_duplicates(Seq::<Seq<char>>::empty()).sort_by(
        str_order(),
    )
}

/// Whether `kind` with `hits` keyword hits beats `other` with `other_hits`:
/// more hits, then a lower priority, then a smaller kind.
pub open spec fn beats(hits: int, kind: Seq<char>, other_hits: int, other: Seq<char>) -> bool {
    ||| hits > other_hits
    ||| hits == other_hits && priority_of(kind) < priority_of(other)
    ||| hits == other_hits && priority_of(kind) == priority_of(other) && lex_lt(kind, other)
}

/// The attributed event among `rules`, with its hits: the first rule with
/// hits that no later rule beats.
pub open spec fn best_event(rules: Seq<EventRuleV>, haystack: Seq<char>) -> Option<
    (Seq<char>, Seq<Seq<char>>),
>
    decreases rules.len(),
{
    if rules.len() == 0 {
        None
    } else {
        let prev = best_event(rules.drop_last(), haystack);
        let r = rules.last();
        let hits = event_hits(r, haystack);
        if hits.len() == 0 {
            prev
        } else {
            match prev {
                None => Some((r.kind, hits)),
                Some(cur) => if beats(hits.len() as int, r.kind, cur.1.len() as int, cur.0) {
                    Some((r.kind, hits))
                } else {
                    prev
                },
            }
        }
    }
}

/// The event of an item.
pub struct EventOutcome {
    pub event_type: Option<String>,
    pub keywords: Vec<String>,
}

impl EventOutcome {
    /// The outcome reports `best` (no event and no keywords for `None`).
    pub open spec fn attributes(&self, best: Option<(Seq<char>, Seq<Seq<char>>)>) -> bool {
        match best {
            None => self.event_type is None && self.keywords@.len() == 0,
            Some(b) => self.event_type.deep_view() == Some(b.0) && self.keywords.deep_view() == b.1,
        }
    }
}

fn found_keywords_exec(keywords: &Vec<String>, haystack: &str) -> (r: Vec<String>)
    ensures
        r.deep_view() == found_keywords(keywords.deep_view(), haystack@),
{
    let ghost kv = keywords.deep_view();
    let mut out: Vec<String> = Vec::new();
    let mut i: usize = 0;
    while i < keywords.len()
        invariant
            kv == keywords.deep_view(),
            i <= kv.len(),
            out.deep_view() == found_keywords(kv.take(i as int), haystack@),
        decreases kv.len() - i,
    {
        proof {
            assert(kv.take(i + 1).drop_last() == kv.take(i as int));
            assert(kv.take(i + 1).last() == kv[i as int]);
        }
        if contains_str(haystack, keywords[i].as_str()) {
            let ghost before = out.deep_view();
            out.push(keywords[i].clone());
            proof {
                assert(out.deep_view() =~= before.push(kv[i as int]));
            }
        }
        i += 1;
    }
    proof {
        assert(kv.take(kv.len() as int) == kv);
    }
    out
}

fn beats_exec(hits: usize, kind: &str, other_hits: usize, other: &str) -> (r: bool)
    ensures
        r == beats(hits as int, kind@, other_hits as int, other@),
{
    if hits > other_hits {
        return true;
    }
    if hits < other_hits {
        return false;
    }
    let p = event_priority(kind);
    let q = event_priority(other);
    if p < q {
        return true;
    }
    if p > q {
        return false;
    }
    match compare_str(kind, other) {
        LexOrder::Less => true,
        _ => {
            proof {
                lemma_lex_irreflexive(kind@);
                lemma_lex_asymmetric(kind@, other@);
            }
            false
        },
    }
}

/// Attributes an event to an item with the given normalized title and text.
pub fn attribute_event(assets: &AssetIndex, title: &str, text: &str) -> (r: EventOutcome)
    ensures
        r.attributes(best_event(assets.event_rules.deep_view(), haystack_of(title@, text@))),
{
    let lowered_title = lowercase(title);
    let lowered_text = lowercase(text);
    let haystack = concat3(lowered_title.as_str(), " ", lowered_text.as_str());
    let ghost hay = haystack@;
    let ghost rules = assets.event_rules.deep_view();
    let mut best_kind: Option<String> = None;
    let mut best_hits: Vec<String> = Vec::new();
    let mut i: usize = 0;
    while i < assets.event_rules.len()
        invariant
            rules == assets.event_rules.deep_view(),
            hay == haystack@,
            i <= rules.len(),
            match best_event(rules.take(i as int), hay) {
                None => best_kind is None && best_hits@.len() == 0,
                Some(best) => best_kind.deep_view() == Some(best.0) && best_hits.deep_view()
                    == best.1,
            },
        decreases rules.len() - i,
    {
        proof {
            assert(rules.take(i + 1).drop_last() == rules.take(i as int));
            assert(rules.take(i + 1).last() == rules[i as int]);
        }
        let rule: &EventRule = &assets.event_rules[i];
        let found = found_keywords_exec(&rule.keywords, haystack.as_str());
        let distinct = dedup_strings(&found);
        let hits = sort_strings(distinct);
        proof {
            assert(rules[i as int] == rule.deep_view());
            assert(hits.deep_view() == event_hits(rule.deep_view(), hay));
            assert(hits@.len() == hits.deep_view().len());
        }
        if hits.len() > 0 {
            let replace = match &best_kind {
                None => true,
                Some(k) => beats_exec(hits.len(), rule.kind.as_str(), best_hits.len(), k.as_str()),
            };
            if replace {
                best_kind = Some(rule.kind.clone());
                best_hits = hits;
            }
        }
        i += 1;
    }
    proof {
        assert(rules.take(rules.len() as int) == rules);
    }
    EventOutcome { event_type: best_kind, keywords: best_hits }
}

// ---------------------------------------------------------------------------
// laws

proof fn lemma_beats_irreflexive(h: int, k: Seq<char>)
    ensures
        !beats(h, k, h, k),
{
    lemma_lex_irreflexive(k);
}

proof fn lemma_beats_transitive(
    h1: int,
    k1: Seq<char>,
    h2: int,
    k2: Seq<char>,
    h3: int,
    k3: Seq<char>,
)
    requires
        beats(h1, k1, h2, k2),
        beats(h2, k2, h3, k3),
    ensures
        beats(h1, k1, h3, k3),
{
    if h1 == h2 && h2 == h3 && priority_of(k1) == priority_of(k2) && priority_of(k2)
        == priority_of(k3) {
        lemma_lex_transitive_strict(k1, k2, k3);
    }
}

proof fn lemma_lex_transitive_strict(a: Seq<char>, b: Seq<char>, c: Seq<char>)
    requires
        lex_lt(a, b),
        lex_lt(b, c),
    ensures
        lex_lt(a, c),
{
    crate::strs::lemma_lex_transitive(a, b, c);
    if a == c {
        lemma_lex_asymmetric(a, b);
    }
}

/// The attributed event is that of a rule with hits that no rule with hits
/// beats (more hits, then a lower priority, then a smaller kind); there is
/// none exactly when no rule has hits.
pub proof fn lemma_best_event_is_best(rules: Seq<EventRuleV>, haystack: Seq<char>)
    ensures
        match best_event(rules, haystack) {
            None => forall|i: int|
                0 <= i < rules.len() ==> #[trigger] event_hits(rules[i], haystack).len() == 0,
            Some(best) => {
                &&& best.1.len() > 0
                &&& exists|i: int|
                    0 <= i < rules.len() && rules[i].kind == best.0 && #[trigger] event_hits(
                        rules[i],
                        haystack,
                    ) == best.1
                &&& forall|i: int|
                    0 <= i < rules.len() && #[trigger] event_hits(rules[i], haystack).len() > 0
                        ==> !beats(
                        event_hits(rules[i], haystack).len() as int,
                        rules[i].kind,
                        best.1.len() as int,
                        best.0,
                    )
            },
        },
    decreases rules.len(),
{
    if rules.len() > 0 {
        let init = rules.drop_last();
        lemma_best_event_is_best(init, haystack);
        let r = rules.last();
        let hits = event_hits(r, haystack);
        assert forall|i: int| 0 <= i < init.len() implies #[trigger] rules[i] == init[i] by {}
        assert(rules[rules.len() - 1] == r);
        match best_event(init, haystack) {
            None => {
                if hits.len() > 0 {
                    let best = (r.kind, hits);
                    assert(event_hits(rules[rules.len() - 1], haystack) == best.1);
                    assert forall|i: int|
                        0 <= i < rules.len() && #[trigger] event_hits(rules[i], haystack).len() > 0
                            implies !beats(
                            event_hits(rules[i], haystack).len() as int,
                            rules[i].kind,
                            best.1.len() as int,
                            best.0,
                        ) by {
                        if i < init.len() {
                            assert(event_hits(init[i], haystack).len() == 0);
                        } else {
                            lemma_beats_irreflexive(hits.len() as int, r.kind);
                        }
                    }
                }
            },
            Some(cur) => {
                let (ci, ck, ch) = {
                    let i = choose|i: int|
                        0 <= i < init.len() && init[i].kind == cur.0 && #[trigger] event_hits(
                            init[i],
                            haystack,
                        ) == cur.1;
                    (i, cur.0, cur.1)
                };
                assert(rules[ci] == init[ci]);
                if hits.len() > 0 && beats(hits.len() as int, r.kind, cur.1.len() as int, cur.0) {
                    let best = (r.kind, hits);
                    assert(event_hits(rules[rules.len() - 1], haystack) == best.1);
                    assert forall|i: int|
                        0 <= i < rules.len() && #[trigger] event_hits(rules[i], haystack).len() > 0
                            implies !beats(
                            event_hits(rules[i], haystack).len() as int,
                            rules[i].kind,
                            best.1.len() as int,
                            best.0,
                        ) by {
                        if i < init.len() {
                            assert(rules[i] == init[i]);
                            if beats(
                                event_hits(rules[i], haystack).len() as int,
                                rules[i].kind,
                                best.1.len() as int,
                                best.0,
                            ) {
                                lemma_beats_transitive(
                                    event_hits(rules[i], haystack).len() as int,
                                    rules[i].kind,
                                    hits.len() as int,
                                    r.kind,
                                    cur.1.len() as int,
                                    cur.0,
                                );
                            }
                        } else {
                            lemma_beats_irreflexive(hits.len() as int, r.kind);
                        }
                    }
                } else {
                    assert forall|i: int|
                        0 <= i < rules.len() && #[trigger] event_hits(rules[i], haystack).len() > 0
                            implies !beats(
                            event_hits(rules[i], haystack).len() as int,
                            rules[i].kind,
                            cur.1.len() as int,
                            cur.0,
                        ) by {
                        if i < init.len() {
                            assert(rules[i] == init[i]);
                        }
                    }
                }
            },
        }
    }
}

proof fn lemma_found_keywords_occur(keywords: Seq<Seq<char>>, haystack: Seq<char>)
    ensures
        forall|k: Seq<char>| #[trigger] found_keywords(keywords, haystack).contains(k) ==> contains_sub(
            haystack,
            k,
        ) && keywords.contains(k),
    decreases keywords.len(),
{
    if keywords.len() > 0 {
        let init = keywords.drop_last();
        lemma_found_keywords_occur(init, haystack);
        let rest = found_keywords(init, haystack);
        assert forall|k: Seq<char>| #[trigger] found_keywords(keywords, haystack).contains(k) implies contains_sub(
            haystack,
            k,
        ) && keywords.contains(k) by {
            let f = found_keywords(keywords, haystack);
            let i = choose|i: int| 0 <= i < f.len() && f[i] == k;
            if i < rest.len() {
                assert(rest[i] == k);
                assert(rest.contains(k));
                let j = choose|j: int| 0 <= j < init.len() && init[j] == k;
                assert(keywords[j] == k);
            } else {
                assert(k == keywords.last());
                assert(keywords[keywords.len() - 1] == k);
            }
        }
    }
}

/// The hits of a rule are keywords of the rule that occur in the haystack,
/// each once, in `str` order.
pub proof fn lemma_hits_are_found_keywords(rule: EventRuleV, haystack: Seq<char>)
    ensures
        forall|k: Seq<char>| #[trigger] event_hits(rule, haystack).contains(k) ==> contains_sub(
            haystack,
            k,
        ) && rule.keywords.contains(k),
        sorted_by(event_hits(rule, haystack), str_order()),
{
    let f = found_keywords(rule.keywords, haystack);
    let e = Seq::<Seq<char>>::empty();
    let d = f.remove_duplicates(e);
    lemma_found_keywords_occur(rule.keywords, haystack);
    f.lemma_remove_duplicates_properties(e);
    lemma_str_order_total();
    d.lemma_sort_by_ensures(str_order());
    assert(f + e =~= f);
    assert forall|k: Seq<char>| #[trigger] event_hits(rule, haystack).contains(k) implies contains_sub(
        haystack,
        k,
    ) && rule.keywords.contains(k) by {
        assert(d.contains(k));
        assert((f + e).contains(k));
        assert(f.contains(k));
    }
}

/// Every keyword reported with the attributed event occurs in the haystack
/// and is a keyword of that event's rule.
pub proof fn lemma_attributed_keywords_occur(rules: Seq<EventRuleV>, haystack: Seq<char>)
    ensures
        best_event(rules, haystack) matches Some(best) ==> (forall|k: Seq<char>|
            #[trigger] best.1.contains(k) ==> contains_sub(haystack, k)),
{
    lemma_best_event_is_best(rules, haystack);
    if best_event(rules, haystack) is Some {
        let best = best_event(rules, haystack).unwrap();
        let i = choose|i: int|
            0 <= i < rules.len() && rules[i].kind == best.0 && #[trigger] event_hits(
                rules[i],
                haystack,
            ) == best.1;
        lemma_hits_are_found_keywords(rules[i], haystack);
    }
}


proof fn lemma_contains_in_concat(a: Seq<char>, b: Seq<char>, k: Seq<char>)
    ensures
        contains_sub(a, k) ==> contains_sub(a + b, k),
        contains_sub(b, k) ==> contains_sub(a + b, k),
{
    if contains_sub(a, k) {
        let i = choose|i: int| #[trigger] occurs_at(a, k, i);
        assert((a + b).subrange(i, i + k.len()) =~= a.subrange(i, i + k.len()));
        assert(occurs_at(a + b, k, i));
    }
    if contains_sub(b, k) {
        let j = choose|j: int| #[trigger] occurs_at(b, k, j);
        let i = a.len() + j;
        assert((a + b).subrange(i, i + k.len()) =~= b.subrange(j, j + k.len()));
        assert(occurs_at(a + b, k, i));
    }
}

proof fn lemma_found_keywords_has(keywords: Seq<Seq<char>>, haystack: Seq<char>, k: Seq<char>)
    requires
        keywords.contains(k),
        contains_sub(haystack, k),
    ensures
        found_keywords(keywords, haystack).contains(k),
    decreases keywords.len(),
{
    let init = keywords.drop_last();
    if keywords.last() == k {
        let f = found_keywords(keywords, haystack);
        assert(f[f.len() - 1] == k);
    } else {
        let j = choose|j: int| 0 <= j < keywords.len() && keywords[j] == k;
        assert(j < init.len());
        assert(init[j] == k);
        lemma_found_keywords_has(init, haystack, k);
        let rest = found_keywords(init, haystack);
        let m = choose|m: int| 0 <= m < rest.len() && rest[m] == k;
        if contains_sub(haystack, keywords.last()) {
            assert(rest.push(keywords.last())[m] == k);
        }
    }
}

/// A keyword of a rule that occurs in the haystack is one of its hits.
proof fn lemma_hits_has(rule: EventRuleV, haystack: Seq<char>, k: Seq<char>)
    requires
        rule.keywords.contains(k),
        contains_sub(haystack, k),
    ensures
        event_hits(rule, haystack).contains(k),
{
    let f = found_keywords(rule.keywords, haystack);
    let e = Seq::<Seq<char>>::empty();
    let d = f.remove_duplicates(e);
    lemma_found_keywords_has(rule.keywords, haystack, k);
    f.lemma_remove_duplicates_properties(e);
    assert(f + e =~= f);
    assert((f + e).contains(k));
    assert(d.contains(k));
    lemma_str_order_total();
    d.lemma_sort_by_ensures(str_order());
    d.to_multiset_ensures();
    d.sort_by(str_order()).to_multiset_ensures();
    assert(d.sort_by(str_order()).to_multiset().count(k) == d.to_multiset().count(k));
}

/// Keywords are searched in the lowercased title and in the lowercased
/// text of an item: a keyword of a rule that occurs in either is one of
/// that rule's hits, and an item whose lowercased title or text holds a
/// keyword of some rule is attributed an event.
pub proof fn lemma_title_and_text_are_searched(
    rules: Seq<EventRuleV>,
    title: Seq<char>,
    text: Seq<char>,
)
    ensures
        forall|i: int, k: Seq<char>|
            0 <= i < rules.len() && #[trigger] rules[i].keywords.contains(k) && (contains_sub(
                lowercase_of(title),
                k,
            ) || contains_sub(lowercase_of(text), k)) ==> event_hits(
                rules[i],
                haystack_of(title, text),
            ).contains(k),
        (exists|i: int, k: Seq<char>|
            0 <= i < rules.len() && #[trigger] rules[i].keywords.contains(k) && (contains_sub(
                lowercase_of(title),
                k,
            ) || contains_sub(lowercase_of(text), k))) ==> best_event(
            rules,
            haystack_of(title, text),
        ) is Some,
{
    let h = haystack_of(title, text);
    assert forall|i: int, k: Seq<char>|
        0 <= i < rules.len() && #[trigger] rules[i].keywords.contains(k) && (contains_sub(
            lowercase_of(title),
            k,
        ) || contains_sub(lowercase_of(text), k)) implies event_hits(rules[i], h).contains(k) by {
        lemma_contains_in_concat(lowercase_of(title), " "@, k);
        lemma_contains_in_concat(lowercase_of(title) + " "@, lowercase_of(text), k);
        lemma_hits_has(rules[i], h, k);
    }
    lemma_best_event_is_best(rules, h);
    if exists|i: int, k: Seq<char>|
        0 <= i < rules.len() && #[trigger] rules[i].keywords.contains(k) && (contains_sub(
            lowercase_of(title),
            k,
        ) || contains_sub(lowercase_of(text), k)) {
        let (i, k) = choose|i: int, k: Seq<char>|
            0 <= i < rules.len() && #[trigger] rules[i].keywords.contains(k) && (contains_sub(
                lowercase_of(title),
                k,
            ) || contains_sub(lowercase_of(text), k));
        assert(event_hits(rules[i], h).contains(k));
        assert(event_hits(rules[i], h).len() > 0);
    }
}


/// The ranks of event kinds on equal hits: `version` 0, `launch` 1, `test`
/// 2, `collab` 3, `activity` 4, `controversy` 5, any other kind 9.
pub proof fn lemma_event_ranks(kind: Seq<char>)
    ensures
        priority_of("version"@) == 0,
        priority_of("launch"@) == 1,
        priority_of("test"@) == 2,
        priority_of("collab"@) == 3,
        priority_of("activity"@) == 4,
        priority_of("controversy"@) == 5,
        (kind != "version"@ && kind != "launch"@ && kind != "test"@ && kind != "collab"@ && kind
            != "activity"@ && kind != "controversy"@) ==> priority_of(kind) == 9,
{
    reveal_strlit("version");
    reveal_strlit("launch");
    reveal_strlit("test");
    reveal_strlit("collab");
    reveal_strlit("activity");
    reveal_strlit("controversy");
    assert("launch"@[0] != "version"@[0]);
    assert("test"@[0] != "version"@[0]);
    assert("test"@[0] != "launch"@[0]);
    assert("collab"@[0] != "version"@[0]);
    assert("collab"@[0] != "launch"@[0]);
    assert("collab"@[0] != "test"@[0]);
    assert("activity"@[0] != "version"@[0]);
    assert("activity"@[0] != "launch"@[0]);
    assert("activity"@[0] != "test"@[0]);
    assert("activity"@[0] != "collab"@[0]);
    assert("controversy"@[0] != "version"@[0]);
    assert("controversy"@[0] != "launch"@[0]);
    assert("controversy"@[0] != "test"@[0]);
    assert("controversy"@[2] != "collab"@[2]);
    assert("controversy"@[0] != "activity"@[0]);
}

/// The attributed event has the most hits of all rules, and of the rules
/// with as many hits it has the lowest rank, and of those with that rank
/// too the smallest kind.
pub proof fn lemma_best_event_has_most_hits(rules: Seq<EventRuleV>, haystack: Seq<char>)
    ensures
        best_event(rules, haystack) matches Some(best) ==> forall|i: int|
            0 <= i < rules.len() ==> {
                let h = #[trigger] event_hits(rules[i], haystack).len();
                &&& h <= best.1.len()
                &&& h == best.1.len() ==> priority_of(best.0) <= priority_of(rules[i].kind)
                &&& h == best.1.len() && priority_of(best.0) == priority_of(rules[i].kind)
                    ==> rules[i].kind == best.0 || lex_lt(best.0, rules[i].kind)
            },
{
    lemma_best_event_is_best(rules, haystack);
    if let Some(best) = best_event(rules, haystack) {
        assert forall|i: int| 0 <= i < rules.len() implies {
            let h = #[trigger] event_hits(rules[i], haystack).len();
            &&& h <= best.1.len()
            &&& h == best.1.len() ==> priority_of(best.0) <= priority_of(rules[i].kind)
            &&& h == best.1.len() && priority_of(best.0) == priority_of(rules[i].kind)
                ==> rules[i].kind == best.0 || lex_lt(best.0, rules[i].kind)
        } by {
            let h = event_hits(rules[i], haystack).len();
            if h > 0 {
                assert(!beats(h as int, rules[i].kind, best.1.len() as int, best.0));
                if h == best.1.len() && priority_of(best.0) == priority_of(rules[i].kind)
                    && rules[i].kind != best.0 {
                    lemma_lex_total(best.0, rules[i].kind);
                }
            }
        }
    }
}

} // verus!
