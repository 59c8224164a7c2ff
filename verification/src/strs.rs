//! Character-level string helpers with their specifications.
//!
//! Strings are viewed as `Seq<char>`; every helper here states its result
//! over that view.
use vstd::prelude::*;
use vstd::relations::{sorted_by, total_ordering};
use vstd::seq_lib::lemma_sorted_unique;

verus! {

/// Unicode `White_Space` code points, the set that `char::is_whitespace`,
/// `str::trim` and the regex class `\s` all use.
pub open spec fn is_ws(c: char) -> bool {
    let u = c as u32;
    ||| 0x9 <= u && u <= 0xd
    ||| u == 0x20
    ||| u == 0x85
    ||| u == 0xa0
    ||| u == 0x1680
    ||| 0x2000 <= u && u <= 0x200a
    ||| u == 0x2028
    ||| u == 0x2029
    ||| u == 0x202f
    ||| u == 0x205f
    ||| u == 0x3000
}

pub fn is_ws_char(c: char) -> (r: bool)
    ensures
        r == is_ws(c),
{
    let u = c as u32;
    (0x9 <= u && u <= 0xd) || u == 0x20 || u == 0x85 || u == 0xa0 || u == 0x1680 || (0x2000 <= u
        && u <= 0x200a) || u == 0x2028 || u == 0x2029 || u == 0x202f || u == 0x205f || u == 0x3000
}

/// Appends one character; `String::push`.
#[verifier::external_body]
pub(crate) fn push_char(s: &mut String, c: char)
    ensures
        final(s)@ == old(s)@.push(c),
{
    s.push(c);
}

/// Appends a string slice.
pub fn push_str(s: &mut String, t: &str)
    ensures
        final(s)@ == old(s)@ + t@,
{
    let ghost start = s@;
    for c in it: t.chars()
        invariant
            it.seq() == t@,
            s@ == start + it.seq().take(it.index() as int),
    {
        proof {
            assert(it.seq().take(it.index() + 1) == it.seq().take(it.index() as int).push(c));
        }
        push_char(s, c);
    }
    proof {
        assert(t@.take(t@.len() as int) == t@);
    }
}

/// A fresh `String` holding the characters of `t`.
pub fn owned(t: &str) -> (r: String)
    ensures
        r@ == t@,
{
    t.to_owned()
}

/// `a + b` as a fresh `String`.
pub fn concat(a: &str, b: &str) -> (r: String)
    ensures
        r@ == a@ + b@,
{
    let mut r = owned(a);
    push_str(&mut r, b);
    r
}

/// `a + b + c` as a fresh `String`.
pub fn concat3(a: &str, b: &str, c: &str) -> (r: String)
    ensures
        r@ == a@ + b@ + c@,
{
    let mut r = concat(a, b);
    push_str(&mut r, c);
    r
}

/// The characters of `t`, by index.
pub fn chars_of(t: &str) -> (r: Vec<char>)
    ensures
        r@ == t@,
{
    let mut r: Vec<char> = Vec::new();
    for c in it: t.chars()
        invariant
            it.seq() == t@,
            r@ == it.seq().take(it.index() as int),
    {
        proof {
            assert(it.seq().take(it.index() + 1) == it.seq().take(it.index() as int).push(c));
        }
        r.push(c);
    }
    proof {
        assert(t@.take(t@.len() as int) == t@);
    }
    r
}

/// The string made of the characters `cs[lo..hi]`.
pub fn string_of_range(cs: &Vec<char>, lo: usize, hi: usize) -> (r: String)
    requires
        lo <= hi <= cs@.len(),
    ensures
        r@ == cs@.subrange(lo as int, hi as int),
{
    let mut r = String::new();
    let mut i = lo;
    while i < hi
        invariant
            lo <= i <= hi <= cs@.len(),
            r@ == cs@.subrange(lo as int, i as int),
        decreases hi - i,
    {
        proof {
            assert(cs@.subrange(lo as int, i + 1) == cs@.subrange(lo as int, i as int).push(
                cs@[i as int],
            ));
        }
        push_char(&mut r, cs[i]);
        i += 1;
    }
    r
}

/// Equality of two string slices by their characters.
pub fn str_eq(a: &str, b: &str) -> (r: bool)
    ensures
        r == (a@ == b@),
{
    let x = owned(a);
    let y = owned(b);
    x == y
}

/// Number of characters.
pub fn char_count(t: &str) -> (r: usize)
    ensures
        r == t@.len(),
{
    let cs = chars_of(t);
    cs.len()
}

// ---------------------------------------------------------------------------
// substrings

pub open spec fn has_prefix(s: Seq<char>, p: Seq<char>) -> bool {
    p.len() <= s.len() && s.subrange(0, p.len() as int) == p
}

pub open spec fn has_suffix(s: Seq<char>, p: Seq<char>) -> bool {
    p.len() <= s.len() && s.subrange(s.len() - p.len(), s.len() as int) == p
}

pub open spec fn occurs_at(s: Seq<char>, p: Seq<char>, i: int) -> bool {
    0 <= i && i + p.len() <= s.len() && s.subrange(i, i + p.len()) == p
}

/// `s` contains `p` as a contiguous substring (the empty string is in every string).
pub open spec fn contains_sub(s: Seq<char>, p: Seq<char>) -> bool {
    exists|i: int| #[trigger] occurs_at(s, p, i)
}

fn occurs_at_exec(s: &Vec<char>, p: &Vec<char>, i: usize) -> (r: bool)
    requires
        i + p@.len() <= s@.len(),
    ensures
        r == occurs_at(s@, p@, i as int),
{
    let n = s.len();
    let m = p.len();
    let mut k: usize = 0;
    while k < m
        invariant
            n == s@.len(),
            m == p@.len(),
            i + p@.len() <= s@.len(),
            k <= p@.len(),
            forall|j: int| 0 <= j < k ==> s@[i + j] == p@[j],
        decreases p@.len() - k,
    {
        if s[i + k] != p[k] {
            proof {
                assert(s@.subrange(i as int, i + p@.len())[k as int] != p@[k as int]);
            }
            return false;
        }
        k += 1;
    }
    proof {
        assert(s@.subrange(i as int, i + p@.len()) =~= p@);
    }
    true
}

pub fn contains_chars(s: &Vec<char>, p: &Vec<char>) -> (r: bool)
    ensures
        r == contains_sub(s@, p@),
{
    if p.len() > s.len() {
        proof {
            assert forall|i: int| !occurs_at(s@, p@, i) by {}
        }
        return false;
    }
    if p.len() == 0 {
        proof {
            assert(s@.subrange(0, 0) =~= p@);
            assert(occurs_at(s@, p@, 0));
        }
        return true;
    }
    let n = s.len();
    let m = p.len();
    let mut i: usize = 0;
    while i <= n - m
        invariant
            n == s@.len(),
            m == p@.len(),
            m > 0,
            p@.len() <= s@.len(),
            i <= s@.len() - p@.len() + 1,
            forall|j: int| 0 <= j < i ==> !occurs_at(s@, p@, j),
        decreases s@.len() + 1 - i,
    {
        if occurs_at_exec(s, p, i) {
            return true;
        }
        i += 1;
    }
    proof {
        assert forall|j: int| !occurs_at(s@, p@, j) by {
            if 0 <= j && j < i {
            }
        }
    }
    false
}

/// `str::contains` with a string pattern.
pub fn contains_str(s: &str, p: &str) -> (r: bool)
    ensures
        r == contains_sub(s@, p@),
{
    let sc = chars_of(s);
    let pc = chars_of(p);
    contains_chars(&sc, &pc)
}

/// `str::starts_with` with a string pattern.
pub fn starts_with_str(s: &str, p: &str) -> (r: bool)
    ensures
        r == has_prefix(s@, p@),
{
    let sc = chars_of(s);
    let pc = chars_of(p);
    if pc.len() > sc.len() {
        return false;
    }
    let r = occurs_at_exec(&sc, &pc, 0);
    proof {
        assert(occurs_at(s@, p@, 0) == has_prefix(s@, p@));
    }
    r
}

/// `str::ends_with` with a string pattern.
pub fn ends_with_str(s: &str, p: &str) -> (r: bool)
    ensures
        r == has_suffix(s@, p@),
{
    let sc = chars_of(s);
    let pc = chars_of(p);
    if pc.len() > sc.len() {
        return false;
    }
    let r = occurs_at_exec(&sc, &pc, sc.len() - pc.len());
    proof {
        assert(occurs_at(s@, p@, s@.len() - p@.len()) == has_suffix(s@, p@));
    }
    r
}

// ---------------------------------------------------------------------------
// plain text

/// ASCII lowercase of a character.
pub open spec fn ascii_lower(c: char) -> char {
    if 'A' <= c && c <= 'Z' {
        ((c as int) + 32) as char
    } else {
        c
    }
}

/// ASCII lowercase of a text.
pub open spec fn ascii_lower_all(s: Seq<char>) -> Seq<char> {
    s.map_values(|c: char| ascii_lower(c))
}

/// An ASCII character, or an ideograph of the CJK Unified Ideographs
/// block (U+4E00 to U+9FFF).
pub open spec fn is_plain_char(c: char) -> bool {
    (c as u32) < 0x80 || (0x4e00 <= (c as u32) && (c as u32) <= 0x9fff)
}

/// A text of ASCII characters and CJK unified ideographs only.
pub open spec fn is_plain(s: Seq<char>) -> bool {
    forall|i: int| 0 <= i < s.len() ==> is_plain_char(#[trigger] s[i])
}

// ---------------------------------------------------------------------------
// whitespace

/// Scan state of whitespace collapsing over a prefix: the text emitted so far,
/// and whether a run of whitespace is waiting to become one space.
pub open spec fn collapse_ws_state(s: Seq<char>) -> (Seq<char>, bool)
    decreases s.len(),
{
    if s.len() == 0 {
        (Seq::<char>::empty(), false)
    } else {
        let prev = collapse_ws_state(s.drop_last());
        let c = s.last();
        if is_ws(c) {
            (prev.0, prev.0.len() > 0)
        } else if prev.1 {
            (prev.0.push(' ').push(c), false)
        } else {
            (prev.0.push(c), false)
        }
    }
}

/// Every run of whitespace becomes one space, and the ends are trimmed: the
/// regex replacement of `\s+` by `" "` followed by `str::trim`.
pub open spec fn collapse_ws(s: Seq<char>) -> Seq<char> {
    collapse_ws_state(s).0
}

/// Whitespace stands in `t` only as single spaces between non-whitespace
/// characters: `t` is its own collapsed form.
pub open spec fn is_collapsed(t: Seq<char>) -> bool {
    forall|i: int|
        0 <= i < t.len() && is_ws(#[trigger] t[i]) ==> t[i] == ' ' && 0 < i && i + 1 < t.len()
            && !is_ws(t[i - 1]) && !is_ws(t[i + 1])
}

proof fn lemma_collapse_state_shape(s: Seq<char>)
    ensures
        is_collapsed(collapse_ws_state(s).0),
        collapse_ws_state(s).0.len() > 0 ==> !is_ws(collapse_ws_state(s).0.last()),
        collapse_ws_state(s).1 ==> collapse_ws_state(s).0.len() > 0,
        is_plain(s) ==> is_plain(collapse_ws_state(s).0),
    decreases s.len(),
{
    if s.len() > 0 {
        let init = s.drop_last();
        lemma_collapse_state_shape(init);
        if is_plain(s) {
            assert forall|i: int| 0 <= i < init.len() implies is_plain_char(#[trigger] init[i]) by {
                assert(init[i] == s[i]);
            }
            assert(is_plain_char(s[s.len() - 1]));
        }
        let prev = collapse_ws_state(init);
        let o = prev.0;
        let c = s.last();
        if is_ws(c) {
        } else if prev.1 {
            let t = o.push(' ').push(c);
            assert(is_ws(' '));
            assert forall|i: int| 0 <= i < t.len() && is_ws(#[trigger] t[i]) implies t[i] == ' '
                && 0 < i && i + 1 < t.len() && !is_ws(t[i - 1]) && !is_ws(t[i + 1]) by {
                if i < o.len() {
                    assert(t[i] == o[i]);
                    if i + 1 < o.len() {
                        assert(t[i + 1] == o[i + 1]);
                    }
                    assert(i + 1 != o.len());
                    if i > 0 {
                        assert(t[i - 1] == o[i - 1]);
                    }
                } else {
                    assert(i == o.len());
                    assert(t[i - 1] == o.last());
                }
            }
            if is_plain(s) {
                assert forall|i: int| 0 <= i < t.len() implies is_plain_char(#[trigger] t[i]) by {
                    if i < o.len() {
                        assert(t[i] == o[i]);
                    }
                }
            }
        } else {
            let t = o.push(c);
            assert forall|i: int| 0 <= i < t.len() && is_ws(#[trigger] t[i]) implies t[i] == ' '
                && 0 < i && i + 1 < t.len() && !is_ws(t[i - 1]) && !is_ws(t[i + 1]) by {
                assert(i < o.len());
                assert(t[i] == o[i]);
                if i + 1 < o.len() {
                    assert(t[i + 1] == o[i + 1]);
                }
                assert(i + 1 != o.len());
                if i > 0 {
                    assert(t[i - 1] == o[i - 1]);
                }
            }
            if is_plain(s) {
                assert forall|i: int| 0 <= i < t.len() implies is_plain_char(#[trigger] t[i]) by {
                    if i < o.len() {
                        assert(t[i] == o[i]);
                    }
                }
            }
        }
    }
}

proof fn lemma_collapse_state_chars(s: Seq<char>)
    ensures
        forall|i: int|
            0 <= i < collapse_ws_state(s).0.len() ==> #[trigger] collapse_ws_state(s).0[i] == ' '
                || s.contains(collapse_ws_state(s).0[i]),
    decreases s.len(),
{
    if s.len() > 0 {
        let init = s.drop_last();
        lemma_collapse_state_chars(init);
        let o = collapse_ws_state(init).0;
        let t = collapse_ws_state(s).0;
        assert forall|i: int| 0 <= i < t.len() implies #[trigger] t[i] == ' ' || s.contains(t[i]) by {
            if i < o.len() {
                assert(t[i] == o[i]);
                if init.contains(o[i]) {
                    let j = choose|j: int| 0 <= j < init.len() && init[j] == o[i];
                    assert(s[j] == o[i]);
                }
            } else if t[i] != ' ' {
                assert(t[i] == s.last());
                assert(s[s.len() - 1] == t[i]);
            }
        }
    }
}

/// Every character of the collapsed form is a space or a character of the
/// text.
pub proof fn lemma_collapse_chars(s: Seq<char>)
    ensures
        forall|i: int|
            0 <= i < collapse_ws(s).len() ==> #[trigger] collapse_ws(s)[i] == ' ' || s.contains(
                collapse_ws(s)[i],
            ),
{
    lemma_collapse_state_chars(s);
}

/// The collapsed form has whitespace only as single spaces between other
/// characters, and keeps a plain text plain.
pub proof fn lemma_collapse_shape(s: Seq<char>)
    ensures
        is_collapsed(collapse_ws(s)),
        is_plain(s) ==> is_plain(collapse_ws(s)),
{
    lemma_collapse_state_shape(s);
}

proof fn lemma_collapsed_prefix(t: Seq<char>, k: int)
    requires
        is_collapsed(t),
        0 <= k <= t.len(),
    ensures
        collapse_ws_state(t.take(k)) == (if k > 0 && is_ws(t[k - 1]) {
            (t.take(k - 1), true)
        } else {
            (t.take(k), false)
        }),
    decreases k,
{
    if k > 0 {
        lemma_collapsed_prefix(t, k - 1);
        assert(t.take(k).drop_last() =~= t.take(k - 1));
        assert(t.take(k).last() == t[k - 1]);
        let c = t[k - 1];
        if is_ws(c) {
            assert(k - 1 > 0);
            assert(!is_ws(t[k - 2]));
        } else if k > 1 && is_ws(t[k - 2]) {
            assert(t[k - 2] == ' ');
            assert(t.take(k - 2).push(' ').push(c) =~= t.take(k));
        } else {
            assert(t.take(k - 1).push(c) =~= t.take(k));
        }
    }
}

/// A text whose whitespace stands only as single spaces between other
/// characters is its own collapsed form.
pub proof fn lemma_collapsed_is_fixed(t: Seq<char>)
    requires
        is_collapsed(t),
    ensures
        collapse_ws(t) == t,
{
    lemma_collapsed_prefix(t, t.len() as int);
    assert(t.take(t.len() as int) =~= t);
    if t.len() > 0 && is_ws(t[t.len() - 1]) {
        assert(t.len() - 1 + 1 < t.len());
    }
}

/// Collapsing whitespace twice is collapsing it once.
pub proof fn lemma_collapse_idempotent(s: Seq<char>)
    ensures
        collapse_ws(collapse_ws(s)) == collapse_ws(s),
{
    lemma_collapse_shape(s);
    lemma_collapsed_is_fixed(collapse_ws(s));
}

/// ASCII lowercasing keeps a plain text plain and its whitespace where it
/// was, and lowercasing again changes nothing.
pub proof fn lemma_ascii_lower_shape(t: Seq<char>)
    ensures
        is_plain(t) ==> is_plain(ascii_lower_all(t)),
        is_collapsed(t) ==> is_collapsed(ascii_lower_all(t)),
        ascii_lower_all(ascii_lower_all(t)) == ascii_lower_all(t),
{
    let l = ascii_lower_all(t);
    assert forall|i: int| 0 <= i < t.len() implies #[trigger] is_ws(l[i]) == is_ws(t[i]) && (
    is_plain_char(t[i]) ==> is_plain_char(l[i])) && (is_ws(l[i]) ==> l[i] == t[i]) by {
        let c = t[i];
        if 'A' <= c && c <= 'Z' {
            assert(l[i] == ((c as int) + 32) as char);
        }
    }
    if is_plain(t) {
        assert forall|i: int| 0 <= i < l.len() implies is_plain_char(#[trigger] l[i]) by {
            assert(is_ws(l[i]) == is_ws(t[i]));
        }
    }
    if is_collapsed(t) {
        assert forall|i: int| 0 <= i < l.len() && is_ws(#[trigger] l[i]) implies l[i] == ' ' && 0 < i
            && i + 1 < l.len() && !is_ws(l[i - 1]) && !is_ws(l[i + 1]) by {
            assert(is_ws(l[i]) == is_ws(t[i]));
            assert(is_ws(t[i]));
            assert(is_ws(l[i - 1]) == is_ws(t[i - 1]));
            assert(is_ws(l[i + 1]) == is_ws(t[i + 1]));
        }
    }
    assert(ascii_lower_all(l) =~= l);
}

/// Collapses whitespace runs to single spaces and trims both ends.
pub fn normalize_whitespace(text: &str) -> (r: String)
    ensures
        r@ == collapse_ws(text@),
{
    let mut out = String::new();
    let mut nonempty = false;
    let mut pending = false;
    for c in it: text.chars()
        invariant
            it.seq() == text@,
            (out@, pending) == collapse_ws_state(it.seq().take(it.index() as int)),
            nonempty == (out@.len() > 0),
    {
        proof {
            assert(it.seq().take(it.index() + 1).drop_last() == it.seq().take(it.index() as int));
        }
        if is_ws_char(c) {
            pending = nonempty;
        } else {
            if pending {
                push_char(&mut out, ' ');
            }
            push_char(&mut out, c);
            nonempty = true;
            pending = false;
        }
    }
    proof {
        assert(text@.take(text@.len() as int) == text@);
    }
    out
}

/// `str::trim`: the text without leading and trailing whitespace.
pub open spec fn trim_ws(s: Seq<char>) -> Seq<char> {
    let lo = first_non_ws(s, 0);
    let hi = last_non_ws_end(s, s.len() as int);
    if lo >= hi {
        Seq::<char>::empty()
    } else {
        s.subrange(lo, hi)
    }
}

/// Index of the first non-whitespace character at or after `i` (or `s.len()`).
pub open spec fn first_non_ws(s: Seq<char>, i: int) -> int
    decreases s.len() - i,
{
    if i >= s.len() || i < 0 {
        s.len() as int
    } else if is_ws(s[i]) {
        first_non_ws(s, i + 1)
    } else {
        i
    }
}

/// One past the last non-whitespace character before `j` (or 0).
pub open spec fn last_non_ws_end(s: Seq<char>, j: int) -> int
    decreases j,
{
    if j <= 0 || j > s.len() {
        0
    } else if is_ws(s[j - 1]) {
        last_non_ws_end(s, j - 1)
    } else {
        j
    }
}

proof fn lemma_first_non_ws_bounds(s: Seq<char>, i: int)
    requires
        0 <= i <= s.len(),
    ensures
        i <= first_non_ws(s, i) <= s.len(),
    decreases s.len() - i,
{
    if i < s.len() && is_ws(s[i]) {
        lemma_first_non_ws_bounds(s, i + 1);
    }
}

proof fn lemma_last_non_ws_bounds(s: Seq<char>, j: int)
    requires
        0 <= j <= s.len(),
    ensures
        0 <= last_non_ws_end(s, j) <= j,
    decreases j,
{
    if j > 0 && is_ws(s[j - 1]) {
        lemma_last_non_ws_bounds(s, j - 1);
    }
}

/// `str::trim` as a fresh `String`.
pub fn trim(text: &str) -> (r: String)
    ensures
        r@ == trim_ws(text@),
{
    let cs = chars_of(text);
    let n = cs.len();
    let mut lo: usize = 0;
    while lo < n && is_ws_char(cs[lo])
        invariant
            n == cs@.len(),
            lo <= n,
            first_non_ws(cs@, lo as int) == first_non_ws(cs@, 0),
        decreases n - lo,
    {
        lo += 1;
    }
    let mut hi: usize = n;
    while hi > 0 && is_ws_char(cs[hi - 1])
        invariant
            n == cs@.len(),
            hi <= n,
            last_non_ws_end(cs@, hi as int) == last_non_ws_end(cs@, n as int),
        decreases hi,
    {
        hi -= 1;
    }
    if lo >= hi {
        String::new()
    } else {
        string_of_range(&cs, lo, hi)
    }
}

// ---------------------------------------------------------------------------
// joining

/// The pieces joined with `sep` between neighbours (`[T]::join`).
pub open spec fn join_with(parts: Seq<Seq<char>>, sep: Seq<char>) -> Seq<char>
    decreases parts.len(),
{
    if parts.len() == 0 {
        Seq::<char>::empty()
    } else if parts.len() == 1 {
        parts[0]
    } else {
        join_with(parts.drop_last(), sep) + sep + parts.last()
    }
}

pub fn join_strings(parts: &Vec<String>, sep: &str) -> (r: String)
    ensures
        r@ == join_with(parts.deep_view(), sep@),
{
    let mut r = String::new();
    let ghost dv = parts.deep_view();
    let mut i: usize = 0;
    while i < parts.len()
        invariant
            dv == parts.deep_view(),
            i <= parts@.len(),
            r@ == join_with(dv.take(i as int), sep@),
        decreases parts@.len() - i,
    {
        proof {
            assert(dv.take(i + 1).drop_last() == dv.take(i as int));
            assert(dv.take(i + 1).last() == parts@[i as int]@);
        }
        if i > 0 {
            push_str(&mut r, sep);
        }
        push_str(&mut r, parts[i].as_str());
        proof {
            if i == 0 {
                assert(dv.take(1).len() == 1);
                assert(r@ == dv.take(1)[0]);
            }
        }
        i += 1;
    }
    proof {
        assert(dv.take(parts@.len() as int) == dv);
    }
    r
}

// ---------------------------------------------------------------------------
// lexicographic order (the order of `str`/`String` comparison: byte order of
// UTF-8, which is code point order)

pub open spec fn lex_lt(a: Seq<char>, b: Seq<char>) -> bool
    decreases a.len(),
{
    if a.len() == 0 {
        b.len() > 0
    } else if b.len() == 0 {
        false
    } else if a[0] == b[0] {
        lex_lt(a.drop_first(), b.drop_first())
    } else {
        (a[0] as int) < (b[0] as int)
    }
}

pub open spec fn lex_le(a: Seq<char>, b: Seq<char>) -> bool {
    a == b || lex_lt(a, b)
}

/// No text comes before itself in `str` order.
pub proof fn lemma_lex_irreflexive(a: Seq<char>)
    ensures
        !lex_lt(a, a),
    decreases a.len(),
{
    if a.len() > 0 {
        lemma_lex_irreflexive(a.drop_first());
    }
}

/// Of two texts, at most one comes before the other in `str` order.
pub proof fn lemma_lex_asymmetric(a: Seq<char>, b: Seq<char>)
    ensures
        lex_lt(a, b) ==> !lex_lt(b, a),
    decreases a.len(),
{
    if a.len() > 0 && b.len() > 0 && a[0] == b[0] {
        lemma_lex_asymmetric(a.drop_first(), b.drop_first());
    }
}

/// `str` order is transitive.
pub proof fn lemma_lex_transitive(a: Seq<char>, b: Seq<char>, c: Seq<char>)
    ensures
        lex_lt(a, b) && lex_lt(b, c) ==> lex_lt(a, c),
    decreases a.len(),
{
    if a.len() > 0 && b.len() > 0 && c.len() > 0 {
        lemma_lex_transitive(a.drop_first(), b.drop_first(), c.drop_first());
    }
}

/// Of two different texts, one comes before the other in `str` order.
pub proof fn lemma_lex_total(a: Seq<char>, b: Seq<char>)
    ensures
        a != b ==> lex_lt(a, b) || lex_lt(b, a),
    decreases a.len(),
{
    if a.len() > 0 && b.len() > 0 {
        if a[0] == b[0] {
            lemma_lex_total(a.drop_first(), b.drop_first());
            if a != b {
                assert(a =~= seq![a[0]] + a.drop_first());
                assert(b =~= seq![b[0]] + b.drop_first());
                assert(a.drop_first() != b.drop_first());
                assert(lex_lt(a, b) == lex_lt(a.drop_first(), b.drop_first()));
                assert(lex_lt(b, a) == lex_lt(b.drop_first(), a.drop_first()));
            }
        } else {
            assert((a[0] as int) != (b[0] as int));
            assert(lex_lt(a, b) == ((a[0] as int) < (b[0] as int)));
            assert(lex_lt(b, a) == ((b[0] as int) < (a[0] as int)));
        }
    } else if a.len() == 0 && b.len() == 0 {
        assert(a =~= b);
    }
}

/// Three-way comparison result.
#[derive(PartialEq, Eq, Structural, Clone, Copy, Debug)]
pub enum LexOrder {
    Less,
    Equal,
    Greater,
}

pub open spec fn lex_order(a: Seq<char>, b: Seq<char>) -> LexOrder {
    if a == b {
        LexOrder::Equal
    } else if lex_lt(a, b) {
        LexOrder::Less
    } else {
        LexOrder::Greater
    }
}

/// Compares two strings in `str` order.
pub fn compare_str(a: &str, b: &str) -> (r: LexOrder)
    ensures
        r == lex_order(a@, b@),
        r == LexOrder::Greater ==> lex_lt(b@, a@),
{
    let x = chars_of(a);
    let y = chars_of(b);
    let mut i: usize = 0;
    proof {
        assert(x@.skip(0) == x@);
        assert(y@.skip(0) == y@);
    }
    while i < x.len() && i < y.len() && x[i] == y[i]
        invariant
            x@ == a@,
            y@ == b@,
            i <= x@.len(),
            i <= y@.len(),
            x@.take(i as int) == y@.take(i as int),
            lex_lt(a@, b@) == lex_lt(x@.skip(i as int), y@.skip(i as int)),
            lex_lt(b@, a@) == lex_lt(y@.skip(i as int), x@.skip(i as int)),
        decreases x@.len() - i,
    {
        proof {
            assert(x@.skip(i as int).drop_first() == x@.skip(i + 1));
            assert(y@.skip(i as int).drop_first() == y@.skip(i + 1));
            assert(x@.take(i + 1) == x@.take(i as int).push(x@[i as int]));
            assert(y@.take(i + 1) == y@.take(i as int).push(y@[i as int]));
        }
        i += 1;
    }
    proof {
        lemma_lex_asymmetric(a@, b@);
        lemma_lex_total(a@, b@);
        lemma_lex_irreflexive(a@);
    }
    let ghost xs = x@.skip(i as int);
    let ghost ys = y@.skip(i as int);
    if i == x.len() && i == y.len() {
        proof {
            assert(x@ == x@.take(i as int));
            assert(y@ == y@.take(i as int));
        }
        LexOrder::Equal
    } else if i == x.len() {
        proof {
            assert(xs.len() == 0 && ys.len() > 0);
            assert(lex_lt(xs, ys));
            assert(a@ != b@);
        }
        LexOrder::Less
    } else if i == y.len() {
        proof {
            assert(ys.len() == 0 && xs.len() > 0);
            assert(lex_lt(ys, xs));
            assert(a@.len() != b@.len());
        }
        LexOrder::Greater
    } else {
        proof {
            assert(xs[0] == x@[i as int]);
            assert(ys[0] == y@[i as int]);
            assert(a@[i as int] != b@[i as int]);
            assert(a@ != b@);
            assert(lex_lt(xs, ys) == ((xs[0] as int) < (ys[0] as int)));
            assert(lex_lt(ys, xs) == ((ys[0] as int) < (xs[0] as int)));
        }
        if x[i] < y[i] {
            LexOrder::Less
        } else {
            LexOrder::Greater
        }
    }
}

/// The `str` order as a relation.
pub open spec fn str_order() -> spec_fn(Seq<char>, Seq<char>) -> bool {
    |a: Seq<char>, b: Seq<char>| lex_le(a, b)
}

pub proof fn lemma_str_order_total()
    ensures
        total_ordering(str_order()),
{
    let le = str_order();
    assert forall|x: Seq<char>| #[trigger] le(x, x) by {}
    assert forall|x: Seq<char>, y: Seq<char>| #[trigger] le(x, y) && #[trigger] le(y, x) implies x
        == y by {
        lemma_lex_asymmetric(x, y);
    }
    assert forall|x: Seq<char>, y: Seq<char>, z: Seq<char>| #[trigger] le(x, y) && #[trigger] le(
        y,
        z,
    ) implies le(x, z) by {
        lemma_lex_transitive(x, y, z);
    }
    assert forall|x: Seq<char>, y: Seq<char>| #[trigger] le(x, y) || #[trigger] le(y, x) by {
        lemma_lex_total(x, y);
    }
}

/// `a <= b` in `str` order.
pub fn str_le(a: &str, b: &str) -> (r: bool)
    ensures
        r == lex_le(a@, b@),
{
    match compare_str(a, b) {
        LexOrder::Greater => {
            proof {
                lemma_lex_asymmetric(b@, a@);
                lemma_lex_irreflexive(a@);
            }
            false
        },
        _ => true,
    }
}

/// Sorts strings in `str` order (`sort` on `Vec<String>`).
pub fn sort_strings(v: Vec<String>) -> (r: Vec<String>)
    ensures
        r.deep_view() == v.deep_view().sort_by(str_order()),
{
    let ghost input = v.deep_view();
    let mut out: Vec<String> = Vec::new();
    let mut i: usize = 0;
    proof {
        lemma_str_order_total();
        assert(out.deep_view() =~= input.take(0));
    }
    while i < v.len()
        invariant
            input == v.deep_view(),
            i <= input.len(),
            total_ordering(str_order()),
            sorted_by(out.deep_view(), str_order()),
            out.deep_view().to_multiset() == input.take(i as int).to_multiset(),
        decreases input.len() - i,
    {
        let x = v[i].clone();
        let ghost xv = x@;
        let mut j: usize = 0;
        while j < out.len()
            invariant
                j <= out@.len(),
                xv == x@,
                forall|k: int| 0 <= k < j ==> lex_le(#[trigger] out.deep_view()[k], xv),
            ensures
                j <= out@.len(),
                forall|k: int| 0 <= k < j ==> lex_le(#[trigger] out.deep_view()[k], xv),
                j < out@.len() ==> !lex_le(out.deep_view()[j as int], xv),
            decreases out@.len() - j,
        {
            if !str_le(out[j].as_str(), x.as_str()) {
                break;
            }
            j += 1;
        }
        let ghost before = out.deep_view();
        proof {
            if j < before.len() {
                lemma_lex_total(before[j as int], xv);
            }
        }
        out.insert(j, x);
        proof {
            let le = str_order();
            let now = out.deep_view();
            assert(now =~= before.insert(j as int, xv));
            assert forall|a: int, b: int| 0 <= a < b < now.len() implies #[trigger] le(
                now[a],
                now[b],
            ) by {
                if b < j {
                    assert(le(before[a], before[b]));
                } else if a < j && b == j {
                } else if a < j && b > j {
                    assert(le(before[a], xv));
                    assert(le(xv, before[j as int]));
                    if b - 1 > j {
                        assert(le(before[j as int], before[b - 1]));
                    }
                } else if a == j {
                    assert(le(xv, before[j as int]));
                    if b - 1 > j {
                        assert(le(before[j as int], before[b - 1]));
                    }
                } else {
                    assert(le(before[a - 1], before[b - 1]));
                }
            }
            crate::strs::multiset_insert_step(before, j as int, xv, input, i as int);
        }
        i += 1;
    }
    proof {
        assert(input.take(input.len() as int) == input);
        input.lemma_sort_by_ensures(str_order());
        lemma_sorted_unique(out.deep_view(), input.sort_by(str_order()), str_order());
    }
    out
}

/// Inserting the `i`-th input element keeps the multiset equal to the input prefix.
pub proof fn multiset_insert_step<A>(before: Seq<A>, j: int, x: A, input: Seq<A>, i: int)
    requires
        0 <= j <= before.len(),
        0 <= i < input.len(),
        input[i] == x,
        before.to_multiset() == input.take(i).to_multiset(),
    ensures
        before.insert(j, x).to_multiset() == input.take(i + 1).to_multiset(),
{
    vstd::seq_lib::to_multiset_insert(before, j, x);
    assert(input.take(i + 1) == input.take(i).push(x));
    input.take(i).to_multiset_ensures();
}

/// Removes repeated strings, keeping first occurrences.
pub fn dedup_strings(v: &Vec<String>) -> (r: Vec<String>)
    ensures
        r.deep_view() == v.deep_view().remove_duplicates(Seq::<Seq<char>>::empty()),
{
    let ghost vv = v.deep_view();
    let ghost e = Seq::<Seq<char>>::empty();
    let mut out: Vec<String> = Vec::new();
    let mut i: usize = 0;
    proof {
        assert(out.deep_view() =~= e);
        assert(vv.take(0) =~= e);
        assert(e.remove_duplicates(e) == e);
    }
    while i < v.len()
        invariant
            vv == v.deep_view(),
            e == Seq::<Seq<char>>::empty(),
            i <= vv.len(),
            out.deep_view() == vv.take(i as int).remove_duplicates(e),
        decreases vv.len() - i,
    {
        let ghost before = vv.take(i as int);
        proof {
            assert(vv.take(i + 1) == before + seq![vv[i as int]]);
            before.lemma_remove_duplicates_append(vv[i as int], e);
            before.lemma_remove_duplicates_properties(e);
            assert(before + e =~= before);
        }
        if !contains_string(&out, v[i].as_str()) {
            out.push(v[i].clone());
            proof {
                assert(out.deep_view() =~= before.remove_duplicates(e) + seq![vv[i as int]]);
            }
        }
        i += 1;
    }
    proof {
        assert(vv.take(vv.len() as int) == vv);
    }
    out
}

/// Whether `t` is one of the strings of `v`.
pub fn contains_string(v: &Vec<String>, t: &str) -> (r: bool)
    ensures
        r == v.deep_view().contains(t@),
{
    let mut i: usize = 0;
    while i < v.len()
        invariant
            i <= v@.len(),
            forall|j: int| 0 <= j < i ==> v@[j]@ != t@,
        decreases v@.len() - i,
    {
        if str_eq(v[i].as_str(), t) {
            proof {
                assert(v.deep_view()[i as int] == t@);
            }
            return true;
        }
        i += 1;
    }
    proof {
        if v.deep_view().contains(t@) {
            let k = choose|k: int| 0 <= k < v.deep_view().len() && v.deep_view()[k] == t@;
            assert(v@[k]@ == t@);
        }
    }
    false
}

// ---------------------------------------------------------------------------
// decimal numbers

pub open spec fn digit_char(d: int) -> char {
    (('0' as int) + d) as char
}

/// The decimal digits of a natural number.
pub open spec fn digits_of(n: nat) -> Seq<char>
    decreases n,
{
    if n < 10 {
        seq![digit_char(n as int)]
    } else {
        digits_of(n / 10).push(digit_char(n as int % 10))
    }
}

/// The decimal text of an integer, with `-` before a negative one.
pub open spec fn decimal_of(n: int) -> Seq<char> {
    if n < 0 {
        seq!['-'] + digits_of((-n) as nat)
    } else {
        digits_of(n as nat)
    }
}

fn digits(n: u128) -> (r: String)
    ensures
        r@ == digits_of(n as nat),
    decreases n,
{
    if n < 10 {
        let mut s = String::new();
        push_char(&mut s, ((n as u8) + 48) as char);
        proof {
            assert(s@ =~= seq![digit_char(n as int)]);
        }
        s
    } else {
        let mut s = digits(n / 10);
        let d = (n % 10) as u8;
        push_char(&mut s, (d + 48) as char);
        s
    }
}

/// The decimal text of an `i128` (`ToString`).
pub fn decimal(n: i128) -> (r: String)
    ensures
        r@ == decimal_of(n as int),
{
    if n < 0 {
        let magnitude: u128 = if n == i128::MIN {
            170141183460469231731687303715884105728
        } else {
            (-n) as u128
        };
        let tail = digits(magnitude);
        proof {
            reveal_strlit("-");
            assert("-"@ =~= seq!['-']);
        }
        concat("-", tail.as_str())
    } else {
        digits(n as u128)
    }
}

} // verus!
