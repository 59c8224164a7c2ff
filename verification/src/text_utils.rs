//! Text normalization: Unicode and whitespace normalization, the canonical
//! names of platforms, source types and content types, tokens, fingerprints
//! and the semantic basis of an item.
use crate::ext::{
    local_date_nanos, local_date_nanos_of, local_datetime_nanos,
    local_datetime_nanos_of, lowercase, lowercase_of, nfkc, nfkc_of, now_unix_nanos, regex_find_all,
    regex_matches_of, rfc3339_nanos, rfc3339_nanos_of, rfc3339_utc, rfc3339_utc_of, sha1_digest,
    sha1_of,
};
use crate::strs::{
    ascii_lower_all, is_collapsed, is_plain, is_plain_char, is_ws, lemma_ascii_lower_shape,
    lemma_collapse_chars, lemma_collapse_shape,
    lemma_collapsed_is_fixed, chars_of, collapse_ws, concat, concat3, decimal, decimal_of, join_strings, join_with, normalize_whitespace, owned, push_char,
    str_eq, string_of_range,
};
use vstd::prelude::*;
use vstd::utf8::encode_utf8;

verus! {

// ---------------------------------------------------------------------------
// normalization of free text

/// Zero-width space, byte-order mark and ideographic space count as spaces.
pub open spec fn blank_special(c: char) -> char {
    if c == '\u{200b}' || c == '\u{feff}' || c == '\u{3000}' {
        ' '
    } else {
        c
    }
}

pub open spec fn blank_specials(s: Seq<char>) -> Seq<char> {
    s.map_values(|c: char| blank_special(c))
}

/// The normalized form of a text: NFKC, the special blanks made spaces, the
/// whitespace collapsed and trimmed.
pub open spec fn normalized_text_of(s: Seq<char>) -> Seq<char> {
    collapse_ws(blank_specials(nfkc_of(s)))
}

/// The normalized form, lowercased.
pub open spec fn norm_lower(s: Seq<char>) -> Seq<char> {
    lowercase_of(normalized_text_of(s))
}

fn blank_specials_exec(s: &str) -> (r: String)
    ensures
        r@ == blank_specials(s@),
{
    let mut out = String::new();
    for c in it: s.chars()
        invariant
            it.seq() == s@,
            out@ == blank_specials(it.seq().take(it.index() as int)),
    {
        proof {
            assert(blank_specials(it.seq().take(it.index() + 1)) == blank_specials(
                it.seq().take(it.index() as int),
            ).push(blank_special(c)));
        }
        if c == '\u{200b}' || c == '\u{feff}' || c == '\u{3000}' {
            push_char(&mut out, ' ');
        } else {
            push_char(&mut out, c);
        }
    }
    proof {
        assert(s@.take(s@.len() as int) == s@);
    }
    out
}

/// NFKC normalization, special blanks made spaces, whitespace collapsed.
pub fn normalize_text(text: &str) -> (r: String)
    ensures
        r@ == normalized_text_of(text@),
{
    let composed = nfkc(text);
    let blanked = blank_specials_exec(composed.as_str());
    normalize_whitespace(blanked.as_str())
}

/// The normalized author name, lowercased.
pub fn normalize_author(author: &str) -> (r: String)
    ensures
        r@ == norm_lower(author@),
{
    let normalized = normalize_text(author);
    lowercase(normalized.as_str())
}

/// The normalized text, lowercased.
pub fn normalize_lower(text: &str) -> (r: String)
    ensures
        r@ == norm_lower(text@),
{
    normalize_author(text)
}

// ---------------------------------------------------------------------------
// canonical names

pub open spec fn platform_of(raw: Seq<char>) -> Seq<char> {
    let k = norm_lower(raw);
    if k == "b站"@ || k == "bilibili"@ || k == "哔哩哔哩"@ {
        "bilibili"@
    } else if k == "微博"@ || k == "weibo"@ {
        "weibo"@
    } else if k == "抖音"@ || k == "douyin"@ {
        "douyin"@
    } else if k == "taptap"@ || k == "taptap社区"@ {
        "taptap"@
    } else if k == "小红书"@ || k == "xiaohongshu"@ {
        "xiaohongshu"@
    } else if k == "official"@ || k == "官方"@ || k == "官方源"@ {
        "official"@
    } else if k.len() > 0 {
        k
    } else {
        "unknown"@
    }
}

pub open spec fn source_type_of(raw: Seq<char>) -> Seq<char> {
    let k = norm_lower(raw);
    if k == "official"@ || k == "official_source"@ || k == "官号"@ || k == "官方"@ {
        "official"@
    } else if k == "media"@ || k == "媒体"@ {
        "media"@
    } else if k == "community"@ || k == "社区"@ {
        "community"@
    } else if k == "content_platform"@ || k == "内容平台"@ {
        "content_platform"@
    } else if k.len() > 0 {
        k
    } else {
        "unknown"@
    }
}

pub open spec fn content_type_of(raw: Seq<char>) -> Seq<char> {
    let k = norm_lower(raw);
    if k == "announcement"@ || k == "公告"@ {
        "announcement"@
    } else if k == "post"@ || k == "帖子"@ {
        "post"@
    } else if k == "video"@ || k == "视频"@ {
        "video"@
    } else if k == "article"@ || k == "文章"@ {
        "article"@
    } else if k.len() > 0 {
        k
    } else {
        "unknown"@
    }
}

pub open spec fn source_layer_of(source_type: Seq<char>, platform: Seq<char>) -> Seq<char> {
    if source_type == "official"@ || platform == "official"@ {
        "official"@
    } else if source_type == "media"@ {
        "media"@
    } else if source_type == "community"@ || platform == "taptap"@ {
        "community"@
    } else {
        "content_platform"@
    }
}

/// The canonical platform name: known spellings map to one name, an empty
/// name becomes `unknown`, any other normalized name stays.
pub fn normalize_platform(platform: &str) -> (r: String)
    ensures
        r@ == platform_of(platform@),
{
    let k = normalize_lower(platform);
    let ks = k.as_str();
    if str_eq(ks, "b站") || str_eq(ks, "bilibili") || str_eq(ks, "哔哩哔哩") {
        owned("bilibili")
    } else if str_eq(ks, "微博") || str_eq(ks, "weibo") {
        owned("weibo")
    } else if str_eq(ks, "抖音") || str_eq(ks, "douyin") {
        owned("douyin")
    } else if str_eq(ks, "taptap") || str_eq(ks, "taptap社区") {
        owned("taptap")
    } else if str_eq(ks, "小红书") || str_eq(ks, "xiaohongshu") {
        owned("xiaohongshu")
    } else if str_eq(ks, "official") || str_eq(ks, "官方") || str_eq(ks, "官方源") {
        owned("official")
    } else if !ks.is_empty() {
        k
    } else {
        owned("unknown")
    }
}

/// The canonical source type.
pub fn normalize_source_type(source_type: &str) -> (r: String)
    ensures
        r@ == source_type_of(source_type@),
{
    let k = normalize_lower(source_type);
    let ks = k.as_str();
    if str_eq(ks, "official") || str_eq(ks, "official_source") || str_eq(ks, "官号") || str_eq(
        ks,
        "官方",
    ) {
        owned("official")
    } else if str_eq(ks, "media") || str_eq(ks, "媒体") {
        owned("media")
    } else if str_eq(ks, "community") || str_eq(ks, "社区") {
        owned("community")
    } else if str_eq(ks, "content_platform") || str_eq(ks, "内容平台") {
        owned("content_platform")
    } else if !ks.is_empty() {
        k
    } else {
        owned("unknown")
    }
}

/// The canonical content type.
pub fn normalize_content_type(content_type: &str) -> (r: String)
    ensures
        r@ == content_type_of(content_type@),
{
    let k = normalize_lower(content_type);
    let ks = k.as_str();
    if str_eq(ks, "announcement") || str_eq(ks, "公告") {
        owned("announcement")
    } else if str_eq(ks, "post") || str_eq(ks, "帖子") {
        owned("post")
    } else if str_eq(ks, "video") || str_eq(ks, "视频") {
        owned("video")
    } else if str_eq(ks, "article") || str_eq(ks, "文章") {
        owned("article")
    } else if !ks.is_empty() {
        k
    } else {
        owned("unknown")
    }
}

/// The source layer of a (canonical) source type on a (canonical) platform.
pub fn infer_source_layer(source_type: &str, platform: &str) -> (r: String)
    ensures
        r@ == source_layer_of(source_type@, platform@),
{
    if str_eq(source_type, "official") || str_eq(platform, "official") {
        owned("official")
    } else if str_eq(source_type, "media") {
        owned("media")
    } else if str_eq(source_type, "community") || str_eq(platform, "taptap") {
        owned("community")
    } else {
        owned("content_platform")
    }
}

// ---------------------------------------------------------------------------
// fingerprints

pub open spec fn hex_digit(n: int) -> char {
    if 0 <= n < 10 {
        ((n + 48) as u8) as char
    } else {
        ((n - 10 + 97) as u8) as char
    }
}

/// Lowercase hexadecimal text of bytes, two digits per byte.
pub open spec fn hex_of(bytes: Seq<u8>) -> Seq<char>
    decreases bytes.len(),
{
    if bytes.len() == 0 {
        Seq::<char>::empty()
    } else {
        hex_of(bytes.drop_last()).push(hex_digit(bytes.last() as int / 16)).push(
            hex_digit(bytes.last() as int % 16),
        )
    }
}

fn hex_digit_exec(n: u8) -> (r: char)
    requires
        n < 16,
    ensures
        r == hex_digit(n as int),
{
    if n < 10 {
        (n + 48) as char
    } else {
        (n - 10 + 97) as char
    }
}

fn hex_lower(bytes: &Vec<u8>) -> (r: String)
    ensures
        r@ == hex_of(bytes@),
{
    let mut out = String::new();
    let mut i: usize = 0;
    while i < bytes.len()
        invariant
            i <= bytes@.len(),
            out@ == hex_of(bytes@.take(i as int)),
        decreases bytes@.len() - i,
    {
        proof {
            assert(bytes@.take(i + 1).drop_last() == bytes@.take(i as int));
        }
        let b = bytes[i];
        push_char(&mut out, hex_digit_exec(b / 16));
        push_char(&mut out, hex_digit_exec(b % 16));
        i += 1;
    }
    proof {
        assert(bytes@.take(bytes@.len() as int) == bytes@);
    }
    out
}

proof fn lemma_hex_len(bytes: Seq<u8>)
    ensures
        hex_of(bytes).len() == 2 * bytes.len(),
    decreases bytes.len(),
{
    if bytes.len() > 0 {
        lemma_hex_len(bytes.drop_last());
    }
}

/// The normalized, lowercased, non-empty parts, in order.
pub open spec fn kept_parts(parts: Seq<Seq<char>>) -> Seq<Seq<char>>
    decreases parts.len(),
{
    if parts.len() == 0 {
        Seq::<Seq<char>>::empty()
    } else {
        let prev = kept_parts(parts.drop_last());
        let n = norm_lower(parts.last());
        if n.len() > 0 {
            prev.push(n)
        } else {
            prev
        }
    }
}

/// The first `length` hexadecimal digits of the SHA-1 digest of the kept
/// parts joined by line feeds.
pub open spec fn fingerprint_of(parts: Seq<Seq<char>>, length: nat) -> Seq<char> {
    let digest = hex_of(sha1_of(encode_utf8(join_with(kept_parts(parts), "\n"@))));
    if length <= digest.len() {
        digest.take(length as int)
    } else {
        digest
    }
}

fn take_chars(s: &str, n: usize) -> (r: String)
    ensures
        r@ == (if n <= s@.len() {
            s@.take(n as int)
        } else {
            s@
        }),
{
    let cs = chars_of(s);
    let end = if n <= cs.len() {
        n
    } else {
        cs.len()
    };
    let r = string_of_range(&cs, 0, end);
    proof {
        if n > s@.len() {
            assert(s@.subrange(0, s@.len() as int) == s@);
        }
    }
    r
}

/// Hexadecimal SHA-1 fingerprint of the normalized parts, cut to `length`
/// digits.
pub fn fingerprint(parts: &[&str], length: usize) -> (r: String)
    ensures
        r@ == fingerprint_of(parts.deep_view(), length as nat),
        r@.len() == (if length <= 40 {
            length as nat
        } else {
            40
        }),
{
    let ghost dv = parts.deep_view();
    let mut kept: Vec<String> = Vec::new();
    let mut i: usize = 0;
    while i < parts.len()
        invariant
            dv == parts.deep_view(),
            i <= dv.len(),
            kept.deep_view() == kept_parts(dv.take(i as int)),
        decreases dv.len() - i,
    {
        proof {
            assert(dv.take(i + 1).drop_last() == dv.take(i as int));
            assert(dv.take(i + 1).last() == parts@[i as int]@);
        }
        let n = normalize_lower(parts[i]);
        if !n.as_str().is_empty() {
            proof {
                assert(kept.deep_view().push(n@) == kept_parts(dv.take(i + 1)));
            }
            kept.push(n);
            proof {
                assert(kept.deep_view() =~= kept_parts(dv.take(i + 1)));
            }
        }
        i += 1;
    }
    proof {
        assert(dv.take(dv.len() as int) == dv);
    }
    let joined = join_strings(&kept, "\n");
    let digest = sha1_digest(joined.as_str().as_bytes());
    let hex = hex_lower(&digest);
    proof {
        lemma_hex_len(digest@);
    }
    take_chars(hex.as_str(), length)
}

// ---------------------------------------------------------------------------
// tokens

pub open spec fn token_pattern() -> Seq<char> {
    "[a-z0-9_]+|[\\u4e00-\\u9fff]{2,}"@
}

pub open spec fn is_stopword(t: Seq<char>) -> bool {
    ||| t == "的"@
    ||| t == "了"@
    ||| t == "和"@
    ||| t == "是"@
    ||| t == "在"@
    ||| t == "一个"@
    ||| t == "这次"@
    ||| t == "还是"@
    ||| t == "我们"@
    ||| t == "他们"@
}

fn is_stopword_exec(t: &str) -> (r: bool)
    ensures
        r == is_stopword(t@),
{
    str_eq(t, "的") || str_eq(t, "了") || str_eq(t, "和") || str_eq(t, "是") || str_eq(t, "在")
        || str_eq(t, "一个") || str_eq(t, "这次") || str_eq(t, "还是") || str_eq(t, "我们")
        || str_eq(t, "他们")
}

/// The matches that are not stop words, in order.
pub open spec fn without_stopwords(ms: Seq<Seq<char>>) -> Seq<Seq<char>>
    decreases ms.len(),
{
    if ms.len() == 0 {
        Seq::<Seq<char>>::empty()
    } else {
        let prev = without_stopwords(ms.drop_last());
        if is_stopword(ms.last()) {
            prev
        } else {
            prev.push(ms.last())
        }
    }
}

/// Tokens: the runs of `[a-z0-9_]` and the runs of two or more CJK
/// ideographs in the normalized lowercased text, stop words removed.
pub open spec fn tokens_of(text: Seq<char>) -> Seq<Seq<char>> {
    without_stopwords(regex_matches_of(token_pattern(), norm_lower(text)))
}

pub fn tokenize(text: &str) -> (r: Vec<String>)
    ensures
        r.deep_view() == tokens_of(text@),
{
    let lowered = normalize_lower(text);
    let matches = regex_find_all("[a-z0-9_]+|[\\u4e00-\\u9fff]{2,}", lowered.as_str());
    let ghost ms = matches.deep_view();
    let mut out: Vec<String> = Vec::new();
    let mut i: usize = 0;
    while i < matches.len()
        invariant
            ms == matches.deep_view(),
            i <= ms.len(),
            out.deep_view() == without_stopwords(ms.take(i as int)),
        decreases ms.len() - i,
    {
        proof {
            assert(ms.take(i + 1).drop_last() == ms.take(i as int));
            assert(ms.take(i + 1).last() == matches@[i as int]@);
        }
        let t = &matches[i];
        if !is_stopword_exec(t.as_str()) {
            out.push(t.clone());
            proof {
                assert(out.deep_view() =~= without_stopwords(ms.take(i + 1)));
            }
        }
        i += 1;
    }
    proof {
        assert(ms.take(ms.len() as int) == ms);
    }
    out
}

// ---------------------------------------------------------------------------
// semantic basis

pub open spec fn is_ascii_digit(c: char) -> bool {
    '0' <= c && c <= '9'
}

/// A token carries meaning: it is not empty, not a filler word, and longer
/// than one character unless it is a number.
pub open spec fn keeps_semantic(t: Seq<char>) -> bool {
    &&& t.len() > 0
    &&& !(t == "公告"@ || t == "解读"@ || t == "体验"@ || t == "分享"@ || t == "发布"@ || t
        == "介绍"@ || t == "真的"@ || t == "一下"@ || t == "我们"@)
    &&& (t.len() > 1 || forall|i: int| 0 <= i < t.len() ==> is_ascii_digit(#[trigger] t[i]))
}

pub fn should_keep_semantic_token(token: &str) -> (r: bool)
    ensures
        r == keeps_semantic(token@),
{
    if token.is_empty() {
        return false;
    }
    if str_eq(token, "公告") || str_eq(token, "解读") || str_eq(token, "体验") || str_eq(token, "分享")
        || str_eq(token, "发布") || str_eq(token, "介绍") || str_eq(token, "真的") || str_eq(
        token,
        "一下",
    ) || str_eq(token, "我们") {
        return false;
    }
    let cs = chars_of(token);
    if cs.len() > 1 {
        return true;
    }
    let c = cs[0];
    proof {
        assert(cs@.len() == 1);
    }
    '0' <= c && c <= '9'
}

/// The kept tokens, in order.
pub open spec fn semantic_tokens(ts: Seq<Seq<char>>) -> Seq<Seq<char>>
    decreases ts.len(),
{
    if ts.len() == 0 {
        Seq::<Seq<char>>::empty()
    } else {
        let prev = semantic_tokens(ts.drop_last());
        if keeps_semantic(ts.last()) {
            prev.push(ts.last())
        } else {
            prev
        }
    }
}

pub open spec fn marker_pattern() -> Seq<char> {
    "[a-z]*\\d+(?:\\.\\d+)?[a-z]*"@
}

/// The anchor candidates in order: kept title tokens, then version-like
/// markers of title and text, then kept text tokens.
pub open spec fn anchor_candidates(title: Seq<char>, text: Seq<char>) -> Seq<Seq<char>> {
    let nt = norm_lower(title);
    let nx = norm_lower(text);
    semantic_tokens(tokens_of(nt)) + regex_matches_of(marker_pattern(), nt + " "@ + nx)
        + semantic_tokens(tokens_of(nx))
}

/// At most twelve distinct anchors, in order of first appearance.
pub open spec fn anchors_of(title: Seq<char>, text: Seq<char>) -> Seq<Seq<char>> {
    let all = anchor_candidates(title, text).remove_duplicates(Seq::<Seq<char>>::empty());
    if all.len() > 12 {
        all.take(12)
    } else {
        all
    }
}

/// The anchors joined by spaces; without anchors, the normalized texts.
pub open spec fn semantic_basis_of(title: Seq<char>, text: Seq<char>) -> Seq<char> {
    let anchors = anchors_of(title, text);
    if anchors.len() == 0 {
        collapse_ws(norm_lower(title) + " "@ + norm_lower(text))
    } else {
        join_with(anchors, " "@)
    }
}

fn contains_string(v: &Vec<String>, t: &str) -> (r: bool)
    ensures
        r == v.deep_view().contains(t@),
{
    let mut i: usize = 0;
    while i < v.len()
        invariant
            i <= v@.len(),
            forall|j: int| 0 <= j < i ==> v@[j]@ != t@,
        decreases v@.len() - i,
    {
        if str_eq(v[i].as_str(), t) {
            proof {
                assert(v.deep_view()[i as int] == t@);
            }
            return true;
        }
        i += 1;
    }
    proof {
        if v.deep_view().contains(t@) {
            let k = choose|k: int| 0 <= k < v.deep_view().len() && v.deep_view()[k] == t@;
            assert(v@[k]@ == t@);
        }
    }
    false
}

/// Appends to `acc` the elements of `items` not yet in it: `acc` stays the
/// first occurrences of `prefix + items`.
fn extend_distinct(acc: &mut Vec<String>, items: &Vec<String>, Ghost(prefix): Ghost<Seq<Seq<char>>>)
    requires
        old(acc).deep_view() == prefix.remove_duplicates(Seq::<Seq<char>>::empty()),
    ensures
        final(acc).deep_view() == (prefix + items.deep_view()).remove_duplicates(
            Seq::<Seq<char>>::empty(),
        ),
{
    let ghost iv = items.deep_view();
    let mut i: usize = 0;
    while i < items.len()
        invariant
            iv == items.deep_view(),
            i <= iv.len(),
            acc.deep_view() == (prefix + iv.take(i as int)).remove_duplicates(
                Seq::<Seq<char>>::empty(),
            ),
        decreases iv.len() - i,
    {
        let ghost before = prefix + iv.take(i as int);
        let t = &items[i];
        proof {
            assert(prefix + iv.take(i + 1) == before + seq![t@]);
            before.lemma_remove_duplicates_append(t@, Seq::<Seq<char>>::empty());
            before.lemma_remove_duplicates_properties(Seq::<Seq<char>>::empty());
            assert(before + Seq::<Seq<char>>::empty() == before);
        }
        if !contains_string(acc, t.as_str()) {
            acc.push(t.clone());
            proof {
                assert(acc.deep_view() =~= before.remove_duplicates(Seq::<Seq<char>>::empty())
                    + seq![t@]);
            }
        }
        i += 1;
    }
    proof {
        assert(iv.take(iv.len() as int) == iv);
    }
}

fn keep_semantic(ts: &Vec<String>) -> (r: Vec<String>)
    ensures
        r.deep_view() == semantic_tokens(ts.deep_view()),
{
    let ghost tv = ts.deep_view();
    let mut out: Vec<String> = Vec::new();
    let mut i: usize = 0;
    while i < ts.len()
        invariant
            tv == ts.deep_view(),
            i <= tv.len(),
            out.deep_view() == semantic_tokens(tv.take(i as int)),
        decreases tv.len() - i,
    {
        proof {
            assert(tv.take(i + 1).drop_last() == tv.take(i as int));
            assert(tv.take(i + 1).last() == ts@[i as int]@);
        }
        if should_keep_semantic_token(ts[i].as_str()) {
            out.push(ts[i].clone());
            proof {
                assert(out.deep_view() =~= semantic_tokens(tv.take(i + 1)));
            }
        }
        i += 1;
    }
    proof {
        assert(tv.take(tv.len() as int) == tv);
    }
    out
}

/// A short text that two items about the same news share: distinctive
/// tokens and version markers of the title and text.
pub fn semantic_basis(title: &str, text: &str) -> (r: String)
    ensures
        r@ == semantic_basis_of(title@, text@),
{
    let nt = normalize_lower(title);
    let nx = normalize_lower(text);
    let combined = concat3(nt.as_str(), " ", nx.as_str());
    let markers = regex_find_all("[a-z]*\\d+(?:\\.\\d+)?[a-z]*", combined.as_str());
    let title_kept = keep_semantic(&tokenize(nt.as_str()));
    let text_kept = keep_semantic(&tokenize(nx.as_str()));
    let mut anchors: Vec<String> = Vec::new();
    let ghost e = Seq::<Seq<char>>::empty();
    proof {
        assert(e.remove_duplicates(e) == e);
        assert(anchors.deep_view() =~= e);
    }
    extend_distinct(&mut anchors, &title_kept, Ghost(e));
    proof {
        assert(e + title_kept.deep_view() == title_kept.deep_view());
    }
    extend_distinct(&mut anchors, &markers, Ghost(title_kept.deep_view()));
    extend_distinct(
        &mut anchors,
        &text_kept,
        Ghost(title_kept.deep_view() + markers.deep_view()),
    );
    proof {
        assert(title_kept.deep_view() + markers.deep_view() + text_kept.deep_view()
            == anchor_candidates(title@, text@));
    }
    if anchors.len() == 0 {
        return normalize_whitespace(combined.as_str());
    }
    if anchors.len() > 12 {
        anchors.truncate(12);
        proof {
            assert(anchors.deep_view() =~= anchor_candidates(title@, text@).remove_duplicates(
                e,
            ).take(12));
        }
    }
    join_strings(&anchors, " ")
}

// ---------------------------------------------------------------------------
// time

/// The RFC 3339 UTC text of an instant, or the epoch's when it cannot be
/// formatted.
pub open spec fn utc_text(nanos: int) -> Seq<char> {
    match rfc3339_utc_of(nanos) {
        Some(t) => t,
        None => "1970-01-01T00:00:00Z"@,
    }
}

/// The date-time layouts read at UTC+8, in order.
pub open spec fn local_datetime_layout(i: int) -> Seq<char> {
    if i == 0 {
        "[year]-[month]-[day] [hour]:[minute]:[second]"@
    } else if i == 1 {
        "[year]-[month]-[day] [hour]:[minute]"@
    } else if i == 2 {
        "[year]/[month]/[day] [hour]:[minute]:[second]"@
    } else {
        "[year]/[month]/[day] [hour]:[minute]"@
    }
}

/// The date layouts read at midnight UTC+8, in order.
pub open spec fn local_date_layout(i: int) -> Seq<char> {
    if i == 0 {
        "[year]-[month]-[day]"@
    } else {
        "[year]/[month]/[day]"@
    }
}

/// The instant of a normalized timestamp text: RFC 3339 first, then the
/// four date-time layouts, then the two date layouts, the last two groups at
/// UTC+8.
pub open spec fn timestamp_nanos_of(n: Seq<char>) -> Option<int> {
    if rfc3339_nanos_of(n) is Some {
        rfc3339_nanos_of(n)
    } else if local_datetime_nanos_of(n, local_datetime_layout(0), 8) is Some {
        local_datetime_nanos_of(n, local_datetime_layout(0), 8)
    } else if local_datetime_nanos_of(n, local_datetime_layout(1), 8) is Some {
        local_datetime_nanos_of(n, local_datetime_layout(1), 8)
    } else if local_datetime_nanos_of(n, local_datetime_layout(2), 8) is Some {
        local_datetime_nanos_of(n, local_datetime_layout(2), 8)
    } else if local_datetime_nanos_of(n, local_datetime_layout(3), 8) is Some {
        local_datetime_nanos_of(n, local_datetime_layout(3), 8)
    } else if local_date_nanos_of(n, local_date_layout(0), 8) is Some {
        local_date_nanos_of(n, local_date_layout(0), 8)
    } else {
        local_date_nanos_of(n, local_date_layout(1), 8)
    }
}

/// The UTC RFC 3339 form of a timestamp text, if it has one.
pub open spec fn timestamp_of(input: Seq<char>) -> Option<Seq<char>> {
    let n = normalized_text_of(input);
    if n.len() == 0 {
        None
    } else {
        match timestamp_nanos_of(n) {
            Some(t) => Some(utc_text(t)),
            None => None,
        }
    }
}

/// The RFC 3339 text of an instant.
pub fn utc_text_of(nanos: i128) -> (r: String)
    ensures
        r@ == utc_text(nanos as int),
{
    match rfc3339_utc(nanos) {
        Some(t) => t,
        None => owned("1970-01-01T00:00:00Z"),
    }
}

fn timestamp_nanos(n: &str) -> (r: Option<i128>)
    ensures
        r matches Some(t) ==> timestamp_nanos_of(n@) == Some(t as int),
        r is None ==> timestamp_nanos_of(n@) is None,
{
    let a = rfc3339_nanos(n);
    if a.is_some() {
        return a;
    }
    let b = local_datetime_nanos(n, "[year]-[month]-[day] [hour]:[minute]:[second]", 8);
    if b.is_some() {
        return b;
    }
    let c = local_datetime_nanos(n, "[year]-[month]-[day] [hour]:[minute]", 8);
    if c.is_some() {
        return c;
    }
    let d = local_datetime_nanos(n, "[year]/[month]/[day] [hour]:[minute]:[second]", 8);
    if d.is_some() {
        return d;
    }
    let e = local_datetime_nanos(n, "[year]/[month]/[day] [hour]:[minute]", 8);
    if e.is_some() {
        return e;
    }
    let f = local_date_nanos(n, "[year]-[month]-[day]", 8);
    if f.is_some() {
        return f;
    }
    local_date_nanos(n, "[year]/[month]/[day]", 8)
}

/// The UTC RFC 3339 form of a timestamp text: RFC 3339 as it is, or one of
/// the local layouts read at UTC+8; `None` when empty or unreadable.
pub fn normalize_timestamp(input: &str) -> (r: Option<String>)
    ensures
        r.deep_view() == timestamp_of(input@),
{
    let normalized = normalize_text(input);
    if normalized.as_str().is_empty() {
        return None;
    }
    match timestamp_nanos(normalized.as_str()) {
        Some(t) => Some(utc_text_of(t)),
        None => None,
    }
}

/// `s` is the UTC text of some instant.
pub open spec fn is_utc_stamp(s: Seq<char>) -> bool {
    exists|n: int| s == utc_text(n)
}

/// The current time as RFC 3339 UTC text.
pub fn utc_now_iso() -> (r: String)
    ensures
        is_utc_stamp(r@),
{
    let n = now_unix_nanos();
    utc_text_of(n)
}

/// The run id for a run started at `nanos` with the given seed.
pub open spec fn run_id_of(nanos: int, seed: Seq<char>) -> Seq<char> {
    "run_"@ + decimal_of(nanos) + "_"@ + fingerprint_of(seq![seed], 8)
}

/// The run id of a run started at `nanos`: `run_`, the nanoseconds, `_`,
/// and an eight-digit fingerprint of the seed.
pub fn run_id_at(nanos: i128, seed: &str) -> (r: String)
    ensures
        r@ == run_id_of(nanos as int, seed@),
{
    let parts: [&str; 1] = [seed];
    let fp = fingerprint(&parts, 8);
    proof {
        assert(parts.deep_view() =~= seq![seed@]);
    }
    let digits = decimal(nanos);
    let head = concat3("run_", digits.as_str(), "_");
    concat(head.as_str(), fp.as_str())
}

/// A fresh run id, from the current time.
pub fn new_run_id(seed: &str) -> (r: String)
    ensures
        exists|n: int| r@ == run_id_of(n, seed@),
{
    let n = now_unix_nanos();
    run_id_at(n, seed)
}


// ---------------------------------------------------------------------------
// laws of normalization

/// A plain text whose whitespace stands only as single spaces between
/// other characters is its own normalized form.
proof fn lemma_plain_collapsed_normal(t: Seq<char>)
    requires
        is_plain(t),
        is_collapsed(t),
    ensures
        normalized_text_of(t) == t,
{
    reveal(nfkc_of);
    assert forall|i: int| 0 <= i < t.len() implies #[trigger] blank_special(t[i]) == t[i] by {
        assert(is_plain_char(t[i]));
    }
    assert(blank_specials(t) =~= t);
    lemma_collapsed_is_fixed(t);
}

/// Normalizing a text whose normalized form is plain (ASCII and CJK
/// unified ideographs only) again changes nothing.
pub proof fn lemma_normalize_text_idempotent(s: Seq<char>)
    requires
        is_plain(normalized_text_of(s)),
    ensures
        normalized_text_of(normalized_text_of(s)) == normalized_text_of(s),
{
    lemma_collapse_shape(blank_specials(nfkc_of(s)));
    lemma_plain_collapsed_normal(normalized_text_of(s));
}

/// A plain text normalized and lowercased is plain, collapsed and
/// lowercase, and is its own normalized lowercase form.
proof fn lemma_norm_lower_plain(s: Seq<char>)
    requires
        is_plain(s),
    ensures
        is_plain(norm_lower(s)),
        is_collapsed(norm_lower(s)),
        norm_lower(s) == ascii_lower_all(norm_lower(s)),
        norm_lower(norm_lower(s)) == norm_lower(s),
{
    reveal(nfkc_of);
    reveal(lowercase_of);
    assert forall|i: int| 0 <= i < s.len() implies #[trigger] blank_special(s[i]) == s[i] by {
        assert(is_plain_char(s[i]));
    }
    assert(blank_specials(s) =~= s);
    let n = normalized_text_of(s);
    assert(n == collapse_ws(s));
    lemma_collapse_shape(s);
    lemma_ascii_lower_shape(n);
    let k = ascii_lower_all(n);
    assert(norm_lower(s) == k);
    lemma_ascii_lower_shape(k);
    lemma_plain_collapsed_normal(k);
}

/// A plain lowercase text that is its own normalized form is its own
/// normalized lowercase form.
proof fn lemma_plain_name(t: Seq<char>)
    requires
        is_plain(t),
        is_collapsed(t),
        ascii_lower_all(t) == t,
    ensures
        norm_lower(t) == t,
{
    reveal(lowercase_of);
    lemma_plain_collapsed_normal(t);
}

proof fn lemma_lower_word(t: Seq<char>)
    requires
        forall|i: int| 0 <= i < t.len() ==> 'a' <= #[trigger] t[i] && t[i] <= 'z',
    ensures
        norm_lower(t) == t,
{
    assert forall|i: int| 0 <= i < t.len() implies is_plain_char(#[trigger] t[i]) by {}
    assert(ascii_lower_all(t) =~= t);
    assert forall|i: int| 0 <= i < t.len() && is_ws(#[trigger] t[i]) implies t[i] == ' ' && 0 < i
        && i + 1 < t.len() && !is_ws(t[i - 1]) && !is_ws(t[i + 1]) by {}
    lemma_plain_name(t);
}

/// The canonical name of a plain platform name is its own canonical name.
pub proof fn lemma_platform_idempotent(p: Seq<char>)
    requires
        is_plain(p),
    ensures
        platform_of(platform_of(p)) == platform_of(p),
{
    reveal_strlit("b站");
    reveal_strlit("bilibili");
    reveal_strlit("哔哩哔哩");
    reveal_strlit("微博");
    reveal_strlit("weibo");
    reveal_strlit("抖音");
    reveal_strlit("douyin");
    reveal_strlit("taptap");
    reveal_strlit("taptap社区");
    reveal_strlit("小红书");
    reveal_strlit("xiaohongshu");
    reveal_strlit("official");
    reveal_strlit("官方");
    reveal_strlit("官方源");
    reveal_strlit("unknown");
    lemma_norm_lower_plain(p);
    let k = norm_lower(p);
    let r = platform_of(p);
    if r == k {
        lemma_plain_name(k);
    } else {
        lemma_lower_word(r);
    }
    assert(norm_lower(r) == r);
    assert("bilibili"@[1] != "b站"@[1]);
    assert("weibo"@[0] != "b站"@[0]);
    assert("weibo"@[0] != "bilibili"@[0]);
    assert("weibo"@[0] != "哔哩哔哩"@[0]);
    assert("weibo"@[0] != "微博"@[0]);
    assert("douyin"@[0] != "b站"@[0]);
    assert("douyin"@[0] != "bilibili"@[0]);
    assert("douyin"@[0] != "哔哩哔哩"@[0]);
    assert("douyin"@[0] != "微博"@[0]);
    assert("douyin"@[0] != "weibo"@[0]);
    assert("douyin"@[0] != "抖音"@[0]);
    assert("taptap"@[0] != "b站"@[0]);
    assert("taptap"@[0] != "bilibili"@[0]);
    assert("taptap"@[0] != "哔哩哔哩"@[0]);
    assert("taptap"@[0] != "微博"@[0]);
    assert("taptap"@[0] != "weibo"@[0]);
    assert("taptap"@[0] != "抖音"@[0]);
    assert("taptap"@[0] != "douyin"@[0]);
    assert("xiaohongshu"@[0] != "b站"@[0]);
    assert("xiaohongshu"@[0] != "bilibili"@[0]);
    assert("xiaohongshu"@[0] != "哔哩哔哩"@[0]);
    assert("xiaohongshu"@[0] != "微博"@[0]);
    assert("xiaohongshu"@[0] != "weibo"@[0]);
    assert("xiaohongshu"@[0] != "抖音"@[0]);
    assert("xiaohongshu"@[0] != "douyin"@[0]);
    assert("xiaohongshu"@[0] != "taptap"@[0]);
    assert("xiaohongshu"@[0] != "taptap社区"@[0]);
    assert("xiaohongshu"@[0] != "小红书"@[0]);
    assert("official"@[0] != "b站"@[0]);
    assert("official"@[0] != "bilibili"@[0]);
    assert("official"@[0] != "哔哩哔哩"@[0]);
    assert("official"@[0] != "微博"@[0]);
    assert("official"@[0] != "weibo"@[0]);
    assert("official"@[0] != "抖音"@[0]);
    assert("official"@[0] != "douyin"@[0]);
    assert("official"@[0] != "taptap"@[0]);
    assert("official"@[0] != "taptap社区"@[0]);
    assert("official"@[0] != "小红书"@[0]);
    assert("official"@[0] != "xiaohongshu"@[0]);
    assert("unknown"@[0] != "b站"@[0]);
    assert("unknown"@[0] != "bilibili"@[0]);
    assert("unknown"@[0] != "哔哩哔哩"@[0]);
    assert("unknown"@[0] != "微博"@[0]);
    assert("unknown"@[0] != "weibo"@[0]);
    assert("unknown"@[0] != "抖音"@[0]);
    assert("unknown"@[0] != "douyin"@[0]);
    assert("unknown"@[0] != "taptap"@[0]);
    assert("unknown"@[0] != "taptap社区"@[0]);
    assert("unknown"@[0] != "小红书"@[0]);
    assert("unknown"@[0] != "xiaohongshu"@[0]);
    assert("unknown"@[0] != "official"@[0]);
    assert("unknown"@[0] != "官方"@[0]);
    assert("unknown"@[0] != "官方源"@[0]);
}

/// A plain text normalizes to a plain text that is its own normalized
/// form, and its normalized lowercase form is plain and its own normalized
/// lowercase form.
pub proof fn lemma_plain_normalizes_once(s: Seq<char>)
    requires
        is_plain(s),
    ensures
        is_plain(normalized_text_of(s)),
        normalized_text_of(normalized_text_of(s)) == normalized_text_of(s),
        is_plain(norm_lower(s)),
        norm_lower(norm_lower(s)) == norm_lower(s),
{
    reveal(nfkc_of);
    assert forall|i: int| 0 <= i < s.len() implies #[trigger] blank_special(s[i]) == s[i] by {
        assert(is_plain_char(s[i]));
    }
    assert(blank_specials(s) =~= s);
    lemma_collapse_shape(s);
    lemma_normalize_text_idempotent(s);
    lemma_norm_lower_plain(s);
}

/// The canonical source type of a name, once normalized and lowercased:
/// `official`, `official_source`, `官号` and `官方` are `official`; `media`
/// and `媒体` are `media`; `community` and `社区` are `community`;
/// `content_platform` and `内容平台` are `content_platform`; any other name
/// stays as it is, and an empty one is `unknown`.
pub proof fn lemma_source_type_names(raw: Seq<char>)
    ensures
        ({
            let k = norm_lower(raw);
            &&& (k == "official"@ || k == "official_source"@ || k == "官号"@ || k == "官方"@) ==> source_type_of(raw) == "official"@
            &&& (k == "media"@ || k == "媒体"@) ==> source_type_of(raw) == "media"@
            &&& (k == "community"@ || k == "社区"@) ==> source_type_of(raw) == "community"@
            &&& (k == "content_platform"@ || k == "内容平台"@) ==> source_type_of(raw) == "content_platform"@
            &&& (k != "official"@ && k != "official_source"@ && k != "官号"@ && k != "官方"@ && k != "media"@ && k != "媒体"@ && k != "community"@ && k != "社区"@ && k != "content_platform"@ && k != "内容平台"@ && k.len() > 0) ==> source_type_of(raw) == k
            &&& k.len() == 0 ==> source_type_of(raw) == "unknown"@
        }),
{
    reveal_strlit("official");
    reveal_strlit("official_source");
    reveal_strlit("官号");
    reveal_strlit("官方");
    reveal_strlit("media");
    reveal_strlit("媒体");
    reveal_strlit("community");
    reveal_strlit("社区");
    reveal_strlit("content_platform");
    reveal_strlit("内容平台");
    reveal_strlit("unknown");
    assert("media"@[0] != "official"@[0]);
    assert("media"@[0] != "official_source"@[0]);
    assert("media"@[0] != "官号"@[0]);
    assert("media"@[0] != "官方"@[0]);
    assert("媒体"@[0] != "official"@[0]);
    assert("媒体"@[0] != "official_source"@[0]);
    assert("媒体"@[0] != "官号"@[0]);
    assert("媒体"@[0] != "官方"@[0]);
    assert("community"@[0] != "official"@[0]);
    assert("community"@[0] != "official_source"@[0]);
    assert("community"@[0] != "官号"@[0]);
    assert("community"@[0] != "官方"@[0]);
    assert("community"@[0] != "media"@[0]);
    assert("community"@[0] != "媒体"@[0]);
    assert("社区"@[0] != "official"@[0]);
    assert("社区"@[0] != "official_source"@[0]);
    assert("社区"@[0] != "官号"@[0]);
    assert("社区"@[0] != "官方"@[0]);
    assert("社区"@[0] != "media"@[0]);
    assert("社区"@[0] != "媒体"@[0]);
    assert("content_platform"@[0] != "official"@[0]);
    assert("content_platform"@[0] != "official_source"@[0]);
    assert("content_platform"@[0] != "官号"@[0]);
    assert("content_platform"@[0] != "官方"@[0]);
    assert("content_platform"@[0] != "media"@[0]);
    assert("content_platform"@[0] != "媒体"@[0]);
    assert("content_platform"@[2] != "community"@[2]);
    assert("content_platform"@[0] != "社区"@[0]);
    assert("内容平台"@[0] != "official"@[0]);
    assert("内容平台"@[0] != "official_source"@[0]);
    assert("内容平台"@[0] != "官号"@[0]);
    assert("内容平台"@[0] != "官方"@[0]);
    assert("内容平台"@[0] != "media"@[0]);
    assert("内容平台"@[0] != "媒体"@[0]);
    assert("内容平台"@[0] != "community"@[0]);
    assert("内容平台"@[0] != "社区"@[0]);
}

/// The canonical content type of a name, once normalized and lowercased:
/// `announcement` and `公告` are `announcement`; `post` and `帖子` are
/// `post`; `video` and `视频` are `video`; `article` and `文章` are
/// `article`; any other name stays as it is, and an empty one is `unknown`.
pub proof fn lemma_content_type_names(raw: Seq<char>)
    ensures
        ({
            let k = norm_lower(raw);
            &&& (k == "announcement"@ || k == "公告"@) ==> content_type_of(raw) == "announcement"@
            &&& (k == "post"@ || k == "帖子"@) ==> content_type_of(raw) == "post"@
            &&& (k == "video"@ || k == "视频"@) ==> content_type_of(raw) == "video"@
            &&& (k == "article"@ || k == "文章"@) ==> content_type_of(raw) == "article"@
            &&& (k != "announcement"@ && k != "公告"@ && k != "post"@ && k != "帖子"@ && k != "video"@ && k != "视频"@ && k != "article"@ && k != "文章"@ && k.len() > 0) ==> content_type_of(raw) == k
            &&& k.len() == 0 ==> content_type_of(raw) == "unknown"@
        }),
{
    reveal_strlit("announcement");
    reveal_strlit("公告");
    reveal_strlit("post");
    reveal_strlit("帖子");
    reveal_strlit("video");
    reveal_strlit("视频");
    reveal_strlit("article");
    reveal_strlit("文章");
    reveal_strlit("unknown");
    assert("post"@[0] != "announcement"@[0]);
    assert("post"@[0] != "公告"@[0]);
    assert("帖子"@[0] != "announcement"@[0]);
    assert("帖子"@[0] != "公告"@[0]);
    assert("video"@[0] != "announcement"@[0]);
    assert("video"@[0] != "公告"@[0]);
    assert("video"@[0] != "post"@[0]);
    assert("video"@[0] != "帖子"@[0]);
    assert("视频"@[0] != "announcement"@[0]);
    assert("视频"@[0] != "公告"@[0]);
    assert("视频"@[0] != "post"@[0]);
    assert("视频"@[0] != "帖子"@[0]);
    assert("article"@[1] != "announcement"@[1]);
    assert("article"@[0] != "公告"@[0]);
    assert("article"@[0] != "post"@[0]);
    assert("article"@[0] != "帖子"@[0]);
    assert("article"@[0] != "video"@[0]);
    assert("article"@[0] != "视频"@[0]);
    assert("文章"@[0] != "announcement"@[0]);
    assert("文章"@[0] != "公告"@[0]);
    assert("文章"@[0] != "post"@[0]);
    assert("文章"@[0] != "帖子"@[0]);
    assert("文章"@[0] != "video"@[0]);
    assert("文章"@[0] != "视频"@[0]);
}

/// The canonical platform of a name, once normalized and lowercased:
/// `b站`, `bilibili` and `哔哩哔哩` are `bilibili`; `微博` and `weibo` are
/// `weibo`; `抖音` and `douyin` are `douyin`; `taptap` and `taptap社区` are
/// `taptap`; `小红书` and `xiaohongshu` are `xiaohongshu`; `official`, `官方`
/// and `官方源` are `official`; any other name stays as it is, and an empty
/// one is `unknown`.
pub proof fn lemma_platform_names(raw: Seq<char>)
    ensures
        ({
            let k = norm_lower(raw);
            &&& (k == "b站"@ || k == "bilibili"@ || k == "哔哩哔哩"@) ==> platform_of(raw) == "bilibili"@
            &&& (k == "微博"@ || k == "weibo"@) ==> platform_of(raw) == "weibo"@
            &&& (k == "抖音"@ || k == "douyin"@) ==> platform_of(raw) == "douyin"@
            &&& (k == "taptap"@ || k == "taptap社区"@) ==> platform_of(raw) == "taptap"@
            &&& (k == "小红书"@ || k == "xiaohongshu"@) ==> platform_of(raw) == "xiaohongshu"@
            &&& (k == "official"@ || k == "官方"@ || k == "官方源"@) ==> platform_of(raw) == "official"@
            &&& (k != "b站"@ && k != "bilibili"@ && k != "哔哩哔哩"@ && k != "微博"@ && k != "weibo"@ && k != "抖音"@ && k != "douyin"@ && k != "taptap"@ && k != "taptap社区"@ && k != "小红书"@ && k != "xiaohongshu"@ && k != "official"@ && k != "官方"@ && k != "官方源"@ && k.len() > 0) ==> platform_of(raw) == k
            &&& k.len() == 0 ==> platform_of(raw) == "unknown"@
        }),
{
    reveal_strlit("b站");
    reveal_strlit("bilibili");
    reveal_strlit("哔哩哔哩");
    reveal_strlit("微博");
    reveal_strlit("weibo");
    reveal_strlit("抖音");
    reveal_strlit("douyin");
    reveal_strlit("taptap");
    reveal_strlit("taptap社区");
    reveal_strlit("小红书");
    reveal_strlit("xiaohongshu");
    reveal_strlit("official");
    reveal_strlit("官方");
    reveal_strlit("官方源");
    reveal_strlit("unknown");
    assert("微博"@[0] != "b站"@[0]);
    assert("微博"@[0] != "bilibili"@[0]);
    assert("微博"@[0] != "哔哩哔哩"@[0]);
    assert("weibo"@[0] != "b站"@[0]);
    assert("weibo"@[0] != "bilibili"@[0]);
    assert("weibo"@[0] != "哔哩哔哩"@[0]);
    assert("抖音"@[0] != "b站"@[0]);
    assert("抖音"@[0] != "bilibili"@[0]);
    assert("抖音"@[0] != "哔哩哔哩"@[0]);
    assert("抖音"@[0] != "微博"@[0]);
    assert("抖音"@[0] != "weibo"@[0]);
    assert("douyin"@[0] != "b站"@[0]);
    assert("douyin"@[0] != "bilibili"@[0]);
    assert("douyin"@[0] != "哔哩哔哩"@[0]);
    assert("douyin"@[0] != "微博"@[0]);
    assert("douyin"@[0] != "weibo"@[0]);
    assert("taptap"@[0] != "b站"@[0]);
    assert("taptap"@[0] != "bilibili"@[0]);
    assert("taptap"@[0] != "哔哩哔哩"@[0]);
    assert("taptap"@[0] != "微博"@[0]);
    assert("taptap"@[0] != "weibo"@[0]);
    assert("taptap"@[0] != "抖音"@[0]);
    assert("taptap"@[0] != "douyin"@[0]);
    assert("taptap社区"@[0] != "b站"@[0]);
    assert("taptap社区"@[0] != "bilibili"@[0]);
    assert("taptap社区"@[0] != "哔哩哔哩"@[0]);
    assert("taptap社区"@[0] != "微博"@[0]);
    assert("taptap社区"@[0] != "weibo"@[0]);
    assert("taptap社区"@[0] != "抖音"@[0]);
    assert("taptap社区"@[0] != "douyin"@[0]);
    assert("小红书"@[0] != "b站"@[0]);
    assert("小红书"@[0] != "bilibili"@[0]);
    assert("小红书"@[0] != "哔哩哔哩"@[0]);
    assert("小红书"@[0] != "微博"@[0]);
    assert("小红书"@[0] != "weibo"@[0]);
    assert("小红书"@[0] != "抖音"@[0]);
    assert("小红书"@[0] != "douyin"@[0]);
    assert("小红书"@[0] != "taptap"@[0]);
    assert("小红书"@[0] != "taptap社区"@[0]);
    assert("xiaohongshu"@[0] != "b站"@[0]);
    assert("xiaohongshu"@[0] != "bilibili"@[0]);
    assert("xiaohongshu"@[0] != "哔哩哔哩"@[0]);
    assert("xiaohongshu"@[0] != "微博"@[0]);
    assert("xiaohongshu"@[0] != "weibo"@[0]);
    assert("xiaohongshu"@[0] != "抖音"@[0]);
    assert("xiaohongshu"@[0] != "douyin"@[0]);
    assert("xiaohongshu"@[0] != "taptap"@[0]);
    assert("xiaohongshu"@[0] != "taptap社区"@[0]);
    assert("official"@[0] != "b站"@[0]);
    assert("official"@[0] != "bilibili"@[0]);
    assert("official"@[0] != "哔哩哔哩"@[0]);
    assert("official"@[0] != "微博"@[0]);
    assert("official"@[0] != "weibo"@[0]);
    assert("official"@[0] != "抖音"@[0]);
    assert("official"@[0] != "douyin"@[0]);
    assert("official"@[0] != "taptap"@[0]);
    assert("official"@[0] != "taptap社区"@[0]);
    assert("official"@[0] != "小红书"@[0]);
    assert("official"@[0] != "xiaohongshu"@[0]);
    assert("官方"@[0] != "b站"@[0]);
    assert("官方"@[0] != "bilibili"@[0]);
    assert("官方"@[0] != "哔哩哔哩"@[0]);
    assert("官方"@[0] != "微博"@[0]);
    assert("官方"@[0] != "weibo"@[0]);
    assert("官方"@[0] != "抖音"@[0]);
    assert("官方"@[0] != "douyin"@[0]);
    assert("官方"@[0] != "taptap"@[0]);
    assert("官方"@[0] != "taptap社区"@[0]);
    assert("官方"@[0] != "小红书"@[0]);
    assert("官方"@[0] != "xiaohongshu"@[0]);
    assert("官方源"@[0] != "b站"@[0]);
    assert("官方源"@[0] != "bilibili"@[0]);
    assert("官方源"@[0] != "哔哩哔哩"@[0]);
    assert("官方源"@[0] != "微博"@[0]);
    assert("官方源"@[0] != "weibo"@[0]);
    assert("官方源"@[0] != "抖音"@[0]);
    assert("官方源"@[0] != "douyin"@[0]);
    assert("官方源"@[0] != "taptap"@[0]);
    assert("官方源"@[0] != "taptap社区"@[0]);
    assert("官方源"@[0] != "小红书"@[0]);
    assert("官方源"@[0] != "xiaohongshu"@[0]);
}

/// The layer of a source: official when its type or its platform is
/// official; else media when its type is media; else community when its
/// type is community or its platform is TapTap; else content platform.
pub proof fn lemma_source_layers(source_type: Seq<char>, platform: Seq<char>)
    ensures
        (source_type == "official"@ || platform == "official"@) ==> source_layer_of(source_type, platform) == "official"@,
        (source_type != "official"@ && platform != "official"@ && source_type == "media"@) ==> source_layer_of(source_type, platform) == "media"@,
        (source_type != "official"@ && platform != "official"@ && source_type != "media"@ && (source_type == "community"@ || platform == "taptap"@)) ==> source_layer_of(source_type, platform) == "community"@,
        (source_type != "official"@ && platform != "official"@ && source_type != "media"@ && source_type != "community"@ && platform != "taptap"@) ==> source_layer_of(source_type, platform) == "content_platform"@,
{
}


/// A normalized text holds no zero-width space, byte-order mark or
/// ideographic space, and whitespace only as single spaces between other
/// characters: none leading, none trailing, never two together.
pub proof fn lemma_normalized_text_shape(s: Seq<char>)
    ensures
        forall|i: int|
            0 <= i < normalized_text_of(s).len() ==> #[trigger] normalized_text_of(s)[i]
                != '\u{200b}' && normalized_text_of(s)[i] != '\u{feff}' && normalized_text_of(s)[i]
                != '\u{3000}',
        normalized_text_of(s).len() > 0 ==> !is_ws(normalized_text_of(s)[0]) && !is_ws(
            normalized_text_of(s)[normalized_text_of(s).len() - 1],
        ),
        forall|i: int|
            0 <= i < normalized_text_of(s).len() - 1 ==> !(is_ws(#[trigger] normalized_text_of(s)[i])
                && is_ws(normalized_text_of(s)[i + 1])),
{
    let b = blank_specials(nfkc_of(s));
    let n = normalized_text_of(s);
    lemma_collapse_chars(b);
    lemma_collapse_shape(b);
    assert forall|i: int| 0 <= i < n.len() implies #[trigger] n[i] != '\u{200b}' && n[i] != '\u{feff}'
        && n[i] != '\u{3000}' by {
        if n[i] != ' ' {
            let j = choose|j: int| 0 <= j < b.len() && b[j] == n[i];
            assert(b[j] == blank_special(nfkc_of(s)[j]));
        }
    }
    if n.len() > 0 {
        assert(is_ws(n[0]) ==> 0 < 0);
        assert(is_ws(n[n.len() - 1]) ==> n.len() - 1 + 1 < n.len());
    }
    assert forall|i: int| 0 <= i < n.len() - 1 implies !(is_ws(#[trigger] n[i]) && is_ws(n[i + 1])) by {
        if is_ws(n[i]) {
            assert(!is_ws(n[i + 1]));
        }
    }
}

} // verus!
