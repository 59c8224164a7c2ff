//! The calls into outside crates and into the parts of std that vstd does not
//! specify. Each item below is trusted: its contract is believed, not proved.
//! Where the outside result takes pages to describe, the contract names it
//! with an uninterpreted function of the call's arguments.
use aes_gcm_siv::aead::{Aead, KeyInit};
use base64::Engine;
use rand::RngCore;
use sha1::Digest;
use unicode_normalization::UnicodeNormalization;
use crate::strs::{ascii_lower_all, is_plain};
use vstd::prelude::*;

verus! {

/// What `UnicodeNormalization::nfkc` yields for a text that is not plain
/// (see `is_plain`).
pub uninterp spec fn unicode_nfkc_of(s: Seq<char>) -> Seq<char>;

/// What `str::to_lowercase` returns for a text that is not plain (see
/// `is_plain`).
pub uninterp spec fn unicode_lowercase_of(s: Seq<char>) -> Seq<char>;

/// What `UnicodeNormalization::nfkc` yields for these characters: a plain
/// text (ASCII and CJK unified ideographs) is its own NFKC form.
#[verifier::opaque]
pub open spec fn nfkc_of(s: Seq<char>) -> Seq<char> {
    if is_plain(s) {
        s
    } else {
        unicode_nfkc_of(s)
    }
}

/// What `str::to_lowercase` returns for these characters: a plain text
/// (ASCII and CJK unified ideographs) is lowercased letter by ASCII letter.
#[verifier::opaque]
pub open spec fn lowercase_of(s: Seq<char>) -> Seq<char> {
    if is_plain(s) {
        ascii_lower_all(s)
    } else {
        unicode_lowercase_of(s)
    }
}

/// The SHA-1 digest of these bytes.
pub uninterp spec fn sha1_of(data: Seq<u8>) -> Seq<u8>;

/// The texts of the successive non-overlapping matches (`Regex::find_iter`)
/// of `pattern` in `text`; empty when the pattern does not compile.
pub uninterp spec fn regex_matches_of(pattern: Seq<char>, text: Seq<char>) -> Seq<Seq<char>>;

/// The decoded query pairs of `s` parsed as a URL (`Url::parse` then
/// `Url::query_pairs`); `None` when `s` is no URL.
pub uninterp spec fn url_query_pairs_of(s: Seq<char>) -> Option<Seq<(Seq<char>, Seq<char>)>>;

/// `s` parsed as a URL, without fragment, its query replaced by the
/// form-urlencoded `pairs`, serialized again; `None` when `s` is no URL.
pub uninterp spec fn url_with_query_of(
    s: Seq<char>,
    pairs: Seq<(Seq<char>, Seq<char>)>,
) -> Option<Seq<char>>;

/// `s` parsed as a URL, without fragment and without query, serialized
/// again; `None` when `s` is no URL.
pub uninterp spec fn url_without_query_of(s: Seq<char>) -> Option<Seq<char>>;

/// The host (if any) and the path of `s` parsed as a URL; `None` when `s`
/// is no URL.
pub uninterp spec fn url_host_path_of(s: Seq<char>) -> Option<(Option<Seq<char>>, Seq<char>)>;

/// The instant of `s` read as an RFC 3339 date-time, in nanoseconds since
/// the Unix epoch.
pub uninterp spec fn rfc3339_nanos_of(s: Seq<char>) -> Option<int>;

/// The instant of `s` read with the date-time format description `pattern`
/// at the fixed offset of `offset_hours` hours, in nanoseconds since the
/// Unix epoch.
pub uninterp spec fn local_datetime_nanos_of(
    s: Seq<char>,
    pattern: Seq<char>,
    offset_hours: int,
) -> Option<int>;

/// The instant of midnight of the date `s` read with the date format
/// description `pattern`, at the fixed offset of `offset_hours` hours, in
/// nanoseconds since the Unix epoch.
pub uninterp spec fn local_date_nanos_of(
    s: Seq<char>,
    pattern: Seq<char>,
    offset_hours: int,
) -> Option<int>;

/// The RFC 3339 text, in UTC, of the instant `nanos` nanoseconds after the
/// Unix epoch; `None` when the instant or its formatting is out of range.
pub uninterp spec fn rfc3339_utc_of(nanos: int) -> Option<Seq<char>>;

/// The SHA-256 digest of these bytes.
pub uninterp spec fn sha256_of(data: Seq<u8>) -> Seq<u8>;

/// These bytes in standard base64, with padding.
pub uninterp spec fn base64_encode_of(data: Seq<u8>) -> Seq<char>;

/// The bytes that this standard base64 text (with padding) encodes; `None`
/// when it is no such text.
pub uninterp spec fn base64_decode_of(text: Seq<char>) -> Option<Seq<u8>>;

/// The AES-256-GCM-SIV ciphertext (with its tag) of `plaintext` under
/// `key` and `nonce`, with no associated data; `None` when it is refused.
pub uninterp spec fn aead_seal_of(key: Seq<u8>, nonce: Seq<u8>, plaintext: Seq<u8>) -> Option<
    Seq<u8>,
>;

/// The plaintext of the AES-256-GCM-SIV `ciphertext` (with its tag) under
/// `key` and `nonce`, with no associated data; `None` when it does not
/// authenticate.
pub uninterp spec fn aead_open_of(key: Seq<u8>, nonce: Seq<u8>, ciphertext: Seq<u8>) -> Option<
    Seq<u8>,
>;

/// A character of the standard base64 alphabet, or its padding `=`.
pub open spec fn is_base64_char(c: char) -> bool {
    ||| 'A' <= c && c <= 'Z'
    ||| 'a' <= c && c <= 'z'
    ||| '0' <= c && c <= '9'
    ||| c == '+'
    ||| c == '/'
    ||| c == '='
}


/// `UnicodeNormalization::nfkc` collected into a `String`: the NFKC
/// normal form. Of a text in general only its name is stated. A plain text
/// comes back unchanged: ASCII characters and the ideographs of U+4E00 to
/// U+9FFF have no decomposition, canonical or compatibility, are starters,
/// and compose with nothing (the crate's decomposition and composition
/// tables).
#[verifier::external_body]
pub(crate) fn nfkc(s: &str) -> (r: String)
    ensures
        r@ == nfkc_of(s@),
        is_plain(s@) ==> r@ == s@,
        !is_plain(s@) ==> r@ == unicode_nfkc_of(s@),
{
    s.nfkc().collect::<String>()
}

/// `str::to_lowercase`: full Unicode lowercase mapping. Of a text in
/// general only its name is stated. A plain text is mapped character by
/// character: `A` to `Z` to their lowercase letters, every other ASCII
/// character and every CJK unified ideograph to itself, as these have no
/// other `Lowercase` mapping.
#[verifier::external_body]
pub(crate) fn lowercase(s: &str) -> (r: String)
    ensures
        r@ == lowercase_of(s@),
        is_plain(s@) ==> r@ == ascii_lower_all(s@),
        !is_plain(s@) ==> r@ == unicode_lowercase_of(s@),
{
    s.to_lowercase()
}

/// `sha1::Sha1` over `data`: the 20-byte digest.
#[verifier::external_body]
pub(crate) fn sha1_digest(data: &[u8]) -> (r: Vec<u8>)
    ensures
        r@ == sha1_of(data@),
        r@.len() == 20,
{
    let mut hasher = sha1::Sha1::new();
    hasher.update(data);
    hasher.finalize().to_vec()
}

/// `regex::Regex::new(pattern)` and `find_iter` over `text`: the matched
/// texts in order. A pattern that does not compile gives no match.
#[verifier::external_body]
pub(crate) fn regex_find_all(pattern: &str, text: &str) -> (r: Vec<String>)
    ensures
        r.deep_view() == regex_matches_of(pattern@, text@),
{
    match regex::Regex::new(pattern) {
        Ok(re) => re.find_iter(text).map(|m| m.as_str().to_string()).collect(),
        Err(_) => Vec::new(),
    }
}

/// `url::Url::parse` and `Url::query_pairs`, each pair decoded.
#[verifier::external_body]
pub(crate) fn url_query_pairs(s: &str) -> (r: Option<Vec<(String, String)>>)
    ensures
        r.deep_view() == url_query_pairs_of(s@),
{
    url::Url::parse(s).ok().map(
        |u| u.query_pairs().map(|(k, v)| (k.into_owned(), v.into_owned())).collect(),
    )
}

/// `url::Url::parse`, `set_fragment(None)`, then the query cleared and
/// `append_pair` for each pair, and `Url::to_string`.
#[verifier::external_body]
pub(crate) fn url_with_query(s: &str, pairs: &Vec<(String, String)>) -> (r: Option<String>)
    ensures
        r.deep_view() == url_with_query_of(s@, pairs.deep_view()),
{
    let mut u = url::Url::parse(s).ok()?;
    u.set_fragment(None);
    {
        let mut serializer = u.query_pairs_mut();
        serializer.clear();
        for (key, value) in pairs {
            serializer.append_pair(key, value);
        }
    }
    Some(u.to_string())
}

/// `url::Url::parse`, `set_fragment(None)`, `set_query(None)`, and
/// `Url::to_string`.
#[verifier::external_body]
pub(crate) fn url_without_query(s: &str) -> (r: Option<String>)
    ensures
        r.deep_view() == url_without_query_of(s@),
{
    let mut u = url::Url::parse(s).ok()?;
    u.set_fragment(None);
    u.set_query(None);
    Some(u.to_string())
}

/// `url::Url::parse`, then `host_str` and `path`.
#[verifier::external_body]
pub(crate) fn url_host_path(s: &str) -> (r: Option<(Option<String>, String)>)
    ensures
        r.deep_view() == url_host_path_of(s@),
{
    let u = url::Url::parse(s).ok()?;
    Some((u.host_str().map(|h| h.to_string()), u.path().to_string()))
}

/// `time::OffsetDateTime::parse` with the RFC 3339 description, then
/// `unix_timestamp_nanos`.
#[verifier::external_body]
pub(crate) fn rfc3339_nanos(s: &str) -> (r: Option<i128>)
    ensures
        r matches Some(n) ==> rfc3339_nanos_of(s@) == Some(n as int),
        r is None ==> rfc3339_nanos_of(s@) is None,
{
    time::OffsetDateTime::parse(s, &time::format_description::well_known::Rfc3339).ok().map(
        |t| t.unix_timestamp_nanos(),
    )
}

/// `time::format_description::parse(pattern)`, `PrimitiveDateTime::parse`,
/// `assume_offset(UtcOffset::from_hms(offset_hours, 0, 0))`, then
/// `unix_timestamp_nanos`.
#[verifier::external_body]
pub(crate) fn local_datetime_nanos(s: &str, pattern: &str, offset_hours: i8) -> (r: Option<i128>)
    ensures
        r matches Some(n) ==> local_datetime_nanos_of(s@, pattern@, offset_hours as int) == Some(
            n as int,
        ),
        r is None ==> local_datetime_nanos_of(s@, pattern@, offset_hours as int) is None,
{
    let offset = time::UtcOffset::from_hms(offset_hours, 0, 0).ok()?;
    let description = time::format_description::parse(pattern).ok()?;
    let parsed = time::PrimitiveDateTime::parse(s, &description).ok()?;
    Some(parsed.assume_offset(offset).unix_timestamp_nanos())
}

/// `time::format_description::parse(pattern)`, `Date::parse`, midnight of
/// that date, `assume_offset(UtcOffset::from_hms(offset_hours, 0, 0))`,
/// then `unix_timestamp_nanos`.
#[verifier::external_body]
pub(crate) fn local_date_nanos(s: &str, pattern: &str, offset_hours: i8) -> (r: Option<i128>)
    ensures
        r matches Some(n) ==> local_date_nanos_of(s@, pattern@, offset_hours as int) == Some(
            n as int,
        ),
        r is None ==> local_date_nanos_of(s@, pattern@, offset_hours as int) is None,
{
    let offset = time::UtcOffset::from_hms(offset_hours, 0, 0).ok()?;
    let description = time::format_description::parse(pattern).ok()?;
    let parsed = time::Date::parse(s, &description).ok()?;
    Some(time::PrimitiveDateTime::new(parsed, time::Time::MIDNIGHT).assume_offset(
        offset,
    ).unix_timestamp_nanos())
}

/// `time::OffsetDateTime::from_unix_timestamp_nanos` and `format` with the
/// RFC 3339 description.
#[verifier::external_body]
pub(crate) fn rfc3339_utc(nanos: i128) -> (r: Option<String>)
    ensures
        r.deep_view() == rfc3339_utc_of(nanos as int),
{
    let t = time::OffsetDateTime::from_unix_timestamp_nanos(nanos).ok()?;
    t.format(&time::format_description::well_known::Rfc3339).ok()
}

/// `time::OffsetDateTime::now_utc` as nanoseconds since the Unix epoch. The
/// clock decides; nothing is stated of the value.
#[verifier::external_body]
pub(crate) fn now_unix_nanos() -> (r: i128) {
    time::OffsetDateTime::now_utc().unix_timestamp_nanos()
}


/// `sha2::Sha256::digest`: the SHA-256 digest of `data`, named by
/// `sha256_of`, and 32 bytes long.
#[verifier::external_body]
pub(crate) fn sha256_digest(data: &[u8]) -> (r: Vec<u8>)
    ensures
        r@ == sha256_of(data@),
        r@.len() == 32,
{
    sha2::Sha256::digest(data).to_vec()
}

/// `base64::engine::general_purpose::STANDARD.encode`: the standard base64
/// text of `data`, named by `base64_encode_of`. It is made of the base64
/// alphabet and `=`, and `STANDARD.decode` gives `data` back from it.
/// `requires` keeps the length clear of the overflow on which `encode`
/// panics.
#[verifier::external_body]
pub(crate) fn base64_encode(data: &[u8]) -> (r: String)
    requires
        data@.len() <= usize::MAX / 2,
    ensures
        r@ == base64_encode_of(data@),
        base64_decode_of(r@) == Some(data@),
        forall|i: int| 0 <= i < r@.len() ==> is_base64_char(#[trigger] r@[i]),
{
    base64::engine::general_purpose::STANDARD.encode(data)
}

/// `base64::engine::general_purpose::STANDARD.decode`: the bytes of the
/// standard base64 text `text`, or `None` when it is refused; named by
/// `base64_decode_of`.
#[verifier::external_body]
pub(crate) fn base64_decode(text: &str) -> (r: Option<Vec<u8>>)
    ensures
        r matches Some(b) ==> base64_decode_of(text@) == Some(b@),
        r is None ==> base64_decode_of(text@) is None,
{
    base64::engine::general_purpose::STANDARD.decode(text).ok()
}

/// `Aes256GcmSiv::new_from_slice` then `Aead::encrypt` with no associated
/// data: the ciphertext of `plaintext`, named by `aead_seal_of`. The
/// crate refuses a plaintext longer than 2^36 bytes and nothing else, the
/// ciphertext is the plaintext's length and a 16-byte tag, and
/// `Aead::decrypt` under the same key and nonce gives the plaintext back.
/// `requires` holds the key and nonce lengths on which the calls do not
/// panic.
#[verifier::external_body]
pub(crate) fn aead_seal(key: &[u8], nonce: &[u8], plaintext: &[u8]) -> (r: Option<Vec<u8>>)
    requires
        key@.len() == 32,
        nonce@.len() == 12,
    ensures
        r matches Some(c) ==> aead_seal_of(key@, nonce@, plaintext@) == Some(c@),
        r is None ==> aead_seal_of(key@, nonce@, plaintext@) is None,
        r is Some <==> plaintext@.len() <= 0x1000000000,
        r matches Some(c) ==> aead_open_of(key@, nonce@, c@) == Some(plaintext@),
        r matches Some(c) ==> c@.len() == plaintext@.len() + 16,
{
    let cipher = aes_gcm_siv::Aes256GcmSiv::new_from_slice(key).ok()?;
    cipher.encrypt(aes_gcm_siv::Nonce::from_slice(nonce), plaintext).ok()
}

/// `Aes256GcmSiv::new_from_slice` then `Aead::decrypt` with no associated
/// data: the plaintext of `ciphertext`, or `None` when it does not
/// authenticate; named by `aead_open_of`. `requires` holds the key and
/// nonce lengths on which the calls do not panic.
#[verifier::external_body]
pub(crate) fn aead_open(key: &[u8], nonce: &[u8], ciphertext: &[u8]) -> (r: Option<Vec<u8>>)
    requires
        key@.len() == 32,
        nonce@.len() == 12,
    ensures
        r matches Some(p) ==> aead_open_of(key@, nonce@, ciphertext@) == Some(p@),
        r is None ==> aead_open_of(key@, nonce@, ciphertext@) is None,
{
    let cipher = aes_gcm_siv::Aes256GcmSiv::new_from_slice(key).ok()?;
    cipher.decrypt(aes_gcm_siv::Nonce::from_slice(nonce), ciphertext).ok()
}

/// `rand::thread_rng().fill_bytes` on twelve bytes. Chance decides the
/// bytes; only their number is stated.
#[verifier::external_body]
pub(crate) fn random_nonce() -> (r: Vec<u8>)
    ensures
        r@.len() == 12,
{
    let mut nonce = [0u8; 12];
    rand::thread_rng().fill_bytes(&mut nonce);
    nonce.to_vec()
}

} // verus!
