//! The encrypted fallback vault of the secret store: its key, and the text
//! it keeps on disk, which is the standard base64 of a 12-byte nonce
//! followed by the AES-256-GCM-SIV ciphertext of the stored map.
use crate::ext::{
    aead_open, aead_open_of, aead_seal, aead_seal_of, base64_decode, base64_decode_of,
    base64_encode, base64_encode_of, is_base64_char, random_nonce, sha256_digest, sha256_of,
};
use crate::strs::{concat, concat3, first_non_ws, is_ws, last_non_ws_end, owned, trim, trim_ws};
use vstd::prelude::*;
use vstd::slice::slice_subrange;
use vstd::utf8::encode_utf8;

verus! {

/// Why the vault text could not be read or written.
#[derive(Clone, Copy, Debug, PartialEq, Eq, Structural)]
pub enum VaultError {
    /// The text is no base64.
    Decode,
    /// The ciphertext does not authenticate under the key.
    Decrypt,
    /// The plaintext was refused by the cipher.
    Encrypt,
}

impl VaultError {
    /// The message of the error.
    pub fn message(&self) -> (r: String)
        ensures
            r@ == match self {
                VaultError::Decode => "failed to decode fallback secret payload"@,
                VaultError::Decrypt => "failed to decrypt fallback secret vault"@,
                VaultError::Encrypt => "failed to encrypt secret vault"@,
            },
    {
        match self {
            VaultError::Decode => owned("failed to decode fallback secret payload"),
            VaultError::Decrypt => owned("failed to decrypt fallback secret vault"),
            VaultError::Encrypt => owned("failed to encrypt secret vault"),
        }
    }
}

/// The text the vault key of a user on a host is derived from.
pub open spec fn key_text(username: Seq<char>, hostname: Seq<char>) -> Seq<char> {
    "spg-web::"@ + username + "::"@ + hostname
}

/// The vault key of `username` on `hostname`: the SHA-256 digest of the
/// UTF-8 bytes of `spg-web::{username}::{hostname}`.
pub fn vault_key(username: &str, hostname: &str) -> (r: Vec<u8>)
    ensures
        r@ == sha256_of(encode_utf8(key_text(username@, hostname@))),
        r@.len() == 32,
{
    let head = concat3("spg-web::", username, "::");
    let text = concat(head.as_str(), hostname);
    sha256_digest(text.as_str().as_bytes())
}

/// What reading the vault text `payload` with `key` gives: the stored
/// plaintext; `None` when the decoded text is too short to hold a nonce.
pub open spec fn open_payload_of(payload: Seq<char>, key: Seq<u8>) -> Result<
    Option<Seq<u8>>,
    VaultError,
> {
    match base64_decode_of(trim_ws(payload)) {
        None => Err(VaultError::Decode),
        Some(raw) => if raw.len() < 12 {
            Ok(None)
        } else {
            match aead_open_of(key, raw.take(12), raw.skip(12)) {
                None => Err(VaultError::Decrypt),
                Some(p) => Ok(Some(p)),
            }
        },
    }
}

/// What writing `plaintext` under `nonce` and `key` gives as vault text.
pub open spec fn seal_payload_of(plaintext: Seq<u8>, nonce: Seq<u8>, key: Seq<u8>) -> Result<
    Seq<char>,
    VaultError,
> {
    match aead_seal_of(key, nonce, plaintext) {
        None => Err(VaultError::Encrypt),
        Some(c) => Ok(base64_encode_of(nonce + c)),
    }
}

/// Reads the vault text `payload` (surrounding whitespace ignored) with
/// `key`.
pub fn open_payload(payload: &str, key: &Vec<u8>) -> (r: Result<Option<Vec<u8>>, VaultError>)
    requires
        key@.len() == 32,
    ensures
        match (r, open_payload_of(payload@, key@)) {
            (Ok(Some(p)), Ok(Some(q))) => p@ == q,
            (Ok(None), Ok(None)) => true,
            (Err(e), Err(f)) => e == f,
            _ => false,
        },
{
    let text = trim(payload);
    let raw = match base64_decode(text.as_str()) {
        None => {
            return Err(VaultError::Decode);
        },
        Some(raw) => raw,
    };
    if raw.len() < 12 {
        return Ok(None);
    }
    let nonce = slice_subrange(raw.as_slice(), 0, 12);
    let ciphertext = slice_subrange(raw.as_slice(), 12, raw.len());
    proof {
        assert(nonce@ =~= raw@.take(12));
        assert(ciphertext@ =~= raw@.skip(12));
    }
    match aead_open(key.as_slice(), nonce, ciphertext) {
        None => Err(VaultError::Decrypt),
        Some(p) => Ok(Some(p)),
    }
}

proof fn lemma_trim_base64(s: Seq<char>)
    requires
        forall|i: int| 0 <= i < s.len() ==> is_base64_char(#[trigger] s[i]),
    ensures
        trim_ws(s) == s,
{
    if s.len() > 0 {
        assert(is_base64_char(s[0]));
        assert(is_base64_char(s[s.len() - 1]));
        assert(!is_ws(s[0]));
        assert(!is_ws(s[s.len() - 1]));
        assert(first_non_ws(s, 0) == 0);
        assert(last_non_ws_end(s, s.len() as int) == s.len());
        assert(s.subrange(0, s.len() as int) =~= s);
    } else {
        assert(trim_ws(s) =~= s);
    }
}

/// Writes `plaintext` as vault text under `nonce` and `key`. Reading the
/// text back with the same key gives the plaintext.
pub fn seal_payload(plaintext: &Vec<u8>, nonce: &Vec<u8>, key: &Vec<u8>) -> (r: Result<
    String,
    VaultError,
>)
    requires
        nonce@.len() == 12,
        key@.len() == 32,
        plaintext@.len() + 28 <= usize::MAX / 2,
    ensures
        match (r, seal_payload_of(plaintext@, nonce@, key@)) {
            (Ok(t), Ok(u)) => t@ == u,
            (Err(e), Err(f)) => e == f,
            _ => false,
        },
        r is Ok <==> plaintext@.len() <= 0x1000000000,
        r matches Ok(t) ==> open_payload_of(t@, key@) == Ok::<Option<Seq<u8>>, VaultError>(
            Some(plaintext@),
        ),
{
    let c = match aead_seal(key.as_slice(), nonce.as_slice(), plaintext.as_slice()) {
        None => {
            return Err(VaultError::Encrypt);
        },
        Some(c) => c,
    };
    let mut combined: Vec<u8> = Vec::new();
    let mut i: usize = 0;
    while i < 12
        invariant
            i <= 12,
            nonce@.len() == 12,
            combined@ == nonce@.take(i as int),
        decreases 12 - i,
    {
        combined.push(nonce[i]);
        proof {
            assert(nonce@.take(i + 1) =~= nonce@.take(i as int).push(nonce@[i as int]));
        }
        i += 1;
    }
    let mut j: usize = 0;
    while j < c.len()
        invariant
            j <= c@.len(),
            combined@ == nonce@ + c@.take(j as int),
            nonce@.len() == 12,
        decreases c@.len() - j,
    {
        combined.push(c[j]);
        proof {
            assert(c@.take(j + 1) =~= c@.take(j as int).push(c@[j as int]));
            assert(nonce@ + c@.take(j + 1) =~= (nonce@ + c@.take(j as int)).push(c@[j as int]));
        }
        j += 1;
    }
    proof {
        assert(nonce@.take(12) =~= nonce@);
        assert(c@.take(c@.len() as int) =~= c@);
        assert(combined@ =~= nonce@ + c@);
        assert(c@.len() <= usize::MAX);
    }
    let text = base64_encode(combined.as_slice());
    proof {
        lemma_trim_base64(text@);
        assert(combined@.take(12) =~= nonce@);
        assert(combined@.skip(12) =~= c@);
    }
    Ok(text)
}

/// Writes `plaintext` as vault text under `key` and a fresh random nonce.
/// Reading the text back with the same key gives the plaintext.
pub fn seal_payload_fresh(plaintext: &Vec<u8>, key: &Vec<u8>) -> (r: Result<String, VaultError>)
    requires
        key@.len() == 32,
        plaintext@.len() + 28 <= usize::MAX / 2,
    ensures
        r is Ok <==> plaintext@.len() <= 0x1000000000,
        r matches Ok(t) ==> exists|nonce: Seq<u8>|
            #![trigger seal_payload_of(plaintext@, nonce, key@)]
            nonce.len() == 12 && seal_payload_of(plaintext@, nonce, key@) == Ok::<
                Seq<char>,
                VaultError,
            >(t@),
        r matches Ok(t) ==> open_payload_of(t@, key@) == Ok::<Option<Seq<u8>>, VaultError>(
            Some(plaintext@),
        ),
{
    let nonce = random_nonce();
    let r = seal_payload(plaintext, &nonce, key);
    proof {
        if r is Ok {
            assert(seal_payload_of(plaintext@, nonce@, key@) == Ok::<Seq<char>, VaultError>(
                r->Ok_0@,
            ));
        }
    }
    r
}

/// `text` in standard base64.
pub fn base64_text(text: &str) -> (r: String)
    requires
        encode_utf8(text@).len() <= usize::MAX / 2,
    ensures
        r@ == base64_encode_of(encode_utf8(text@)),
        base64_decode_of(r@) == Some(encode_utf8(text@)),
{
    base64_encode(text.as_bytes())
}

} // verus!
