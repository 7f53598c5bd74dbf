use vstd::prelude::*;
use vstd::string::StringSliceAdditionalSpecFns;
use base64::engine::general_purpose::URL_SAFE_NO_PAD;
use base64::Engine;
use sha2::{Digest, Sha256};
use pbkdf2::pbkdf2_hmac;
use hmac::{Hmac, Mac};
use crate::text::{chars_of, string_of, push_str, chars_eq_str, parse_u32, parse_u32_spec};
use crate::cookies::{split_char, split_chars};
use crate::error::AppError;

verus! {

/// The characters of the URL-safe base64 alphabet.
pub open spec fn is_url_safe_char(c: char) -> bool {
    ('A' <= c && c <= 'Z') || ('a' <= c && c <= 'z') || ('0' <= c && c <= '9') || c == '-' || c
        == '_'
}

/// What `URL_SAFE_NO_PAD.encode` makes of `bytes`.
pub uninterp spec fn base64url_encoded(bytes: Seq<u8>) -> Seq<char>;

/// What `URL_SAFE_NO_PAD.decode` makes of `text`: the bytes, or nothing where the
/// text is not unpadded URL-safe base64.
pub uninterp spec fn base64url_decoded(text: Seq<char>) -> Option<Seq<u8>>;

/// Calls `URL_SAFE_NO_PAD.encode` of the base64 crate. Its text is named; the
/// crate documents, and its round-trip tests show, that the text is made of the
/// URL-safe alphabet and that decoding it gives the bytes back; its length is the
/// crate's `encoded_len` without padding, four characters per three bytes rounded up.
#[verifier::external_body]
fn encode_base64url(bytes: &[u8]) -> (r: String)
    requires
        bytes@.len() <= 0x3fff_ffff,
    ensures
        r@ == base64url_encoded(bytes@),
        r@.len() == (4 * bytes@.len() + 2) / 3,
        forall|i: int| 0 <= i < r@.len() ==> is_url_safe_char(#[trigger] r@[i]),
        base64url_decoded(r@) == Some(bytes@),
{
    URL_SAFE_NO_PAD.encode(bytes)
}

/// Calls `URL_SAFE_NO_PAD.decode` of the base64 crate; its outcome is named. A
/// successful decoding is never longer than its text: four characters carry at
/// most three bytes.
#[verifier::external_body]
pub(crate) fn decode_base64url(text: &str) -> (r: Option<Vec<u8>>)
    ensures
        match r {
            Some(b) => base64url_decoded(text@) == Some(b@) && b@.len() <= text@.len(),
            None => base64url_decoded(text@) is None,
        },
{
    URL_SAFE_NO_PAD.decode(text).ok()
}

/// Unpadded URL-safe base64 text of `bytes`.
pub fn base64url(bytes: &[u8]) -> (r: String)
    requires
        bytes@.len() <= 0x3fff_ffff,
    ensures
        r@ == base64url_encoded(bytes@),
        r@.len() == (4 * bytes@.len() + 2) / 3,
        base64url_decoded(r@) == Some(bytes@),
        forall|i: int| 0 <= i < r@.len() ==> is_url_safe_char(#[trigger] r@[i]),
{
    encode_base64url(bytes)
}

/// PBKDF2 with HMAC-SHA256 over `password` and `salt`, `rounds` rounds, `len` bytes.
pub uninterp spec fn pbkdf2_sha256(password: Seq<u8>, salt: Seq<u8>, rounds: int, len: int) -> Seq<u8>;

/// Calls `pbkdf2::pbkdf2_hmac::<Sha256>` into a buffer of `len` bytes. The key is
/// named; it fills exactly the buffer it is given. Its block counter is a `u32`,
/// which bounds `len`.
#[verifier::external_body]
fn derive_pbkdf2_sha256(password: &[u8], salt: &[u8], rounds: u32, len: usize) -> (r: Vec<u8>)
    requires
        len <= 0xffff_ffff,
    ensures
        r@.len() == len,
        r@ == pbkdf2_sha256(password@, salt@, rounds as int, len as int),
{
    let mut out = vec![0u8; len];
    pbkdf2_hmac::<Sha256>(password, salt, rounds, &mut out);
    out
}

/// HMAC-SHA256 of `data` under `key`.
pub uninterp spec fn hmac_sha256(key: Seq<u8>, data: Seq<u8>) -> Seq<u8>;

/// Computes HMAC-SHA256 with the hmac crate: `new_from_slice`, `update`,
/// `finalize`. The tag is named; `new_from_slice` accepts keys of any length (its
/// source never returns the error), so the tag is always there.
#[verifier::external_body]
pub(crate) fn compute_hmac_sha256(key: &[u8], data: &[u8]) -> (r: Vec<u8>)
    ensures
        r@ == hmac_sha256(key@, data@),
        r@.len() == 32,
{
    let mut mac = <Hmac<Sha256> as Mac>::new_from_slice(key).expect("any key length");
    mac.update(data);
    mac.finalize().into_bytes().to_vec()
}

/// The SHA-256 digest of `data`.
pub uninterp spec fn sha256_digest(data: Seq<u8>) -> Seq<u8>;

/// Calls `Sha256::digest`. The digest is named; it is 32 bytes long.
#[verifier::external_body]
fn digest_sha256(data: &[u8]) -> (r: Vec<u8>)
    ensures
        r@ == sha256_digest(data@),
        r@.len() == 32,
{
    Sha256::digest(data).to_vec()
}

/// A lowercase hexadecimal digit.
pub open spec fn hex_lower(d: int) -> char {
    if d < 10 {
        (('0' as u32) + d) as char
    } else {
        (('a' as u32) + d - 10) as char
    }
}

/// Two lowercase hexadecimal digits per byte, high nibble first.
pub open spec fn hex_text(bytes: Seq<u8>) -> Seq<char>
    decreases bytes.len(),
{
    if bytes.len() == 0 {
        Seq::empty()
    } else {
        hex_text(bytes.drop_last()) + seq![
            hex_lower(bytes.last() as int / 16),
            hex_lower(bytes.last() as int % 16),
        ]
    }
}

/// Calls `hex::encode`, which writes each byte as two lowercase hexadecimal
/// digits, high nibble first.
#[verifier::external_body]
fn encode_hex(bytes: &[u8]) -> (r: String)
    ensures
        r@ == hex_text(bytes@),
{
    hex::encode(bytes)
}

/// The lowercase hexadecimal SHA-256 digest of the UTF-8 bytes of `value`.
pub fn sha256_hex(value: &str) -> (r: String)
    ensures
        r@ == hex_text(sha256_digest(value.spec_bytes())),
{
    let digest = digest_sha256(value.as_bytes());
    encode_hex(&digest)
}

/// Compares two byte strings without stopping at the first difference.
pub fn constant_time_equal(a: &[u8], b: &[u8]) -> (r: bool)
    ensures
        r == (a@ == b@),
{
    if a.len() != b.len() {
        return false;
    }
    let mut acc: u8 = 0;
    let mut i: usize = 0;
    while i < a.len()
        invariant
            i <= a@.len(),
            a@.len() == b@.len(),
            (acc == 0) == (forall|j: int| 0 <= j < i ==> a@[j] == b@[j]),
        decreases a.len() - i,
    {
        let x = a[i];
        let y = b[i];
        let next = acc | (x ^ y);
        proof {
            assert((acc | (x ^ y)) == 0 <==> (acc == 0 && x == y)) by (bit_vector);
            if next == 0 {
                assert forall|j: int| 0 <= j < i + 1 implies a@[j] == b@[j] by {
                    if j < i as int {
                    }
                }
            }
        }
        acc = next;
        i = i + 1;
    }
    proof {
        if acc == 0 {
            assert(a@ =~= b@);
        }
    }
    acc == 0
}

/// The text stored for a password: `pbkdf2_sha256$100000${salt}${key}`, salt and
/// 32-byte key in unpadded URL-safe base64.
pub open spec fn password_hash_text(password: Seq<u8>, salt: Seq<u8>) -> Seq<char> {
    "pbkdf2_sha256$100000$"@ + base64url_encoded(salt) + "$"@ + base64url_encoded(
        pbkdf2_sha256(password, salt, 100000, 32),
    )
}

/// Hashes a password with PBKDF2-SHA256 (100000 rounds) under `salt`.
pub fn hash_password(password: &str, salt: &[u8]) -> (r: String)
    requires
        salt@.len() <= 0x3fff_ffff,
    ensures
        r@ == password_hash_text(password.spec_bytes(), salt@),
        password_matches(password.spec_bytes(), r@),
{
    let derived = derive_pbkdf2_sha256(password.as_bytes(), salt, 100000, 32);
    let salt_text = base64url(salt);
    let key_text = base64url(&derived);
    let mut v: Vec<char> = Vec::new();
    push_str(&mut v, "pbkdf2_sha256$100000$");
    push_str(&mut v, salt_text.as_str());
    push_str(&mut v, "$");
    push_str(&mut v, key_text.as_str());
    proof {
        assert(v@ =~= password_hash_text(password.spec_bytes(), salt@));
        lemma_hash_text_splits(salt_text@, key_text@);
        lemma_rounds_text();
    }
    string_of(&v)
}

proof fn lemma_rounds_text()
    ensures
        parse_u32_spec("100000"@) == Some(100000int),
{
    reveal_strlit("100000");
    let s = "100000"@;
    assert(s.drop_last().drop_last().drop_last().drop_last().drop_last().drop_last() =~= Seq::<char>::empty());
    reveal_with_fuel(crate::text::digits_value, 7);
    assert(crate::text::digits_value(s) == 100000);
    assert(crate::text::all_digits(s));
}

proof fn lemma_hash_text_splits(a: Seq<char>, b: Seq<char>)
    requires
        forall|i: int| 0 <= i < a.len() ==> is_url_safe_char(#[trigger] a[i]),
        forall|i: int| 0 <= i < b.len() ==> is_url_safe_char(#[trigger] b[i]),
    ensures
        split_char("pbkdf2_sha256$100000$"@ + a + "$"@ + b, '$') == seq![
            "pbkdf2_sha256"@,
            "100000"@,
            a,
            b,
        ],
{
    reveal_strlit("pbkdf2_sha256$100000$");
    reveal_strlit("pbkdf2_sha256");
    reveal_strlit("100000");
    reveal_strlit("$");
    let p0 = "pbkdf2_sha256"@;
    let p1 = "100000"@;
    crate::cookies::lemma_split_char_no_sep(p0, '$');
    crate::cookies::lemma_split_char_append(p0, p1, '$');
    let x1 = p0 + seq!['$'] + p1;
    crate::cookies::lemma_split_char_append(x1, a, '$');
    let x2 = x1 + seq!['$'] + a;
    crate::cookies::lemma_split_char_append(x2, b, '$');
    assert("pbkdf2_sha256$100000$"@ + a + "$"@ + b =~= x2 + seq!['$'] + b);
}

/// Whether `password` matches a stored hash: four `$`-separated fields, the
/// scheme `pbkdf2_sha256`, a positive round count, and a salt and key that decode,
/// with the key equal to PBKDF2-SHA256 of the password under that salt.
pub open spec fn password_matches(password: Seq<u8>, stored: Seq<char>) -> bool {
    let parts = split_char(stored, '$');
    if parts.len() == 4 && parts[0] == "pbkdf2_sha256"@ {
        match (parse_u32_spec(parts[1]), base64url_decoded(parts[2]), base64url_decoded(parts[3])) {
            (Some(rounds), Some(salt), Some(key)) => rounds != 0 && pbkdf2_sha256(
                password,
                salt,
                rounds,
                key.len() as int,
            ) == key,
            _ => false,
        }
    } else {
        false
    }
}

pub fn verify_password(password: &str, stored: &str) -> (r: bool)
    requires
        stored@.len() <= 0xffff_ffff,
    ensures
        r == password_matches(password.spec_bytes(), stored@),
{
    let v = chars_of(stored);
    let parts = split_chars(&v, '$');
    if parts.len() != 4 || !chars_eq_str(&parts[0], "pbkdf2_sha256") {
        return false;
    }
    let rounds = match parse_u32(&parts[1]) {
        Some(n) => n,
        None => 0,
    };
    if rounds == 0 {
        return false;
    }
    let salt_text = string_of(&parts[2]);
    let salt = match decode_base64url(salt_text.as_str()) {
        Some(s) => s,
        None => return false,
    };
    let key_text = string_of(&parts[3]);
    let key = match decode_base64url(key_text.as_str()) {
        Some(k) => k,
        None => return false,
    };
    proof {
        crate::cookies::lemma_split_char_part_len(v@, '$');
        assert(split_char(v@, '$')[3].len() <= v@.len());
    }
    let actual = derive_pbkdf2_sha256(password.as_bytes(), &salt, rounds, key.len());
    constant_time_equal(&actual, &key)
}

/// An identifier: `prefix`, `_`, then the random bytes in unpadded URL-safe base64.
pub open spec fn uid_text(prefix: Seq<char>, random: Seq<u8>) -> Seq<char> {
    prefix + "_"@ + base64url_encoded(random)
}

pub fn generate_uid(prefix: &str, random: &[u8]) -> (r: String)
    requires
        random@.len() <= 0x3fff_ffff,
    ensures
        r@ == uid_text(prefix@, random@),
        r@.len() == prefix@.len() + 1 + (4 * random@.len() + 2) / 3,
        r@.take(prefix@.len() + 1 as int) == prefix@ + "_"@,
        forall|i: int| prefix@.len() + 1 <= i < r@.len() ==> is_url_safe_char(#[trigger] r@[i]),
{
    proof {
        reveal_strlit("_");
    }
    let tail = base64url(random);
    let mut v: Vec<char> = Vec::new();
    push_str(&mut v, prefix);
    push_str(&mut v, "_");
    push_str(&mut v, tail.as_str());
    proof {
        assert(v@ =~= uid_text(prefix@, random@));
    }
    string_of(&v)
}

} // verus!

verus! {

/// `len` bytes from `fill`, which is handed a zeroed buffer of that length: when
/// the filler succeeds, the buffer as it leaves it; otherwise the filler's error.
/// A filler cannot change the length of the slice it is lent; should the buffer
/// come back with another length all the same, the bytes are refused (500).
pub fn random_bytes_with_filler<F>(len: usize, fill: F) -> (r: Result<Vec<u8>, AppError>)
    where
        F: FnOnce(&mut [u8]) -> Result<(), AppError>,
    requires
        forall|buf: &mut [u8]| call_requires(fill, (buf,)),
    ensures
        r matches Ok(v) ==> v@.len() == len && exists|buf: &mut [u8], out: Result<(), AppError>|
            buf@ == Seq::new(len as nat, |i: int| 0u8) && final(buf)@ == v@ && out is Ok
                && call_ensures(fill, (buf,), out),
        r matches Err(e) ==> (exists|buf: &mut [u8]|
            buf@ == Seq::new(len as nat, |i: int| 0u8) && call_ensures(fill, (buf,), Err::<(), AppError>(e)))
            || (crate::error::is_error(e, 500, "Secure random generation failed"@)
                && exists|buf: &mut [u8], out: Result<(), AppError>|
                buf@ == Seq::new(len as nat, |i: int| 0u8) && final(buf)@.len() != len && out is Ok
                    && call_ensures(fill, (buf,), out)),
{
    let mut bytes = vec![0u8; len];
    let ghost zeroed = bytes@;
    let res = fill(bytes.as_mut_slice());
    proof {
        assert(zeroed =~= Seq::new(len as nat, |i: int| 0u8));
        assert(exists|b: &mut [u8]| call_ensures(fill, (b,), res) && b@ == zeroed && final(b)@ == bytes@);
    }
    match res {
        Ok(()) => {
            if bytes.len() == len {
                Ok(bytes)
            } else {
                Err(AppError::new(500, "Secure random generation failed"))
            }
        },
        Err(e) => Err(e),
    }
}

/// The AES-256 key a backup secret stands for: the SHA-256 digest of its bytes.
pub fn backup_cipher_key(secret: &str) -> (r: Vec<u8>)
    ensures
        r@ == sha256_digest(secret.spec_bytes()),
        r@.len() == 32,
{
    digest_sha256(secret.as_bytes())
}

} // verus!
