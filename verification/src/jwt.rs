use vstd::prelude::*;
use vstd::string::StringSliceAdditionalSpecFns;
use vstd::utf8::encode_utf8;
use crate::text::{chars_of, string_of, push_str, push_int, int_text, str_eq};
use crate::json::{quoted, push_quoted};
use crate::cookies::{split_char, split_chars};
use crate::crypto::{base64url, base64url_encoded, base64url_decoded, hmac_sha256, is_url_safe_char, constant_time_equal};
use crate::error::{AppError, is_error};

verus! {

/// What a session token carries.
#[derive(Debug)]
pub struct Claims {
    pub iss: String,
    pub sub: String,
    pub exp: i64,
    pub iat: i64,
    pub token_type: String,
    pub tid: Option<String>,
}

/// The claims as compact JSON, fields in declaration order (`type` for the token
/// type, `null` for a missing token id), as `serde_json` writes the struct.
pub open spec fn claims_text(c: Claims) -> Seq<char> {
    "{\"iss\":"@ + quoted(c.iss@) + ",\"sub\":"@ + quoted(c.sub@) + ",\"exp\":"@ + int_text(
        c.exp as int,
    ) + ",\"iat\":"@ + int_text(c.iat as int) + ",\"type\":"@ + quoted(c.token_type@)
        + ",\"tid\":"@ + match c.tid {
        Some(t) => quoted(t@),
        None => "null"@,
    } + "}"@
}

pub fn claims_json(c: &Claims) -> (r: String)
    ensures
        r@ == claims_text(*c),
{
    let mut v: Vec<char> = Vec::new();
    push_str(&mut v, "{\"iss\":");
    push_quoted(&mut v, &chars_of(c.iss.as_str()));
    push_str(&mut v, ",\"sub\":");
    push_quoted(&mut v, &chars_of(c.sub.as_str()));
    push_str(&mut v, ",\"exp\":");
    push_int(&mut v, c.exp as i128);
    push_str(&mut v, ",\"iat\":");
    push_int(&mut v, c.iat as i128);
    push_str(&mut v, ",\"type\":");
    push_quoted(&mut v, &chars_of(c.token_type.as_str()));
    push_str(&mut v, ",\"tid\":");
    match &c.tid {
        Some(t) => push_quoted(&mut v, &chars_of(t.as_str())),
        None => push_str(&mut v, "null"),
    }
    push_str(&mut v, "}");
    proof {
        assert(v@ =~= claims_text(*c));
    }
    string_of(&v)
}

/// The fixed token header `{"alg":"HS256","typ":"JWT"}`.
pub open spec fn jwt_header() -> Seq<char> {
    "{\"alg\":\"HS256\",\"typ\":\"JWT\"}"@
}

/// A signed token: header and claims in unpadded URL-safe base64, joined by `.`,
/// then `.` and the HMAC-SHA256 tag of that text under the secret.
pub open spec fn signed_token(claims: Seq<char>, secret: Seq<u8>) -> Seq<char> {
    let data = base64url_encoded(encode_utf8(jwt_header())) + "."@ + base64url_encoded(
        encode_utf8(claims),
    );
    data + "."@ + base64url_encoded(hmac_sha256(secret, encode_utf8(data)))
}

/// What a token proves: the claims bytes, when it has three `.`-separated parts
/// whose last decodes to the HMAC-SHA256 tag of the first two (joined by `.`)
/// under the secret, and whose middle decodes.
pub open spec fn jwt_payload(token: Seq<char>, secret: Seq<u8>) -> Option<Seq<u8>> {
    let parts = split_char(token, '.');
    if parts.len() != 3 {
        None
    } else {
        match (base64url_decoded(parts[2]), base64url_decoded(parts[1])) {
            (Some(tag), Some(payload)) => if tag == hmac_sha256(
                secret,
                encode_utf8(parts[0] + "."@ + parts[1]),
            ) {
                Some(payload)
            } else {
                None
            },
            _ => None,
        }
    }
}

/// Signs `claims` with HS256 under `secret`. Texts too long for base64 are
/// refused with 500.
pub fn sign_jwt(claims: &Claims, secret: &str) -> (r: Result<String, AppError>)
    ensures
        r matches Ok(t) ==> t@ == signed_token(claims_text(*claims), secret.spec_bytes()),
        r matches Ok(t) ==> jwt_payload(t@, secret.spec_bytes()) == Some(
            encode_utf8(claims_text(*claims)),
        ),
        r matches Err(e) ==> is_error(e, 500, "JWT encode failed"@),
        r is Err ==> encode_utf8(claims_text(*claims)).len() > 0x3fff_ffff || encode_utf8(
            jwt_header(),
        ).len() > 0x3fff_ffff,
{
    let header_text = "{\"alg\":\"HS256\",\"typ\":\"JWT\"}";
    let body = claims_json(claims);
    let body_bytes = body.as_str().as_bytes();
    let header_bytes = header_text.as_bytes();
    proof {
        reveal_strlit("{\"alg\":\"HS256\",\"typ\":\"JWT\"}");
    }
    if body_bytes.len() > 0x3fff_ffff || header_bytes.len() > 0x3fff_ffff {
        return Err(AppError::new(500, "JWT encode failed"));
    }
    let header = base64url(header_bytes);
    let payload = base64url(body_bytes);
    let mut data: Vec<char> = Vec::new();
    push_str(&mut data, header.as_str());
    push_str(&mut data, ".");
    push_str(&mut data, payload.as_str());
    let data_text = string_of(&data);
    let tag = crate::crypto::compute_hmac_sha256(secret.as_bytes(), data_text.as_str().as_bytes());
    let signature = base64url(&tag);
    let mut token: Vec<char> = Vec::new();
    push_str(&mut token, data_text.as_str());
    push_str(&mut token, ".");
    push_str(&mut token, signature.as_str());
    proof {
        assert(data@ =~= base64url_encoded(encode_utf8(jwt_header())) + "."@ + base64url_encoded(
            encode_utf8(claims_text(*claims)),
        ));
        assert(token@ =~= signed_token(claims_text(*claims), secret.spec_bytes()));
        reveal_strlit(".");
        crate::cookies::lemma_split_char_no_sep(header@, '.');
        crate::cookies::lemma_split_char_append(header@, payload@, '.');
        crate::cookies::lemma_split_char_append(header@ + seq!['.'] + payload@, signature@, '.');
        assert(token@ =~= header@ + seq!['.'] + payload@ + seq!['.'] + signature@);
        assert(header@ + "."@ + payload@ =~= data_text@);
    }
    Ok(string_of(&token))
}

/// Checks the signature of `token` under `secret` and hands back the claims bytes;
/// a malformed or forged token answers 401.
pub fn verify_jwt_signature(token: &str, secret: &str) -> (r: Result<Vec<u8>, AppError>)
    ensures
        match r {
            Ok(p) => jwt_payload(token@, secret.spec_bytes()) == Some(p@),
            Err(e) => jwt_payload(token@, secret.spec_bytes()) is None && is_error(e, 401, "Invalid token"@),
        },
{
    let v = chars_of(token);
    let parts = split_chars(&v, '.');
    if parts.len() != 3 {
        return Err(AppError::new(401, "Invalid token"));
    }
    let mut data: Vec<char> = Vec::new();
    push_all_chars(&mut data, &parts[0]);
    data.push('.');
    push_all_chars(&mut data, &parts[1]);
    let data_text = string_of(&data);
    proof {
        reveal_strlit(".");
        assert(parts@[0]@ == split_char(token@, '.')[0]);
        assert(parts@[1]@ == split_char(token@, '.')[1]);
        assert(data@ =~= split_char(token@, '.')[0] + "."@ + split_char(token@, '.')[1]);
    }
    let expected = crate::crypto::compute_hmac_sha256(secret.as_bytes(), data_text.as_str().as_bytes());
    let sig_text = string_of(&parts[2]);
    let actual = match crate::crypto::decode_base64url(sig_text.as_str()) {
        Some(a) => a,
        None => return Err(AppError::new(401, "Invalid token")),
    };
    if !constant_time_equal(&actual, &expected) {
        return Err(AppError::new(401, "Invalid token"));
    }
    let payload_text = string_of(&parts[1]);
    let payload = match crate::crypto::decode_base64url(payload_text.as_str()) {
        Some(p) => p,
        None => return Err(AppError::new(401, "Invalid token")),
    };
    Ok(payload)
}

fn push_all_chars(out: &mut Vec<char>, w: &Vec<char>)
    ensures
        final(out)@ == old(out)@ + w@,
{
    crate::text::push_all(out, w.as_slice());
}

/// Only unexpired tokens of this server pass: the issuer must be `memos-worker`
/// and the expiry not before `now`; others answer 401.
pub fn check_claims(claims: Claims, now: i64) -> (r: Result<Claims, AppError>)
    ensures
        r is Ok <==> (claims.iss@ == "memos-worker"@ && claims.exp >= now),
        r matches Ok(c) ==> c == claims,
        r matches Err(e) ==> is_error(e, 401, "Invalid token"@),
{
    if !str_eq(claims.iss.as_str(), "memos-worker") || claims.exp < now {
        return Err(AppError::new(401, "Invalid token"));
    }
    Ok(claims)
}

} // verus!
