//! Stateless signed tokens binding a subject to an expiry time.
//!
//! A token is `b64(subject ++ expiry) ++ b64(sha3_256(secret ++ b64(subject ++ expiry)))`,
//! with URL-safe unpadded base64 and the expiry as eight little-endian bytes.
//!
//! The expiry byte order is fixed to little-endian on purpose, as part of the
//! token format: it equals the native order of the little-endian hosts the
//! service runs on, so their tokens stay valid, and it makes tokens portable
//! between hosts of either byte order.
use base64::prelude::BASE64_URL_SAFE_NO_PAD;
use base64::Engine;
use sha3::Digest;
use vstd::prelude::*;
use vstd::string::StrSliceExecFns;
use vstd::string::StringExecFns;
use vstd::utf8::{decode_utf8, encode_utf8, is_ascii_chars, valid_utf8};

use crate::names::is_name_char;
use crate::bytes::{expiry_from_bytes, expiry_to_bytes, le_bytes, le_value, lemma_le_round_trip, EXPIRY_LEN};

verus! {

broadcast use vstd::utf8::encode_utf8_valid_utf8, vstd::utf8::encode_utf8_decode_utf8,
    vstd::utf8::is_ascii_chars_concat, vstd::string::is_ascii_spec_bytes;

/// Length of the base64 form of a 32-byte digest.
pub const SIGNATURE_LEN: usize = 43;

/// Lifetime of a session token, in seconds.
pub const SESSION_TTL: i64 = 10324800;

/// Lifetime of a user's invite link, in seconds.
pub const INVITE_TTL: i64 = 604800;

/// Lifetime of the root invite printed at start-up, in seconds.
pub const ROOT_INVITE_TTL: i64 = 900;

/// The URL-safe, unpadded base64 text of `b`.
pub uninterp spec fn b64_of(b: Seq<u8>) -> Seq<char>;

/// What URL-safe, unpadded base64 decoding makes of `s`, if it is a valid encoding.
pub uninterp spec fn b64_decoded(s: Seq<char>) -> Option<Seq<u8>>;

/// The SHA3-256 digest of `data`.
pub uninterp spec fn sha3_256_of(data: Seq<u8>) -> Seq<u8>;

/// Relies on base64's `URL_SAFE_NO_PAD` engine `encode`: ASCII output of
/// ceil(4n/3) characters, which the same engine's `decode` turns back into `b`.
#[verifier::external_body]
fn b64_encode(b: &[u8]) -> (r: String)
    ensures
        r@ == b64_of(b@),
        r@.len() == (4 * b@.len() + 2) / 3,
        is_ascii_chars(r@),
        forall|i: int| 0 <= i < r@.len() ==> is_name_char(#[trigger] r@[i]),
        b64_decoded(r@) == Some(b@),
{
    BASE64_URL_SAFE_NO_PAD.encode(b)
}

/// Relies on base64's `URL_SAFE_NO_PAD` engine `decode`.
#[verifier::external_body]
fn b64_decode(s: &str) -> (r: Option<Vec<u8>>)
    ensures
        r matches Some(v) ==> b64_decoded(s@) == Some(v@),
        r is None ==> b64_decoded(s@) is None,
{
    BASE64_URL_SAFE_NO_PAD.decode(s).ok()
}

/// Relies on sha3's `Sha3_256`: fed `key` then `msg`, it finalizes into the
/// 32-byte digest of their concatenation.
#[verifier::external_body]
pub(crate) fn keyed_digest(key: &[u8], msg: &[u8]) -> (r: [u8; 32])
    ensures
        r@ == sha3_256_of(key@ + msg@),
        r@.len() == 32,
{
    let mut hasher = sha3::Sha3_256::new();
    hasher.update(key);
    hasher.update(msg);
    hasher.finalize().into()
}

/// Relies on time's `UtcDateTime::now`: the current Unix time in seconds.
/// Nothing is assumed of the value.
#[verifier::external_body]
pub(crate) fn unix_now() -> (r: i64) {
    time::UtcDateTime::now().unix_timestamp()
}

/// Relies on `std::str::from_utf8`: it succeeds exactly on valid UTF-8, which it decodes.
#[verifier::external_body]
fn utf8_string(b: &[u8]) -> (r: Option<String>)
    ensures
        r is Some <==> valid_utf8(b@),
        r matches Some(s) ==> s@ == decode_utf8(b@),
{
    std::str::from_utf8(b).ok().map(|s| s.to_string())
}

/// The keyed digest of `claim` under `secret`.
pub open spec fn digest_of(claim: Seq<char>, secret: Seq<u8>) -> Seq<u8> {
    sha3_256_of(secret + encode_utf8(claim))
}

/// The base64 signature of `claim` under `secret`.
pub open spec fn signature_of(claim: Seq<char>, secret: Seq<u8>) -> Seq<char> {
    b64_of(digest_of(claim, secret))
}

/// The signed plaintext: the subject's UTF-8 bytes, then the expiry.
pub open spec fn payload_of(sub: Seq<char>, exp: i64) -> Seq<u8> {
    encode_utf8(sub) + le_bytes(exp)
}

/// The token for `sub` that expires at `exp`.
pub open spec fn token_of(sub: Seq<char>, exp: i64, secret: Seq<u8>) -> Seq<char> {
    let claim = b64_of(payload_of(sub, exp));
    claim + signature_of(claim, secret)
}

/// `t` is the token for `sub` expiring at `exp`: its text, its length, its
/// URL-safe alphabet, its last characters being the signature of the rest,
/// and that it carries `sub` exactly until `exp`.
pub open spec fn is_token_for(t: Seq<char>, sub: Seq<char>, exp: i64, secret: Seq<u8>) -> bool {
    &&& t == token_of(sub, exp, secret)
    &&& t.len() == (4 * (encode_utf8(sub).len() + EXPIRY_LEN) + 2) / 3 + SIGNATURE_LEN
    &&& forall|i: int| 0 <= i < t.len() ==> is_name_char(#[trigger] t[i])
    &&& t.subrange(0, t.len() - SIGNATURE_LEN) == b64_of(payload_of(sub, exp))
    &&& t.subrange(t.len() - SIGNATURE_LEN, t.len() as int) == signature_of(
        t.subrange(0, t.len() - SIGNATURE_LEN),
        secret,
    )
    &&& b64_decoded(signature_of(t.subrange(0, t.len() - SIGNATURE_LEN), secret)) == Some(
        digest_of(t.subrange(0, t.len() - SIGNATURE_LEN), secret),
    )
    &&& forall|now: i64| now < exp ==> #[trigger] subject_of(t, secret, now) == Some(sub)
    &&& forall|now: i64| exp <= now ==> #[trigger] subject_of(t, secret, now) is None
}

/// The expiry `age` seconds after `now`, clamped to the range of `i64`.
pub open spec fn expiry_after(now: i64, age: i64) -> i64 {
    if now + age > i64::MAX {
        i64::MAX
    } else if now + age < i64::MIN {
        i64::MIN
    } else {
        (now + age) as i64
    }
}

/// The subject that token `t` carries, if it is well-signed under `secret`
/// and still valid at time `now`.
pub open spec fn subject_of(t: Seq<char>, secret: Seq<u8>, now: i64) -> Option<Seq<char>> {
    if !is_ascii_chars(t) || t.len() < SIGNATURE_LEN {
        None
    } else {
        let claim = t.subrange(0, t.len() - SIGNATURE_LEN);
        if t.subrange(t.len() - SIGNATURE_LEN, t.len() as int) != signature_of(claim, secret) {
            None
        } else {
            match b64_decoded(claim) {
                None => None,
                Some(bytes) => {
                    if bytes.len() < EXPIRY_LEN {
                        None
                    } else {
                        let sub = bytes.subrange(0, bytes.len() - EXPIRY_LEN);
                        let exp = le_value(bytes.subrange(bytes.len() - EXPIRY_LEN, bytes.len() as int));
                        if exp <= now || !valid_utf8(sub) {
                            None
                        } else {
                            Some(decode_utf8(sub))
                        }
                    }
                }
            }
        }
    }
}

/// The view of an optional string.
pub open spec fn opt_view(o: Option<String>) -> Option<Seq<char>> {
    match o {
        Some(s) => Some(s@),
        None => None,
    }
}

fn signature(claim: &str, secret: &[u8]) -> (r: String)
    ensures
        r@ == signature_of(claim@, secret@),
        r@.len() == SIGNATURE_LEN,
        is_ascii_chars(r@),
        forall|i: int| 0 <= i < r@.len() ==> is_name_char(#[trigger] r@[i]),
        b64_decoded(r@) == Some(digest_of(claim@, secret@)),
{
    let digest = keyed_digest(secret, claim.as_bytes());
    b64_encode(&digest)
}

/// Token codec.
pub struct Token;

impl Token {
    /// Issues a token for `sub` that expires `age` seconds from now.
    pub fn new(sub: &str, age: i64, secret: &[u8]) -> (r: String)
        ensures
            exists|now: i64| is_token_for(r@, sub@, expiry_after(now, age), secret@),
    {
        let now = unix_now();
        let exp: i64 = match now.checked_add(age) {
            Some(e) => e,
            None => if age > 0 { i64::MAX } else { i64::MIN },
        };
        let r = Token::sign(sub, exp, secret);
        assert(is_token_for(r@, sub@, expiry_after(now, age), secret@));
        r
    }

    /// Issues a token for `sub` that expires at Unix time `exp`. It carries
    /// `sub` at every time before `exp`, and nothing from `exp` on.
    pub fn sign(sub: &str, exp: i64, secret: &[u8]) -> (r: String)
        ensures
            is_token_for(r@, sub@, exp, secret@),
    {
        let mut payload = sub.as_bytes_vec();
        let mut tail = expiry_to_bytes(exp);
        payload.append(&mut tail);
        proof {
            assert(payload@ == payload_of(sub@, exp));
        }
        let claim = b64_encode(payload.as_slice());
        let sig = signature(claim.as_str(), secret);
        let r = claim.concat(sig.as_str());
        proof {
            lemma_le_round_trip(exp);
            let t = r@;
            let p = payload_of(sub@, exp);
            assert(t.subrange(0, t.len() - SIGNATURE_LEN) =~= claim@);
            assert(t.subrange(t.len() - SIGNATURE_LEN, t.len() as int) =~= sig@);
            assert(p.subrange(0, p.len() - EXPIRY_LEN) =~= encode_utf8(sub@));
            assert(p.subrange(p.len() - EXPIRY_LEN, p.len() as int) =~= le_bytes(exp));
            assert forall|i: int| 0 <= i < t.len() implies is_name_char(#[trigger] t[i]) by {
                if i < claim@.len() {
                    assert(t[i] == claim@[i]);
                } else {
                    assert(t[i] == sig@[i - claim@.len()]);
                }
            }
        }
        r
    }

    /// Issues a session token for `user`.
    pub fn issue_session(user: &str, secret: &[u8]) -> (r: String)
        ensures
            exists|now: i64| is_token_for(r@, user@, expiry_after(now, SESSION_TTL), secret@),
    {
        Token::new(user, SESSION_TTL, secret)
    }

    /// Issues an invite token whose inviter is `subject` (empty for the root invite).
    pub fn issue_invite(subject: &str, secret: &[u8]) -> (r: String)
        ensures
            exists|now: i64| is_token_for(r@, subject@, expiry_after(now, INVITE_TTL), secret@),
    {
        Token::new(subject, INVITE_TTL, secret)
    }

    /// Returns the subject of `token` if it is well-signed under `secret` and unexpired now.
    pub fn parse(token: &str, secret: &[u8]) -> (r: Option<String>)
        ensures
            exists|now: i64| opt_view(r) == subject_of(token@, secret@, now),
    {
        let now = unix_now();
        Token::parse_at(token, secret, now)
    }

    /// Returns the subject of `token` if it is well-signed under `secret` and
    /// unexpired at Unix time `now`.
    pub fn parse_at(token: &str, secret: &[u8], now: i64) -> (r: Option<String>)
        ensures
            opt_view(r) == subject_of(token@, secret@, now),
    {
        if !token.is_ascii() {
            return None;
        }
        let n = token.unicode_len();
        if n < SIGNATURE_LEN {
            return None;
        }
        let claim = token.substring_ascii(0, n - SIGNATURE_LEN);
        let sig = token.substring_ascii(n - SIGNATURE_LEN, n);
        let expected = signature(claim, secret);
        let sig_owned = sig.to_owned();
        if !(expected == sig_owned) {
            return None;
        }
        let bytes = match b64_decode(claim) {
            Some(b) => b,
            None => return None,
        };
        let m = bytes.len();
        if m < EXPIRY_LEN {
            return None;
        }
        let sub_bytes = &bytes.as_slice()[0..m - EXPIRY_LEN];
        let exp_bytes = &bytes.as_slice()[m - EXPIRY_LEN..m];
        let exp = expiry_from_bytes(exp_bytes);
        if exp <= now {
            return None;
        }
        utf8_string(sub_bytes)
    }
}

/// A token shorter than the signature never carries a subject.
pub proof fn lemma_short_token_rejected(t: Seq<char>, secret: Seq<u8>, now: i64)
    requires
        t.len() < SIGNATURE_LEN,
    ensures
        subject_of(t, secret, now) is None,
{
}

/// Changing any one character of a token that carries a subject makes it
/// carry nothing, given that the keyed digests of the original and changed
/// claims do not collide, and that base64 decoding gives the changed claim's
/// digest back from its text (as it does for every byte string).
pub proof fn lemma_tamper_rejected(t: Seq<char>, secret: Seq<u8>, now: i64, i: int, c: char)
    requires
        subject_of(t, secret, now) is Some,
        0 <= i < t.len(),
        c != t[i],
        i < t.len() - SIGNATURE_LEN ==> ({
            let d = digest_of(t.subrange(0, t.len() - SIGNATURE_LEN), secret);
            let e = digest_of(t.update(i, c).subrange(0, t.len() - SIGNATURE_LEN), secret);
            &&& e != d
            &&& b64_decoded(b64_of(d)) == Some(d)
            &&& b64_decoded(b64_of(e)) == Some(e)
        }),
    ensures
        subject_of(t.update(i, c), secret, now) is None,
{
    let u = t.update(i, c);
    let n = t.len() - SIGNATURE_LEN;
    if is_ascii_chars(u) {
        if i < n {
            assert(u.subrange(n, u.len() as int) =~= t.subrange(n, t.len() as int));
        } else {
            assert(u.subrange(0, n) =~= t.subrange(0, n));
            assert(u.subrange(n, u.len() as int)[i - n] == c);
        }
    }
}

/// A token that carries a subject under one secret carries nothing under
/// another, given that the keyed digests of its claim under the two secrets do
/// not collide, and that base64 decoding gives each digest back from its text.
pub proof fn lemma_other_secret_rejected(t: Seq<char>, secret: Seq<u8>, other: Seq<u8>, now: i64)
    requires
        subject_of(t, secret, now) is Some,
        ({
            let d = digest_of(t.subrange(0, t.len() - SIGNATURE_LEN), secret);
            let e = digest_of(t.subrange(0, t.len() - SIGNATURE_LEN), other);
            &&& e != d
            &&& b64_decoded(b64_of(d)) == Some(d)
            &&& b64_decoded(b64_of(e)) == Some(e)
        }),
    ensures
        subject_of(t, other, now) is None,
{
}

} // verus!
