//! Single-password authentication for the web UI.
//!
//! One password guards every `/api/*` call. Its SHA-256 hex digest is what is
//! stored. A successful login sets a signed session cookie whose value is
//! `payload.signature`: `payload` is the unpadded URL-safe base64 of the
//! expiry (seconds since the epoch, little-endian `u64`) and `signature` is
//! the lower-case hex HMAC-SHA256 of `payload` keyed by the password hash, so
//! changing the password invalidates every outstanding session.

use vstd::prelude::*;
use vstd::utf8::encode_utf8;
use vstd::bytes::{lemma_auto_spec_u64_to_from_le_bytes, spec_u64_to_le_bytes, spec_u64_from_le_bytes};

use crate::codec::{
    base64_decode_url, base64_encode_url, hex_decode, hex_encode, spec_base64_url,
    lemma_base64_url_round_trip, lemma_hex_lower_chars, lemma_hex_round_trip, spec_base64_url_decode,
    spec_hex_decode, spec_hex_lower,
};
use crate::crypto::{hmac_sha256, hmac_sha256_verify, sha256, spec_hmac_sha256, spec_sha256, unix_now_secs};
use crate::text::{
    chars_eq, chars_of, find_char, lemma_find_bounds, lemma_find_is, lemma_rfind_bounds, lemma_rfind_is,
    lemma_trim_end_dropped, lemma_trim_end_is, lemma_trim_end_prefix, lemma_trim_noop, lemma_trim_of_trim_end,
    lemma_trim_start_is, spec_trim_end, spec_is_whitespace, owned, push_decimal,
    push_str, rfind_char, spec_decimal, spec_rsplit_once, spec_split, spec_split_once, spec_trim,
    string_of, string_push, trim_bounds, opt_view,
};

verus! {

/// Name of the session cookie.
pub const COOKIE_NAME: &'static str = "jan_web_session";

/// Sessions are valid for 30 days.
pub const SESSION_TTL_SECS: u64 = 30 * 24 * 60 * 60;

// ---------------------------------------------------------------------------
// Specifications
// ---------------------------------------------------------------------------

/// The stored form of a password: lower-case hex of the SHA-256 digest of
/// its UTF-8 bytes.
pub open spec fn spec_password_hash(password: Seq<char>) -> Seq<char> {
    spec_hex_lower(spec_sha256(encode_utf8(password)))
}

/// `password` is the one whose hash is `expected_hash`.
pub open spec fn spec_password_matches(password: Seq<char>, expected_hash: Seq<char>) -> bool {
    spec_password_hash(password) == expected_hash
}

/// The payload part of a token expiring at `expiry`.
pub open spec fn spec_token_payload(expiry: u64) -> Seq<char> {
    spec_base64_url(spec_u64_to_le_bytes(expiry))
}

/// The signature of `payload` under `password_hash`.
pub open spec fn spec_token_signature(password_hash: Seq<char>, payload: Seq<char>) -> Seq<char> {
    spec_hex_lower(spec_hmac_sha256(encode_utf8(password_hash), encode_utf8(payload)))
}

/// The session token for `password_hash` expiring at `expiry`.
pub open spec fn spec_session_token(password_hash: Seq<char>, expiry: u64) -> Seq<char> {
    let payload = spec_token_payload(expiry);
    payload + seq!['.'] + spec_token_signature(password_hash, payload)
}

/// `token` is a session token signed with `password_hash` whose expiry lies
/// after `now`.
pub open spec fn spec_session_token_valid_at(token: Seq<char>, password_hash: Seq<char>, now: u64) -> bool {
    &&& password_hash.len() > 0
    &&& match spec_rsplit_once(token, '.') {
        None => false,
        Some((payload, sig)) => {
            &&& spec_hex_decode(sig) == Some(spec_hmac_sha256(encode_utf8(password_hash), encode_utf8(payload)))
            &&& match spec_base64_url_decode(payload) {
                None => false,
                Some(bytes) => bytes.len() >= 8 && spec_u64_from_le_bytes(bytes.subrange(0, 8)) > now,
            }
        },
    }
}

/// The value of cookie `name` among the `;`-separated `entries` of a
/// `Cookie:` header: the first entry whose trimmed text splits at its first
/// `=` into a key that trims to `name`; the value is the trimmed rest.
pub open spec fn spec_cookie_lookup(entries: Seq<Seq<char>>, name: Seq<char>) -> Option<Seq<char>>
    decreases entries.len(),
{
    if entries.len() == 0 {
        None
    } else {
        match spec_split_once(spec_trim(entries[0]), '=') {
            Some((k, v)) => if spec_trim(k) == name {
                Some(spec_trim(v))
            } else {
                spec_cookie_lookup(entries.drop_first(), name)
            },
            None => spec_cookie_lookup(entries.drop_first(), name),
        }
    }
}

/// The value of cookie `name` in an optional `Cookie:` header.
pub open spec fn spec_parse_cookie(header: Option<Seq<char>>, name: Seq<char>) -> Option<Seq<char>> {
    match header {
        None => None,
        Some(h) => spec_cookie_lookup(spec_split(h, ';'), name),
    }
}

/// The `Set-Cookie` value that stores `value` for `max_age_secs` seconds.
pub open spec fn spec_session_cookie(value: Seq<char>, max_age_secs: u64) -> Seq<char> {
    COOKIE_NAME@ + "="@ + value + "; Path=/; HttpOnly; SameSite=Lax; Max-Age="@ + spec_decimal(
        max_age_secs as nat,
    )
}

/// The `Set-Cookie` value that clears the session cookie.
pub open spec fn spec_clear_cookie() -> Seq<char> {
    COOKIE_NAME@ + "=; Path=/; HttpOnly; SameSite=Lax; Max-Age=0"@
}

// ---------------------------------------------------------------------------
// Passwords
// ---------------------------------------------------------------------------

/// SHA-256 hex digest of the password, the form stored at rest.
pub fn hash_password(password: &str) -> (res: String)
    ensures
        res@ == spec_password_hash(password@),
        res@.len() == 64,
{
    let digest = sha256(password.as_bytes());
    proof {
        crate::codec::lemma_hex_lower_len(digest@);
    }
    hex_encode(digest.as_slice())
}

/// Whether `password` hashes to `expected_hash`. The digests are compared
/// byte by byte without an early exit, so the time taken does not depend on
/// where they differ.
pub fn verify_password(password: &str, expected_hash: &str) -> (res: bool)
    ensures
        res == spec_password_matches(password@, expected_hash@),
{
    broadcast use vstd::utf8::encode_utf8_decode_utf8;

    let actual = hash_password(password);
    let a = actual.as_str().as_bytes();
    let b = expected_hash.as_bytes();
    if a.len() != b.len() {
        return false;
    }
    let mut diff: u8 = 0;
    let mut i: usize = 0;
    while i < a.len()
        invariant
            a@.len() == b@.len(),
            0 <= i <= a@.len(),
            (diff == 0) == (forall|j: int| 0 <= j < i ==> a@[j] == b@[j]),
        decreases a@.len() - i,
    {
        let x = a[i];
        let y = b[i];
        let d = diff;
        assert(((d | (x ^ y)) == 0) == (d == 0 && x == y)) by (bit_vector);
        diff = diff | (x ^ y);
        i = i + 1;
    }
    proof {
        if diff == 0 {
            assert(a@ =~= b@);
            assert(vstd::utf8::decode_utf8(a@) == actual@);
            assert(vstd::utf8::decode_utf8(b@) == expected_hash@);
        }
    }
    diff == 0
}

// ---------------------------------------------------------------------------
// Session tokens
// ---------------------------------------------------------------------------

/// The signed session token for `password_hash` issued at `now`, expiring
/// `SESSION_TTL_SECS` later; `None` when no password is configured. It is
/// 76 characters long: the 11 of the payload, the `.`, and 64 hex digits.
pub fn create_session_token_at(password_hash: &str, now: u64) -> (res: Option<String>)
    requires
        now + SESSION_TTL_SECS <= u64::MAX,
    ensures
        res is None <==> password_hash@.len() == 0,
        res is Some ==> res->0@ == spec_session_token(password_hash@, (now + SESSION_TTL_SECS) as u64),
        res is Some ==> res->0@.len() == 76,
{
    if password_hash.is_empty() {
        return None;
    }
    let expiry = now + SESSION_TTL_SECS;
    let le = vstd::bytes::u64_to_le_bytes(expiry);
    let mut token = base64_encode_url(le.as_slice());
    proof {
        vstd::bytes::lemma_auto_spec_u64_to_from_le_bytes();
        crate::codec::lemma_base64_url_len(le@);
    }
    let ghost payload = token@;
    let tag = hmac_sha256(password_hash.as_bytes(), token.as_str().as_bytes());
    let sig = hex_encode(tag.as_slice());
    proof {
        crate::codec::lemma_hex_lower_len(tag@);
    }
    string_push(&mut token, '.');
    push_str(&mut token, sig.as_str());
    Some(token)
}

/// A session token issued now (by the system clock), expiring
/// `SESSION_TTL_SECS` later; `None` exactly when no password is configured.
/// A clock so far ahead that the expiry would not fit a `u64` gives the
/// latest expiry there is.
pub fn create_session_token(password_hash: &str) -> (res: Option<String>)
    ensures
        res is Some <==> password_hash@.len() > 0,
        res is Some ==> exists|now: u64|
            now + SESSION_TTL_SECS <= u64::MAX && res->0@ == #[trigger] spec_session_token(
                password_hash@,
                (now + SESSION_TTL_SECS) as u64,
            ),
{
    let clock = unix_now_secs();
    let now = if clock > u64::MAX - SESSION_TTL_SECS {
        u64::MAX - SESSION_TTL_SECS
    } else {
        clock
    };
    create_session_token_at(password_hash, now)
}

/// Whether `token` is signed with `password_hash` and unexpired at `now`.
pub fn verify_session_token_at(token: &str, password_hash: &str, now: u64) -> (res: bool)
    ensures
        res == spec_session_token_valid_at(token@, password_hash@, now),
{
    if password_hash.is_empty() {
        return false;
    }
    let v = chars_of(token);
    assert(v@.subrange(0, v@.len() as int) =~= v@);
    let k = match rfind_char(v.as_slice(), 0, v.len(), '.') {
        Some(k) => k,
        None => return false,
    };
    proof {
        lemma_rfind_bounds(v@, '.');
    }
    let payload = string_of(v.as_slice(), 0, k);
    let sig = string_of(v.as_slice(), k + 1, v.len());
    let tag = match hex_decode(sig.as_str()) {
        Some(t) => t,
        None => return false,
    };
    if !hmac_sha256_verify(password_hash.as_bytes(), payload.as_str().as_bytes(), tag.as_slice()) {
        return false;
    }
    let bytes = match base64_decode_url(payload.as_str()) {
        Some(b) => b,
        None => return false,
    };
    if bytes.len() < 8 {
        return false;
    }
    let first = vstd::slice::slice_subrange(bytes.as_slice(), 0, 8);
    let expiry = vstd::bytes::u64_from_le_bytes(first);
    expiry > now
}

/// Whether `token` is signed with `password_hash` and unexpired now (by the
/// system clock).
pub fn verify_session_token(token: &str, password_hash: &str) -> (res: bool)
    ensures
        exists|now: u64| res == #[trigger] spec_session_token_valid_at(token@, password_hash@, now),
{
    let now = unix_now_secs();
    verify_session_token_at(token, password_hash, now)
}

// ---------------------------------------------------------------------------
// Cookies
// ---------------------------------------------------------------------------

/// The value of cookie `name` in a `Cookie:` header.
pub fn parse_cookie(header: Option<&str>, name: &str) -> (res: Option<String>)
    ensures
        opt_view(res) == spec_parse_cookie(opt_view(header), name@),
{
    let h = match header {
        Some(h) => h,
        None => return None,
    };
    assert(spec_parse_cookie(opt_view(header), name@) == spec_cookie_lookup(spec_split(h@, ';'), name@));
    let v = chars_of(h);
    let len = v.len();
    let mut pos: usize = 0;
    assert(v@.subrange(0, len as int) =~= v@);
    while pos <= len
        invariant
            v@ == h@,
            len == v@.len(),
            pos <= len,
            spec_parse_cookie(opt_view(header), name@) == spec_cookie_lookup(spec_split(h@, ';'), name@),
            spec_cookie_lookup(spec_split(h@, ';'), name@) == spec_cookie_lookup(
                spec_split(v@.subrange(pos as int, len as int), ';'),
                name@,
            ),
        decreases len - pos,
    {
        let ghost rest = v@.subrange(pos as int, len as int);
        let found = find_char(v.as_slice(), pos, len, ';');
        proof {
            lemma_find_bounds(rest, ';');
        }
        let end = match found {
            Some(i) => pos + i,
            None => len,
        };
        let ghost entry = v@.subrange(pos as int, end as int);
        assert(spec_split(rest, ';')[0] == entry) by {
            if found is Some {
                assert(rest.subrange(0, end - pos) =~= entry);
            } else {
                assert(rest =~= entry);
            }
        }
        let (a, b) = trim_bounds(v.as_slice(), pos, end);
        let ghost te = v@.subrange(a as int, b as int);
        let ghost entries = spec_split(rest, ';');
        assert(entries.len() > 0);
        assert(spec_trim(entries[0]) == te);
        let eq = find_char(v.as_slice(), a, b, '=');
        proof {
            lemma_find_bounds(te, '=');
        }
        if let Some(j) = eq {
            let (ka, kb) = trim_bounds(v.as_slice(), a, a + j);
            assert(te.subrange(0, j as int) =~= v@.subrange(a as int, (a + j) as int));
            assert(te.subrange(j + 1, te.len() as int) =~= v@.subrange((a + j + 1) as int, b as int));
            assert(spec_split_once(te, '=') == Some(
                (te.subrange(0, j as int), te.subrange(j + 1, te.len() as int)),
            ));
            if chars_eq(v.as_slice(), ka, kb, name) {
                let (va, vb) = trim_bounds(v.as_slice(), a + j + 1, b);
                let r = string_of(v.as_slice(), va, vb);
                assert(spec_cookie_lookup(entries, name@) == Some(r@));
                return Some(r);
            }
        }
        assert(spec_cookie_lookup(entries, name@) == spec_cookie_lookup(entries.drop_first(), name@));
        match found {
            None => {
                assert(spec_split(rest, ';').drop_first() =~= Seq::<Seq<char>>::empty());
                return None;
            },
            Some(i) => {
                assert(rest.subrange(i + 1, rest.len() as int) =~= v@.subrange(
                    (pos + i + 1) as int,
                    len as int,
                ));
                assert(spec_split(rest, ';').drop_first() =~= spec_split(
                    rest.subrange(i + 1, rest.len() as int),
                    ';',
                ));
                pos = pos + i + 1;
            },
        }
    }
    None
}

/// The `Set-Cookie` header value for a session cookie.
pub fn session_cookie(value: &str, max_age_secs: u64) -> (res: String)
    ensures
        res@ == spec_session_cookie(value@, max_age_secs),
{
    let mut s = owned(COOKIE_NAME);
    push_str(&mut s, "=");
    push_str(&mut s, value);
    push_str(&mut s, "; Path=/; HttpOnly; SameSite=Lax; Max-Age=");
    push_decimal(&mut s, max_age_secs);
    s
}

/// The `Set-Cookie` header value that clears the session cookie.
pub fn clear_cookie() -> (res: String)
    ensures
        res@ == spec_clear_cookie(),
{
    let mut s = owned(COOKIE_NAME);
    push_str(&mut s, "=; Path=/; HttpOnly; SameSite=Lax; Max-Age=0");
    s
}

// ---------------------------------------------------------------------------
// Laws
// ---------------------------------------------------------------------------

/// A password verifies against its own stored hash.
pub proof fn lemma_password_verifies_against_own_hash(password: Seq<char>)
    ensures
        spec_password_matches(password, spec_password_hash(password)),
{
}

/// A session token issued for a password hash verifies against that hash at
/// every moment before its expiry, and at none from its expiry on.
pub proof fn lemma_session_token_round_trip(password_hash: Seq<char>, expiry: u64, now: u64)
    requires
        password_hash.len() > 0,
    ensures
        spec_session_token_valid_at(spec_session_token(password_hash, expiry), password_hash, now)
            == (expiry > now),
{
    let bytes = spec_u64_to_le_bytes(expiry);
    let payload = spec_token_payload(expiry);
    let mac = spec_hmac_sha256(encode_utf8(password_hash), encode_utf8(payload));
    let sig = spec_hex_lower(mac);
    let token = spec_session_token(password_hash, expiry);
    let k = payload.len() as int;
    assert(token[k] == '.');
    lemma_hex_lower_chars(mac);
    assert forall|j: int| k < j < token.len() implies token[j] != '.' by {
        assert(token[j] == sig[j - k - 1]);
    }
    lemma_rfind_is(token, '.', k);
    assert(token.subrange(0, k) =~= payload);
    assert(token.subrange(k + 1, token.len() as int) =~= sig);
    lemma_hex_round_trip(mac);
    lemma_base64_url_round_trip(bytes);
    lemma_auto_spec_u64_to_from_le_bytes();
    assert(bytes.subrange(0, 8) =~= bytes);
}

/// The cookie a login sets reads back, under the session cookie's name, as
/// the value it stores, trimmed, for every value that holds no `;`.
pub proof fn lemma_session_cookie_round_trip(value: Seq<char>, max_age_secs: u64)
    requires
        !value.contains(';'),
    ensures
        spec_parse_cookie(Some(spec_session_cookie(value, max_age_secs)), COOKIE_NAME@) == Some(spec_trim(value)),
{
    reveal_strlit("jan_web_session");
    reveal_strlit("=");
    reveal_strlit("; Path=/; HttpOnly; SameSite=Lax; Max-Age=");
    let name = COOKIE_NAME@;
    let n = name.len() as int;
    let tail = "; Path=/; HttpOnly; SameSite=Lax; Max-Age="@ + spec_decimal(max_age_secs as nat);
    let header = spec_session_cookie(value, max_age_secs);
    let entry = name + "="@ + value;
    assert(header =~= entry + tail);
    let i = entry.len() as int;
    assert forall|j: int| 0 <= j < i implies header[j] != ';' by {
        if j >= n + 1 {
            assert(header[j] == value[j - n - 1]);
        }
    }
    assert(header[i] == ';');
    lemma_find_is(header, ';', i);
    assert(header.subrange(0, i) =~= entry);
    assert(spec_split(header, ';')[0] == entry);
    // Trimming the entry keeps the name and the `=`, and trims the value's end.
    lemma_trim_start_is(entry, 0);
    assert(entry.subrange(0, entry.len() as int) =~= entry);
    let te = spec_trim_end(value);
    lemma_trim_end_prefix(value);
    lemma_trim_end_dropped(value);
    let k = n + 1 + te.len();
    assert forall|j: int| k <= j < entry.len() implies spec_is_whitespace(entry[j]) by {
        assert(entry[j] == value[j - n - 1]);
    }
    if te.len() > 0 {
        assert(entry[k - 1] == te.last());
    }
    lemma_trim_end_is(entry, k);
    let e2 = entry.subrange(0, k);
    assert(e2 =~= name + "="@ + te);
    assert(spec_trim(entry) == e2);
    assert(e2[n] == '=');
    assert forall|j: int| 0 <= j < n implies e2[j] != '=' by {
    }
    lemma_find_is(e2, '=', n);
    assert(e2.subrange(0, n) =~= name);
    assert(e2.subrange(n + 1, e2.len() as int) =~= te);
    lemma_trim_noop(name);
    lemma_trim_of_trim_end(value);
}

/// The cookie a logout sets reads back as an empty session value, and an
/// empty session value never authenticates.
pub proof fn lemma_cleared_cookie_never_authenticates(password_hash: Seq<char>, now: u64)
    ensures
        spec_parse_cookie(Some(spec_clear_cookie()), COOKIE_NAME@) == Some(Seq::<char>::empty()),
        !spec_session_token_valid_at(Seq::<char>::empty(), password_hash, now),
{
    reveal_strlit("jan_web_session");
    reveal_strlit("=; Path=/; HttpOnly; SameSite=Lax; Max-Age=0");
    let name = COOKIE_NAME@;
    let header = spec_clear_cookie();
    let entry = name + seq!['='];
    let i = entry.len() as int;
    assert forall|j: int| 0 <= j < i implies header[j] != ';' by {
    }
    assert(header[i] == ';');
    lemma_find_is(header, ';', i);
    assert(header.subrange(0, i) =~= entry);
    assert(spec_split(header, ';')[0] == entry);
    lemma_trim_noop(entry);
    let n = name.len() as int;
    assert forall|j: int| 0 <= j < n implies entry[j] != '=' by {
    }
    lemma_find_is(entry, '=', n);
    assert(entry.subrange(0, n) =~= name);
    assert(entry.subrange(n + 1, entry.len() as int) =~= Seq::<char>::empty());
    lemma_trim_noop(name);
    lemma_trim_noop(Seq::<char>::empty());
    lemma_rfind_is(Seq::<char>::empty(), '.', -1);
}

} // verus!
