//! Hex and base64 text encodings (through the `hex` and `base64` crates),
//! with their specifications and the round-trip facts the session tokens
//! rest on.

use vstd::prelude::*;
use base64::Engine as _;

verus! {

// ---------------------------------------------------------------------------
// Hex
// ---------------------------------------------------------------------------

/// Lower-case hex digit for a nibble `v < 16`.
pub open spec fn spec_hex_digit(v: u8) -> char {
    if v < 10 {
        ((v + 48) as u32) as char
    } else {
        ((v + 87) as u32) as char
    }
}

/// Lower-case hex encoding, two digits per byte, high nibble first.
pub open spec fn spec_hex_lower(bytes: Seq<u8>) -> Seq<char>
    decreases bytes.len(),
{
    if bytes.len() == 0 {
        seq![]
    } else {
        seq![spec_hex_digit(bytes[0] >> 4), spec_hex_digit(bytes[0] & 15)] + spec_hex_lower(
            bytes.drop_first(),
        )
    }
}

/// Value of a hex digit of either case.
pub open spec fn spec_hex_value(c: char) -> Option<u8> {
    if '0' <= c && c <= '9' {
        Some(((c as u32) - 48) as u8)
    } else if 'a' <= c && c <= 'f' {
        Some(((c as u32) - 87) as u8)
    } else if 'A' <= c && c <= 'F' {
        Some(((c as u32) - 55) as u8)
    } else {
        None
    }
}

/// Hex decoding: an even number of hex digits of either case, or nothing.
pub open spec fn spec_hex_decode(s: Seq<char>) -> Option<Seq<u8>>
    decreases s.len(),
{
    if s.len() % 2 == 1 {
        None
    } else if s.len() == 0 {
        Some(seq![])
    } else {
        match (spec_hex_value(s[0]), spec_hex_value(s[1]), spec_hex_decode(s.subrange(2, s.len() as int))) {
            (Some(h), Some(l), Some(rest)) => Some(seq![((h << 4) | l) as u8] + rest),
            _ => None,
        }
    }
}

/// Length of a hex encoding.
pub proof fn lemma_hex_lower_len(bytes: Seq<u8>)
    ensures
        spec_hex_lower(bytes).len() == 2 * bytes.len(),
    decreases bytes.len(),
{
    if bytes.len() > 0 {
        lemma_hex_lower_len(bytes.drop_first());
    }
}

/// A hex encoding never holds `c` unless `c` is a lower-case hex digit.
pub proof fn lemma_hex_lower_chars(bytes: Seq<u8>)
    ensures
        forall|i: int|
            0 <= i < spec_hex_lower(bytes).len() ==> {
                let c = #[trigger] spec_hex_lower(bytes)[i];
                ('0' <= c && c <= '9') || ('a' <= c && c <= 'f')
            },
    decreases bytes.len(),
{
    lemma_hex_lower_len(bytes);
    if bytes.len() > 0 {
        lemma_hex_lower_chars(bytes.drop_first());
        let b = bytes[0];
        assert(b >> 4 < 16 && b & 15 < 16) by (bit_vector);
        let head = seq![spec_hex_digit(b >> 4), spec_hex_digit(b & 15)];
        let tail = spec_hex_lower(bytes.drop_first());
        assert forall|i: int| 0 <= i < spec_hex_lower(bytes).len() implies {
            let c = #[trigger] spec_hex_lower(bytes)[i];
            ('0' <= c && c <= '9') || ('a' <= c && c <= 'f')
        } by {
            if i >= 2 {
                assert(spec_hex_lower(bytes)[i] == tail[i - 2]);
            }
        }
    }
}

/// Decoding a lower-case hex encoding gives the bytes back.
pub proof fn lemma_hex_round_trip(bytes: Seq<u8>)
    ensures
        spec_hex_decode(spec_hex_lower(bytes)) == Some(bytes),
    decreases bytes.len(),
{
    lemma_hex_lower_len(bytes);
    if bytes.len() > 0 {
        let b = bytes[0];
        let s = spec_hex_lower(bytes);
        lemma_hex_round_trip(bytes.drop_first());
        assert(s.subrange(2, s.len() as int) =~= spec_hex_lower(bytes.drop_first()));
        let hi = b >> 4;
        let lo = b & 15;
        assert(hi < 16 && lo < 16 && ((hi << 4) | lo) == b) by (bit_vector)
            requires
                hi == b >> 4,
                lo == b & 15,
        ;
        assert(spec_hex_value(s[0]) == Some(hi));
        assert(spec_hex_value(s[1]) == Some(lo));
        assert(seq![b] + bytes.drop_first() =~= bytes);
    } else {
        assert(bytes =~= seq![]);
    }
}

/// Lower-case hex encoding (`hex::encode`).
#[verifier::external_body]
pub(crate) fn hex_encode(data: &[u8]) -> (res: String)
    ensures
        res@ == spec_hex_lower(data@),
{
    hex::encode(data)
}

/// Hex decoding (`hex::decode`); `None` where the crate returns an error.
/// The crate decodes the UTF-8 bytes of `s`: a character outside ASCII gives
/// bytes that are no hex digit, so the statement over characters holds.
#[verifier::external_body]
pub(crate) fn hex_decode(s: &str) -> (res: Option<Vec<u8>>)
    ensures
        res is Some <==> spec_hex_decode(s@) is Some,
        res is Some ==> res->0@ == spec_hex_decode(s@)->0,
{
    hex::decode(s).ok()
}

// ---------------------------------------------------------------------------
// Base64
// ---------------------------------------------------------------------------

/// The base64 symbol for a sextet `v < 64`: the standard alphabet
/// (`+`, `/`), or the URL-safe one (`-`, `_`).
pub open spec fn spec_b64_symbol(v: u8, url_safe: bool) -> char {
    if v < 26 {
        ((v + 65) as u32) as char
    } else if v < 52 {
        ((v + 71) as u32) as char
    } else if v < 62 {
        ((v - 4) as u32) as char
    } else if v == 62 {
        if url_safe {
            '-'
        } else {
            '+'
        }
    } else if url_safe {
        '_'
    } else {
        '/'
    }
}

/// Base64 encoding of `bytes`, with `=` padding when `pad` holds.
pub open spec fn spec_base64(bytes: Seq<u8>, url_safe: bool, pad: bool) -> Seq<char>
    decreases bytes.len(),
{
    if bytes.len() == 0 {
        seq![]
    } else if bytes.len() == 1 {
        let a = bytes[0];
        seq![spec_b64_symbol(a >> 2, url_safe), spec_b64_symbol((a & 3) << 4, url_safe)] + (if pad {
            seq!['=', '=']
        } else {
            seq![]
        })
    } else if bytes.len() == 2 {
        let a = bytes[0];
        let b = bytes[1];
        seq![
            spec_b64_symbol(a >> 2, url_safe),
            spec_b64_symbol(((a & 3) << 4) | (b >> 4), url_safe),
            spec_b64_symbol((b & 15) << 2, url_safe),
        ] + (if pad {
            seq!['=']
        } else {
            seq![]
        })
    } else {
        let a = bytes[0];
        let b = bytes[1];
        let c = bytes[2];
        seq![
            spec_b64_symbol(a >> 2, url_safe),
            spec_b64_symbol(((a & 3) << 4) | (b >> 4), url_safe),
            spec_b64_symbol(((b & 15) << 2) | (c >> 6), url_safe),
            spec_b64_symbol(c & 63, url_safe),
        ] + spec_base64(bytes.subrange(3, bytes.len() as int), url_safe, pad)
    }
}

/// URL-safe, unpadded base64 (the `URL_SAFE_NO_PAD` engine).
pub open spec fn spec_base64_url(bytes: Seq<u8>) -> Seq<char> {
    spec_base64(bytes, true, false)
}

/// Standard, padded base64 (the `STANDARD` engine).
pub open spec fn spec_base64_std(bytes: Seq<u8>) -> Seq<char> {
    spec_base64(bytes, false, true)
}

/// Decoding with the `URL_SAFE_NO_PAD` engine: the bytes whose encoding `s`
/// is, if any (the engine accepts canonical encodings only).
pub open spec fn spec_base64_url_decode(s: Seq<char>) -> Option<Seq<u8>> {
    if exists|b: Seq<u8>| spec_base64_url(b) == s {
        Some(choose|b: Seq<u8>| spec_base64_url(b) == s)
    } else {
        None
    }
}

/// Distinct sextets have distinct symbols.
proof fn lemma_b64_symbol_injective(v: u8, w: u8, url_safe: bool)
    requires
        v < 64,
        w < 64,
        spec_b64_symbol(v, url_safe) == spec_b64_symbol(w, url_safe),
    ensures
        v == w,
{
}

/// Length of an unpadded encoding.
pub proof fn lemma_base64_url_len(bytes: Seq<u8>)
    ensures
        spec_base64_url(bytes).len() == 4 * (bytes.len() / 3) + (if bytes.len() % 3 == 0 {
            0int
        } else if bytes.len() % 3 == 1 {
            2int
        } else {
            3int
        }),
    decreases bytes.len(),
{
    if bytes.len() >= 3 {
        lemma_base64_url_len(bytes.subrange(3, bytes.len() as int));
    }
}

/// The symbols of the first group determine its bytes.
proof fn lemma_group_injective(a: u8, b: u8, c: u8, x: u8, y: u8, z: u8)
    requires
        a >> 2 == x >> 2,
        ((a & 3) << 4) | (b >> 4) == ((x & 3) << 4) | (y >> 4),
        ((b & 15) << 2) | (c >> 6) == ((y & 15) << 2) | (z >> 6),
        c & 63 == z & 63,
    ensures
        a == x && b == y && c == z,
{
    assert(a == x && b == y && c == z) by (bit_vector)
        requires
            a >> 2 == x >> 2,
            ((a & 3) << 4) | (b >> 4) == ((x & 3) << 4) | (y >> 4),
            ((b & 15) << 2) | (c >> 6) == ((y & 15) << 2) | (z >> 6),
            c & 63 == z & 63,
    ;
}

/// Unpadded URL-safe base64 is injective.
pub proof fn lemma_base64_url_injective(s: Seq<u8>, t: Seq<u8>)
    requires
        spec_base64_url(s) == spec_base64_url(t),
    ensures
        s == t,
    decreases s.len(),
{
    lemma_base64_url_len(s);
    lemma_base64_url_len(t);
    let es = spec_base64_url(s);
    let et = spec_base64_url(t);
    if s.len() >= 3 && t.len() >= 3 {
        let (a, b, c) = (s[0], s[1], s[2]);
        let (x, y, z) = (t[0], t[1], t[2]);
        assert(a >> 2 < 64 && ((a & 3) << 4) | (b >> 4) < 64 && ((b & 15) << 2) | (c >> 6) < 64
            && c & 63 < 64) by (bit_vector);
        assert(x >> 2 < 64 && ((x & 3) << 4) | (y >> 4) < 64 && ((y & 15) << 2) | (z >> 6) < 64
            && z & 63 < 64) by (bit_vector);
        assert(es[0] == et[0] && es[1] == et[1] && es[2] == et[2] && es[3] == et[3]);
        assert(es[0] == spec_b64_symbol(a >> 2, true));
        assert(et[0] == spec_b64_symbol(x >> 2, true));
        assert(es[1] == spec_b64_symbol(((a & 3) << 4) | (b >> 4), true));
        assert(et[1] == spec_b64_symbol(((x & 3) << 4) | (y >> 4), true));
        assert(es[2] == spec_b64_symbol(((b & 15) << 2) | (c >> 6), true));
        assert(et[2] == spec_b64_symbol(((y & 15) << 2) | (z >> 6), true));
        assert(es[3] == spec_b64_symbol(c & 63, true));
        assert(et[3] == spec_b64_symbol(z & 63, true));
        lemma_b64_symbol_injective(a >> 2, x >> 2, true);
        lemma_b64_symbol_injective(((a & 3) << 4) | (b >> 4), ((x & 3) << 4) | (y >> 4), true);
        lemma_b64_symbol_injective(((b & 15) << 2) | (c >> 6), ((y & 15) << 2) | (z >> 6), true);
        lemma_b64_symbol_injective(c & 63, z & 63, true);
        lemma_group_injective(a, b, c, x, y, z);
        let rs = s.subrange(3, s.len() as int);
        let rt = t.subrange(3, t.len() as int);
        assert(spec_base64_url(rs) =~= es.subrange(4, es.len() as int));
        assert(spec_base64_url(rt) =~= et.subrange(4, et.len() as int));
        lemma_base64_url_injective(rs, rt);
        assert(s =~= t) by {
            assert forall|i: int| 0 <= i < s.len() implies s[i] == t[i] by {
                if i >= 3 {
                    assert(s[i] == rs[i - 3]);
                    assert(t[i] == rt[i - 3]);
                }
            }
        }
    } else {
        assert(s.len() == t.len());
        if s.len() == 1 {
            let a = s[0];
            let x = t[0];
            assert(a >> 2 < 64 && (a & 3) << 4 < 64 && x >> 2 < 64 && (x & 3) << 4 < 64)
                by (bit_vector);
            assert(es[0] == et[0] && es[1] == et[1]);
            lemma_b64_symbol_injective(a >> 2, x >> 2, true);
            lemma_b64_symbol_injective((a & 3) << 4, (x & 3) << 4, true);
            assert(a == x) by (bit_vector)
                requires
                    a >> 2 == x >> 2,
                    (a & 3) << 4 == (x & 3) << 4,
            ;
            assert(s =~= t);
        } else if s.len() == 2 {
            let (a, b) = (s[0], s[1]);
            let (x, y) = (t[0], t[1]);
            assert(a >> 2 < 64 && ((a & 3) << 4) | (b >> 4) < 64 && (b & 15) << 2 < 64)
                by (bit_vector);
            assert(x >> 2 < 64 && ((x & 3) << 4) | (y >> 4) < 64 && (y & 15) << 2 < 64)
                by (bit_vector);
            assert(es[0] == et[0] && es[1] == et[1] && es[2] == et[2]);
            lemma_b64_symbol_injective(a >> 2, x >> 2, true);
            lemma_b64_symbol_injective(((a & 3) << 4) | (b >> 4), ((x & 3) << 4) | (y >> 4), true);
            lemma_b64_symbol_injective((b & 15) << 2, (y & 15) << 2, true);
            assert(a == x && b == y) by (bit_vector)
                requires
                    a >> 2 == x >> 2,
                    ((a & 3) << 4) | (b >> 4) == ((x & 3) << 4) | (y >> 4),
                    (b & 15) << 2 == (y & 15) << 2,
            ;
            assert(s =~= t);
        } else {
            assert(s =~= t);
        }
    }
}

/// Decoding an unpadded URL-safe encoding gives the bytes back.
pub proof fn lemma_base64_url_round_trip(bytes: Seq<u8>)
    ensures
        spec_base64_url_decode(spec_base64_url(bytes)) == Some(bytes),
{
    let s = spec_base64_url(bytes);
    assert(exists|b: Seq<u8>| spec_base64_url(b) == s);
    let b = choose|b: Seq<u8>| spec_base64_url(b) == s;
    lemma_base64_url_injective(b, bytes);
}

/// Standard padded base64 (`STANDARD.encode`). The crate panics when the
/// encoded length overflows `usize`, which `requires` rules out.
#[verifier::external_body]
pub(crate) fn base64_encode_std(data: &[u8]) -> (res: String)
    requires
        (data@.len() / 3) * 4 + 4 <= usize::MAX,
    ensures
        res@ == spec_base64_std(data@),
{
    base64::engine::general_purpose::STANDARD.encode(data)
}

/// Unpadded URL-safe base64 (`URL_SAFE_NO_PAD.encode`), under the same
/// length bound as [`base64_encode_std`].
#[verifier::external_body]
pub(crate) fn base64_encode_url(data: &[u8]) -> (res: String)
    requires
        (data@.len() / 3) * 4 + 4 <= usize::MAX,
    ensures
        res@ == spec_base64_url(data@),
{
    base64::engine::general_purpose::URL_SAFE_NO_PAD.encode(data)
}

/// Unpadded URL-safe base64 decoding (`URL_SAFE_NO_PAD.decode`); `None`
/// where the crate returns an error. The engine rejects padding, invalid
/// symbols, impossible lengths and non-zero trailing bits, so it succeeds
/// exactly on the canonical encodings. A character outside ASCII is an
/// invalid symbol at byte level, so the statement over characters holds.
#[verifier::external_body]
pub(crate) fn base64_decode_url(s: &str) -> (res: Option<Vec<u8>>)
    ensures
        res is Some <==> spec_base64_url_decode(s@) is Some,
        res is Some ==> res->0@ == spec_base64_url_decode(s@)->0,
{
    base64::engine::general_purpose::URL_SAFE_NO_PAD.decode(s).ok()
}

} // verus!
