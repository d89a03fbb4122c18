//! Stateless CSRF tokens bound to a request fingerprint and an expiry.
//!
//! A token carries everything needed to check it: the client's IP, the hash
//! of its user agent and the expiry instant (milliseconds since the epoch).
//! These are laid out as 32-bit words (the character codes of each text
//! field, each field closed by a separator word that no character code
//! equals, then the expiry in two words) and a checksum word. They are
//! encrypted in counter mode with HMAC-SHA256 under the CSRF secret: a nonce
//! drawn from the payload selects a key stream, which masks the words. The
//! token holds the nonce with a check word, the masked words, and the
//! HMAC-SHA256 tag of all of these (encrypt, then authenticate), written as
//! lower-case hexadecimal.
//!
//! Without the secret a token can be neither forged nor read: the tag
//! authenticates it, and each payload has a key stream of its own, so the
//! fields of one token tell nothing of another's. The check word and the
//! checksum reject any token of which one character was altered, whatever
//! the tag.

use vstd::prelude::*;
use vstd::arithmetic::div_mod::lemma_fundamental_div_mod;
use crate::hex::{decode_hex, encode_hex, hex_text, hex_words, lemma_div_mod_8, lemma_hex_one_change, lemma_hex_round_trip};
use crate::clock::{now_millis, ClockUnavailable};
use crate::mac::{bytes_from_words, bytes_of_words, hmac_sha256, hmac_sha256_of, same_words_constant_time, tag_words, words_from_tag};
use vstd::utf8::encode_utf8;
use crate::expire::{lifetime_ms, parse_lifetime, DEFAULT_LIFETIME_MS};
use crate::types::{lookup, Config, Controller};
use crate::text::{first_index_of, lemma_first_index_of, lemma_first_index_of_some};
use vstd::string::*;

verus! {

/// The word that closes each text field of a payload; no character code equals it.
pub const SEPARATOR: u32 = 0xFFFF_FFFF;

/// Tokens of this many characters or fewer are rejected without being read.
pub const MIN_TOKEN_CHARS: usize = 10;

/// The character codes of a text.
pub open spec fn codes(s: Seq<char>) -> Seq<u32> {
    Seq::new(s.len(), |i: int| s[i] as u32)
}

/// The expiry shifted into the unsigned range, as a high and a low word.
pub open spec fn expiry_words(e: i64) -> Seq<u32> {
    let b = e as int + 0x8000_0000_0000_0000;
    seq![(b / 0x1_0000_0000) as u32, (b % 0x1_0000_0000) as u32]
}

/// The expiry that a high and a low word stand for.
pub open spec fn expiry_of_words(hi: u32, lo: u32) -> i64 {
    (hi as int * 0x1_0000_0000 + lo as int - 0x8000_0000_0000_0000) as i64
}

/// The words of a payload: IP, user-agent hash, expiry.
pub open spec fn payload_words(ip: Seq<char>, ua_hash: Seq<char>, expiry: i64) -> Seq<u32> {
    codes(ip).push(SEPARATOR) + codes(ua_hash).push(SEPARATOR) + expiry_words(expiry)
}

/// The three fields that a sequence of payload words holds: the codes of the
/// IP, the codes of the user-agent hash, and the expiry. `None` where the
/// words are not two separator-closed fields followed by exactly two words.
pub open spec fn parse_payload(ws: Seq<u32>) -> Option<(Seq<u32>, Seq<u32>, i64)> {
    match first_index_of(ws, SEPARATOR) {
        None => None,
        Some(a) => {
            let rest = ws.subrange(a + 1, ws.len() as int);
            match first_index_of(rest, SEPARATOR) {
                None => None,
                Some(b) => if rest.len() == b + 3 {
                    Some((ws.subrange(0, a), rest.subrange(0, b), expiry_of_words(rest[b + 1], rest[b + 2])))
                } else {
                    None
                },
            }
        },
    }
}

/// The key word that masks position `i`.
pub open spec fn key_word(key: Seq<u32>, i: int) -> u32 {
    key[i]
}

/// Every word masked by the key stream `key`; masking twice restores the words.
pub open spec fn mask(key: Seq<u32>, ws: Seq<u32>) -> Seq<u32> {
    Seq::new(ws.len(), |i: int| ws[i] ^ key_word(key, i))
}

/// The exclusive or of all words.
pub open spec fn xor_all(ws: Seq<u32>) -> u32
    decreases ws.len(),
{
    if ws.len() == 0 {
        0
    } else {
        xor_all(ws.drop_last()) ^ ws.last()
    }
}

/// The words followed by their checksum, masked.
pub open spec fn seal(key: Seq<u32>, ws: Seq<u32>) -> Seq<u32> {
    mask(key, ws.push(xor_all(ws)))
}

/// The words that a sealed sequence holds, if its checksum matches.
pub open spec fn unseal(key: Seq<u32>, cs: Seq<u32>) -> Option<Seq<u32>> {
    if cs.len() == 0 {
        None
    } else {
        let ps = mask(key, cs);
        if ps.last() == xor_all(ps.drop_last()) {
            Some(ps.drop_last())
        } else {
            None
        }
    }
}

/// The first word of the message whose HMAC gives a token's nonce.
pub const NONCE_DOMAIN: u32 = 1;

/// The first word of the messages whose HMACs give a token's key stream.
pub const STREAM_DOMAIN: u32 = 2;

/// The first word of the message whose HMAC is a token's tag.
pub const TAG_DOMAIN: u32 = 3;

/// The key of the HMAC: the UTF-8 bytes of the secret.
pub open spec fn secret_key(secret: Seq<char>) -> Seq<u8> {
    encode_utf8(secret)
}

/// The eight words of the HMAC of a word sequence under the secret.
pub open spec fn keyed_words(secret: Seq<char>, msg: Seq<u32>) -> Seq<u32> {
    tag_words(hmac_sha256_of(secret_key(secret), bytes_of_words(msg)))
}

/// The nonce of a token: eight words drawn from its payload, so that tokens
/// with different payloads have different key streams.
pub open spec fn token_nonce(secret: Seq<char>, payload: Seq<u32>) -> Seq<u32> {
    keyed_words(secret, seq![NONCE_DOMAIN] + payload)
}

/// The message whose HMAC gives block `b` of the key stream for a nonce.
pub open spec fn stream_message(nonce: Seq<u32>, b: int) -> Seq<u32> {
    seq![STREAM_DOMAIN] + nonce + seq![b as u32]
}

/// The first `n` words of the key stream for a nonce: eight words per block,
/// block `b` being the HMAC of `stream_message(nonce, b)`.
pub open spec fn key_stream(secret: Seq<char>, nonce: Seq<u32>, n: nat) -> Seq<u32> {
    Seq::new(n, |i: int| keyed_words(secret, stream_message(nonce, i / 8))[i % 8])
}

/// The tag of everything in a token before it.
pub open spec fn body_tag(secret: Seq<char>, msg: Seq<u32>) -> Seq<u32> {
    keyed_words(secret, seq![TAG_DOMAIN] + msg)
}

/// The nonce followed by its check word.
pub open spec fn header_of(nonce: Seq<u32>) -> Seq<u32> {
    nonce.push(xor_all(nonce))
}

/// The words of a token: the nonce and its check word, the payload and its
/// checksum masked by the nonce's key stream, and the tag of all of these.
pub open spec fn token_words(ip: Seq<char>, ua_hash: Seq<char>, secret: Seq<char>, expiry: i64) -> Seq<u32> {
    let ws = payload_words(ip, ua_hash, expiry);
    let nonce = token_nonce(secret, ws);
    let msg = header_of(nonce) + seal(key_stream(secret, nonce, ws.len() + 1), ws);
    msg + body_tag(secret, msg)
}

/// The token text for a payload under `secret`.
pub open spec fn token_text(ip: Seq<char>, ua_hash: Seq<char>, secret: Seq<char>, expiry: i64) -> Seq<char> {
    hex_text(token_words(ip, ua_hash, secret, expiry))
}

/// The words of a token before its tag, if the tag matches them.
pub open spec fn authentic_body(secret: Seq<char>, cs: Seq<u32>) -> Option<Seq<u32>> {
    if cs.len() < 8 {
        None
    } else {
        let msg = cs.subrange(0, cs.len() - 8);
        if cs.subrange(cs.len() - 8, cs.len() as int) == body_tag(secret, msg) {
            Some(msg)
        } else {
            None
        }
    }
}

/// The payload words of an authenticated token, if its nonce check word and
/// its checksum match.
pub open spec fn open_message(secret: Seq<char>, msg: Seq<u32>) -> Option<Seq<u32>> {
    if msg.len() < 9 {
        None
    } else {
        let nonce = msg.subrange(0, 8);
        let body = msg.subrange(9, msg.len() as int);
        if msg[8] == xor_all(nonce) {
            unseal(key_stream(secret, nonce, body.len()), body)
        } else {
            None
        }
    }
}

/// The fields that a token holds under `secret`, if it reads back whole and
/// its tag matches.
pub open spec fn open_token(secret: Seq<char>, token: Seq<char>) -> Option<(Seq<u32>, Seq<u32>, i64)> {
    match hex_words(token) {
        None => None,
        Some(cs) => match authentic_body(secret, cs) {
            None => None,
            Some(msg) => match open_message(secret, msg) {
                None => None,
                Some(ws) => parse_payload(ws),
            },
        },
    }
}

/// The expiry of a token issued at `now` with a lifetime of `ttl`
/// milliseconds; it stays at the largest instant where the sum would pass it.
pub open spec fn expiry_at(now: i64, ttl: u64) -> i64 {
    if now + ttl > i64::MAX {
        i64::MAX
    } else {
        (now + ttl) as i64
    }
}

// ---- lemmas --------------------------------------------------------------

proof fn lemma_char_code_bound(c: char)
    ensures
        (c as u32) < 0x110000,
{
}

proof fn lemma_codes_no_separator(s: Seq<char>)
    ensures
        forall|i: int| 0 <= i < codes(s).len() ==> #[trigger] codes(s)[i] != SEPARATOR,
{
    assert forall|i: int| 0 <= i < codes(s).len() implies #[trigger] codes(s)[i] != SEPARATOR by {
        lemma_char_code_bound(s[i]);
    }
}

proof fn lemma_expiry_round_trip(e: i64)
    ensures
        expiry_of_words(expiry_words(e)[0], expiry_words(e)[1]) == e,
{
    let b = e as int + 0x8000_0000_0000_0000;
    lemma_fundamental_div_mod(b, 0x1_0000_0000);
    assert(0 <= b / 0x1_0000_0000 < 0x1_0000_0000) by {
        vstd::arithmetic::div_mod::lemma_div_pos_is_pos(b, 0x1_0000_0000);
        vstd::arithmetic::div_mod::lemma_div_is_ordered(b, 0x1_0000_0000_0000_0000, 0x1_0000_0000);
        vstd::arithmetic::div_mod::lemma_div_by_multiple(0x1_0000_0000, 0x1_0000_0000);
    }
    vstd::arithmetic::div_mod::lemma_mod_bound(b, 0x1_0000_0000);
}

/// A payload reads back as the fields it was made of.
pub proof fn lemma_payload_round_trip(ip: Seq<char>, ua_hash: Seq<char>, expiry: i64)
    ensures
        parse_payload(payload_words(ip, ua_hash, expiry)) == Some((codes(ip), codes(ua_hash), expiry)),
{
    let ws = payload_words(ip, ua_hash, expiry);
    let a = ip.len() as int;
    lemma_codes_no_separator(ip);
    lemma_codes_no_separator(ua_hash);
    assert(ws[a] == SEPARATOR);
    assert forall|j: int| 0 <= j < a implies ws[j] != SEPARATOR by {
        assert(ws[j] == codes(ip)[j]);
    }
    lemma_first_index_of(ws, SEPARATOR, a);
    let rest = ws.subrange(a + 1, ws.len() as int);
    let b = ua_hash.len() as int;
    assert(rest =~= codes(ua_hash).push(SEPARATOR) + expiry_words(expiry));
    assert(rest[b] == SEPARATOR);
    assert forall|j: int| 0 <= j < b implies rest[j] != SEPARATOR by {
        assert(rest[j] == codes(ua_hash)[j]);
    }
    lemma_first_index_of(rest, SEPARATOR, b);
    assert(ws.subrange(0, a) =~= codes(ip));
    assert(rest.subrange(0, b) =~= codes(ua_hash));
    lemma_expiry_round_trip(expiry);
}

proof fn lemma_xor_cancel(a: u32, k: u32)
    ensures
        (a ^ k) ^ k == a,
{
    assert((a ^ k) ^ k == a) by (bit_vector);
}

proof fn lemma_mask_twice(key: Seq<u32>, ws: Seq<u32>)
    ensures
        mask(key, mask(key, ws)) == ws,
{
    assert forall|i: int| 0 <= i < ws.len() implies mask(key, mask(key, ws))[i] == ws[i] by {
        lemma_xor_cancel(ws[i], key_word(key, i));
    }
    assert(mask(key, mask(key, ws)) =~= ws);
}

/// Sealed words unseal to themselves.
pub proof fn lemma_seal_round_trip(key: Seq<u32>, ws: Seq<u32>)
    ensures
        unseal(key, seal(key, ws)) == Some(ws),
{
    lemma_mask_twice(key, ws.push(xor_all(ws)));
    assert(ws.push(xor_all(ws)).drop_last() =~= ws);
}

proof fn lemma_xor_all_update(ws: Seq<u32>, j: int, v: u32)
    requires
        0 <= j < ws.len(),
    ensures
        xor_all(ws.update(j, v)) == xor_all(ws) ^ ws[j] ^ v,
    decreases ws.len(),
{
    let u = ws.update(j, v);
    let x = xor_all(ws.drop_last());
    let l = ws.last();
    if j == ws.len() - 1 {
        assert(u.drop_last() =~= ws.drop_last());
        assert((x ^ v) == (x ^ l) ^ l ^ v) by (bit_vector);
    } else {
        assert(u.drop_last() =~= ws.drop_last().update(j, v));
        lemma_xor_all_update(ws.drop_last(), j, v);
        let wj = ws[j];
        assert(((x ^ wj ^ v) ^ l) == (x ^ l) ^ wj ^ v) by (bit_vector);
    }
}

/// Sealed words in which exactly one word was changed do not unseal.
pub proof fn lemma_seal_detects_one_change(key: Seq<u32>, ws: Seq<u32>, cs: Seq<u32>, j: int)
    requires
        cs.len() == seal(key, ws).len(),
        0 <= j < cs.len(),
        cs[j] != seal(key, ws)[j],
        forall|i: int| 0 <= i < cs.len() && i != j ==> cs[i] == seal(key, ws)[i],
    ensures
        unseal(key, cs) is None,
{
    let ps = ws.push(xor_all(ws));
    let sealed = seal(key, ws);
    let qs = mask(key, cs);
    lemma_mask_twice(key, ps);
    let n = ws.len() as int;
    assert forall|i: int| 0 <= i < cs.len() && i != j implies qs[i] == ps[i] by {
        lemma_xor_cancel(ps[i], key_word(key, i));
    }
    assert(qs[j] != ps[j]) by {
        let k = key_word(key, j);
        let c = cs[j];
        let s = sealed[j];
        assert(c != s ==> (c ^ k) != (s ^ k)) by (bit_vector);
        lemma_xor_cancel(ps[j], k);
    }
    if j == n {
        assert(qs.drop_last() =~= ws);
    } else {
        assert(qs.drop_last() =~= ws.update(j, qs[j]));
        assert(qs.last() == xor_all(ws));
        lemma_xor_all_update(ws, j, qs[j]);
        let x = xor_all(ws);
        let a = ws[j];
        let b = qs[j];
        assert(a != b ==> (x ^ a ^ b) != x) by (bit_vector);
    }
}

// ---- executable codec ----------------------------------------------------

/// Appends the character codes of `s` to `out`.
fn push_codes(s: &str, out: &mut Vec<u32>)
    ensures
        final(out)@ == old(out)@ + codes(s@),
{
    let n = s.unicode_len();
    let ghost start = out@;
    let mut i: usize = 0;
    while i < n
        invariant
            n == s@.len(),
            i <= n,
            out@ =~= start + codes(s@).subrange(0, i as int),
        decreases n - i,
    {
        let c = s.get_char(i);
        out.push(c as u32);
        i = i + 1;
    }
    assert(codes(s@).subrange(0, n as int) =~= codes(s@));
}

/// The character codes of `s`.
fn codes_of(s: &str) -> (r: Vec<u32>)
    ensures
        r@ == codes(s@),
{
    let mut r: Vec<u32> = Vec::new();
    push_codes(s, &mut r);
    assert(r@ =~= codes(s@));
    r
}

fn expiry_to_words(e: i64) -> (r: (u32, u32))
    ensures
        seq![r.0, r.1] == expiry_words(e),
{
    let b: u64 = if e >= 0 {
        e as u64 + 0x8000_0000_0000_0000
    } else {
        (e + 0x7FFF_FFFF_FFFF_FFFF + 1) as u64
    };
    assert(b as int == e as int + 0x8000_0000_0000_0000);
    let hi = (b / 0x1_0000_0000) as u32;
    let lo = (b % 0x1_0000_0000) as u32;
    (hi, lo)
}

fn words_to_expiry(hi: u32, lo: u32) -> (r: i64)
    ensures
        r == expiry_of_words(hi, lo),
{
    let b: u64 = hi as u64 * 0x1_0000_0000 + lo as u64;
    if b >= 0x8000_0000_0000_0000 {
        (b - 0x8000_0000_0000_0000) as i64
    } else {
        b as i64 - 0x7FFF_FFFF_FFFF_FFFF - 1
    }
}

/// The payload words for an IP, a user-agent hash and an expiry.
fn build_payload(ip: &str, ua_hash: &str, expiry: i64) -> (r: Vec<u32>)
    ensures
        r@ == payload_words(ip@, ua_hash@, expiry),
{
    let mut ws: Vec<u32> = Vec::new();
    push_codes(ip, &mut ws);
    ws.push(SEPARATOR);
    push_codes(ua_hash, &mut ws);
    ws.push(SEPARATOR);
    let (hi, lo) = expiry_to_words(expiry);
    ws.push(hi);
    ws.push(lo);
    assert(ws@ =~= payload_words(ip@, ua_hash@, expiry));
    ws
}

/// The first position at or after `from` that holds `w`.
fn find_word(ws: &Vec<u32>, from: usize, w: u32) -> (r: Option<usize>)
    requires
        from <= ws@.len(),
    ensures
        match r {
            Some(i) => from <= i < ws@.len() && first_index_of(ws@.subrange(from as int, ws@.len() as int), w)
                == Some(i - from),
            None => first_index_of(ws@.subrange(from as int, ws@.len() as int), w) is None,
        },
{
    let ghost rest = ws@.subrange(from as int, ws@.len() as int);
    let mut i: usize = from;
    while i < ws.len()
        invariant
            from <= i <= ws@.len(),
            rest == ws@.subrange(from as int, ws@.len() as int),
            forall|j: int| 0 <= j < i - from ==> rest[j] != w,
        decreases ws@.len() - i,
    {
        if ws[i] == w {
            proof {
                lemma_first_index_of(rest, w, i - from);
            }
            return Some(i);
        }
        i = i + 1;
    }
    None
}

/// Copies `ws[from..to]`.
fn slice_words(ws: &Vec<u32>, from: usize, to: usize) -> (r: Vec<u32>)
    requires
        from <= to <= ws@.len(),
    ensures
        r@ == ws@.subrange(from as int, to as int),
{
    let mut r: Vec<u32> = Vec::new();
    let mut i: usize = from;
    while i < to
        invariant
            from <= i <= to <= ws@.len(),
            r@ =~= ws@.subrange(from as int, i as int),
        decreases to - i,
    {
        r.push(ws[i]);
        i = i + 1;
    }
    r
}

proof fn lemma_parse_payload_at(ws: Seq<u32>, a: int, b: int)
    requires
        first_index_of(ws, SEPARATOR) == Some(a),
        first_index_of(ws.subrange(a + 1, ws.len() as int), SEPARATOR) == Some(b),
    ensures
        parse_payload(ws) == (if ws.len() - a - 1 == b + 3 {
            let rest = ws.subrange(a + 1, ws.len() as int);
            Some((ws.subrange(0, a), rest.subrange(0, b), expiry_of_words(rest[b + 1], rest[b + 2])))
        } else {
            None::<(Seq<u32>, Seq<u32>, i64)>
        }),
{
    lemma_first_index_of_some(ws, SEPARATOR);
    lemma_first_index_of_some(ws.subrange(a + 1, ws.len() as int), SEPARATOR);
}

/// The fields of a sequence of payload words.
#[verifier::rlimit(30)]
fn read_payload(ws: &Vec<u32>) -> (r: Option<(Vec<u32>, Vec<u32>, i64)>)
    ensures
        match r {
            Some((ip, ua, e)) => parse_payload(ws@) == Some((ip@, ua@, e)),
            None => parse_payload(ws@) is None,
        },
{
    let a = match find_word(ws, 0, SEPARATOR) {
        Some(a) => a,
        None => {
            assert(ws@.subrange(0, ws@.len() as int) =~= ws@);
            return None;
        },
    };
    assert(ws@.subrange(0, ws@.len() as int) =~= ws@);
    let ghost rest = ws@.subrange(a + 1, ws@.len() as int);
    let n = ws.len();
    assert(a < n);
    let b = match find_word(ws, a + 1, SEPARATOR) {
        Some(b) => b,
        None => {
            return None;
        },
    };
    assert(first_index_of(ws@, SEPARATOR) == Some(a as int));
    assert(first_index_of(rest, SEPARATOR) == Some(b - a - 1));
    if ws.len() - b != 3 {
        proof {
            lemma_parse_payload_at(ws@, a as int, (b - a - 1) as int);
        }
        return None;
    }
    let ip = slice_words(ws, 0, a);
    let ua = slice_words(ws, a + 1, b);
    let e = words_to_expiry(ws[b + 1], ws[b + 2]);
    proof {
        lemma_parse_payload_at(ws@, a as int, (b - a - 1) as int);
        assert(rest.subrange(0, b - a - 1) =~= ua@);
        assert(rest[b - a] == ws@[b + 1]);
        assert(rest[b - a + 1] == ws@[b + 2]);
    }
    Some((ip, ua, e))
}

/// Masks every word with the key stream.
fn mask_words(ks: &Vec<u32>, ws: &Vec<u32>) -> (r: Vec<u32>)
    requires
        ks@.len() >= ws@.len(),
    ensures
        r@ == mask(ks@, ws@),
{
    let mut r: Vec<u32> = Vec::new();
    let mut i: usize = 0;
    while i < ws.len()
        invariant
            i <= ws@.len(),
            ks@.len() >= ws@.len(),
            r@ =~= mask(ks@, ws@).subrange(0, i as int),
        decreases ws@.len() - i,
    {
        r.push(ws[i] ^ ks[i]);
        i = i + 1;
    }
    r
}

/// The exclusive or of all words.
fn xor_words(ws: &Vec<u32>, len: usize) -> (r: u32)
    requires
        len <= ws@.len(),
    ensures
        r == xor_all(ws@.subrange(0, len as int)),
{
    let mut acc: u32 = 0;
    let mut i: usize = 0;
    while i < len
        invariant
            i <= len <= ws@.len(),
            acc == xor_all(ws@.subrange(0, i as int)),
        decreases len - i,
    {
        assert(ws@.subrange(0, i + 1).drop_last() =~= ws@.subrange(0, i as int));
        acc = acc ^ ws[i];
        i = i + 1;
    }
    acc
}

/// The words followed by their checksum, masked.
fn seal_words(ks: &Vec<u32>, ws: &Vec<u32>) -> (r: Vec<u32>)
    requires
        ks@.len() >= ws@.len() + 1,
    ensures
        r@ == seal(ks@, ws@),
{
    let x = xor_words(ws, ws.len());
    assert(ws@.subrange(0, ws@.len() as int) =~= ws@);
    let mut full = ws.clone();
    full.push(x);
    mask_words(ks, &full)
}

/// The words that a sealed sequence holds, if its checksum matches.
fn unseal_words(ks: &Vec<u32>, cs: &Vec<u32>) -> (r: Option<Vec<u32>>)
    requires
        ks@.len() >= cs@.len(),
    ensures
        match r {
            Some(ws) => unseal(ks@, cs@) == Some(ws@),
            None => unseal(ks@, cs@) is None,
        },
{
    if cs.len() == 0 {
        return None;
    }
    let mut ps = mask_words(ks, cs);
    let n = ps.len() - 1;
    let x = xor_words(&ps, n);
    assert(ps@.subrange(0, n as int) =~= ps@.drop_last());
    if ps[n] != x {
        return None;
    }
    ps.pop();
    assert(ps@ =~= mask(ks@, cs@).drop_last());
    Some(ps)
}

/// `d` followed by the words of `ws`.
fn prefixed(d: u32, ws: &Vec<u32>) -> (r: Vec<u32>)
    ensures
        r@ == seq![d] + ws@,
{
    let mut r: Vec<u32> = vec![d];
    let mut more = ws.clone();
    r.append(&mut more);
    assert(r@ =~= seq![d] + ws@);
    r
}

/// The eight words of the HMAC of a word sequence under the secret.
fn keyed_words_of(secret: &str, msg: &Vec<u32>) -> (r: Vec<u32>)
    ensures
        r@ == keyed_words(secret@, msg@),
        r@.len() == 8,
{
    let bytes = bytes_from_words(msg);
    let t = hmac_sha256(secret.as_bytes(), bytes.as_slice());
    words_from_tag(&t)
}

/// The first `n` words of the key stream for a nonce.
fn key_stream_of(secret: &str, nonce: &Vec<u32>, n: usize) -> (r: Vec<u32>)
    ensures
        r@ == key_stream(secret@, nonce@, n as nat),
{
    let mut r: Vec<u32> = Vec::new();
    let mut b: usize = 0;
    while r.len() < n
        invariant
            r@.len() <= n,
            r@.len() < n ==> r@.len() == 8 * b,
            r@ =~= key_stream(secret@, nonce@, n as nat).subrange(0, r@.len() as int),
        decreases n - r@.len(),
    {
        let mut m = prefixed(STREAM_DOMAIN, nonce);
        m.push(b as u32);
        assert(m@ =~= stream_message(nonce@, b as int));
        let block = keyed_words_of(secret, &m);
        let mut k: usize = 0;
        while k < 8 && r.len() < n
            invariant
                k <= 8,
                r@.len() <= n,
                r@.len() < n ==> r@.len() == 8 * b + k,
                r@.len() == n || r@.len() == 8 * b + k,
                block@ == keyed_words(secret@, stream_message(nonce@, b as int)),
                block@.len() == 8,
                r@ =~= key_stream(secret@, nonce@, n as nat).subrange(0, r@.len() as int),
            decreases 8 - k,
        {
            proof {
                lemma_div_mod_8(b as int, k as int);
            }
            r.push(block[k]);
            k = k + 1;
        }
        b = b + 1;
    }
    r
}

/// The words of a token before its tag, if the tag matches them.
fn authentic_words(secret: &str, cs: &Vec<u32>) -> (r: Option<Vec<u32>>)
    ensures
        match r {
            Some(msg) => authentic_body(secret@, cs@) == Some(msg@),
            None => authentic_body(secret@, cs@) is None,
        },
{
    if cs.len() < 8 {
        return None;
    }
    let n = cs.len() - 8;
    let msg = slice_words(cs, 0, n);
    let tag = slice_words(cs, n, cs.len());
    let expected = keyed_words_of(secret, &prefixed(TAG_DOMAIN, &msg));
    if same_words_constant_time(&tag, &expected) {
        Some(msg)
    } else {
        None
    }
}

/// The payload words of an authenticated token, if its check words match.
fn open_words(secret: &str, msg: &Vec<u32>) -> (r: Option<Vec<u32>>)
    ensures
        match r {
            Some(ws) => open_message(secret@, msg@) == Some(ws@),
            None => open_message(secret@, msg@) is None,
        },
{
    if msg.len() < 9 {
        return None;
    }
    let nonce = slice_words(msg, 0, 8);
    let check = xor_words(&nonce, 8);
    assert(nonce@.subrange(0, 8) =~= nonce@);
    if msg[8] != check {
        return None;
    }
    let body = slice_words(msg, 9, msg.len());
    let ks = key_stream_of(secret, &nonce, body.len());
    unseal_words(&ks, &body)
}

/// True when both sequences hold the same words.
fn same_words(a: &Vec<u32>, b: &Vec<u32>) -> (r: bool)
    ensures
        r == (a@ == b@),
{
    if a.len() != b.len() {
        return false;
    }
    let mut i: usize = 0;
    while i < a.len()
        invariant
            a@.len() == b@.len(),
            i <= a@.len(),
            forall|j: int| 0 <= j < i ==> a@[j] == b@[j],
        decreases a@.len() - i,
    {
        if a[i] != b[i] {
            return false;
        }
        i = i + 1;
    }
    assert(a@ =~= b@);
    true
}

// ---- the token service ---------------------------------------------------

/// The 32-bit FNV-1a hash of the character codes of a text.
pub open spec fn fnv1a(s: Seq<char>) -> u32
    decreases s.len(),
{
    if s.len() == 0 {
        0x811C_9DC5
    } else {
        (fnv1a(s.drop_last()) ^ (s.last() as u32)).wrapping_mul(0x0100_0193u32)
    }
}

/// The hash of a user agent as it stands in a fingerprint: eight hexadecimal digits.
pub open spec fn ua_hash_of(user_agent: Seq<char>) -> Seq<char> {
    hex_text(seq![fnv1a(user_agent)])
}

/// Hashes a user agent for a request fingerprint.
pub fn hash_user_agent(user_agent: &str) -> (r: String)
    ensures
        r@ == ua_hash_of(user_agent@),
{
    let n = user_agent.unicode_len();
    let mut h: u32 = 0x811C_9DC5;
    let mut i: usize = 0;
    while i < n
        invariant
            n == user_agent@.len(),
            i <= n,
            h == fnv1a(user_agent@.subrange(0, i as int)),
        decreases n - i,
    {
        assert(user_agent@.subrange(0, i + 1).drop_last() =~= user_agent@.subrange(0, i as int));
        let c = user_agent.get_char(i);
        h = (h ^ (c as u32)).wrapping_mul(0x0100_0193u32);
        i = i + 1;
    }
    assert(user_agent@.subrange(0, n as int) =~= user_agent@);
    let ws: Vec<u32> = vec![h];
    assert(ws@ =~= seq![h]);
    encode_hex(&ws)
}

/// Who sent a request, as far as CSRF protection tells: the client's IP and
/// the hash of its user agent.
pub struct RequestFingerprint {
    pub ip: String,
    pub ua_hash: String,
}

impl RequestFingerprint {
    /// The fingerprint of a request from `ip` with the given user agent.
    pub fn new(ip: &str, user_agent: &str) -> (r: RequestFingerprint)
        ensures
            r.ip@ == ip@,
            r.ua_hash@ == ua_hash_of(user_agent@),
    {
        RequestFingerprint { ip: ip.to_owned(), ua_hash: hash_user_agent(user_agent) }
    }
}

/// The outcome of a CSRF check. `Disabled` is a pass that callers can tell
/// apart: no secret is configured and nothing was checked.
#[derive(Clone, Copy, Debug, PartialEq, Eq, Structural)]
pub enum CsrfStatus {
    Disabled,
    Valid,
    Invalid,
}

impl CsrfStatus {
    /// True unless the token was rejected.
    pub fn passed(self) -> (r: bool)
        ensures
            r == (self != CsrfStatus::Invalid),
    {
        !matches!(self, CsrfStatus::Invalid)
    }
}

/// The token issued at `now` for a fingerprint, or `None` where no secret is
/// configured (protection is off).
pub open spec fn issued_token(ip: Seq<char>, ua_hash: Seq<char>, secret: Seq<char>, ttl: u64, now: i64) -> Option<Seq<char>> {
    if secret.len() == 0 {
        None
    } else {
        Some(token_text(ip, ua_hash, secret, expiry_at(now, ttl)))
    }
}

/// The outcome of checking `token` at `now` against a fingerprint: without a
/// secret, `Disabled`; else `Valid` exactly when the token is longer than
/// the floor, reads back whole under the secret, and holds the same IP, an
/// expiry not before `now`, and the same user-agent hash.
pub open spec fn token_status(ip: Seq<char>, ua_hash: Seq<char>, secret: Seq<char>, token: Seq<char>, now: i64) -> CsrfStatus {
    if secret.len() == 0 {
        CsrfStatus::Disabled
    } else if token.len() <= MIN_TOKEN_CHARS {
        CsrfStatus::Invalid
    } else {
        match open_token(secret, token) {
            Some((ip_codes, ua_codes, expiry)) => if ip_codes == codes(ip) && expiry >= now && ua_codes
                == codes(ua_hash) {
                CsrfStatus::Valid
            } else {
                CsrfStatus::Invalid
            },
            None => CsrfStatus::Invalid,
        }
    }
}

/// Issues a token at `now` (milliseconds since the epoch) that expires
/// `ttl_ms` milliseconds later; `None` where `secret` is empty.
pub fn issue_at(fp: &RequestFingerprint, secret: &str, ttl_ms: u64, now: i64) -> (r: Option<String>)
    ensures
        match r {
            Some(t) => issued_token(fp.ip@, fp.ua_hash@, secret@, ttl_ms, now) == Some(t@),
            None => issued_token(fp.ip@, fp.ua_hash@, secret@, ttl_ms, now) is None,
        },
{
    if secret.is_empty() {
        return None;
    }
    let sum: i128 = now as i128 + ttl_ms as i128;
    let expiry: i64 = if sum > i64::MAX as i128 {
        i64::MAX
    } else {
        sum as i64
    };
    let payload = build_payload(fp.ip.as_str(), fp.ua_hash.as_str(), expiry);
    let nonce = keyed_words_of(secret, &prefixed(NONCE_DOMAIN, &payload));
    let mut summed = payload.clone();
    summed.push(xor_words(&payload, payload.len()));
    assert(payload@.subrange(0, payload@.len() as int) =~= payload@);
    let ks = key_stream_of(secret, &nonce, summed.len());
    let mut body = mask_words(&ks, &summed);
    let check = xor_words(&nonce, 8);
    assert(nonce@.subrange(0, 8) =~= nonce@);
    let mut msg = nonce.clone();
    msg.push(check);
    let ghost head = msg@;
    assert(head == header_of(nonce@));
    msg.append(&mut body);
    let ghost whole = msg@;
    let mut tag = keyed_words_of(secret, &prefixed(TAG_DOMAIN, &msg));
    msg.append(&mut tag);
    assert(msg@ =~= whole + body_tag(secret@, whole));
    Some(encode_hex(&msg))
}

/// Checks `token` at `now` against a fingerprint.
pub fn check_at(fp: &RequestFingerprint, secret: &str, token: &str, now: i64) -> (r: CsrfStatus)
    ensures
        r == token_status(fp.ip@, fp.ua_hash@, secret@, token@, now),
{
    if secret.is_empty() {
        return CsrfStatus::Disabled;
    }
    if token.unicode_len() <= MIN_TOKEN_CHARS {
        return CsrfStatus::Invalid;
    }
    let cs = match decode_hex(token) {
        Some(cs) => cs,
        None => {
            return CsrfStatus::Invalid;
        },
    };
    let msg = match authentic_words(secret, &cs) {
        Some(msg) => msg,
        None => {
            return CsrfStatus::Invalid;
        },
    };
    let ws = match open_words(secret, &msg) {
        Some(ws) => ws,
        None => {
            return CsrfStatus::Invalid;
        },
    };
    let (ip_codes, ua_codes, expiry) = match read_payload(&ws) {
        Some(fields) => fields,
        None => {
            return CsrfStatus::Invalid;
        },
    };
    if same_words(&ip_codes, &codes_of(fp.ip.as_str())) && expiry >= now && same_words(
        &ua_codes,
        &codes_of(fp.ua_hash.as_str()),
    ) {
        CsrfStatus::Valid
    } else {
        CsrfStatus::Invalid
    }
}

/// True unless `token` is rejected at `now`; always true without a secret.
pub fn validate_at(fp: &RequestFingerprint, secret: &str, token: &str, now: i64) -> (r: bool)
    ensures
        r == (token_status(fp.ip@, fp.ua_hash@, secret@, token@, now) != CsrfStatus::Invalid),
{
    check_at(fp, secret, token, now).passed()
}

/// Issues a token that expires `ttl_ms` milliseconds from the current time:
/// `Ok(None)` where `secret` is empty (protection is off), and an error where
/// the clock cannot be read.
pub fn issue(fp: &RequestFingerprint, secret: &str, ttl_ms: u64) -> (r: Result<Option<String>, ClockUnavailable>)
    ensures
        secret@.len() == 0 <==> r matches Ok(None),
        r matches Ok(Some(t)) ==> exists|now: i64| issued_token(fp.ip@, fp.ua_hash@, secret@, ttl_ms, now) == Some(t@),
{
    if secret.is_empty() {
        return Ok(None);
    }
    match now_millis() {
        Some(now) => Ok(issue_at(fp, secret, ttl_ms, now)),
        None => Err(ClockUnavailable),
    }
}

/// Checks `token` against a fingerprint at the current time; a token is
/// `Invalid` where the clock cannot be read.
pub fn check(fp: &RequestFingerprint, secret: &str, token: &str) -> (r: CsrfStatus)
    ensures
        r == CsrfStatus::Invalid || exists|now: i64| r == token_status(fp.ip@, fp.ua_hash@, secret@, token@, now),
        secret@.len() == 0 <==> r == CsrfStatus::Disabled,
{
    if secret.is_empty() {
        assert(token_status(fp.ip@, fp.ua_hash@, secret@, token@, 0) == CsrfStatus::Disabled);
        return CsrfStatus::Disabled;
    }
    match now_millis() {
        Some(now) => check_at(fp, secret, token, now),
        None => CsrfStatus::Invalid,
    }
}

/// True unless `token` is rejected at the current time.
pub fn validate(fp: &RequestFingerprint, secret: &str, token: &str) -> (r: bool)
    ensures
        r ==> exists|now: i64| token_status(fp.ip@, fp.ua_hash@, secret@, token@, now) != CsrfStatus::Invalid,
        secret@.len() == 0 ==> r,
{
    check(fp, secret, token).passed()
}

// ---- requests ------------------------------------------------------------

/// The user agent of a request: its `user-agent` header, empty where there is none.
pub open spec fn user_agent_of(ctrl: Controller) -> Seq<char> {
    match lookup(ctrl.headers@, "user-agent"@) {
        Some(u) => u,
        None => Seq::empty(),
    }
}

/// The token a request carries: its `x-csrf-token` header, else its `csrf`
/// query parameter.
pub open spec fn token_of(ctrl: Controller) -> Option<Seq<char>> {
    match lookup(ctrl.headers@, "x-csrf-token"@) {
        Some(t) => Some(t),
        None => lookup(ctrl.query@, "csrf"@),
    }
}

/// The outcome of the CSRF check of a request at `now`: `Disabled` without
/// a secret; else `Invalid` where the request carries no token, and the
/// token's status against the request's fingerprint where it does.
pub open spec fn request_status(ctrl: Controller, secret: Seq<char>, now: i64) -> CsrfStatus {
    if secret.len() == 0 {
        CsrfStatus::Disabled
    } else {
        match token_of(ctrl) {
            None => CsrfStatus::Invalid,
            Some(t) => token_status(ctrl.ip@, ua_hash_of(user_agent_of(ctrl)), secret, t, now),
        }
    }
}

/// The fingerprint of a request.
pub fn request_fingerprint(ctrl: &Controller) -> (r: RequestFingerprint)
    ensures
        r.ip@ == ctrl.ip@,
        r.ua_hash@ == ua_hash_of(user_agent_of(*ctrl)),
{
    let ua: &str = match ctrl.header("user-agent") {
        Some(u) => u,
        None => "",
    };
    proof {
        reveal_strlit("");
    }
    RequestFingerprint::new(ctrl.ip.as_str(), ua)
}

/// The token a request carries, if any.
pub fn request_token(ctrl: &Controller) -> (r: Option<&str>)
    ensures
        match r {
            Some(t) => token_of(*ctrl) == Some(t@),
            None => token_of(*ctrl) is None,
        },
{
    match ctrl.header("x-csrf-token") {
        Some(t) => Some(t),
        None => ctrl.query_value("csrf"),
    }
}

/// Issues a token for a request at `now`; `None` where `secret` is empty.
pub fn csrf_create_at(ctrl: &Controller, secret: &str, ttl_ms: u64, now: i64) -> (r: Option<String>)
    ensures
        match r {
            Some(t) => issued_token(ctrl.ip@, ua_hash_of(user_agent_of(*ctrl)), secret@, ttl_ms, now) == Some(t@),
            None => secret@.len() == 0,
        },
{
    let fp = request_fingerprint(ctrl);
    issue_at(&fp, secret, ttl_ms, now)
}

/// Issues a token for a request at the current time: `Ok(None)` where
/// `secret` is empty, and an error where the clock cannot be read.
pub fn csrf_create(ctrl: &Controller, secret: &str, ttl_ms: u64) -> (r: Result<Option<String>, ClockUnavailable>)
    ensures
        secret@.len() == 0 <==> r matches Ok(None),
        r matches Ok(Some(t)) ==> exists|now: i64|
            issued_token(ctrl.ip@, ua_hash_of(user_agent_of(*ctrl)), secret@, ttl_ms, now) == Some(t@),
{
    if secret.is_empty() {
        return Ok(None);
    }
    match now_millis() {
        Some(now) => Ok(csrf_create_at(ctrl, secret, ttl_ms, now)),
        None => Err(ClockUnavailable),
    }
}

/// Checks the token a request carries at `now`.
pub fn csrf_check_at(ctrl: &Controller, secret: &str, now: i64) -> (r: CsrfStatus)
    ensures
        r == request_status(*ctrl, secret@, now),
{
    if secret.is_empty() {
        return CsrfStatus::Disabled;
    }
    match request_token(ctrl) {
        None => CsrfStatus::Invalid,
        Some(t) => {
            let fp = request_fingerprint(ctrl);
            check_at(&fp, secret, t, now)
        },
    }
}

/// Checks the token a request carries at the current time; it is `Invalid`
/// where the clock cannot be read.
pub fn csrf_check(ctrl: &Controller, secret: &str) -> (r: CsrfStatus)
    ensures
        r == CsrfStatus::Invalid || exists|now: i64| r == request_status(*ctrl, secret@, now),
        secret@.len() == 0 <==> r == CsrfStatus::Disabled,
{
    if secret.is_empty() {
        assert(request_status(*ctrl, secret@, 0) == CsrfStatus::Disabled);
        return CsrfStatus::Disabled;
    }
    match now_millis() {
        Some(now) => csrf_check_at(ctrl, secret, now),
        None => CsrfStatus::Invalid,
    }
}

/// The token lifetime that a configuration sets: its `_csrfexpiration`
/// read as a lifetime, or the default of 30 minutes where it cannot be read.
pub open spec fn configured_lifetime(config: Config) -> u64 {
    match lifetime_ms(config._csrfexpiration@) {
        Some(ms) => ms,
        None => DEFAULT_LIFETIME_MS,
    }
}

/// The token lifetime that a configuration sets.
pub fn csrf_lifetime_ms(config: &Config) -> (r: u64)
    ensures
        r == configured_lifetime(*config),
{
    match parse_lifetime(config._csrfexpiration.as_str()) {
        Some(ms) => ms,
        None => DEFAULT_LIFETIME_MS,
    }
}

/// Issues a token for a request at the current time under a configuration's
/// secret and lifetime: `Ok(None)` where the configuration has no CSRF
/// secret, and an error where the clock cannot be read.
pub fn csrf_token_for(ctrl: &Controller, config: &Config) -> (r: Result<Option<String>, ClockUnavailable>)
    ensures
        config.secret_csrf@.len() == 0 <==> r matches Ok(None),
        r matches Ok(Some(t)) ==> exists|now: i64|
            issued_token(
                ctrl.ip@,
                ua_hash_of(user_agent_of(*ctrl)),
                config.secret_csrf@,
                configured_lifetime(*config),
                now,
            ) == Some(t@),
{
    let ttl = csrf_lifetime_ms(config);
    csrf_create(ctrl, config.secret_csrf.as_str(), ttl)
}

/// Checks the token a request carries at the current time under a
/// configuration's secret; `Invalid` where the clock cannot be read.
pub fn csrf_status_for(ctrl: &Controller, config: &Config) -> (r: CsrfStatus)
    ensures
        r == CsrfStatus::Invalid || exists|now: i64| r == request_status(*ctrl, config.secret_csrf@, now),
        config.secret_csrf@.len() == 0 <==> r == CsrfStatus::Disabled,
{
    csrf_check(ctrl, config.secret_csrf.as_str())
}

// ---- laws ----------------------------------------------------------------

/// A token issued for a fingerprint passes the check for that fingerprint
/// exactly until its expiry: at the instant of issue it is valid, and once
/// the time is past the instant of issue plus the lifetime it is not.
pub proof fn lemma_issued_token_valid_until_expiry(
    ip: Seq<char>,
    ua_hash: Seq<char>,
    secret: Seq<char>,
    ttl: u64,
    issued_at: i64,
    now: i64,
)
    requires
        secret.len() > 0,
    ensures
        ({
            let token = issued_token(ip, ua_hash, secret, ttl, issued_at)->0;
            &&& issued_token(ip, ua_hash, secret, ttl, issued_at) is Some
            &&& token_status(ip, ua_hash, secret, token, now) == if now <= expiry_at(issued_at, ttl) {
                CsrfStatus::Valid
            } else {
                CsrfStatus::Invalid
            }
            &&& token_status(ip, ua_hash, secret, token, issued_at) == CsrfStatus::Valid
            &&& now > issued_at + ttl ==> token_status(ip, ua_hash, secret, token, now) == CsrfStatus::Invalid
        }),
{
    let expiry = expiry_at(issued_at, ttl);
    lemma_token_opens(ip, ua_hash, secret, expiry);
}

/// An issued token reads back as the fields it was made of.
proof fn lemma_token_opens(ip: Seq<char>, ua_hash: Seq<char>, secret: Seq<char>, expiry: i64)
    ensures
        open_token(secret, token_text(ip, ua_hash, secret, expiry)) == Some((codes(ip), codes(ua_hash), expiry)),
        token_text(ip, ua_hash, secret, expiry).len() >= 40,
{
    let ws = payload_words(ip, ua_hash, expiry);
    let nonce = token_nonce(secret, ws);
    let msg = header_of(nonce) + seal(key_stream(secret, nonce, ws.len() + 1), ws);
    let full = msg + body_tag(secret, msg);
    assert(full == token_words(ip, ua_hash, secret, expiry));
    lemma_hex_round_trip(full);
    lemma_tag_matches(secret, msg);
    lemma_message_opens(secret, ws);
    lemma_payload_round_trip(ip, ua_hash, expiry);
    assert(ws.len() >= 4);
}

/// Words followed by their own tag pass the tag check.
proof fn lemma_tag_matches(secret: Seq<char>, msg: Seq<u32>)
    ensures
        authentic_body(secret, msg + body_tag(secret, msg)) == Some(msg),
{
    let full = msg + body_tag(secret, msg);
    assert(full.subrange(0, full.len() - 8) =~= msg);
    assert(full.subrange(full.len() - 8, full.len() as int) =~= body_tag(secret, msg));
}

/// The nonce, check word and sealed payload of a token open to the payload.
proof fn lemma_message_opens(secret: Seq<char>, ws: Seq<u32>)
    ensures
        ({
            let nonce = token_nonce(secret, ws);
            open_message(secret, header_of(nonce) + seal(key_stream(secret, nonce, ws.len() + 1), ws)) == Some(ws)
        }),
{
    let nonce = token_nonce(secret, ws);
    let ks = key_stream(secret, nonce, ws.len() + 1);
    let body = seal(ks, ws);
    let msg = header_of(nonce) + body;
    assert(msg.subrange(0, 8) =~= nonce);
    assert(msg[8] == xor_all(nonce));
    assert(msg.subrange(9, msg.len() as int) =~= body);
    lemma_seal_round_trip(ks, ws);
}

/// A token issued under a secret in which one character is replaced by
/// another no longer reads back, so it is rejected for every fingerprint and
/// at every time.
pub proof fn lemma_altered_token_rejected(
    ip: Seq<char>,
    ua_hash: Seq<char>,
    secret: Seq<char>,
    expiry: i64,
    altered: Seq<char>,
    p: int,
    any_ip: Seq<char>,
    any_ua_hash: Seq<char>,
    now: i64,
)
    requires
        secret.len() > 0,
        altered.len() == token_text(ip, ua_hash, secret, expiry).len(),
        0 <= p < altered.len(),
        altered[p] != token_text(ip, ua_hash, secret, expiry)[p],
        forall|q: int| 0 <= q < altered.len() && q != p ==> altered[q] == token_text(ip, ua_hash, secret, expiry)[q],
    ensures
        open_token(secret, altered) is None,
        token_status(any_ip, any_ua_hash, secret, altered, now) == CsrfStatus::Invalid,
{
    let full = token_words(ip, ua_hash, secret, expiry);
    let token = hex_text(full);
    lemma_hex_round_trip(full);
    if hex_words(altered) is Some {
        lemma_hex_one_change(token, altered, p);
        let cs = hex_words(altered)->0;
        lemma_one_changed_word_rejected(secret, payload_words(ip, ua_hash, expiry), cs, p / 8);
        assert(open_token(secret, altered) is None);
    }
}

/// Token words in which exactly one word differs from those issued for a
/// payload are not accepted: a changed tag word no longer matches, a changed
/// nonce word or check word breaks the check word, and a changed body word
/// breaks the checksum.
proof fn lemma_one_changed_word_rejected(secret: Seq<char>, ws: Seq<u32>, cs: Seq<u32>, j: int)
    requires
        ({
            let nonce = token_nonce(secret, ws);
            let msg = header_of(nonce) + seal(key_stream(secret, nonce, ws.len() + 1), ws);
            let full = msg + body_tag(secret, msg);
            &&& cs.len() == full.len()
            &&& 0 <= j < cs.len()
            &&& cs[j] != full[j]
            &&& forall|i: int| 0 <= i < cs.len() && i != j ==> cs[i] == full[i]
        }),
    ensures
        match authentic_body(secret, cs) {
            None => true,
            Some(msg) => open_message(secret, msg) is None,
        },
{
    let nonce = token_nonce(secret, ws);
    let ks = key_stream(secret, nonce, ws.len() + 1);
    let body = seal(ks, ws);
    let msg = header_of(nonce) + body;
    let tag = body_tag(secret, msg);
    let full = msg + tag;
    let n = msg.len() as int;
    let msg2 = cs.subrange(0, n);
    let tag2 = cs.subrange(n, n + 8);
    assert(cs.len() == n + 8);
    assert forall|i: int| 0 <= i < n implies #[trigger] full[i] == msg[i] by {}
    assert forall|i: int| n <= i < n + 8 implies #[trigger] full[i] == tag[i - n] by {}
    assert forall|i: int| 0 <= i < n && i != j implies msg2[i] == msg[i] by {
        assert(msg2[i] == cs[i]);
        assert(full[i] == msg[i]);
    }
    if j >= n {
        assert(msg2 =~= msg);
        assert(tag2[j - n] == cs[j]);
        assert(tag2 != tag);
        assert(authentic_body(secret, cs) is None);
    } else if authentic_body(secret, cs) is Some {
        assert(authentic_body(secret, cs) == Some(msg2));
        assert(msg2[j] == cs[j] && full[j] == msg[j]);
        let nonce2 = msg2.subrange(0, 8);
        let body2 = msg2.subrange(9, n);
        assert(msg.subrange(0, 8) =~= nonce);
        assert(msg[8] == xor_all(nonce));
        if j < 8 {
            assert(nonce2 =~= nonce.update(j, msg2[j]));
            lemma_xor_all_update(nonce, j, msg2[j]);
            let x = xor_all(nonce);
            let a = nonce[j];
            let b = msg2[j];
            assert(a != b ==> (x ^ a ^ b) != x) by (bit_vector);
            assert(msg2[8] == msg[8]);
        } else if j == 8 {
            assert(nonce2 =~= nonce);
        } else {
            assert(nonce2 =~= nonce);
            assert(msg2[8] == msg[8]);
            assert(body2.len() == body.len());
            assert forall|i: int| 0 <= i < body2.len() && i != j - 9 implies body2[i] == seal(ks, ws)[i] by {
                assert(body2[i] == msg2[i + 9]);
                assert(msg[i + 9] == body[i]);
            }
            assert(body2[j - 9] == msg2[j]);
            assert(msg[j] == body[j - 9]);
            lemma_seal_detects_one_change(ks, ws, body2, j - 9);
        }
    }
}

/// Without a secret every check passes, as `Disabled`, whatever the token.
pub proof fn lemma_no_secret_disables(ip: Seq<char>, ua_hash: Seq<char>, token: Seq<char>, now: i64)
    ensures
        token_status(ip, ua_hash, Seq::empty(), token, now) == CsrfStatus::Disabled,
{
}

} // verus!
