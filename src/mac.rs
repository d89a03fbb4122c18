//! HMAC-SHA256, and the conversions between its tags, bytes and 32-bit words.

use hmac::Mac;
use vstd::prelude::*;
use vstd::arithmetic::div_mod::lemma_fundamental_div_mod_converse;

verus! {

/// The HMAC-SHA256 tag of `msg` under `key`.
pub uninterp spec fn hmac_sha256_of(key: Seq<u8>, msg: Seq<u8>) -> Seq<u8>;

/// Relies on `hmac::Hmac<sha2::Sha256>`: `new_from_slice` (which takes a key
/// of any length and never fails), `update` and `finalize`. The tag is 32
/// bytes and depends on the key and the message alone.
#[verifier::external_body]
pub(crate) fn hmac_sha256(key: &[u8], msg: &[u8]) -> (r: Vec<u8>)
    ensures
        r@ == hmac_sha256_of(key@, msg@),
        r@.len() == 32,
{
    match hmac::Hmac::<sha2::Sha256>::new_from_slice(key) {
        Ok(mut m) => {
            m.update(msg);
            m.finalize().into_bytes().to_vec()
        },
        Err(_) => Vec::new(),
    }
}

/// Word `i` of a byte sequence, most significant byte first.
pub open spec fn word_of_bytes(b: Seq<u8>, i: int) -> u32 {
    ((b[4 * i] as u32) << 24u32) | ((b[4 * i + 1] as u32) << 16u32) | ((b[4 * i + 2] as u32) << 8u32)
        | (b[4 * i + 3] as u32)
}

/// The eight words of a 32-byte tag.
pub open spec fn tag_words(t: Seq<u8>) -> Seq<u32> {
    Seq::new(8, |i: int| word_of_bytes(t, i))
}

/// The bytes of a sequence of words, most significant byte first.
pub open spec fn bytes_of_words(ws: Seq<u32>) -> Seq<u8> {
    Seq::new(4 * ws.len(), |p: int| ((ws[p / 4] >> ((24 - 8 * (p % 4)) as u32)) & 0xff) as u8)
}

proof fn lemma_div_mod_4(i: int, k: int)
    requires
        0 <= i,
        0 <= k < 4,
    ensures
        (4 * i + k) / 4 == i,
        (4 * i + k) % 4 == k,
{
    lemma_fundamental_div_mod_converse(4 * i + k, 4, i, k);
}

/// The bytes of a sequence of words.
pub fn bytes_from_words(ws: &Vec<u32>) -> (r: Vec<u8>)
    ensures
        r@ == bytes_of_words(ws@),
{
    let mut r: Vec<u8> = Vec::new();
    let mut i: usize = 0;
    while i < ws.len()
        invariant
            i <= ws@.len(),
            r@ =~= bytes_of_words(ws@).subrange(0, 4 * i),
        decreases ws@.len() - i,
    {
        let w = ws[i];
        let mut k: u32 = 0;
        while k < 4
            invariant
                i < ws@.len(),
                w == ws@[i as int],
                k <= 4,
                r@ =~= bytes_of_words(ws@).subrange(0, 4 * i + k),
            decreases 4 - k,
        {
            proof {
                lemma_div_mod_4(i as int, k as int);
            }
            r.push(((w >> (24 - 8 * k)) & 0xff) as u8);
            k = k + 1;
        }
        i = i + 1;
    }
    r
}

/// The eight words of a 32-byte tag.
pub fn words_from_tag(t: &Vec<u8>) -> (r: Vec<u32>)
    requires
        t@.len() == 32,
    ensures
        r@ == tag_words(t@),
{
    let mut r: Vec<u32> = Vec::new();
    let mut i: usize = 0;
    while i < 8
        invariant
            t@.len() == 32,
            i <= 8,
            r@ =~= tag_words(t@).subrange(0, i as int),
        decreases 8 - i,
    {
        let w = ((t[4 * i] as u32) << 24) | ((t[4 * i + 1] as u32) << 16) | ((t[4 * i + 2] as u32) << 8)
            | (t[4 * i + 3] as u32);
        r.push(w);
        i = i + 1;
    }
    r
}

/// True when both sequences hold the same words; the time taken depends on
/// their lengths only.
pub fn same_words_constant_time(a: &Vec<u32>, b: &Vec<u32>) -> (r: bool)
    ensures
        r == (a@ == b@),
{
    if a.len() != b.len() {
        return false;
    }
    let mut acc: u32 = 0;
    let mut i: usize = 0;
    while i < a.len()
        invariant
            a@.len() == b@.len(),
            i <= a@.len(),
            (acc == 0) == (forall|j: int| 0 <= j < i ==> a@[j] == b@[j]),
        decreases a@.len() - i,
    {
        let x = a[i];
        let y = b[i];
        proof {
            assert(((acc | (x ^ y)) == 0) == (acc == 0 && x == y)) by (bit_vector);
            if acc == 0 && x == y {
                assert forall|j: int| 0 <= j < i + 1 implies a@[j] == b@[j] by {}
            }
        }
        acc = acc | (x ^ y);
        i = i + 1;
    }
    if acc == 0 {
        assert(a@ =~= b@);
    }
    acc == 0
}

} // verus!
