//! Lower-case hexadecimal text for sequences of 32-bit words: each word is
//! eight digits, most significant first.

use vstd::prelude::*;
use vstd::arithmetic::div_mod::{lemma_fundamental_div_mod_converse, lemma_mod_bound};
use crate::text::push_char;

verus! {

/// The lower-case digit for a value below 16.
pub open spec fn hex_char(d: u32) -> char {
    if d == 0 { '0' } else if d == 1 { '1' } else if d == 2 { '2' } else if d == 3 { '3' }
    else if d == 4 { '4' } else if d == 5 { '5' } else if d == 6 { '6' } else if d == 7 { '7' }
    else if d == 8 { '8' } else if d == 9 { '9' } else if d == 10 { 'a' } else if d == 11 { 'b' }
    else if d == 12 { 'c' } else if d == 13 { 'd' } else if d == 14 { 'e' } else { 'f' }
}

/// The value of a lower-case hexadecimal digit; `None` for any other character.
pub open spec fn hex_value(c: char) -> Option<u32> {
    if c == '0' { Some(0u32) } else if c == '1' { Some(1u32) } else if c == '2' { Some(2u32) }
    else if c == '3' { Some(3u32) } else if c == '4' { Some(4u32) } else if c == '5' { Some(5u32) }
    else if c == '6' { Some(6u32) } else if c == '7' { Some(7u32) } else if c == '8' { Some(8u32) }
    else if c == '9' { Some(9u32) } else if c == 'a' { Some(10u32) } else if c == 'b' { Some(11u32) }
    else if c == 'c' { Some(12u32) } else if c == 'd' { Some(13u32) } else if c == 'e' { Some(14u32) }
    else if c == 'f' { Some(15u32) } else { None }
}

/// Digit `k` (0 is the most significant) of a word.
pub open spec fn nibble(w: u32, k: int) -> u32 {
    (w >> ((28 - 4 * k) as u32)) & 0xf
}

/// The hexadecimal text of a sequence of words.
pub open spec fn hex_text(ws: Seq<u32>) -> Seq<char> {
    Seq::new(8 * ws.len(), |p: int| hex_char(nibble(ws[p / 8], p % 8)))
}

/// The digit value at position `p` of `t`, zero where it is no digit.
pub open spec fn digit_at(t: Seq<char>, p: int) -> u32 {
    match hex_value(t[p]) {
        Some(d) => d,
        None => 0,
    }
}

/// The word spelled by the eight digits of `t` from position `off`.
pub open spec fn word_at(t: Seq<char>, off: int) -> u32 {
    (digit_at(t, off) << 28u32) | (digit_at(t, off + 1) << 24u32) | (digit_at(t, off + 2) << 20u32)
        | (digit_at(t, off + 3) << 16u32) | (digit_at(t, off + 4) << 12u32) | (digit_at(t, off + 5)
        << 8u32) | (digit_at(t, off + 6) << 4u32) | digit_at(t, off + 7)
}

/// True when every character of `t` is a lower-case hexadecimal digit.
pub open spec fn all_hex(t: Seq<char>) -> bool {
    forall|p: int| 0 <= p < t.len() ==> #[trigger] hex_value(t[p]) is Some
}

/// The words that `t` spells, if it is whole words of lower-case digits.
pub open spec fn hex_words(t: Seq<char>) -> Option<Seq<u32>> {
    if t.len() % 8 == 0 && all_hex(t) {
        Some(Seq::new((t.len() / 8) as nat, |i: int| word_at(t, 8 * i)))
    } else {
        None
    }
}

proof fn lemma_hex_char_value(d: u32)
    requires
        d < 16,
    ensures
        hex_value(hex_char(d)) == Some(d),
{
}

proof fn lemma_hex_value_char(c: char)
    requires
        hex_value(c) is Some,
    ensures
        hex_char(hex_value(c)->0) == c,
        hex_value(c)->0 < 16,
{
}

proof fn lemma_nibble_bound(w: u32, k: int)
    requires
        0 <= k < 8,
    ensures
        nibble(w, k) < 16,
{
    let s = (28 - 4 * k) as u32;
    assert((w >> s) & 0xf < 16) by (bit_vector);
}

/// Eight digits read back from a word give the word.
proof fn lemma_word_of_nibbles(w: u32)
    ensures
        (nibble(w, 0) << 28u32) | (nibble(w, 1) << 24u32) | (nibble(w, 2) << 20u32) | (nibble(w, 3)
            << 16u32) | (nibble(w, 4) << 12u32) | (nibble(w, 5) << 8u32) | (nibble(w, 6) << 4u32)
            | nibble(w, 7) == w,
{
    assert((((w >> 28u32) & 0xf) << 28u32) | (((w >> 24u32) & 0xf) << 24u32) | (((w >> 20u32) & 0xf)
        << 20u32) | (((w >> 16u32) & 0xf) << 16u32) | (((w >> 12u32) & 0xf) << 12u32) | (((w
        >> 8u32) & 0xf) << 8u32) | (((w >> 4u32) & 0xf) << 4u32) | ((w >> 0u32) & 0xf) == w)
        by (bit_vector);
}

/// The digits of a word built from eight digits are those digits.
proof fn lemma_nibbles_of_word(d0: u32, d1: u32, d2: u32, d3: u32, d4: u32, d5: u32, d6: u32, d7: u32)
    requires
        d0 < 16, d1 < 16, d2 < 16, d3 < 16, d4 < 16, d5 < 16, d6 < 16, d7 < 16,
    ensures
        ({
            let w = (d0 << 28u32) | (d1 << 24u32) | (d2 << 20u32) | (d3 << 16u32) | (d4 << 12u32) | (
            d5 << 8u32) | (d6 << 4u32) | d7;
            nibble(w, 0) == d0 && nibble(w, 1) == d1 && nibble(w, 2) == d2 && nibble(w, 3) == d3
                && nibble(w, 4) == d4 && nibble(w, 5) == d5 && nibble(w, 6) == d6 && nibble(w, 7)
                == d7
        }),
{
    let w = (d0 << 28u32) | (d1 << 24u32) | (d2 << 20u32) | (d3 << 16u32) | (d4 << 12u32) | (d5
        << 8u32) | (d6 << 4u32) | d7;
    assert(((w >> 28u32) & 0xf) == d0 && ((w >> 24u32) & 0xf) == d1 && ((w >> 20u32) & 0xf) == d2
        && ((w >> 16u32) & 0xf) == d3 && ((w >> 12u32) & 0xf) == d4 && ((w >> 8u32) & 0xf) == d5
        && ((w >> 4u32) & 0xf) == d6 && ((w >> 0u32) & 0xf) == d7) by (bit_vector)
        requires
            d0 < 16, d1 < 16, d2 < 16, d3 < 16, d4 < 16, d5 < 16, d6 < 16, d7 < 16,
            w == (d0 << 28u32) | (d1 << 24u32) | (d2 << 20u32) | (d3 << 16u32) | (d4 << 12u32) | (
            d5 << 8u32) | (d6 << 4u32) | d7;
}

pub(crate) proof fn lemma_div_mod_8(i: int, k: int)
    requires
        0 <= i,
        0 <= k < 8,
    ensures
        (8 * i + k) / 8 == i,
        (8 * i + k) % 8 == k,
{
    lemma_fundamental_div_mod_converse(8 * i + k, 8, i, k);
}

/// Reading the text of a sequence of words gives the words back.
pub proof fn lemma_hex_round_trip(ws: Seq<u32>)
    ensures
        hex_words(hex_text(ws)) == Some(ws),
{
    let t = hex_text(ws);
    assert(t.len() == 8 * ws.len());
    assert(t.len() % 8 == 0 && t.len() / 8 == ws.len()) by {
        lemma_div_mod_8(ws.len() as int, 0);
    }
    assert forall|p: int| 0 <= p < t.len() implies #[trigger] hex_value(t[p]) is Some by {
        lemma_mod_bound(p, 8);
        lemma_nibble_bound(ws[p / 8], p % 8);
        lemma_hex_char_value(nibble(ws[p / 8], p % 8));
    }
    let back = Seq::new((t.len() / 8) as nat, |i: int| word_at(t, 8 * i));
    assert forall|i: int| 0 <= i < ws.len() implies back[i] == ws[i] by {
        let w = ws[i];
        assert forall|k: int| 0 <= k < 8 implies #[trigger] digit_at(t, 8 * i + k) == nibble(w, k) by {
            lemma_div_mod_8(i, k);
            lemma_nibble_bound(w, k);
            lemma_hex_char_value(nibble(w, k));
        }
        assert(digit_at(t, 8 * i + 0) == nibble(w, 0));
        assert(digit_at(t, 8 * i + 1) == nibble(w, 1));
        assert(digit_at(t, 8 * i + 2) == nibble(w, 2));
        assert(digit_at(t, 8 * i + 3) == nibble(w, 3));
        assert(digit_at(t, 8 * i + 4) == nibble(w, 4));
        assert(digit_at(t, 8 * i + 5) == nibble(w, 5));
        assert(digit_at(t, 8 * i + 6) == nibble(w, 6));
        assert(digit_at(t, 8 * i + 7) == nibble(w, 7));
        lemma_word_of_nibbles(w);
    }
    assert(back =~= ws);
}

/// Two texts of whole digits that differ in one position spell words that
/// differ in exactly the word holding that position.
pub proof fn lemma_hex_one_change(t: Seq<char>, u: Seq<char>, p: int)
    requires
        hex_words(t) is Some,
        hex_words(u) is Some,
        t.len() == u.len(),
        0 <= p < t.len(),
        t[p] != u[p],
        forall|q: int| 0 <= q < t.len() && q != p ==> t[q] == u[q],
    ensures
        hex_words(t)->0.len() == hex_words(u)->0.len(),
        hex_words(t)->0[p / 8] != hex_words(u)->0[p / 8],
        forall|i: int|
            0 <= i < hex_words(t)->0.len() && i != p / 8 ==> hex_words(t)->0[i] == hex_words(u)->0[i],
{
    let wt = hex_words(t)->0;
    let wu = hex_words(u)->0;
    let j = p / 8;
    let k = p % 8;
    lemma_fundamental_div_mod_converse(p, 8, j, k);
    assert(0 <= k < 8);
    assert(p == 8 * j + k) by {
        vstd::arithmetic::div_mod::lemma_fundamental_div_mod(p, 8);
    }
    assert forall|i: int| 0 <= i < wt.len() && i != j implies wt[i] == wu[i] by {
        assert forall|m: int| 0 <= m < 8 implies #[trigger] t[8 * i + m] == u[8 * i + m] by {
            lemma_div_mod_8(i, m);
        }
        assert(t[8 * i + 0] == u[8 * i + 0]);
        assert(t[8 * i + 1] == u[8 * i + 1]);
        assert(t[8 * i + 2] == u[8 * i + 2]);
        assert(t[8 * i + 3] == u[8 * i + 3]);
        assert(t[8 * i + 4] == u[8 * i + 4]);
        assert(t[8 * i + 5] == u[8 * i + 5]);
        assert(t[8 * i + 6] == u[8 * i + 6]);
        assert(t[8 * i + 7] == u[8 * i + 7]);
    }
    assert(0 <= j < wt.len());
    assert forall|m: int| 0 <= m < 8 implies #[trigger] digit_at(t, 8 * j + m) < 16 && digit_at(u, 8 * j + m) < 16 by {
        assert(hex_value(t[8 * j + m]) is Some);
        assert(hex_value(u[8 * j + m]) is Some);
        lemma_hex_value_char(t[8 * j + m]);
        lemma_hex_value_char(u[8 * j + m]);
    }
    assert(digit_at(t, 8 * j + k) != digit_at(u, 8 * j + k)) by {
        lemma_hex_value_char(t[p]);
        lemma_hex_value_char(u[p]);
    }
    assert(digit_at(t, 8 * j + 0) < 16 && digit_at(u, 8 * j + 0) < 16);
    assert(digit_at(t, 8 * j + 1) < 16 && digit_at(u, 8 * j + 1) < 16);
    assert(digit_at(t, 8 * j + 2) < 16 && digit_at(u, 8 * j + 2) < 16);
    assert(digit_at(t, 8 * j + 3) < 16 && digit_at(u, 8 * j + 3) < 16);
    assert(digit_at(t, 8 * j + 4) < 16 && digit_at(u, 8 * j + 4) < 16);
    assert(digit_at(t, 8 * j + 5) < 16 && digit_at(u, 8 * j + 5) < 16);
    assert(digit_at(t, 8 * j + 6) < 16 && digit_at(u, 8 * j + 6) < 16);
    assert(digit_at(t, 8 * j + 7) < 16 && digit_at(u, 8 * j + 7) < 16);
    lemma_nibbles_of_word(
        digit_at(t, 8 * j + 0), digit_at(t, 8 * j + 1), digit_at(t, 8 * j + 2), digit_at(t, 8 * j + 3),
        digit_at(t, 8 * j + 4), digit_at(t, 8 * j + 5), digit_at(t, 8 * j + 6), digit_at(t, 8 * j + 7),
    );
    lemma_nibbles_of_word(
        digit_at(u, 8 * j + 0), digit_at(u, 8 * j + 1), digit_at(u, 8 * j + 2), digit_at(u, 8 * j + 3),
        digit_at(u, 8 * j + 4), digit_at(u, 8 * j + 5), digit_at(u, 8 * j + 6), digit_at(u, 8 * j + 7),
    );
    assert(wt[j] == word_at(t, 8 * j));
    assert(wu[j] == word_at(u, 8 * j));
}

fn digit_char(d: u32) -> (r: char)
    requires
        d < 16,
    ensures
        r == hex_char(d),
{
    if d == 0 { '0' } else if d == 1 { '1' } else if d == 2 { '2' } else if d == 3 { '3' }
    else if d == 4 { '4' } else if d == 5 { '5' } else if d == 6 { '6' } else if d == 7 { '7' }
    else if d == 8 { '8' } else if d == 9 { '9' } else if d == 10 { 'a' } else if d == 11 { 'b' }
    else if d == 12 { 'c' } else if d == 13 { 'd' } else if d == 14 { 'e' } else { 'f' }
}

fn digit_value(c: char) -> (r: Option<u32>)
    ensures
        r == hex_value(c),
{
    if c == '0' { Some(0) } else if c == '1' { Some(1) } else if c == '2' { Some(2) }
    else if c == '3' { Some(3) } else if c == '4' { Some(4) } else if c == '5' { Some(5) }
    else if c == '6' { Some(6) } else if c == '7' { Some(7) } else if c == '8' { Some(8) }
    else if c == '9' { Some(9) } else if c == 'a' { Some(10) } else if c == 'b' { Some(11) }
    else if c == 'c' { Some(12) } else if c == 'd' { Some(13) } else if c == 'e' { Some(14) }
    else if c == 'f' { Some(15) } else { None }
}

/// The hexadecimal text of `ws`.
pub fn encode_hex(ws: &Vec<u32>) -> (r: String)
    ensures
        r@ == hex_text(ws@),
{
    let mut r = String::new();
    let mut i: usize = 0;
    while i < ws.len()
        invariant
            i <= ws@.len(),
            r@ =~= hex_text(ws@).subrange(0, 8 * i),
        decreases ws@.len() - i,
    {
        let w = ws[i];
        let mut k: u32 = 0;
        while k < 8
            invariant
                i < ws@.len(),
                w == ws@[i as int],
                k <= 8,
                r@ =~= hex_text(ws@).subrange(0, 8 * i + k),
            decreases 8 - k,
        {
            let d = (w >> (28 - 4 * k)) & 0xf;
            proof {
                lemma_nibble_bound(w, k as int);
                lemma_div_mod_8(i as int, k as int);
            }
            push_char(&mut r, digit_char(d));
            k = k + 1;
        }
        i = i + 1;
    }
    r
}

/// The words that `t` spells, if it is whole words of lower-case digits.
pub fn decode_hex(t: &str) -> (r: Option<Vec<u32>>)
    ensures
        match r {
            Some(ws) => hex_words(t@) == Some(ws@),
            None => hex_words(t@) is None,
        },
{
    let n = t.unicode_len();
    if n % 8 != 0 {
        return None;
    }
    let mut ws: Vec<u32> = Vec::new();
    let mut i: usize = 0;
    while i < n / 8
        invariant
            n == t@.len(),
            n % 8 == 0,
            i <= n / 8,
            ws@.len() == i,
            forall|p: int| 0 <= p < 8 * i ==> #[trigger] hex_value(t@[p]) is Some,
            forall|j: int| 0 <= j < i ==> #[trigger] ws@[j] == word_at(t@, 8 * j),
        decreases n / 8 - i,
    {
        let mut w: u32 = 0;
        let mut k: usize = 0;
        while k < 8
            invariant
                n == t@.len(),
                i < n / 8,
                k <= 8,
                forall|p: int| 0 <= p < 8 * i + k ==> #[trigger] hex_value(t@[p]) is Some,
                w == word_prefix(t@, 8 * i as int, k as int),
                w < pow16(k as int),
            decreases 8 - k,
        {
            match digit_value(t.get_char(8 * i + k)) {
                Some(d) => {
                    proof {
                        lemma_hex_value_char(t@[8 * i + k]);
                        lemma_word_prefix_step(w, d, k as int);
                    }
                    w = (w << 4) | d;
                },
                None => {
                    return None;
                },
            }
            k = k + 1;
        }
        proof {
            lemma_word_prefix_full(t@, 8 * i as int);
        }
        ws.push(w);
        i = i + 1;
    }
    proof {
        let back = Seq::new((n / 8) as nat, |j: int| word_at(t@, 8 * j));
        assert(ws@ =~= back);
    }
    Some(ws)
}

/// The value of the first `k` digits of `t` from position `off`.
pub open spec fn word_prefix(t: Seq<char>, off: int, k: int) -> u32
    decreases k,
{
    if k <= 0 {
        0
    } else {
        (word_prefix(t, off, k - 1) << 4u32) | digit_at(t, off + k - 1)
    }
}

/// Sixteen to the power `k`, for `k` up to 8.
pub open spec fn pow16(k: int) -> int {
    if k <= 0 { 1 } else if k == 1 { 0x10 } else if k == 2 { 0x100 } else if k == 3 { 0x1000 }
    else if k == 4 { 0x10000 } else if k == 5 { 0x100000 } else if k == 6 { 0x1000000 }
    else if k == 7 { 0x10000000 } else { 0x100000000 }
}

proof fn lemma_word_prefix_step(w: u32, d: u32, k: int)
    requires
        0 <= k < 8,
        w < pow16(k),
        d < 16,
    ensures
        (w << 4u32) | d < pow16(k + 1),
{
    let b: u32 = pow16(k) as u32;
    assert(w < b ==> b <= 0x10000000 ==> (w << 4u32) | d < b * 16) by (bit_vector)
        requires d < 16;
    assert(pow16(k) * 16 == pow16(k + 1));
}

proof fn lemma_word_prefix_full(t: Seq<char>, off: int)
    ensures
        word_prefix(t, off, 8) == word_at(t, off),
{
    reveal_with_fuel(word_prefix, 9);
    let d0 = digit_at(t, off);
    let d1 = digit_at(t, off + 1);
    let d2 = digit_at(t, off + 2);
    let d3 = digit_at(t, off + 3);
    let d4 = digit_at(t, off + 4);
    let d5 = digit_at(t, off + 5);
    let d6 = digit_at(t, off + 6);
    let d7 = digit_at(t, off + 7);
    let w1 = (0u32 << 4u32) | d0;
    let w2 = (w1 << 4u32) | d1;
    let w3 = (w2 << 4u32) | d2;
    let w4 = (w3 << 4u32) | d3;
    let w5 = (w4 << 4u32) | d4;
    let w6 = (w5 << 4u32) | d5;
    let w7 = (w6 << 4u32) | d6;
    let w8 = (w7 << 4u32) | d7;
    assert(w8 == (d0 << 28u32) | (d1 << 24u32) | (d2 << 20u32) | (d3 << 16u32) | (d4 << 12u32) | (d5
        << 8u32) | (d6 << 4u32) | d7) by (bit_vector)
        requires
            w1 == (0u32 << 4u32) | d0,
            w2 == (w1 << 4u32) | d1,
            w3 == (w2 << 4u32) | d2,
            w4 == (w3 << 4u32) | d3,
            w5 == (w4 << 4u32) | d4,
            w6 == (w5 << 4u32) | d5,
            w7 == (w6 << 4u32) | d6,
            w8 == (w7 << 4u32) | d7;
}

} // verus!
