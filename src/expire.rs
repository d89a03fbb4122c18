//! Lifetimes written as text: a whole number, one space and a unit, as in
//! `30 minutes`.

use vstd::prelude::*;
use crate::text::{find_char, first_index_of, lemma_first_index_of_some, str_eq};
use vstd::string::*;

verus! {

/// The lifetime used where the configured one cannot be read: 30 minutes.
pub const DEFAULT_LIFETIME_MS: u64 = 1_800_000;

/// True for the characters `0` to `9`.
pub open spec fn is_digit(c: char) -> bool {
    '0' <= c && c <= '9'
}

/// The value of a string of decimal digits.
pub open spec fn decimal_value(s: Seq<char>) -> nat
    decreases s.len(),
{
    if s.len() == 0 {
        0
    } else {
        decimal_value(s.drop_last()) * 10 + (s.last() as int - '0' as int) as nat
    }
}

/// Milliseconds in one of a unit, singular or plural.
pub open spec fn unit_ms(unit: Seq<char>) -> Option<nat> {
    if unit == "second"@ || unit == "seconds"@ {
        Some(1000)
    } else if unit == "minute"@ || unit == "minutes"@ {
        Some(60_000)
    } else if unit == "hour"@ || unit == "hours"@ {
        Some(3_600_000)
    } else if unit == "day"@ || unit == "days"@ {
        Some(86_400_000)
    } else if unit == "week"@ || unit == "weeks"@ {
        Some(604_800_000)
    } else {
        None
    }
}

/// The lifetime in milliseconds that `text` states: digits before its first
/// space, a unit after it. `None` where the text has another shape or the
/// lifetime does not fit in 64 bits.
pub open spec fn lifetime_ms(text: Seq<char>) -> Option<u64> {
    match first_index_of(text, ' ') {
        None => None,
        Some(k) => {
            let number = text.subrange(0, k);
            let unit = text.subrange(k + 1, text.len() as int);
            if k > 0 && (forall|i: int| 0 <= i < k ==> #[trigger] is_digit(number[i])) && unit_ms(unit) is Some
                && decimal_value(number) * unit_ms(unit)->0 <= u64::MAX {
                Some((decimal_value(number) * unit_ms(unit)->0) as u64)
            } else {
                None
            }
        },
    }
}

proof fn lemma_decimal_grows(s: Seq<char>, k: int)
    requires
        0 <= k <= s.len(),
        forall|i: int| 0 <= i < s.len() ==> #[trigger] is_digit(s[i]),
    ensures
        decimal_value(s.subrange(0, k)) <= decimal_value(s),
    decreases s.len() - k,
{
    if k < s.len() {
        lemma_decimal_grows(s, k + 1);
        let t = s.subrange(0, k + 1);
        assert(t.drop_last() =~= s.subrange(0, k));
        assert(is_digit(t.last()));
    } else {
        assert(s.subrange(0, k) =~= s);
    }
}

fn unit_value(unit: &str) -> (r: Option<u64>)
    ensures
        match r {
            Some(v) => unit_ms(unit@) == Some(v as nat),
            None => unit_ms(unit@) is None,
        },
{
    if str_eq(unit, "second") || str_eq(unit, "seconds") {
        Some(1000)
    } else if str_eq(unit, "minute") || str_eq(unit, "minutes") {
        Some(60_000)
    } else if str_eq(unit, "hour") || str_eq(unit, "hours") {
        Some(3_600_000)
    } else if str_eq(unit, "day") || str_eq(unit, "days") {
        Some(86_400_000)
    } else if str_eq(unit, "week") || str_eq(unit, "weeks") {
        Some(604_800_000)
    } else {
        None
    }
}

/// Reads a lifetime such as `30 minutes` as milliseconds.
pub fn parse_lifetime(text: &str) -> (r: Option<u64>)
    ensures
        r == lifetime_ms(text@),
{
    let k = match find_char(text, ' ') {
        Some(k) => k,
        None => {
            return None;
        },
    };
    if k == 0 {
        return None;
    }
    let n = text.unicode_len();
    let number = text.substring_char(0, k);
    let unit = text.substring_char(k + 1, n);
    proof {
        lemma_first_index_of_some(text@, ' ');
    }
    let per = match unit_value(unit) {
        Some(v) => v,
        None => {
            return None;
        },
    };
    assert(1000 <= per <= 604_800_000);
    let mut value: u64 = 0;
    let mut i: usize = 0;
    while i < k
        invariant
            number@ == text@.subrange(0, k as int),
            k == number@.len(),
            i <= k,
            forall|j: int| 0 <= j < i ==> #[trigger] is_digit(number@[j]),
            value as nat == decimal_value(number@.subrange(0, i as int)),
            value * per <= u64::MAX,
            1000 <= per <= 604_800_000,
            k < text@.len(),
            first_index_of(text@, ' ') == Some(k as int),
            unit@ == text@.subrange(k + 1, text@.len() as int),
            unit_ms(unit@) == Some(per as nat),
        decreases k - i,
    {
        let c = number.get_char(i);
        if !('0' <= c && c <= '9') {
            assert(!is_digit(number@[i as int]));
            return None;
        }
        let d = (c as u32 - '0' as u32) as u64;
        assert(number@.subrange(0, i + 1).drop_last() =~= number@.subrange(0, i as int));
        if value > (u64::MAX / per - d) / 10 {
            proof {
                assert forall|j: int| 0 <= j < i + 1 implies #[trigger] is_digit(number@[j]) by {}
                let longer = number@.subrange(0, i + 1);
                assert(decimal_value(longer) == value * 10 + d);
                assert((value * 10 + d) * per > u64::MAX) by (nonlinear_arith)
                    requires
                        value > (u64::MAX / per - d) / 10,
                        per >= 1000,
                        d < 10;
                lemma_long_number_overflows(number@, text@, k as int, i + 1, per as nat);
            }
            return None;
        }
        proof {
            assert((value * 10 + d) * per <= u64::MAX) by (nonlinear_arith)
                requires
                    value <= (u64::MAX / per - d) / 10,
                    per >= 1000,
                    d < 10;
        }
        value = value * 10 + d;
        i = i + 1;
    }
    assert(number@.subrange(0, k as int) =~= number@);
    proof {
        lemma_first_index_of_some(text@, ' ');
    }
    Some(value * per)
}

proof fn lemma_long_number_overflows(number: Seq<char>, text: Seq<char>, k: int, i: int, per: nat)
    requires
        number == text.subrange(0, k),
        0 < i <= k,
        k < text.len(),
        forall|j: int| 0 <= j < i ==> #[trigger] is_digit(number[j]),
        decimal_value(number.subrange(0, i)) * per > u64::MAX,
        first_index_of(text, ' ') == Some(k),
        unit_ms(text.subrange(k + 1, text.len() as int)) == Some(per),
    ensures
        lifetime_ms(text) is None,
{
    if forall|j: int| 0 <= j < k ==> #[trigger] is_digit(number[j]) {
        lemma_decimal_grows(number, i);
        assert(decimal_value(number.subrange(0, i)) * per <= decimal_value(number) * per) by (nonlinear_arith)
            requires
                decimal_value(number.subrange(0, i)) <= decimal_value(number);
    }
}

} // verus!
