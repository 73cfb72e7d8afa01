//! Decimal literals: the value of a digit string, and verified conversion
//! of literal text to 64-bit integers.

use vstd::prelude::*;
use vstd::string::*;

use crate::token::{is_digit_char, digit_char};

verus! {

/// Every character is a decimal digit.
pub open spec fn all_digits(s: Seq<char>) -> bool {
    forall|i: int| 0 <= i < s.len() ==> is_digit_char(#[trigger] s[i])
}

/// The numeric value of one digit character.
pub open spec fn digit_val(c: char) -> int {
    c as u32 - 0x30
}

/// The value of a digit string, most significant digit first.
pub open spec fn int_value(s: Seq<char>) -> int
    decreases s.len(),
{
    if s.len() == 0 {
        0
    } else {
        int_value(s.drop_last()) * 10 + digit_val(s.last())
    }
}

pub proof fn lemma_int_value_nonneg(s: Seq<char>)
    requires
        all_digits(s),
    ensures
        int_value(s) >= 0,
    decreases s.len(),
{
    if s.len() > 0 {
        assert(all_digits(s.drop_last())) by {
            assert(forall|i: int|
                0 <= i < s.drop_last().len() ==> s.drop_last()[i] == s[i]);
        }
        lemma_int_value_nonneg(s.drop_last());
        assert(is_digit_char(s.last()));
    }
}

/// A digit string is worth at least any of its prefixes.
pub proof fn lemma_int_value_prefix_le(s: Seq<char>, k: int)
    requires
        all_digits(s),
        0 <= k <= s.len(),
    ensures
        int_value(s.take(k)) <= int_value(s),
    decreases s.len() - k,
{
    if k < s.len() {
        let t = s.take(k + 1);
        assert(t.drop_last() =~= s.take(k));
        assert(all_digits(s.take(k))) by {
            assert(forall|i: int| 0 <= i < k ==> s.take(k)[i] == s[i]);
        }
        lemma_int_value_nonneg(s.take(k));
        assert(t.last() == s[k]);
        assert(is_digit_char(s[k]));
        assert(int_value(t) == int_value(s.take(k)) * 10 + digit_val(s[k]));
        assert(int_value(s.take(k)) * 10 >= int_value(s.take(k))) by (nonlinear_arith)
            requires
                int_value(s.take(k)) >= 0,
        ;
        lemma_int_value_prefix_le(s, k + 1);
    } else {
        assert(s.take(k) =~= s);
    }
}

/// Parse a run of decimal digits as an `i64`. `None` exactly when the text
/// is empty, holds a non-digit, or exceeds the 64-bit signed range.
pub fn parse_i64_digits(s: &str) -> (r: Option<i64>)
    ensures
        match r {
            Some(v) => s@.len() > 0 && all_digits(s@) && v as int == int_value(s@),
            None => s@.len() == 0 || !all_digits(s@) || int_value(s@) > i64::MAX,
        },
{
    let n = s.unicode_len();
    if n == 0 {
        return None;
    }
    let mut i: usize = 0;
    let mut acc: i64 = 0;
    while i < n
        invariant
            n == s@.len(),
            0 <= i <= n,
            all_digits(s@.take(i as int)),
            acc as int == int_value(s@.take(i as int)),
            acc >= 0,
        decreases n - i,
    {
        let c = s.get_char(i);
        if !digit_char(c) {
            return None;
        }
        let d: i64 = ((c as u32) - 0x30) as i64;
        proof {
            assert(s@.take(i as int + 1).drop_last() =~= s@.take(i as int));
            assert(s@.take(i as int + 1).last() == s@[i as int]);
            assert(all_digits(s@.take(i as int + 1)));
        }
        if acc > (i64::MAX - d) / 10 {
            proof {
                assert(acc * 10 + d > i64::MAX) by (nonlinear_arith)
                    requires
                        acc > (i64::MAX - d) / 10,
                        0 <= d < 10,
                        acc >= 0,
                ;
                assert(int_value(s@.take(i as int + 1)) > i64::MAX);
                if all_digits(s@) {
                    lemma_int_value_prefix_le(s@, i as int + 1);
                }
            }
            return None;
        }
        proof {
            assert(acc * 10 + d <= i64::MAX) by (nonlinear_arith)
                requires
                    acc <= (i64::MAX - d) / 10,
                    0 <= d < 10,
                    acc >= 0,
            ;
        }
        acc = acc * 10 + d;
        i = i + 1;
    }
    proof {
        assert(s@.take(n as int) =~= s@);
    }
    Some(acc)
}

/// The length of the leading digit run of `s`.
pub open spec fn digit_prefix_len(s: Seq<char>) -> int
    decreases s.len(),
{
    if s.len() == 0 || !is_digit_char(s[0]) {
        0
    } else {
        1 + digit_prefix_len(s.drop_first())
    }
}

pub proof fn lemma_digit_prefix(s: Seq<char>)
    ensures
        0 <= digit_prefix_len(s) <= s.len(),
        forall|i: int| 0 <= i < digit_prefix_len(s) ==> is_digit_char(#[trigger] s[i]),
        digit_prefix_len(s) < s.len() ==> !is_digit_char(s[digit_prefix_len(s)]),
    decreases s.len(),
{
    if s.len() > 0 && is_digit_char(s[0]) {
        lemma_digit_prefix(s.drop_first());
        let p = digit_prefix_len(s);
        assert forall|i: int| 0 <= i < p implies is_digit_char(#[trigger] s[i]) by {
            if i > 0 {
                assert(s.drop_first()[i - 1] == s[i]);
            }
        }
        if p < s.len() {
            assert(s.drop_first()[p - 1] == s[p]);
        }
    }
}

pub proof fn lemma_digit_prefix_unique(s: Seq<char>, p: int)
    requires
        0 <= p <= s.len(),
        forall|i: int| 0 <= i < p ==> is_digit_char(#[trigger] s[i]),
        p < s.len() ==> !is_digit_char(s[p]),
    ensures
        digit_prefix_len(s) == p,
    decreases s.len(),
{
    if s.len() == 0 {
    } else if p == 0 {
    } else {
        assert(is_digit_char(s[0]));
        assert forall|i: int| 0 <= i < p - 1 implies is_digit_char(#[trigger] s.drop_first()[i]) by {
            assert(s.drop_first()[i] == s[i + 1]);
        }
        if p - 1 < s.drop_first().len() {
            assert(s.drop_first()[p - 1] == s[p]);
        }
        lemma_digit_prefix_unique(s.drop_first(), p - 1);
    }
}

/// The truncation of a decimal literal to the signed 64-bit range: the value
/// of its leading digit run, saturated at `i64::MAX`.
pub open spec fn trunc_decimal(s: Seq<char>) -> i64 {
    if int_value(s.take(digit_prefix_len(s))) > i64::MAX {
        i64::MAX
    } else {
        int_value(s.take(digit_prefix_len(s))) as i64
    }
}

/// Truncate a decimal literal (digits, optionally followed by a dot and more
/// text) to an `i64`, saturating at `i64::MAX`.
pub fn trunc_decimal_text(s: &str) -> (r: i64)
    ensures
        r == trunc_decimal(s@),
{
    let n = s.unicode_len();
    let mut i: usize = 0;
    let mut acc: i64 = 0;
    while i < n
        invariant
            n == s@.len(),
            0 <= i <= n,
            forall|j: int| 0 <= j < i ==> is_digit_char(#[trigger] s@[j]),
            acc as int == int_value(s@.take(i as int)),
            acc >= 0,
        decreases n - i,
    {
        let c = s.get_char(i);
        if !digit_char(c) {
            proof {
                lemma_digit_prefix_unique(s@, i as int);
            }
            return acc;
        }
        let d: i64 = ((c as u32) - 0x30) as i64;
        proof {
            assert(s@.take(i as int + 1).drop_last() =~= s@.take(i as int));
            assert(s@.take(i as int + 1).last() == s@[i as int]);
        }
        if acc > (i64::MAX - d) / 10 {
            proof {
                assert(acc * 10 + d > i64::MAX) by (nonlinear_arith)
                    requires
                        acc > (i64::MAX - d) / 10,
                        0 <= d < 10,
                        acc >= 0,
                ;
                lemma_digit_prefix(s@);
                let p = digit_prefix_len(s@);
                assert(is_digit_char(s@[i as int]));
                assert(p > i) by {
                    if p <= i {
                        assert(is_digit_char(s@[p]));
                    }
                }
                assert(all_digits(s@.take(p))) by {
                    assert(forall|j: int| 0 <= j < p ==> s@.take(p)[j] == s@[j]);
                }
                lemma_int_value_prefix_le(s@.take(p), i as int + 1);
                assert(s@.take(p).take(i as int + 1) =~= s@.take(i as int + 1));
            }
            return i64::MAX;
        }
        proof {
            assert(acc * 10 + d <= i64::MAX) by (nonlinear_arith)
                requires
                    acc <= (i64::MAX - d) / 10,
                    0 <= d < 10,
                    acc >= 0,
            ;
        }
        acc = acc * 10 + d;
        i = i + 1;
    }
    proof {
        lemma_digit_prefix_unique(s@, n as int);
    }
    acc
}

} // verus!
