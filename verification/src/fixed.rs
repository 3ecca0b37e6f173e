//! Parsing of decimal number strings into fixed-point integers.
//!
//! The exchange sends prices and quantities as strings such as `"50000"`,
//! `"0.5"` or `"1.00000000"`. They are read into a `u64` scaled by
//! [`crate::book::FIXED_SCALE`], so eight decimal places are kept exactly.
//! The accepted grammar is: digits, optionally followed by one `.` and
//! further digits; at least one digit in all; at most eight digits after
//! the `.`; and the scaled value must fit in a `u64`. Anything else fails
//! to parse, and the caller falls back to 0, which the book treats as a
//! removal.

use vstd::prelude::*;

verus! {

/// `c` is one of the ten decimal digits.
pub open spec fn is_digit(c: char) -> bool {
    48 <= c as u32 <= 57
}

/// Numeric value of a digit character.
pub open spec fn digit_val(c: char) -> int {
    c as u32 - 48
}

/// Every character of `s` is a decimal digit.
pub open spec fn all_digits(s: Seq<char>) -> bool {
    forall|i: int| 0 <= i < s.len() ==> is_digit(s[i])
}

/// The integer written by the digit string `s`, most significant first.
pub open spec fn digits_val(s: Seq<char>) -> int
    decreases s.len(),
{
    if s.len() == 0 {
        0
    } else {
        digits_val(s.drop_last()) * 10 + digit_val(s.last())
    }
}

/// Index of the first `.` in `s`, or `s.len()` if there is none.
pub open spec fn dot_index(s: Seq<char>) -> int
    decreases s.len(),
{
    if s.len() == 0 {
        0
    } else if s[0] == '.' {
        0
    } else {
        1 + dot_index(s.drop_first())
    }
}

/// The digits before the first `.` (the whole string if there is no `.`).
pub open spec fn int_part(s: Seq<char>) -> Seq<char> {
    s.take(dot_index(s))
}

/// The characters after the first `.`, empty if there is no `.`.
pub open spec fn frac_part(s: Seq<char>) -> Seq<char> {
    if dot_index(s) == s.len() {
        Seq::empty()
    } else {
        s.skip(dot_index(s) + 1)
    }
}

/// A run of `n` `'0'` characters.
pub open spec fn zero_pad(n: nat) -> Seq<char> {
    Seq::new(n, |i: int| '0')
}

/// `s` is a well-formed fixed-point literal: digit characters around at
/// most one `.`, at least one digit in all, and at most eight fractional
/// digits.
pub open spec fn fixed_grammar_ok(s: Seq<char>) -> bool {
    &&& all_digits(int_part(s))
    &&& all_digits(frac_part(s))
    &&& int_part(s).len() + frac_part(s).len() >= 1
    &&& frac_part(s).len() <= 8
}

/// The digit string whose plain integer value is the scaled fixed-point
/// value of `s`: the integer digits, then the fractional digits padded
/// with zeros to eight places.
pub open spec fn scaled_digits(s: Seq<char>) -> Seq<char> {
    int_part(s) + frac_part(s) + zero_pad((8 - frac_part(s).len()) as nat)
}

/// The scaled value of a well-formed literal, as an unbounded integer.
pub open spec fn fixed_value(s: Seq<char>) -> int {
    digits_val(scaled_digits(s))
}

/// What parsing `s` yields: the scaled value if the grammar holds and the
/// value fits in a `u64`, and nothing otherwise.
pub open spec fn parse_fixed_spec(s: Seq<char>) -> Option<u64> {
    if fixed_grammar_ok(s) && fixed_value(s) <= u64::MAX {
        Some(fixed_value(s) as u64)
    } else {
        None
    }
}

/// Parsing with the fallback the book applies to malformed numbers.
pub open spec fn parse_fixed_spec_or_zero(s: Seq<char>) -> u64 {
    match parse_fixed_spec(s) {
        Some(v) => v,
        None => 0,
    }
}

/// A digit string names a non-negative integer.
proof fn lemma_digits_val_nonneg(s: Seq<char>)
    requires
        all_digits(s),
    ensures
        digits_val(s) >= 0,
    decreases s.len(),
{
    if s.len() > 0 {
        assert(all_digits(s.drop_last()));
        lemma_digits_val_nonneg(s.drop_last());
    }
}

/// Extending a digit string to the right can only grow its value.
proof fn lemma_digits_val_prefix_le(s: Seq<char>, i: int)
    requires
        all_digits(s),
        0 <= i <= s.len(),
    ensures
        digits_val(s.take(i)) <= digits_val(s),
    decreases s.len(),
{
    if i == s.len() {
        assert(s.take(i) =~= s);
    } else {
        let t = s.drop_last();
        assert(all_digits(t));
        lemma_digits_val_prefix_le(t, i);
        assert(s.take(i) =~= t.take(i));
        lemma_digits_val_nonneg(t);
    }
}

/// If no `.` stands before position `k`, and `k` is the end or a `.`,
/// then `k` is the first dot position.
proof fn lemma_dot_index_at(s: Seq<char>, k: int)
    requires
        0 <= k <= s.len(),
        forall|i: int| 0 <= i < k ==> s[i] != '.',
        k == s.len() || s[k] == '.',
    ensures
        dot_index(s) == k,
    decreases s.len(),
{
    if s.len() > 0 && k > 0 {
        lemma_dot_index_at(s.drop_first(), k - 1);
    }
}

/// The numeric value of a digit character, or nothing for any other
/// character.
fn digit_of(c: char) -> (r: Option<u64>)
    ensures
        r is Some <==> is_digit(c),
        r matches Some(d) ==> d == digit_val(c),
{
    let u: u32 = c as u32;
    if 48 <= u && u <= 57 {
        Some((u - 48) as u64)
    } else {
        None
    }
}

/// Parse a decimal literal into a fixed-point `u64` scaled to eight
/// decimal places, or report that `s` is not a well-formed literal or
/// does not fit.
pub fn parse_fixed(s: &str) -> (r: Option<u64>)
    ensures
        r == parse_fixed_spec(s@),
{
    let n = s.unicode_len();

    // Locate the first dot, if any.
    let mut k: usize = 0;
    while k < n && s.get_char(k) != '.'
        invariant
            0 <= k <= n,
            n == s@.len(),
            forall|i: int| 0 <= i < k ==> s@[i] != '.',
        decreases n - k,
    {
        k = k + 1;
    }
    proof {
        lemma_dot_index_at(s@, k as int);
    }
    let ghost ip = int_part(s@);
    let ghost fp = frac_part(s@);
    assert(ip =~= s@.take(k as int));

    let frac_len: usize = if k < n { n - k - 1 } else { 0 };
    proof {
        if k < n {
            assert(fp =~= s@.skip(k + 1));
        }
        assert(fp.len() == frac_len);
    }
    if k == 0 && frac_len == 0 {
        // No digits at all: the empty string or a bare ".".
        return None;
    }
    if frac_len > 8 {
        return None;
    }

    // Read the integer digits.
    let mut acc: u64 = 0;
    let mut i: usize = 0;
    while i < k
        invariant
            0 <= i <= k <= n,
            n == s@.len(),
            dot_index(s@) == k,
            ip == int_part(s@),
            fp == frac_part(s@),
            ip =~= s@.take(k as int),
            frac_len == fp.len(),
            frac_len <= 8,
            acc == digits_val(ip.take(i as int)),
            forall|i0: int| 0 <= i0 < i ==> is_digit(s@[i0]),
        decreases k - i,
    {
        let c = s.get_char(i);
        let d = match digit_of(c) {
            Some(d) => d,
            None => {
                // A non-digit before the dot: not a literal.
                proof {
                    assert(ip[i as int] == s@[i as int]);
                    assert(!all_digits(int_part(s@))) by {
                        assert(!is_digit(int_part(s@)[i as int]));
                    }
                }
                return None;
            },
        };
        let ghost pre = ip.take(i as int);
        let ghost ext = ip.take(i + 1);
        assert(ext.drop_last() =~= pre);
        let grown = match acc.checked_mul(10) {
            Some(g) => g,
            None => {
                proof {
                    if fixed_grammar_ok(s@) {
                        assert(ext =~= scaled_digits(s@).take(ext.len() as int));
                    }
                    lemma_overflow_means_none(s@, ext, acc as int * 10);
                }
                return None;
            },
        };
        let acc2 = match grown.checked_add(d) {
            Some(a) => a,
            None => {
                proof {
                    if fixed_grammar_ok(s@) {
                        assert(ext =~= scaled_digits(s@).take(ext.len() as int));
                    }
                    lemma_overflow_means_none(s@, ext, grown + d);
                }
                return None;
            },
        };
        acc = acc2;
        i = i + 1;
    }
    assert(ip.take(k as int) =~= ip);
    assert(all_digits(ip));

    // Read the fractional digits, continuing the same accumulation.
    let mut j: usize = 0;
    while j < frac_len
        invariant
            0 <= j <= frac_len,
            n == s@.len(),
            k < n || frac_len == 0,
            k < n ==> n - k - 1 == frac_len,
            dot_index(s@) == k,
            frac_len == fp.len(),
            frac_len <= 8,
            frac_len + k + 1 <= n || frac_len == 0,
            fp == frac_part(s@),
            ip == int_part(s@),
            ip.len() == k,
            all_digits(ip),
            acc == digits_val(ip + fp.take(j as int)),
            forall|j0: int| 0 <= j0 < j ==> is_digit(fp[j0]),
        decreases frac_len - j,
    {
        let c = s.get_char(k + 1 + j);
        assert(c == fp[j as int]);
        let d = match digit_of(c) {
            Some(d) => d,
            None => {
                // A non-digit after the dot: not a literal.
                proof {
                    assert(!all_digits(frac_part(s@))) by {
                        assert(!is_digit(frac_part(s@)[j as int]));
                    }
                }
                return None;
            },
        };
        let ghost pre = ip + fp.take(j as int);
        let ghost ext = ip + fp.take(j + 1);
        assert(ext.drop_last() =~= pre);
        let grown = match acc.checked_mul(10) {
            Some(g) => g,
            None => {
                proof {
                    if fixed_grammar_ok(s@) {
                        assert(ext =~= scaled_digits(s@).take(ext.len() as int));
                    }
                    lemma_overflow_means_none(s@, ext, acc as int * 10);
                }
                return None;
            },
        };
        let acc2 = match grown.checked_add(d) {
            Some(a) => a,
            None => {
                proof {
                    if fixed_grammar_ok(s@) {
                        assert(ext =~= scaled_digits(s@).take(ext.len() as int));
                    }
                    lemma_overflow_means_none(s@, ext, grown + d);
                }
                return None;
            },
        };
        acc = acc2;
        j = j + 1;
    }
    assert(fp.take(frac_len as int) =~= fp);
    assert(all_digits(fp));

    // Pad the fraction with zeros to eight places.
    let mut z: usize = frac_len;
    while z < 8
        invariant
            frac_len <= z <= 8,
            dot_index(s@) == k,
            frac_len == fp.len(),
            fp == frac_part(s@),
            ip == int_part(s@),
            ip.len() == k,
            k + frac_len >= 1,
            all_digits(ip),
            all_digits(fp),
            acc == digits_val(ip + fp + zero_pad((z - frac_len) as nat)),
        decreases 8 - z,
    {
        let ghost pre = ip + fp + zero_pad((z - frac_len) as nat);
        let ghost ext = ip + fp + zero_pad((z + 1 - frac_len) as nat);
        assert(ext.drop_last() =~= pre);
        assert(ext.last() == '0');
        let grown = match acc.checked_mul(10) {
            Some(g) => g,
            None => {
                proof {
                    if fixed_grammar_ok(s@) {
                        assert(ext =~= scaled_digits(s@).take(ext.len() as int));
                    }
                    lemma_overflow_means_none(s@, ext, acc as int * 10);
                }
                return None;
            },
        };
        acc = grown;
        z = z + 1;
    }

    assert(ip + fp + zero_pad((8 - frac_len) as nat) =~= scaled_digits(s@));
    assert(fixed_grammar_ok(s@));
    Some(acc)
}

/// If some prefix of the scaled digit string is already past `u64::MAX`,
/// parsing must fail: either the grammar is broken, or the value is too
/// large. `ext` is a prefix of the scaled digits whose value is at least
/// `lo`.
proof fn lemma_overflow_means_none(s: Seq<char>, ext: Seq<char>, lo: int)
    requires
        all_digits(ext),
        digits_val(ext) >= lo,
        lo > u64::MAX,
        fixed_grammar_ok(s) ==> ext.len() <= scaled_digits(s).len(),
        fixed_grammar_ok(s) ==> ext =~= scaled_digits(s).take(ext.len() as int),
    ensures
        parse_fixed_spec(s) is None,
{
    if fixed_grammar_ok(s) {
        let sd = scaled_digits(s);
        let zp = zero_pad((8 - frac_part(s).len()) as nat);
        assert(all_digits(sd)) by {
            assert(forall|i: int| 0 <= i < zp.len() ==> is_digit(#[trigger] zp[i]));
        }
        assert(ext.len() <= sd.len());
        lemma_digits_val_prefix_le(sd, ext.len() as int);
    }
}

/// Parse as [`parse_fixed`], falling back to 0 where parsing fails, as
/// the book does for malformed numbers.
pub fn parse_fixed_or_zero(s: &str) -> (r: u64)
    ensures
        r == parse_fixed_spec_or_zero(s@),
{
    match parse_fixed(s) {
        Some(v) => v,
        None => 0,
    }
}

} // verus!
