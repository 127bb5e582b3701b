//! Monetary amounts as fixed-point numbers with four fractional digits.
//!
//! An `Amount` stores a whole number of minor units, where one currency
//! unit is `SCALE` (10000) minor units. All balance arithmetic in the
//! engine is exact integer arithmetic on minor units.

use vstd::prelude::*;
use vstd::string::StrSliceExecFns;

verus! {

/// Minor units in one currency unit: amounts carry four decimal places.
pub const SCALE: i64 = 10000;

/// A monetary amount, stored as a signed count of minor units
/// (ten-thousandths of a currency unit).
#[derive(Clone, Copy, Debug, PartialEq, Eq, Structural)]
pub struct Amount {
    pub minor: i64,
}

impl View for Amount {
    type V = int;

    open spec fn view(&self) -> int {
        self.minor as int
    }
}

impl Amount {
    /// The amount of `minor` minor units (ten-thousandths of a unit).
    pub fn from_minor(minor: i64) -> (r: Amount)
        ensures
            r@ == minor as int,
    {
        Amount { minor }
    }

    /// The amount of `units` whole currency units.
    pub fn from_units(units: i64) -> (r: Amount)
        requires
            units * SCALE as int <= i64::MAX,
            units * SCALE as int >= i64::MIN,
        ensures
            r@ == units * SCALE as int,
    {
        Amount { minor: units * SCALE }
    }

    /// The zero amount.
    pub fn zero() -> (r: Amount)
        ensures
            r@ == 0,
    {
        Amount { minor: 0 }
    }
}

/// Whether `c` is a decimal digit.
pub open spec fn is_digit(c: char) -> bool {
    48 <= c as u32 <= 57
}

/// The value of the digit `c`.
pub open spec fn digit_val(c: char) -> int {
    c as u32 - 48
}

/// Whether every character of `s` is a decimal digit.
pub open spec fn all_digits(s: Seq<char>) -> bool {
    forall|i: int| 0 <= i < s.len() ==> is_digit(#[trigger] s[i])
}

/// The number a sequence of decimal digits denotes, most significant
/// first; the empty sequence denotes zero.
pub open spec fn digits_val(s: Seq<char>) -> int
    decreases s.len(),
{
    if s.len() == 0 {
        0
    } else {
        digits_val(s.drop_last()) * 10 + digit_val(s.last())
    }
}

/// Ten to the `k`th power.
pub open spec fn pow10(k: nat) -> int
    decreases k,
{
    if k == 0 {
        1
    } else {
        10 * pow10((k - 1) as nat)
    }
}

/// The index of the first decimal point of `s`, or `s.len()` when there
/// is none.
pub open spec fn first_dot(s: Seq<char>) -> int
    decreases s.len(),
{
    if s.len() == 0 {
        0
    } else if s[0] == '.' {
        0
    } else {
        1 + first_dot(s.subrange(1, s.len() as int))
    }
}

/// The digits before the first decimal point of `s`.
pub open spec fn int_part(s: Seq<char>) -> Seq<char> {
    s.subrange(0, first_dot(s))
}

/// The digits after the first decimal point of `s`; empty when there is
/// no point.
pub open spec fn frac_part(s: Seq<char>) -> Seq<char> {
    if first_dot(s) == s.len() {
        Seq::empty()
    } else {
        s.subrange(first_dot(s) + 1, s.len() as int)
    }
}

/// The written form of an unsigned amount: digits, at most one decimal
/// point, at least one digit in all, at most fourteen digits before the
/// point and at most four after it.
pub open spec fn valid_magnitude(s: Seq<char>) -> bool {
    &&& all_digits(int_part(s))
    &&& all_digits(frac_part(s))
    &&& int_part(s).len() <= 14
    &&& frac_part(s).len() <= 4
    &&& int_part(s).len() + frac_part(s).len() >= 1
}

/// The number of minor units a valid magnitude denotes: its integer part
/// in whole units plus its fraction, scaled to four decimal places.
pub open spec fn magnitude_value(s: Seq<char>) -> int {
    digits_val(int_part(s)) * 10000 + digits_val(frac_part(s)) * pow10(
        (4 - frac_part(s).len()) as nat,
    )
}

/// What a written amount denotes: an optional leading minus sign, then a
/// valid magnitude. `None` when the text is not of that form.
pub open spec fn spec_parse_amount(s: Seq<char>) -> Option<int> {
    if s.len() > 0 && s[0] == '-' {
        let t = s.subrange(1, s.len() as int);
        if valid_magnitude(t) {
            Some(-magnitude_value(t))
        } else {
            None
        }
    } else {
        if valid_magnitude(s) {
            Some(magnitude_value(s))
        } else {
            None
        }
    }
}

proof fn lemma_first_dot_bounds(s: Seq<char>)
    ensures
        0 <= first_dot(s) <= s.len(),
        first_dot(s) < s.len() ==> s[first_dot(s)] == '.',
        forall|i: int| 0 <= i < first_dot(s) ==> s[i] != '.',
    decreases s.len(),
{
    if s.len() > 0 && s[0] != '.' {
        let t = s.subrange(1, s.len() as int);
        lemma_first_dot_bounds(t);
        assert forall|i: int| 0 <= i < first_dot(s) implies s[i] != '.' by {
            if i >= 1 {
                assert(t[i - 1] != '.');
            }
        }
    }
}

/// The first dot is where scanning finds it: if nothing before `j` is a
/// dot, and `j` is a dot or the end, then `j` is the first dot.
proof fn lemma_first_dot_at(s: Seq<char>, j: int)
    requires
        0 <= j <= s.len(),
        forall|i: int| 0 <= i < j ==> s[i] != '.',
        j < s.len() ==> s[j] == '.',
    ensures
        first_dot(s) == j,
    decreases s.len(),
{
    if s.len() > 0 && s[0] != '.' {
        let t = s.subrange(1, s.len() as int);
        assert(forall|i: int| 0 <= i < j - 1 ==> t[i] == s[i + 1]);
        lemma_first_dot_at(t, j - 1);
    }
}

proof fn lemma_pow10_mono(a: nat, b: nat)
    requires
        a <= b,
    ensures
        1 <= pow10(a) <= pow10(b),
    decreases b,
{
    if a == 0 {
        if b > 0 {
            lemma_pow10_mono(0, (b - 1) as nat);
        }
    } else {
        lemma_pow10_mono((a - 1) as nat, (b - 1) as nat);
    }
}

proof fn lemma_pow10_values()
    ensures
        pow10(0) == 1,
        pow10(1) == 10,
        pow10(2) == 100,
        pow10(3) == 1000,
        pow10(4) == 10000,
        pow10(14) == 100000000000000,
{
    assert(pow10(0) == 1);
    assert(pow10(1) == 10);
    assert(pow10(2) == 100);
    assert(pow10(3) == 1000);
    assert(pow10(4) == 10000);
    assert(pow10(5) == 100000);
    assert(pow10(6) == 1000000);
    assert(pow10(7) == 10000000);
    assert(pow10(8) == 100000000);
    assert(pow10(9) == 1000000000);
    assert(pow10(10) == 10000000000);
    assert(pow10(11) == 100000000000);
    assert(pow10(12) == 1000000000000);
    assert(pow10(13) == 10000000000000);
    assert(pow10(14) == 100000000000000);
}

/// Appending one digit multiplies the value by ten and adds the digit.
proof fn lemma_digits_val_step(s: Seq<char>, k: int)
    requires
        0 <= k < s.len(),
    ensures
        digits_val(s.subrange(0, k + 1)) == digits_val(s.subrange(0, k)) * 10 + digit_val(s[k]),
{
    assert(s.subrange(0, k + 1).drop_last() =~= s.subrange(0, k));
    assert(s.subrange(0, k + 1).last() == s[k]);
}

/// Reads a written amount: an optional minus sign, then digits with at
/// most one decimal point, at most fourteen digits before it and four
/// after it, and at least one digit in all. Returns the amount the text
/// denotes, in minor units, or `None` when the text is not of that form.
pub fn parse_amount(s: &str) -> (r: Option<Amount>)
    ensures
        match r {
            Some(a) => spec_parse_amount(s@) == Some(a@),
            None => spec_parse_amount(s@) is None,
        },
{
    let n = s.unicode_len();
    let neg = n > 0 && s.get_char(0) == '-';
    let off: usize = if neg {
        1
    } else {
        0
    };
    let ghost t = if neg {
        s@.subrange(1, s@.len() as int)
    } else {
        s@
    };
    proof {
        assert(t.len() == n - off);
        assert(forall|i: int| 0 <= i < t.len() ==> t[i] == s@[i + off]);
        lemma_first_dot_bounds(t);
        lemma_pow10_values();
    }

    // Find the decimal point, if any.
    let mut dp: usize = off;
    while dp < n && s.get_char(dp) != '.'
        invariant
            off <= dp <= n,
            n == s@.len(),
            off == 1 ==> n >= 1,
            forall|i: int| off <= i < dp ==> s@[i] != '.',
        decreases n - dp,
    {
        dp += 1;
    }
    proof {
        assert(forall|i: int| 0 <= i < dp - off ==> t[i] != '.');
        lemma_first_dot_at(t, dp - off);
    }

    if dp - off > 14 {
        // Too many digits before the point (or a stray character among
        // them, which the scan below would also catch).
        return None;
    }
    let fl: usize = if dp < n {
        n - dp - 1
    } else {
        0
    };
    if fl > 4 {
        return None;
    }
    if dp - off == 0 && fl == 0 {
        // No digits at all.
        return None;
    }

    // Read the digits before the point.
    let mut ipv: i64 = 0;
    let mut k: usize = off;
    while k < dp
        invariant
            off <= k <= dp <= n,
            dp - off <= 14,
            n == s@.len(),
            t.len() == n - off,
            neg == (s@.len() > 0 && s@[0] == '-'),
            off == (if neg { 1usize } else { 0usize }),
            t == (if neg { s@.subrange(1, s@.len() as int) } else { s@ }),
            forall|i: int| 0 <= i < t.len() ==> t[i] == s@[i + off],
            first_dot(t) == dp - off,
            all_digits(t.subrange(0, k - off)),
            ipv == digits_val(t.subrange(0, k - off)),
            0 <= ipv < pow10((k - off) as nat),
        decreases dp - k,
    {
        let c = s.get_char(k);
        let d = c as u32;
        if d < 48 || d > 57 {
            proof {
                lemma_first_dot_bounds(t);
                assert(int_part(t)[k - off] == t[k - off]);
                assert(!is_digit(t[k - off]));
            }
            return None;
        }
        proof {
            lemma_first_dot_bounds(t);
            lemma_pow10_values();
            lemma_pow10_mono(((k - off) + 1) as nat, 14);
            lemma_digits_val_step(t, (k - off) as int);
            assert(t.subrange(0, k - off + 1).drop_last() =~= t.subrange(0, k - off));
            assert(all_digits(t.subrange(0, k - off + 1)));
        }
        ipv = ipv * 10 + ((d - 48) as i64);
        k += 1;
    }

    // Read the digits after the point.
    let mut fv: i64 = 0;
    if dp < n {
        let mut j: usize = dp + 1;
        while j < n
            invariant
                dp + 1 <= j <= n,
                off <= dp < n,
                n - dp - 1 <= 4,
                n == s@.len(),
                t.len() == n - off,
                neg == (s@.len() > 0 && s@[0] == '-'),
                off == (if neg { 1usize } else { 0usize }),
                t == (if neg { s@.subrange(1, s@.len() as int) } else { s@ }),
                forall|i: int| 0 <= i < t.len() ==> t[i] == s@[i + off],
                first_dot(t) == dp - off,
                all_digits(t.subrange(dp - off + 1, (j - off) as int)),
                fv == digits_val(t.subrange(dp - off + 1, (j - off) as int)),
                0 <= fv < pow10((j - dp - 1) as nat),
            decreases n - j,
        {
            let c = s.get_char(j);
            let d = c as u32;
            if d < 48 || d > 57 {
                proof {
                    lemma_first_dot_bounds(t);
                    assert(frac_part(t)[j - off - (dp - off) - 1] == t[j - off]);
                    assert(!is_digit(t[j - off]));
                }
                return None;
            }
            proof {
                lemma_first_dot_bounds(t);
                lemma_pow10_values();
                lemma_pow10_mono(((j - dp - 1) + 1) as nat, 4);
                let lo = dp - off + 1;
                assert(t.subrange(lo, j - off + 1).drop_last() =~= t.subrange(lo, (j - off) as int));
                assert(t.subrange(lo, j - off + 1).last() == t[j - off]);
                assert(all_digits(t.subrange(lo, j - off + 1)));
            }
            fv = fv * 10 + ((d - 48) as i64);
            j += 1;
        }
    }

    // Scale the fraction to four decimal places.
    let scale: i64 = if fl == 0 {
        10000
    } else if fl == 1 {
        1000
    } else if fl == 2 {
        100
    } else if fl == 3 {
        10
    } else {
        1
    };
    proof {
        lemma_first_dot_bounds(t);
        lemma_pow10_values();
        lemma_pow10_mono((dp - off) as nat, 14);
        assert(int_part(t) =~= t.subrange(0, dp - off));
        if dp < n {
            assert(frac_part(t) =~= t.subrange(dp - off + 1, t.len() as int));
        } else {
            assert(frac_part(t) =~= Seq::<char>::empty());
            assert(fv == digits_val(frac_part(t)));
        }
        assert(valid_magnitude(t));
        assert(scale == pow10((4 - fl) as nat));
        assert(ipv <= 99999999999999);
        if fl == 0 {
            assert(fv == 0);
        } else if fl == 1 {
            assert(fv <= 9);
        } else if fl == 2 {
            assert(fv <= 99);
        } else if fl == 3 {
            assert(fv <= 999);
        } else {
            assert(fv <= 9999);
        }
        assert(fv * scale <= 10000);
    }
    let minor = ipv * 10000 + fv * scale;
    proof {
        assert(minor == magnitude_value(t));
    }
    if neg {
        Some(Amount { minor: -minor })
    } else {
        Some(Amount { minor })
    }
}

} // verus!
