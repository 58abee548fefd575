//! Q7.8 fixed-point decibel values, the unit in which Opus output gain and
//! R128 tags are expressed: `value` counts 1/256ths of a dB.
use vstd::prelude::*;

use crate::error::Error;

verus! {

/// A gain in Q7.8 fixed point: `value` is dB times 256.
#[derive(Clone, Copy, Debug, PartialEq, Eq, Structural)]
pub struct FixedPointGain {
    pub value: i16,
}

impl FixedPointGain {
    /// Wraps a raw Q7.8 value.
    pub fn from_fixed_point(value: i16) -> (r: FixedPointGain)
        ensures
            r.value == value,
    {
        FixedPointGain { value }
    }

    /// The raw Q7.8 value.
    pub fn as_fixed_point(&self) -> (r: i16)
        ensures
            r == self.value,
    {
        self.value
    }

    /// Whether this gain is exactly 0 dB.
    pub fn is_zero(&self) -> (r: bool)
        ensures
            r <==> self.value == 0,
    {
        self.value == 0
    }

    /// Checked addition: `None` exactly when the mathematical sum leaves
    /// the `i16` range.
    pub fn checked_add(&self, other: &FixedPointGain) -> (r: Option<FixedPointGain>)
        ensures
            i16::MIN <= self.value + other.value <= i16::MAX ==> r == Some(
                FixedPointGain { value: (self.value + other.value) as i16 },
            ),
            !(i16::MIN <= self.value + other.value <= i16::MAX) ==> r is None,
    {
        match self.value.checked_add(other.value) {
            Some(value) => Some(FixedPointGain { value }),
            None => None,
        }
    }

    /// Checked negation: `None` exactly for the one unrepresentable case,
    /// negating `i16::MIN`.
    pub fn checked_neg(&self) -> (r: Option<FixedPointGain>)
        ensures
            self.value != i16::MIN ==> r == Some(FixedPointGain { value: (-self.value) as i16 }),
            self.value == i16::MIN ==> r is None,
    {
        if self.value == i16::MIN {
            None
        } else {
            Some(FixedPointGain { value: -self.value })
        }
    }
}

impl Default for FixedPointGain {
    /// The zero gain (0 dB).
    fn default() -> (r: FixedPointGain)
        ensures
            r.value == 0,
    {
        FixedPointGain { value: 0 }
    }
}

/// The decimal digits of `n`, most significant first; empty for 0.
pub open spec fn spec_digits(n: nat) -> Seq<u8>
    decreases n,
{
    if n == 0 {
        Seq::empty()
    } else {
        spec_digits(n / 10) + seq![(48 + n % 10) as u8]
    }
}

/// The strict ASCII decimal form of `v`: a leading `-` for negatives, no
/// `+`, no leading zeros.
pub open spec fn spec_decimal(v: int) -> Seq<u8> {
    if v == 0 {
        seq![48u8]
    } else if v < 0 {
        seq![45u8] + spec_digits((-v) as nat)
    } else {
        spec_digits(v as nat)
    }
}

/// Whether `b` is an ASCII digit.
pub open spec fn is_digit(b: u8) -> bool {
    48 <= b <= 57
}

/// The value of a sequence of ASCII digits.
pub open spec fn spec_digits_val(d: Seq<u8>) -> nat
    decreases d.len(),
{
    if d.len() == 0 {
        0
    } else {
        spec_digits_val(d.drop_last()) * 10 + (d.last() - 48) as nat
    }
}

/// `s` with leading and trailing spaces removed.
pub open spec fn spec_trim_spaces(s: Seq<u8>) -> Seq<u8>
    decreases s.len(),
{
    if s.len() > 0 && s[0] == 32 {
        spec_trim_spaces(s.drop_first())
    } else if s.len() > 0 && s.last() == 32 {
        spec_trim_spaces(s.drop_last())
    } else {
        s
    }
}

/// Whether every byte of `d` is an ASCII digit.
pub open spec fn all_digits(d: Seq<u8>) -> bool {
    forall|i: int| 0 <= i < d.len() ==> is_digit(d[i])
}

/// The digit part of a trimmed decimal string: everything after one
/// optional leading `+` or `-`.
pub open spec fn spec_decimal_digits(t: Seq<u8>) -> Seq<u8> {
    if t.len() > 0 && (t[0] == 43 || t[0] == 45) {
        t.drop_first()
    } else {
        t
    }
}

/// Permissive reading of a decimal gain value: leading and trailing spaces
/// are trimmed, one leading `+` or `-` is accepted, then one or more
/// digits; `None` when malformed or outside the `i16` range.
pub open spec fn spec_parse_decimal(s: Seq<u8>) -> Option<int> {
    let t = spec_trim_spaces(s);
    let digits = spec_decimal_digits(t);
    let negative = t.len() > 0 && t[0] == 45;
    if digits.len() == 0 || !all_digits(digits) {
        None
    } else {
        let v = if negative {
            -(spec_digits_val(digits) as int)
        } else {
            spec_digits_val(digits) as int
        };
        if i16::MIN <= v <= i16::MAX {
            Some(v)
        } else {
            None
        }
    }
}

/// Ten to the `k`.
pub open spec fn pow10(k: nat) -> nat
    decreases k,
{
    if k == 0 {
        1
    } else {
        10 * pow10((k - 1) as nat)
    }
}

/// A digit string that does not start with `0` is at least ten to one less
/// than its length.
proof fn lemma_digits_val_lower(d: Seq<u8>)
    requires
        d.len() > 0,
        d[0] != 48,
        forall|i: int| 0 <= i < d.len() ==> is_digit(d[i]),
    ensures
        spec_digits_val(d) >= pow10((d.len() - 1) as nat),
    decreases d.len(),
{
    if d.len() == 1 {
    } else {
        lemma_digits_val_lower(d.drop_last());
    }
}

/// `pow10` grows with its argument.
proof fn lemma_pow10_mono(a: nat, b: nat)
    requires
        a <= b,
    ensures
        pow10(a) <= pow10(b),
    decreases b,
{
    if a < b {
        lemma_pow10_mono(a, (b - 1) as nat);
    }
}

/// The first few powers of ten.
proof fn lemma_pow10_small()
    ensures
        pow10(0) == 1,
        pow10(1) == 10,
        pow10(2) == 100,
        pow10(3) == 1000,
        pow10(4) == 10000,
        pow10(5) == 100000,
{
    assert(pow10(0) == 1);
    assert(pow10(1) == 10);
    assert(pow10(2) == 100);
    assert(pow10(3) == 1000);
    assert(pow10(4) == 10000);
    assert(pow10(5) == 100000);
}

/// A leading `0` does not change a digit string's value.
proof fn lemma_digits_val_leading_zero(d: Seq<u8>)
    ensures
        spec_digits_val(seq![48u8] + d) == spec_digits_val(d),
    decreases d.len(),
{
    if d.len() == 0 {
        assert(spec_digits_val(seq![48u8] + d) == spec_digits_val((seq![48u8]
            + d).drop_last()) * 10 + ((seq![48u8] + d).last() - 48) as nat);
        assert((seq![48u8] + d).drop_last() =~= Seq::<u8>::empty());
        assert((seq![48u8] + d).last() == 48);
    } else {
        lemma_digits_val_leading_zero(d.drop_last());
        assert((seq![48u8] + d).drop_last() =~= seq![48u8] + d.drop_last());
        assert((seq![48u8] + d).last() == d.last());
    }
}

/// How the exec trim loops relate to `spec_trim_spaces`: when everything
/// before `start` and from `end` on is a space and the range in between has
/// no space at either edge, the trim is exactly that range.
proof fn lemma_trim_range(s: Seq<u8>, start: int, end: int)
    requires
        0 <= start <= end <= s.len(),
        forall|j: int| 0 <= j < start ==> s[j] == 32,
        forall|j: int| end <= j < s.len() ==> s[j] == 32,
        start == end || (s[start] != 32 && s[end - 1] != 32),
    ensures
        spec_trim_spaces(s) == s.subrange(start, end),
    decreases s.len(),
{
    if s.len() > 0 && s[0] == 32 {
        if start == 0 {
            assert(end == 0);
            lemma_trim_range(s.drop_first(), 0, 0);
            assert(s.subrange(0, 0) =~= s.drop_first().subrange(0, 0));
        } else {
            lemma_trim_range(s.drop_first(), start - 1, end - 1);
            assert(s.drop_first().subrange(start - 1, end - 1) =~= s.subrange(start, end));
        }
    } else if s.len() > 0 && s.last() == 32 {
        assert(end < s.len());
        lemma_trim_range(s.drop_last(), start, end);
        assert(s.drop_last().subrange(start, end) =~= s.subrange(start, end));
    } else {
        assert(start == 0);
        assert(end == s.len());
        assert(s.subrange(0, s.len() as int) =~= s);
    }
}

impl FixedPointGain {
    /// The strict decimal form used when emitting R128 tags.
    pub fn to_decimal_bytes(&self) -> (r: Vec<u8>)
        ensures
            r@ == spec_decimal(self.value as int),
    {
        if self.value == 0 {
            let mut out: Vec<u8> = Vec::new();
            out.push(48);
            proof {
                assert(out@ =~= seq![48u8]);
            }
            return out;
        }
        let mut out: Vec<u8> = Vec::new();
        let negative = self.value < 0;
        if negative {
            out.push(45);
        }
        let ghost prefix = out@;
        let mut mag: u32 = if self.value < 0 {
            (-(self.value as i32)) as u32
        } else {
            self.value as u32
        };
        let ghost m0 = mag as nat;
        let mut rev: Vec<u8> = Vec::new();
        proof {
            assert(rev@.reverse() =~= Seq::<u8>::empty());
            assert(spec_digits(m0) + Seq::<u8>::empty() =~= spec_digits(m0));
        }
        while mag > 0
            invariant
                spec_digits(m0) == spec_digits(mag as nat) + rev@.reverse(),
            decreases mag,
        {
            let d: u8 = 48 + (mag % 10) as u8;
            let ghost prev_rev = rev@;
            rev.push(d);
            proof {
                assert(rev@.reverse() =~= seq![d] + prev_rev.reverse());
                assert(spec_digits(mag as nat) == spec_digits((mag as nat) / 10) + seq![d]);
                assert((mag / 10) as nat == (mag as nat) / 10);
                assert(spec_digits((mag as nat) / 10) + (seq![d] + prev_rev.reverse())
                    =~= spec_digits(mag as nat) + prev_rev.reverse());
            }
            mag = mag / 10;
        }
        proof {
            assert(spec_digits(0) =~= Seq::<u8>::empty());
            assert(Seq::<u8>::empty() + rev@.reverse() =~= rev@.reverse());
            assert(spec_digits(m0) == rev@.reverse());
        }
        let n = rev.len();
        let mut i: usize = 0;
        proof {
            assert(prefix + rev@.reverse().take(0) =~= prefix);
        }
        while i < n
            invariant
                i <= n,
                n == rev@.len(),
                out@ == prefix + rev@.reverse().take(i as int),
            decreases n - i,
        {
            out.push(rev[n - 1 - i]);
            proof {
                assert(rev@.reverse()[i as int] == rev@[n - 1 - i]);
                assert(prefix + rev@.reverse().take(i + 1) =~= (prefix + rev@.reverse().take(
                    i as int,
                )).push(rev@[n - 1 - i]));
            }
            i = i + 1;
        }
        proof {
            assert(rev@.reverse().take(n as int) =~= rev@.reverse());
            if self.value < 0 {
                assert(m0 == -(self.value as int));
                assert(out@ =~= seq![45u8] + spec_digits((-(self.value as int)) as nat));
            } else {
                assert(out@ =~= spec_digits(self.value as nat));
            }
        }
        out
    }

    /// Permissive reading of a decimal gain value, as found in R128 tags.
    pub fn parse_decimal_bytes(s: &Vec<u8>) -> (r: Option<FixedPointGain>)
        ensures
            match r {
                Some(g) => spec_parse_decimal(s@) == Some(g.value as int),
                None => spec_parse_decimal(s@) is None,
            },
    {
        let len = s.len();
        let mut start: usize = 0;
        while start < len && s[start] == 32
            invariant
                start <= len,
                len == s@.len(),
                forall|j: int| 0 <= j < start ==> s@[j] == 32,
            decreases len - start,
        {
            start = start + 1;
        }
        let mut end: usize = len;
        while end > start && s[end - 1] == 32
            invariant
                start <= end <= len,
                forall|j: int| end <= j < len ==> s@[j] == 32,
            decreases end,
        {
            end = end - 1;
        }
        let ghost t = spec_trim_spaces(s@);
        proof {
            lemma_trim_range(s@, start as int, end as int);
            assert(t == s@.subrange(start as int, end as int));
        }
        let mut negative = false;
        let mut dstart = start;
        if start < end && (s[start] == 43 || s[start] == 45) {
            negative = s[start] == 45;
            dstart = start + 1;
        }
        let ghost digits = spec_decimal_digits(t);
        proof {
            if start < end {
                assert(t[0] == s@[start as int]);
            }
            assert(negative == (t.len() > 0 && t[0] == 45));
            if dstart > start {
                assert(t.drop_first() =~= s@.subrange(dstart as int, end as int));
            }
            assert(digits == s@.subrange(dstart as int, end as int));
        }
        if dstart == end {
            proof {
                assert(digits.len() == 0);
            }
            return None;
        }
        let mut j = dstart;
        while j < end
            invariant
                dstart <= j <= end <= s@.len(),
                forall|k: int| dstart <= k < j ==> is_digit(s@[k]),
            decreases end - j,
        {
            let b = s[j];
            if b < 48 || b > 57 {
                proof {
                    assert(digits[j - dstart] == s@[j as int]);
                    assert(!is_digit(digits[j - dstart]));
                    assert(!all_digits(digits));
                }
                return None;
            }
            j = j + 1;
        }
        proof {
            assert forall|i: int| 0 <= i < digits.len() implies is_digit(digits[i]) by {
                assert(digits[i] == s@[dstart + i]);
            }
            assert(all_digits(digits));
        }
        let mut z = dstart;
        proof {
            assert(s@.subrange(z as int, end as int) == digits);
        }
        while z < end && s[z] == 48
            invariant
                dstart <= z <= end,
                end <= s@.len(),
                spec_digits_val(digits) == spec_digits_val(s@.subrange(z as int, end as int)),
            decreases end - z,
        {
            proof {
                assert(s@.subrange(z as int, end as int) =~= seq![48u8] + s@.subrange(
                    z as int + 1,
                    end as int,
                ));
                lemma_digits_val_leading_zero(s@.subrange(z as int + 1, end as int));
            }
            z = z + 1;
        }
        let ghost core = s@.subrange(z as int, end as int);
        proof {
            assert forall|i: int| 0 <= i < core.len() implies is_digit(core[i]) by {
                assert(core[i] == s@[z + i]);
            }
        }
        if end - z > 5 {
            proof {
                assert(core[0] == s@[z as int] && s@[z as int] != 48);
                lemma_digits_val_lower(core);
                lemma_pow10_mono(5, (core.len() - 1) as nat);
                lemma_pow10_small();
                assert(spec_digits_val(digits) >= 100000);
            }
            return None;
        }
        let mut acc: u32 = 0;
        let mut q = z;
        proof {
            assert(s@.subrange(z as int, z as int) =~= Seq::<u8>::empty());
            lemma_pow10_small();
        }
        while q < end
            invariant
                z <= q <= end <= s@.len(),
                end - z <= 5,
                forall|k: int| z <= k < end ==> is_digit(s@[k]),
                acc == spec_digits_val(s@.subrange(z as int, q as int)),
                acc < pow10((q - z) as nat),
            decreases end - q,
        {
            let b = s[q];
            proof {
                lemma_pow10_small();
                lemma_pow10_mono((q - z) as nat, 4);
            }
            acc = acc * 10 + (b - 48) as u32;
            proof {
                let sub = s@.subrange(z as int, q as int + 1);
                assert(sub.drop_last() =~= s@.subrange(z as int, q as int));
                assert(sub.last() == b);
            }
            q = q + 1;
        }
        proof {
            assert(s@.subrange(z as int, end as int) == core);
            assert(spec_digits_val(digits) == acc);
            lemma_pow10_small();
        }
        if negative {
            if acc > 32768 {
                return None;
            }
            let v: i16 = (-(acc as i32)) as i16;
            Some(FixedPointGain { value: v })
        } else {
            if acc > 32767 {
                return None;
            }
            Some(FixedPointGain { value: acc as i16 })
        }
    }
}

} // verus!