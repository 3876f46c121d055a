//! Exact non-negative decimal numbers: `mantissa / 10^scale`.
use vstd::prelude::*;
use vstd::string::StringExecFns;

verus! {

/// The largest scale whose power of ten still fits in a `u64`.
pub const MAX_SCALE: u32 = 19;

/// Ten to the power `n`.
pub open spec fn pow10(n: nat) -> nat
    decreases n,
{
    if n == 0 {
        1
    } else {
        10 * pow10((n - 1) as nat)
    }
}

/// Powers of ten grow with the exponent.
pub proof fn lemma_pow10_mono(i: nat, j: nat)
    requires
        i <= j,
    ensures
        1 <= pow10(i) <= pow10(j),
    decreases j,
{
    if i < j {
        lemma_pow10_mono(i, (j - 1) as nat);
    } else if i > 0 {
        lemma_pow10_mono(0, (i - 1) as nat);
    }
}

/// `10^n` as a machine integer.
pub fn pow10_u64(n: u32) -> (r: u64)
    requires
        n <= MAX_SCALE,
    ensures
        r == pow10(n as nat),
{
    proof {
        reveal_with_fuel(pow10, 20);
        assert(pow10(MAX_SCALE as nat) == 10000000000000000000);
    }
    let mut r: u64 = 1;
    let mut i: u32 = 0;
    while i < n
        invariant
            i <= n <= MAX_SCALE,
            r == pow10(i as nat),
            pow10(MAX_SCALE as nat) == 10000000000000000000,
        decreases n - i,
    {
        proof {
            lemma_pow10_mono((i + 1) as nat, MAX_SCALE as nat);
        }
        r = r * 10;
        i = i + 1;
    }
    r
}

/// A non-negative decimal number, worth `mantissa / 10^scale`.
///
/// Two decimals with the same worth but different scales (`1.5` and `1.50`)
/// are different values; arithmetic keeps every digit and never rounds.
#[derive(Clone, Copy, Debug, PartialEq, Eq, Structural)]
pub struct Decimal {
    pub mantissa: u64,
    pub scale: u32,
}

/// The mantissa of `d` written at the finer scale `s`.
pub open spec fn aligned(d: Decimal, s: nat) -> int {
    d.mantissa * pow10((s - d.scale) as nat)
}

pub open spec fn max_scale(a: Decimal, b: Decimal) -> nat {
    if a.scale >= b.scale {
        a.scale as nat
    } else {
        b.scale as nat
    }
}

/// The exact sum, written at the finer of the two scales.
pub open spec fn sum(a: Decimal, b: Decimal) -> Decimal {
    Decimal {
        mantissa: (aligned(a, max_scale(a, b)) + aligned(b, max_scale(a, b))) as u64,
        scale: max_scale(a, b) as u32,
    }
}

/// Whether `sum(a, b)` can be held without overflow.
pub open spec fn can_add(a: Decimal, b: Decimal) -> bool {
    &&& max_scale(a, b) <= MAX_SCALE
    &&& aligned(a, max_scale(a, b)) + aligned(b, max_scale(a, b)) <= u64::MAX
}

/// `p` percent of `a`, exactly: the mantissas multiply and the scales add,
/// with two more places for the division by a hundred.
pub open spec fn percent(a: Decimal, p: Decimal) -> Decimal {
    Decimal { mantissa: (a.mantissa * p.mantissa) as u64, scale: (a.scale + p.scale + 2) as u32 }
}

/// Whether `percent(a, p)` can be held without overflow.
pub open spec fn can_take_percent(a: Decimal, p: Decimal) -> bool {
    &&& a.scale + p.scale + 2 <= MAX_SCALE
    &&& a.mantissa * p.mantissa <= u64::MAX
}

impl Decimal {
    /// The decimal `mantissa / 10^scale`.
    pub fn new(mantissa: u64, scale: u32) -> (r: Decimal)
        ensures
            r.mantissa == mantissa,
            r.scale == scale,
    {
        Decimal { mantissa, scale }
    }

    /// The whole number `n`.
    pub fn from_int(n: u64) -> (r: Decimal)
        ensures
            r.mantissa == n,
            r.scale == 0,
    {
        Decimal { mantissa: n, scale: 0 }
    }

    /// The exact sum of `self` and `other`.
    pub fn add(&self, other: &Decimal) -> (r: Decimal)
        requires
            can_add(*self, *other),
        ensures
            r == sum(*self, *other),
    {
        let s = if self.scale >= other.scale {
            self.scale
        } else {
            other.scale
        };
        let x = self.mantissa * pow10_u64(s - self.scale);
        let y = other.mantissa * pow10_u64(s - other.scale);
        Decimal { mantissa: x + y, scale: s }
    }

    /// `percentage` percent of `self`, exactly.
    pub fn percent_of(&self, percentage: &Decimal) -> (r: Decimal)
        requires
            can_take_percent(*self, *percentage),
        ensures
            r == percent(*self, *percentage),
    {
        Decimal { mantissa: self.mantissa * percentage.mantissa, scale: self.scale + percentage.scale + 2 }
    }
}

/// The character of the decimal digit `d`.
pub open spec fn digit_char(d: nat) -> char {
    if d == 0 {
        '0'
    } else if d == 1 {
        '1'
    } else if d == 2 {
        '2'
    } else if d == 3 {
        '3'
    } else if d == 4 {
        '4'
    } else if d == 5 {
        '5'
    } else if d == 6 {
        '6'
    } else if d == 7 {
        '7'
    } else if d == 8 {
        '8'
    } else {
        '9'
    }
}

/// The digits of `n` in base ten, without leading zeros (`0` is `"0"`).
pub open spec fn digits(n: nat) -> Seq<char>
    decreases n,
{
    if n < 10 {
        seq![digit_char(n)]
    } else {
        digits(n / 10).push(digit_char(n % 10))
    }
}

/// The last `k` digits of `n` in base ten, leading zeros included.
pub open spec fn padded_digits(n: nat, k: nat) -> Seq<char>
    decreases k,
{
    if k == 0 {
        Seq::empty()
    } else {
        padded_digits(n / 10, (k - 1) as nat).push(digit_char(n % 10))
    }
}

/// The same number with the trailing zeros of its fraction dropped.
pub open spec fn trimmed(d: Decimal) -> Decimal
    decreases d.scale,
{
    if d.scale > 0 && d.mantissa % 10 == 0 {
        trimmed(Decimal { mantissa: d.mantissa / 10, scale: (d.scale - 1) as u32 })
    } else {
        d
    }
}

/// How a decimal reads: its whole part, then, where a fraction is left once
/// trailing zeros are dropped, a point and the fraction's digits
/// (`15.0` reads `15`, `0.250` reads `0.25`).
pub open spec fn text(d: Decimal) -> Seq<char> {
    let t = trimmed(d);
    if t.scale == 0 {
        digits(t.mantissa as nat)
    } else {
        digits(t.mantissa as nat / pow10(t.scale as nat)) + seq!['.'] + padded_digits(
            t.mantissa as nat % pow10(t.scale as nat),
            t.scale as nat,
        )
    }
}

fn digit_str(d: u64) -> (r: &'static str)
    requires
        d < 10,
    ensures
        r@ == seq![digit_char(d as nat)],
{
    if d == 0 {
        proof { reveal_strlit("0"); }
        "0"
    } else if d == 1 {
        proof { reveal_strlit("1"); }
        "1"
    } else if d == 2 {
        proof { reveal_strlit("2"); }
        "2"
    } else if d == 3 {
        proof { reveal_strlit("3"); }
        "3"
    } else if d == 4 {
        proof { reveal_strlit("4"); }
        "4"
    } else if d == 5 {
        proof { reveal_strlit("5"); }
        "5"
    } else if d == 6 {
        proof { reveal_strlit("6"); }
        "6"
    } else if d == 7 {
        proof { reveal_strlit("7"); }
        "7"
    } else if d == 8 {
        proof { reveal_strlit("8"); }
        "8"
    } else {
        proof { reveal_strlit("9"); }
        "9"
    }
}

/// Appends the digits of `n` to `out`.
fn push_digits(out: &mut String, n: u64)
    ensures
        final(out)@ == old(out)@ + digits(n as nat),
    decreases n,
{
    if n >= 10 {
        push_digits(out, n / 10);
    }
    out.append(digit_str(n % 10));
    assert(final(out)@ =~= old(out)@ + digits(n as nat));
}

/// Appends the last `k` digits of `n`, leading zeros included, to `out`.
fn push_padded_digits(out: &mut String, n: u64, k: u32)
    ensures
        final(out)@ == old(out)@ + padded_digits(n as nat, k as nat),
    decreases k,
{
    if k > 0 {
        push_padded_digits(out, n / 10, k - 1);
        out.append(digit_str(n % 10));
        assert(final(out)@ =~= old(out)@ + padded_digits(n as nat, k as nat));
    } else {
        assert(final(out)@ =~= old(out)@ + padded_digits(n as nat, k as nat));
    }
}

impl Decimal {
    /// The number as it reads, trailing zeros of the fraction dropped.
    pub fn to_text(&self) -> (r: String)
        requires
            self.scale <= MAX_SCALE,
        ensures
            r@ == text(*self),
    {
        let mut m = self.mantissa;
        let mut s = self.scale;
        while s > 0 && m % 10 == 0
            invariant
                s <= self.scale,
                trimmed(Decimal { mantissa: m, scale: s }) == trimmed(*self),
            decreases s,
        {
            m = m / 10;
            s = s - 1;
        }
        let mut out = String::new();
        if s == 0 {
            push_digits(&mut out, m);
        } else {
            let p = pow10_u64(s);
            proof { lemma_pow10_mono(0, s as nat); }
            push_digits(&mut out, m / p);
            proof { reveal_strlit("."); }
            out.append(".");
            push_padded_digits(&mut out, m % p, s);
        }
        proof {
            assert(trimmed(Decimal { mantissa: m, scale: s }) == Decimal { mantissa: m, scale: s });
        }
        assert(out@ =~= text(*self));
        out
    }
}

} // verus!
