//! Progress of a task as a pair of counters, and its rendering as a percentage.

use vstd::prelude::*;
use vstd::string::StringExecFns;

verus! {

/// `value` units done out of `total`.
#[derive(Clone, Copy, Debug, PartialEq, Eq, Structural)]
pub struct Progress {
    pub value: u64,
    pub total: u64,
}

/// A progress shown as a percentage.
#[derive(Clone, Copy, Debug, PartialEq, Eq, Structural)]
pub struct Percent(pub Progress);

/// `10` to the power `p`.
pub open spec fn pow10(p: nat) -> nat
    decreases p,
{
    if p == 0 {
        1
    } else {
        10 * pow10((p - 1) as nat)
    }
}

/// `num / den` rounded to the nearest integer, halves going to the even neighbour.
pub open spec fn rounded_ratio(num: int, den: int) -> int {
    let q = num / den;
    let r = num % den;
    if 2 * r > den || (2 * r == den && q % 2 == 1) {
        q + 1
    } else {
        q
    }
}

/// The percentage of `p` in units of `10^-precision` percent, rounded to the nearest; a
/// progress with a total of zero counts as complete.
pub open spec fn scaled_percent(p: Progress, precision: nat) -> int {
    if p.total == 0 {
        100 * pow10(precision) as int
    } else {
        rounded_ratio(100 * p.value * pow10(precision) as int, p.total as int)
    }
}

/// The character of decimal digit `d`.
pub open spec fn digit_char(d: int) -> char {
    if d == 0 {
        '0'
    } else if d == 1 {
        '1'
    } else if d == 2 {
        '2'
    } else if d == 3 {
        '3'
    } else if d == 4 {
        '4'
    } else if d == 5 {
        '5'
    } else if d == 6 {
        '6'
    } else if d == 7 {
        '7'
    } else if d == 8 {
        '8'
    } else {
        '9'
    }
}

/// Decimal digits of `n`, without leading zeros.
pub open spec fn decimal_digits(n: nat) -> Seq<char>
    decreases n,
{
    if n < 10 {
        seq![digit_char(n as int)]
    } else {
        decimal_digits(n / 10).push(digit_char((n % 10) as int))
    }
}

/// The last `width` decimal digits of `n`, with leading zeros.
pub open spec fn padded_digits(n: nat, width: nat) -> Seq<char>
    decreases width,
{
    if width == 0 {
        Seq::empty()
    } else {
        padded_digits(n / 10, (width - 1) as nat).push(digit_char((n % 10) as int))
    }
}

/// Text of a percentage with `precision` digits after the point, followed by `%`.
pub open spec fn percent_text(p: Progress, precision: nat) -> Seq<char> {
    let s = scaled_percent(p, precision) as nat;
    if precision == 0 {
        decimal_digits(s) + seq!['%']
    } else {
        decimal_digits(s / pow10(precision)) + seq!['.'] + padded_digits(
            s % pow10(precision),
            precision,
        ) + seq!['%']
    }
}

fn digit_str(d: u128) -> (r: &'static str)
    requires
        d < 10,
    ensures
        r@ == seq![digit_char(d as int)],
{
    proof {
        reveal_strlit("0");
        reveal_strlit("1");
        reveal_strlit("2");
        reveal_strlit("3");
        reveal_strlit("4");
        reveal_strlit("5");
        reveal_strlit("6");
        reveal_strlit("7");
        reveal_strlit("8");
        reveal_strlit("9");
    }
    if d == 0 {
        "0"
    } else if d == 1 {
        "1"
    } else if d == 2 {
        "2"
    } else if d == 3 {
        "3"
    } else if d == 4 {
        "4"
    } else if d == 5 {
        "5"
    } else if d == 6 {
        "6"
    } else if d == 7 {
        "7"
    } else if d == 8 {
        "8"
    } else {
        "9"
    }
}

fn push_decimal(s: &mut String, n: u128)
    ensures
        final(s)@ == old(s)@ + decimal_digits(n as nat),
    decreases n,
{
    if n < 10 {
        s.append(digit_str(n));
    } else {
        push_decimal(s, n / 10);
        s.append(digit_str(n % 10));
    }
    assert(final(s)@ =~= old(s)@ + decimal_digits(n as nat));
}

fn push_padded(s: &mut String, n: u128, width: usize)
    ensures
        final(s)@ == old(s)@ + padded_digits(n as nat, width as nat),
    decreases width,
{
    if width == 0 {
        assert(s@ =~= old(s)@ + padded_digits(n as nat, width as nat));
    } else {
        push_padded(s, n / 10, width - 1);
        s.append(digit_str(n % 10));
        assert(s@ =~= old(s)@ + padded_digits(n as nat, width as nat));
    }
}

fn pow10_exec(p: usize) -> (r: u128)
    requires
        p <= 17,
    ensures
        r == pow10(p as nat),
    decreases p,
{
    if p == 0 {
        1
    } else {
        let q = pow10_exec(p - 1);
        proof {
            lemma_pow10_small(p as nat);
        }
        10 * q
    }
}

proof fn lemma_pow10_monotonic(p: nat, q: nat)
    requires
        p <= q,
    ensures
        1 <= pow10(p) <= pow10(q),
    decreases q,
{
    if q > p {
        lemma_pow10_monotonic(p, (q - 1) as nat);
    } else if p > 0 {
        lemma_pow10_monotonic((p - 1) as nat, (p - 1) as nat);
    }
}

/// Powers of ten up to the seventeenth fit in 57 bits.
proof fn lemma_pow10_small(p: nat)
    requires
        p <= 17,
    ensures
        1 <= pow10(p) <= 100_000_000_000_000_000,
{
    lemma_pow10_monotonic(p, 17);
    reveal_with_fuel(pow10, 18);
}

impl Progress {
    /// This progress shown as a percentage.
    pub fn percent(self) -> (r: Percent)
        ensures
            r.0 == self,
    {
        Percent(self)
    }

    /// Both counters multiplied by `rhs`.
    pub fn mul(self, rhs: u64) -> (r: Progress)
        requires
            self.value * rhs <= u64::MAX,
            self.total * rhs <= u64::MAX,
        ensures
            r.value == self.value * rhs,
            r.total == self.total * rhs,
    {
        Progress { value: self.value * rhs, total: self.total * rhs }
    }

    /// Both counters divided by `rhs`, rounding down.
    pub fn div(self, rhs: u64) -> (r: Progress)
        requires
            rhs != 0,
        ensures
            r.value == self.value / rhs,
            r.total == self.total / rhs,
    {
        Progress { value: self.value / rhs, total: self.total / rhs }
    }

    /// The progress as `value/total`.
    pub fn to_text(&self) -> (r: String)
        ensures
            r@ == decimal_digits(self.value as nat) + seq!['/'] + decimal_digits(
                self.total as nat,
            ),
    {
        let mut s = String::new();
        push_decimal(&mut s, self.value as u128);
        proof {
            reveal_strlit("/");
        }
        s.append("/");
        push_decimal(&mut s, self.total as u128);
        s
    }
}

impl Percent {
    /// The percentage with `precision` digits after the point, rounded to the nearest (halves
    /// to even), followed by `%`. A total of zero shows as complete.
    pub fn format(&self, precision: usize) -> (r: String)
        requires
            precision <= 17,
        ensures
            r@ == percent_text(self.0, precision as nat),
    {
        let p = self.0;
        let scale = pow10_exec(precision);
        proof {
            lemma_pow10_small(precision as nat);
        }
        let scaled: u128 = if p.total == 0 {
            100 * scale
        } else {
            proof {
                let v = p.value as int;
                let sc = scale as int;
                assert(v * 100 * sc <= 0xFFFF_FFFF_FFFF_FFFFint * 100 * 100_000_000_000_000_000)
                    by (nonlinear_arith)
                    requires
                        0 <= v <= 0xFFFF_FFFF_FFFF_FFFFint,
                        0 <= sc <= 100_000_000_000_000_000,
                ;
            }
            let num: u128 = (p.value as u128) * 100 * scale;
            let den = p.total as u128;
            let q = num / den;
            let r = num % den;
            proof {
                assert(q <= num) by (nonlinear_arith)
                    requires
                        den >= 1,
                        q == num / den,
                ;
            }
            if 2 * r > den || (2 * r == den && q % 2 == 1) {
                q + 1
            } else {
                q
            }
        };
        let mut s = String::new();
        proof {
            reveal_strlit("%");
            reveal_strlit(".");
        }
        if precision == 0 {
            push_decimal(&mut s, scaled);
            s.append("%");
        } else {
            push_decimal(&mut s, scaled / scale);
            s.append(".");
            push_padded(&mut s, scaled % scale, precision);
            s.append("%");
        }
        s
    }
}

} // verus!
