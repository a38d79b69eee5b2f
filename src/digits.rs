//! Positional rendering of numbers, most significant digit first, with no
//! leading zeros. Digits are produced one at a time by a divisor that starts
//! at the largest power of the base not exceeding the value.

use vstd::prelude::*;
use vstd::arithmetic::div_mod::{
    lemma_div_multiples_vanish,
    lemma_div_denominator,
    lemma_mod_mod,
    lemma_mod_breakdown,
    lemma_div_multiples_vanish_fancy,
};

verus! {

/// `b` raised to `e`.
pub open spec fn power(b: nat, e: nat) -> nat
    decreases e,
{
    if e == 0 {
        1
    } else {
        b * power(b, (e - 1) as nat)
    }
}

/// The character of a digit below sixteen: `0-9`, then lowercase `a-f`.
pub open spec fn digit_char(d: nat) -> u8 {
    if d < 10 {
        (48 + d) as u8
    } else {
        (97 + d - 10) as u8
    }
}

/// The digits of `n` in base `b`, most significant first, without leading
/// zeros (`0` is the single digit `0`).
pub open spec fn digits(n: nat, b: nat) -> Seq<u8>
    decreases n via digits_decreases
{
    if b < 2 || n < b {
        seq![digit_char(n)]
    } else {
        digits(n / b, b).push(digit_char(n % b))
    }
}

#[via_fn]
proof fn digits_decreases(n: nat, b: nat) {
    if !(b < 2 || n < b) {
        assert(n / b < n) by (nonlinear_arith)
            requires
                b >= 2,
                n >= b,
        ;
    }
}

/// The `w` lowest digits of `n` in base `b`, most significant first, as a
/// divisor-driven scan produces them.
pub open spec fn lead(n: nat, b: nat, w: nat) -> Seq<u8>
    decreases w,
{
    if w == 0 {
        Seq::empty()
    } else {
        seq![digit_char(n / power(b, (w - 1) as nat))] + lead(
            n % power(b, (w - 1) as nat),
            b,
            (w - 1) as nat,
        )
    }
}

pub proof fn lemma_power_positive(b: nat, e: nat)
    requires
        b >= 1,
    ensures
        power(b, e) >= 1,
    decreases e,
{
    if e > 0 {
        lemma_power_positive(b, (e - 1) as nat);
        assert(b * power(b, (e - 1) as nat) >= 1) by (nonlinear_arith)
            requires
                b >= 1,
                power(b, (e - 1) as nat) >= 1,
        ;
    }
}

proof fn lemma_power_one(b: nat)
    ensures
        power(b, 0) == 1,
        power(b, 1) == b,
{
    reveal_with_fuel(power, 2);
}

/// Dropping the last digit of a scan of width `w` leaves the scan of `n / b`
/// of width `w - 1`.
proof fn lemma_lead_push(n: nat, b: nat, w: nat)
    requires
        b >= 2,
        w >= 1,
        n < power(b, w),
    ensures
        lead(n, b, w) == lead(n / b, b, (w - 1) as nat).push(digit_char(n % b)),
    decreases w,
{
    if w == 1 {
        lemma_power_one(b);
        assert(n / 1 == n);
        assert(n % 1 == 0);
        assert(n % b == n) by (nonlinear_arith)
            requires
                n < b,
        ;
        assert(lead(n, b, 1) == seq![digit_char(n)] + lead(0, b, 0));
        assert(lead(n, b, 1) =~= lead(n / b, b, 0).push(digit_char(n % b)));
    } else {
        let p = power(b, (w - 2) as nat);
        let q = power(b, (w - 1) as nat);
        lemma_power_positive(b, (w - 2) as nat);
        assert(q == b * p);
        let m = n % q;
        assert(m < q) by (nonlinear_arith)
            requires
                q >= 1,
                m == n % q,
        ;
        lemma_lead_push(m, b, (w - 1) as nat);
        // (n / b) / p == n / q
        lemma_div_denominator(n as int, b as int, p as int);
        // n % (b * p) == b * ((n / b) % p) + n % b
        lemma_mod_breakdown(n as int, b as int, p as int);
        assert(0 <= n % b < b) by (nonlinear_arith)
            requires
                b >= 2,
        ;
        lemma_div_multiples_vanish_fancy(((n / b) % p) as int, (n % b) as int, b as int);
        assert(m / b == (n / b) % p);
        // (n % (b * p)) % b == n % b
        lemma_mod_mod(n as int, b as int, p as int);
        assert(m % b == n % b);
        assert((n / b) / p == n / q);
        assert(n / b < q) by (nonlinear_arith)
            requires
                n < b * q,
                b >= 2,
        ;
        assert(lead(n / b, b, (w - 1) as nat) == seq![digit_char((n / b) / p)] + lead(
            (n / b) % p,
            b,
            (w - 2) as nat,
        ));
        assert(lead(m, b, (w - 1) as nat) == lead(m / b, b, (w - 2) as nat).push(
            digit_char(m % b),
        ));
        assert(lead(n, b, w) =~= lead(n / b, b, (w - 1) as nat).push(digit_char(n % b)));
    }
}

/// A scan whose width is the number of digits of `n` yields the digits of `n`.
pub proof fn lemma_lead_is_digits(n: nat, b: nat, w: nat)
    requires
        b >= 2,
        w >= 1,
        power(b, (w - 1) as nat) <= n < power(b, w),
    ensures
        lead(n, b, w) == digits(n, b),
    decreases w,
{
    lemma_lead_push(n, b, w);
    if w == 1 {
        lemma_power_one(b);
        assert(n / 1 == n);
        assert(n % 1 == 0);
        assert(lead(n, b, 1) == seq![digit_char(n)] + lead(0, b, 0));
        assert(lead(n, b, 1) =~= seq![digit_char(n)]);
    } else {
        let p = power(b, (w - 2) as nat);
        let q = power(b, (w - 1) as nat);
        lemma_power_positive(b, (w - 2) as nat);
        assert(q == b * p);
        assert(n >= b) by (nonlinear_arith)
            requires
                n >= b * p,
                p >= 1,
                b >= 2,
        ;
        assert(p <= n / b < q) by (nonlinear_arith)
            requires
                b * p <= n < b * q,
                b >= 2,
        ;
        lemma_lead_is_digits(n / b, b, (w - 1) as nat);
    }
}

/// What `%x` prints for a nonzero value: the scan covers the seven low
/// nibbles only, so the value is taken modulo `16^7`, and a value whose seven
/// low nibbles are all zero prints nothing.
pub open spec fn low_nibbles(m: nat) -> Seq<u8> {
    if m == 0 {
        Seq::empty()
    } else {
        digits(m, 16)
    }
}

/// The character of one digit below sixteen.
pub fn digit_byte(d: u32) -> (r: u8)
    requires
        d < 16,
    ensures
        r == digit_char(d as nat),
{
    if d < 10 {
        48 + d as u8
    } else {
        97 + (d - 10) as u8
    }
}

/// A run of digits still to be emitted: the digit of `val / div` comes
/// next, then the run for `val % div` with the divisor one power lower.
#[derive(Clone, Copy)]
pub struct DigitRun {
    val: u32,
    div: u32,
    base: u32,
    width: Ghost<nat>,
}

impl DigitRun {
    pub closed spec fn wf(self) -> bool {
        &&& self.base == 10 || self.base == 16
        &&& self.val < power(self.base as nat, self.width@)
        &&& self.div == if self.width@ == 0 {
            0
        } else {
            power(self.base as nat, (self.width@ - 1) as nat)
        }
    }

    /// The bytes this run has still to emit.
    pub closed spec fn out(self) -> Seq<u8> {
        lead(self.val as nat, self.base as nat, self.width@)
    }

    /// The decimal digits of `n`, found by raising the divisor to the
    /// largest power of ten not exceeding `n`.
    pub fn decimal(n: u32) -> (r: DigitRun)
        requires
            n >= 1,
        ensures
            r.wf(),
            r.out() == digits(n as nat, 10),
    {
        let mut div: u32 = 1;
        let ghost mut w: nat = 1;
        proof {
            lemma_power_one(10);
        }
        while n / div > 9
            invariant
                w >= 1,
                div == power(10, (w - 1) as nat),
                1 <= div <= n,
            decreases n - div,
        {
            assert(10 * div <= n) by (nonlinear_arith)
                requires
                    n / div > 9,
                    div >= 1,
            ;
            div = div * 10;
            proof {
                w = w + 1;
            }
        }
        assert(n < 10 * div) by (nonlinear_arith)
            requires
                n / div <= 9,
                div >= 1,
        ;
        assert(power(10, w) == 10 * power(10, (w - 1) as nat));
        proof {
            lemma_lead_is_digits(n as nat, 10, w);
        }
        DigitRun { val: n, div, base: 10, width: Ghost(w) }
    }

    /// The hex digits of the seven low nibbles of `v`, scanning nibble
    /// positions from the sixth down and skipping leading zero nibbles.
    pub fn hex(v: u32) -> (r: DigitRun)
        ensures
            r.wf(),
            r.out() == low_nibbles(v as nat % 0x1000_0000),
    {
        let val: u32 = v % 0x1000_0000;
        let mut div: u32 = 0x100_0000;
        let ghost mut w: nat = 7;
        assert(power(16, 7) == 0x1000_0000 && power(16, 6) == 0x100_0000) by {
            reveal_with_fuel(power, 8);
        }
        while div > 0 && val / div == 0
            invariant
                val < power(16, w),
                div == if w == 0 {
                    0
                } else {
                    power(16, (w - 1) as nat)
                },
            decreases w,
        {
            assert(val < div) by (nonlinear_arith)
                requires
                    val / div == 0,
                    div >= 1,
            ;
            proof {
                if w == 1 {
                    lemma_power_one(16);
                } else {
                    let p = power(16, (w - 2) as nat);
                    assert(div == 16 * p);
                    lemma_div_multiples_vanish(p as int, 16);
                }
            }
            div = div / 16;
            proof {
                w = (w - 1) as nat;
            }
        }
        if div == 0 {
            assert(w == 0);
            assert(val == 0) by {
                assert(power(16, 0) == 1);
            }
        } else {
            assert(w >= 1);
            assert(val >= div) by (nonlinear_arith)
                requires
                    val / div != 0,
                    div >= 1,
            ;
            proof {
                lemma_lead_is_digits(val as nat, 16, w);
            }
        }
        DigitRun { val, div, base: 16, width: Ghost(w) }
    }

    /// Emits the next digit of the run, or `None` once the run is over.
    pub fn next_digit(&mut self) -> (r: Option<u8>)
        requires
            old(self).wf(),
        ensures
            final(self).wf(),
            old(self).out().len() == 0 ==> r is None && final(self).out().len() == 0,
            old(self).out().len() > 0 ==> r == Some(old(self).out()[0]) && final(self).out()
                == old(self).out().drop_first(),
    {
        if self.div == 0 {
            return None;
        }
        let ghost b = self.base as nat;
        let ghost w = self.width@;
        let ghost q = self.div as nat;
        assert(w >= 1);
        assert(power(b, w) == b * q);
        assert(self.val / self.div < self.base) by (nonlinear_arith)
            requires
                self.val < b * q,
                q >= 1,
                b == self.base,
                q == self.div,
        ;
        let d = digit_byte(self.val / self.div);
        let ghost old_out = self.out();
        assert(old_out == seq![d] + lead((self.val % self.div) as nat, b, (w - 1) as nat));
        assert(self.val % self.div < q) by (nonlinear_arith)
            requires
                q >= 1,
                q == self.div,
        ;
        self.val = self.val % self.div;
        proof {
            if w == 1 {
                assert(power(b, 0) == 1);
                assert(self.div / self.base == 0) by (nonlinear_arith)
                    requires
                        self.div == 1,
                        self.base >= 2,
                ;
            } else {
                let p = power(b, (w - 2) as nat);
                assert(q == b * p);
                lemma_div_multiples_vanish(p as int, b as int);
                assert(self.div / self.base == p);
            }
        }
        self.div = self.div / self.base;
        self.width = Ghost((w - 1) as nat);
        assert(old_out.drop_first() =~= self.out());
        Some(d)
    }
}

} // verus!
