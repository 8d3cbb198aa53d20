//! The whole part of a double, read from its bits.
//!
//! A finite double is an integer significand times a power of two. Scaled
//! by `2^1074` every finite double is an integer, and its floor and ceiling
//! are the quotient of that integer by `2^1074`, rounded down or up. For
//! values that are not negative and lie below `2^53` they are computed here
//! with machine integers.

use vstd::arithmetic::div_mod::lemma_basic_div;
use vstd::arithmetic::div_mod::lemma_div_is_ordered;
use vstd::arithmetic::div_mod::lemma_div_multiples_vanish_quotient;
use vstd::arithmetic::div_mod::lemma_fundamental_div_mod;
use vstd::arithmetic::div_mod::lemma_mod_bound;
use vstd::arithmetic::div_mod::lemma_small_mod;
use vstd::arithmetic::div_mod::lemma_truncate_middle;
use vstd::arithmetic::mul::lemma_mul_inequality;
use vstd::arithmetic::mul::lemma_mul_strict_inequality;
use vstd::arithmetic::mul::lemma_mul_strictly_positive;
use vstd::arithmetic::power2::lemma2_to64_rest;
use vstd::arithmetic::power2::lemma_pow2_adds;
use vstd::arithmetic::power2::lemma_pow2_pos;
use vstd::arithmetic::power2::lemma_pow2_strictly_increases;
use vstd::arithmetic::power2::lemma_pow2_unfold;
use vstd::arithmetic::power2::pow2;
use vstd::prelude::*;
use crate::quantitative::double::Double;
use crate::quantitative::double::SIGN_BIT;

verus! {

/// `2^52`: the number of fractions under one exponent.
pub const FRACTION_RANGE: u64 = 0x10_0000_0000_0000;

/// The exponent field of doubles from `2^52` up to `2^53`, whose last bit
/// counts ones.
pub const UNIT_EXPONENT: u64 = 1075;

/// The exponent field of doubles from `1` up to `2`.
pub const ONE_EXPONENT: u64 = 1023;

impl Double {
    /// The eleven exponent bits.
    pub open spec fn exponent_field(self) -> int {
        self.magnitude() / (FRACTION_RANGE as int)
    }

    /// The fifty-two fraction bits.
    pub open spec fn fraction_field(self) -> int {
        self.magnitude() % (FRACTION_RANGE as int)
    }

    /// The significand as an integer: the fraction bits, under a leading
    /// one unless the exponent field is zero.
    pub open spec fn significand(self) -> int {
        if self.exponent_field() == 0 {
            self.fraction_field()
        } else {
            FRACTION_RANGE + self.fraction_field()
        }
    }

    /// The magnitude of a finite double, times `2^1074`.
    pub open spec fn scaled(self) -> int {
        let e = self.exponent_field();
        self.significand() * pow2((if e == 0 { 0 } else { e - 1 }) as nat)
    }

    /// Not negative, and below `2^53`: a value whose whole part fits a
    /// machine integer exactly. Negative zero counts as zero.
    pub open spec fn countable(self) -> bool {
        (!self.sign_negative() || self.zero()) && self.exponent_field() <= UNIT_EXPONENT
    }

    /// The floor of a countable value.
    pub open spec fn whole_part(self) -> int {
        self.scaled() / (pow2(1074) as int)
    }

    /// Whether a countable value is an integer.
    pub open spec fn whole(self) -> bool {
        self.scaled() % (pow2(1074) as int) == 0
    }

    /// The ceiling of a countable value.
    pub open spec fn whole_above(self) -> int {
        if self.whole() {
            self.whole_part()
        } else {
            self.whole_part() + 1
        }
    }
}

/// The whole part in machine terms: below one it is zero, and from one on
/// it is the significand without the bits that count fractions.
pub proof fn lemma_whole_part(d: Double)
    requires
        d.exponent_field() <= UNIT_EXPONENT,
    ensures
        0 <= d.significand() < 2 * FRACTION_RANGE,
        d.exponent_field() < ONE_EXPONENT ==> d.whole_part() == 0 && (d.whole() <==> d.magnitude()
            == 0),
        d.exponent_field() >= ONE_EXPONENT ==> d.whole_part() == d.significand() / (pow2(
            (UNIT_EXPONENT - d.exponent_field()) as nat,
        ) as int) && (d.whole() <==> d.significand() % (pow2(
            (UNIT_EXPONENT - d.exponent_field()) as nat,
        ) as int) == 0),
        0 <= d.whole_part() < 2 * FRACTION_RANGE,
{
    let e = d.exponent_field();
    let sig = d.significand();
    let range = FRACTION_RANGE as int;
    lemma_mod_bound(d.magnitude(), range);
    lemma_fundamental_div_mod(d.magnitude(), range);
    lemma2_to64_rest();
    lemma_pow2_pos(1074);
    if e < ONE_EXPONENT {
        let k = (if e == 0 { 0 } else { e - 1 }) as nat;
        let p = pow2(k) as int;
        lemma_pow2_pos(k);
        lemma_pow2_adds(53, k);
        if 53 + k < 1074 {
            lemma_pow2_strictly_increases(53 + k, 1074);
        }
        assert(d.scaled() == sig * p);
        assert(sig * p < pow2(53) * p) by {
            lemma_mul_strict_inequality(sig, pow2(53) as int, p);
        }
        assert(0 <= sig * p) by {
            lemma_mul_inequality(0, sig, p);
        }
        assert(d.scaled() < pow2(1074));
        lemma_basic_div(d.scaled(), pow2(1074) as int);
        lemma_small_mod(d.scaled() as nat, pow2(1074));
        assert(d.scaled() % (pow2(1074) as int) == d.scaled());
        if sig > 0 {
            lemma_mul_strictly_positive(sig, p);
        } else {
            assert(sig * p == 0) by {
                lemma_mul_inequality(sig, 0, p);
            }
        }
        if e == 0 {
            assert(d.magnitude() == range * 0 + sig);
        } else {
            assert(d.magnitude() >= range) by {
                lemma_mul_inequality(1, e, range);
            }
        }
    } else {
        let low = (e - 1) as nat;
        let high = (UNIT_EXPONENT - e) as nat;
        let c = pow2(low) as int;
        let dd = pow2(high) as int;
        lemma_pow2_pos(low);
        lemma_pow2_pos(high);
        lemma_pow2_adds(low, high);
        assert(low + high == 1074);
        assert(pow2(1074) == c * dd);
        lemma_div_multiples_vanish_quotient(c, sig, dd);
        lemma_truncate_middle(sig, c, dd);
        assert(d.scaled() == sig * c);
        assert(sig * c == c * sig) by {
            vstd::arithmetic::mul::lemma_mul_is_commutative(sig, c);
        }
        lemma_mod_bound(sig, dd);
        if sig % dd > 0 {
            lemma_mul_strictly_positive(c, sig % dd);
        } else {
            assert(c * (sig % dd) == 0) by {
                lemma_mul_inequality(sig % dd, 0, c);
                vstd::arithmetic::mul::lemma_mul_is_commutative(sig % dd, c);
            }
        }
        assert(0 <= sig / dd) by {
            lemma_div_is_ordered(0, sig, dd);
            lemma_basic_div(0, dd);
        }
        assert(sig / dd <= sig) by {
            lemma_fundamental_div_mod(sig, dd);
            lemma_mul_inequality(1, dd, sig / dd);
            vstd::arithmetic::mul::lemma_mul_is_commutative(dd, sig / dd);
        }
    }
}

/// A larger bit pattern is a larger number: among doubles that are not
/// negative, the order of the magnitudes is the order of the scaled values.
pub proof fn lemma_scaled_monotone(a: Double, b: Double)
    requires
        a.magnitude() <= b.magnitude(),
    ensures
        a.scaled() <= b.scaled(),
{
    let range = FRACTION_RANGE as int;
    let (ea, eb) = (a.exponent_field(), b.exponent_field());
    lemma_div_is_ordered(a.magnitude(), b.magnitude(), range);
    lemma_fundamental_div_mod(a.magnitude(), range);
    lemma_fundamental_div_mod(b.magnitude(), range);
    lemma_mod_bound(a.magnitude(), range);
    lemma_mod_bound(b.magnitude(), range);
    lemma_div_is_ordered(0, a.magnitude(), range);
    lemma_basic_div(0, range);
    lemma2_to64_rest();
    let ka = (if ea == 0 { 0 } else { ea - 1 }) as nat;
    let kb = (if eb == 0 { 0 } else { eb - 1 }) as nat;
    lemma_pow2_pos(ka);
    lemma_pow2_pos(kb);
    if ea == eb {
        assert(a.fraction_field() <= b.fraction_field()) by {
            assert(range * ea == range * eb);
        }
        lemma_mul_inequality(a.significand(), b.significand(), pow2(ka) as int);
    } else {
        assert(ea < eb);
        // a lies below the next power of two, b at or above it
        let bound: nat = if ea == 0 { ka + 52 } else { ka + 53 };
        if ea == 0 {
            assert(pow2(0) == 1) by {
                lemma_pow2_pos(0);
                lemma_pow2_unfold(1);
                vstd::arithmetic::power2::lemma2_to64();
            }
            assert(a.scaled() < pow2(52));
        } else {
            lemma_pow2_adds(53, ka);
            lemma_mul_strict_inequality(a.significand(), pow2(53) as int, pow2(ka) as int);
            assert(a.scaled() < pow2(53 + ka));
        }
        lemma_pow2_adds(52, kb);
        lemma_mul_inequality(pow2(52) as int, b.significand(), pow2(kb) as int);
        assert(pow2(52 + kb) <= b.scaled());
        if bound < 52 + kb {
            lemma_pow2_strictly_increases(bound, 52 + kb);
        }
    }
}

/// Floor and ceiling keep the order: of two countable values the one with
/// the smaller rank has neither the larger floor nor the larger ceiling.
pub proof fn lemma_whole_part_monotone(a: Double, b: Double)
    requires
        a.countable(),
        b.countable(),
        a.rank() <= b.rank(),
    ensures
        a.whole_part() <= b.whole_part(),
        a.whole_above() <= b.whole_above(),
{
    lemma_scaled_monotone(a, b);
    let unit = pow2(1074) as int;
    lemma_pow2_pos(1074);
    lemma_div_is_ordered(a.scaled(), b.scaled(), unit);
    lemma_fundamental_div_mod(a.scaled(), unit);
    lemma_fundamental_div_mod(b.scaled(), unit);
    lemma_mod_bound(a.scaled(), unit);
    lemma_mod_bound(b.scaled(), unit);
    if a.whole_part() == b.whole_part() && b.whole() {
        assert(unit * a.whole_part() == unit * b.whole_part());
    }
}

/// `2^k` for a shift within the fraction bits.
fn two_to(k: u64) -> (r: u64)
    requires
        k <= 52,
    ensures
        r == pow2(k as nat),
        0 < r <= FRACTION_RANGE,
{
    let mut r: u64 = 1;
    let mut i: u64 = 0;
    proof {
        vstd::arithmetic::power2::lemma2_to64();
        lemma2_to64_rest();
    }
    while i < k
        invariant
            i <= k <= 52,
            r == pow2(i as nat),
            pow2(52) == FRACTION_RANGE,
        decreases k - i,
    {
        proof {
            lemma_pow2_unfold((i + 1) as nat);
            if i + 1 < 52 {
                lemma_pow2_strictly_increases((i + 1) as nat, 52);
            }
        }
        r = r * 2;
        i = i + 1;
    }
    proof {
        lemma_pow2_pos(k as nat);
        if k < 52 {
            lemma_pow2_strictly_increases(k as nat, 52);
        }
    }
    r
}

impl Double {
    /// Floor and ceiling of a countable value; `None` for any other.
    pub fn whole_parts(self) -> (r: Option<(u64, u64)>)
        ensures
            r is Some <==> self.countable(),
            r is Some ==> r->Some_0.0 == self.whole_part() && r->Some_0.1 == self.whole_above(),
            r is Some ==> r->Some_0.0 <= r->Some_0.1 <= r->Some_0.0 + 1,
    {
        let m: u64 = self.magnitude_bits();
        if self.bits >= SIGN_BIT && m != 0 {
            return None;
        }
        let e: u64 = m / FRACTION_RANGE;
        if e > UNIT_EXPONENT {
            return None;
        }
        proof {
            lemma_whole_part(self);
        }
        if e < ONE_EXPONENT {
            if m == 0 {
                Some((0, 0))
            } else {
                Some((0, 1))
            }
        } else {
            let sig: u64 = FRACTION_RANGE + m % FRACTION_RANGE;
            let divisor: u64 = two_to(UNIT_EXPONENT - e);
            let below: u64 = sig / divisor;
            if sig % divisor == 0 {
                Some((below, below))
            } else {
                Some((below, below + 1))
            }
        }
    }
}

} // verus!
