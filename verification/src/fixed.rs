//! Fixed-point amounts.
//!
//! `Fixed` is a signed 192-bit number of 10^-18 subunits and `Precise` a signed
//! 256-bit number of 10^-36 subunits. Both are held as little-endian 64-bit
//! limbs in two's complement, and both are viewed as the mathematical integer
//! that counts their subunits. Comparison and conversion from and to machine
//! integers are verified here; the arithmetic itself is done by
//! `scrypto::math`, reached through the wrappers at the end of this file.
//! Sums and differences are given wherever they fit; products, quotients
//! and amounts cut off to fewer places are given only where their
//! magnitude does, which leaves out the lowest value of each kind.

use vstd::prelude::*;
use vstd::arithmetic::div_mod::{lemma_div_denominator, lemma_fundamental_div_mod};
use vstd::arithmetic::div_mod::lemma_fundamental_div_mod_converse;
use scrypto::math::{CheckedAdd, CheckedDiv, CheckedMul, CheckedSub};
use scrypto::math::{Decimal, PreciseDecimal, I192, I256};

verus! {

/// 10^18: the subunits of one whole unit in a `Fixed`.
pub open spec fn scale18() -> int {
    1_000_000_000_000_000_000
}

/// 10^36: the subunits of one whole unit in a `Precise`.
pub open spec fn scale36() -> int {
    1_000_000_000_000_000_000_000_000_000_000_000_000
}

/// Whether `x` subunits fit a `Fixed`: -2^191 <= x < 2^191.
pub open spec fn in_fixed(x: int) -> bool {
    -0x8000_0000_0000_0000_0000_0000_0000_0000_0000_0000_0000_0000 <= x
        < 0x8000_0000_0000_0000_0000_0000_0000_0000_0000_0000_0000_0000
}

/// Whether `x` subunits fit a `Precise`: -2^255 <= x < 2^255.
pub open spec fn in_precise(x: int) -> bool {
    -0x8000_0000_0000_0000_0000_0000_0000_0000_0000_0000_0000_0000_0000_0000_0000_0000 <= x
        < 0x8000_0000_0000_0000_0000_0000_0000_0000_0000_0000_0000_0000_0000_0000_0000_0000
}

/// Whether `x` subunits are given as a `Fixed` by a product, a quotient or
/// a cutting-off of places: -2^191 < x < 2^191. These are formed in more
/// bits and brought back by their magnitude, which leaves out the lowest
/// `Fixed`, -2^191.
pub open spec fn narrows_to_fixed(x: int) -> bool {
    -0x8000_0000_0000_0000_0000_0000_0000_0000_0000_0000_0000_0000 < x
        < 0x8000_0000_0000_0000_0000_0000_0000_0000_0000_0000_0000_0000
}

/// Whether `x` subunits are given as a `Precise` by a product or a
/// quotient: -2^255 < x < 2^255. The lowest `Precise`, -2^255, is left out.
pub open spec fn narrows_to_precise(x: int) -> bool {
    -0x8000_0000_0000_0000_0000_0000_0000_0000_0000_0000_0000_0000_0000_0000_0000_0000 < x
        < 0x8000_0000_0000_0000_0000_0000_0000_0000_0000_0000_0000_0000_0000_0000_0000_0000
}

/// Division that rounds toward zero, as machine integers divide.
/// The quotient by zero is left at 0; callers rule that case out.
pub open spec fn tdiv(a: int, b: int) -> int {
    if b == 0 {
        0
    } else if a >= 0 && b > 0 {
        a / b
    } else if a < 0 && b > 0 {
        -((-a) / b)
    } else if a >= 0 && b < 0 {
        -(a / (-b))
    } else {
        (-a) / (-b)
    }
}

/// Product of two `Fixed` amounts, in subunits, rounded toward zero.
pub open spec fn mul18(a: int, b: int) -> int {
    tdiv(a * b, scale18())
}

/// Quotient of two `Fixed` amounts, in subunits, rounded toward zero.
pub open spec fn div18(a: int, b: int) -> int {
    tdiv(a * scale18(), b)
}

/// Product of two `Precise` amounts, in subunits, rounded toward zero.
pub open spec fn mul36(a: int, b: int) -> int {
    tdiv(a * b, scale36())
}

/// Quotient of two `Precise` amounts, in subunits, rounded toward zero.
pub open spec fn div36(a: int, b: int) -> int {
    tdiv(a * scale36(), b)
}

/// The `Precise` subunits of a `Fixed` amount.
pub open spec fn widen(a: int) -> int {
    a * scale18()
}

/// The `Fixed` subunits of a `Precise` amount, the excess digits cut off.
pub open spec fn narrow(p: int) -> int {
    tdiv(p, scale18())
}

/// The integer that three limbs hold in two's complement.
#[verifier::opaque]
pub open spec fn limbs3(l0: u64, l1: u64, l2: u64) -> int {
    let u = l0 as int + l1 as int * 0x1_0000_0000_0000_0000 + l2 as int
        * 0x1_0000_0000_0000_0000_0000_0000_0000_0000;
    if l2 >= 0x8000_0000_0000_0000 {
        u - 0x1_0000_0000_0000_0000_0000_0000_0000_0000_0000_0000_0000_0000
    } else {
        u
    }
}

/// The integer that four limbs hold in two's complement.
#[verifier::opaque]
pub open spec fn limbs4(l0: u64, l1: u64, l2: u64, l3: u64) -> int {
    let u = l0 as int + l1 as int * 0x1_0000_0000_0000_0000 + l2 as int
        * 0x1_0000_0000_0000_0000_0000_0000_0000_0000 + l3 as int
        * 0x1_0000_0000_0000_0000_0000_0000_0000_0000_0000_0000_0000_0000;
    if l3 >= 0x8000_0000_0000_0000 {
        u - 0x1_0000_0000_0000_0000_0000_0000_0000_0000_0000_0000_0000_0000_0000_0000_0000_0000
    } else {
        u
    }
}

/// A signed amount with 18 decimal places.
#[derive(Clone, Copy, Debug, PartialEq, Eq, Structural)]
pub struct Fixed {
    pub l0: u64,
    pub l1: u64,
    pub l2: u64,
}

/// A signed amount with 36 decimal places, for intermediate results.
#[derive(Clone, Copy, Debug, PartialEq, Eq, Structural)]
pub struct Precise {
    pub l0: u64,
    pub l1: u64,
    pub l2: u64,
    pub l3: u64,
}

impl View for Fixed {
    type V = int;

    open spec fn view(&self) -> int {
        limbs3(self.l0, self.l1, self.l2)
    }
}

impl View for Precise {
    type V = int;

    open spec fn view(&self) -> int {
        limbs4(self.l0, self.l1, self.l2, self.l3)
    }
}

/// The `Fixed` that is zero.
pub open spec fn fixed_zero() -> Fixed {
    Fixed { l0: 0, l1: 0, l2: 0 }
}

/// The view of `fixed_zero` is zero.
pub proof fn lemma_fixed_zero()
    ensures
        fixed_zero()@ == 0,
{
    reveal(limbs3);
}

/// Every `Fixed` is in range, and two of them with the same view are the same.
pub proof fn lemma_fixed_view(a: Fixed, b: Fixed)
    ensures
        in_fixed(a@),
        a@ == b@ <==> a == b,
{
    reveal(limbs3);
    if a@ == b@ {
        let top_a: int = if a.l2 >= 0x8000_0000_0000_0000 {
            a.l2 - 0x1_0000_0000_0000_0000
        } else {
            a.l2 as int
        };
        let top_b: int = if b.l2 >= 0x8000_0000_0000_0000 {
            b.l2 - 0x1_0000_0000_0000_0000
        } else {
            b.l2 as int
        };
        let low_a = a.l0 as int + a.l1 as int * 0x1_0000_0000_0000_0000;
        let low_b = b.l0 as int + b.l1 as int * 0x1_0000_0000_0000_0000;
        assert(a@ == low_a + top_a * 0x1_0000_0000_0000_0000_0000_0000_0000_0000);
        assert(b@ == low_b + top_b * 0x1_0000_0000_0000_0000_0000_0000_0000_0000);
        lemma_digit_unique(
            low_a,
            top_a,
            low_b,
            top_b,
            0x1_0000_0000_0000_0000_0000_0000_0000_0000int,
        );
        lemma_digit_unique(
            a.l0 as int,
            a.l1 as int,
            b.l0 as int,
            b.l1 as int,
            0x1_0000_0000_0000_0000int,
        );
    }
}

/// Every `Precise` is in range, and two of them with the same view are the same.
pub proof fn lemma_precise_view(a: Precise, b: Precise)
    ensures
        in_precise(a@),
        a@ == b@ <==> a == b,
{
    reveal(limbs4);
    if a@ == b@ {
        let top_a: int = if a.l3 >= 0x8000_0000_0000_0000 {
            a.l3 - 0x1_0000_0000_0000_0000
        } else {
            a.l3 as int
        };
        let top_b: int = if b.l3 >= 0x8000_0000_0000_0000 {
            b.l3 - 0x1_0000_0000_0000_0000
        } else {
            b.l3 as int
        };
        let mid_a = a.l0 as int + a.l1 as int * 0x1_0000_0000_0000_0000;
        let mid_b = b.l0 as int + b.l1 as int * 0x1_0000_0000_0000_0000;
        let low_a = mid_a + a.l2 as int * 0x1_0000_0000_0000_0000_0000_0000_0000_0000;
        let low_b = mid_b + b.l2 as int * 0x1_0000_0000_0000_0000_0000_0000_0000_0000;
        assert(a@ == low_a + top_a
            * 0x1_0000_0000_0000_0000_0000_0000_0000_0000_0000_0000_0000_0000);
        assert(b@ == low_b + top_b
            * 0x1_0000_0000_0000_0000_0000_0000_0000_0000_0000_0000_0000_0000);
        lemma_digit_unique(
            low_a,
            top_a,
            low_b,
            top_b,
            0x1_0000_0000_0000_0000_0000_0000_0000_0000_0000_0000_0000_0000int,
        );
        lemma_digit_unique(
            mid_a,
            a.l2 as int,
            mid_b,
            b.l2 as int,
            0x1_0000_0000_0000_0000_0000_0000_0000_0000int,
        );
        lemma_digit_unique(
            a.l0 as int,
            a.l1 as int,
            b.l0 as int,
            b.l1 as int,
            0x1_0000_0000_0000_0000int,
        );
    }
}

/// The `Fixed` that holds `x` subunits, for `x` in range.
pub open spec fn fixed_of(x: int) -> Fixed {
    let u = if x >= 0 {
        x
    } else {
        x + 0x1_0000_0000_0000_0000_0000_0000_0000_0000_0000_0000_0000_0000int
    };
    Fixed {
        l0: (u % 0x1_0000_0000_0000_0000int) as u64,
        l1: ((u / 0x1_0000_0000_0000_0000int) % 0x1_0000_0000_0000_0000int) as u64,
        l2: (u / 0x1_0000_0000_0000_0000_0000_0000_0000_0000int) as u64,
    }
}

/// `fixed_of` gives back the `Fixed` whose view it is given.
pub proof fn lemma_fixed_of(f: Fixed)
    ensures
        fixed_of(f@) == f,
{
    reveal(limbs3);
    let r: int = 0x1_0000_0000_0000_0000int;
    let u: int = f.l0 as int + f.l1 as int * r + f.l2 as int
        * 0x1_0000_0000_0000_0000_0000_0000_0000_0000int;
    let high: int = f.l1 as int + f.l2 as int * r;
    assert(u == high * r + f.l0 as int);
    lemma_fundamental_div_mod_converse(u, r, high, f.l0 as int);
    lemma_fundamental_div_mod_converse(high, r, f.l2 as int, f.l1 as int);
    let low: int = f.l0 as int + f.l1 as int * r;
    assert(u == f.l2 as int * 0x1_0000_0000_0000_0000_0000_0000_0000_0000int + low);
    lemma_fundamental_div_mod_converse(
        u,
        0x1_0000_0000_0000_0000_0000_0000_0000_0000int,
        f.l2 as int,
        low,
    );
    assert(u == if f@ >= 0 {
        f@
    } else {
        f@ + 0x1_0000_0000_0000_0000_0000_0000_0000_0000_0000_0000_0000_0000int
    });
}

/// `fixed_of` gives a `Fixed` whose view is the number given, for a number in range.
pub proof fn lemma_fixed_of_view(x: int)
    requires
        in_fixed(x),
    ensures
        fixed_of(x)@ == x,
{
    reveal(limbs3);
    let r: int = 0x1_0000_0000_0000_0000int;
    let u: int = if x >= 0 {
        x
    } else {
        x + 0x1_0000_0000_0000_0000_0000_0000_0000_0000_0000_0000_0000_0000int
    };
    let f = fixed_of(x);
    let high = u / r;
    assert(u == r * high + u % r) by {
        lemma_fundamental_div_mod(u, r);
    }
    assert(high == r * (high / r) + high % r) by {
        lemma_fundamental_div_mod(high, r);
    }
    assert(high / r == u / 0x1_0000_0000_0000_0000_0000_0000_0000_0000int) by {
        lemma_div_denominator(u, r, r);
    }
}

/// A number has one way to be written as a low part below the radix and a
/// multiple of the radix.
proof fn lemma_digit_unique(low_a: int, high_a: int, low_b: int, high_b: int, radix: int)
    requires
        radix > 0,
        0 <= low_a < radix,
        0 <= low_b < radix,
        low_a + high_a * radix == low_b + high_b * radix,
    ensures
        low_a == low_b,
        high_a == high_b,
{
    let d = high_a - high_b;
    assert(d * radix == low_b - low_a) by (nonlinear_arith)
        requires
            low_a + high_a * radix == low_b + high_b * radix,
            d == high_a - high_b,
    ;
    assert(d == 0) by (nonlinear_arith)
        requires
            radix > 0,
            -radix < d * radix < radix,
    ;
}

impl Fixed {
    /// The amount of `x` subunits.
    pub fn from_attos(x: i128) -> (r: Fixed)
        ensures
            r@ == x,
    {
        proof {
            reveal(limbs3);
        }
        if x >= 0 {
            let u: u128 = x as u128;
            Fixed {
                l0: (u % 0x1_0000_0000_0000_0000) as u64,
                l1: (u / 0x1_0000_0000_0000_0000) as u64,
                l2: 0,
            }
        } else {
            let v: i128 = (x + i128::MAX) + 1;
            let u: u128 = v as u128 + 0x8000_0000_0000_0000_0000_0000_0000_0000;
            Fixed {
                l0: (u % 0x1_0000_0000_0000_0000) as u64,
                l1: (u / 0x1_0000_0000_0000_0000) as u64,
                l2: u64::MAX,
            }
        }
    }

    /// The amount of `n` whole units.
    pub fn from_units(n: u64) -> (r: Fixed)
        ensures
            r@ == n * scale18(),
    {
        let wide: i128 = n as i128;
        Fixed::from_attos(wide * 1_000_000_000_000_000_000)
    }

    /// Zero.
    pub fn zero() -> (r: Fixed)
        ensures
            r@ == 0,
            r == fixed_zero(),
    {
        proof {
            reveal(limbs3);
        }
        Fixed { l0: 0, l1: 0, l2: 0 }
    }

    /// One whole unit.
    pub fn one() -> (r: Fixed)
        ensures
            r@ == scale18(),
    {
        proof {
            reveal(limbs3);
        }
        Fixed { l0: 1_000_000_000_000_000_000, l1: 0, l2: 0 }
    }

    /// The subunits as a machine integer, where they fit one.
    pub fn to_attos(&self) -> (r: Option<i128>)
        ensures
            r matches Some(x) ==> x == self@,
            r is Some <==> i128::MIN <= self@ <= i128::MAX,
    {
        proof {
            reveal(limbs3);
        }
        if self.l2 == 0 && self.l1 < 0x8000_0000_0000_0000 {
            let u: u128 = self.l1 as u128 * 0x1_0000_0000_0000_0000 + self.l0 as u128;
            Some(u as i128)
        } else if self.l2 == u64::MAX && self.l1 >= 0x8000_0000_0000_0000 {
            let u: u128 = self.l1 as u128 * 0x1_0000_0000_0000_0000 + self.l0 as u128;
            let w: u128 = u - 0x8000_0000_0000_0000_0000_0000_0000_0000;
            Some(w as i128 + i128::MIN)
        } else {
            None
        }
    }

    /// Whether the amount is below zero.
    pub fn is_negative(&self) -> (r: bool)
        ensures
            r == (self@ < 0),
    {
        proof {
            lemma_limbs3_sign(self.l0, self.l1, self.l2);
        }
        self.l2 >= 0x8000_0000_0000_0000
    }

    /// Whether the amount is zero.
    pub fn is_zero(&self) -> (r: bool)
        ensures
            r == (self@ == 0),
    {
        proof {
            lemma_limbs3_sign(self.l0, self.l1, self.l2);
        }
        self.l0 == 0 && self.l1 == 0 && self.l2 == 0
    }

    /// Whether the amount is above zero.
    pub fn is_positive(&self) -> (r: bool)
        ensures
            r == (self@ > 0),
    {
        !self.is_negative() && !self.is_zero()
    }

    /// Whether `self` is strictly below `other`.
    pub fn lt(&self, other: &Fixed) -> (r: bool)
        ensures
            r == (self@ < other@),
    {
        proof {
            reveal(limbs3);
        }
        let below = self.l2 >= 0x8000_0000_0000_0000;
        let other_below = other.l2 >= 0x8000_0000_0000_0000;
        if below != other_below {
            below
        } else if self.l2 != other.l2 {
            self.l2 < other.l2
        } else if self.l1 != other.l1 {
            self.l1 < other.l1
        } else {
            self.l0 < other.l0
        }
    }

    /// Whether `self` is below or equal to `other`.
    pub fn le(&self, other: &Fixed) -> (r: bool)
        ensures
            r == (self@ <= other@),
    {
        !other.lt(self)
    }

    /// Whether `self` is strictly above `other`.
    pub fn gt(&self, other: &Fixed) -> (r: bool)
        ensures
            r == (self@ > other@),
    {
        other.lt(self)
    }

    /// Whether `self` is above or equal to `other`.
    pub fn ge(&self, other: &Fixed) -> (r: bool)
        ensures
            r == (self@ >= other@),
    {
        !self.lt(other)
    }
}

impl Precise {
    /// The same amount with 36 places.
    pub fn from_fixed(a: Fixed) -> (r: Precise)
        ensures
            r@ == widen(a@),
    {
        precise_from(a)
    }

    /// The amount with the last 18 places cut off, where its magnitude
    /// is below 2^191.
    pub fn to_fixed(&self) -> (r: Option<Fixed>)
        ensures
            r matches Some(v) ==> v@ == narrow(self@),
            r is Some <==> narrows_to_fixed(narrow(self@)),
    {
        precise_narrow(*self)
    }

    /// Whether the amount is below zero.
    pub fn is_negative(&self) -> (r: bool)
        ensures
            r == (self@ < 0),
    {
        proof {
            reveal(limbs4);
        }
        self.l3 >= 0x8000_0000_0000_0000
    }

    /// Whether `self` is strictly below `other`.
    pub fn lt(&self, other: &Precise) -> (r: bool)
        ensures
            r == (self@ < other@),
    {
        proof {
            reveal(limbs4);
        }
        let below = self.l3 >= 0x8000_0000_0000_0000;
        let other_below = other.l3 >= 0x8000_0000_0000_0000;
        if below != other_below {
            below
        } else if self.l3 != other.l3 {
            self.l3 < other.l3
        } else if self.l2 != other.l2 {
            self.l2 < other.l2
        } else if self.l1 != other.l1 {
            self.l1 < other.l1
        } else {
            self.l0 < other.l0
        }
    }

    /// Whether `self` is below or equal to `other`.
    pub fn le(&self, other: &Precise) -> (r: bool)
        ensures
            r == (self@ <= other@),
    {
        !other.lt(self)
    }

    /// Zero.
    pub fn zero() -> (r: Precise)
        ensures
            r@ == 0,
    {
        proof {
            reveal(limbs4);
        }
        Precise { l0: 0, l1: 0, l2: 0, l3: 0 }
    }
}

/// The sign of what three limbs hold is that of the top limb's high bit,
/// and only three zero limbs hold zero.
pub proof fn lemma_limbs3_sign(l0: u64, l1: u64, l2: u64)
    ensures
        limbs3(l0, l1, l2) < 0 <==> l2 >= 0x8000_0000_0000_0000,
        limbs3(l0, l1, l2) == 0 <==> l0 == 0 && l1 == 0 && l2 == 0,
{
    reveal(limbs3);
}

/// A fraction of at most one of an amount that is not negative is between
/// zero and the amount, and so fits.
pub proof fn lemma_fraction_fits(amount: Fixed, fraction: int)
    requires
        amount@ >= 0,
        0 <= fraction <= scale18(),
    ensures
        0 <= mul18(amount@, fraction) <= amount@,
        narrows_to_fixed(mul18(amount@, fraction)),
        in_fixed(amount@ - mul18(amount@, fraction)),
{
    lemma_fixed_view(amount, amount);
    let a = amount@;
    assert(0 <= a * fraction <= a * scale18()) by (nonlinear_arith)
        requires
            a >= 0,
            0 <= fraction <= scale18(),
    ;
    assert(a * scale18() / scale18() == a);
}

/// Two fractions that together stay below one take no more than the whole
/// of an amount that is not negative.
pub proof fn lemma_fractions_leave_rest(amount: int, first: int, second: int)
    requires
        amount >= 0,
        first >= 0,
        second >= 0,
        first + second <= scale18(),
    ensures
        mul18(amount, first) >= 0,
        mul18(amount, second) >= 0,
        mul18(amount, first) + mul18(amount, second) <= amount,
{
    let x = amount * first;
    let y = amount * second;
    assert(x >= 0 && y >= 0 && x + y <= amount * scale18()) by (nonlinear_arith)
        requires
            amount >= 0,
            first >= 0,
            second >= 0,
            first + second <= scale18(),
            x == amount * first,
            y == amount * second,
    ;
    assert(amount * scale18() / scale18() == amount);
    assert(x / scale18() + y / scale18() <= (x + y) / scale18());
}

/// The product of two amounts that are not negative is not negative.
pub proof fn lemma_product_nonnegative(a: int, b: int)
    requires
        a >= 0,
        b >= 0,
    ensures
        a * b >= 0,
        mul18(a, b) >= 0,
        mul36(a, b) >= 0,
{
    assert(a * b >= 0) by (nonlinear_arith)
        requires
            a >= 0,
            b >= 0,
    ;
}

/// The quotient of an amount that is not negative by a positive one is not negative.
pub proof fn lemma_quotient_nonnegative(a: int, b: int)
    requires
        a >= 0,
        b > 0,
    ensures
        div18(a, b) >= 0,
        div36(a, b) >= 0,
{
    let n = a * scale18();
    let m = a * scale36();
    assert(n / b >= 0 && m / b >= 0) by (nonlinear_arith)
        requires
            n >= 0,
            m >= 0,
            b > 0,
    ;
}

/// Cutting off places keeps the order: of two amounts with 36 places the
/// smaller one is no larger when both are cut off to 18.
pub proof fn lemma_narrow_ordered(a: int, b: int)
    requires
        a <= b,
    ensures
        narrow(a) <= narrow(b),
{
    let e = scale18();
    if a >= 0 {
        vstd::arithmetic::div_mod::lemma_div_is_ordered(a, b, e);
    } else if b < 0 {
        vstd::arithmetic::div_mod::lemma_div_is_ordered(-b, -a, e);
    } else {
        vstd::arithmetic::div_mod::lemma_div_pos_is_pos(-a, e);
        vstd::arithmetic::div_mod::lemma_div_pos_is_pos(b, e);
    }
}

/// The sum of two amounts, where it is known to fit.
pub(crate) fn sum(a: Fixed, b: Fixed) -> (r: Fixed)
    requires
        in_fixed(a@ + b@),
    ensures
        r@ == a@ + b@,
{
    match fixed_add(a, b) {
        Some(v) => v,
        None => a,
    }
}

/// The difference of two amounts, where it is known to fit.
pub(crate) fn difference(a: Fixed, b: Fixed) -> (r: Fixed)
    requires
        in_fixed(a@ - b@),
    ensures
        r@ == a@ - b@,
{
    match fixed_sub(a, b) {
        Some(v) => v,
        None => a,
    }
}

/// `Decimal::checked_add` of `scrypto::math`: the exact sum, or `None` where
/// the sum does not fit 192 bits.
#[verifier::external_body]
pub(crate) fn fixed_add(a: Fixed, b: Fixed) -> (r: Option<Fixed>)
    ensures
        r matches Some(v) ==> v@ == a@ + b@,
        r is Some <==> in_fixed(a@ + b@),
{
    let x = Decimal::from_attos(I192::from_digits([a.l0, a.l1, a.l2]));
    let y = Decimal::from_attos(I192::from_digits([b.l0, b.l1, b.l2]));
    match x.checked_add(y) {
        Some(z) => {
            let d = z.attos().to_digits();
            Some(Fixed { l0: d[0], l1: d[1], l2: d[2] })
        },
        None => None,
    }
}

/// `Decimal::checked_sub` of `scrypto::math`: the exact difference, or `None`
/// where the difference does not fit 192 bits.
#[verifier::external_body]
pub(crate) fn fixed_sub(a: Fixed, b: Fixed) -> (r: Option<Fixed>)
    ensures
        r matches Some(v) ==> v@ == a@ - b@,
        r is Some <==> in_fixed(a@ - b@),
{
    let x = Decimal::from_attos(I192::from_digits([a.l0, a.l1, a.l2]));
    let y = Decimal::from_attos(I192::from_digits([b.l0, b.l1, b.l2]));
    match x.checked_sub(y) {
        Some(z) => {
            let d = z.attos().to_digits();
            Some(Fixed { l0: d[0], l1: d[1], l2: d[2] })
        },
        None => None,
    }
}

/// `Decimal::checked_mul` of `scrypto::math`: the product of the subunits
/// divided by 10^18 and rounded toward zero. It is formed in 256 bits and
/// brought back to 192 by its magnitude: `None` where the magnitude is
/// 2^191 or more, so also where the result would be the lowest `Fixed`.
#[verifier::external_body]
pub(crate) fn fixed_mul(a: Fixed, b: Fixed) -> (r: Option<Fixed>)
    ensures
        r matches Some(v) ==> v@ == mul18(a@, b@),
        r is Some <==> narrows_to_fixed(mul18(a@, b@)),
{
    let x = Decimal::from_attos(I192::from_digits([a.l0, a.l1, a.l2]));
    let y = Decimal::from_attos(I192::from_digits([b.l0, b.l1, b.l2]));
    match x.checked_mul(y) {
        Some(z) => {
            let d = z.attos().to_digits();
            Some(Fixed { l0: d[0], l1: d[1], l2: d[2] })
        },
        None => None,
    }
}

/// `Decimal::checked_div` of `scrypto::math`: the dividend's subunits times
/// 10^18, divided by the divisor's and rounded toward zero. It is formed
/// in 256 bits and brought back to 192 by its magnitude: `None` where the
/// divisor is zero or the magnitude of the quotient is 2^191 or more, so
/// also where the quotient would be the lowest `Fixed`.
#[verifier::external_body]
pub(crate) fn fixed_div(a: Fixed, b: Fixed) -> (r: Option<Fixed>)
    ensures
        r matches Some(v) ==> v@ == div18(a@, b@),
        r is Some <==> (b@ != 0 && narrows_to_fixed(div18(a@, b@))),
{
    let x = Decimal::from_attos(I192::from_digits([a.l0, a.l1, a.l2]));
    let y = Decimal::from_attos(I192::from_digits([b.l0, b.l1, b.l2]));
    match x.checked_div(y) {
        Some(z) => {
            let d = z.attos().to_digits();
            Some(Fixed { l0: d[0], l1: d[1], l2: d[2] })
        },
        None => None,
    }
}

/// `PreciseDecimal::from` a `Decimal`, of `scrypto::math`: the same amount
/// with 36 places, its subunits being 10^18 times as many. It always fits.
#[verifier::external_body]
pub(crate) fn precise_from(a: Fixed) -> (r: Precise)
    ensures
        r@ == widen(a@),
{
    let x = Decimal::from_attos(I192::from_digits([a.l0, a.l1, a.l2]));
    let d = PreciseDecimal::from(x).precise_subunits().to_digits();
    Precise { l0: d[0], l1: d[1], l2: d[2], l3: d[3] }
}

/// `Decimal::try_from` a `PreciseDecimal`, of `scrypto::math`: the amount with
/// the last 18 places cut off, toward zero, brought back to 192 bits by
/// its magnitude: `None` where the magnitude is 2^191 or more, so also
/// where the result would be the lowest `Fixed`.
#[verifier::external_body]
pub(crate) fn precise_narrow(p: Precise) -> (r: Option<Fixed>)
    ensures
        r matches Some(v) ==> v@ == narrow(p@),
        r is Some <==> narrows_to_fixed(narrow(p@)),
{
    let x = PreciseDecimal::from_precise_subunits(I256::from_digits([p.l0, p.l1, p.l2, p.l3]));
    match Decimal::try_from(x) {
        Ok(z) => {
            let d = z.attos().to_digits();
            Some(Fixed { l0: d[0], l1: d[1], l2: d[2] })
        },
        Err(_) => None,
    }
}

/// `PreciseDecimal::checked_add` of `scrypto::math`: the exact sum, or `None`
/// where the sum does not fit 256 bits.
#[verifier::external_body]
pub(crate) fn precise_add(a: Precise, b: Precise) -> (r: Option<Precise>)
    ensures
        r matches Some(v) ==> v@ == a@ + b@,
        r is Some <==> in_precise(a@ + b@),
{
    let x = PreciseDecimal::from_precise_subunits(I256::from_digits([a.l0, a.l1, a.l2, a.l3]));
    let y = PreciseDecimal::from_precise_subunits(I256::from_digits([b.l0, b.l1, b.l2, b.l3]));
    match x.checked_add(y) {
        Some(z) => {
            let d = z.precise_subunits().to_digits();
            Some(Precise { l0: d[0], l1: d[1], l2: d[2], l3: d[3] })
        },
        None => None,
    }
}

/// `PreciseDecimal::checked_sub` of `scrypto::math`: the exact difference, or
/// `None` where the difference does not fit 256 bits.
#[verifier::external_body]
pub(crate) fn precise_sub(a: Precise, b: Precise) -> (r: Option<Precise>)
    ensures
        r matches Some(v) ==> v@ == a@ - b@,
        r is Some <==> in_precise(a@ - b@),
{
    let x = PreciseDecimal::from_precise_subunits(I256::from_digits([a.l0, a.l1, a.l2, a.l3]));
    let y = PreciseDecimal::from_precise_subunits(I256::from_digits([b.l0, b.l1, b.l2, b.l3]));
    match x.checked_sub(y) {
        Some(z) => {
            let d = z.precise_subunits().to_digits();
            Some(Precise { l0: d[0], l1: d[1], l2: d[2], l3: d[3] })
        },
        None => None,
    }
}

/// `PreciseDecimal::checked_mul` of `scrypto::math`: the product of the
/// subunits divided by 10^36 and rounded toward zero. It is formed in 384
/// bits and brought back to 256 by its magnitude: `None` where the
/// magnitude is 2^255 or more, so also where the result would be the
/// lowest `Precise`.
#[verifier::external_body]
pub(crate) fn precise_mul(a: Precise, b: Precise) -> (r: Option<Precise>)
    ensures
        r matches Some(v) ==> v@ == mul36(a@, b@),
        r is Some <==> narrows_to_precise(mul36(a@, b@)),
{
    let x = PreciseDecimal::from_precise_subunits(I256::from_digits([a.l0, a.l1, a.l2, a.l3]));
    let y = PreciseDecimal::from_precise_subunits(I256::from_digits([b.l0, b.l1, b.l2, b.l3]));
    match x.checked_mul(y) {
        Some(z) => {
            let d = z.precise_subunits().to_digits();
            Some(Precise { l0: d[0], l1: d[1], l2: d[2], l3: d[3] })
        },
        None => None,
    }
}

/// `PreciseDecimal::checked_div` of `scrypto::math`: the dividend's subunits
/// times 10^36, divided by the divisor's and rounded toward zero. It is
/// formed in 384 bits and brought back to 256 by its magnitude: `None`
/// where the divisor is zero or the magnitude of the quotient is 2^255 or
/// more, so also where the quotient would be the lowest `Precise`.
#[verifier::external_body]
pub(crate) fn precise_div(a: Precise, b: Precise) -> (r: Option<Precise>)
    ensures
        r matches Some(v) ==> v@ == div36(a@, b@),
        r is Some <==> (b@ != 0 && narrows_to_precise(div36(a@, b@))),
{
    let x = PreciseDecimal::from_precise_subunits(I256::from_digits([a.l0, a.l1, a.l2, a.l3]));
    let y = PreciseDecimal::from_precise_subunits(I256::from_digits([b.l0, b.l1, b.l2, b.l3]));
    match x.checked_div(y) {
        Some(z) => {
            let d = z.precise_subunits().to_digits();
            Some(Precise { l0: d[0], l1: d[1], l2: d[2], l3: d[3] })
        },
        None => None,
    }
}

} // verus!
