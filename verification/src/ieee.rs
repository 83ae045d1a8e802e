//! IEEE-754 numbers held as bit patterns.
//!
//! The library compares, orders and carries floating-point quantities (tolerances,
//! SLO thresholds, logits) without ever doing arithmetic on them. A pattern is read
//! as sign and magnitude: for patterns that are not NaN, the signed magnitude orders
//! exactly as the numbers do, and the two zeros coincide.

use vstd::arithmetic::div_mod::lemma_div_denominator;
use vstd::arithmetic::power2::{lemma2_to64, lemma_pow2_pos, lemma_pow2_strictly_increases, lemma_pow2_unfold, pow2};
use vstd::prelude::*;

verus! {

/// Two to the 52nd: the weight of the exponent field of a 64-bit pattern.
pub const UNIT_64: u64 = 0x10_0000_0000_0000;

/// The first pattern past the positive 64-bit patterns: the sign bit alone.
pub const SIGN_64: u64 = 0x8000_0000_0000_0000;

/// Magnitude of the 64-bit infinities; every larger magnitude is a NaN.
pub const INF_64: u64 = 0x7ff0_0000_0000_0000;

/// The sign bit of a 32-bit pattern.
pub const SIGN_32: u32 = 0x8000_0000;

/// Magnitude of the 32-bit infinities; every larger magnitude is a NaN.
pub const INF_32: u32 = 0x7f80_0000;

/// A double-precision number, as its bit pattern.
#[derive(Debug, Clone, Copy)]
pub struct Ieee64 {
    pub bits: u64,
}

/// A single-precision number, as its bit pattern.
#[derive(Debug, Clone, Copy)]
pub struct Ieee32 {
    pub bits: u32,
}

/// Equality of the numbers: the two zeros are equal, and a NaN equals nothing.
impl PartialEq for Ieee64 {
    fn eq(&self, other: &Self) -> (res: bool) {
        !self.is_nan() && !other.is_nan() && (self.bits == other.bits || (self.bits % SIGN_64
            == 0 && other.bits % SIGN_64 == 0))
    }
}

impl vstd::std_specs::cmp::PartialEqSpecImpl for Ieee64 {
    open spec fn obeys_eq_spec() -> bool {
        true
    }

    open spec fn eq_spec(&self, other: &Self) -> bool {
        self.equals(*other)
    }
}

impl Ieee64 {
    pub open spec fn magnitude(self) -> int {
        if self.bits >= SIGN_64 {
            self.bits - SIGN_64
        } else {
            self.bits as int
        }
    }

    pub open spec fn nan(self) -> bool {
        self.magnitude() > INF_64
    }

    /// Orders the numbers: smaller key, smaller number.
    pub open spec fn key(self) -> int {
        if self.bits >= SIGN_64 {
            -self.magnitude()
        } else {
            self.magnitude()
        }
    }

    /// `self == other` as floating-point comparison has it: never true of a NaN.
    pub open spec fn equals(self, other: Ieee64) -> bool {
        !self.nan() && !other.nan() && self.key() == other.key()
    }

    /// `self > other` as floating-point comparison has it: never true of a NaN.
    pub open spec fn above(self, other: Ieee64) -> bool {
        !self.nan() && !other.nan() && self.key() > other.key()
    }

    /// `self <= other` as floating-point comparison has it: never true of a NaN.
    pub open spec fn at_most(self, other: Ieee64) -> bool {
        !self.nan() && !other.nan() && self.key() <= other.key()
    }

    /// Whether an error is worse than another: larger, or no number where the other is one.
    pub open spec fn exceeds(self, other: Ieee64) -> bool {
        self.above(other) || self.nan() && !other.nan()
    }

    /// The larger of two numbers; a NaN gives way to the other operand, and the first
    /// operand wins a tie.
    pub open spec fn larger(self, other: Ieee64) -> Ieee64 {
        if self.nan() || other.above(self) {
            other
        } else {
            self
        }
    }

    pub open spec fn zero_spec() -> Ieee64 {
        Ieee64 { bits: 0 }
    }

    /// The number `n`: its leading bit gives the exponent, the bits below it the fraction.
    pub open spec fn of(n: u32) -> Ieee64 {
        if n == 0 {
            Ieee64 { bits: 0 }
        } else {
            let e = log2(n as nat);
            let m = n * pow2((52 - e) as nat);
            Ieee64 { bits: ((1023 + e) * UNIT_64 + (m - UNIT_64)) as u64 }
        }
    }

    /// The number cut off towards zero and kept within `u64`; zero for a NaN.
    pub open spec fn truncated(self) -> u64 {
        let e = self.bits as int / UNIT_64 as int - 1023;
        let m = UNIT_64 + self.bits as int % UNIT_64 as int;
        if self.nan() || self.bits >= SIGN_64 || e < 0 {
            0
        } else if e >= 64 {
            u64::MAX
        } else if e <= 52 {
            (m / (pow2((52 - e) as nat) as int)) as u64
        } else {
            (m * pow2((e - 52) as nat)) as u64
        }
    }

    /// The number `n`.
    pub fn from_u32(n: u32) -> (res: Ieee64)
        ensures
            res == Ieee64::of(n),
    {
        if n == 0 {
            return Ieee64 { bits: 0 };
        }
        let ghost e = log2(n as nat);
        proof {
            log2_bounds(n as nat);
            lemma2_to64();
            if e > 32 {
                lemma_pow2_strictly_increases(32, e);
            }
            assert(e <= 31);
            normal_bounds(n as nat, e);
        }
        let mut m: u64 = n as u64;
        let mut k: u64 = 0;
        assert(m == n * pow2(0)) by {
            lemma2_to64();
        }
        while m < UNIT_64
            invariant
                0 < n,
                e == log2(n as nat),
                e <= 31,
                k <= 52 - e,
                m == n * pow2(k as nat),
                UNIT_64 <= n * pow2((52 - e) as nat) < 2 * UNIT_64,
            decreases 52 - e - k,
        {
            proof {
                if k == 52 - e {
                    assert(m >= UNIT_64);
                }
                lemma_pow2_unfold((k + 1) as nat);
                assert(n * (2 * pow2(k as nat)) == 2 * (n * pow2(k as nat))) by (nonlinear_arith);
            }
            m = m * 2;
            k = k + 1;
        }
        proof {
            if k < 52 - e {
                doubling_stays_below(n as nat, k as nat, (52 - e) as nat);
            }
            assert(k == 52 - e);
        }
        Ieee64 { bits: (1023 + (52 - k)) * UNIT_64 + (m - UNIT_64) }
    }

    /// The number cut off towards zero; what does not fit is the nearest `u64`.
    pub fn to_u64(self) -> (res: u64)
        ensures
            res == self.truncated(),
    {
        if self.is_nan() || self.bits >= SIGN_64 {
            return 0;
        }
        let exp: u64 = self.bits / UNIT_64;
        let m: u64 = UNIT_64 + self.bits % UNIT_64;
        if exp < 1023 {
            return 0;
        }
        let e: u64 = exp - 1023;
        if e >= 64 {
            return u64::MAX;
        }
        if e <= 52 {
            let mut x: u64 = m;
            let mut k: u64 = 0;
            assert(m as int / (pow2(0) as int) == m) by {
                lemma2_to64();
            }
            while k < 52 - e
                invariant
                    k <= 52 - e,
                    e <= 52,
                    x == m as int / (pow2(k as nat) as int),
                decreases 52 - e - k,
            {
                proof {
                    lemma_pow2_pos(k as nat);
                    lemma_pow2_unfold((k + 1) as nat);
                    lemma_div_denominator(m as int, pow2(k as nat) as int, 2);
                    assert(pow2(k as nat) * 2 == pow2((k + 1) as nat));
                }
                x = x / 2;
                k = k + 1;
            }
            x
        } else {
            let mut x: u64 = m;
            let mut k: u64 = 0;
            assert(m * pow2(0) == m) by {
                lemma2_to64();
                assert(m * 1 == m);
            }
            while k < e - 52
                invariant
                    k <= e - 52,
                    52 < e < 64,
                    m < 2 * UNIT_64,
                    x == m * pow2(k as nat),
                decreases e - 52 - k,
            {
                proof {
                    lemma_pow2_unfold((k + 1) as nat);
                    lemma2_to64();
                    if k + 1 < 11 {
                        lemma_pow2_strictly_increases((k + 1) as nat, 11);
                    }
                    let p = pow2((k + 1) as nat);
                    assert(m * p <= 0x1f_ffff_ffff_ffff * 2048) by (nonlinear_arith)
                        requires
                            m <= 0x1f_ffff_ffff_ffff,
                            p <= 2048,
                    ;
                    assert(m * (2 * pow2(k as nat)) == 2 * (m * pow2(k as nat)))
                        by (nonlinear_arith);
                }
                x = x * 2;
                k = k + 1;
            }
            x
        }
    }

    /// Positive zero.
    pub fn zero() -> (res: Ieee64)
        ensures
            res == Self::zero_spec(),
    {
        Ieee64 { bits: 0 }
    }

    pub fn is_nan(self) -> (res: bool)
        ensures
            res == self.nan(),
    {
        if self.bits >= SIGN_64 {
            self.bits - SIGN_64 > INF_64
        } else {
            self.bits > INF_64
        }
    }

    /// `self > other`.
    pub fn gt(self, other: Ieee64) -> (res: bool)
        ensures
            res == self.above(other),
    {
        if self.is_nan() || other.is_nan() {
            return false;
        }
        if self.bits >= SIGN_64 {
            other.bits >= SIGN_64 && self.bits < other.bits
        } else if other.bits >= SIGN_64 {
            self.bits > 0 || other.bits > SIGN_64
        } else {
            self.bits > other.bits
        }
    }

    /// `self <= other`.
    pub fn le(self, other: Ieee64) -> (res: bool)
        ensures
            res == self.at_most(other),
    {
        !self.is_nan() && !other.is_nan() && !self.gt(other)
    }

    /// Whether an error is worse than another: larger, or no number where the other is one.
    pub fn is_worse_than(self, other: Ieee64) -> (res: bool)
        ensures
            res == self.exceeds(other),
    {
        self.gt(other) || (self.is_nan() && !other.is_nan())
    }

    /// The larger of the two; a NaN operand gives way to the other one.
    pub fn max(self, other: Ieee64) -> (res: Ieee64)
        ensures
            res == self.larger(other),
    {
        if self.is_nan() || other.gt(self) {
            other
        } else {
            self
        }
    }
}

/// Equality of the numbers: the two zeros are equal, and a NaN equals nothing.
impl PartialEq for Ieee32 {
    fn eq(&self, other: &Self) -> (res: bool) {
        !self.is_nan() && !other.is_nan() && (self.bits == other.bits || (self.bits % SIGN_32
            == 0 && other.bits % SIGN_32 == 0))
    }
}

impl vstd::std_specs::cmp::PartialEqSpecImpl for Ieee32 {
    open spec fn obeys_eq_spec() -> bool {
        true
    }

    open spec fn eq_spec(&self, other: &Self) -> bool {
        self.equals(*other)
    }
}

impl Ieee32 {
    pub open spec fn magnitude(self) -> int {
        if self.bits >= SIGN_32 {
            self.bits - SIGN_32
        } else {
            self.bits as int
        }
    }

    pub open spec fn nan(self) -> bool {
        self.magnitude() > INF_32
    }

    /// Orders the numbers: smaller key, smaller number.
    pub open spec fn key(self) -> int {
        if self.bits >= SIGN_32 {
            -self.magnitude()
        } else {
            self.magnitude()
        }
    }

    /// `self == other` as floating-point comparison has it: never true of a NaN.
    pub open spec fn equals(self, other: Ieee32) -> bool {
        !self.nan() && !other.nan() && self.key() == other.key()
    }

    /// `self > other` as floating-point comparison has it: never true of a NaN.
    pub open spec fn above(self, other: Ieee32) -> bool {
        !self.nan() && !other.nan() && self.key() > other.key()
    }

    pub open spec fn zero_spec() -> Ieee32 {
        Ieee32 { bits: 0 }
    }

    /// Positive zero.
    pub fn zero() -> (res: Ieee32)
        ensures
            res == Self::zero_spec(),
    {
        Ieee32 { bits: 0 }
    }

    pub open spec fn neg_infinity_spec() -> Ieee32 {
        Ieee32 { bits: 0xff80_0000 }
    }

    /// Negative infinity, below every other number.
    pub fn neg_infinity() -> (res: Ieee32)
        ensures
            res == Self::neg_infinity_spec(),
    {
        Ieee32 { bits: 0xff80_0000 }
    }

    pub fn is_nan(self) -> (res: bool)
        ensures
            res == self.nan(),
    {
        if self.bits >= SIGN_32 {
            self.bits - SIGN_32 > INF_32
        } else {
            self.bits > INF_32
        }
    }

    /// `self > other`.
    pub fn gt(self, other: Ieee32) -> (res: bool)
        ensures
            res == self.above(other),
    {
        if self.is_nan() || other.is_nan() {
            return false;
        }
        if self.bits >= SIGN_32 {
            other.bits >= SIGN_32 && self.bits < other.bits
        } else if other.bits >= SIGN_32 {
            self.bits > 0 || other.bits > SIGN_32
        } else {
            self.bits > other.bits
        }
    }
}

/// The position of the leading bit of a number.
pub open spec fn log2(n: nat) -> nat
    decreases n,
{
    if n < 2 {
        0
    } else {
        1 + log2(n / 2)
    }
}

proof fn log2_bounds(n: nat)
    requires
        n > 0,
    ensures
        pow2(log2(n)) <= n < 2 * pow2(log2(n)),
    decreases n,
{
    lemma2_to64();
    if n >= 2 {
        log2_bounds(n / 2);
        lemma_pow2_unfold(log2(n));
    }
}

/// A number shifted until its leading bit is bit 52 lies between two to the 52nd and the
/// 53rd.
proof fn normal_bounds(n: nat, e: nat)
    requires
        n > 0,
        e == log2(n),
        e <= 52,
    ensures
        UNIT_64 <= n * pow2((52 - e) as nat) < 2 * UNIT_64,
{
    log2_bounds(n);
    vstd::arithmetic::power2::lemma_pow2_adds(e, (52 - e) as nat);
    lemma2_to64();
    lemma_pow2_pos((52 - e) as nat);
    let p = pow2(e);
    let q = pow2((52 - e) as nat);
    vstd::arithmetic::power2::lemma_pow2_adds(32, 20);
    assert(p * q == UNIT_64);
    assert(p * q <= n * q < 2 * (p * q)) by (nonlinear_arith)
        requires
            p <= n < 2 * p,
            q > 0,
    ;
}

proof fn doubling_stays_below(n: nat, k: nat, top: nat)
    requires
        k < top,
        n > 0,
        n * pow2(top) < 2 * UNIT_64,
    ensures
        n * pow2(k) < UNIT_64,
{
    lemma_pow2_unfold(top);
    if k < top - 1 {
        lemma_pow2_strictly_increases(k, (top - 1) as nat);
    }
    let a = pow2(k);
    let b = pow2((top - 1) as nat);
    assert(n * (2 * b) == 2 * (n * b)) by (nonlinear_arith);
    assert(n * a <= n * b) by (nonlinear_arith)
        requires
            a <= b,
    ;
}

/// Of two numbers neither of which is NaN, `larger` is an upper bound of both and one
/// of them.
pub proof fn larger_is_an_upper_bound(a: Ieee64, b: Ieee64)
    requires
        !a.nan(),
        !b.nan(),
    ensures
        a.at_most(a.larger(b)),
        b.at_most(a.larger(b)),
        a.larger(b) == a || a.larger(b) == b,
{
}

proof fn whole_number_parts(n: u32) -> (r: (int, int))
    requires
        n > 0,
    ensures
        r.0 == log2(n as nat),
        0 <= r.0 <= 31,
        pow2(r.0 as nat) <= n < 2 * pow2(r.0 as nat),
        r.1 == n * pow2((52 - r.0) as nat),
        UNIT_64 <= r.1 < 2 * UNIT_64,
        Ieee64::of(n).bits == (1023 + r.0) * UNIT_64 + (r.1 - UNIT_64),
        Ieee64::of(n).bits < INF_64,
{
    let e = log2(n as nat);
    log2_bounds(n as nat);
    lemma2_to64();
    if e >= 32 {
        if e > 32 {
            lemma_pow2_strictly_increases(32, e);
        }
        assert(pow2(e) >= 0x1_0000_0000);
    }
    normal_bounds(n as nat, e);
    let m = n * pow2((52 - e) as nat);
    assert((1023 + e) * UNIT_64 + (m - UNIT_64) < INF_64) by (nonlinear_arith)
        requires
            e <= 31,
            m < 2 * UNIT_64,
            UNIT_64 == 0x10_0000_0000_0000,
            INF_64 == 0x7ff0_0000_0000_0000,
    ;
    assert((1023 + e) * UNIT_64 >= 0) by (nonlinear_arith)
        requires
            e >= 0,
    ;
    (e as int, m)
}

/// A whole number is a number, and not a negative one.
pub proof fn whole_numbers_are_numbers(n: u32)
    ensures
        !Ieee64::of(n).nan(),
        Ieee64::zero_spec().at_most(Ieee64::of(n)),
{
    if n > 0 {
        let r = whole_number_parts(n);
    }
}

/// A whole number cut off towards zero is itself.
pub proof fn whole_numbers_come_back(n: u32)
    ensures
        Ieee64::of(n).truncated() == n,
{
    if n > 0 {
        let (e, m) = whole_number_parts(n);
        let bits = Ieee64::of(n).bits as int;
        let unit = UNIT_64 as int;
        assert(bits / unit == 1023 + e && bits % unit == m - unit) by (nonlinear_arith)
            requires
                bits == (1023 + e) * unit + (m - unit),
                unit <= m < 2 * unit,
                unit == 0x10_0000_0000_0000,
        ;
        let p = pow2((52 - e) as nat) as int;
        lemma_pow2_pos((52 - e) as nat);
        assert((n * p) / p == n) by (nonlinear_arith)
            requires
                p > 0,
        ;
    } else {
        assert(0int / (UNIT_64 as int) == 0) by (nonlinear_arith)
            requires
                UNIT_64 == 0x10_0000_0000_0000,
        ;
    }
}

/// Whole numbers compare as they do as integers.
pub proof fn whole_numbers_keep_their_order(a: u32, b: u32)
    ensures
        Ieee64::of(a).above(Ieee64::of(b)) <==> a > b,
        Ieee64::of(a).at_most(Ieee64::of(b)) <==> a <= b,
        Ieee64::of(a).equals(Ieee64::of(b)) <==> a == b,
{
    if a < b {
        smaller_whole_number(a, b);
    } else if b < a {
        smaller_whole_number(b, a);
    } else {
        whole_numbers_are_numbers(a);
    }
}

proof fn smaller_whole_number(a: u32, b: u32)
    requires
        a < b,
    ensures
        Ieee64::of(a).bits < Ieee64::of(b).bits < INF_64,
{
    let (f, k) = whole_number_parts(b);
    let unit = UNIT_64 as int;
    if a == 0 {
        assert((1023 + f) * unit + (k - unit) > 0) by (nonlinear_arith)
            requires
                f >= 0,
                k >= unit,
                unit == 0x10_0000_0000_0000,
        ;
    } else {
        let (e, m) = whole_number_parts(a);
        if e > f {
            lemma_pow2_unfold((f + 1) as nat);
            if e > f + 1 {
                lemma_pow2_strictly_increases((f + 1) as nat, e as nat);
            }
            assert(false);
        } else if e == f {
            let p = pow2((52 - e) as nat) as int;
            lemma_pow2_pos((52 - e) as nat);
            assert(a * p < b * p) by (nonlinear_arith)
                requires
                    a < b,
                    p > 0,
            ;
        } else {
            assert((1023 + e) * unit + (m - unit) < (1023 + f) * unit + (k - unit))
                by (nonlinear_arith)
                requires
                    e + 1 <= f,
                    m < 2 * unit,
                    k >= unit,
                    unit == 0x10_0000_0000_0000,
            ;
        }
    }
}

/// Numbers are ordered: of two that are no NaN exactly one of greater, equal and less holds,
/// `at most` is the opposite of greater, a NaN stands in no relation, and the sign decides
/// between a positive and a negative number.
pub proof fn numbers_are_ordered(a: Ieee64, b: Ieee64, c: Ieee64)
    ensures
        !a.nan() && !b.nan() ==> {
            &&& a.above(b) || b.above(a) || a.equals(b)
            &&& !(a.above(b) && b.above(a))
            &&& a.equals(b) ==> !a.above(b) && !b.above(a)
            &&& a.at_most(b) <==> !a.above(b)
        },
        a.nan() || b.nan() ==> !a.above(b) && !a.at_most(b) && !a.equals(b),
        a.above(b) && b.above(c) ==> a.above(c),
        a.at_most(b) && b.at_most(c) ==> a.at_most(c),
        !a.nan() && !b.nan() && a.bits > 0 && a.bits < SIGN_64 && b.bits >= SIGN_64 ==> a.above(b),
        !a.nan() && !b.nan() && a.bits < SIGN_64 && b.bits < SIGN_64 ==> (a.above(b) <==> a.bits
            > b.bits),
        !a.nan() && !b.nan() && a.bits >= SIGN_64 && b.bits >= SIGN_64 ==> (a.above(b) <==> a.bits
            < b.bits),
        (Ieee64 { bits: 0x8000_0000_0000_0000 }).equals(Ieee64 { bits: 0 }),
{
}

/// The same of single-precision numbers.
pub proof fn single_numbers_are_ordered(a: Ieee32, b: Ieee32, c: Ieee32)
    ensures
        !a.nan() && !b.nan() ==> {
            &&& a.above(b) || b.above(a) || a.equals(b)
            &&& !(a.above(b) && b.above(a))
            &&& a.equals(b) ==> !a.above(b) && !b.above(a)
        },
        a.nan() || b.nan() ==> !a.above(b) && !a.equals(b),
        a.above(b) && b.above(c) ==> a.above(c),
        !a.nan() && !b.nan() && a.bits > 0 && a.bits < SIGN_32 && b.bits >= SIGN_32 ==> a.above(b),
        !a.nan() && !b.nan() && a.bits < SIGN_32 && b.bits < SIGN_32 ==> (a.above(b) <==> a.bits
            > b.bits),
        !a.nan() && !b.nan() && a.bits >= SIGN_32 && b.bits >= SIGN_32 ==> (a.above(b) <==> a.bits
            < b.bits),
        (Ieee32 { bits: 0x8000_0000 }).equals(Ieee32 { bits: 0 }),
        !a.nan() ==> !Ieee32::neg_infinity_spec().above(a),
{
}

/// Cut off towards zero, a positive number below two to the 64th loses less than one: it
/// lies between the whole part and the next whole number, where these fit 32 bits.
pub proof fn whole_part_is_just_below(x: Ieee64, n: u32)
    requires
        Ieee64::zero_spec().at_most(x),
        Ieee64::of(n).at_most(x),
        n < u32::MAX,
        Ieee64::of((n + 1) as u32).above(x),
    ensures
        x.truncated() == n,
{
    whole_numbers_are_numbers(n);
    let unit = UNIT_64 as int;
    let bits = x.bits as int;
    let (f, k) = whole_number_parts((n + 1) as u32);
    if x.bits >= SIGN_64 {
        // only negative zero is left, which is the number zero
        assert(n == 0) by {
            if n > 0 {
                let r = whole_number_parts(n);
                whole_numbers_keep_their_order(n, 0);
            }
        }
    } else {
        let e = bits / unit - 1023;
        let m = unit + bits % unit;
        assert(bits == (1023 + e) * unit + (m - unit)) by (nonlinear_arith)
            requires
                e == bits / unit - 1023,
                m == unit + bits % unit,
                unit == 0x10_0000_0000_0000,
        ;
        assert(unit <= m < 2 * unit) by (nonlinear_arith)
            requires
                m == unit + bits % unit,
                unit == 0x10_0000_0000_0000,
        ;
        assert(e <= f) by (nonlinear_arith)
            requires
                (1023 + e) * unit + (m - unit) < (1023 + f) * unit + (k - unit),
                m >= unit,
                k < 2 * unit,
                unit == 0x10_0000_0000_0000,
        ;
        if n == 0 {
            lemma2_to64();
            assert(log2(1) == 0);
            if e >= 0 {
                assert(f == 0);
                assert(pow2(52) == unit) by {
                    vstd::arithmetic::power2::lemma_pow2_adds(32, 20);
                }
                assert(k == 1 * unit);
                assert(bits < (1023 + f) * unit + (k - unit));
                assert(e < 0) by (nonlinear_arith)
                    requires
                        (1023 + e) * unit + (m - unit) < 1023 * unit,
                        m >= unit,
                        unit == 0x10_0000_0000_0000,
                ;
            }
        } else {
            let (g, j) = whole_number_parts(n);
            assert(g <= e) by (nonlinear_arith)
                requires
                    (1023 + g) * unit + (j - unit) <= (1023 + e) * unit + (m - unit),
                    j >= unit,
                    m < 2 * unit,
                    unit == 0x10_0000_0000_0000,
            ;
            let p = pow2((52 - e) as nat) as int;
            lemma_pow2_pos((52 - e) as nat);
            vstd::arithmetic::power2::lemma_pow2_adds(e as nat, (52 - e) as nat);
            lemma2_to64();
            vstd::arithmetic::power2::lemma_pow2_adds(32, 20);
            assert(pow2(e as nat) * p == unit);
            let q = pow2(e as nat) as int;
            // m < (n + 1) * p
            if e == f {
                assert(m < k);
                assert(k == (n + 1) * p);
            } else {
                lemma_pow2_unfold((e + 1) as nat);
                if f > e + 1 {
                    lemma_pow2_strictly_increases((e + 1) as nat, f as nat);
                }
                assert(n + 1 >= 2 * q);
                assert((n + 1) * p >= 2 * (q * p)) by (nonlinear_arith)
                    requires
                        n + 1 >= 2 * q,
                        p > 0,
                ;
            }
            // n * p <= m
            if e == g {
                assert(j == n * p);
                assert(j <= m);
            } else {
                lemma_pow2_unfold((g + 1) as nat);
                if e > g + 1 {
                    lemma_pow2_strictly_increases((g + 1) as nat, e as nat);
                }
                assert(n < q);
                assert(n * p <= q * p) by (nonlinear_arith)
                    requires
                        n < q,
                        p > 0,
                ;
            }
            assert(m / p == n) by (nonlinear_arith)
                requires
                    n * p <= m < (n + 1) * p,
                    p > 0,
            ;
        }
    }
}

} // verus!
