//! Coordinates and scores: finite double-precision numbers, held as their IEEE 754 bit patterns and
//! computed with in whole numbers.

use vstd::arithmetic::div_mod::*;
use vstd::arithmetic::mul::*;
use vstd::arithmetic::power2::*;
use vstd::prelude::*;

verus! {

/// The bit that makes a number negative.
pub const SIGN_BIT: u64 = 0x8000_0000_0000_0000;

/// The bit pattern of infinity.
pub const INFINITY_BITS: u64 = 0x7ff0_0000_0000_0000;

/// The bit pattern of one.
pub const ONE_BITS: u64 = 0x3ff0_0000_0000_0000;

/// The bit pattern of the largest finite number.
pub const LARGEST_BITS: u64 = 0x7fef_ffff_ffff_ffff;

/// The weight of the exponent field, and of the leading bit of a significand.
pub const EXPONENT_UNIT: u64 = 0x10_0000_0000_0000;

/// What every significand is below.
pub const SIGNIFICAND_LIMIT: u64 = 0x20_0000_0000_0000;

/// The bit pattern without its sign.
pub open spec fn magnitude(bits: u64) -> int {
    bits as int % SIGN_BIT as int
}

/// Whether a bit pattern stands for a finite number.
pub open spec fn is_finite_bits(bits: u64) -> bool {
    magnitude(bits) < INFINITY_BITS
}

/// Where a number stands among all numbers: the order of the keys is the order of the numbers, and
/// the two zeros share one key.
pub open spec fn key(bits: u64) -> int {
    if bits >= SIGN_BIT {
        -magnitude(bits)
    } else {
        magnitude(bits)
    }
}

/// The smaller of two numbers.
pub open spec fn lesser(a: u64, b: u64) -> u64 {
    if key(b) < key(a) {
        b
    } else {
        a
    }
}

/// The larger of two numbers.
pub open spec fn greater(a: u64, b: u64) -> u64 {
    if key(b) > key(a) {
        b
    } else {
        a
    }
}

/// The number, or the bound that it is beyond.
pub open spec fn clamped(x: u64, low: u64, high: u64) -> u64 {
    if key(x) < key(low) {
        low
    } else if key(x) > key(high) {
        high
    } else {
        x
    }
}

/// The smallest of some numbers.
pub open spec fn least(numbers: Seq<u64>) -> u64
    decreases numbers.len(),
{
    if numbers.len() <= 1 {
        numbers[0]
    } else {
        lesser(least(numbers.drop_last()), numbers.last())
    }
}

/// The largest of some numbers.
pub open spec fn greatest(numbers: Seq<u64>) -> u64
    decreases numbers.len(),
{
    if numbers.len() <= 1 {
        numbers[0]
    } else {
        greater(greatest(numbers.drop_last()), numbers.last())
    }
}

/// The exponent field of a number.
pub open spec fn exponent(bits: u64) -> int {
    magnitude(bits) / EXPONENT_UNIT as int
}

/// The significand of a number, without its sign.
pub open spec fn significand(bits: u64) -> int {
    if exponent(bits) == 0 {
        magnitude(bits)
    } else {
        EXPONENT_UNIT + magnitude(bits) % EXPONENT_UNIT as int
    }
}

/// The power of two that the significand counts, in units of the smallest number, as an exponent.
pub open spec fn scale(bits: u64) -> int {
    if exponent(bits) == 0 {
        0
    } else {
        exponent(bits) - 1
    }
}

/// The exponent of the number of units in one.
pub const UNITS_IN_ONE: u64 = 1074;

/// A number without its sign, counted in units of the smallest number above zero, of which one
/// holds two to the power `UNITS_IN_ONE`.
pub open spec fn units(bits: u64) -> int {
    significand(bits) * pow2(scale(bits) as nat)
}

/// Whether a bit pattern stands for the given whole number.
pub open spec fn is_whole(bits: u64, n: u32) -> bool {
    &&& bits < SIGN_BIT
    &&& is_finite_bits(bits)
    &&& units(bits) == n * pow2(UNITS_IN_ONE as nat)
}

/// The bit pattern of a whole number.
pub open spec fn whole_bits(n: u32) -> u64 {
    choose|bits: u64| is_whole(bits, n)
}

/// The whole part of a count of units, at most the largest `u32`.
pub open spec fn whole_part(count: int) -> int {
    let whole = count / pow2(UNITS_IN_ONE as nat) as int;
    if whole > u32::MAX {
        u32::MAX as int
    } else {
        whole
    }
}

/// The number of bits that a count of units has beyond those that a significand can hold.
pub open spec fn excess(count: int) -> nat
    decreases count,
{
    if count < SIGNIFICAND_LIMIT {
        0
    } else {
        1 + excess(count / 2)
    }
}

/// The count of units of the number nearest to the given count, the even one of two that are
/// equally near.
pub open spec fn rounded(count: int) -> int {
    let step = pow2(excess(count)) as int;
    let below = count / step;
    let rest = count % step;
    if 2 * rest > step || (2 * rest == step && below % 2 == 1) {
        (below + 1) * step
    } else {
        below * step
    }
}

/// The count of units of the number nearest to `count / divisor`, the even one of two that are
/// equally near.
pub open spec fn rounded_quotient(count: int, divisor: int) -> int {
    let step = pow2(excess(count / divisor)) as int;
    let below = count / (divisor * step);
    let rest = count % (divisor * step);
    if 2 * rest > divisor * step || (2 * rest == divisor * step && below % 2 == 1) {
        (below + 1) * step
    } else {
        below * step
    }
}

/// Whether a bit pattern stands for the finite number of a sign and a count of units.
pub open spec fn is_number(bits: u64, negative: bool, count: int) -> bool {
    &&& bits >= SIGN_BIT <==> negative
    &&& is_finite_bits(bits)
    &&& units(bits) == count
}

/// The bit pattern of the finite number of a sign and a count of units.
pub open spec fn number_of(negative: bool, count: int) -> u64 {
    choose|bits: u64| is_number(bits, negative, count)
}

/// A number divided by a whole number, rounded to the nearest number.
pub open spec fn quotient(part: u64, whole: u32) -> u64 {
    number_of(part >= SIGN_BIT, rounded_quotient(units(part), whole as int))
}

/// How many units lie between two numbers that are not negative.
pub open spec fn gap(a: u64, b: u64) -> int {
    if units(a) < units(b) {
        units(b) - units(a)
    } else {
        units(a) - units(b)
    }
}

/// Whether the difference of two numbers that are not negative is negative: the first is the smaller
/// one, or a negative zero from which a positive one is taken.
pub open spec fn is_negative_difference(to: u64, from: u64) -> bool {
    units(to) < units(from) || (units(to) == units(from) && to >= SIGN_BIT && from < SIGN_BIT)
}

/// The difference of two numbers that are not negative, rounded to the nearest number.
pub open spec fn difference(to: u64, from: u64) -> u64 {
    number_of(is_negative_difference(to, from), rounded(gap(to, from)))
}

/// The sum of two numbers that are not negative, rounded to the nearest number. It is a negative zero
/// only where both are.
pub open spec fn sum(a: u64, b: u64) -> u64 {
    number_of(a >= SIGN_BIT && b >= SIGN_BIT, rounded(units(a) + units(b)))
}

/// A finite double-precision number.
#[derive(Debug, Clone, Copy, PartialEq, Eq, Structural)]
pub struct Real {
    bits: u64,
}

impl View for Real {
    type V = u64;

    closed spec fn view(&self) -> u64 {
        self.bits
    }
}

impl Real {
    #[verifier::type_invariant]
    spec fn is_finite(self) -> bool {
        is_finite_bits(self.bits)
    }

    /// The finite number with the given bit pattern.
    pub fn from_bits(bits: u64) -> (r: Option<Real>)
        ensures
            r is Some <==> is_finite_bits(bits),
            r matches Some(number) ==> number@ == bits,
    {
        if bits % SIGN_BIT < INFINITY_BITS {
            Some(Real { bits })
        } else {
            None
        }
    }

    /// The bit pattern of the number.
    pub fn to_bits(self) -> (bits: u64)
        ensures
            bits == self@,
            is_finite_bits(bits),
    {
        proof {
            use_type_invariant(self);
        }
        self.bits
    }

    /// Zero.
    pub fn zero() -> (r: Real)
        ensures
            r@ == 0,
    {
        Real { bits: 0 }
    }

    /// One.
    pub fn one() -> (r: Real)
        ensures
            r@ == ONE_BITS,
    {
        Real { bits: ONE_BITS }
    }

    /// The largest number.
    pub fn largest() -> (r: Real)
        ensures
            r@ == LARGEST_BITS,
    {
        Real { bits: LARGEST_BITS }
    }

    /// Whether the number is less than another.
    pub fn is_less(self, other: Real) -> (less: bool)
        ensures
            less == (key(self@) < key(other@)),
    {
        let a: u64 = self.bits % SIGN_BIT;
        let b: u64 = other.bits % SIGN_BIT;
        if self.bits >= SIGN_BIT {
            if other.bits >= SIGN_BIT {
                b < a
            } else {
                a > 0 || b > 0
            }
        } else if other.bits >= SIGN_BIT {
            false
        } else {
            a < b
        }
    }

    /// The smaller of two numbers.
    pub fn min(self, other: Real) -> (r: Real)
        ensures
            r@ == lesser(self@, other@),
    {
        if other.is_less(self) {
            other
        } else {
            self
        }
    }

    /// The larger of two numbers.
    pub fn max(self, other: Real) -> (r: Real)
        ensures
            r@ == greater(self@, other@),
    {
        if self.is_less(other) {
            other
        } else {
            self
        }
    }

    /// The number, or the bound that it is beyond.
    pub fn clamp(self, low: Real, high: Real) -> (r: Real)
        ensures
            r@ == clamped(self@, low@, high@),
            is_finite_bits(r@),
    {
        proof {
            use_type_invariant(self);
            use_type_invariant(low);
            use_type_invariant(high);
        }
        if self.is_less(low) {
            low
        } else if high.is_less(self) {
            high
        } else {
            self
        }
    }
}

/// The bit patterns of some numbers.
pub open spec fn bit_patterns(numbers: Seq<Real>) -> Seq<u64> {
    numbers.map_values(|number: Real| number@)
}

/// The smallest of some numbers.
pub fn least_of(numbers: &Vec<Real>) -> (r: Real)
    requires
        numbers@.len() > 0,
    ensures
        r@ == least(bit_patterns(numbers@)),
{
    let ghost all = bit_patterns(numbers@);
    let mut r = numbers[0];
    assert(all.take(1)[0] == r@);
    for i in 1..numbers.len()
        invariant
            all == bit_patterns(numbers@),
            r@ == least(all.take(i as int)),
    {
        assert(all.take(i + 1).drop_last() =~= all.take(i as int));
        assert(all.take(i + 1).last() == numbers@[i as int]@);
        r = r.min(numbers[i]);
    }
    assert(all.take(numbers@.len() as int) =~= all);
    r
}

/// The largest of some numbers.
pub fn greatest_of(numbers: &Vec<Real>) -> (r: Real)
    requires
        numbers@.len() > 0,
    ensures
        r@ == greatest(bit_patterns(numbers@)),
{
    let ghost all = bit_patterns(numbers@);
    let mut r = numbers[0];
    assert(all.take(1)[0] == r@);
    for i in 1..numbers.len()
        invariant
            all == bit_patterns(numbers@),
            r@ == greatest(all.take(i as int)),
    {
        assert(all.take(i + 1).drop_last() =~= all.take(i as int));
        assert(all.take(i + 1).last() == numbers@[i as int]@);
        r = r.max(numbers[i]);
    }
    assert(all.take(numbers@.len() as int) =~= all);
    r
}

/// The smallest number is one of them and exceeds none of them; the largest likewise.
pub proof fn law_least_and_greatest(numbers: Seq<u64>)
    requires
        numbers.len() > 0,
    ensures
        numbers.contains(least(numbers)),
        numbers.contains(greatest(numbers)),
        forall|i: int|
            0 <= i < numbers.len() ==> key(least(numbers)) <= key(#[trigger] numbers[i]) <= key(
                greatest(numbers),
            ),
    decreases numbers.len(),
{
    if numbers.len() > 1 {
        let rest = numbers.drop_last();
        law_least_and_greatest(rest);
        assert(rest.contains(least(rest)) && rest.contains(greatest(rest)));
        assert forall|x: u64| rest.contains(x) implies numbers.contains(x) by {
            let i = choose|i: int| 0 <= i < rest.len() && rest[i] == x;
            assert(numbers[i] == x);
        }
        assert(numbers.contains(numbers.last()));
        assert forall|i: int| 0 <= i < numbers.len() implies key(least(numbers)) <= key(
            #[trigger] numbers[i],
        ) <= key(greatest(numbers)) by {
            if i < rest.len() {
                assert(rest[i] == numbers[i]);
            }
        }
    } else {
        assert(numbers[0] == least(numbers));
    }
}

/// A clamped number lies between the bounds, and one that did so before is unchanged.
pub proof fn law_clamped_between(x: u64, low: u64, high: u64)
    requires
        key(low) <= key(high),
    ensures
        key(low) <= key(clamped(x, low, high)) <= key(high),
        key(low) <= key(x) <= key(high) ==> clamped(x, low, high) == x,
{
}

proof fn lemma_pow2_split(a: nat, b: nat)
    ensures
        pow2(a + b) == pow2(a) * pow2(b),
        pow2(a) > 0,
        pow2(b) > 0,
{
    lemma_pow2_adds(a, b);
    lemma_pow2_pos(a);
    lemma_pow2_pos(b);
}

proof fn lemma_pow2_monotone(a: nat, b: nat)
    requires
        a <= b,
    ensures
        0 < pow2(a) <= pow2(b),
{
    lemma_pow2_pos(a);
    if a < b {
        lemma_pow2_strictly_increases(a, b);
    }
}

proof fn lemma_divide_scaled(x: int, a: nat, b: nat)
    requires
        0 <= x,
    ensures
        (x * pow2(a)) / pow2(a + b) as int == x / pow2(b) as int,
{
    lemma_pow2_split(a, b);
    lemma_mul_is_commutative(x, pow2(a) as int);
    lemma_div_multiples_vanish(x, pow2(a) as int);
    lemma_mul_nonnegative(x, pow2(a) as int);
    lemma_div_denominator(x * pow2(a), pow2(a) as int, pow2(b) as int);
}

/// The parts of a number.
proof fn lemma_parts(bits: u64)
    requires
        is_finite_bits(bits),
    ensures
        0 <= exponent(bits) < 2047,
        0 <= scale(bits) < 2046,
        0 <= significand(bits) < SIGNIFICAND_LIMIT,
        exponent(bits) > 0 ==> EXPONENT_UNIT <= significand(bits),
        exponent(bits) == 0 ==> significand(bits) < EXPONENT_UNIT,
        0 <= units(bits),
{
    lemma_pow2_pos(scale(bits) as nat);
    lemma_mul_nonnegative(significand(bits), pow2(scale(bits) as nat) as int);
}

/// The order of the keys of numbers that are not negative is the order of their values.
pub proof fn law_keys_order_by_value(a: u64, b: u64)
    requires
        is_finite_bits(a),
        is_finite_bits(b),
        0 <= key(a),
        0 <= key(b),
    ensures
        key(a) <= key(b) <==> units(a) <= units(b),
{
    if key(a) <= key(b) {
        lemma_units_monotone(a, b);
    } else {
        lemma_units_monotone(b, a);
        lemma_units_injective(a, b);
    }
}

proof fn lemma_units_monotone(a: u64, b: u64)
    requires
        is_finite_bits(a),
        is_finite_bits(b),
        magnitude(a) <= magnitude(b),
    ensures
        units(a) <= units(b),
        scale(a) <= scale(b),
{
    lemma_parts(a);
    lemma_parts(b);
    let sa = scale(a) as nat;
    let sb = scale(b) as nat;
    lemma_pow2_pos(sa);
    if exponent(a) == exponent(b) {
        lemma_mul_inequality(significand(a), significand(b), pow2(sa) as int);
    } else if exponent(a) == 0 {
        lemma_pow2_monotone(sa, sb);
        lemma_mul_inequality(significand(a), significand(b), pow2(sa) as int);
        lemma_mul_is_commutative(significand(b), pow2(sa) as int);
        lemma_mul_is_commutative(significand(b), pow2(sb) as int);
        lemma_mul_inequality(pow2(sa) as int, pow2(sb) as int, significand(b));
    } else {
        lemma_pow2_monotone(sa + 1, sb);
        lemma_pow2_unfold(sa + 1);
        lemma_mul_inequality(significand(a), SIGNIFICAND_LIMIT as int, pow2(sa) as int);
        lemma_mul_is_associative(EXPONENT_UNIT as int, 2, pow2(sa) as int);
        lemma_mul_inequality(EXPONENT_UNIT as int, significand(b), pow2(sa + 1) as int);
        lemma_mul_is_commutative(significand(b), pow2(sa + 1) as int);
        lemma_mul_is_commutative(significand(b), pow2(sb) as int);
        lemma_mul_inequality(pow2(sa + 1) as int, pow2(sb) as int, significand(b));
    }
}

proof fn lemma_units_injective(a: u64, b: u64)
    requires
        is_finite_bits(a),
        is_finite_bits(b),
        magnitude(b) < magnitude(a),
    ensures
        units(b) < units(a),
{
    lemma_parts(a);
    lemma_parts(b);
    let sa = scale(a) as nat;
    let sb = scale(b) as nat;
    lemma_pow2_pos(sa);
    lemma_pow2_pos(sb);
    if exponent(a) == exponent(b) {
        lemma_mul_strict_inequality(significand(b), significand(a), pow2(sa) as int);
    } else if exponent(b) == 0 {
        lemma_pow2_monotone(sb, sa);
        lemma_mul_strict_inequality(significand(b), significand(a), pow2(sb) as int);
        lemma_mul_is_commutative(significand(a), pow2(sb) as int);
        lemma_mul_is_commutative(significand(a), pow2(sa) as int);
        lemma_mul_inequality(pow2(sb) as int, pow2(sa) as int, significand(a));
    } else {
        lemma_pow2_monotone(sb + 1, sa);
        lemma_pow2_unfold(sb + 1);
        lemma_mul_strict_inequality(significand(b), SIGNIFICAND_LIMIT as int, pow2(sb) as int);
        lemma_mul_is_associative(EXPONENT_UNIT as int, 2, pow2(sb) as int);
        lemma_mul_inequality(EXPONENT_UNIT as int, significand(a), pow2(sb + 1) as int);
        lemma_mul_is_commutative(significand(a), pow2(sb + 1) as int);
        lemma_mul_is_commutative(significand(a), pow2(sa) as int);
        lemma_mul_inequality(pow2(sb + 1) as int, pow2(sa) as int, significand(a));
    }
}

/// No other bit pattern stands for the same whole number.
proof fn lemma_whole_bits(bits: u64, n: u32)
    requires
        is_whole(bits, n),
    ensures
        whole_bits(n) == bits,
{
    let other = whole_bits(n);
    assert(is_whole(other, n));
    if magnitude(other) < magnitude(bits) {
        lemma_units_injective(bits, other);
    } else if magnitude(bits) < magnitude(other) {
        lemma_units_injective(other, bits);
    }
}

proof fn lemma_constants()
    ensures
        pow2(32) == 0x1_0000_0000,
        pow2(64) == 0x1_0000_0000_0000_0000,
        pow2(52) == EXPONENT_UNIT,
        pow2(53) == SIGNIFICAND_LIMIT,
        pow2(0) == 1,
        pow2(1) == 2,
        pow2(11) == 0x800,
        pow2(12) == 0x1000,
{
    lemma2_to64();
    lemma2_to64_rest();
}

/// Splitting an unsigned bit pattern gives the parts of the number.
fn parts(x: Real) -> (r: (u64, u64))
    ensures
        r.0 == significand(x@),
        r.1 == scale(x@),
        is_finite_bits(x@),
{
    let bits: u64 = x.to_bits() % SIGN_BIT;
    let exponent: u64 = bits / EXPONENT_UNIT;
    if exponent == 0 {
        (bits, 0)
    } else {
        (EXPONENT_UNIT + bits % EXPONENT_UNIT, exponent - 1)
    }
}

/// The whole part of `count` units of two to the power `scale`, at most the largest `u32`.
fn whole_of_scaled(count: u128, scale: u64) -> (r: u32)
    requires
        scale < 2046,
    ensures
        r == whole_part(count * pow2(scale as nat)),
{
    proof {
        lemma_constants();
    }
    if scale >= UNITS_IN_ONE {
        let up: u64 = scale - UNITS_IN_ONE;
        proof {
            lemma_pow2_split(UNITS_IN_ONE as nat, up as nat);
            lemma_mul_is_associative(count as int, pow2(up as nat) as int, pow2(UNITS_IN_ONE as nat) as int);
            lemma_mul_is_commutative(pow2(up as nat) as int, pow2(UNITS_IN_ONE as nat) as int);
            lemma_mul_is_commutative(
                count * pow2(up as nat),
                pow2(UNITS_IN_ONE as nat) as int,
            );
            lemma_div_multiples_vanish(count * pow2(up as nat), pow2(UNITS_IN_ONE as nat) as int);
        }
        assert(count * pow2(scale as nat) / pow2(UNITS_IN_ONE as nat) as int == count * pow2(
            up as nat,
        ));
        if count == 0 {
            assert(0 * pow2(up as nat) == 0) by (nonlinear_arith);
            return 0;
        }
        if up >= 32 {
            proof {
                lemma_pow2_monotone(32, up as nat);
                lemma_mul_inequality(1, count as int, pow2(up as nat) as int);
            }
            return u32::MAX;
        }
        if count > u32::MAX as u128 {
            proof {
                lemma_pow2_pos(up as nat);
                lemma_mul_inequality(1, pow2(up as nat) as int, count as int);
                lemma_mul_is_commutative(count as int, pow2(up as nat) as int);
            }
            return u32::MAX;
        }
        let low: u64 = count as u64;
        proof {
            lemma_pow2_strictly_increases(up as nat, 32);
            lemma_pow2_pos(up as nat);
            lemma_mul_inequality(low as int, u32::MAX as int, pow2(up as nat) as int);
            lemma_mul_inequality(pow2(up as nat) as int, 0x1_0000_0000, u32::MAX as int);
            lemma_mul_is_commutative(u32::MAX as int, pow2(up as nat) as int);
            vstd::bits::lemma_u64_shl_is_mul(low, up);
        }
        let whole: u64 = low << up;
        if whole > u32::MAX as u64 {
            u32::MAX
        } else {
            whole as u32
        }
    } else {
        let down: u64 = UNITS_IN_ONE - scale;
        proof {
            lemma_divide_scaled(count as int, scale as nat, down as nat);
        }
        if down >= 128 {
            proof {
                lemma_pow2_monotone(128, down as nat);
                lemma_pow2_split(64, 64);
                lemma_basic_div(count as int, pow2(down as nat) as int);
            }
            return 0;
        }
        let by: u128 = down as u128;
        proof {
            vstd::bits::lemma_u128_shr_is_div(count, by);
        }
        let whole: u128 = count >> by;
        if whole > u32::MAX as u128 {
            u32::MAX
        } else {
            whole as u32
        }
    }
}

impl Real {
    /// A whole number.
    pub fn from_u32(n: u32) -> (r: Real)
        ensures
            r@ == whole_bits(n),
            is_whole(r@, n),
    {
        if n == 0 {
            proof {
                assert(units(0) == 0 * pow2(0));
                assert(0 * pow2(UNITS_IN_ONE as nat) == 0) by (nonlinear_arith);
                lemma_whole_bits(0, 0);
            }
            return Real { bits: 0 };
        }
        proof {
            lemma_constants();
        }
        let mut significand: u64 = n as u64;
        let mut doubled: u64 = 0;
        assert(n * pow2(0) == n);
        while significand < EXPONENT_UNIT
            invariant
                n >= 1,
                significand == n * pow2(doubled as nat),
                1 <= significand < SIGNIFICAND_LIMIT,
                doubled <= 53,
            decreases 60 - doubled,
        {
            proof {
                lemma_pow2_unfold((doubled + 1) as nat);
                lemma_mul_is_associative(n as int, pow2(doubled as nat) as int, 2);
                lemma_mul_is_commutative(pow2(doubled as nat) as int, 2);
                if doubled == 53 {
                    lemma_constants();
                    lemma_mul_inequality(1, n as int, pow2(53) as int);
                }
            }
            significand = significand * 2;
            doubled = doubled + 1;
        }
        let exponent: u64 = UNITS_IN_ONE + 1 - doubled;
        let bits: u64 = exponent * EXPONENT_UNIT + (significand - EXPONENT_UNIT);
        proof {
            lemma_pow2_split(doubled as nat, (UNITS_IN_ONE - doubled) as nat);
            lemma_mul_is_associative(
                n as int,
                pow2(doubled as nat) as int,
                pow2((UNITS_IN_ONE - doubled) as nat) as int,
            );
            lemma_whole_bits(bits, n);
        }
        Real { bits }
    }

    /// The whole part of a number that is not negative, at most the largest `u32`.
    pub fn floor_to_u32(self) -> (r: u32)
        requires
            key(self@) >= 0,
        ensures
            r == whole_part(units(self@)),
    {
        let (significand, scale) = parts(self);
        proof {
            lemma_parts(self@);
        }
        whole_of_scaled(significand as u128, scale)
    }
}

proof fn lemma_excess_is(count: int, k: nat)
    requires
        k == 0 ==> 0 <= count < SIGNIFICAND_LIMIT,
        k > 0 ==> EXPONENT_UNIT * pow2(k) <= count < SIGNIFICAND_LIMIT * pow2(k),
    ensures
        excess(count) == k,
    decreases k,
{
    if k > 0 {
        lemma_pow2_unfold(k);
        lemma_pow2_pos((k - 1) as nat);
        let half = pow2((k - 1) as nat) as int;
        assert(pow2(k) == 2 * half);
        assert(EXPONENT_UNIT * (2 * half) == SIGNIFICAND_LIMIT * half) by (nonlinear_arith);
        assert(SIGNIFICAND_LIMIT * half >= SIGNIFICAND_LIMIT) by (nonlinear_arith)
            requires
                half >= 1,
        ;
        assert(EXPONENT_UNIT * (2 * half) == 2 * (EXPONENT_UNIT * half)) by (nonlinear_arith);
        assert(SIGNIFICAND_LIMIT * (2 * half) == 2 * (SIGNIFICAND_LIMIT * half))
            by (nonlinear_arith);
        if k == 1 {
            lemma_constants();
        }
        lemma_excess_is(count / 2, (k - 1) as nat);
    }
}

proof fn lemma_excess_bounds(count: int)
    requires
        0 <= count,
    ensures
        count < SIGNIFICAND_LIMIT * pow2(excess(count)),
        excess(count) > 0 ==> EXPONENT_UNIT * pow2(excess(count)) <= count,
    decreases count,
{
    lemma_constants();
    if count >= SIGNIFICAND_LIMIT {
        lemma_excess_bounds(count / 2);
        let k = excess(count / 2);
        lemma_pow2_unfold(k + 1);
        let step = pow2(k) as int;
        assert(SIGNIFICAND_LIMIT * (2 * step) == 2 * (SIGNIFICAND_LIMIT * step))
            by (nonlinear_arith);
        assert(EXPONENT_UNIT * (2 * step) == 2 * (EXPONENT_UNIT * step)) by (nonlinear_arith);
    }
}

/// Rounding does not depend on the unit.
proof fn lemma_rounded_scaled(count: int, j: nat)
    requires
        0 <= count,
    ensures
        rounded(count * pow2(j)) == rounded(count) * pow2(j),
{
    let k = excess(count);
    let big = count * pow2(j);
    lemma_pow2_pos(j);
    lemma_mul_nonnegative(count, pow2(j) as int);
    lemma_excess_bounds(count);
    lemma_constants();
    if k > 0 {
        lemma_pow2_split(k, j);
        let step = pow2(k) as int;
        let unit = pow2(j) as int;
        assert(EXPONENT_UNIT * (step * unit) <= big < SIGNIFICAND_LIMIT * (step * unit))
            by (nonlinear_arith)
            requires
                EXPONENT_UNIT * step <= count < SIGNIFICAND_LIMIT * step,
                unit > 0,
                big == count * unit,
        ;
        lemma_excess_is(big, k + j);
        let below = count / step;
        let rest = count % step;
        lemma_fundamental_div_mod(count, step);
        assert(big == below * (step * unit) + rest * unit) by (nonlinear_arith)
            requires
                big == count * unit,
                count == step * below + rest,
        ;
        assert(0 <= rest * unit < step * unit) by (nonlinear_arith)
            requires
                0 <= rest < step,
                unit > 0,
        ;
        lemma_fundamental_div_mod_converse(big, step * unit, below, rest * unit);
        assert((2 * rest > step) == (2 * (rest * unit) > step * unit)) by (nonlinear_arith)
            requires
                unit > 0,
        ;
        assert((2 * rest == step) == (2 * (rest * unit) == step * unit)) by (nonlinear_arith)
            requires
                unit > 0,
        ;
        lemma_mul_is_associative(below, step, unit);
        lemma_mul_is_associative(below + 1, step, unit);
    } else {
        assert(count * pow2(0) == count);
        lemma_rounded_exact(count, 0);
        lemma_rounded_exact(count, j);
    }
}

/// A count that a significand can hold is not changed by rounding.
proof fn lemma_rounded_exact(significand: int, j: nat)
    requires
        0 <= significand < SIGNIFICAND_LIMIT,
    ensures
        rounded(significand * pow2(j)) == significand * pow2(j),
{
    let big = significand * pow2(j);
    lemma_pow2_pos(j);
    lemma_mul_nonnegative(significand, pow2(j) as int);
    lemma_excess_bounds(big);
    lemma_constants();
    let k = excess(big);
    if k > j {
        let d = (k - j) as nat;
        lemma_pow2_split(j, d);
        lemma_pow2_monotone(1, d);
        let unit = pow2(j) as int;
        let more = pow2(d) as int;
        assert(EXPONENT_UNIT * (unit * more) >= SIGNIFICAND_LIMIT * unit) by (nonlinear_arith)
            requires
                more >= 2,
                unit > 0,
        ;
        lemma_mul_strict_inequality(significand, SIGNIFICAND_LIMIT as int, unit);
        assert(false);
    }
    let d = (j - k) as nat;
    lemma_pow2_split(d, k);
    let step = pow2(k) as int;
    lemma_mul_is_associative(significand, pow2(d) as int, step);
    let below = significand * pow2(d);
    assert(big == below * step);
    lemma_mul_is_commutative(below, step);
    lemma_fundamental_div_mod_converse(big, step, below, 0);
}

/// Taking away less than a small part of the last place of a number is undone by rounding.
proof fn lemma_rounded_absorbs(significand: int, j: nat, less: int)
    requires
        EXPONENT_UNIT <= significand < SIGNIFICAND_LIMIT,
        j >= 1,
        0 <= less,
        8 * less < pow2(j),
    ensures
        rounded(significand * pow2(j) - less) == significand * pow2(j),
{
    let unit = pow2(j) as int;
    let big = significand * unit;
    let count = big - less;
    if less == 0 {
        lemma_rounded_exact(significand, j);
    } else if significand > EXPONENT_UNIT {
        assert(EXPONENT_UNIT * unit <= count < SIGNIFICAND_LIMIT * unit) by (nonlinear_arith)
            requires
                EXPONENT_UNIT + 1 <= significand < SIGNIFICAND_LIMIT,
                count == significand * unit - less,
                0 < less < unit,
        ;
        lemma_excess_is(count, j);
        assert(count == unit * (significand - 1) + (unit - less)) by (nonlinear_arith)
            requires
                count == significand * unit - less,
        ;
        lemma_fundamental_div_mod_converse(count, unit, significand - 1, unit - less);
    } else {
        lemma_pow2_unfold(j);
        lemma_constants();
        let half = pow2((j - 1) as nat) as int;
        assert(unit == 2 * half);
        assert(count == SIGNIFICAND_LIMIT * half - less) by (nonlinear_arith)
            requires
                count == significand * unit - less,
                significand == EXPONENT_UNIT,
                unit == 2 * half,
        ;
        if j > 1 {
            assert(SIGNIFICAND_LIMIT * half == 2 * (EXPONENT_UNIT * half)) by (nonlinear_arith);
            assert(half <= EXPONENT_UNIT * half) by (nonlinear_arith)
                requires
                    half >= 0,
            ;
            lemma_excess_is(count, (j - 1) as nat);
        } else {
            assert(less == 0);
        }
        assert(count == half * (SIGNIFICAND_LIMIT - 1) + (half - less)) by (nonlinear_arith)
            requires
                count == SIGNIFICAND_LIMIT * half - less,
        ;
        lemma_fundamental_div_mod_converse(count, half, SIGNIFICAND_LIMIT - 1, half - less);
        assert(SIGNIFICAND_LIMIT * half == big) by (nonlinear_arith)
            requires
                big == significand * unit,
                significand == EXPONENT_UNIT,
                unit == 2 * half,
        ;
    }
}

/// Two to the power `n`.
fn power_of_two(n: u64) -> (r: u128)
    requires
        n <= 64,
    ensures
        r == pow2(n as nat),
        1 <= r <= 0x1_0000_0000_0000_0000,
{
    let mut r: u128 = 1;
    proof {
        lemma_constants();
    }
    for i in 0..n
        invariant
            n <= 64,
            r == pow2(i as nat),
            1 <= r <= 0x1_0000_0000_0000_0000,
    {
        proof {
            lemma_pow2_unfold((i + 1) as nat);
            lemma_pow2_monotone((i + 1) as nat, 64);
            lemma_constants();
        }
        r = r * 2;
    }
    r
}

/// No other bit pattern stands for the same number.
proof fn lemma_number_of(bits: u64, negative: bool, count: int)
    requires
        is_number(bits, negative, count),
    ensures
        number_of(negative, count) == bits,
{
    let other = number_of(negative, count);
    assert(is_number(other, negative, count));
    if magnitude(other) < magnitude(bits) {
        lemma_units_injective(bits, other);
    } else if magnitude(bits) < magnitude(other) {
        lemma_units_injective(other, bits);
    }
}

proof fn lemma_scale_below(significand: int, scale: nat)
    requires
        EXPONENT_UNIT <= significand,
        significand * pow2(scale) < SIGNIFICAND_LIMIT * pow2(2045),
    ensures
        scale <= 2045,
{
    if scale > 2045 {
        lemma_pow2_monotone(2046, scale);
        lemma_pow2_unfold(2046);
        let top = pow2(2045) as int;
        let here = pow2(scale) as int;
        assert(significand * here >= SIGNIFICAND_LIMIT * top) by (nonlinear_arith)
            requires
                significand >= EXPONENT_UNIT,
                here >= 2 * top,
                top >= 0,
        ;
    }
}

proof fn lemma_doubled(significand: int, scale: nat)
    requires
        scale > 0,
    ensures
        significand * pow2(scale) == (2 * significand) * pow2((scale - 1) as nat),
{
    lemma_pow2_unfold(scale);
    let half = pow2((scale - 1) as nat) as int;
    assert(significand * (2 * half) == (2 * significand) * half) by (nonlinear_arith);
}

/// The number of a sign and of `count` units of two to the power `scale`.
fn assemble(count: u64, scale: u64, negative: bool) -> (r: Real)
    requires
        count <= SIGNIFICAND_LIMIT,
        scale <= 2200,
        count * pow2(scale as nat) < SIGNIFICAND_LIMIT * pow2(2045),
    ensures
        is_number(r@, negative, count * pow2(scale as nat)),
        r@ == number_of(negative, count * pow2(scale as nat)),
{
    let ghost value = count * pow2(scale as nat);
    let mut significand: u64 = count;
    let mut left: u64 = scale;
    if count == SIGNIFICAND_LIMIT {
        significand = EXPONENT_UNIT;
        left = scale + 1;
        proof {
            lemma_doubled(EXPONENT_UNIT as int, left as nat);
        }
    }
    while significand < EXPONENT_UNIT && left > 0
        invariant
            significand < SIGNIFICAND_LIMIT,
            left <= 2201,
            value == significand * pow2(left as nat),
        decreases left,
    {
        proof {
            lemma_doubled(significand as int, left as nat);
        }
        significand = significand * 2;
        left = left - 1;
    }
    proof {
        lemma_constants();
        if significand >= EXPONENT_UNIT {
            lemma_scale_below(significand as int, left as nat);
        }
    }
    let magnitude: u64 = if significand < EXPONENT_UNIT {
        significand
    } else {
        (left + 1) * EXPONENT_UNIT + (significand - EXPONENT_UNIT)
    };
    let bits: u64 = if negative {
        SIGN_BIT + magnitude
    } else {
        magnitude
    };
    assert(is_number(bits, negative, value));
    proof {
        lemma_number_of(bits, negative, value);
    }
    Real { bits }
}

/// The number of a sign and of `count` units of two to the power `scale`, rounded to the nearest one.
fn assemble_rounded(count: u128, scale: u64, negative: bool) -> (r: Real)
    requires
        count < 0x20_0000_0000_0000_0000_0000_0000_0000,
        scale <= 2046,
        rounded(count as int) * pow2(scale as nat) < SIGNIFICAND_LIMIT * pow2(2045),
    ensures
        is_number(r@, negative, rounded(count * pow2(scale as nat))),
        r@ == number_of(negative, rounded(count * pow2(scale as nat))),
{
    let mut step: u128 = 1;
    let mut steps: u64 = 0;
    let mut shrunk: u128 = count;
    proof {
        lemma_constants();
        lemma_rounded_scaled(count as int, scale as nat);
    }
    while shrunk >= SIGNIFICAND_LIMIT as u128
        invariant
            count < 0x20_0000_0000_0000_0000_0000_0000_0000,
            step == pow2(steps as nat),
            excess(count as int) == steps + excess(shrunk as int),
            shrunk == count as int / step as int,
            step >= 1,
            steps <= 65,
            shrunk >= SIGNIFICAND_LIMIT ==> step <= 0x1_0000_0000_0000_0000,
            step <= 0x2_0000_0000_0000_0000,
        decreases shrunk,
    {
        proof {
            lemma_pow2_unfold((steps + 1) as nat);
            lemma_div_denominator(count as int, step as int, 2);
            lemma_mul_is_commutative(step as int, 2);
            lemma_constants();
            if steps == 65 {
                lemma_pow2_unfold(65);
            }
        }
        step = step * 2;
        steps = steps + 1;
        shrunk = shrunk / 2;
        proof {
            if shrunk >= SIGNIFICAND_LIMIT {
                lemma_fundamental_div_mod(count as int, step as int);
                assert(step * shrunk >= step * SIGNIFICAND_LIMIT) by (nonlinear_arith)
                    requires
                        shrunk >= SIGNIFICAND_LIMIT,
                        step >= 0,
                ;
            }
        }
    }
    let rest: u128 = count % step;
    let significand: u64 = if 2 * rest > step || (2 * rest == step && shrunk % 2 == 1) {
        shrunk as u64 + 1
    } else {
        shrunk as u64
    };
    proof {
        lemma_pow2_split(steps as nat, scale as nat);
        lemma_mul_is_associative(
            significand as int,
            pow2(steps as nat) as int,
            pow2(scale as nat) as int,
        );
    }
    assemble(significand, steps + scale, negative)
}

/// The number of a sign and of what `high` exceeds `low` by, rounded to the nearest one.
fn gap_between(low: Real, high: Real, negative: bool) -> (r: Real)
    requires
        magnitude(low@) <= magnitude(high@),
    ensures
        is_number(r@, negative, rounded(units(high@) - units(low@))),
        r@ == number_of(negative, rounded(units(high@) - units(low@))),
{
    let (low_part, low_scale) = parts(low);
    let (high_part, high_scale) = parts(high);
    proof {
        lemma_parts(low@);
        lemma_parts(high@);
        lemma_units_monotone(low@, high@);
        lemma_constants();
        lemma_pow2_monotone(high_scale as nat, 2045);
        let here = pow2(high_scale as nat) as int;
        let top = pow2(2045) as int;
        assert(high_part * here < SIGNIFICAND_LIMIT * top) by (nonlinear_arith)
            requires
                0 <= high_part < SIGNIFICAND_LIMIT,
                0 < here <= top,
        ;
        law_rounded_keeps_bound(units(high@) - units(low@), high_part as int, high_scale as nat);
    }
    let gap: u64 = high_scale - low_scale;
    if gap > 64 {
        proof {
            let unit = pow2(low_scale as nat) as int;
            lemma_pow2_split(low_scale as nat, gap as nat);
            lemma_pow2_monotone(64, gap as nat);
            assert(8 * (low_part * unit) < unit * pow2(gap as nat)) by (nonlinear_arith)
                requires
                    0 <= low_part < SIGNIFICAND_LIMIT,
                    unit > 0,
                    pow2(gap as nat) >= 0x1_0000_0000_0000_0000,
            ;
            lemma_mul_nonnegative(low_part as int, unit);
            lemma_rounded_absorbs(high_part as int, high_scale as nat, low_part * unit);
        }
        return assemble(high_part, high_scale, negative);
    }
    let factor: u128 = power_of_two(gap);
    proof {
        assert(0 <= high_part * factor < SIGNIFICAND_LIMIT * 0x1_0000_0000_0000_0000)
            by (nonlinear_arith)
            requires
                0 <= high_part < SIGNIFICAND_LIMIT,
                1 <= factor <= 0x1_0000_0000_0000_0000,
        ;
        let unit = pow2(low_scale as nat) as int;
        lemma_pow2_split(low_scale as nat, gap as nat);
        assert(high_part * (unit * factor) - low_part * unit == (high_part * factor - low_part)
            * unit) by (nonlinear_arith);
        assert(high_part * factor >= low_part) by (nonlinear_arith)
            requires
                (high_part * factor - low_part) * unit >= 0,
                unit > 0,
        ;
    }
    let count: u128 = high_part as u128 * factor - low_part as u128;
    proof {
        lemma_rounded_scaled(count as int, low_scale as nat);
    }
    assemble_rounded(count, low_scale, negative)
}

impl Real {
    /// The whole part of what `high` exceeds the number by, after the difference is rounded to the
    /// nearest number, at most the largest `u32`.
    pub fn span_to_u32(self, high: Real) -> (r: u32)
        requires
            0 <= key(self@) <= key(high@),
        ensures
            r == whole_part(rounded(units(high@) - units(self@))),
    {
        let (significand, scale) = parts(gap_between(self, high, false));
        proof {
            lemma_parts(number_of(false, rounded(units(high@) - units(self@))));
        }
        whole_of_scaled(significand as u128, scale)
    }

    /// What the number exceeds another one by, rounded to the nearest number.
    pub fn subtract(self, other: Real) -> (r: Real)
        requires
            0 <= key(self@),
            0 <= key(other@),
        ensures
            r@ == difference(self@, other@),
            is_number(
                r@,
                is_negative_difference(self@, other@),
                rounded(gap(self@, other@)),
            ),
    {
        proof {
            use_type_invariant(self);
            use_type_invariant(other);
            law_keys_order_by_value(self@, other@);
            law_keys_order_by_value(other@, self@);
        }
        if self.is_less(other) {
            gap_between(self, other, true)
        } else {
            let zeros = !other.is_less(self) && self.to_bits() >= SIGN_BIT && other.to_bits()
                < SIGN_BIT;
            gap_between(other, self, zeros)
        }
    }
}

/// Adding less than a small part of the last place of a number is undone by rounding.
proof fn lemma_rounded_absorbs_more(significand: int, j: nat, more: int)
    requires
        EXPONENT_UNIT <= significand < SIGNIFICAND_LIMIT,
        j >= 1,
        0 <= more,
        8 * more < pow2(j),
    ensures
        rounded(significand * pow2(j) + more) == significand * pow2(j),
{
    let unit = pow2(j) as int;
    let count = significand * unit + more;
    assert(EXPONENT_UNIT * unit <= count < SIGNIFICAND_LIMIT * unit) by (nonlinear_arith)
        requires
            EXPONENT_UNIT <= significand <= SIGNIFICAND_LIMIT - 1,
            count == significand * unit + more,
            0 <= more < unit,
    ;
    lemma_excess_is(count, j);
    lemma_mul_is_commutative(significand, unit);
    lemma_fundamental_div_mod_converse(count, unit, significand, more);
}

/// The number of a sign and of the units of two numbers together, rounded to the nearest one.
fn put_together(low: Real, high: Real, negative: bool) -> (r: Real)
    requires
        magnitude(low@) <= magnitude(high@),
        rounded(units(high@) + units(low@)) < SIGNIFICAND_LIMIT * pow2(2045),
    ensures
        is_number(r@, negative, rounded(units(high@) + units(low@))),
        r@ == number_of(negative, rounded(units(high@) + units(low@))),
{
    let (low_part, low_scale) = parts(low);
    let (high_part, high_scale) = parts(high);
    proof {
        lemma_parts(low@);
        lemma_parts(high@);
        lemma_units_monotone(low@, high@);
        lemma_constants();
    }
    let gap: u64 = high_scale - low_scale;
    if gap > 64 {
        proof {
            let unit = pow2(low_scale as nat) as int;
            lemma_pow2_split(low_scale as nat, gap as nat);
            lemma_pow2_monotone(64, gap as nat);
            assert(8 * (low_part * unit) < unit * pow2(gap as nat)) by (nonlinear_arith)
                requires
                    0 <= low_part < SIGNIFICAND_LIMIT,
                    unit > 0,
                    pow2(gap as nat) >= 0x1_0000_0000_0000_0000,
            ;
            lemma_mul_nonnegative(low_part as int, unit);
            lemma_rounded_absorbs_more(high_part as int, high_scale as nat, low_part * unit);
        }
        return assemble(high_part, high_scale, negative);
    }
    let factor: u128 = power_of_two(gap);
    proof {
        assert(0 <= high_part * factor <= (SIGNIFICAND_LIMIT - 1) * 0x1_0000_0000_0000_0000)
            by (nonlinear_arith)
            requires
                0 <= high_part <= SIGNIFICAND_LIMIT - 1,
                1 <= factor <= 0x1_0000_0000_0000_0000,
        ;
        let unit = pow2(low_scale as nat) as int;
        lemma_pow2_split(low_scale as nat, gap as nat);
        assert(high_part * (unit * factor) + low_part * unit == (high_part * factor + low_part)
            * unit) by (nonlinear_arith);
    }
    let count: u128 = high_part as u128 * factor + low_part as u128;
    proof {
        lemma_rounded_scaled(count as int, low_scale as nat);
    }
    assemble_rounded(count, low_scale, negative)
}

impl Real {
    /// The sum of the number and another one, rounded to the nearest number.
    pub fn plus(self, other: Real) -> (r: Real)
        requires
            0 <= key(self@),
            0 <= key(other@),
            rounded(units(self@) + units(other@)) < SIGNIFICAND_LIMIT * pow2(2045),
        ensures
            r@ == sum(self@, other@),
            is_number(
                r@,
                self@ >= SIGN_BIT && other@ >= SIGN_BIT,
                rounded(units(self@) + units(other@)),
            ),
    {
        let negative = self.to_bits() >= SIGN_BIT && other.to_bits() >= SIGN_BIT;
        if self.is_less(other) {
            put_together(self, other, negative)
        } else {
            put_together(other, self, negative)
        }
    }
}

/// A quotient in the terms of a numerator whose quotient a significand can hold.
proof fn lemma_rounded_quotient(numerator: int, left: nat, divisor: int)
    requires
        0 <= numerator,
        0 < divisor,
        numerator / divisor < SIGNIFICAND_LIMIT,
        left > 0 ==> EXPONENT_UNIT <= numerator / divisor,
    ensures
        ({
            let below = numerator / divisor;
            let rest = numerator % divisor;
            let up = 2 * rest > divisor || (2 * rest == divisor && below % 2 == 1);
            rounded_quotient(numerator * pow2(left), divisor) == (if up {
                below + 1
            } else {
                below
            }) * pow2(left)
        }),
{
    let count = numerator * pow2(left);
    let step = pow2(left) as int;
    let below = numerator / divisor;
    let rest = numerator % divisor;
    lemma_pow2_pos(left);
    lemma_constants();
    lemma_fundamental_div_mod(numerator, divisor);
    assert(count == (divisor * step) * below + rest * step) by (nonlinear_arith)
        requires
            count == numerator * step,
            numerator == divisor * below + rest,
    ;
    assert(0 <= rest * step < divisor * step) by (nonlinear_arith)
        requires
            0 <= rest < divisor,
            step > 0,
    ;
    lemma_fundamental_div_mod_converse(count, divisor * step, below, rest * step);
    lemma_div_denominator(count, divisor, step);
    lemma_fundamental_div_mod(count / divisor, step);
    assert(0 <= count) by (nonlinear_arith)
        requires
            count == numerator * step,
            numerator >= 0,
            step > 0,
    ;
    lemma_div_pos_is_pos(count, divisor);
    let whole = count / divisor;
    assert(whole / step == below);
    if left == 0 {
        assert(count == numerator);
        lemma_excess_is(whole, 0);
    } else {
        assert(EXPONENT_UNIT * step <= whole < SIGNIFICAND_LIMIT * step) by (nonlinear_arith)
            requires
                whole == step * below + whole % step,
                0 <= whole % step < step,
                EXPONENT_UNIT <= below < SIGNIFICAND_LIMIT,
                step > 0,
        ;
        lemma_excess_is(whole, left);
    }
    assert((2 * (rest * step) > divisor * step) == (2 * rest > divisor)) by (nonlinear_arith)
        requires
            step > 0,
    ;
    assert((2 * (rest * step) == divisor * step) == (2 * rest == divisor)) by (nonlinear_arith)
        requires
            step > 0,
    ;
}

impl Real {
    /// The number divided by a whole number, rounded to the nearest number.
    pub fn divide(self, whole: u32) -> (r: Real)
        requires
            whole > 0,
        ensures
            r@ == quotient(self@, whole),
            is_number(
                r@,
                self@ >= SIGN_BIT,
                rounded_quotient(units(self@), whole as int),
            ),
    {
        let (part, scale) = parts(self);
        let negative = self.to_bits() >= SIGN_BIT;
        let divisor: u128 = whole as u128;
        let mut numerator: u128 = part as u128;
        let mut left: u64 = scale;
        proof {
            lemma_parts(self@);
            lemma_div_basics_5(part as int, whole as int);
        }
        while numerator / divisor < EXPONENT_UNIT as u128 && left > 0
            invariant
                0 < divisor <= u32::MAX,
                divisor == whole,
                numerator as int / divisor as int <= SIGNIFICAND_LIMIT - 1,
                left <= scale,
                left == scale ==> numerator == part,
                units(self@) == numerator * pow2(left as nat),
            decreases left,
        {
            proof {
                lemma_doubled(numerator as int, left as nat);
                let n = numerator as int;
                let d = divisor as int;
                lemma_fundamental_div_mod(n, d);
                let q = n / d;
                assert(n < d * EXPONENT_UNIT) by (nonlinear_arith)
                    requires
                        n == d * q + n % d,
                        n % d < d,
                        q <= EXPONENT_UNIT - 1,
                        d > 0,
                ;
                assert(d * EXPONENT_UNIT <= u32::MAX * EXPONENT_UNIT) by (nonlinear_arith)
                    requires
                        d <= u32::MAX,
                ;
                assert(2 * n < SIGNIFICAND_LIMIT * d) by (nonlinear_arith)
                    requires
                        n < d * EXPONENT_UNIT,
                ;
                lemma_div_by_multiple_is_strongly_ordered(
                    2 * n,
                    SIGNIFICAND_LIMIT * d,
                    SIGNIFICAND_LIMIT as int,
                    d,
                );
                lemma_div_by_multiple(SIGNIFICAND_LIMIT as int, d);
            }
            numerator = numerator * 2;
            left = left - 1;
        }
        let below: u64 = (numerator / divisor) as u64;
        let rest: u128 = numerator % divisor;
        let up = 2 * rest > divisor || (2 * rest == divisor && below % 2 == 1);
        let significand: u64 = if up {
            below + 1
        } else {
            below
        };
        proof {
            lemma_rounded_quotient(numerator as int, left as nat, divisor as int);
            let top = pow2(2045) as int;
            let here = pow2(left as nat) as int;
            lemma_pow2_monotone(left as nat, 2045);
            if left < scale {
                lemma_pow2_monotone((left + 1) as nat, 2045);
                lemma_pow2_unfold((left + 1) as nat);
                assert(significand * here < SIGNIFICAND_LIMIT * top) by (nonlinear_arith)
                    requires
                        0 <= significand <= SIGNIFICAND_LIMIT,
                        0 < here,
                        2 * here <= top,
                ;
            } else if left > 0 {
                let n = numerator as int;
                let d = divisor as int;
                lemma_fundamental_div_mod(n, d);
                assert(d == 1) by (nonlinear_arith)
                    requires
                        n == d * (n / d) + n % d,
                        n % d >= 0,
                        n / d >= EXPONENT_UNIT,
                        n < SIGNIFICAND_LIMIT,
                        d >= 1,
                ;
                assert(significand * here < SIGNIFICAND_LIMIT * top) by (nonlinear_arith)
                    requires
                        0 <= significand < SIGNIFICAND_LIMIT,
                        0 < here <= top,
                ;
            } else {
                lemma_pow2_monotone(1, 2045);
                lemma_constants();
                assert(significand * here < SIGNIFICAND_LIMIT * top) by (nonlinear_arith)
                    requires
                        0 <= significand <= SIGNIFICAND_LIMIT,
                        here == 1,
                        top >= 2,
                ;
            }
        }
        assemble(significand, left, negative)
    }
}

/// Between a number and itself there is nothing.
pub proof fn law_empty_span(bits: u64)
    ensures
        whole_part(rounded(units(bits) - units(bits))) == 0,
{
    lemma_constants();
    lemma_pow2_pos(UNITS_IN_ONE as nat);
    assert(0 * pow2(0) == 0);
    lemma_rounded_exact(0, 0);
    lemma_div_basics_1(pow2(UNITS_IN_ONE as nat) as int);
}

/// The whole part of a whole number is that number.
pub proof fn law_whole_part_of_whole(bits: u64, n: u32)
    requires
        units(bits) == n * pow2(UNITS_IN_ONE as nat),
    ensures
        whole_part(units(bits)) == n,
{
    lemma_pow2_pos(UNITS_IN_ONE as nat);
    lemma_mul_is_commutative(n as int, pow2(UNITS_IN_ONE as nat) as int);
    lemma_div_multiples_vanish(n as int, pow2(UNITS_IN_ONE as nat) as int);
}

/// The span between two whole numbers is their difference.
pub proof fn law_span_of_whole_numbers(low: u64, high: u64, a: u32, b: u32)
    requires
        a <= b,
        units(low) == a * pow2(UNITS_IN_ONE as nat),
        units(high) == b * pow2(UNITS_IN_ONE as nat),
    ensures
        whole_part(rounded(units(high) - units(low))) == b - a,
{
    let one = pow2(UNITS_IN_ONE as nat) as int;
    lemma_pow2_pos(UNITS_IN_ONE as nat);
    assert(b * one - a * one == (b - a) * one) by (nonlinear_arith);
    lemma_rounded_exact(b - a, UNITS_IN_ONE as nat);
    lemma_mul_is_commutative(b - a, one);
    lemma_div_multiples_vanish(b - a, one);
}

/// Rounding does not carry a count over a number: a count that is at most a number is at most that
/// number after rounding.
pub proof fn law_rounded_keeps_bound(count: int, significand: int, j: nat)
    requires
        0 <= significand < SIGNIFICAND_LIMIT,
        0 <= count <= significand * pow2(j),
    ensures
        0 <= rounded(count) <= significand * pow2(j),
{
    let bound = significand * pow2(j);
    let k = excess(count);
    let step = pow2(k) as int;
    lemma_constants();
    lemma_pow2_pos(j);
    lemma_pow2_pos(k);
    lemma_excess_bounds(count);
    if k > j {
        let d = (k - j) as nat;
        lemma_pow2_split(j, d);
        lemma_pow2_monotone(1, d);
        let unit = pow2(j) as int;
        let more = pow2(d) as int;
        assert(EXPONENT_UNIT * (unit * more) >= SIGNIFICAND_LIMIT * unit) by (nonlinear_arith)
            requires
                more >= 2,
                unit > 0,
        ;
        lemma_mul_strict_inequality(significand, SIGNIFICAND_LIMIT as int, unit);
        assert(false);
    }
    let d = (j - k) as nat;
    lemma_pow2_split(d, k);
    lemma_mul_is_associative(significand, pow2(d) as int, step);
    let times = significand * pow2(d);
    assert(bound == times * step);
    let below = count / step;
    let rest = count % step;
    lemma_fundamental_div_mod(count, step);
    lemma_mul_is_commutative(below, step);
    lemma_div_pos_is_pos(count, step);
    assert(below * step >= 0) by (nonlinear_arith)
        requires
            below >= 0,
            step > 0,
    ;
    assert((below + 1) * step >= 0) by (nonlinear_arith)
        requires
            below >= 0,
            step > 0,
    ;
    if rest > 0 {
        assert(below + 1 <= times) by (nonlinear_arith)
            requires
                below * step < times * step,
                step > 0,
        ;
        lemma_mul_inequality(below + 1, times, step);
    }
}

/// Rounding does not carry a quotient over a number: the quotient of a count that is at most the
/// divisor times a number is at most that number.
pub proof fn law_quotient_keeps_bound(count: int, divisor: int, significand: int, j: nat)
    requires
        0 < divisor,
        0 <= significand < SIGNIFICAND_LIMIT,
        0 <= count <= divisor * (significand * pow2(j)),
    ensures
        0 <= rounded_quotient(count, divisor) <= significand * pow2(j),
{
    let bound = significand * pow2(j);
    let whole = count / divisor;
    lemma_div_pos_is_pos(count, divisor);
    lemma_mul_is_commutative(divisor, bound);
    lemma_div_is_ordered(count, bound * divisor, divisor);
    lemma_div_by_multiple(bound, divisor);
    let k = excess(whole);
    let step = pow2(k) as int;
    lemma_constants();
    lemma_pow2_pos(j);
    lemma_pow2_pos(k);
    lemma_excess_bounds(whole);
    if k > j {
        let d = (k - j) as nat;
        lemma_pow2_split(j, d);
        lemma_pow2_monotone(1, d);
        let unit = pow2(j) as int;
        let more = pow2(d) as int;
        assert(EXPONENT_UNIT * (unit * more) >= SIGNIFICAND_LIMIT * unit) by (nonlinear_arith)
            requires
                more >= 2,
                unit > 0,
        ;
        lemma_mul_strict_inequality(significand, SIGNIFICAND_LIMIT as int, unit);
        assert(false);
    }
    let d = (j - k) as nat;
    lemma_pow2_split(d, k);
    lemma_mul_is_associative(significand, pow2(d) as int, step);
    let times = significand * pow2(d);
    assert(bound == times * step);
    let stride = divisor * step;
    assert(stride > 0) by (nonlinear_arith)
        requires
            stride == divisor * step,
            divisor > 0,
            step > 0,
    ;
    let below = count / stride;
    let rest = count % stride;
    lemma_fundamental_div_mod(count, stride);
    lemma_div_pos_is_pos(count, stride);
    assert(divisor * (times * step) == stride * times) by (nonlinear_arith)
        requires
            stride == divisor * step,
    ;
    assert(below * step >= 0 && (below + 1) * step >= 0) by (nonlinear_arith)
        requires
            below >= 0,
            step > 0,
    ;
    if rest > 0 {
        assert(below + 1 <= times) by (nonlinear_arith)
            requires
                stride * below < stride * times,
                stride > 0,
        ;
        lemma_mul_inequality(below + 1, times, step);
        lemma_mul_inequality(below, times, step);
    } else {
        assert(below <= times) by (nonlinear_arith)
            requires
                stride * below <= stride * times,
                stride > 0,
        ;
        lemma_mul_inequality(below, times, step);
    }
}

/// One is one.
pub proof fn law_units_of_one()
    ensures
        units(ONE_BITS) == pow2(UNITS_IN_ONE as nat),
        units(ONE_BITS) == EXPONENT_UNIT * pow2(1022),
{
    lemma_constants();
    lemma_pow2_split(52, 1022);
}

/// A number of no units is a zero.
pub proof fn law_no_units(bits: u64)
    requires
        is_finite_bits(bits),
        units(bits) == 0,
    ensures
        key(bits) == 0,
{
    if magnitude(bits) > 0 {
        assert(units(0) == 0 * pow2(0));
        lemma_units_injective(bits, 0);
    }
}

/// Nothing divided is nothing.
pub proof fn law_quotient_of_nothing(divisor: int)
    requires
        0 < divisor,
    ensures
        rounded_quotient(0, divisor) == 0,
{
    assert(0 * pow2(0) == 0);
    assert(divisor * 0 == 0);
    law_quotient_keeps_bound(0, divisor, 0, 0);
}

/// Every `u32` is below the limit of finite numbers.
pub proof fn law_whole_is_far_from_largest(n: u32)
    ensures
        n * pow2(UNITS_IN_ONE as nat) < SIGNIFICAND_LIMIT * pow2(2045),
{
    let one = pow2(UNITS_IN_ONE as nat) as int;
    let top = pow2(2045) as int;
    lemma_pow2_monotone(UNITS_IN_ONE as nat, 2045);
    assert(n * one < SIGNIFICAND_LIMIT * top) by (nonlinear_arith)
        requires
            0 <= n < SIGNIFICAND_LIMIT,
            0 < one <= top,
    ;
}

/// What is not more than a whole number is, divided by it, not more than one.
pub proof fn law_share_of_whole(bits: u64, negative: bool, count: int, whole: u32)
    requires
        whole > 0,
        0 <= count <= whole * pow2(UNITS_IN_ONE as nat),
        is_number(bits, negative, rounded_quotient(count, whole as int)),
        negative ==> count == 0,
    ensures
        0 <= key(bits) <= key(ONE_BITS),
{
    law_units_of_one();
    law_quotient_keeps_bound(count, whole as int, EXPONENT_UNIT as int, 1022);
    if negative {
        law_quotient_of_nothing(whole as int);
        law_no_units(bits);
    }
    law_keys_order_by_value(bits, ONE_BITS);
}

/// Numbers between two whole numbers have whole parts between them.
pub proof fn law_span_within_whole_numbers(low: u64, high: u64, n: u32)
    requires
        is_finite_bits(low),
        is_finite_bits(high),
        0 <= units(low) <= units(high) <= n * pow2(UNITS_IN_ONE as nat),
    ensures
        whole_part(units(low)) + whole_part(rounded(units(high) - units(low))) <= n,
{
    let one = pow2(UNITS_IN_ONE as nat) as int;
    lemma_pow2_pos(UNITS_IN_ONE as nat);
    let start = units(low) / one;
    lemma_fundamental_div_mod(units(low), one);
    lemma_mul_is_commutative(one, start);
    lemma_div_is_ordered(units(low), n * one, one);
    lemma_mul_is_commutative(n as int, one);
    lemma_div_multiples_vanish(n as int, one);
    lemma_div_pos_is_pos(units(low), one);
    assert(0 <= start <= n);
    assert(n * one - start * one == (n - start) * one) by (nonlinear_arith);
    law_rounded_keeps_bound(units(high) - units(low), n - start, UNITS_IN_ONE as nat);
    let width = rounded(units(high) - units(low));
    lemma_div_is_ordered(width, (n - start) * one, one);
    lemma_mul_is_commutative(n - start, one);
    lemma_div_multiples_vanish(n - start, one);
}

/// How often a whole number is doubled to fill a significand.
proof fn lemma_normalized(n: int, k: nat) -> (r: nat)
    requires
        1 <= n,
        n * pow2(k) < SIGNIFICAND_LIMIT,
    ensures
        EXPONENT_UNIT <= n * pow2(r) < SIGNIFICAND_LIMIT,
        r <= 53,
    decreases 54 - k,
{
    lemma_constants();
    if k >= 53 {
        lemma_pow2_monotone(53, k);
        lemma_mul_inequality(1, n, pow2(k) as int);
    }
    if n * pow2(k) >= EXPONENT_UNIT {
        k
    } else {
        lemma_pow2_unfold(k + 1);
        assert(n * (2 * pow2(k)) == 2 * (n * pow2(k))) by (nonlinear_arith);
        lemma_normalized(n, k + 1)
    }
}

/// Every `u32` is a number.
pub proof fn law_whole_numbers_exist(n: u32)
    ensures
        is_whole(whole_bits(n), n),
{
    lemma_constants();
    if n == 0 {
        assert(units(0) == 0 * pow2(0));
        assert(0 * pow2(UNITS_IN_ONE as nat) == 0) by (nonlinear_arith);
        lemma_whole_bits(0, 0);
    } else {
        assert(n * pow2(0) == n);
        let k = lemma_normalized(n as int, 0);
        let significand = n * pow2(k);
        let bits = ((UNITS_IN_ONE + 1 - k) * EXPONENT_UNIT + (significand - EXPONENT_UNIT)) as u64;
        lemma_pow2_split(k, (UNITS_IN_ONE - k) as nat);
        lemma_mul_is_associative(n as int, pow2(k) as int, pow2((UNITS_IN_ONE - k) as nat) as int);
        assert(is_whole(bits, n));
        lemma_whole_bits(bits, n);
    }
}

/// A rounded count is the nearest one that a significand can hold: it counts whole steps, of which it
/// has at least two to the power fifty-two where a step is more than one unit; it lies no more than
/// half a step from the count; and where it lies half a step from it, its number of steps is even.
pub proof fn law_rounded_is_nearest(count: int)
    requires
        0 <= count,
    ensures
        ({
            let step = pow2(excess(count)) as int;
            let r = rounded(count);
            &&& r % step == 0
            &&& -step <= 2 * (r - count) <= step
            &&& 2 * (r - count) == step || 2 * (r - count) == -step ==> (r / step) % 2 == 0
            &&& count < 0x20_0000_0000_0000 * step
            &&& step > 1 ==> 0x10_0000_0000_0000 * step <= count
            &&& count < 0x20_0000_0000_0000 ==> r == count
        }),
{
    let step = pow2(excess(count)) as int;
    let below = count / step;
    let rest = count % step;
    lemma_pow2_pos(excess(count));
    lemma_excess_bounds(count);
    lemma2_to64();
    lemma_fundamental_div_mod(count, step);
    lemma_mod_bound(count, step);
    assert((below + 1) * step == below * step + step) by (nonlinear_arith);
    assert(step * below == below * step) by (nonlinear_arith);
    lemma_mod_multiples_basic(below, step);
    lemma_mod_multiples_basic(below + 1, step);
    lemma_div_multiples_vanish(below, step);
    lemma_div_multiples_vanish(below + 1, step);
    assert(step * (below + 1) == (below + 1) * step) by (nonlinear_arith);
}

/// A rounded quotient is the nearest count to it that a significand can hold: it counts whole steps;
/// its product with the divisor lies no more than half a step, times the divisor, from what was
/// divided; and where it lies just that far, its number of steps is even.
pub proof fn law_quotient_is_nearest(count: int, divisor: int)
    requires
        0 <= count,
        0 < divisor,
    ensures
        ({
            let step = pow2(excess(count / divisor)) as int;
            let r = rounded_quotient(count, divisor);
            let error = 2 * (r * divisor - count);
            &&& r % step == 0
            &&& -(divisor * step) <= error <= divisor * step
            &&& error == divisor * step || error == -(divisor * step) ==> (r / step) % 2 == 0
        }),
{
    let step = pow2(excess(count / divisor)) as int;
    lemma_pow2_pos(excess(count / divisor));
    let whole = divisor * step;
    assert(whole > 0) by (nonlinear_arith)
        requires
            whole == divisor * step,
            divisor > 0,
            step > 0,
    ;
    let below = count / whole;
    lemma_fundamental_div_mod(count, whole);
    lemma_mod_bound(count, whole);
    assert((below + 1) * step * divisor == whole * below + whole) by (nonlinear_arith)
        requires
            whole == divisor * step,
    ;
    assert(below * step * divisor == whole * below) by (nonlinear_arith)
        requires
            whole == divisor * step,
    ;
    lemma_mod_multiples_basic(below, step);
    lemma_mod_multiples_basic(below + 1, step);
    lemma_div_multiples_vanish(below, step);
    lemma_div_multiples_vanish(below + 1, step);
    assert(step * below == below * step) by (nonlinear_arith);
    assert(step * (below + 1) == (below + 1) * step) by (nonlinear_arith);
}

/// Adding nothing and taking nothing away change no number, a number less itself is nothing, and the
/// order of two numbers that are added does not matter. A sum of zeros is negative only where both
/// are, and so is a zero from which a positive one is taken.
pub proof fn law_zero_changes_nothing(x: u64, y: u64)
    requires
        is_finite_bits(x),
        is_finite_bits(y),
        x < SIGN_BIT,
    ensures
        sum(x, 0) == x,
        sum(x, SIGN_BIT) == x,
        difference(x, 0) == x,
        difference(x, SIGN_BIT) == x,
        difference(y, y) == 0,
        sum(x, y) == sum(y, x),
        key(y) == 0 ==> sum(y, y) == y,
        key(y) == 0 ==> difference(y, 0) == y,
{
    assert(units(0) == 0 * pow2(0));
    assert(units(SIGN_BIT) == 0 * pow2(0));
    lemma_parts(x);
    lemma_rounded_exact(significand(x), scale(x) as nat);
    law_rounded_keeps_bound(0, 0, 0);
    assert(0 * pow2(0) == 0);
    lemma_number_of(x, false, units(x));
    lemma_number_of(0, false, 0);
    if key(y) == 0 {
        assert(magnitude(y) == 0);
        assert(units(y) == 0 * pow2(0));
        lemma_number_of(y, y >= SIGN_BIT, 0);
    }
}

/// Dividing by one changes no number.
pub proof fn law_dividing_by_one_changes_nothing(x: u64)
    requires
        is_finite_bits(x),
    ensures
        quotient(x, 1) == x,
{
    lemma_parts(x);
    lemma_rounded_exact(significand(x), scale(x) as nat);
    assert(rounded_quotient(units(x), 1) == rounded(units(x)));
    lemma_number_of(x, x >= SIGN_BIT, units(x));
}

} // verus!
