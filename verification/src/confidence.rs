//! How sure Tesseract is of a line of words: the mean of the percentages in its table.

use crate::double;
use crate::double::{Real, INFINITY_BITS, ONE_BITS, SIGN_BIT, UNITS_IN_ONE};
use vstd::arithmetic::power2::*;
use vstd::prelude::*;

verus! {

/// The share that a percentage stands for, at most one. The percentage comes as the bit pattern of
/// what its field reads as, if that is a number. Nothing, a negative number and what is no number
/// stand for zero, and infinity for one.
pub open spec fn share_of(reading: Option<u64>) -> u64 {
    match reading {
        None => 0,
        Some(bits) => if bits == INFINITY_BITS {
            ONE_BITS
        } else if !double::is_finite_bits(bits) || double::key(bits) < 0 {
            0
        } else {
            double::lesser(double::quotient(bits, 100), ONE_BITS)
        },
    }
}

/// The shares that some percentages stand for.
pub open spec fn shares_of(readings: Seq<Option<u64>>) -> Seq<u64> {
    readings.map_values(|reading: Option<u64>| share_of(reading))
}

/// The sum of some numbers, added one after the other.
pub open spec fn total(numbers: Seq<u64>) -> u64
    decreases numbers.len(),
{
    if numbers.len() <= 1 {
        numbers[0]
    } else {
        double::sum(total(numbers.drop_last()), numbers.last())
    }
}

/// The mean of the shares that some percentages stand for, and zero where there are none.
pub open spec fn mean_of(readings: Seq<Option<u64>>) -> u64 {
    if readings.len() == 0 {
        0
    } else {
        double::quotient(total(shares_of(readings)), readings.len() as u32)
    }
}

/// The share that a percentage stands for.
pub fn parse_confidence(reading: Option<u64>) -> (r: Real)
    ensures
        r@ == share_of(reading),
        0 <= double::key(r@) <= double::key(ONE_BITS),
        double::is_finite_bits(r@),
{
    assert(double::key(0) == 0 && double::key(ONE_BITS) == ONE_BITS);
    let bits: u64 = match reading {
        Some(bits) => bits,
        None => {
            return Real::zero();
        },
    };
    let number = match Real::from_bits(bits) {
        Some(number) => number,
        None => {
            return if bits == INFINITY_BITS {
                Real::one()
            } else {
                Real::zero()
            };
        },
    };
    if number.is_less(Real::zero()) {
        return Real::zero();
    }
    let part = number.divide(100);
    proof {
        if bits >= SIGN_BIT {
            double::law_keys_order_by_value(bits, 0);
            assert(double::units(0) == 0 * pow2(0));
            double::law_quotient_of_nothing(100);
            double::law_no_units(part@);
        }
    }
    part.min(Real::one())
}

/// The mean of the shares that some percentages stand for.
pub fn mean_confidence(readings: &Vec<Option<u64>>) -> (r: Real)
    requires
        readings@.len() <= u32::MAX,
    ensures
        r@ == mean_of(readings@),
        0 <= double::key(r@) <= double::key(ONE_BITS),
{
    assert(double::key(0) == 0 && double::key(ONE_BITS) == ONE_BITS);
    if readings.len() == 0 {
        return Real::zero();
    }
    let ghost shares = shares_of(readings@);
    let ghost one = pow2(UNITS_IN_ONE as nat) as int;
    let mut sum = parse_confidence(readings[0]);
    proof {
        double::law_units_of_one();
        double::law_keys_order_by_value(sum@, ONE_BITS);
        double::law_keys_order_by_value(0, sum@);
        assert(double::units(0) == 0 * pow2(0));
        assert(shares.take(1)[0] == sum@);
        if sum@ >= SIGN_BIT {
            double::law_keys_order_by_value(sum@, 0);
        }
    }
    for i in 1..readings.len()
        invariant
            shares == shares_of(readings@),
            one == pow2(UNITS_IN_ONE as nat),
            readings@.len() <= u32::MAX,
            sum@ == total(shares.take(i as int)),
            double::is_finite_bits(sum@),
            0 <= double::key(sum@),
            0 <= double::units(sum@) <= i * one,
            sum@ >= SIGN_BIT ==> double::units(sum@) == 0,
    {
        let share = parse_confidence(readings[i]);
        let ghost before = sum@;
        proof {
            double::law_units_of_one();
            double::law_keys_order_by_value(share@, ONE_BITS);
            double::law_keys_order_by_value(0, share@);
            assert(double::units(0) == 0 * pow2(0));
            assert((i + 1) * one == i * one + one) by (nonlinear_arith);
            double::law_rounded_keeps_bound(
                double::units(before) + double::units(share@),
                i + 1,
                UNITS_IN_ONE as nat,
            );
            double::law_whole_is_far_from_largest((i + 1) as u32);
            assert(shares.take(i + 1).drop_last() =~= shares.take(i as int));
            assert(shares.take(i + 1).last() == share@);
            if share@ >= SIGN_BIT {
                double::law_keys_order_by_value(share@, 0);
            }
        }
        sum = sum.plus(share);
        proof {
            if sum@ >= SIGN_BIT {
                double::law_rounded_keeps_bound(0, 0, 0);
                assert(0 * pow2(0) == 0);
                double::law_no_units(sum@);
            }
        }
    }
    assert(shares.take(readings@.len() as int) =~= shares);
    let mean = sum.divide(readings.len() as u32);
    proof {
        double::law_share_of_whole(
            mean@,
            sum@ >= SIGN_BIT,
            double::units(sum@),
            readings@.len() as u32,
        );
    }
    mean
}

/// What is no percentage counts as zero: a missing reading, one below zero, negative infinity and what
/// is no number. Infinity counts as one. Any other reading counts as its hundredth part, or as one
/// where that is more.
pub proof fn law_share_is_hundredth_part_up_to_one(bits: u64)
    ensures
        share_of(None) == 0,
        double::key(bits) < 0 ==> share_of(Some(bits)) == 0,
        double::magnitude(bits) > INFINITY_BITS ==> share_of(Some(bits)) == 0,
        share_of(Some(INFINITY_BITS)) == ONE_BITS,
        double::is_finite_bits(bits) && double::key(bits) >= 0 ==> {
            let part = double::quotient(bits, 100);
            &&& double::key(part) <= double::key(ONE_BITS) ==> share_of(Some(bits)) == part
            &&& double::key(part) > double::key(ONE_BITS) ==> share_of(Some(bits)) == ONE_BITS
        },
{
    assert(double::magnitude(INFINITY_BITS) == INFINITY_BITS);
}

/// A reading more adds its share to the sum of the shares; the mean is the sum of all the shares
/// divided by their number. A share alone is its own sum.
pub proof fn law_mean_shares_the_sum(readings: Seq<Option<u64>>, reading: Option<u64>)
    requires
        readings.len() < u32::MAX,
    ensures
        ({
            let more = readings.push(reading);
            let sum = total(shares_of(more));
            &&& readings.len() == 0 ==> sum == share_of(reading)
            &&& readings.len() > 0 ==> sum == double::sum(
                total(shares_of(readings)),
                share_of(reading),
            )
            &&& mean_of(more) == double::quotient(sum, (readings.len() + 1) as u32)
            &&& mean_of(Seq::empty()) == 0
        }),
{
    let more = readings.push(reading);
    assert(shares_of(more).drop_last() =~= shares_of(readings));
    assert(shares_of(more).last() == share_of(reading));
}

/// Readings that count alike have the same mean: only the shares matter.
pub proof fn law_mean_depends_on_shares(readings: Seq<Option<u64>>, others: Seq<Option<u64>>)
    requires
        readings.len() == others.len(),
        forall|i: int|
            0 <= i < readings.len() ==> share_of(#[trigger] readings[i]) == share_of(others[i]),
    ensures
        mean_of(readings) == mean_of(others),
{
    assert(shares_of(readings) =~= shares_of(others));
}

} // verus!
