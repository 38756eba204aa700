use record_replay_ocr::confidence::{mean_confidence, parse_confidence};
use record_replay_ocr::double::{greatest_of, least_of, Real};

fn number(x: f64) -> Real {
    Real::from_bits(x.to_bits()).unwrap()
}

fn back(x: Real) -> f64 {
    f64::from_bits(x.to_bits())
}

fn samples() -> Vec<f64> {
    vec![
        0.0,
        -0.0,
        5e-324,
        -5e-324,
        2.2250738585072014e-308,
        0.1,
        0.5,
        0.9999999999999999,
        1.0,
        1.5,
        -1.5,
        10.0,
        12.34,
        90.25,
        1e9,
        4294967295.0,
        4294967295.5,
        4294967296.0,
        1e300,
        -1e300,
        f64::MAX,
        f64::MIN,
    ]
}

#[test]
fn only_finite_numbers_are_numbers() {
    for x in samples() {
        assert_eq!(back(number(x)).to_bits(), x.to_bits());
    }
    assert!(Real::from_bits(f64::INFINITY.to_bits()).is_none());
    assert!(Real::from_bits(f64::NEG_INFINITY.to_bits()).is_none());
    assert!(Real::from_bits(f64::NAN.to_bits()).is_none());
    assert_eq!(back(Real::zero()).to_bits(), 0.0f64.to_bits());
    assert_eq!(back(Real::one()), 1.0);
    assert_eq!(back(Real::largest()), f64::MAX);
}

#[test]
fn order_is_that_of_the_numbers() {
    for a in samples() {
        for b in samples() {
            assert_eq!(number(a).is_less(number(b)), a < b, "{a} {b}");
            assert_eq!(back(number(a).min(number(b))), a.min(b));
            assert_eq!(back(number(a).max(number(b))), a.max(b));
        }
    }
}

#[test]
fn clamping_keeps_between_bounds() {
    for x in samples() {
        for (low, high) in [(0.0, 1.0), (-1.0, 0.5), (10.0, 4294967295.0)] {
            assert_eq!(
                back(number(x).clamp(number(low), number(high))).to_bits(),
                x.clamp(low, high).to_bits(),
                "{x}"
            );
        }
    }
}

#[test]
fn extremes_are_among_the_numbers() {
    let numbers: Vec<Real> = [3.5, -2.0, 10.25, 0.0].iter().map(|x| number(*x)).collect();
    assert_eq!(back(least_of(&numbers)), -2.0);
    assert_eq!(back(greatest_of(&numbers)), 10.25);
}

#[test]
fn whole_numbers_convert_exactly() {
    for n in [0, 1, 2, 3, 255, 256, 1920, 65537, 0x7fff_ffff, 0x8000_0001, u32::MAX] {
        assert_eq!(back(Real::from_u32(n)), n as f64);
    }
}

#[test]
fn floors_saturate() {
    for x in samples() {
        if x >= 0.0 {
            assert_eq!(number(x).floor_to_u32(), x.floor() as u32, "{x}");
        }
    }
}

fn sides() -> Vec<f64> {
    let mut sides: Vec<f64> = samples().into_iter().filter(|x| *x >= 0.0).collect();
    let mut state: u64 = 88172645463325252;
    for _ in 0..2000 {
        state ^= state << 13;
        state ^= state >> 7;
        state ^= state << 17;
        let wide = (state >> 11) as f64 / (1u64 << 53) as f64 * 5000.0;
        sides.push(wide);
        sides.push(f64::from_bits(state & 0x7fef_ffff_ffff_ffff));
        sides.push(wide.floor() + 1.0 - f64::EPSILON);
    }
    sides
}

#[test]
fn differences_round_to_the_nearest_number() {
    for pair in sides().windows(2) {
        for (a, b) in [(pair[0], pair[1]), (pair[1], pair[0]), (1.0, pair[0]), (pair[0], pair[0])] {
            assert_eq!(
                back(number(a).subtract(number(b))).to_bits(),
                (a - b).to_bits(),
                "{a} {b}"
            );
        }
    }
    for a in [0.0, -0.0] {
        for b in [0.0, -0.0] {
            assert_eq!(back(number(a).subtract(number(b))).to_bits(), (a - b).to_bits());
        }
    }
}

#[test]
fn quotients_round_to_the_nearest_number() {
    let mut numbers = sides();
    numbers.extend(samples());
    numbers.extend((0..2000u64).map(f64::from_bits));
    numbers.extend((0..2000u64).map(|n| f64::from_bits(0x000f_ffff_ffff_fc00 + n)));
    for x in numbers {
        for whole in [1, 2, 3, 7, 10, 50, 100, 200, 1080, 1920, 65537, 0x8000_0001, u32::MAX] {
            assert_eq!(
                back(number(x).divide(whole)).to_bits(),
                (x / whole as f64).to_bits(),
                "{x} {whole}"
            );
        }
    }
}

#[test]
fn spans_round_as_subtraction_does() {
    for pair in sides().windows(2) {
        let (low, high) = if pair[0] <= pair[1] {
            (pair[0], pair[1])
        } else {
            (pair[1], pair[0])
        };
        let expected = (high - low).max(0.0).min(u32::MAX as f64) as u32;
        assert_eq!(number(low).span_to_u32(number(high)), expected, "{low} {high}");
        assert_eq!(number(low).span_to_u32(number(low)), 0);
    }
}

#[test]
fn sums_round_to_the_nearest_number() {
    for pair in sides().windows(2) {
        let (a, b) = (pair[0], pair[1]);
        if (a + b).is_finite() {
            assert_eq!(
                back(number(a).plus(number(b))).to_bits(),
                (a + b).to_bits(),
                "{a} {b}"
            );
        }
    }
    for a in [0.0, -0.0] {
        for b in [0.0, -0.0] {
            assert_eq!(back(number(a).plus(number(b))).to_bits(), (a + b).to_bits());
        }
    }
}

fn share(value: &str) -> f64 {
    value
        .parse::<f64>()
        .ok()
        .filter(|value| *value >= 0.0)
        .map(|value| (value / 100.0).min(1.0))
        .unwrap_or(0.0)
}

fn reading(field: &str) -> Option<u64> {
    field.parse::<f64>().ok().map(f64::to_bits)
}

#[test]
fn percentages_stand_for_shares() {
    for field in [
        "95", "0", "-0", "100", "101", "-1", "96.125", "1e-320", "1e308", "inf", "-inf", "NaN",
        "infinity", "", "high", "33.333333",
    ] {
        assert_eq!(
            back(parse_confidence(reading(field))).to_bits(),
            share(field).to_bits(),
            "{field}"
        );
    }
    assert_eq!(back(parse_confidence(Some(0xfff8_0000_0000_0001))), 0.0);
}

#[test]
fn means_are_those_of_the_shares() {
    let lines: Vec<Vec<&str>> = vec![
        vec!["95", "91"],
        vec!["80"],
        vec!["33.3", "96.125", "inf", "-1", "x", "0.1", "99.99999"],
        vec!["100"; 1000],
        vec!["12.34"; 777],
        vec!["-1"],
    ];
    for fields in lines {
        let readings: Vec<Option<u64>> = fields.iter().map(|field| reading(field)).collect();
        let expected =
            fields.iter().map(|field| share(field)).sum::<f64>() / fields.len() as f64;
        let mean = back(mean_confidence(&readings));
        assert_eq!(mean.to_bits(), expected.to_bits());
        assert!((0.0..=1.0).contains(&mean));
    }
    assert_eq!(back(mean_confidence(&Vec::new())), 0.0);
}
