use raytracer::render::{T_FAR, T_NEAR};
use raytracer::scalar::{decode, encode, negate};

fn key(x: f64) -> i64 {
    encode(x.to_bits())
}

fn number(k: i64) -> f64 {
    f64::from_bits(decode(k))
}

const SAMPLES: [f64; 15] = [
    f64::NEG_INFINITY,
    -1.0e300,
    -1000.5,
    -1.0,
    -0.001,
    -5e-324,
    -0.0,
    0.0,
    5e-324,
    0.001,
    1.0,
    1.5,
    1000.5,
    1.0e300,
    f64::INFINITY,
];

#[test]
fn keys_of_known_patterns() {
    assert_eq!(encode(0), 0);
    assert_eq!(encode(1), 1);
    assert_eq!(encode(0x7fff_ffff_ffff_ffff), i64::MAX);
    assert_eq!(encode(0x8000_0000_0000_0000), -1);
    assert_eq!(encode(0x8000_0000_0000_0001), -2);
    assert_eq!(encode(u64::MAX), i64::MIN);
    assert_eq!(key(1.0), 0x3ff0_0000_0000_0000);
    assert_eq!(key(-1.0), -1 - 0x3ff0_0000_0000_0000);
}

#[test]
fn decode_undoes_encode() {
    for x in SAMPLES {
        assert_eq!(number(key(x)).to_bits(), x.to_bits());
    }
    for bits in [0u64, 1, 0x7fff_ffff_ffff_ffff, 0x8000_0000_0000_0000, u64::MAX, 0x7ff8_0000_0000_0000] {
        assert_eq!(decode(encode(bits)), bits);
    }
    for k in [i64::MIN, -2, -1, 0, 1, i64::MAX] {
        assert_eq!(encode(decode(k)), k);
    }
}

#[test]
fn keys_rise_with_the_numbers() {
    for i in 0..SAMPLES.len() {
        for j in 0..SAMPLES.len() {
            assert_eq!(key(SAMPLES[i]) < key(SAMPLES[j]), i < j, "{} {}", SAMPLES[i], SAMPLES[j]);
        }
    }
}

#[test]
fn negate_flips_the_sign() {
    for x in SAMPLES {
        assert_eq!(number(negate(key(x))).to_bits(), (-x).to_bits());
    }
    assert_eq!(negate(0), -1);
    assert_eq!(negate(i64::MAX), i64::MIN);
    assert_eq!(negate(i64::MIN), i64::MAX);
}

#[test]
fn strike_interval_constants() {
    assert_eq!(T_NEAR, key(0.001));
    assert_eq!(T_FAR, key(f64::INFINITY));
}
