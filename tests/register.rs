use snn::arith::is_at_least_zero;
use snn::register::{Damage, Register};

const PATTERNS: [u64; 8] = [
    0,
    0x8000_0000_0000_0000,
    0x7ff8_0000_0000_0001,
    0x0000_0000_0000_0001,
    0xc04b_8000_0000_0000,
    0x4034_0000_0000_0000,
    u64::MAX,
    0x7ff0_0000_0000_0000,
];

#[test]
fn working_read_returns_last_write() {
    let mut r = Register::new(12345);
    for p in PATTERNS {
        r.write_value(p);
        assert_eq!(r.read_value(None), Some(p));
        assert_eq!(r.read_value(Some(3)), Some(p));
    }
    let nan = f64::NAN.to_bits();
    r.write_value(nan);
    assert_eq!(r.read_value(None), Some(nan));
}

#[test]
fn stuck_at_0_clears_only_its_bit() {
    for b in 0..64usize {
        for p in PATTERNS {
            let mut r = Register::new(p);
            r.apply_damage(Damage::StuckAt0 { bit_position: b });
            let v = r.read_value(None).unwrap();
            assert_eq!(v >> b & 1, 0);
            assert_eq!(v | (1u64 << b), p | (1u64 << b));
            assert_eq!(r.value, p);
        }
    }
}

#[test]
fn stuck_at_1_sets_only_its_bit() {
    for b in 0..64usize {
        for p in PATTERNS {
            let mut r = Register::new(p);
            r.apply_damage(Damage::StuckAt1 { bit_position: b });
            let v = r.read_value(Some(9)).unwrap();
            assert_eq!(v >> b & 1, 1);
            assert_eq!(v & !(1u64 << b), p & !(1u64 << b));
        }
    }
}

#[test]
fn stuck_at_sign_bit_on_threshold() {
    let mut r = Register::new((-55.0f64).to_bits());
    r.apply_damage(Damage::StuckAt0 { bit_position: 63 });
    assert_eq!(f64::from_bits(r.read_value(None).unwrap()), 55.0);
    r.apply_damage(Damage::StuckAt1 { bit_position: 63 });
    assert_eq!(f64::from_bits(r.read_value(None).unwrap()), -55.0);
}

#[test]
fn writes_are_stored_raw_under_a_fault() {
    let mut r = Register::new(0);
    r.apply_damage(Damage::StuckAt1 { bit_position: 0 });
    r.write_value(4);
    assert_eq!(r.value, 4);
    assert_eq!(r.read_value(None), Some(5));
}

#[test]
fn transient_flip_only_at_its_step() {
    for b in 0..64usize {
        let p = 0x4034_0000_0000_0000u64;
        let mut r = Register::new(p);
        r.apply_damage(Damage::TransientBitFlip { bit_position: b, time_step: 4 });
        assert_eq!(r.read_value(Some(4)), Some(p ^ (1u64 << b)));
        assert_eq!(r.read_value(Some(3)), Some(p));
        assert_eq!(r.read_value(Some(5)), Some(p));
        assert_eq!(r.read_at_step(4), p ^ (1u64 << b));
    }
}

#[test]
fn transient_flip_without_step_fails() {
    let mut r = Register::new(1);
    r.apply_damage(Damage::TransientBitFlip { bit_position: 0, time_step: 0 });
    assert_eq!(r.read_value(None), None);
}

#[test]
fn copy_to_writes_the_faulted_read() {
    let mut src = Register::new(0b1000);
    src.apply_damage(Damage::StuckAt1 { bit_position: 0 });
    let mut dst = Register::new(0);
    dst.apply_damage(Damage::StuckAt0 { bit_position: 3 });
    src.copy_to(&mut dst, 0);
    assert_eq!(dst.value, 0b1001);
    assert_eq!(dst.read_value(None), Some(0b0001));
}

#[test]
fn sign_test_on_patterns() {
    assert!(is_at_least_zero(0.0f64.to_bits()));
    assert!(is_at_least_zero((-0.0f64).to_bits()));
    assert!(is_at_least_zero(5.0f64.to_bits()));
    assert!(is_at_least_zero(f64::INFINITY.to_bits()));
    assert!(is_at_least_zero(f64::MIN_POSITIVE.to_bits()));
    assert!(!is_at_least_zero((-5.0f64).to_bits()));
    assert!(!is_at_least_zero(f64::NEG_INFINITY.to_bits()));
    assert!(!is_at_least_zero(f64::NAN.to_bits()));
    assert!(!is_at_least_zero((-f64::NAN).to_bits()));
    assert!(!is_at_least_zero((-1e-310f64).to_bits()));
}
