//! Ranks and marks against single-precision numbers.

use autofocus::marks;
use autofocus::rank::{bits_of, clamp, larger, rank, smaller, INFINITE};

fn of(v: f32) -> i32 {
    rank(v.to_bits()).unwrap()
}

#[test]
fn ranks_compare_like_the_numbers() {
    let values: [f32; 15] = [
        f32::NEG_INFINITY,
        -3.5e8,
        -1.0,
        -0.25,
        -1.0e-40,
        -0.0,
        0.0,
        1.0e-45,
        1.0e-40,
        0.1,
        0.10000001,
        0.5,
        1.0,
        7.56,
        f32::INFINITY,
    ];
    for &a in &values {
        for &b in &values {
            assert_eq!(a < b, of(a) < of(b));
            assert_eq!(a == b, of(a) == of(b));
            assert_eq!(of(a.max(b)), larger(of(a), of(b)));
            assert_eq!(of(a.min(b)), smaller(of(a), of(b)));
        }
    }
}

#[test]
fn zeros_share_a_rank_and_what_is_no_number_has_none() {
    assert_eq!(of(0.0), 0);
    assert_eq!(of(-0.0), 0);
    assert_eq!(rank(f32::NAN.to_bits()), None);
    assert_eq!(rank((-f32::NAN).to_bits()), None);
    assert_eq!(of(f32::INFINITY), INFINITE);
    assert_eq!(of(f32::NEG_INFINITY), -INFINITE);
}

#[test]
fn ranks_lead_back_to_the_numbers() {
    for &v in &[0.0f32, 1.5, -1.5, 0.35, -0.35, 1.0e-42, f32::MAX, f32::INFINITY] {
        assert_eq!(f32::from_bits(bits_of(of(v))), v);
    }
    assert_eq!(bits_of(of(-0.0)), 0);
}

#[test]
fn clamping_ranks_clamps_the_numbers() {
    for &v in &[-1.0f32, 0.05, 0.3, 0.95, 2.0] {
        assert_eq!(clamp(of(v), of(0.05), of(0.95)), of(v.max(0.05).min(0.95)));
    }
    assert_eq!(clamp(of(0.5), of(0.9), of(0.1)), of(0.1));
}

#[test]
fn marks_stand_where_their_names_say() {
    assert_eq!(marks::AT_0005, of(0.005));
    assert_eq!(marks::AT_0035, of(0.035));
    assert_eq!(marks::AT_004, of(0.04));
    assert_eq!(marks::AT_005, of(0.05));
    assert_eq!(marks::AT_006, of(0.06));
    assert_eq!(marks::AT_007, of(0.07));
    assert_eq!(marks::AT_008, of(0.08));
    assert_eq!(marks::AT_010, of(0.10));
    assert_eq!(marks::AT_011, of(0.11));
    assert_eq!(marks::AT_012, of(0.12));
    assert_eq!(marks::AT_0135, of(0.135));
    assert_eq!(marks::AT_014, of(0.14));
    assert_eq!(marks::AT_0145, of(0.145));
    assert_eq!(marks::AT_015, of(0.15));
    assert_eq!(marks::AT_016, of(0.16));
    assert_eq!(marks::AT_017, of(0.17));
    assert_eq!(marks::AT_018, of(0.18));
    assert_eq!(marks::AT_020, of(0.20));
    assert_eq!(marks::AT_022, of(0.22));
    assert_eq!(marks::AT_024, of(0.24));
    assert_eq!(marks::AT_025, of(0.25));
    assert_eq!(marks::AT_027, of(0.27));
    assert_eq!(marks::AT_028, of(0.28));
    assert_eq!(marks::AT_029, of(0.29));
    assert_eq!(marks::AT_030, of(0.30));
    assert_eq!(marks::AT_032, of(0.32));
    assert_eq!(marks::AT_034, of(0.34));
    assert_eq!(marks::AT_035, of(0.35));
    assert_eq!(marks::AT_037, of(0.37));
    assert_eq!(marks::AT_038, of(0.38));
    assert_eq!(marks::AT_040, of(0.40));
    assert_eq!(marks::AT_041, of(0.41));
    assert_eq!(marks::AT_042, of(0.42));
    assert_eq!(marks::AT_044, of(0.44));
    assert_eq!(marks::AT_045, of(0.45));
    assert_eq!(marks::AT_055, of(0.55));
    assert_eq!(marks::AT_059, of(0.59));
    assert_eq!(marks::AT_060, of(0.60));
    assert_eq!(marks::AT_062, of(0.62));
    assert_eq!(marks::AT_065, of(0.65));
    assert_eq!(marks::AT_078, of(0.78));
    assert_eq!(marks::AT_080, of(0.80));
    assert_eq!(marks::AT_085, of(0.85));
    assert_eq!(marks::AT_095, of(0.95));
    assert_eq!(marks::AT_099, of(0.99));
    assert_eq!(marks::AT_100, of(1.00));
    assert_eq!(marks::AT_105, of(1.05));
    assert_eq!(marks::AT_110, of(1.10));
    assert_eq!(marks::AT_125, of(1.25));
    assert_eq!(marks::AT_135, of(1.35));
    assert_eq!(marks::AT_145, of(1.45));
    assert_eq!(marks::AT_150, of(1.50));
    assert_eq!(marks::AT_167, of(1.67));
    assert_eq!(marks::AT_175, of(1.75));
    assert_eq!(marks::AT_190, of(1.90));
    assert_eq!(marks::AT_225, of(2.25));
    assert_eq!(marks::AT_235, of(2.35));
    assert_eq!(marks::AT_240, of(2.40));
    assert_eq!(marks::AT_250, of(2.50));
    assert_eq!(marks::AT_280, of(2.80));
    assert_eq!(marks::AT_350, of(3.50));
    assert_eq!(marks::AT_756, of(7.56));
}
