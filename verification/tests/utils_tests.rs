use train_diagram::types::{ScaleMode, Time};
use train_diagram::utils::{isqrt, isqrt_round, ln_floor_u64, match_and_scale, prng_range, simple_prng};

#[test]
fn time_parts() {
    let t = Time::new(3 * 3600 + 25 * 60 + 7);
    assert_eq!(t.seconds(), 12307);
    assert_eq!(t.second(), 7);
    assert_eq!(t.minutes(), 205);
    assert_eq!(t.minute(), 25);
    assert_eq!(t.hours(), 3);
    assert_eq!(t.hour(), 3);
    assert_eq!(Time::new(25 * 3600).hour(), 1);
}

#[test]
fn prng_matches_reference_steps() {
    let seed: u32 = 42;
    let state = (seed as u64)
        .wrapping_mul(6364136223846793005)
        .wrapping_add(1442695040888963407);
    let xorshifted = (((state >> 18) ^ state) >> 27) as u32;
    let rotation = (state >> 59) as u32;
    assert_eq!(simple_prng(seed), xorshifted.rotate_right(rotation));
    assert_eq!(simple_prng(seed), simple_prng(seed));
}

#[test]
fn prng_range_bounds() {
    assert_eq!(prng_range(7, 10, 10), 10);
    assert_eq!(prng_range(7, 12, 3), 12);
    for seed in 0..200u32 {
        let r = prng_range(seed, 5, 9);
        assert!(r >= 5 && r < 9);
        assert_eq!(r, 5 + simple_prng(seed) % 4);
    }
}

#[test]
fn square_roots() {
    assert_eq!(isqrt(0), 0);
    assert_eq!(isqrt(15), 3);
    assert_eq!(isqrt(16), 4);
    assert_eq!(isqrt(u64::MAX), 0xFFFF_FFFF);
    assert_eq!(isqrt_round(5), 2);
    assert_eq!(isqrt_round(6), 2);
    assert_eq!(isqrt_round(7), 3);
    assert_eq!(isqrt_round(10), 3);
}

#[test]
fn logarithms() {
    assert_eq!(ln_floor_u64(0), 0);
    assert_eq!(ln_floor_u64(1), 0);
    assert_eq!(ln_floor_u64(2), 0);
    assert_eq!(ln_floor_u64(3), 1);
    assert_eq!(ln_floor_u64(7), 1);
    assert_eq!(ln_floor_u64(8), 2);
    assert_eq!(ln_floor_u64(22026), 9);
    assert_eq!(ln_floor_u64(22027), 10);
    assert_eq!(ln_floor_u64(u64::MAX), 44);
}

#[test]
fn scale_modes() {
    assert_eq!(match_and_scale(&ScaleMode::Linear, 10, 3), 30);
    assert_eq!(match_and_scale(&ScaleMode::Auto, 10, 3), 30);
    assert_eq!(match_and_scale(&ScaleMode::Uniform, 10, 3), 3);
    assert_eq!(match_and_scale(&ScaleMode::Uniform, 0, 3), 3);
    assert_eq!(match_and_scale(&ScaleMode::Square, 10, 3), 300);
    assert_eq!(match_and_scale(&ScaleMode::SquareRoot, 10, 3), 9);
    assert_eq!(match_and_scale(&ScaleMode::Logarithmic, 10, 3), 6);
    assert_eq!(match_and_scale(&ScaleMode::Linear, 0, 3), 3);
    assert_eq!(match_and_scale(&ScaleMode::Logarithmic, 1, 3), 3);
    assert_eq!(match_and_scale(&ScaleMode::Square, u64::MAX, 2), u64::MAX);
}
