use rphys::rng::{engine_seed, LcgRng, Rng, LCG_ADD, LCG_MUL};

#[test]
fn test_lcg_rng_deterministic() {
    let mut a = LcgRng::new(42);
    let mut b = LcgRng::new(42);
    for _ in 0..100 {
        assert_eq!(a.next_u64(), b.next_u64());
    }
}

#[test]
fn lcg_first_value_is_one_step_from_the_seed() {
    let mut r = LcgRng::new(42);
    assert_eq!(r.next_u64(), 42u64.wrapping_mul(LCG_MUL).wrapping_add(LCG_ADD));
}

#[test]
fn zero_seed_is_replaced() {
    let mut r = LcgRng::new(0);
    assert_eq!(r.next_u64(), 0xDEAD_BEEF_CAFE_BABEu64.wrapping_mul(LCG_MUL).wrapping_add(LCG_ADD));
}

#[test]
fn high_bits_are_the_top_half() {
    let mut r = LcgRng::new(7);
    let expected = (7u64.wrapping_mul(LCG_MUL).wrapping_add(LCG_ADD) >> 32) as u32;
    assert_eq!(r.next_high_bits(), expected);
}

#[test]
fn renderer_rng_keeps_zero_seed_and_gives_23_bits() {
    let mut r = Rng::new(0);
    let v = r.next_fraction_bits();
    assert_eq!(v as u64, LCG_ADD >> 41);
    assert!(v < (1 << 23));
}

#[test]
fn engine_seed_is_one_step_of_the_budget() {
    assert_eq!(engine_seed(500), 500u64.wrapping_mul(LCG_MUL).wrapping_add(LCG_ADD));
}
