use rand::{Rng, RngExt};
use rand_xoshiro::rand_core::SeedableRng;
use rand_xoshiro::Xoshiro256Plus;
use workload::options::{Ratio, RATIO_ONE};
use workload::rng::Generator;

const SEEDS: [u64; 4] = [0, 1, 0xDEAD_BEEF, u64::MAX];

#[test]
fn seeding_matches_the_generator() {
    for seed in SEEDS {
        assert_eq!(
            Generator::seeded(seed).state(),
            Xoshiro256Plus::seed_from_u64(seed).state()
        );
    }
    assert_ne!(
        Generator::seeded(1).state(),
        Generator::seeded(2).state()
    );
}

#[test]
fn words_match_the_generator() {
    for seed in SEEDS {
        let mut ours = Generator::seeded(seed);
        let mut theirs = Xoshiro256Plus::seed_from_u64(seed);
        for _ in 0..50 {
            assert_eq!(ours.word(), theirs.next_u32());
            assert_eq!(ours.state(), theirs.state());
        }
    }
}

#[test]
fn ranges_match_the_generator() {
    for seed in SEEDS {
        let mut ours = Generator::seeded(seed);
        let mut theirs = Xoshiro256Plus::seed_from_u64(seed);
        for round in 1..40u8 {
            assert_eq!(ours.range_u32(0, 100), theirs.random_range(0..100u32));
            let high = round.saturating_add(1);
            assert_eq!(ours.range_u8(1, high), theirs.random_range(1..high));
            let count = usize::from(round);
            assert_eq!(ours.range_usize(0, count), theirs.random_range(0..count));
            assert_eq!(ours.state(), theirs.state());
        }
    }
}

#[test]
fn draws_stay_in_range() {
    let mut ours = Generator::seeded(42);
    for _ in 0..200 {
        assert!(ours.range_u32(10, 13) - 10 < 3);
        assert!((1..4).contains(&ours.range_u8(1, 4)));
        assert!(ours.range_usize(0, 5) < 5);
    }
}

#[test]
fn a_generator_resumes_from_its_state() {
    let mut first = Generator::seeded(9);
    first.word();
    let mut second = Generator::from_state(first.state());
    assert_eq!(first.word(), second.word());
    assert_eq!(first.state(), second.state());
}

#[test]
fn rolls_agree_with_single_precision_fractions() {
    for ratio in [0.0f32, 0.001, 0.1, 0.25, 0.5, 0.7, 0.999, 1.0] {
        let parts = (f64::from(ratio) * f64::from(RATIO_ONE)).ceil() as u32;
        let mut ours = Generator::seeded(0xC0FFEE);
        let mut theirs = Xoshiro256Plus::seed_from_u64(0xC0FFEE);
        for _ in 0..500 {
            let roll: f32 = theirs.random();
            assert_eq!(Ratio { parts }.hit(ours.word()), roll < ratio);
        }
    }
}
