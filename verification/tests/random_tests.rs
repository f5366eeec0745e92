use minesweeper_board::random::fresh_seed;
use minesweeper_board::random::SeededRng;

#[test]
fn generator_follows_its_sequence_from_seed_zero() {
    let mut rng = SeededRng::new(0);
    assert_eq!(rng.next_u64(), 0xe220a8397b1dcdaf);
    assert_eq!(rng.next_u64(), 0x6e789e6aa1b965f4);
    assert_eq!(rng.next_u64(), 0x06c45d188009454f);
    assert_eq!(rng.next_u64(), 0xf88bb8a8724c81ec);
}

#[test]
fn generator_follows_its_sequence_from_another_seed() {
    let mut rng = SeededRng::new(12345);
    assert_eq!(rng.next_u64(), 2454886589211414944);
    assert_eq!(rng.next_below(100), 97);
}

#[test]
fn next_below_reduces_the_next_number() {
    let mut rng = SeededRng::new(0);
    assert_eq!(rng.next_below(10), 5);
    assert_eq!(rng.next_below(10), 0);
    assert_eq!(rng.next_below(7), 2);
}

#[test]
fn next_below_stays_below_its_bound() {
    let mut rng = SeededRng::new(99);
    for bound in 1..200u32 {
        assert!(rng.next_below(bound) < bound);
    }
    assert_eq!(rng.next_below(1), 0);
}

#[test]
fn same_seed_gives_the_same_sequence() {
    let mut a = SeededRng::new(77);
    let mut b = SeededRng::new(77);
    for _ in 0..50 {
        assert_eq!(a.next_u64(), b.next_u64());
    }
}

#[test]
fn fresh_seeds_can_start_a_generator() {
    let seed = fresh_seed();
    let mut a = SeededRng::new(seed);
    let mut b = SeededRng::new(seed);
    assert_eq!(a.next_below(1000), b.next_below(1000));
}
