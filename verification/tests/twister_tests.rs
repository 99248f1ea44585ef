use mersenne::twister::{draw_sequence, lowest, Twister};

#[test]
fn it_works() {
    assert_eq!(5, 3 + 2)
}

#[test]
fn generate_a_value() {
    let mut mt_test = Twister::new(5489);
    let mut last = Vec::new();
    for _ in 0..(3 * 624) {
        let i = mt_test.extract_number();
        assert!(!last.contains(&i));
        last.push(i);
    }
}

#[test]
fn same_seed_same_stream() {
    let mut a = Twister::new(42);
    let mut b = Twister::new(42);
    for _ in 0..2000 {
        assert_eq!(a.extract_number(), b.extract_number());
    }
}

#[test]
fn draw_sequence_matches_manual_draws() {
    let drawn = draw_sequence(7, 700);
    let mut t = Twister::new(7);
    for value in &drawn {
        assert_eq!(*value, t.extract_number());
    }
}

#[test]
fn reseeding_restarts_the_stream() {
    let mut first = Twister::new(12345);
    let mut prefix = Vec::new();
    for _ in 0..1000 {
        prefix.push(first.extract_number());
    }
    let mut again = Twister::new(12345);
    for expected in prefix {
        assert_eq!(again.extract_number(), expected);
    }
}

#[test]
fn twist_cadence_over_three_generations() {
    let mut t = Twister::new(1);
    assert_eq!(t.index, 624);
    t.extract_number();
    assert_eq!(t.index, 1);
    for k in 1..(3 * 624) {
        t.extract_number();
        let expected = if (k + 1) % 624 == 0 { 624 } else { (k + 1) % 624 };
        assert_eq!(t.index, expected);
    }
}

#[test]
fn explicit_twist_resets_the_index() {
    let mut t = Twister::new(9);
    t.twist();
    assert_eq!(t.index, 0);
    t.extract_number();
    assert_eq!(t.index, 1);
}

#[test]
fn masks_are_derived_from_the_separation_point() {
    let t = Twister::new(0);
    assert_eq!(t.lower_mask, 0x7FFF_FFFF);
    assert_eq!(t.upper_mask, 0x8000_0000);
}

#[test]
fn lowest_keeps_only_the_low_bits() {
    assert_eq!(lowest(4, 0xAB), 0xB);
    assert_eq!(lowest(0, 0xFF), 0);
    assert_eq!(lowest(32, 0x1_2345_6789), 0x2345_6789);
    assert_eq!(lowest(63, u64::MAX), u64::MAX >> 1);
}
