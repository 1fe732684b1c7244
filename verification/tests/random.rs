use survival_cubed::random::{random_below, random_below_from};

#[test]
fn random_below_stays_in_range() {
    assert_eq!(random_below(0), 0);
    assert_eq!(random_below(1), 0);
    for n in [2u32, 3, 10, 1000, u32::MAX] {
        for _ in 0..50 {
            assert!(random_below(n) < n);
        }
    }
}

#[test]
fn random_below_is_not_stuck_on_one_value() {
    let mut seen = [false; 4];
    for _ in 0..400 {
        seen[random_below(4) as usize] = true;
    }
    assert!(seen.iter().filter(|s| **s).count() >= 2);
}

#[test]
fn random_bytes_pick_their_value_modulo_n() {
    assert_eq!(random_below_from(Some([7, 1, 0, 0]), 10), 263 % 10);
    assert_eq!(random_below_from(Some([0xff; 4]), 1000), u32::MAX % 1000);
    assert_eq!(random_below_from(None, 10), 0);
    assert_eq!(random_below_from(Some([9, 0, 0, 0]), 1), 0);
    assert_eq!(random_below_from(Some([9, 0, 0, 0]), 0), 0);
}
