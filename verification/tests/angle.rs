use hc12_sdr::angle::{phase_difference, FULL_TURN, HALF_TURN};

#[test]
fn small_steps_are_kept() {
    assert_eq!(phase_difference(1000, 400), 600);
    assert_eq!(phase_difference(400, 1000), -600);
    assert_eq!(phase_difference(0, 0), 0);
}

#[test]
fn steps_across_the_cut_are_wrapped() {
    // From just below +π to just above -π is a small step forward.
    assert_eq!(phase_difference(-HALF_TURN + 10, HALF_TURN - 10), 20);
    assert_eq!(phase_difference(HALF_TURN - 10, -HALF_TURN + 10), -20);
}

#[test]
fn half_a_turn_is_plus_pi_either_way() {
    assert_eq!(phase_difference(HALF_TURN, 0), HALF_TURN);
    assert_eq!(phase_difference(0, HALF_TURN), HALF_TURN);
    assert_eq!(phase_difference(-HALF_TURN, 0), HALF_TURN);
    assert_eq!(phase_difference(HALF_TURN / 2, -HALF_TURN / 2), HALF_TURN);
}

#[test]
fn unwrapped_phases_are_accepted() {
    assert_eq!(phase_difference(i32::MAX, i32::MIN), -1);
    assert_eq!(phase_difference(i32::MIN, i32::MAX), 1);
    assert_eq!(phase_difference(i32::MAX, 0), -1);
    assert_eq!(phase_difference(i32::MIN, 0), 0);
}

#[test]
fn every_difference_lies_in_the_half_open_range() {
    let mut a: i32 = 17;
    let mut b: i32 = -40_000;
    for _ in 0..20_000 {
        a = a.wrapping_mul(1_664_525).wrapping_add(1_013_904_223);
        b = b.wrapping_mul(22_695_477).wrapping_add(1);
        let d = phase_difference(a, b);
        assert!(-HALF_TURN < d && d <= HALF_TURN);
        assert_eq!((a as i64 - b as i64 - d as i64).rem_euclid(FULL_TURN), 0);
    }
}
