use spectrum_visualizer::smoothing::{smooth, smooth_toward};

#[test]
fn a_frame_moves_a_fraction_of_the_distance() {
    let mut display = vec![0, 1_000_000, 500_000];
    let target = vec![1_000_000, 0, 500_000, 123];
    smooth(&mut display, &target, 16_667, 2_000);
    assert_eq!(display, vec![33_334, 966_666, 500_000]);
}

#[test]
fn the_gain_is_rounded_down_to_millionths() {
    let mut display = vec![0];
    smooth(&mut display, &[1_000_000], 1_999, 1);
    assert_eq!(display, vec![1]);
    let mut display = vec![0];
    smooth(&mut display, &[1_000_000], 999, 1);
    assert_eq!(display, vec![0]);
}

#[test]
fn steps_round_toward_zero_in_both_directions() {
    assert_eq!(smooth_toward(0, 10, 150_000), 1);
    assert_eq!(smooth_toward(10, 0, 150_000), 9);
    assert_eq!(smooth_toward(-10, 0, 150_000), -9);
    assert_eq!(smooth_toward(0, 10, 99_999), 0);
    assert_eq!(smooth_toward(10, 0, 99_999), 10);
}

#[test]
fn a_gain_above_one_overshoots() {
    assert_eq!(smooth_toward(0, 1_000_000, 2_500_000), 2_500_000);
    assert_eq!(smooth_toward(1_000_000, 0, 1_500_000), -500_000);
    assert_eq!(smooth_toward(0, 1_000_000, 1_000_000), 1_000_000);
}

#[test]
fn values_saturate_at_the_bounds_of_a_level() {
    assert_eq!(smooth_toward(-2_000_000_000, 2_000_000_000, 2_000_000), i32::MAX);
    assert_eq!(smooth_toward(2_000_000_000, -2_000_000_000, 2_000_000), i32::MIN);
    assert_eq!(smooth_toward(i32::MIN, i32::MAX, 0xFFFF_FFFF_FFFF_FFFF_FFFF_FFFF), i32::MAX);
    assert_eq!(smooth_toward(0, 1, u128::MAX), i32::MAX);
    assert_eq!(smooth_toward(0, -1, u128::MAX), i32::MIN);
    assert_eq!(smooth_toward(77, 77, u128::MAX), 77);
}

#[test]
fn a_zero_gain_holds_the_display() {
    let mut display = vec![5, -7, 900];
    smooth(&mut display, &[100, 200, 300], 0, 2_000);
    assert_eq!(display, vec![5, -7, 900]);
    smooth(&mut display, &[100, 200, 300], 16_000, 0);
    assert_eq!(display, vec![5, -7, 900]);
}

#[test]
fn holding_a_target_converges_monotonically() {
    let target = vec![1_000_000, 0, 250_000, 640_000];
    let mut display = vec![0, 1_000_000, 250_000, 700_000];
    let gain = 33_333u64 * 2_000 / 1_000;
    let residue = (1_000_000 - 1) / gain as i64;
    for _ in 0..2_000 {
        let before = display.clone();
        smooth(&mut display, &target, 33_333, 2_000);
        for i in 0..display.len() {
            let old = (target[i] as i64 - before[i] as i64).abs();
            let new = (target[i] as i64 - display[i] as i64).abs();
            assert!(new <= old);
            assert!((display[i] >= before[i]) == (target[i] >= before[i]) || display[i] == before[i]);
        }
    }
    for i in 0..display.len() {
        assert!((target[i] as i64 - display[i] as i64).abs() <= residue);
    }
}

#[test]
fn an_empty_display_stays_empty() {
    let mut display: Vec<i32> = vec![];
    smooth(&mut display, &[1, 2, 3], 1_000, 1_000);
    assert!(display.is_empty());
}
