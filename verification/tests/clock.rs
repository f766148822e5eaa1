use spectrum_visualizer::clock::PlaybackClock;

#[test]
fn a_clock_needs_a_duration() {
    assert!(PlaybackClock::new(10, 0).is_none());
    assert!(PlaybackClock::new(0, 1).is_some());
}

#[test]
fn an_empty_timeline_is_over_at_once() {
    let mut clock = PlaybackClock::new(0, 1_000_000).unwrap();
    assert_eq!(clock.current(), None);
    assert_eq!(clock.advance(10), None);
    assert_eq!(clock.index, 0);
}

#[test]
fn the_index_follows_real_time() {
    let mut clock = PlaybackClock::new(10, 1_000_000).unwrap();
    assert_eq!(clock.current(), Some(0));
    assert_eq!(clock.advance(100_000), Some(1));
    assert_eq!(clock.advance(100_000), Some(2));
    assert_eq!(clock.rounded(), 2);
}

#[test]
fn a_slow_frame_skips_ahead() {
    let mut clock = PlaybackClock::new(10, 1_000_000).unwrap();
    clock.advance(100_000);
    clock.advance(100_000);
    assert_eq!(clock.advance(350_000), Some(6));
    assert_eq!(clock.rounded(), 6);
}

#[test]
fn one_position_of_drift_is_tolerated() {
    let mut clock = PlaybackClock::new(10, 1_000_000).unwrap();
    assert_eq!(clock.advance(550_000), Some(6));
    assert_eq!(clock.advance(0), Some(7));
    assert_eq!(clock.rounded(), 6);
}

#[test]
fn two_positions_of_drift_snap_back() {
    let mut clock = PlaybackClock::new(10, 1_000_000).unwrap();
    assert_eq!(clock.advance(550_000), Some(6));
    assert_eq!(clock.advance(0), Some(7));
    assert_eq!(clock.advance(0), Some(6));
}

#[test]
fn halves_round_up() {
    let mut clock = PlaybackClock::new(10, 1_000_000).unwrap();
    clock.advance(249_999);
    assert_eq!(clock.rounded(), 2);
    clock.advance(1);
    assert_eq!(clock.rounded(), 3);
}

#[test]
fn a_snap_stays_inside_the_timeline() {
    let mut clock = PlaybackClock::new(10, 1_000_000).unwrap();
    assert_eq!(clock.advance(10_550_000), Some(9));
    assert_eq!(clock.rounded(), 106);
    assert_eq!(clock.advance(0), Some(9));
}

#[test]
fn the_natural_step_past_the_last_chunk_ends_playback() {
    let mut clock = PlaybackClock::new(4, 400).unwrap();
    let mut seen = vec![clock.current().unwrap()];
    let mut next = clock.advance(100);
    while let Some(index) = next {
        seen.push(index);
        next = clock.advance(100);
    }
    assert_eq!(seen, vec![0, 1, 2, 3]);
    assert_eq!(clock.index, 4);
    assert_eq!(clock.current(), None);
    assert_eq!(clock.advance(100), None);
    assert_eq!(clock.index, 4);
}

#[test]
fn every_index_lies_in_the_timeline_and_near_the_rounded_position() {
    let len = 37usize;
    let mut clock = PlaybackClock::new(len, 5_000_000).unwrap();
    let frames = [16_667u64, 16_667, 40_000, 1, 250_000, 0, 0, 33_333, 700_000, 16_667];
    let mut step = 0usize;
    let mut next = clock.current();
    while let Some(index) = next {
        assert!(index < len);
        if step == 200 {
            break;
        }
        next = clock.advance(frames[step % frames.len()]);
        let rounded = clock.rounded();
        if rounded <= len as u128 {
            let i = clock.index as u128;
            let distance = if i > rounded { i - rounded } else { rounded - i };
            assert!(distance <= 1);
        }
        step += 1;
    }
}

#[test]
fn a_late_snap_holds_the_last_chunk() {
    let mut clock = PlaybackClock::new(10, 1_000_000).unwrap();
    assert_eq!(clock.advance(800_000), Some(8));
    assert_eq!(clock.advance(400_000), Some(9));
    assert_eq!(clock.rounded(), 12);
    assert_eq!(clock.advance(100_000), Some(9));
    assert_eq!(clock.advance(100_000), Some(9));
}

#[test]
fn elapsed_time_saturates() {
    let mut clock = PlaybackClock::new(3, u64::MAX).unwrap();
    clock.advance(u64::MAX - 1);
    clock.advance(5);
    assert_eq!(clock.elapsed_micros, u64::MAX);
    assert_eq!(clock.rounded(), 3);
}

#[test]
fn the_correction_rule_at_its_boundaries() {
    assert_eq!(PlaybackClock::corrected_index(4, 5, 10), 5);
    assert_eq!(PlaybackClock::corrected_index(4, 4, 10), 5);
    assert_eq!(PlaybackClock::corrected_index(4, 6, 10), 5);
    assert_eq!(PlaybackClock::corrected_index(4, 3, 10), 3);
    assert_eq!(PlaybackClock::corrected_index(4, 7, 10), 7);
    assert_eq!(PlaybackClock::corrected_index(4, 0, 10), 0);
    assert_eq!(PlaybackClock::corrected_index(0, 0, 10), 1);
    assert_eq!(PlaybackClock::corrected_index(0, 2, 10), 1);
    assert_eq!(PlaybackClock::corrected_index(0, 3, 10), 3);
    assert_eq!(PlaybackClock::corrected_index(9, 9, 10), 10);
    assert_eq!(PlaybackClock::corrected_index(9, 11, 10), 10);
    assert_eq!(PlaybackClock::corrected_index(9, 12, 10), 9);
    assert_eq!(PlaybackClock::corrected_index(9, 8, 10), 8);
    assert_eq!(PlaybackClock::corrected_index(7, 10, 10), 9);
    assert_eq!(PlaybackClock::corrected_index(7, u128::MAX, 10), 9);
    assert_eq!(PlaybackClock::corrected_index(0, 0, 1), 1);
    assert_eq!(PlaybackClock::corrected_index(0, 5, 1), 0);
}
