use spectrum_visualizer::analizer::{AnalysisError, Analizer};
use spectrum_visualizer::level::FULL_SCALE;

fn ramp(len: usize) -> Vec<i32> {
    (0..len as i32).collect()
}

#[test]
fn whole_chunks_are_counted_and_the_rest_is_dropped() {
    let samples = ramp(20);
    let analizer = Analizer::new(&samples, 4, 44100, 2);
    assert_eq!(analizer.chunk_count(), Ok(2));
    let short = ramp(6);
    assert_eq!(Analizer::new(&short, 4, 44100, 2).chunk_count(), Ok(0));
    let exact = ramp(16);
    assert_eq!(Analizer::new(&exact, 4, 44100, 2).chunk_count(), Ok(2));
}

#[test]
fn chunks_run_in_lock_step_across_channels() {
    let samples = ramp(20);
    let analizer = Analizer::new(&samples, 4, 44100, 2);
    let chunks = analizer.channel_chunks().unwrap();
    assert_eq!(
        chunks,
        vec![
            vec![vec![0, 2, 4, 6], vec![8, 10, 12, 14]],
            vec![vec![1, 3, 5, 7], vec![9, 11, 13, 15]],
        ]
    );
}

#[test]
fn mono_stream_is_one_channel() {
    let samples = ramp(5);
    let analizer = Analizer::new(&samples, 2, 8000, 1);
    let chunks = analizer.channel_chunks().unwrap();
    assert_eq!(chunks, vec![vec![vec![0, 1], vec![2, 3]]]);
}

#[test]
fn configuration_errors_come_in_order() {
    let samples = ramp(9);
    assert_eq!(Analizer::new(&samples, 1, 44100, 0).chunk_count(), Err(AnalysisError::NoChannels));
    assert_eq!(
        Analizer::new(&samples, 1, 44100, 2).chunk_count(),
        Err(AnalysisError::UnevenChannels)
    );
    assert_eq!(
        Analizer::new(&samples, 1, 44100, 3).chunk_count(),
        Err(AnalysisError::ChunkTooSmall)
    );
    assert_eq!(
        Analizer::new(&samples, 0, 44100, 3).channel_chunks(),
        Err(AnalysisError::ChunkTooSmall)
    );
    assert_eq!(
        Analizer::new(&samples, 4, 44100, 0).channel_chunks(),
        Err(AnalysisError::NoChannels)
    );
    assert_eq!(
        Analizer::new(&samples, 4, 44100, 2).get_frequencies(vec![]),
        Err(AnalysisError::UnevenChannels)
    );
}

#[test]
fn timeline_is_normalized_by_global_extremes() {
    let samples = ramp(16);
    let analizer = Analizer::new(&samples, 4, 44100, 2);
    let timeline = analizer.get_frequencies(vec![vec![10, 20], vec![30, 50]]).unwrap();
    assert_eq!(timeline, vec![vec![0, 250_000], vec![500_000, 1_000_000]]);
}

#[test]
fn timeline_shape_must_match_the_chunks() {
    let samples = ramp(16);
    let analizer = Analizer::new(&samples, 4, 44100, 2);
    assert_eq!(analizer.get_frequencies(vec![vec![1, 2]]), Err(AnalysisError::ShapeMismatch));
    assert_eq!(
        analizer.get_frequencies(vec![vec![1, 2], vec![3]]),
        Err(AnalysisError::ShapeMismatch)
    );
    assert_eq!(
        analizer.get_frequencies(vec![vec![1, 2], vec![3, 4], vec![5, 6]]),
        Err(AnalysisError::ShapeMismatch)
    );
    assert_eq!(
        analizer.get_frequencies(vec![vec![1, 2, 3], vec![4, 5, 6]]),
        Err(AnalysisError::ShapeMismatch)
    );
}

#[test]
fn normalized_timeline_spans_zero_to_full_scale() {
    let samples = ramp(2);
    let analizer = Analizer::new(&samples, 2, 44100, 1);
    let mut rows = vec![vec![731, 12, 400], vec![90, 5_000, 12], vec![77, 78, 79]];
    analizer.normalize_freqs(&mut rows);
    let all: Vec<i32> = rows.iter().flatten().copied().collect();
    assert_eq!(all.iter().min(), Some(&0));
    assert_eq!(all.iter().max(), Some(&FULL_SCALE));
    assert_eq!(rows[0][1], 0);
    assert_eq!(rows[1][1], FULL_SCALE);
    assert_eq!(rows[0][0], (731 - 12) * 1_000_000 / (5_000 - 12));
}

#[test]
fn constant_timeline_becomes_all_zeros() {
    let samples = ramp(2);
    let analizer = Analizer::new(&samples, 2, 44100, 1);
    let mut rows = vec![vec![42, 42], vec![42, 42]];
    analizer.normalize_freqs(&mut rows);
    assert_eq!(rows, vec![vec![0, 0], vec![0, 0]]);
    let mut single = vec![vec![7]];
    analizer.normalize_freqs(&mut single);
    assert_eq!(single, vec![vec![0]]);
}

#[test]
fn normalization_rounds_down_and_keeps_ragged_shapes() {
    let samples = ramp(2);
    let analizer = Analizer::new(&samples, 2, 44100, 1);
    let mut rows = vec![vec![0, 1, 3], vec![], vec![2]];
    analizer.normalize_freqs(&mut rows);
    assert_eq!(rows, vec![vec![0, 333_333, 1_000_000], vec![], vec![666_666]]);
    let mut signed = vec![vec![-5, 5], vec![0]];
    analizer.normalize_freqs(&mut signed);
    assert_eq!(signed, vec![vec![0, 1_000_000], vec![500_000]]);
    let mut empty: Vec<Vec<i32>> = vec![];
    analizer.normalize_freqs(&mut empty);
    assert!(empty.is_empty());
}

#[test]
fn normalization_spans_the_whole_integer_range() {
    let samples = ramp(2);
    let analizer = Analizer::new(&samples, 2, 44100, 1);
    let mut rows = vec![vec![i32::MIN, 0, i32::MAX]];
    analizer.normalize_freqs(&mut rows);
    assert_eq!(rows, vec![vec![0, 500_000, 1_000_000]]);
}
