use spectrum_visualizer::analizer::{AnalysisError, Analizer};
use spectrum_visualizer::demux::interleave;

#[test]
fn stereo_stream_is_split_by_offset() {
    let samples: Vec<f32> = vec![0.0, 10.0, 1.0, 11.0, 2.0, 12.0];
    let analizer = Analizer::new(&samples, 2, 44100, 2);
    let channels = analizer.partition_samples(&samples, 2).unwrap();
    assert_eq!(channels, vec![vec![0.0, 1.0, 2.0], vec![10.0, 11.0, 12.0]]);
}

#[test]
fn interleaving_the_channels_gives_the_stream_back() {
    let samples: Vec<i16> = (0..30).collect();
    for count in [1usize, 2, 3, 5, 6] {
        let analizer = Analizer::new(&samples, 4, 8000, count);
        let channels = analizer.partition_samples(&samples, count).unwrap();
        assert_eq!(channels.len(), count);
        assert_eq!(interleave(&channels), Some(samples.clone()));
    }
}

#[test]
fn zero_channels_are_rejected() {
    let samples: Vec<f32> = vec![1.0, 2.0];
    let analizer = Analizer::new(&samples, 2, 44100, 0);
    assert_eq!(analizer.partition_samples(&samples, 0), Err(AnalysisError::NoChannels));
}

#[test]
fn partial_frames_are_rejected() {
    let samples: Vec<f32> = vec![1.0, 2.0, 3.0];
    let analizer = Analizer::new(&samples, 2, 44100, 2);
    assert_eq!(analizer.partition_samples(&samples, 2), Err(AnalysisError::UnevenChannels));
}

#[test]
fn channels_of_unequal_length_cannot_be_interleaved() {
    assert_eq!(interleave(&vec![vec![1, 2], vec![3]]), None);
    assert_eq!(interleave::<i32>(&vec![]), None);
    assert_eq!(interleave(&vec![vec![1, 2], vec![3, 4]]), Some(vec![1, 3, 2, 4]));
    assert_eq!(interleave::<i32>(&vec![vec![], vec![]]), Some(vec![]));
}
