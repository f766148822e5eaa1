//! What the playback clock needs to know of an audio stream.
use vstd::prelude::*;

verus! {

/// Playback duration in microseconds of an interleaved stream, rounded down.
pub open spec fn stream_duration_micros(samples: int, channels: int, sample_rate: int) -> int {
    (samples / channels) * 1_000_000 / sample_rate
}

/// The format and length of an audio stream.
#[derive(Clone, Copy, Debug, PartialEq, Eq, Structural)]
pub struct AudioSpec {
    /// Samples per second and channel.
    pub sample_rate: u32,
    /// Channels in the stream.
    pub channels: usize,
    /// Playback duration in microseconds.
    pub duration_micros: u64,
}

impl AudioSpec {
    /// The description of an interleaved stream of `sample_count` samples.
    /// There is none for a stream without channels or without a sample rate,
    /// nor for one whose duration does not fit the field.
    pub fn of_stream(sample_rate: u32, channels: usize, sample_count: usize) -> (spec: Option<Self>)
        ensures
            spec is Some <==> channels > 0 && sample_rate > 0 && stream_duration_micros(
                sample_count as int,
                channels as int,
                sample_rate as int,
            ) <= u64::MAX,
            spec matches Some(s) ==> s.sample_rate == sample_rate && s.channels == channels
                && s.duration_micros == stream_duration_micros(
                sample_count as int,
                channels as int,
                sample_rate as int,
            ),
    {
        if channels == 0 || sample_rate == 0 {
            return None;
        }
        let frames: u128 = (sample_count / channels) as u128;
        let micros: u128 = frames * 1_000_000u128 / (sample_rate as u128);
        if micros > u64::MAX as u128 {
            None
        } else {
            Some(Self { sample_rate, channels, duration_micros: micros as u64 })
        }
    }
}

} // verus!
