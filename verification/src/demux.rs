//! Channel demultiplexing: the mathematical model of splitting an interleaved
//! stream into channels and of putting the channels back together.
use vstd::prelude::*;

verus! {

/// The views of a vector of vectors.
pub open spec fn grid<T>(rows: Seq<Vec<T>>) -> Seq<Seq<T>> {
    Seq::new(rows.len(), |i: int| rows[i]@)
}

/// Channel `c` of an interleaved stream of `channels` channels: every
/// `channels`-th sample, starting at offset `c`.
pub open spec fn channel_of<T>(samples: Seq<T>, channels: int, c: int) -> Seq<T> {
    Seq::new((samples.len() as int / channels) as nat, |k: int| samples[k * channels + c])
}

/// All channels of an interleaved stream.
pub open spec fn demuxed<T>(samples: Seq<T>, channels: int) -> Seq<Seq<T>> {
    Seq::new(channels as nat, |c: int| channel_of(samples, channels, c))
}

/// Whether all channels have the length of the first one.
pub open spec fn equal_lengths<T>(channels: Seq<Seq<T>>) -> bool {
    forall|c: int| 0 <= c < channels.len() ==> (#[trigger] channels[c]).len() == channels[0].len()
}

/// The interleaved stream of channels of equal length: frame after frame,
/// within a frame channel after channel.
pub open spec fn interleaved<T>(channels: Seq<Seq<T>>) -> Seq<T> {
    Seq::new(
        channels.len() * channels[0].len(),
        |i: int| channels[i % (channels.len() as int)][i / (channels.len() as int)],
    )
}

/// Every position of a stream is the position of its frame and channel.
pub proof fn lemma_position_frame(i: int, channels: int)
    requires
        0 <= i,
        0 < channels,
    ensures
        i == (i / channels) * channels + i % channels,
        0 <= i % channels < channels,
        0 <= i / channels,
{
    assert(i == (i / channels) * channels + i % channels && 0 <= i % channels < channels && 0 <= i
        / channels) by (nonlinear_arith)
        requires
            0 <= i,
            0 < channels,
    ;
}

/// Demultiplexing is lossless: interleaving the channels of a stream that
/// holds whole frames gives the stream back, for any channel count of at
/// least one.
pub proof fn lemma_demux_lossless<T>(samples: Seq<T>, channels: int)
    requires
        channels >= 1,
        samples.len() % (channels as nat) == 0,
    ensures
        equal_lengths(demuxed(samples, channels)),
        interleaved(demuxed(samples, channels)) == samples,
{
    let parts = demuxed(samples, channels);
    let frames = samples.len() as int / channels;
    assert(samples.len() == channels * frames) by (nonlinear_arith)
        requires
            channels >= 1,
            samples.len() % (channels as nat) == 0,
            frames == samples.len() as int / channels,
    ;
    assert(parts[0].len() == frames);
    let back = interleaved(parts);
    assert(back.len() == samples.len());
    assert forall|i: int| 0 <= i < samples.len() implies back[i] == samples[i] by {
        lemma_position_frame(i, channels);
        let c = i % channels;
        let k = i / channels;
        assert(k < frames) by (nonlinear_arith)
            requires
                i < channels * frames,
                i == k * channels + c,
                0 <= c,
                channels >= 1,
        ;
        assert(parts[c][k] == samples[k * channels + c]);
    }
    assert(back =~= samples);
}

/// Puts channels of equal length back into one interleaved stream. Returns
/// `None` if there is no channel, if the channels differ in length, or if the
/// stream would be longer than an index can address.
pub fn interleave<T: Copy>(channels: &Vec<Vec<T>>) -> (r: Option<Vec<T>>)
    ensures
        r is Some <==> channels.len() > 0 && equal_lengths(grid(channels@)) && channels.len()
            * channels[0].len() <= usize::MAX,
        r matches Some(stream) ==> stream@ == interleaved(grid(channels@)),
{
    let count = channels.len();
    if count == 0 {
        return None;
    }
    let frames = channels[0].len();
    let ghost g = grid(channels@);
    let mut c: usize = 1;
    while c < count
        invariant
            1 <= c <= count,
            count == channels.len(),
            frames == channels[0].len(),
            g == grid(channels@),
            forall|a: int| 0 <= a < c ==> (#[trigger] g[a]).len() == frames,
        decreases count - c,
    {
        if channels[c].len() != frames {
            assert(g[c as int].len() != g[0].len());
            return None;
        }
        c += 1;
    }
    assert(equal_lengths(g));
    let total = match count.checked_mul(frames) {
        Some(total) => total,
        None => {
            return None;
        },
    };
    let mut stream: Vec<T> = Vec::new();
    let mut i: usize = 0;
    while i < total
        invariant
            i <= total,
            total == count * frames,
            count == channels.len(),
            count > 0,
            g == grid(channels@),
            forall|a: int| 0 <= a < count ==> (#[trigger] g[a]).len() == frames,
            stream.len() == i,
            forall|a: int|
                0 <= a < i ==> stream[a] == g[a % (count as int)][a / (count as int)],
        decreases total - i,
    {
        let ch = i % count;
        let k = i / count;
        proof {
            lemma_position_frame(i as int, count as int);
            assert(k < frames) by (nonlinear_arith)
                requires
                    i < count * frames,
                    i == k * count + ch,
                    0 <= ch,
                    count > 0,
            ;
            assert(g[ch as int].len() == frames);
        }
        stream.push(channels[ch][k]);
        i += 1;
    }
    assert(stream@ =~= interleaved(g));
    Some(stream)
}

} // verus!
