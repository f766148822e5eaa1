//! The offline analysis pipeline around the transform: channel
//! demultiplexing, chunking, and the global normalization of the spectra into
//! a timeline.
//!
//! The windowed transform itself works on floating-point samples and is the
//! caller's part. The analyzer hands out the chunks to transform and takes the
//! log-compressed magnitudes back as fixed-point levels.
use crate::demux::{channel_of, demuxed, equal_lengths, grid, interleaved, lemma_demux_lossless};
use crate::level::{Level, FULL_SCALE};
use vstd::prelude::*;

verus! {

/// Why an input cannot be analyzed.
#[derive(Clone, Copy, Debug, PartialEq, Eq, Structural)]
pub enum AnalysisError {
    /// The channel count is zero.
    NoChannels,
    /// The stream does not hold whole frames, so the channels would differ in
    /// length.
    UnevenChannels,
    /// The chunk size is below two samples, for which no window exists.
    ChunkTooSmall,
    /// The spectra handed in do not match the chunk count or the bin count.
    ShapeMismatch,
}

/// Splits an interleaved sample stream into per-channel chunks and turns the
/// spectra of those chunks into a normalized timeline.
pub struct Analizer<'a, T> {
    /// The interleaved samples.
    pub samples: &'a [T],
    /// Samples per second and channel.
    pub sample_rate: u32,
    /// Samples per analysis window.
    pub chunk_size: usize,
    /// Channels in the stream.
    pub num_channels: usize,
}

/// The error of a stream layout, if it has one.
pub open spec fn layout_error(len: int, channels: int) -> Option<AnalysisError> {
    if channels == 0 {
        Some(AnalysisError::NoChannels)
    } else if len % channels != 0 {
        Some(AnalysisError::UnevenChannels)
    } else {
        None
    }
}

/// The error of an analyzer configuration, if it has one.
pub open spec fn config_error(len: int, channels: int, chunk_size: int) -> Option<AnalysisError> {
    if layout_error(len, channels) is Some {
        layout_error(len, channels)
    } else if chunk_size < 2 {
        Some(AnalysisError::ChunkTooSmall)
    } else {
        None
    }
}

/// Number of chunks per channel. Only whole chunks count: samples left over at
/// the end of a channel, fewer than a chunk, are dropped.
pub open spec fn chunk_total(len: int, channels: int, chunk_size: int) -> int {
    (len / channels) / chunk_size
}

/// Chunk `k` of a channel.
pub open spec fn chunk_of<T>(channel: Seq<T>, chunk_size: int, k: int) -> Seq<T> {
    channel.subrange(k * chunk_size, (k + 1) * chunk_size)
}

/// Whether `v` occurs in the grid.
pub open spec fn occurs(rows: Seq<Seq<Level>>, v: int) -> bool {
    exists|i: int, j: int| 0 <= i < rows.len() && 0 <= j < rows[i].len() && rows[i][j] == v
}

/// Whether no value of the grid is below `v`.
pub open spec fn none_below(rows: Seq<Seq<Level>>, v: int) -> bool {
    forall|i: int, j: int| 0 <= i < rows.len() && 0 <= j < rows[i].len() ==> v <= rows[i][j]
}

/// Whether no value of the grid is above `v`.
pub open spec fn none_above(rows: Seq<Seq<Level>>, v: int) -> bool {
    forall|i: int, j: int| 0 <= i < rows.len() && 0 <= j < rows[i].len() ==> rows[i][j] <= v
}

/// Whether `v` is the smallest value over every bin of every chunk.
pub open spec fn is_global_min(rows: Seq<Seq<Level>>, v: int) -> bool {
    occurs(rows, v) && none_below(rows, v)
}

/// Whether `v` is the largest value over every bin of every chunk.
pub open spec fn is_global_max(rows: Seq<Seq<Level>>, v: int) -> bool {
    occurs(rows, v) && none_above(rows, v)
}

/// The smallest value of a grid that holds at least one value.
pub open spec fn global_min(rows: Seq<Seq<Level>>) -> int {
    choose|v: int| is_global_min(rows, v)
}

/// The largest value of a grid that holds at least one value.
pub open spec fn global_max(rows: Seq<Seq<Level>>) -> int {
    choose|v: int| is_global_max(rows, v)
}

/// A value rescaled from `lo..=hi` to `0..=FULL_SCALE`, rounded down. Where
/// the range is empty (`hi == lo`, a constant input) the result is zero.
pub open spec fn rescaled(v: int, lo: int, hi: int) -> int {
    if hi > lo {
        (v - lo) * FULL_SCALE / (hi - lo)
    } else {
        0
    }
}

/// The grid with every value rescaled by the global minimum and maximum.
pub open spec fn normalized(rows: Seq<Seq<Level>>) -> Seq<Seq<Level>> {
    Seq::new(
        rows.len(),
        |i: int|
            Seq::new(
                rows[i].len(),
                |j: int| rescaled(rows[i][j] as int, global_min(rows), global_max(rows)) as Level,
            ),
    )
}

/// Whether the grid has `count` rows of `bins` values each.
pub open spec fn has_shape(rows: Seq<Seq<Level>>, count: int, bins: int) -> bool {
    rows.len() == count && forall|i: int| 0 <= i < rows.len() ==> (#[trigger] rows[i]).len() == bins
}

/// The global minimum and maximum are unique.
pub proof fn lemma_global_bounds(rows: Seq<Seq<Level>>, lo: int, hi: int)
    requires
        is_global_min(rows, lo),
        is_global_max(rows, hi),
    ensures
        global_min(rows) == lo,
        global_max(rows) == hi,
        lo <= hi,
{
    let m = global_min(rows);
    let n = global_max(rows);
    assert(is_global_min(rows, m));
    assert(is_global_max(rows, n));
}

/// A rescaled value lies in `0..=FULL_SCALE`; the minimum goes to zero and the
/// maximum of a non-empty range to `FULL_SCALE`.
pub proof fn lemma_rescaled_range(v: int, lo: int, hi: int)
    requires
        lo <= v <= hi,
    ensures
        0 <= rescaled(v, lo, hi) <= FULL_SCALE,
        rescaled(lo, lo, hi) == 0,
        lo < hi ==> rescaled(hi, lo, hi) == FULL_SCALE,
{
    if hi > lo {
        let d = hi - lo;
        assert(0 <= (v - lo) * FULL_SCALE / d <= FULL_SCALE) by (nonlinear_arith)
            requires
                0 <= v - lo <= d,
                d > 0,
        ;
        assert((lo - lo) * FULL_SCALE / d == 0) by (nonlinear_arith)
            requires
                d > 0,
        ;
        assert((hi - lo) * FULL_SCALE / d == FULL_SCALE) by (nonlinear_arith)
            requires
                d == hi - lo,
                d > 0,
        ;
    }
}

/// After normalization of a timeline that is not constant, the global minimum
/// over all chunks and bins is zero and the global maximum is `FULL_SCALE`. A
/// constant timeline becomes all zeros. Either way every value lies in
/// `0..=FULL_SCALE`.
pub proof fn lemma_normalized_extremes(rows: Seq<Seq<Level>>, lo: int, hi: int)
    requires
        is_global_min(rows, lo),
        is_global_max(rows, hi),
    ensures
        none_below(normalized(rows), 0),
        none_above(normalized(rows), FULL_SCALE as int),
        lo < hi ==> is_global_min(normalized(rows), 0) && is_global_max(
            normalized(rows),
            FULL_SCALE as int,
        ),
        lo == hi ==> none_above(normalized(rows), 0),
{
    lemma_global_bounds(rows, lo, hi);
    let out = normalized(rows);
    assert forall|i: int, j: int| 0 <= i < out.len() && 0 <= j < out[i].len() implies 0
        <= out[i][j] <= FULL_SCALE && (lo == hi ==> out[i][j] == 0) by {
        lemma_rescaled_range(rows[i][j] as int, lo, hi);
    }
    if lo < hi {
        let (a, b) = choose|a: int, b: int|
            0 <= a < rows.len() && 0 <= b < rows[a].len() && rows[a][b] == lo;
        let (c, d) = choose|c: int, d: int|
            0 <= c < rows.len() && 0 <= d < rows[c].len() && rows[c][d] == hi;
        lemma_rescaled_range(lo, lo, hi);
        lemma_rescaled_range(hi, lo, hi);
        assert(out[a][b] == 0);
        assert(out[c][d] == FULL_SCALE);
    }
}

/// The smallest and the largest value of a row, or `None` for an empty row.
fn row_extremes(row: &Vec<Level>) -> (r: Option<(Level, Level)>)
    ensures
        match r {
            None => row.len() == 0,
            Some((lo, hi)) => {
                &&& exists|j: int| 0 <= j < row.len() && row[j] == lo
                &&& exists|j: int| 0 <= j < row.len() && row[j] == hi
                &&& forall|j: int| 0 <= j < row.len() ==> lo <= #[trigger] row[j] && row[j] <= hi
            },
        },
{
    if row.len() == 0 {
        return None;
    }
    let mut lo = row[0];
    let mut hi = row[0];
    let mut j: usize = 1;
    while j < row.len()
        invariant
            1 <= j <= row.len(),
            exists|a: int| 0 <= a < j && row[a] == lo,
            exists|a: int| 0 <= a < j && row[a] == hi,
            forall|a: int| 0 <= a < j ==> lo <= #[trigger] row[a] && row[a] <= hi,
        decreases row.len() - j,
    {
        let v = row[j];
        if v > hi {
            hi = v;
        }
        if v < lo {
            lo = v;
        }
        j += 1;
    }
    Some((lo, hi))
}

/// The smallest and the largest value of a grid, or `None` if it holds no
/// value at all.
fn grid_extremes(rows: &Vec<Vec<Level>>) -> (r: Option<(Level, Level)>)
    ensures
        match r {
            None => forall|i: int| 0 <= i < rows.len() ==> (#[trigger] rows[i]).len() == 0,
            Some((lo, hi)) => is_global_min(grid(rows@), lo as int) && is_global_max(
                grid(rows@),
                hi as int,
            ),
        },
{
    let ghost g = grid(rows@);
    let mut acc: Option<(Level, Level)> = None;
    let mut i: usize = 0;
    while i < rows.len()
        invariant
            i <= rows.len(),
            g == grid(rows@),
            match acc {
                None => forall|a: int| 0 <= a < i ==> (#[trigger] rows[a]).len() == 0,
                Some((lo, hi)) => is_global_min(g.subrange(0, i as int), lo as int)
                    && is_global_max(g.subrange(0, i as int), hi as int),
            },
        decreases rows.len() - i,
    {
        let ghost before = g.subrange(0, i as int);
        let ghost after = g.subrange(0, i + 1);
        let found = row_extremes(&rows[i]);
        match found {
            None => {
                proof {
                    if let Some((lo, hi)) = acc {
                        let (a, b) = choose|a: int, b: int|
                            0 <= a < before.len() && 0 <= b < before[a].len() && before[a][b]
                                == lo;
                        assert(after[a][b] == lo);
                        let (c, d) = choose|c: int, d: int|
                            0 <= c < before.len() && 0 <= d < before[c].len() && before[c][d]
                                == hi;
                        assert(after[c][d] == hi);
                        assert forall|x: int, y: int|
                            0 <= x < after.len() && 0 <= y < after[x].len() implies lo
                            <= #[trigger] after[x][y] && after[x][y] <= hi by {
                            assert(x < i);
                            assert(before[x][y] == after[x][y]);
                        }
                    }
                }
            },
            Some((rlo, rhi)) => {
                let (lo, hi) = match acc {
                    None => (rlo, rhi),
                    Some((lo, hi)) => (
                        if rlo < lo {
                            rlo
                        } else {
                            lo
                        },
                        if rhi > hi {
                            rhi
                        } else {
                            hi
                        },
                    ),
                };
                proof {
                    let row = rows[i as int];
                    let jl = choose|j: int| 0 <= j < row.len() && row[j] == rlo;
                    let jh = choose|j: int| 0 <= j < row.len() && row[j] == rhi;
                    assert(after[i as int][jl] == rlo);
                    assert(after[i as int][jh] == rhi);
                    if let Some((plo, phi)) = acc {
                        let (a, b) = choose|a: int, b: int|
                            0 <= a < before.len() && 0 <= b < before[a].len() && before[a][b]
                                == plo;
                        assert(after[a][b] == plo);
                        let (c, d) = choose|c: int, d: int|
                            0 <= c < before.len() && 0 <= d < before[c].len() && before[c][d]
                                == phi;
                        assert(after[c][d] == phi);
                    }
                    assert(occurs(after, lo as int));
                    assert(occurs(after, hi as int));
                    assert forall|x: int, y: int|
                        0 <= x < after.len() && 0 <= y < after[x].len() implies lo
                        <= #[trigger] after[x][y] && after[x][y] <= hi by {
                        if x < i {
                            assert(before[x][y] == after[x][y]);
                            if acc is None {
                                assert(rows[x].len() == 0);
                            }
                        } else {
                            assert(after[x][y] == row[y]);
                        }
                    }
                }
                acc = Some((lo, hi));
            },
        }
        i += 1;
    }
    assert(g.subrange(0, rows.len() as int) =~= g);
    acc
}

impl<'a, T: Copy> Analizer<'a, T> {
    /// An analyzer over an interleaved sample stream.
    pub fn new(samples: &'a [T], chunk_size: usize, sample_rate: u32, num_channels: usize) -> (a:
        Self)
        ensures
            a.samples@ == samples@,
            a.chunk_size == chunk_size,
            a.sample_rate == sample_rate,
            a.num_channels == num_channels,
    {
        Self { samples, chunk_size, sample_rate, num_channels }
    }

    /// Demultiplexes an interleaved stream: channel `c` of the result holds
    /// every `num_channels`-th sample, starting at offset `c`. A channel count
    /// of zero and a stream that does not hold whole frames are rejected.
    /// Interleaving the result gives the stream back.
    pub fn partition_samples(&self, samples: &[T], num_channels: usize) -> (r: Result<
        Vec<Vec<T>>,
        AnalysisError,
    >)
        ensures
            match r {
                Ok(channels) => {
                    &&& layout_error(samples.len() as int, num_channels as int) is None
                    &&& grid(channels@) == demuxed(samples@, num_channels as int)
                    &&& equal_lengths(grid(channels@))
                    &&& interleaved(grid(channels@)) == samples@
                },
                Err(e) => layout_error(samples.len() as int, num_channels as int) == Some(e),
            },
    {
        if num_channels == 0 {
            return Err(AnalysisError::NoChannels);
        }
        if samples.len() % num_channels != 0 {
            return Err(AnalysisError::UnevenChannels);
        }
        let frames = samples.len() / num_channels;
        assert(samples.len() == frames * num_channels) by (nonlinear_arith)
            requires
                num_channels > 0,
                samples.len() % num_channels == 0,
                frames == samples.len() / num_channels,
        ;
        let mut channels: Vec<Vec<T>> = Vec::new();
        let mut c: usize = 0;
        while c < num_channels
            invariant
                c <= num_channels,
                samples.len() == frames * num_channels,
                frames == samples.len() / num_channels,
                channels.len() == c,
                forall|a: int|
                    0 <= a < c ==> (#[trigger] channels[a])@ == channel_of(
                        samples@,
                        num_channels as int,
                        a,
                    ),
            decreases num_channels - c,
        {
            let mut channel: Vec<T> = Vec::new();
            let mut k: usize = 0;
            while k < frames
                invariant
                    k <= frames,
                    c < num_channels,
                    samples.len() == frames * num_channels,
                    channel.len() == k,
                    forall|a: int| 0 <= a < k ==> channel[a] == samples[a * num_channels + c],
                decreases frames - k,
            {
                assert(k * num_channels + c < frames * num_channels) by (nonlinear_arith)
                    requires
                        k < frames,
                        c < num_channels,
                ;
                channel.push(samples[k * num_channels + c]);
                k += 1;
            }
            assert(channel@ =~= channel_of(samples@, num_channels as int, c as int));
            channels.push(channel);
            c += 1;
        }
        proof {
            assert(grid(channels@) =~= demuxed(samples@, num_channels as int));
            lemma_demux_lossless(samples@, num_channels as int);
        }
        Ok(channels)
    }

    /// Number of chunks per channel, or the configuration's error.
    pub fn chunk_count(&self) -> (r: Result<usize, AnalysisError>)
        ensures
            match r {
                Ok(count) => {
                    &&& config_error(
                        self.samples.len() as int,
                        self.num_channels as int,
                        self.chunk_size as int,
                    ) is None
                    &&& count == chunk_total(
                        self.samples.len() as int,
                        self.num_channels as int,
                        self.chunk_size as int,
                    )
                },
                Err(e) => config_error(
                    self.samples.len() as int,
                    self.num_channels as int,
                    self.chunk_size as int,
                ) == Some(e),
            },
    {
        if self.num_channels == 0 {
            return Err(AnalysisError::NoChannels);
        }
        if self.samples.len() % self.num_channels != 0 {
            return Err(AnalysisError::UnevenChannels);
        }
        if self.chunk_size < 2 {
            return Err(AnalysisError::ChunkTooSmall);
        }
        Ok((self.samples.len() / self.num_channels) / self.chunk_size)
    }

    /// The chunks to transform: for every channel its whole chunks in order,
    /// so that the chunk index runs in lock-step across the channels.
    pub fn channel_chunks(&self) -> (r: Result<Vec<Vec<Vec<T>>>, AnalysisError>)
        ensures
            match r {
                Ok(chunks) => {
                    &&& config_error(
                        self.samples.len() as int,
                        self.num_channels as int,
                        self.chunk_size as int,
                    ) is None
                    &&& chunks.len() == self.num_channels
                    &&& forall|c: int|
                        0 <= c < chunks.len() ==> (#[trigger] chunks[c]).len() == chunk_total(
                            self.samples.len() as int,
                            self.num_channels as int,
                            self.chunk_size as int,
                        )
                    &&& forall|c: int, k: int|
                        0 <= c < chunks.len() && 0 <= k < chunks[c].len()
                            ==> (#[trigger] chunks[c][k])@ == chunk_of(
                            channel_of(self.samples@, self.num_channels as int, c),
                            self.chunk_size as int,
                            k,
                        )
                },
                Err(e) => config_error(
                    self.samples.len() as int,
                    self.num_channels as int,
                    self.chunk_size as int,
                ) == Some(e),
            },
    {
        let count = match self.chunk_count() {
            Ok(count) => count,
            Err(e) => {
                return Err(e);
            },
        };
        let channels = match self.partition_samples(self.samples, self.num_channels) {
            Ok(channels) => channels,
            Err(e) => {
                return Err(e);
            },
        };
        let size = self.chunk_size;
        let ghost parts = demuxed(self.samples@, self.num_channels as int);
        let ghost frames = self.samples.len() as int / self.num_channels as int;
        let mut chunks: Vec<Vec<Vec<T>>> = Vec::new();
        let mut c: usize = 0;
        while c < channels.len()
            invariant
                c <= channels.len(),
                channels.len() == self.num_channels,
                grid(channels@) == parts,
                parts == demuxed(self.samples@, self.num_channels as int),
                frames == self.samples.len() as int / self.num_channels as int,
                size == self.chunk_size,
                size >= 2,
                count == frames / (size as int),
                chunks.len() == c,
                forall|a: int| 0 <= a < c ==> (#[trigger] chunks[a]).len() == count,
                forall|a: int, k: int|
                    0 <= a < c && 0 <= k < count ==> (#[trigger] chunks[a][k])@ == chunk_of(
                        parts[a],
                        size as int,
                        k,
                    ),
            decreases channels.len() - c,
        {
            let channel = &channels[c];
            assert(channel@ == parts[c as int]) by {
                assert(grid(channels@)[c as int] == channels[c as int]@);
            }
            assert(channel.len() == frames);
            let mut list: Vec<Vec<T>> = Vec::new();
            let mut k: usize = 0;
            while k < count
                invariant
                    k <= count,
                    channel.len() == frames,
                    size >= 2,
                    count == frames / (size as int),
                    list.len() == k,
                    forall|a: int|
                        0 <= a < k ==> (#[trigger] list[a])@ == chunk_of(channel@, size as int, a),
                decreases count - k,
            {
                assert((k + 1) * size <= frames && k * size + size == (k + 1) * size) by (nonlinear_arith)
                    requires
                        k < count,
                        count == frames / (size as int),
                        size >= 2,
                ;
                let start = k * size;
                let mut chunk: Vec<T> = Vec::new();
                let mut j: usize = 0;
                while j < size
                    invariant
                        j <= size,
                        start + size <= channel.len(),
                        chunk.len() == j,
                        forall|a: int| 0 <= a < j ==> chunk[a] == channel[start + a],
                    decreases size - j,
                {
                    chunk.push(channel[start + j]);
                    j += 1;
                }
                assert(chunk@ =~= chunk_of(channel@, size as int, k as int));
                list.push(chunk);
                k += 1;
            }
            chunks.push(list);
            c += 1;
        }
        Ok(chunks)
    }

    /// Global normalization of a grid of log-compressed magnitudes: the
    /// minimum and maximum are taken over every bin of every chunk, and every
    /// value is rescaled to `0..=FULL_SCALE` by them. A constant grid becomes
    /// all zeros.
    pub fn normalize_freqs(&self, freqs: &mut Vec<Vec<Level>>)
        ensures
            grid(final(freqs)@) == normalized(grid(old(freqs)@)),
            none_below(grid(final(freqs)@), 0),
            none_above(grid(final(freqs)@), FULL_SCALE as int),
    {
        let ghost rows = grid(freqs@);
        let extremes = grid_extremes(freqs);
        let (lo, hi) = match extremes {
            Some((lo, hi)) => {
                proof {
                    lemma_global_bounds(rows, lo as int, hi as int);
                }
                (lo, hi)
            },
            None => (0, 0),
        };
        let mut out: Vec<Vec<Level>> = Vec::new();
        let mut i: usize = 0;
        while i < freqs.len()
            invariant
                i <= freqs.len(),
                rows == grid(freqs@),
                lo <= hi,
                extremes is Some ==> lo == global_min(rows) && hi == global_max(rows)
                    && none_below(rows, lo as int) && none_above(rows, hi as int),
                extremes is None ==> forall|a: int|
                    0 <= a < freqs.len() ==> (#[trigger] freqs[a]).len() == 0,
                out.len() == i,
                forall|a: int| 0 <= a < i ==> (#[trigger] out[a])@ == normalized(rows)[a],
            decreases freqs.len() - i,
        {
            let row = &freqs[i];
            assert(row@ == rows[i as int]);
            let mut scaled_row: Vec<Level> = Vec::new();
            let mut j: usize = 0;
            while j < row.len()
                invariant
                    j <= row.len(),
                    i < freqs.len(),
                    row@ == rows[i as int],
                    rows.len() == freqs.len(),
                    lo <= hi,
                    extremes is None ==> row.len() == 0,
                    extremes is Some ==> lo == global_min(rows) && hi == global_max(rows)
                        && none_below(rows, lo as int) && none_above(rows, hi as int),
                    scaled_row.len() == j,
                    forall|b: int| 0 <= b < j ==> scaled_row[b] == normalized(rows)[i as int][b],
                decreases row.len() - j,
            {
                let v = row[j];
                assert(lo <= v <= hi) by {
                    assert(rows[i as int][j as int] == v);
                }
                proof {
                    lemma_rescaled_range(v as int, lo as int, hi as int);
                }
                let level: Level = if hi > lo {
                    let span: i64 = hi as i64 - lo as i64;
                    let offset: i64 = v as i64 - lo as i64;
                    ((offset * 1_000_000) / span) as Level
                } else {
                    0
                };
                scaled_row.push(level);
                j += 1;
            }
            assert(scaled_row@ =~= normalized(rows)[i as int]);
            out.push(scaled_row);
            i += 1;
        }
        assert(grid(out@) =~= normalized(rows));
        proof {
            match extremes {
                Some((lo, hi)) => {
                    lemma_normalized_extremes(rows, lo as int, hi as int);
                },
                None => {
                    assert forall|a: int| 0 <= a < rows.len() implies (#[trigger] rows[a]).len()
                        == 0 by {
                        assert(freqs[a].len() == 0);
                    }
                },
            }
        }
        *freqs = out;
    }

    /// Builds the timeline from the spectra of the chunks: one row per chunk
    /// index, each the merged, log-compressed magnitudes of that chunk as
    /// fixed-point values. The rows must match the chunk count and hold
    /// `chunk_size / 2` bins each. The result is the globally normalized grid,
    /// of the same shape.
    pub fn get_frequencies(&self, spectra: Vec<Vec<Level>>) -> (r: Result<
        Vec<Vec<Level>>,
        AnalysisError,
    >)
        ensures
            match r {
                Ok(timeline) => {
                    &&& config_error(
                        self.samples.len() as int,
                        self.num_channels as int,
                        self.chunk_size as int,
                    ) is None
                    &&& has_shape(
                        grid(spectra@),
                        chunk_total(
                            self.samples.len() as int,
                            self.num_channels as int,
                            self.chunk_size as int,
                        ),
                        self.chunk_size as int / 2,
                    )
                    &&& grid(timeline@) == normalized(grid(spectra@))
                    &&& none_below(grid(timeline@), 0)
                    &&& none_above(grid(timeline@), FULL_SCALE as int)
                    &&& has_shape(
                        grid(timeline@),
                        chunk_total(
                            self.samples.len() as int,
                            self.num_channels as int,
                            self.chunk_size as int,
                        ),
                        self.chunk_size as int / 2,
                    )
                },
                Err(e) => if config_error(
                    self.samples.len() as int,
                    self.num_channels as int,
                    self.chunk_size as int,
                ) is Some {
                    config_error(
                        self.samples.len() as int,
                        self.num_channels as int,
                        self.chunk_size as int,
                    ) == Some(e)
                } else {
                    e == AnalysisError::ShapeMismatch && !has_shape(
                        grid(spectra@),
                        chunk_total(
                            self.samples.len() as int,
                            self.num_channels as int,
                            self.chunk_size as int,
                        ),
                        self.chunk_size as int / 2,
                    )
                },
            },
    {
        let count = match self.chunk_count() {
            Ok(count) => count,
            Err(e) => {
                return Err(e);
            },
        };
        let bins = self.chunk_size / 2;
        let ghost rows = grid(spectra@);
        if spectra.len() != count {
            return Err(AnalysisError::ShapeMismatch);
        }
        let mut i: usize = 0;
        while i < spectra.len()
            invariant
                i <= spectra.len(),
                rows == grid(spectra@),
                bins == self.chunk_size / 2,
                config_error(
                    self.samples.len() as int,
                    self.num_channels as int,
                    self.chunk_size as int,
                ) is None,
                forall|a: int| 0 <= a < i ==> (#[trigger] rows[a]).len() == bins,
            decreases spectra.len() - i,
        {
            if spectra[i].len() != bins {
                assert(rows[i as int].len() != bins);
                return Err(AnalysisError::ShapeMismatch);
            }
            i += 1;
        }
        let mut timeline = spectra;
        self.normalize_freqs(&mut timeline);
        Ok(timeline)
    }
}

} // verus!
