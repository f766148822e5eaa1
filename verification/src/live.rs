//! Live capture: a bounded buffer of the most recent samples, and the
//! normalization of a live spectrum.
//!
//! A live stream has no end, so its spectra cannot be normalized by a global
//! minimum and maximum. They are scaled by a fixed assumed range instead:
//! this differs from the offline normalization on purpose.
use crate::level::{clamp, Level, FULL_SCALE};
use vstd::prelude::*;

verus! {

/// The most recent `capacity` items of a sequence.
pub open spec fn kept<T>(items: Seq<T>, capacity: int) -> Seq<T> {
    if items.len() <= capacity {
        items
    } else {
        items.subrange(items.len() - capacity, items.len() as int)
    }
}

/// A magnitude scaled by a fixed range: limited to `0..=ceiling`, then
/// rescaled to `0..=FULL_SCALE`, rounded down.
pub open spec fn fixed_range_level(v: int, ceiling: int) -> int {
    clamp(v, 0, ceiling) * FULL_SCALE / ceiling
}

/// A spectrum scaled by a fixed range.
pub open spec fn fixed_range(spectrum: Seq<Level>, ceiling: int) -> Seq<Level> {
    Seq::new(spectrum.len(), |i: int| fixed_range_level(spectrum[i] as int, ceiling) as Level)
}

/// A bounded buffer of samples: once it is full, the oldest samples make room
/// for new ones.
pub struct RingBuffer<T> {
    /// The samples held, oldest first.
    pub samples: Vec<T>,
    /// The largest number of samples held.
    pub capacity: usize,
}

impl<T: Copy> RingBuffer<T> {
    /// The buffer's invariant: it never holds more than its capacity.
    pub open spec fn wf(&self) -> bool {
        self.samples.len() <= self.capacity
    }

    /// An empty buffer.
    pub fn new(capacity: usize) -> (buffer: Self)
        ensures
            buffer.wf(),
            buffer.capacity == capacity,
            buffer.samples@ == Seq::<T>::empty(),
    {
        Self { samples: Vec::new(), capacity }
    }

    /// Number of samples held.
    pub fn len(&self) -> (len: usize)
        ensures
            len == self.samples.len(),
    {
        self.samples.len()
    }

    /// Appends a block of samples and evicts the oldest samples beyond the
    /// capacity.
    pub fn push_block(&mut self, block: &[T])
        requires
            old(self).wf(),
        ensures
            final(self).wf(),
            final(self).capacity == old(self).capacity,
            final(self).samples@ == kept(old(self).samples@ + block@, old(self).capacity as int),
    {
        let capacity = self.capacity;
        let held = self.samples.len();
        let ghost before = self.samples@;
        let ghost all = before + block@;
        let mut next: Vec<T> = Vec::new();
        if block.len() >= capacity {
            let skip = block.len() - capacity;
            let mut i: usize = skip;
            while i < block.len()
                invariant
                    skip <= i <= block.len(),
                    next.len() == i - skip,
                    forall|a: int| 0 <= a < next.len() ==> next[a] == block[skip + a],
                decreases block.len() - i,
            {
                next.push(block[i]);
                i += 1;
            }
            assert(next@ =~= kept(all, capacity as int));
        } else {
            let room = capacity - block.len();
            let drop = if held > room {
                held - room
            } else {
                0
            };
            let mut i: usize = drop;
            while i < held
                invariant
                    drop <= i <= held,
                    held == self.samples.len(),
                    self.samples@ == before,
                    next.len() == i - drop,
                    forall|a: int| 0 <= a < next.len() ==> next[a] == before[drop + a],
                decreases held - i,
            {
                next.push(self.samples[i]);
                i += 1;
            }
            let mut j: usize = 0;
            while j < block.len()
                invariant
                    j <= block.len(),
                    drop <= held,
                    held == before.len(),
                    next.len() == held - drop + j,
                    forall|a: int| 0 <= a < held - drop ==> next[a] == before[drop + a],
                    forall|a: int| 0 <= a < j ==> next[held - drop + a] == block[a],
                decreases block.len() - j,
            {
                next.push(block[j]);
                j += 1;
            }
            assert(next@ =~= kept(all, capacity as int));
        }
        self.samples = next;
    }

    /// The most recent `count` samples, oldest first, or `None` while fewer
    /// are held.
    pub fn latest(&self, count: usize) -> (window: Option<Vec<T>>)
        ensures
            window is Some <==> count <= self.samples.len(),
            window matches Some(w) ==> w@ == self.samples@.subrange(
                self.samples.len() - count,
                self.samples.len() as int,
            ),
    {
        let held = self.samples.len();
        if count > held {
            return None;
        }
        let start = held - count;
        let mut window: Vec<T> = Vec::new();
        let mut i: usize = start;
        while i < held
            invariant
                start <= i <= held,
                held == self.samples.len(),
                window.len() == i - start,
                forall|a: int| 0 <= a < window.len() ==> window[a] == self.samples[start + a],
            decreases held - i,
        {
            window.push(self.samples[i]);
            i += 1;
        }
        assert(window@ =~= self.samples@.subrange(held - count, held as int));
        Some(window)
    }
}

/// Normalizes a live spectrum by a fixed assumed range: every magnitude is
/// limited to `0..=ceiling` and rescaled to `0..=FULL_SCALE`. A ceiling that
/// is not positive spans no range and gives `None`.
pub fn normalize_fixed_range(spectrum: &[Level], ceiling: Level) -> (out: Option<Vec<Level>>)
    ensures
        out is Some <==> ceiling > 0,
        out matches Some(levels) ==> levels@ == fixed_range(spectrum@, ceiling as int),
        out matches Some(levels) ==> forall|i: int|
            0 <= i < levels.len() ==> 0 <= #[trigger] levels[i] <= FULL_SCALE,
{
    if ceiling <= 0 {
        return None;
    }
    let mut levels: Vec<Level> = Vec::new();
    let mut i: usize = 0;
    while i < spectrum.len()
        invariant
            i <= spectrum.len(),
            ceiling > 0,
            levels.len() == i,
            forall|a: int|
                0 <= a < i ==> levels[a] == fixed_range_level(spectrum[a] as int, ceiling as int),
            forall|a: int| 0 <= a < i ==> 0 <= #[trigger] levels[a] <= FULL_SCALE,
        decreases spectrum.len() - i,
    {
        let v = spectrum[i];
        let limited: i64 = if v < 0 {
            0
        } else if v > ceiling {
            ceiling as i64
        } else {
            v as i64
        };
        assert(0 <= limited * 1_000_000 / (ceiling as int) <= 1_000_000) by (nonlinear_arith)
            requires
                0 <= limited <= ceiling,
                ceiling > 0,
        ;
        let level = (limited * 1_000_000 / (ceiling as i64)) as Level;
        levels.push(level);
        i += 1;
    }
    assert(levels@ =~= fixed_range(spectrum@, ceiling as int));
    Some(levels)
}

} // verus!
