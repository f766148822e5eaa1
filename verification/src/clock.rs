//! The playback clock: from elapsed wall-clock time to an index into the
//! timeline.
//!
//! The rate is fixed at the start: a timeline of `timeline_len` chunks plays
//! in `duration_micros` microseconds. Elapsed time is accumulated as an exact
//! integer, so no rounding error builds up from frame to frame.
use crate::level::clamp;
use vstd::prelude::*;

verus! {

/// The position in the timeline that the elapsed time stands for, rounded to
/// the nearest chunk with halves rounded up.
pub open spec fn rounded_position(timeline_len: int, duration: int, elapsed: int) -> int {
    (2 * (timeline_len * elapsed) + duration) / (2 * duration)
}

/// The index that follows `prev`. The natural successor is `prev + 1`. If it
/// is more than one position away from the rounded position, in either
/// direction, the index snaps to the rounded position, limited to
/// `0..=timeline_len - 1`; otherwise the natural successor stands.
pub open spec fn next_index(prev: int, rounded: int, timeline_len: int) -> int {
    let natural = prev + 1;
    if natural - rounded > 1 || rounded - natural > 1 {
        clamp(rounded, 0, timeline_len - 1)
    } else {
        natural
    }
}

/// Elapsed time after another `step` microseconds; the total saturates at the
/// largest value of its type.
pub open spec fn accumulated(elapsed: int, step: int) -> int {
    if elapsed + step > u64::MAX {
        u64::MAX as int
    } else {
        elapsed + step
    }
}

/// Maps elapsed time to a timeline index, frame by frame.
pub struct PlaybackClock {
    /// Number of chunks in the timeline.
    pub timeline_len: usize,
    /// Playback duration of the whole timeline in microseconds.
    pub duration_micros: u64,
    /// Time elapsed since the start in microseconds.
    pub elapsed_micros: u64,
    /// The index to render next; `timeline_len` once the end is reached.
    pub index: usize,
}

/// Rounding a quotient half up, from the quotient and remainder of the plain
/// division.
proof fn lemma_round_half_up(p: int, d: int, q: int, rem: int)
    requires
        d > 0,
        0 <= rem < d,
        p == q * d + rem,
    ensures
        (2 * p + d) / (2 * d) == if 2 * rem >= d {
            q + 1
        } else {
            q
        },
{
    if 2 * rem >= d {
        let r = 2 * rem - d;
        assert(2 * p + d == (q + 1) * (2 * d) + r) by (nonlinear_arith)
            requires
                p == q * d + rem,
                r == 2 * rem - d,
        ;
        assert((2 * p + d) / (2 * d) == q + 1) by (nonlinear_arith)
            requires
                d > 0,
                0 <= r < 2 * d,
                2 * p + d == (q + 1) * (2 * d) + r,
        ;
    } else {
        let r = 2 * rem + d;
        assert(2 * p + d == q * (2 * d) + r) by (nonlinear_arith)
            requires
                p == q * d + rem,
                r == 2 * rem + d,
        ;
        assert((2 * p + d) / (2 * d) == q) by (nonlinear_arith)
            requires
                d > 0,
                0 <= r < 2 * d,
                2 * p + d == q * (2 * d) + r,
        ;
    }
}

impl PlaybackClock {
    /// The clock's invariant: a positive duration and an index that is at most
    /// the timeline's length.
    pub open spec fn wf(&self) -> bool {
        self.duration_micros > 0 && self.index <= self.timeline_len
    }

    /// The rounded position for the time elapsed so far.
    pub open spec fn position(&self) -> int {
        rounded_position(
            self.timeline_len as int,
            self.duration_micros as int,
            self.elapsed_micros as int,
        )
    }

    /// A clock at the start of a timeline. A duration of zero has no rate and
    /// gives `None`.
    pub fn new(timeline_len: usize, duration_micros: u64) -> (clock: Option<Self>)
        ensures
            clock is Some <==> duration_micros > 0,
            clock matches Some(c) ==> c.wf() && c.timeline_len == timeline_len
                && c.duration_micros == duration_micros && c.elapsed_micros == 0 && c.index == 0,
    {
        if duration_micros == 0 {
            None
        } else {
            Some(Self { timeline_len, duration_micros, elapsed_micros: 0, index: 0 })
        }
    }

    /// The index to render now, or `None` at the end of the timeline. An
    /// index that is handed out always lies within the timeline.
    pub fn current(&self) -> (index: Option<usize>)
        ensures
            index is Some <==> self.index < self.timeline_len,
            index matches Some(i) ==> i == self.index && i < self.timeline_len,
    {
        if self.index < self.timeline_len {
            Some(self.index)
        } else {
            None
        }
    }

    /// The rounded position for the time elapsed so far.
    pub fn rounded(&self) -> (pos: u128)
        requires
            self.wf(),
        ensures
            pos == self.position(),
    {
        let len = self.timeline_len as u128;
        let elapsed = self.elapsed_micros as u128;
        let duration = self.duration_micros as u128;
        assert(len * elapsed <= 0xFFFF_FFFF_FFFF_FFFFu128 * 0xFFFF_FFFF_FFFF_FFFFu128)
            by (nonlinear_arith)
            requires
                len <= 0xFFFF_FFFF_FFFF_FFFFu128,
                elapsed <= 0xFFFF_FFFF_FFFF_FFFFu128,
        ;
        let product: u128 = len * elapsed;
        let q = product / duration;
        let rem = product % duration;
        proof {
            assert(product == q * duration + rem && q <= product) by (nonlinear_arith)
                requires
                    duration > 0,
                    q == product / duration,
                    rem == product % duration,
            ;
            lemma_round_half_up(product as int, duration as int, q as int, rem as int);
        }
        if rem >= duration - rem {
            q + 1
        } else {
            q
        }
    }

    /// The index that follows `prev` when the elapsed time stands for the
    /// position `rounded`: the correction rule on its own.
    pub fn corrected_index(prev: usize, rounded: u128, timeline_len: usize) -> (next: usize)
        requires
            prev < timeline_len,
        ensures
            next == next_index(prev as int, rounded as int, timeline_len as int),
            next <= timeline_len,
            rounded <= timeline_len ==> -1 <= next - rounded <= 1,
    {
        let natural: u128 = (prev + 1) as u128;
        if (natural > rounded && natural - rounded > 1) || (rounded > natural && rounded
            - natural > 1) {
            let last: u128 = (timeline_len - 1) as u128;
            if rounded > last {
                timeline_len - 1
            } else {
                rounded as usize
            }
        } else {
            prev + 1
        }
    }

    /// Advances the clock by the time that the last frame took and returns the
    /// index to render next, or `None` at the end of the timeline.
    ///
    /// The index handed out lies within the timeline. Until the rounded
    /// position passes the end of the timeline, the index is at most one
    /// position away from it.
    pub fn advance(&mut self, elapsed_micros: u64) -> (index: Option<usize>)
        requires
            old(self).wf(),
        ensures
            final(self).wf(),
            final(self).timeline_len == old(self).timeline_len,
            final(self).duration_micros == old(self).duration_micros,
            final(self).elapsed_micros == accumulated(
                old(self).elapsed_micros as int,
                elapsed_micros as int,
            ),
            final(self).index == if old(self).index < old(self).timeline_len {
                next_index(
                    old(self).index as int,
                    final(self).position(),
                    old(self).timeline_len as int,
                )
            } else {
                old(self).index as int
            },
            index is Some <==> final(self).index < final(self).timeline_len,
            index matches Some(i) ==> i == final(self).index && i < final(self).timeline_len,
            old(self).index < old(self).timeline_len && final(self).position() <= old(
                self,
            ).timeline_len ==> -1 <= final(self).index - final(self).position() <= 1,
    {
        self.elapsed_micros = match self.elapsed_micros.checked_add(elapsed_micros) {
            Some(total) => total,
            None => u64::MAX,
        };
        if self.index < self.timeline_len {
            let rounded = self.rounded();
            self.index = Self::corrected_index(self.index, rounded, self.timeline_len);
        }
        self.current()
    }
}

} // verus!
