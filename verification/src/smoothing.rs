//! Temporal smoothing of the display vector: an exponential approach of every
//! display value toward its target.
//!
//! A frame that took `elapsed` microseconds moves a value by the fraction
//! `elapsed / 1_000_000 * delta / 1000` of its distance from the target, where
//! `delta` is the response speed in thousandths. The fraction is held in
//! millionths and called the gain.
use crate::level::{clamp, trunc_div, Level, GAIN_UNIT};
use vstd::prelude::*;

verus! {

/// The gain of a frame in millionths, rounded down.
pub open spec fn gain_of(elapsed_micros: int, delta: int) -> int {
    elapsed_micros * delta / 1000
}

/// One smoothing step of one value:
/// `current + (target - current) * gain / GAIN_UNIT`, the product rounded
/// toward zero and the sum saturated at the bounds of a level.
pub open spec fn smooth_step(current: int, target: int, gain: int) -> int {
    clamp(
        current + trunc_div((target - current) * gain, GAIN_UNIT as int),
        i32::MIN as int,
        i32::MAX as int,
    )
}

/// One smoothing step of a display vector toward the leading values of
/// `target`.
pub open spec fn smoothed(display: Seq<Level>, target: Seq<Level>, gain: int) -> Seq<Level> {
    Seq::new(
        display.len(),
        |i: int| smooth_step(display[i] as int, target[i] as int, gain) as Level,
    )
}

/// A value after one smoothing step per gain in `gains`, toward a constant
/// target.
pub open spec fn smooth_run(current: int, target: int, gains: Seq<int>) -> int
    decreases gains.len(),
{
    if gains.len() == 0 {
        current
    } else {
        smooth_step(smooth_run(current, target, gains.drop_last()), target, gains.last())
    }
}

/// Distance between two values.
pub open spec fn distance(a: int, b: int) -> int {
    if a >= b {
        a - b
    } else {
        b - a
    }
}

/// With a gain below one, a step never overshoots: the new value lies between
/// the old value and the target, so its distance from the target does not
/// grow. Where the distance times the gain reaches one unit, the distance
/// shrinks.
pub proof fn lemma_step_approaches(current: int, target: int, gain: int)
    requires
        i32::MIN <= current <= i32::MAX,
        i32::MIN <= target <= i32::MAX,
        0 <= gain < GAIN_UNIT,
    ensures
        current <= target ==> current <= smooth_step(current, target, gain) <= target,
        current >= target ==> target <= smooth_step(current, target, gain) <= current,
        distance(smooth_step(current, target, gain), target) <= distance(current, target),
        distance(current, target) * gain >= GAIN_UNIT ==> distance(
            smooth_step(current, target, gain),
            target,
        ) < distance(current, target),
{
    let d = distance(current, target);
    let unit = GAIN_UNIT as int;
    let step = (d * gain) / unit;
    assert(0 <= step <= d && (d * gain >= unit ==> step >= 1)) by (nonlinear_arith)
        requires
            d >= 0,
            0 <= gain < unit,
            unit > 0,
            step == (d * gain) / unit,
    ;
    if current <= target {
        assert((target - current) * gain >= 0) by (nonlinear_arith)
            requires
                target - current >= 0,
                gain >= 0,
        ;
        assert(trunc_div((target - current) * gain, unit) == step);
    } else {
        assert((target - current) * gain == -(d * gain) && d * gain >= 0) by (nonlinear_arith)
            requires
                d == current - target,
                d >= 0,
                gain >= 0,
        ;
        if d * gain == 0 {
            assert(trunc_div((target - current) * gain, unit) == 0);
            assert(step == 0);
        } else {
            assert(trunc_div((target - current) * gain, unit) == -step);
        }
    }
}

/// Smoothing convergence: holding a constant target for `gains.len()` frames,
/// each with a gain of at least `floor` and below one, drives a value toward
/// the target monotonically. Its distance from the target never grows, and
/// after the run it is at most the starting distance less one per frame, or
/// at most the residue `(GAIN_UNIT - 1) / floor` below which a step rounds to
/// nothing.
pub proof fn lemma_run_converges(current: int, target: int, gains: Seq<int>, floor: int)
    requires
        i32::MIN <= current <= i32::MAX,
        i32::MIN <= target <= i32::MAX,
        0 < floor,
        forall|i: int| 0 <= i < gains.len() ==> floor <= #[trigger] gains[i] < GAIN_UNIT,
    ensures
        i32::MIN <= smooth_run(current, target, gains) <= i32::MAX,
        distance(smooth_run(current, target, gains), target) <= distance(current, target),
        distance(smooth_run(current, target, gains), target) <= distance(current, target)
            - gains.len() || distance(smooth_run(current, target, gains), target) <= (GAIN_UNIT
            - 1) / floor,
        gains.len() > 0 ==> distance(smooth_run(current, target, gains), target) <= distance(
            smooth_run(current, target, gains.drop_last()),
            target,
        ),
    decreases gains.len(),
{
    if gains.len() > 0 {
        let before = smooth_run(current, target, gains.drop_last());
        let gain = gains.last();
        lemma_run_converges(current, target, gains.drop_last(), floor);
        lemma_step_approaches(before, target, gain);
        let d = distance(before, target);
        let residue = (GAIN_UNIT - 1) / floor;
        if d > residue {
            assert(d * gain >= GAIN_UNIT) by (nonlinear_arith)
                requires
                    d > (GAIN_UNIT - 1) / floor,
                    0 < floor <= gain,
            ;
        }
    }
}

/// The largest gain whose product with any distance fits the arithmetic;
/// beyond it every step saturates.
pub const GAIN_LIMIT: u128 = 0xFFFF_FFFF_FFFF_FFFF_FFFF_FFFFu128;

/// One smoothing step of one value.
pub fn smooth_toward(current: Level, target: Level, gain: u128) -> (next: Level)
    ensures
        next == smooth_step(current as int, target as int, gain as int),
{
    if target == current {
        assert((target - current) * gain == 0) by (nonlinear_arith)
            requires
                target - current == 0,
        ;
        return current;
    }
    if gain > GAIN_LIMIT {
        proof {
            let d = distance(target as int, current as int);
            let step = (d * gain) / (GAIN_UNIT as int);
            assert(step >= 0x2_0000_0000) by (nonlinear_arith)
                requires
                    d >= 1,
                    gain > GAIN_LIMIT,
                    step == (d * gain) / (GAIN_UNIT as int),
            ;
            if target > current {
                assert((target - current) * gain == d * gain && d * gain >= 0) by (nonlinear_arith)
                    requires
                        d == target - current,
                        d >= 1,
                        gain >= 0,
                ;
            } else {
                assert((target - current) * gain == -(d * gain) && d * gain > 0)
                    by (nonlinear_arith)
                    requires
                        d == current - target,
                        d >= 1,
                        gain > 0,
                ;
            }
        }
        return if target > current {
            i32::MAX
        } else {
            i32::MIN
        };
    }
    let wide: i128 = current as i128;
    let moved: i128 = if target >= current {
        let d: u128 = (target as i64 - current as i64) as u128;
        assert(d * gain <= 0x1_0000_0000u128 * GAIN_LIMIT) by (nonlinear_arith)
            requires
                d <= 0x1_0000_0000u128,
                gain <= GAIN_LIMIT,
        ;
        let step: u128 = (d * gain) / 1_000_000u128;
        assert(d * gain == (target - current) * gain);
        wide + step as i128
    } else {
        let d: u128 = (current as i64 - target as i64) as u128;
        assert(d * gain <= 0x1_0000_0000u128 * GAIN_LIMIT) by (nonlinear_arith)
            requires
                d <= 0x1_0000_0000u128,
                gain <= GAIN_LIMIT,
        ;
        let step: u128 = (d * gain) / 1_000_000u128;
        proof {
            assert((target - current) * gain == -(d * gain)) by (nonlinear_arith)
                requires
                    d == current - target,
            ;
            if d * gain == 0 {
                assert(trunc_div((target - current) * gain, GAIN_UNIT as int) == 0);
            } else {
                assert(trunc_div((target - current) * gain, GAIN_UNIT as int) == -step);
            }
        }
        wide - step as i128
    };
    if moved < -2147483648i128 {
        i32::MIN
    } else if moved > 2147483647i128 {
        i32::MAX
    } else {
        moved as Level
    }
}

/// One smoothing step of a display vector toward the leading values of
/// `target`, for a frame of `elapsed_micros` microseconds and a response
/// speed of `delta` thousandths.
pub fn smooth(display: &mut Vec<Level>, target: &[Level], elapsed_micros: u64, delta: u32)
    requires
        old(display).len() <= target.len(),
    ensures
        final(display)@ == smoothed(
            old(display)@,
            target@,
            gain_of(elapsed_micros as int, delta as int),
        ),
{
    assert((elapsed_micros as u128) * (delta as u128) <= 0xFFFF_FFFF_FFFF_FFFFu128
        * 0xFFFF_FFFFu128) by (nonlinear_arith)
        requires
            elapsed_micros <= 0xFFFF_FFFF_FFFF_FFFFu128,
            delta <= 0xFFFF_FFFFu128,
    ;
    let gain: u128 = (elapsed_micros as u128) * (delta as u128) / 1000u128;
    let ghost before = display@;
    let mut i: usize = 0;
    while i < display.len()
        invariant
            i <= display.len(),
            display.len() == before.len(),
            display.len() <= target.len(),
            forall|a: int|
                0 <= a < i ==> display[a] == smooth_step(
                    before[a] as int,
                    target[a] as int,
                    gain as int,
                ),
            forall|a: int| i <= a < display.len() ==> display[a] == before[a],
        decreases display.len() - i,
    {
        let next = smooth_toward(display[i], target[i], gain);
        display.set(i, next);
        i += 1;
    }
    assert(display@ =~= smoothed(before, target@, gain as int));
}

} // verus!
