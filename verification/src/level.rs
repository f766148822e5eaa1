//! Fixed-point magnitudes.
//!
//! A [`Level`] stores a magnitude in millionths: `FULL_SCALE` stands for 1.0.
//! Normalized spectra lie in `0..=FULL_SCALE`; a display value that is being
//! smoothed may leave that range and saturates at the bounds of the type.
use vstd::prelude::*;

verus! {

/// A magnitude in millionths of full scale.
pub type Level = i32;

/// The level that stands for 1.0.
pub const FULL_SCALE: i32 = 1_000_000;

/// Gains are expressed in millionths as well: `GAIN_UNIT` is a factor of 1.0.
pub const GAIN_UNIT: u32 = 1_000_000;

/// Integer division that rounds toward zero, for a positive divisor.
pub open spec fn trunc_div(a: int, b: int) -> int {
    if a >= 0 {
        a / b
    } else {
        -((-a) / b)
    }
}

/// `v` limited to the closed range `lo..=hi`.
pub open spec fn clamp(v: int, lo: int, hi: int) -> int {
    if v < lo {
        lo
    } else if v > hi {
        hi
    } else {
        v
    }
}

/// The palette slot of a magnitude among `count` colors: the magnitude times
/// `count`, rounded to the nearest integer and wrapped into `0..count`.
/// Magnitudes at or below zero take slot 0.
pub open spec fn palette_slot(level: int, count: int) -> int {
    if level <= 0 {
        0
    } else {
        ((level * count + FULL_SCALE / 2) / (FULL_SCALE as int)) % count
    }
}

/// Computes [`palette_slot`].
pub fn color_index(level: Level, count: usize) -> (slot: usize)
    requires
        count > 0,
    ensures
        slot == palette_slot(level as int, count as int),
        slot < count,
{
    if level <= 0 {
        0
    } else {
        assert((level as u128) * (count as u128) <= 0x8000_0000u128 * 0x1_0000_0000_0000_0000u128)
            by (nonlinear_arith)
            requires
                0 < level <= 0x7FFF_FFFF,
                count <= 0xFFFF_FFFF_FFFF_FFFFu128,
        ;
        let scaled: u128 = (level as u128) * (count as u128) + 500_000u128;
        let rounded: u128 = scaled / 1_000_000u128;
        let slot: u128 = rounded % (count as u128);
        slot as usize
    }
}

} // verus!
