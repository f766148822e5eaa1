//! The render engine's configuration and the classification of the working
//! buffer into concentric bands.
use crate::level::Level;
use std::collections::HashMap;
use vstd::prelude::*;

verus! {

broadcast use vstd::std_specs::hash::group_hash_axioms;

/// Number of concentric bands that [`Visualizer::classify_circles`] tells apart.
pub const BAND_COUNT: usize = 128;

/// Ratio between the number of analyzed bins and the number of displayed bins.
pub const SHRINK_FACTOR: usize = 8;

/// The projection that turns the display vector into pixels.
#[derive(Clone, Copy, Debug, PartialEq, Eq, Structural)]
pub enum Visualization {
    /// Radial bands: one filled annulus per display value.
    CircleGod,
    /// Concentric squares, the outermost drawn first.
    SquaredGod,
    /// Polar scatter: one ray per display value.
    CircularPlot,
    /// Cartesian bars.
    Plot,
}

/// The length of a [`Direction`] that stands for a unit vector.
pub const DIRECTION_UNIT: i32 = 65536;

/// A direction in the plane as a fixed-point vector: for the angle `a` of a
/// ray, `cos` holds `cos(a)` and `sin` holds `sin(a)`, both times
/// `DIRECTION_UNIT`.
#[derive(Clone, Copy, Debug, PartialEq, Eq, Structural)]
pub struct Direction {
    /// Horizontal component.
    pub cos: i32,
    /// Vertical component.
    pub sin: i32,
}

/// Squared distance of the pixel `(x, y)` from the centre of a
/// `width` x `height` buffer.
pub open spec fn dist_sq(x: int, y: int, width: int, height: int) -> int {
    (x - width / 2) * (x - width / 2) + (y - height / 2) * (y - height / 2)
}

/// Radial distance between two neighbouring bands of the classification.
pub open spec fn band_step(width: int, height: int) -> int {
    (if width <= height {
        width
    } else {
        height
    }) / 2 / (BAND_COUNT as int)
}

/// Whether the pixel with row-major index `p` belongs to band `k`, counted
/// from 1 at the centre: it lies within the circle of radius `k * step` and
/// outside every smaller one.
pub open spec fn in_band(width: int, height: int, step: int, k: int, p: int) -> bool {
    let d = dist_sq(p % width, p / width, width, height);
    d <= (k * step) * (k * step) && (k == 1 || d > ((k - 1) * step) * ((k - 1) * step))
}

/// The pixels below index `n` that belong to band `k`, in ascending order.
pub open spec fn band_pixels(width: int, height: int, step: int, k: int, n: int) -> Seq<usize>
    decreases n,
{
    if n <= 0 {
        Seq::empty()
    } else {
        let rest = band_pixels(width, height, step, k, n - 1);
        if in_band(width, height, step, k, n - 1) {
            rest.push((n - 1) as usize)
        } else {
            rest
        }
    }
}

/// `m` holds exactly the non-empty bands among the first `bands` ones, each
/// under its radius.
pub open spec fn classifies(
    m: Map<usize, Vec<usize>>,
    width: int,
    height: int,
    bands: int,
) -> bool {
    let step = band_step(width, height);
    &&& forall|k: int|
        1 <= k <= bands && (#[trigger] band_pixels(width, height, step, k, width * height)).len()
            > 0 ==> m.contains_key((k * step) as usize) && m[(k * step) as usize]@ == band_pixels(
            width,
            height,
            step,
            k,
            width * height,
        )
    &&& forall|r: usize| #[trigger]
        m.contains_key(r) ==> exists|k: int|
            1 <= k <= bands && r == k * step && (#[trigger] band_pixels(
                width,
                height,
                step,
                k,
                width * height,
            )).len() > 0
}

/// With a step of zero every band but the first is empty.
proof fn lemma_flat_bands_empty(width: int, height: int, k: int, n: int)
    requires
        k >= 2,
    ensures
        band_pixels(width, height, 0, k, n).len() == 0,
    decreases n,
{
    if n > 0 {
        lemma_flat_bands_empty(width, height, k, n - 1);
        let d = dist_sq((n - 1) % width, (n - 1) / width, width, height);
        assert((k * 0) * (k * 0) == 0) by (nonlinear_arith);
        assert(((k - 1) * 0) * ((k - 1) * 0) == 0) by (nonlinear_arith);
    }
}

/// Squared distance from the centre of the pixel with row-major index `p`.
pub fn pixel_distance_sq(p: usize, width: usize, height: usize) -> (d: u128)
    requires
        p < width * height,
    ensures
        d == dist_sq(p as int % width as int, p as int / width as int, width as int, height as int),
{
    assert(width > 0) by (nonlinear_arith)
        requires
            p < width * height,
    ;
    let x = p % width;
    let y = p / width;
    assert(y < height) by (nonlinear_arith)
        requires
            p < width * height,
            y == p / width,
            width > 0,
    ;
    let cx = width / 2;
    let cy = height / 2;
    let dx: u128 = if x >= cx {
        (x - cx) as u128
    } else {
        (cx - x) as u128
    };
    let dy: u128 = if y >= cy {
        (y - cy) as u128
    } else {
        (cy - y) as u128
    };
    assert(dx * dx <= 0x4000_0000_0000_0000_0000_0000_0000_0000u128) by (nonlinear_arith)
        requires
            dx <= 0x8000_0000_0000_0000u128,
    ;
    assert(dy * dy <= 0x4000_0000_0000_0000_0000_0000_0000_0000u128) by (nonlinear_arith)
        requires
            dy <= 0x8000_0000_0000_0000u128,
    ;
    assert(dx * dx == (x - cx) * (x - cx)) by (nonlinear_arith)
        requires
            dx == x - cx || dx == cx - x,
    ;
    assert(dy * dy == (y - cy) * (y - cy)) by (nonlinear_arith)
        requires
            dy == y - cy || dy == cy - y,
    ;
    dx * dx + dy * dy
}

/// The render engine: a normalized timeline, the geometry of the working
/// buffer and the projection in use.
pub struct Visualizer {
    /// One spectrum per chunk, each value in `0..=FULL_SCALE`.
    pub frequencies: Vec<Vec<Level>>,
    /// Width of the working buffer in pixels.
    pub width: usize,
    /// Height of the working buffer in pixels.
    pub height: usize,
    /// Ratio between the working resolution and the output resolution.
    pub scale_factor: usize,
    /// Response speed of the smoothing filter, in thousandths.
    pub delta: u32,
    /// The palette, packed as `0xRRGGBB`.
    pub colors: Vec<u32>,
    /// The projection in use.
    pub visualization: Visualization,
    /// The working buffer's pixels by band radius.
    pub circles: HashMap<usize, Vec<usize>>,
    /// The directions of the polar scatter's rays, one per display value:
    /// ray `i` of `n` points at the angle `2 * pi * i / n`.
    pub directions: Vec<Direction>,
}

impl Visualizer {
    /// What every projection needs: a positive scale factor, a palette that
    /// is not empty, and a working buffer whose pixel count fits an index.
    pub open spec fn wf(&self) -> bool {
        &&& self.scale_factor > 0
        &&& self.colors.len() > 0
        &&& self.width * self.height <= usize::MAX
    }

    /// Partitions the pixels of a `width` x `height` buffer by concentric
    /// circle membership. The circles have the radii `k * step` for `k` in
    /// `1..=BAND_COUNT`; a pixel belongs to the smallest circle that holds it.
    /// The map has one entry per non-empty band, keyed by the band's radius,
    /// with the band's pixel indices in ascending order.
    pub fn classify_circles(width: usize, height: usize) -> (res: HashMap<usize, Vec<usize>>)
        requires
            width * height <= usize::MAX,
        ensures
            classifies(res@, width as int, height as int, BAND_COUNT as int),
    {
        let max_radius = if width <= height {
            width / 2
        } else {
            height / 2
        };
        let radius_step = max_radius / BAND_COUNT;
        let total = width * height;
        let ghost w = width as int;
        let ghost h = height as int;
        let ghost step = radius_step as int;
        let mut res: HashMap<usize, Vec<usize>> = HashMap::new();
        let mut k: usize = 1;
        while k <= BAND_COUNT
            invariant
                1 <= k <= BAND_COUNT + 1,
                total == width * height,
                w == width,
                h == height,
                step == radius_step == band_step(w, h),
                BAND_COUNT * radius_step <= usize::MAX,
                classifies(res@, w, h, k - 1),
            decreases BAND_COUNT + 1 - k,
        {
            assert(k * radius_step <= BAND_COUNT * radius_step) by (nonlinear_arith)
                requires
                    k <= BAND_COUNT,
                    radius_step >= 0,
            ;
            assert((k - 1) * radius_step <= k * radius_step) by (nonlinear_arith)
                requires
                    radius_step >= 0,
            ;
            let radius = k * radius_step;
            let inner = (k - 1) * radius_step;
            assert((radius as u128) * (radius as u128) <= u128::MAX) by (nonlinear_arith)
                requires
                    radius <= 0xFFFF_FFFF_FFFF_FFFFu128,
            ;
            assert((inner as u128) * (inner as u128) <= u128::MAX) by (nonlinear_arith)
                requires
                    inner <= 0xFFFF_FFFF_FFFF_FFFFu128,
            ;
            let outer_sq: u128 = (radius as u128) * (radius as u128);
            let inner_sq: u128 = (inner as u128) * (inner as u128);
            let mut pixels: Vec<usize> = Vec::new();
            let mut p: usize = 0;
            while p < total
                invariant
                    p <= total,
                    total == width * height,
                    w == width,
                    h == height,
                    step == radius_step,
                    1 <= k <= BAND_COUNT,
                    outer_sq == (k * step) * (k * step),
                    inner_sq == ((k - 1) * step) * ((k - 1) * step),
                    pixels@ == band_pixels(w, h, step, k as int, p as int),
                decreases total - p,
            {
                let d = pixel_distance_sq(p, width, height);
                if d <= outer_sq && (k == 1 || d > inner_sq) {
                    pixels.push(p);
                }
                p += 1;
            }
            if pixels.len() > 0 {
                proof {
                    let ghost before = res@;
                    assert forall|j: int|
                        1 <= j < k && (#[trigger] band_pixels(w, h, step, j, w * h)).len()
                            > 0 implies (j * step) as usize != radius by {
                        if step == 0 {
                            lemma_flat_bands_empty(w, h, k as int, w * h);
                        } else {
                            assert(j * step < k * step) by (nonlinear_arith)
                                requires
                                    j < k,
                                    step > 0,
                            ;
                            assert(0 <= j * step) by (nonlinear_arith)
                                requires
                                    j >= 1,
                                    step > 0,
                            ;
                        }
                    }
                }
                res.insert(radius, pixels);
                assert(classifies(res@, w, h, k as int));
            } else {
                assert(classifies(res@, w, h, k as int));
            }
            k += 1;
        }
        res
    }
}

} // verus!
