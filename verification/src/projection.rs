//! The four projections of a display vector into the working buffer. Each
//! paints at the working resolution and hands the result to the box-filter
//! downscale.
use crate::level::{color_index, palette_slot, Level, FULL_SCALE};
use crate::paint::{blank, fill_rect, rect_filled, uniform};
use crate::raster::downscaled;
use crate::visualizer::{dist_sq, pixel_distance_sq, Direction, Visualizer, DIRECTION_UNIT};
use vstd::prelude::*;

verus! {

/// Background of the radial bands.
pub const BANDS_BACKGROUND: u32 = 0x000000;

/// Background of the concentric squares.
pub const SQUARES_BACKGROUND: u32 = 0xFFFFFF;

/// Background of the bars and of the polar scatter.
pub const PLOT_BACKGROUND: u32 = 0x1c0424;

/// Gap between two bars in pixels.
pub const BAR_MARGIN: usize = 1;

/// The smaller of two numbers.
pub open spec fn smaller(a: int, b: int) -> int {
    if a <= b {
        a
    } else {
        b
    }
}

/// The color of the last circle in the list that holds a point at squared
/// distance `d` from the centre. Circles are `(radius, color)` pairs.
pub open spec fn circle_color(circles: Seq<(usize, u32)>, d: int) -> Option<u32>
    decreases circles.len(),
{
    if circles.len() == 0 {
        None
    } else if d <= circles.last().0 * circles.last().0 {
        Some(circles.last().1)
    } else {
        circle_color(circles.drop_last(), d)
    }
}

/// The buffer with every pixel that some circle holds set to the color of
/// the last such circle.
pub open spec fn circles_filled(
    base: Seq<u32>,
    width: int,
    height: int,
    circles: Seq<(usize, u32)>,
) -> Seq<u32> {
    Seq::new(
        base.len(),
        |p: int|
            match circle_color(circles, dist_sq(p % width, p / width, width, height)) {
                Some(color) => color,
                None => base[p],
            },
    )
}

/// The palette color of a magnitude.
pub open spec fn level_color(level: Level, colors: Seq<u32>) -> u32 {
    colors[palette_slot(level as int, colors.len() as int)]
}

/// The circles of the radial bands, outermost first: circle `i` has the
/// radius `(n - i) * step` and the color of display value `n - 1 - i`, so the
/// lowest bin is the innermost disc.
pub open spec fn band_circles(freqs: Seq<Level>, colors: Seq<u32>, step: int) -> Seq<(usize, u32)> {
    Seq::new(
        freqs.len(),
        |i: int|
            (
                ((freqs.len() - i) * step) as usize,
                level_color(freqs[freqs.len() - 1 - i], colors),
            ),
    )
}

/// The radial bands at the working resolution.
pub open spec fn bands_drawn(freqs: Seq<Level>, colors: Seq<u32>, width: int, height: int) -> Seq<
    u32,
> {
    circles_filled(
        uniform(width * height, BANDS_BACKGROUND),
        width,
        height,
        band_circles(freqs, colors, smaller(width, height) / 2 / (freqs.len() as int)),
    )
}

/// The working buffer after the first `count` squares: square `k` spans
/// `k * inset .. side - k * inset` in both directions and has the color of
/// display value `n - 1 - k`. Later squares overdraw earlier ones.
pub open spec fn squares_drawn(
    base: Seq<u32>,
    width: int,
    side: int,
    inset: int,
    freqs: Seq<Level>,
    colors: Seq<u32>,
    count: int,
) -> Seq<u32>
    decreases count,
{
    if count <= 0 {
        base
    } else {
        let k = count - 1;
        rect_filled(
            squares_drawn(base, width, side, inset, freqs, colors, k),
            width,
            k * inset,
            side - k * inset,
            k * inset,
            side - k * inset,
            level_color(freqs[freqs.len() - 1 - k], colors),
        )
    }
}

/// The concentric squares at the working resolution.
pub open spec fn squares_image(freqs: Seq<Level>, colors: Seq<u32>, width: int, height: int) -> Seq<
    u32,
> {
    let side = smaller(width, height);
    squares_drawn(
        uniform(width * height, SQUARES_BACKGROUND),
        width,
        side,
        side / (freqs.len() as int) / 2,
        freqs,
        colors,
        freqs.len() as int,
    )
}

/// The row at which the bar of a magnitude starts, counted from the top:
/// `(1 - level) * height`, rounded down and limited to `0..=height`.
pub open spec fn bar_top(level: Level, height: int) -> int {
    if level >= FULL_SCALE {
        0
    } else {
        smaller(height, (FULL_SCALE - level) * height / (FULL_SCALE as int))
    }
}

/// The working buffer after the first `count` bars: bar `k` starts at column
/// `k * (bar_width + BAR_MARGIN)`, is `bar_width` columns wide, reaches from
/// its top row to the bottom and has the palette color `k` modulo the
/// palette's size.
pub open spec fn bars_drawn(
    base: Seq<u32>,
    width: int,
    height: int,
    bar_width: int,
    freqs: Seq<Level>,
    colors: Seq<u32>,
    count: int,
) -> Seq<u32>
    decreases count,
{
    if count <= 0 {
        base
    } else {
        let k = count - 1;
        rect_filled(
            bars_drawn(base, width, height, bar_width, freqs, colors, k),
            width,
            k * (bar_width + BAR_MARGIN),
            k * (bar_width + BAR_MARGIN) + bar_width,
            bar_top(freqs[k], height),
            height,
            colors[k % (colors.len() as int)],
        )
    }
}

/// The bars at the working resolution.
pub open spec fn bars_image(freqs: Seq<Level>, colors: Seq<u32>, width: int, height: int) -> Seq<
    u32,
> {
    bars_drawn(
        uniform(width * height, PLOT_BACKGROUND),
        width,
        height,
        width / (freqs.len() as int) - BAR_MARGIN,
        freqs,
        colors,
        freqs.len() as int,
    )
}

/// The pixel coordinate at `s` steps from `center` along one component of a
/// direction, rounded toward zero; a coordinate left of or above the buffer
/// counts as zero.
pub open spec fn ray_coord(center: int, component: int, s: int) -> int {
    let v = center * DIRECTION_UNIT + s * component;
    if v < 0 {
        0
    } else {
        v / (DIRECTION_UNIT as int)
    }
}

/// Number of steps of a ray: the radius times the magnitude, counted in
/// thousandths of a pixel and rounded down, then in whole pixels rounded up.
pub open spec fn ray_steps(radius: int, level: Level) -> int {
    if level <= 0 {
        0
    } else {
        (radius * level / 1000 + 999) / 1000
    }
}

/// The working buffer after the first `steps` points of a ray from the
/// centre. Points outside the buffer are skipped.
pub open spec fn ray_drawn(
    base: Seq<u32>,
    width: int,
    height: int,
    dir: Direction,
    color: u32,
    steps: int,
) -> Seq<u32>
    decreases steps,
{
    if steps <= 0 {
        base
    } else {
        let prev = ray_drawn(base, width, height, dir, color, steps - 1);
        let x = ray_coord(width / 2, dir.cos as int, steps - 1);
        let y = ray_coord(height / 2, dir.sin as int, steps - 1);
        if x < width && y < height {
            prev.update(x + y * width, color)
        } else {
            prev
        }
    }
}

/// The working buffer after the rays of the first `count` display values:
/// ray `i` follows direction `i`, is as long as its magnitude times the
/// radius, and has the palette color `i` modulo the palette's size.
pub open spec fn scatter_drawn(
    base: Seq<u32>,
    width: int,
    height: int,
    freqs: Seq<Level>,
    dirs: Seq<Direction>,
    colors: Seq<u32>,
    count: int,
) -> Seq<u32>
    decreases count,
{
    if count <= 0 {
        base
    } else {
        let i = count - 1;
        ray_drawn(
            scatter_drawn(base, width, height, freqs, dirs, colors, i),
            width,
            height,
            dirs[i],
            colors[i % (colors.len() as int)],
            ray_steps(smaller(width / 2, height / 2), freqs[i]),
        )
    }
}

/// The polar scatter at the working resolution.
pub open spec fn scatter_image(
    freqs: Seq<Level>,
    dirs: Seq<Direction>,
    colors: Seq<u32>,
    width: int,
    height: int,
) -> Seq<u32> {
    scatter_drawn(
        uniform(width * height, PLOT_BACKGROUND),
        width,
        height,
        freqs,
        dirs,
        colors,
        freqs.len() as int,
    )
}

/// Upper bound of a ray's steps.
pub const MAX_RAY_STEPS: u128 = 0x4000_0000_0000_0000_0000_0000u128;

/// The number of steps of a ray.
fn ray_length(radius: usize, level: Level) -> (steps: u128)
    ensures
        steps == ray_steps(radius as int, level),
        steps <= MAX_RAY_STEPS,
{
    if level <= 0 {
        0
    } else {
        assert((radius as u128) * (level as u128) <= 0xFFFF_FFFF_FFFF_FFFFu128 * 0x8000_0000u128)
            by (nonlinear_arith)
            requires
                radius <= 0xFFFF_FFFF_FFFF_FFFFu128,
                0 < level <= 0x7FFF_FFFF,
        ;
        ((radius as u128) * (level as u128) / 1000u128 + 999u128) / 1000u128
    }
}

/// The pixel coordinate at `s` steps from `center` along one component.
fn ray_point(center: usize, component: i32, s: u128) -> (coord: u128)
    requires
        s <= MAX_RAY_STEPS,
    ensures
        coord == ray_coord(center as int, component as int, s as int),
{
    let origin: i128 = (center as i128) * 65536i128;
    let reach: i128 = if component >= 0 {
        let c: u128 = component as u128;
        assert(s * c <= MAX_RAY_STEPS * 0x8000_0000u128) by (nonlinear_arith)
            requires
                s <= MAX_RAY_STEPS,
                c <= 0x8000_0000u128,
        ;
        (s * c) as i128
    } else {
        let c: u128 = (-(component as i64)) as u128;
        assert(s * c <= MAX_RAY_STEPS * 0x8000_0000u128) by (nonlinear_arith)
            requires
                s <= MAX_RAY_STEPS,
                c <= 0x8000_0000u128,
        ;
        assert(s * component == -(s * c)) by (nonlinear_arith)
            requires
                c == -component,
        ;
        -((s * c) as i128)
    };
    let v: i128 = origin + reach;
    if v < 0 {
        0
    } else {
        (v as u128) / 65536u128
    }
}

/// The color of the last circle that holds a point at squared distance `d`.
fn find_circle(circles: &Vec<(usize, u32)>, d: u128) -> (hit: Option<u32>)
    ensures
        hit == circle_color(circles@, d as int),
{
    let mut j: usize = circles.len();
    assert(circles@.subrange(0, j as int) =~= circles@);
    while j > 0
        invariant
            j <= circles.len(),
            circle_color(circles@, d as int) == circle_color(
                circles@.subrange(0, j as int),
                d as int,
            ),
        decreases j,
    {
        let ghost prefix = circles@.subrange(0, j as int);
        assert(prefix.drop_last() =~= circles@.subrange(0, j - 1));
        assert(prefix.last() == circles[j - 1]);
        let radius: u128 = circles[j - 1].0 as u128;
        assert(radius * radius <= u128::MAX) by (nonlinear_arith)
            requires
                radius <= 0xFFFF_FFFF_FFFF_FFFFu128,
        ;
        if d <= radius * radius {
            return Some(circles[j - 1].1);
        }
        j -= 1;
    }
    assert(circles@.subrange(0, 0) =~= Seq::<(usize, u32)>::empty());
    None
}

/// The top row of a bar.
fn bar_start(level: Level, height: usize) -> (top: usize)
    ensures
        top == bar_top(level, height as int),
        top <= height,
{
    if level >= FULL_SCALE {
        0
    } else {
        let depth: u128 = (FULL_SCALE as i64 - level as i64) as u128;
        assert(depth * (height as u128) <= 0x1_0000_0000u128 * 0xFFFF_FFFF_FFFF_FFFFu128)
            by (nonlinear_arith)
            requires
                depth <= 0x1_0000_0000u128,
                height <= 0xFFFF_FFFF_FFFF_FFFFu128,
        ;
        let rows: u128 = depth * (height as u128) / 1_000_000u128;
        if rows >= height as u128 {
            height
        } else {
            rows as usize
        }
    }
}

impl Visualizer {
    /// Sets every pixel that some circle holds to the color of the last such
    /// circle in the list; the circles are centred in the buffer.
    pub fn fill_circles(&self, buffer: &mut Vec<u32>, circles: Vec<(usize, u32)>)
        requires
            old(buffer).len() == self.width * self.height,
        ensures
            final(buffer)@ == circles_filled(
                old(buffer)@,
                self.width as int,
                self.height as int,
                circles@,
            ),
    {
        let ghost base = buffer@;
        let ghost w = self.width as int;
        let ghost h = self.height as int;
        let total = buffer.len();
        let mut p: usize = 0;
        while p < total
            invariant
                p <= total,
                total == self.width * self.height,
                buffer.len() == total,
                base.len() == total,
                w == self.width,
                h == self.height,
                forall|a: int|
                    0 <= a < p ==> buffer[a] == match circle_color(
                        circles@,
                        dist_sq(a % w, a / w, w, h),
                    ) {
                        Some(color) => color,
                        None => base[a],
                    },
                forall|a: int| p <= a < total ==> buffer[a] == base[a],
            decreases total - p,
        {
            let d = pixel_distance_sq(p, self.width, self.height);
            match find_circle(&circles, d) {
                Some(color) => {
                    buffer.set(p, color);
                },
                None => {},
            }
            p += 1;
        }
        assert(buffer@ =~= circles_filled(base, w, h, circles@));
    }

    /// Radial bands: one circle per display value, the highest bin outermost,
    /// each in the palette color of its magnitude; then the downscale.
    pub fn draw_circles(&self, freqs: &[Level], colors: &Vec<u32>) -> (image: Vec<u32>)
        requires
            self.scale_factor > 0,
            self.width * self.height <= usize::MAX,
            freqs.len() > 0,
            colors.len() > 0,
        ensures
            image@ == downscaled(
                bands_drawn(freqs@, colors@, self.width as int, self.height as int),
                self.width as int,
                self.height as int,
                self.scale_factor as int,
            ),
    {
        let count = freqs.len();
        let max_radius = if self.width <= self.height {
            self.width / 2
        } else {
            self.height / 2
        };
        let radius_step = max_radius / count;
        let mut all_circles: Vec<(usize, u32)> = Vec::new();
        let mut i: usize = 0;
        while i < count
            invariant
                i <= count,
                count == freqs.len(),
                colors.len() > 0,
                radius_step == max_radius / count,
                all_circles.len() == i,
                forall|a: int|
                    0 <= a < i ==> all_circles[a] == band_circles(
                        freqs@,
                        colors@,
                        radius_step as int,
                    )[a],
            decreases count - i,
        {
            assert((count - i) * radius_step <= max_radius) by (nonlinear_arith)
                requires
                    0 <= i < count,
                    radius_step == max_radius / count,
            ;
            let radius = (count - i) * radius_step;
            let sample = freqs[count - 1 - i];
            let color = colors[color_index(sample, colors.len())];
            all_circles.push((radius, color));
            i += 1;
        }
        assert(all_circles@ =~= band_circles(freqs@, colors@, radius_step as int));
        let mut buffer = blank(self.width * self.height, BANDS_BACKGROUND);
        self.fill_circles(&mut buffer, all_circles);
        self.downscale(buffer.as_slice())
    }

    /// Sets the square of columns and rows `start..end` to one color.
    pub fn fill_square(&self, buffer: &mut Vec<u32>, start: usize, end: usize, color: u32)
        requires
            old(buffer).len() == self.width * self.height,
            end <= self.width,
            end <= self.height,
        ensures
            final(buffer)@ == rect_filled(
                old(buffer)@,
                self.width as int,
                start as int,
                end as int,
                start as int,
                end as int,
                color,
            ),
    {
        fill_rect(buffer, self.width, self.height, start, end, start, end, color);
    }

    /// Concentric squares: one square per display value, the highest bin
    /// outermost and drawn first, each in the palette color of its magnitude;
    /// then the downscale.
    pub fn draw_squares(&self, freqs: &[Level], colors: &Vec<u32>) -> (image: Vec<u32>)
        requires
            self.scale_factor > 0,
            self.width * self.height <= usize::MAX,
            freqs.len() > 0,
            colors.len() > 0,
        ensures
            image@ == downscaled(
                squares_image(freqs@, colors@, self.width as int, self.height as int),
                self.width as int,
                self.height as int,
                self.scale_factor as int,
            ),
    {
        let count = freqs.len();
        let side = if self.width <= self.height {
            self.width
        } else {
            self.height
        };
        let inset = side / count / 2;
        assert(count * inset <= side) by (nonlinear_arith)
            requires
                count > 0,
                inset == side / count / 2,
        ;
        let mut buffer = blank(self.width * self.height, SQUARES_BACKGROUND);
        let ghost base = buffer@;
        let mut start: usize = 0;
        let mut end: usize = side;
        let mut k: usize = 0;
        while k < count
            invariant
                k <= count,
                count == freqs.len(),
                colors.len() > 0,
                side <= self.width,
                side <= self.height,
                inset == side / count / 2,
                start == k * inset,
                end == side - k * inset,
                count * inset <= side,
                buffer.len() == self.width * self.height,
                buffer@ == squares_drawn(
                    base,
                    self.width as int,
                    side as int,
                    inset as int,
                    freqs@,
                    colors@,
                    k as int,
                ),
            decreases count - k,
        {
            let sample = freqs[count - 1 - k];
            let color = colors[color_index(sample, colors.len())];
            self.fill_square(&mut buffer, start, end, color);
            assert((k + 1) * inset <= count * inset && (k + 1) * inset == k * inset + inset)
                by (nonlinear_arith)
                requires
                    k < count,
                    inset >= 0,
            ;
            start += inset;
            end -= inset;
            k += 1;
        }
        self.downscale(buffer.as_slice())
    }

    /// Cartesian bars: the width is divided into one band per display value,
    /// each bar as high as its magnitude and standing on the bottom edge; then
    /// the downscale.
    pub fn visualize_frequencies_plot(&self, frequencies: &[Level], colors: &Vec<u32>) -> (image:
        Vec<u32>)
        requires
            self.scale_factor > 0,
            self.width * self.height <= usize::MAX,
            0 < frequencies.len() <= self.width,
            colors.len() > 0,
        ensures
            image@ == downscaled(
                bars_image(frequencies@, colors@, self.width as int, self.height as int),
                self.width as int,
                self.height as int,
                self.scale_factor as int,
            ),
    {
        let count = frequencies.len();
        let pitch = self.width / count;
        assert(pitch >= 1) by (nonlinear_arith)
            requires
                0 < count <= self.width,
                pitch == self.width / count,
        ;
        let bar_width = pitch - BAR_MARGIN;
        let mut buffer = blank(self.width * self.height, PLOT_BACKGROUND);
        let ghost base = buffer@;
        let mut i: usize = 0;
        while i < count
            invariant
                i <= count,
                count == frequencies.len(),
                colors.len() > 0,
                pitch == self.width / count,
                pitch >= 1,
                bar_width == pitch - BAR_MARGIN,
                buffer.len() == self.width * self.height,
                buffer@ == bars_drawn(
                    base,
                    self.width as int,
                    self.height as int,
                    bar_width as int,
                    frequencies@,
                    colors@,
                    i as int,
                ),
            decreases count - i,
        {
            assert((i + 1) * pitch <= self.width && i * pitch + pitch == (i + 1) * pitch)
                by (nonlinear_arith)
                requires
                    i < count,
                    pitch == self.width / count,
            ;
            let x = i * pitch;
            let y = bar_start(frequencies[i], self.height);
            let color = colors[i % colors.len()];
            fill_rect(&mut buffer, self.width, self.height, x, x + bar_width, y, self.height, color);
            i += 1;
        }
        self.downscale(buffer.as_slice())
    }

    /// Polar scatter: one ray per display value from the centre of the
    /// buffer, in the direction stored for it and as long as its magnitude
    /// times the radius; then the downscale.
    pub fn circle_plot(&self, frequencies: &[Level], colors: &Vec<u32>) -> (image: Vec<u32>)
        requires
            self.scale_factor > 0,
            self.width * self.height <= usize::MAX,
            frequencies.len() <= self.directions.len(),
            colors.len() > 0,
        ensures
            image@ == downscaled(
                scatter_image(
                    frequencies@,
                    self.directions@,
                    colors@,
                    self.width as int,
                    self.height as int,
                ),
                self.width as int,
                self.height as int,
                self.scale_factor as int,
            ),
    {
        let width = self.width;
        let height = self.height;
        let center_x = width / 2;
        let center_y = height / 2;
        let radius = if center_x <= center_y {
            center_x
        } else {
            center_y
        };
        let ghost w = width as int;
        let ghost h = height as int;
        let mut buffer = blank(width * height, PLOT_BACKGROUND);
        let ghost base = buffer@;
        let mut i: usize = 0;
        while i < frequencies.len()
            invariant
                i <= frequencies.len(),
                frequencies.len() <= self.directions.len(),
                colors.len() > 0,
                width == self.width,
                height == self.height,
                w == width,
                h == height,
                center_x == width / 2,
                center_y == height / 2,
                radius == smaller(w / 2, h / 2),
                buffer.len() == width * height,
                buffer@ == scatter_drawn(
                    base,
                    w,
                    h,
                    frequencies@,
                    self.directions@,
                    colors@,
                    i as int,
                ),
            decreases frequencies.len() - i,
        {
            let dir = self.directions[i];
            let color = colors[i % colors.len()];
            let steps = ray_length(radius, frequencies[i]);
            let ghost start = buffer@;
            let mut s: u128 = 0;
            while s < steps
                invariant
                    s <= steps,
                    steps <= MAX_RAY_STEPS,
                    w == width,
                    h == height,
                    center_x == width / 2,
                    center_y == height / 2,
                    start.len() == width * height,
                    buffer.len() == width * height,
                    buffer@ == ray_drawn(start, w, h, dir, color, s as int),
                decreases steps - s,
            {
                let x = ray_point(center_x, dir.cos, s);
                let y = ray_point(center_y, dir.sin, s);
                if x < width as u128 && y < height as u128 {
                    proof {
                        crate::paint::lemma_pixel_index(y as int, x as int, w, h);
                    }
                    let index = (x as usize) + (y as usize) * width;
                    buffer.set(index, color);
                }
                s += 1;
            }
            i += 1;
        }
        self.downscale(buffer.as_slice())
    }
}

} // verus!
