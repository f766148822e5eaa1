//! Packed colors, their average, and the box-filter downscale from the working
//! resolution to the output resolution.
use crate::visualizer::Visualizer;
use vstd::prelude::*;

verus! {

/// Side of the square block of source pixels that one output pixel averages.
pub const BLOCK: usize = 4;

/// One 8-bit channel of a packed color; `unit` is 65536 for red, 256 for
/// green and 1 for blue.
pub open spec fn channel(color: u32, unit: int) -> int {
    (color as int / unit) % 256
}

/// The color packed as `0xRRGGBB`.
pub open spec fn rgb(r: int, g: int, b: int) -> u32 {
    (r * 65536 + g * 256 + b) as u32
}

/// Sum of one channel over a sequence of colors.
pub open spec fn channel_sum(colors: Seq<u32>, unit: int) -> int
    decreases colors.len(),
{
    if colors.len() == 0 {
        0
    } else {
        channel_sum(colors.drop_last(), unit) + channel(colors.last(), unit)
    }
}

/// The channel-wise mean of a non-empty sequence of colors, each mean rounded
/// down.
pub open spec fn average_color(colors: Seq<u32>) -> u32 {
    let n = colors.len() as int;
    rgb(channel_sum(colors, 65536) / n, channel_sum(colors, 256) / n, channel_sum(colors, 1) / n)
}

/// The pixel in row `row` and column `col` of a row-major buffer.
pub open spec fn pixel_at(buf: Seq<u32>, width: int, row: int, col: int) -> u32 {
    buf[row * width + col]
}

/// Among the first `k` positions of the block whose top left corner is
/// `(row0, col0)`, taken row by row, the pixels that lie inside the buffer.
pub open spec fn block_pixels(
    buf: Seq<u32>,
    width: int,
    height: int,
    row0: int,
    col0: int,
    k: int,
) -> Seq<u32>
    decreases k,
{
    if k <= 0 {
        Seq::empty()
    } else {
        let rest = block_pixels(buf, width, height, row0, col0, k - 1);
        let row = row0 + (k - 1) / (BLOCK as int);
        let col = col0 + (k - 1) % (BLOCK as int);
        if row < height && col < width {
            rest.push(pixel_at(buf, width, row, col))
        } else {
            rest
        }
    }
}

/// The output pixel in row `r` and column `c`: the average of the block that
/// starts at `(r * scale, c * scale)`, clipped to the buffer.
pub open spec fn downscaled_pixel(
    buf: Seq<u32>,
    width: int,
    height: int,
    scale: int,
    r: int,
    c: int,
) -> u32 {
    average_color(block_pixels(buf, width, height, r * scale, c * scale, (BLOCK * BLOCK) as int))
}

/// The whole output image, `width / scale` pixels wide and `height / scale`
/// pixels high, in row-major order.
pub open spec fn downscaled(buf: Seq<u32>, width: int, height: int, scale: int) -> Seq<u32> {
    Seq::new(
        ((width / scale) * (height / scale)) as nat,
        |q: int|
            downscaled_pixel(buf, width, height, scale, q / (width / scale), q % (width / scale)),
    )
}

/// Every channel sum is bounded by 255 per color.
pub proof fn lemma_channel_sum_bounds(colors: Seq<u32>, unit: int)
    requires
        unit > 0,
    ensures
        0 <= channel_sum(colors, unit) <= 255 * colors.len(),
    decreases colors.len(),
{
    if colors.len() > 0 {
        lemma_channel_sum_bounds(colors.drop_last(), unit);
    }
}

/// The channel sum of `n` equal colors is `n` times the channel.
proof fn lemma_channel_sum_uniform(colors: Seq<u32>, unit: int, color: u32)
    requires
        forall|i: int| 0 <= i < colors.len() ==> colors[i] == color,
    ensures
        channel_sum(colors, unit) == colors.len() * channel(color, unit),
    decreases colors.len(),
{
    if colors.len() > 0 {
        lemma_channel_sum_uniform(colors.drop_last(), unit, color);
        assert(colors.len() * channel(color, unit) == (colors.len() - 1) * channel(color, unit)
            + channel(color, unit)) by (nonlinear_arith);
    }
}

/// Averaging copies of one 24-bit color gives that color back.
pub proof fn lemma_average_uniform(colors: Seq<u32>, color: u32)
    requires
        colors.len() > 0,
        color <= 0xFF_FFFF,
        forall|i: int| 0 <= i < colors.len() ==> colors[i] == color,
    ensures
        average_color(colors) == color,
{
    let n = colors.len() as int;
    lemma_channel_sum_uniform(colors, 65536, color);
    lemma_channel_sum_uniform(colors, 256, color);
    lemma_channel_sum_uniform(colors, 1, color);
    let r = channel(color, 65536);
    let g = channel(color, 256);
    let b = channel(color, 1);
    assert((n * r) / n == r) by (nonlinear_arith)
        requires
            n > 0,
    ;
    assert((n * g) / n == g) by (nonlinear_arith)
        requires
            n > 0,
    ;
    assert((n * b) / n == b) by (nonlinear_arith)
        requires
            n > 0,
    ;
    assert(r * 65536 + g * 256 + b == color);
}

/// A block's pixel list is never longer than the positions taken, and holds
/// the block's first position whenever that lies inside the buffer.
proof fn lemma_block_len(buf: Seq<u32>, width: int, height: int, row0: int, col0: int, k: int)
    requires
        0 <= k,
    ensures
        block_pixels(buf, width, height, row0, col0, k).len() <= k,
        k >= 1 && row0 < height && col0 < width ==> block_pixels(
            buf,
            width,
            height,
            row0,
            col0,
            k,
        ).len() >= 1,
    decreases k,
{
    if k > 0 {
        lemma_block_len(buf, width, height, row0, col0, k - 1);
    }
}

/// A block that is uniform inside the buffer yields only that color.
proof fn lemma_block_uniform(
    buf: Seq<u32>,
    width: int,
    height: int,
    row0: int,
    col0: int,
    k: int,
    color: u32,
)
    requires
        0 <= k <= BLOCK * BLOCK,
        forall|row: int, col: int|
            row0 <= row < row0 + BLOCK && row < height && col0 <= col < col0 + BLOCK && col
                < width ==> #[trigger] pixel_at(buf, width, row, col) == color,
    ensures
        forall|i: int|
            0 <= i < block_pixels(buf, width, height, row0, col0, k).len() ==> block_pixels(
                buf,
                width,
                height,
                row0,
                col0,
                k,
            )[i] == color,
    decreases k,
{
    if k > 0 {
        lemma_block_uniform(buf, width, height, row0, col0, k - 1, color);
        let rest = block_pixels(buf, width, height, row0, col0, k - 1);
        let cur = block_pixels(buf, width, height, row0, col0, k);
        let row = row0 + (k - 1) / (BLOCK as int);
        let col = col0 + (k - 1) % (BLOCK as int);
        assert(row0 <= row < row0 + BLOCK && col0 <= col < col0 + BLOCK);
        if row < height && col < width {
            assert(pixel_at(buf, width, row, col) == color);
        }
        assert forall|i: int| 0 <= i < cur.len() implies cur[i] == color by {
            if i < rest.len() {
                assert(cur[i] == rest[i]);
            }
        }
    }
}

/// Downscaling a region of one 24-bit color gives exactly that color: an
/// output pixel whose block, clipped to the buffer, is uniform has the
/// block's color.
pub proof fn lemma_downscale_uniform(
    buf: Seq<u32>,
    width: int,
    height: int,
    scale: int,
    r: int,
    c: int,
    color: u32,
)
    requires
        scale > 0,
        0 <= r < height / scale,
        0 <= c < width / scale,
        color <= 0xFF_FFFF,
        forall|row: int, col: int|
            r * scale <= row < r * scale + BLOCK && row < height && c * scale <= col < c * scale
                + BLOCK && col < width ==> #[trigger] pixel_at(buf, width, row, col) == color,
    ensures
        downscaled_pixel(buf, width, height, scale, r, c) == color,
{
    let row0 = r * scale;
    let col0 = c * scale;
    lemma_block_origin(height, scale, r);
    lemma_block_origin(width, scale, c);
    lemma_block_len(buf, width, height, row0, col0, (BLOCK * BLOCK) as int);
    lemma_block_uniform(buf, width, height, row0, col0, (BLOCK * BLOCK) as int, color);
    let block = block_pixels(buf, width, height, row0, col0, (BLOCK * BLOCK) as int);
    lemma_average_uniform(block, color);
}

/// The block of output coordinate `i` starts inside the source extent.
pub proof fn lemma_block_origin(extent: int, scale: int, i: int)
    requires
        scale > 0,
        0 <= i < extent / scale,
    ensures
        0 <= i * scale < extent,
        i * scale + scale <= extent,
{
    assert(i * scale + scale <= extent && 0 <= i * scale) by (nonlinear_arith)
        requires
            scale > 0,
            0 <= i,
            i + 1 <= extent / scale,
    ;
}

impl Visualizer {
    /// The channel-wise mean of a non-empty slice of packed colors.
    pub fn average_colors(&self, colors: &[u32]) -> (avg: u32)
        requires
            colors.len() > 0,
        ensures
            avg == average_color(colors@),
    {
        let mut sum_r: u128 = 0;
        let mut sum_g: u128 = 0;
        let mut sum_b: u128 = 0;
        let count: u128 = colors.len() as u128;
        let mut i: usize = 0;
        while i < colors.len()
            invariant
                i <= colors.len(),
                sum_r == channel_sum(colors@.subrange(0, i as int), 65536),
                sum_g == channel_sum(colors@.subrange(0, i as int), 256),
                sum_b == channel_sum(colors@.subrange(0, i as int), 1),
            decreases colors.len() - i,
        {
            let color = colors[i];
            proof {
                let prefix = colors@.subrange(0, i as int);
                let next = colors@.subrange(0, i + 1);
                assert(next.drop_last() =~= prefix);
                lemma_channel_sum_bounds(prefix, 65536);
                lemma_channel_sum_bounds(prefix, 256);
                lemma_channel_sum_bounds(prefix, 1);
                assert((color >> 16) & 0xFF == (color / 65536) % 256) by (bit_vector);
                assert((color >> 8) & 0xFF == (color / 256) % 256) by (bit_vector);
                assert(color & 0xFF == color % 256) by (bit_vector);
            }
            sum_r += ((color >> 16) & 0xFF) as u128;
            sum_g += ((color >> 8) & 0xFF) as u128;
            sum_b += (color & 0xFF) as u128;
            i += 1;
        }
        proof {
            assert(colors@.subrange(0, colors.len() as int) =~= colors@);
            lemma_channel_sum_bounds(colors@, 65536);
            lemma_channel_sum_bounds(colors@, 256);
            lemma_channel_sum_bounds(colors@, 1);
        }
        let mean_r: u128 = sum_r / count;
        let mean_g: u128 = sum_g / count;
        let mean_b: u128 = sum_b / count;
        assert(mean_r <= 255 && mean_g <= 255 && mean_b <= 255) by (nonlinear_arith)
            requires
                count > 0,
                sum_r <= 255 * count,
                sum_g <= 255 * count,
                sum_b <= 255 * count,
                mean_r == sum_r / count,
                mean_g == sum_g / count,
                mean_b == sum_b / count,
        ;
        let avg_r: u32 = mean_r as u32;
        let avg_g: u32 = mean_g as u32;
        let avg_b: u32 = mean_b as u32;
        assert((avg_r << 16) | (avg_g << 8) | avg_b == avg_r * 65536 + avg_g * 256 + avg_b)
            by (bit_vector)
            requires
                avg_r <= 255,
                avg_g <= 255,
                avg_b <= 255,
        ;
        (avg_r << 16) | (avg_g << 8) | avg_b
    }

    /// Box-filter downscale of a working buffer of `width` x `height` pixels
    /// to `width / scale_factor` x `height / scale_factor` pixels. Each output
    /// pixel is the average of the `BLOCK` x `BLOCK` source pixels that start
    /// at its scaled position; positions beyond the right or bottom edge are
    /// left out of the average.
    pub fn downscale(&self, buffer: &[u32]) -> (out: Vec<u32>)
        requires
            self.scale_factor > 0,
            buffer.len() == self.width * self.height,
        ensures
            out@ == downscaled(
                buffer@,
                self.width as int,
                self.height as int,
                self.scale_factor as int,
            ),
    {
        let width = self.width;
        let height = self.height;
        let scale = self.scale_factor;
        let out_w = width / scale;
        let out_h = height / scale;
        let ghost w = width as int;
        let ghost h = height as int;
        let ghost sf = scale as int;
        assert(out_w * out_h <= width * height) by (nonlinear_arith)
            requires
                out_w <= width,
                out_h <= height,
        ;
        let mut out: Vec<u32> = Vec::new();
        let mut r: usize = 0;
        while r < out_h
            invariant
                r <= out_h,
                out_w == width / scale,
                out_h == height / scale,
                scale > 0,
                width == self.width,
                height == self.height,
                scale == self.scale_factor,
                w == width,
                h == height,
                sf == scale,
                buffer.len() == width * height,
                out.len() == r * out_w,
                forall|q: int|
                    0 <= q < out.len() ==> out[q] == downscaled_pixel(
                        buffer@,
                        w,
                        h,
                        sf,
                        q / (out_w as int),
                        q % (out_w as int),
                    ),
            decreases out_h - r,
        {
            let mut c: usize = 0;
            while c < out_w
                invariant
                    r < out_h,
                    c <= out_w,
                    out_w == width / scale,
                    out_h == height / scale,
                    scale > 0,
                    width == self.width,
                    height == self.height,
                    scale == self.scale_factor,
                    w == width,
                    h == height,
                    sf == scale,
                    buffer.len() == width * height,
                    out.len() == r * out_w + c,
                    forall|q: int|
                        0 <= q < out.len() ==> out[q] == downscaled_pixel(
                            buffer@,
                            w,
                            h,
                            sf,
                            q / (out_w as int),
                            q % (out_w as int),
                        ),
                decreases out_w - c,
            {
                proof {
                    lemma_block_origin(h, sf, r as int);
                    lemma_block_origin(w, sf, c as int);
                }
                let row0 = r * scale;
                let col0 = c * scale;
                let mut colors: Vec<u32> = Vec::new();
                let mut k: usize = 0;
                while k < BLOCK * BLOCK
                    invariant
                        k <= BLOCK * BLOCK,
                        row0 < height,
                        col0 < width,
                        w == width,
                        h == height,
                        buffer.len() == width * height,
                        colors@ == block_pixels(buffer@, w, h, row0 as int, col0 as int, k as int),
                    decreases BLOCK * BLOCK - k,
                {
                    let dy = k / BLOCK;
                    let dx = k % BLOCK;
                    if dy < height - row0 && dx < width - col0 {
                        let row = row0 + dy;
                        let col = col0 + dx;
                        assert(row * width + col < width * height) by (nonlinear_arith)
                            requires
                                row < height,
                                col < width,
                        ;
                        colors.push(buffer[row * width + col]);
                    }
                    k += 1;
                }
                proof {
                    lemma_block_len(
                        buffer@,
                        w,
                        h,
                        row0 as int,
                        col0 as int,
                        (BLOCK * BLOCK) as int,
                    );
                }
                let pixel = self.average_colors(colors.as_slice());
                proof {
                    let q = out.len() as int;
                    assert(q / (out_w as int) == r && q % (out_w as int) == c)
                        by (nonlinear_arith)
                        requires
                            q == r * out_w + c,
                            0 <= c < out_w,
                            0 <= r,
                    ;
                }
                out.push(pixel);
                c += 1;
            }
            assert((r + 1) * out_w == r * out_w + out_w) by (nonlinear_arith);
            r += 1;
        }
        assert(out.len() == out_w * out_h) by (nonlinear_arith)
            requires
                out.len() == r * out_w,
                r == out_h,
        ;
        assert(out@ =~= downscaled(buffer@, w, h, sf));
        out
    }
}

} // verus!
