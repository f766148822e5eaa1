//! Painting into a row-major working buffer: uniform buffers and filled
//! rectangles.
use vstd::prelude::*;

verus! {

/// A buffer of `len` pixels of one color.
pub open spec fn uniform(len: int, color: u32) -> Seq<u32> {
    Seq::new(len as nat, |p: int| color)
}

/// Whether pixel `p` of a buffer of the given width lies in the columns
/// `x0..x1` and the rows `y0..y1`.
pub open spec fn in_rect(p: int, width: int, x0: int, x1: int, y0: int, y1: int) -> bool {
    x0 <= p % width < x1 && y0 <= p / width < y1
}

/// The buffer with the rectangle of columns `x0..x1` and rows `y0..y1` set to
/// one color.
pub open spec fn rect_filled(
    base: Seq<u32>,
    width: int,
    x0: int,
    x1: int,
    y0: int,
    y1: int,
    color: u32,
) -> Seq<u32> {
    Seq::new(
        base.len(),
        |p: int|
            if in_rect(p, width, x0, x1, y0, y1) {
                color
            } else {
                base[p]
            },
    )
}

/// The row-major index of a pixel, and back.
pub proof fn lemma_pixel_index(row: int, col: int, width: int, height: int)
    requires
        0 <= row < height,
        0 <= col < width,
    ensures
        0 <= row * width + col < width * height,
        (row * width + col) % width == col,
        (row * width + col) / width == row,
{
    assert(0 <= row * width + col < width * height && (row * width + col) % width == col && (row
        * width + col) / width == row) by (nonlinear_arith)
        requires
            0 <= row < height,
            0 <= col < width,
    ;
}

/// A pixel is determined by its row and column.
pub proof fn lemma_pixel_unique(p: int, width: int)
    requires
        0 <= p,
        0 < width,
    ensures
        p == (p / width) * width + p % width,
        0 <= p % width < width,
        0 <= p / width,
{
    assert(p == (p / width) * width + p % width && 0 <= p % width < width && 0 <= p / width)
        by (nonlinear_arith)
        requires
            0 <= p,
            0 < width,
    ;
}

/// A buffer of `len` pixels of one color.
pub fn blank(len: usize, color: u32) -> (buffer: Vec<u32>)
    ensures
        buffer@ == uniform(len as int, color),
{
    let mut buffer: Vec<u32> = Vec::new();
    let mut i: usize = 0;
    while i < len
        invariant
            i <= len,
            buffer.len() == i,
            forall|p: int| 0 <= p < i ==> buffer[p] == color,
        decreases len - i,
    {
        buffer.push(color);
        i += 1;
    }
    assert(buffer@ =~= uniform(len as int, color));
    buffer
}

/// Sets the rectangle of columns `x0..x1` and rows `y0..y1` to one color.
pub fn fill_rect(
    buffer: &mut Vec<u32>,
    width: usize,
    height: usize,
    x0: usize,
    x1: usize,
    y0: usize,
    y1: usize,
    color: u32,
)
    requires
        old(buffer).len() == width * height,
        x1 <= width,
        y1 <= height,
    ensures
        final(buffer)@ == rect_filled(
            old(buffer)@,
            width as int,
            x0 as int,
            x1 as int,
            y0 as int,
            y1 as int,
            color,
        ),
{
    let ghost base = buffer@;
    let ghost w = width as int;
    if x0 >= x1 || y0 >= y1 {
        assert(buffer@ =~= rect_filled(
            base,
            w,
            x0 as int,
            x1 as int,
            y0 as int,
            y1 as int,
            color,
        ));
        return ;
    }
    let mut row: usize = y0;
    while row < y1
        invariant
            y0 <= row <= y1,
            x0 < x1,
            y1 <= height,
            x1 <= width,
            w == width,
            buffer.len() == base.len(),
            base.len() == width * height,
            forall|p: int|
                0 <= p < buffer.len() ==> buffer[p] == if in_rect(
                    p,
                    w,
                    x0 as int,
                    x1 as int,
                    y0 as int,
                    row as int,
                ) {
                    color
                } else {
                    base[p]
                },
        decreases y1 - row,
    {
        let mut col: usize = x0;
        while col < x1
            invariant
                y0 <= row < y1,
                x0 <= col <= x1,
                y1 <= height,
                x1 <= width,
                w == width,
                buffer.len() == base.len(),
                base.len() == width * height,
                forall|p: int|
                    0 <= p < buffer.len() ==> buffer[p] == if in_rect(
                        p,
                        w,
                        x0 as int,
                        x1 as int,
                        y0 as int,
                        row as int,
                    ) || (p / w == row && x0 <= p % w < col) {
                        color
                    } else {
                        base[p]
                    },
            decreases x1 - col,
        {
            proof {
                lemma_pixel_index(row as int, col as int, w, height as int);
            }
            let q = row * width + col;
            let ghost prev = buffer@;
            buffer.set(q, color);
            proof {
                assert forall|p: int| 0 <= p < buffer.len() implies buffer[p] == if in_rect(
                    p,
                    w,
                    x0 as int,
                    x1 as int,
                    y0 as int,
                    row as int,
                ) || (p / w == row && x0 <= p % w < col + 1) {
                    color
                } else {
                    base[p]
                } by {
                    lemma_pixel_unique(p, w);
                    if p != q {
                        assert(buffer[p] == prev[p]);
                        assert(!(p / w == row && p % w == col));
                    }
                }
            }
            col += 1;
        }
        row += 1;
    }
    assert(buffer@ =~= rect_filled(base, w, x0 as int, x1 as int, y0 as int, y1 as int, color));
}

} // verus!
