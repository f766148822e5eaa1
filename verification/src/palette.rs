//! The palette: evenly spaced stops of the magma gradient, packed as
//! `0xRRGGBB`.
use crate::raster::rgb;
use crate::visualizer::Visualizer;
use vstd::prelude::*;

verus! {

/// The 8-bit channels of `count` evenly spaced stops of the magma gradient,
/// as `colorgrad` computes them.
pub uninterp spec fn magma_rgb(count: usize) -> Seq<(u8, u8, u8)>;

/// The stops packed as `0xRRGGBB`.
pub open spec fn packed(stops: Seq<(u8, u8, u8)>) -> Seq<u32> {
    Seq::new(stops.len(), |i: int| rgb(stops[i].0 as int, stops[i].1 as int, stops[i].2 as int))
}

/// Calls `colorgrad::magma().colors(count)` and converts every color with
/// `Color::to_rgba8`, dropping the alpha channel.
///
/// Trusted: the result is a function of `count` alone, named [`magma_rgb`],
/// and holds `count` stops (`Gradient::colors` maps `count` evenly spaced
/// positions to one color each).
#[verifier::external_body]
fn magma_stops(count: usize) -> (stops: Vec<(u8, u8, u8)>)
    ensures
        stops@ == magma_rgb(count),
        stops@.len() == count,
{
    let mut stops = Vec::new();
    for color in colorgrad::magma().colors(count).iter() {
        let channels = color.to_rgba8();
        stops.push((channels[0], channels[1], channels[2]));
    }
    stops
}

/// Packs 8-bit channels into `0xRRGGBB` colors.
pub fn pack_palette(stops: &Vec<(u8, u8, u8)>) -> (colors: Vec<u32>)
    ensures
        colors@ == packed(stops@),
        forall|i: int| 0 <= i < colors.len() ==> #[trigger] colors[i] <= 0xFF_FFFF,
{
    let mut colors: Vec<u32> = Vec::new();
    let mut i: usize = 0;
    while i < stops.len()
        invariant
            i <= stops.len(),
            colors.len() == i,
            forall|a: int| 0 <= a < i ==> colors[a] == packed(stops@)[a],
            forall|a: int| 0 <= a < i ==> #[trigger] colors[a] <= 0xFF_FFFF,
        decreases stops.len() - i,
    {
        let stop = stops[i];
        let r: u32 = stop.0 as u32;
        let g: u32 = stop.1 as u32;
        let b: u32 = stop.2 as u32;
        assert((r << 16) | (g << 8) | b == r * 65536 + g * 256 + b && (r << 16) | (g << 8) | b
            <= 0xFF_FFFF) by (bit_vector)
            requires
                r <= 255,
                g <= 255,
                b <= 255,
        ;
        colors.push((r << 16) | (g << 8) | b);
        i += 1;
    }
    assert(colors@ =~= packed(stops@));
    colors
}

impl Visualizer {
    /// A palette of `len` colors along the magma gradient.
    pub fn gradient(len: usize) -> (colors: Vec<u32>)
        ensures
            colors@ == packed(magma_rgb(len)),
            colors.len() == len,
            forall|i: int| 0 <= i < colors.len() ==> #[trigger] colors[i] <= 0xFF_FFFF,
    {
        let stops = magma_stops(len);
        pack_palette(&stops)
    }
}

} // verus!
