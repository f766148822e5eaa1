//! The per-frame work of the render engine: smooth the display vector toward
//! the target spectrum, then project it.
use crate::level::Level;
use crate::palette::{magma_rgb, packed};
use crate::projection::{bands_drawn, bars_image, scatter_image, squares_image};
use crate::raster::downscaled;
use crate::smoothing::{gain_of, smooth, smoothed};
use crate::visualizer::{
    classifies, Direction, Visualization, Visualizer, BAND_COUNT, SHRINK_FACTOR,
};
use vstd::prelude::*;

verus! {

impl Visualizer {
    /// Whether the projection in use can draw a display vector of `bins`
    /// values: the bands and the squares need at least one value, the bars
    /// at least one and at most one per column, the scatter a direction for
    /// every value.
    pub open spec fn accepts(&self, bins: int) -> bool {
        match self.visualization {
            Visualization::CircleGod => bins > 0,
            Visualization::SquaredGod => bins > 0,
            Visualization::CircularPlot => bins <= self.directions.len(),
            Visualization::Plot => 0 < bins <= self.width,
        }
    }

    /// The working buffer that the projection in use paints for a display
    /// vector.
    pub open spec fn projected(&self, display: Seq<Level>) -> Seq<u32> {
        let w = self.width as int;
        let h = self.height as int;
        match self.visualization {
            Visualization::CircleGod => bands_drawn(display, self.colors@, w, h),
            Visualization::SquaredGod => squares_image(display, self.colors@, w, h),
            Visualization::CircularPlot => scatter_image(
                display,
                self.directions@,
                self.colors@,
                w,
                h,
            ),
            Visualization::Plot => bars_image(display, self.colors@, w, h),
        }
    }

    /// The output image for a display vector: the projection, downscaled.
    pub open spec fn rendered(&self, display: Seq<Level>) -> Seq<u32> {
        downscaled(
            self.projected(display),
            self.width as int,
            self.height as int,
            self.scale_factor as int,
        )
    }

    /// A render engine for a timeline. The palette holds one color for every
    /// `SHRINK_FACTOR` bins of the first spectrum, and the working buffer is
    /// classified into bands.
    pub fn new(
        frequencies: Vec<Vec<Level>>,
        width: usize,
        height: usize,
        scale_factor: usize,
        delta: u32,
        visualization: Visualization,
        directions: Vec<Direction>,
    ) -> (v: Self)
        requires
            frequencies.len() > 0,
            width * height <= usize::MAX,
        ensures
            v.frequencies == frequencies,
            v.width == width,
            v.height == height,
            v.scale_factor == scale_factor,
            v.delta == delta,
            v.visualization == visualization,
            v.directions == directions,
            v.colors@ == packed(magma_rgb((frequencies[0].len() / SHRINK_FACTOR) as usize)),
            v.colors.len() == frequencies[0].len() / SHRINK_FACTOR,
            classifies(v.circles@, width as int, height as int, BAND_COUNT as int),
            v.wf() <==> scale_factor > 0 && frequencies[0].len() >= SHRINK_FACTOR,
    {
        let colors = Visualizer::gradient(frequencies[0].len() / SHRINK_FACTOR);
        Self {
            frequencies,
            width,
            height,
            scale_factor,
            delta,
            colors,
            visualization,
            circles: Visualizer::classify_circles(width, height),
            directions,
        }
    }

    /// Whether the engine can render a display vector of `bins` values.
    pub fn can_render(&self, bins: usize) -> (ok: bool)
        ensures
            ok == (self.wf() && self.accepts(bins as int)),
    {
        let sized = match self.width.checked_mul(self.height) {
            Some(_) => true,
            None => false,
        };
        let drawable = match self.visualization {
            Visualization::CircleGod => bins > 0,
            Visualization::SquaredGod => bins > 0,
            Visualization::CircularPlot => bins <= self.directions.len(),
            Visualization::Plot => 0 < bins && bins <= self.width,
        };
        self.scale_factor > 0 && self.colors.len() > 0 && sized && drawable
    }

    /// Projects a display vector with the projection in use.
    pub fn render(&self, display: &[Level]) -> (image: Vec<u32>)
        requires
            self.wf(),
            self.accepts(display.len() as int),
        ensures
            image@ == self.rendered(display@),
    {
        match self.visualization {
            Visualization::CircleGod => self.draw_circles(display, &self.colors),
            Visualization::SquaredGod => self.draw_squares(display, &self.colors),
            Visualization::CircularPlot => self.circle_plot(display, &self.colors),
            Visualization::Plot => self.visualize_frequencies_plot(display, &self.colors),
        }
    }

    /// One frame in live mode: smooths the display vector toward the latest
    /// published spectrum and renders it. While nothing is published (`freqs`
    /// is empty) there is nothing to draw and the display vector stays as it
    /// is.
    pub fn get_live_buffer(
        &self,
        prev_buffer: &mut Vec<Level>,
        freqs: &[Level],
        elapsed_micros: u64,
    ) -> (image: Option<Vec<u32>>)
        requires
            self.wf(),
            self.accepts(old(prev_buffer).len() as int),
            freqs.len() > 0 ==> old(prev_buffer).len() <= freqs.len(),
        ensures
            image is Some <==> freqs.len() > 0,
            freqs.len() == 0 ==> final(prev_buffer)@ == old(prev_buffer)@,
            freqs.len() > 0 ==> final(prev_buffer)@ == smoothed(
                old(prev_buffer)@,
                freqs@,
                gain_of(elapsed_micros as int, self.delta as int),
            ),
            image matches Some(pixels) ==> pixels@ == self.rendered(final(prev_buffer)@),
    {
        if freqs.len() < 1 {
            return None;
        }
        smooth(prev_buffer, freqs, elapsed_micros, self.delta);
        Some(self.render(prev_buffer.as_slice()))
    }

    /// One frame in offline mode: smooths the display vector toward the
    /// leading bins of chunk `current_chunk` and renders it. Past the end of
    /// the timeline there is nothing to draw and the display vector stays as
    /// it is.
    pub fn get_buffer(
        &self,
        prev_buffer: &mut Vec<Level>,
        current_chunk: usize,
        elapsed_micros: u64,
    ) -> (image: Option<Vec<u32>>)
        requires
            self.wf(),
            self.accepts(old(prev_buffer).len() as int),
            current_chunk < self.frequencies.len() ==> old(prev_buffer).len()
                <= self.frequencies[current_chunk as int].len(),
        ensures
            image is Some <==> current_chunk < self.frequencies.len(),
            current_chunk >= self.frequencies.len() ==> final(prev_buffer)@ == old(prev_buffer)@,
            current_chunk < self.frequencies.len() ==> final(prev_buffer)@ == smoothed(
                old(prev_buffer)@,
                self.frequencies[current_chunk as int]@,
                gain_of(elapsed_micros as int, self.delta as int),
            ),
            image matches Some(pixels) ==> pixels@ == self.rendered(final(prev_buffer)@),
    {
        if current_chunk < self.frequencies.len() {
            let freq = &self.frequencies[current_chunk];
            smooth(prev_buffer, freq.as_slice(), elapsed_micros, self.delta);
            return Some(self.render(prev_buffer.as_slice()));
        }
        None
    }
}

} // verus!
