use spectrum_visualizer::level::color_index;
use spectrum_visualizer::paint::{blank, fill_rect};
use spectrum_visualizer::visualizer::{Direction, Visualization, Visualizer};
use std::collections::HashMap;

fn engine(width: usize, height: usize, scale_factor: usize, mode: Visualization) -> Visualizer {
    Visualizer {
        frequencies: vec![],
        width,
        height,
        scale_factor,
        delta: 2_000,
        colors: vec![0x000000, 0x0000FF, 0xFF0000],
        visualization: mode,
        circles: HashMap::new(),
        directions: vec![
            Direction { cos: 65536, sin: 0 },
            Direction { cos: 0, sin: 65536 },
            Direction { cos: -131072, sin: 0 },
        ],
    }
}

#[test]
fn magnitudes_are_rounded_to_palette_slots() {
    assert_eq!(color_index(0, 3), 0);
    assert_eq!(color_index(-5, 3), 0);
    assert_eq!(color_index(166_666, 3), 0);
    assert_eq!(color_index(166_667, 3), 1);
    assert_eq!(color_index(300_000, 3), 1);
    assert_eq!(color_index(500_000, 3), 2);
    assert_eq!(color_index(833_333, 3), 2);
    assert_eq!(color_index(833_334, 3), 0);
    assert_eq!(color_index(1_000_000, 3), 0);
    assert_eq!(color_index(1_500_000, 4), 2);
    assert_eq!(color_index(i32::MAX, 1), 0);
    assert_eq!(color_index(999_999, 64), 0);
    assert_eq!(color_index(500_000, 64), 32);
}

#[test]
fn rectangles_are_filled_row_major() {
    let mut buffer = blank(12, 7);
    fill_rect(&mut buffer, 4, 3, 1, 3, 0, 2, 9);
    assert_eq!(buffer, vec![7, 9, 9, 7, 7, 9, 9, 7, 7, 7, 7, 7]);
    fill_rect(&mut buffer, 4, 3, 3, 1, 0, 3, 5);
    fill_rect(&mut buffer, 4, 3, 0, 4, 2, 2, 5);
    assert_eq!(buffer, vec![7, 9, 9, 7, 7, 9, 9, 7, 7, 7, 7, 7]);
    fill_rect(&mut buffer, 4, 3, 0, 4, 2, 3, 1);
    assert_eq!(buffer, vec![7, 9, 9, 7, 7, 9, 9, 7, 1, 1, 1, 1]);
}

#[test]
fn squares_are_filled_in_both_directions() {
    let v = engine(4, 4, 1, Visualization::SquaredGod);
    let mut buffer = vec![0u32; 16];
    v.fill_square(&mut buffer, 1, 3, 8);
    assert_eq!(buffer, vec![0, 0, 0, 0, 0, 8, 8, 0, 0, 8, 8, 0, 0, 0, 0, 0]);
}

#[test]
fn the_last_circle_that_holds_a_pixel_wins() {
    let v = engine(5, 5, 1, Visualization::CircleGod);
    let mut buffer = vec![9u32; 25];
    v.fill_circles(&mut buffer, vec![(2, 1), (1, 2), (0, 3)]);
    assert_eq!(
        buffer,
        vec![
            9, 9, 1, 9, 9, //
            9, 1, 2, 1, 9, //
            1, 2, 3, 2, 1, //
            9, 1, 2, 1, 9, //
            9, 9, 1, 9, 9,
        ]
    );
}

#[test]
fn a_larger_circle_later_in_the_list_covers_smaller_ones() {
    let v = engine(3, 3, 1, Visualization::CircleGod);
    let mut buffer = vec![0u32; 9];
    v.fill_circles(&mut buffer, vec![(0, 5), (1, 6)]);
    assert_eq!(buffer, vec![0, 6, 0, 6, 6, 6, 0, 6, 0]);
    let mut untouched = vec![4u32; 9];
    v.fill_circles(&mut untouched, vec![]);
    assert_eq!(untouched, vec![4u32; 9]);
}

#[test]
fn radial_bands_put_the_lowest_bin_in_the_centre() {
    let v = engine(4, 4, 4, Visualization::CircleGod);
    let colors = vec![0x102030, 0xF0E0D0];
    assert_eq!(v.draw_circles(&[500_000], &colors), vec![0xA59A8F]);
    let wide = engine(8, 8, 4, Visualization::CircleGod);
    let image = wide.draw_circles(&[300_000, 0], &vec![0x000000, 0xFFFFFF]);
    assert_eq!(image.len(), 4);
    assert_eq!(image[3], 0x5F5F5F);
}

#[test]
fn concentric_squares_overdraw_inward() {
    let v = engine(4, 4, 4, Visualization::SquaredGod);
    let image = v.draw_squares(&[300_000, 500_000], &v.colors);
    assert_eq!(image, vec![0xBF003F]);
}

#[test]
fn squares_use_the_shorter_side() {
    let v = engine(8, 4, 4, Visualization::SquaredGod);
    let image = v.draw_squares(&[500_000], &v.colors);
    assert_eq!(image, vec![0xFF0000, 0xFFFFFF]);
}

#[test]
fn bars_stand_on_the_bottom_edge() {
    let v = engine(8, 4, 4, Visualization::Plot);
    let image = v.visualize_frequencies_plot(&[500_000, 1_000_000], &vec![0xFF0000, 0x00FF00]);
    assert_eq!(image, vec![0x710216, 0x07C009]);
}

#[test]
fn silent_bars_leave_the_background() {
    let v = engine(8, 4, 4, Visualization::Plot);
    let image = v.visualize_frequencies_plot(&[0, -3], &vec![0xFF0000]);
    assert_eq!(image, vec![0x1c0424, 0x1c0424]);
}

#[test]
fn bar_colors_cycle_through_the_palette() {
    let v = engine(12, 4, 4, Visualization::Plot);
    let image = v.visualize_frequencies_plot(
        &[1_000_000, 1_000_000, 2_000_000],
        &vec![0xFF0000, 0x00FF00],
    );
    assert_eq!(image, vec![0xC60109, 0x07C009, 0xC60109]);
}

#[test]
fn rays_start_at_the_centre() {
    let v = engine(8, 8, 4, Visualization::CircularPlot);
    let image = v.circle_plot(&[1_000_000], &vec![0xFFFFFF]);
    assert_eq!(image, vec![0x1c0424, 0x1c0424, 0x1c0424, 0x54425A]);
}

#[test]
fn rays_follow_their_directions() {
    let v = engine(8, 8, 4, Visualization::CircularPlot);
    let image = v.circle_plot(&[0, 1_000_000], &vec![0xFFFFFF]);
    assert_eq!(image, vec![0x1c0424, 0x1c0424, 0x1c0424, 0x54425A]);
    let left = v.circle_plot(&[0, 0, 500_000], &vec![0xFFFFFF]);
    assert_eq!(left[0], 0x1c0424);
    assert_eq!(left[1], 0x1c0424);
    assert_eq!(left[2], 0x2a1331);
    assert_eq!(left[3], 0x2a1331);
}

#[test]
fn silent_rays_paint_nothing() {
    let v = engine(8, 8, 4, Visualization::CircularPlot);
    assert_eq!(v.circle_plot(&[0, -1], &vec![0xFFFFFF]), vec![0x1c0424u32; 4]);
    assert_eq!(v.circle_plot(&[], &vec![0xFFFFFF]), vec![0x1c0424u32; 4]);
}
