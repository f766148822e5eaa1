use spectrum_visualizer::palette::pack_palette;
use spectrum_visualizer::visualizer::{Direction, Visualization, Visualizer, SHRINK_FACTOR};

fn timeline() -> Vec<Vec<i32>> {
    vec![vec![1_000_000; 16], vec![0; 16], vec![500_000; 16]]
}

fn unit_directions(count: usize) -> Vec<Direction> {
    (0..count).map(|_| Direction { cos: 65536, sin: 0 }).collect()
}

#[test]
fn the_palette_has_one_color_per_displayed_bin() {
    let v = Visualizer::new(timeline(), 8, 8, 2, 2_000, Visualization::Plot, vec![]);
    assert_eq!(v.colors.len(), 16 / SHRINK_FACTOR);
    assert_eq!(v.colors, vec![0x000004, 0xfcfdbf]);
    assert_eq!(v.width, 8);
    assert_eq!(v.height, 8);
    assert_eq!(v.scale_factor, 2);
    assert_eq!(v.delta, 2_000);
    assert_eq!(v.visualization, Visualization::Plot);
    assert_eq!(v.frequencies, timeline());
    assert_eq!(v.circles, Visualizer::classify_circles(8, 8));
}

#[test]
fn the_gradient_matches_the_magma_stops() {
    for count in [0usize, 1, 2, 5, 11, 64] {
        let expected: Vec<u32> = colorgrad::magma()
            .colors(count)
            .iter()
            .map(|c| {
                let [r, g, b, _] = c.to_rgba8();
                ((r as u32) << 16) | ((g as u32) << 8) | b as u32
            })
            .collect();
        let colors = Visualizer::gradient(count);
        assert_eq!(colors.len(), count);
        assert_eq!(colors, expected);
    }
    assert_eq!(Visualizer::gradient(1), vec![0x000004]);
    assert_eq!(Visualizer::gradient(2), vec![0x000004, 0xfcfdbf]);
    let many = Visualizer::gradient(64);
    assert!(many.windows(2).any(|pair| pair[0] != pair[1]));
}

#[test]
fn channels_are_packed_red_first() {
    assert_eq!(pack_palette(&vec![(0x12, 0x34, 0x56), (255, 0, 1)]), vec![0x123456, 0xFF0001]);
    assert!(pack_palette(&vec![]).is_empty());
}

#[test]
fn an_engine_is_ready_when_it_has_a_scale_and_a_palette() {
    let ready = Visualizer::new(timeline(), 8, 8, 2, 2_000, Visualization::CircleGod, vec![]);
    assert!(ready.can_render(2));
    assert!(!ready.can_render(0));
    let unscaled = Visualizer::new(timeline(), 8, 8, 0, 2_000, Visualization::CircleGod, vec![]);
    assert!(!unscaled.can_render(2));
    let narrow = Visualizer::new(vec![vec![0; 7]], 8, 8, 2, 2_000, Visualization::CircleGod, vec![]);
    assert!(narrow.colors.is_empty());
    assert!(!narrow.can_render(2));
}

#[test]
fn each_projection_has_its_own_limits() {
    let bars = Visualizer::new(timeline(), 8, 8, 2, 2_000, Visualization::Plot, vec![]);
    assert!(bars.can_render(8));
    assert!(!bars.can_render(9));
    assert!(!bars.can_render(0));
    let squares = Visualizer::new(timeline(), 8, 8, 2, 2_000, Visualization::SquaredGod, vec![]);
    assert!(squares.can_render(100));
    assert!(!squares.can_render(0));
    let rays = Visualizer::new(
        timeline(),
        8,
        8,
        2,
        2_000,
        Visualization::CircularPlot,
        unit_directions(3),
    );
    assert!(rays.can_render(0));
    assert!(rays.can_render(3));
    assert!(!rays.can_render(4));
}

#[test]
fn a_frame_smooths_then_renders() {
    let v = Visualizer::new(timeline(), 8, 8, 4, 2_000, Visualization::Plot, vec![]);
    let mut display = vec![0i32; 2];
    let image = v.get_buffer(&mut display, 0, 250_000).unwrap();
    assert_eq!(display, vec![500_000, 500_000]);
    assert_eq!(image, v.render(&display));
    assert_eq!(image, v.visualize_frequencies_plot(&display, &v.colors));
    assert_eq!(image.len(), 4);
    let next = v.get_buffer(&mut display, 1, 250_000).unwrap();
    assert_eq!(display, vec![250_000, 250_000]);
    assert_eq!(next, v.render(&display));
}

#[test]
fn past_the_end_of_the_timeline_nothing_is_drawn() {
    let v = Visualizer::new(timeline(), 8, 8, 4, 2_000, Visualization::Plot, vec![]);
    let mut display = vec![7i32, 9];
    assert_eq!(v.get_buffer(&mut display, 3, 250_000), None);
    assert_eq!(v.get_buffer(&mut display, usize::MAX, 250_000), None);
    assert_eq!(display, vec![7, 9]);
    assert!(v.get_buffer(&mut display, 2, 0).is_some());
}

#[test]
fn every_projection_is_dispatched() {
    let display = vec![300_000i32, 900_000];
    for mode in [
        Visualization::CircleGod,
        Visualization::SquaredGod,
        Visualization::CircularPlot,
        Visualization::Plot,
    ] {
        let v = Visualizer::new(timeline(), 8, 8, 2, 2_000, mode, unit_directions(2));
        let mut current = display.clone();
        let image = v.get_buffer(&mut current, 2, 0).unwrap();
        assert_eq!(current, display);
        let direct = match mode {
            Visualization::CircleGod => v.draw_circles(&display, &v.colors),
            Visualization::SquaredGod => v.draw_squares(&display, &v.colors),
            Visualization::CircularPlot => v.circle_plot(&display, &v.colors),
            Visualization::Plot => v.visualize_frequencies_plot(&display, &v.colors),
        };
        assert_eq!(image, direct);
        assert_eq!(image.len(), 16);
    }
}

#[test]
fn live_frames_wait_for_a_published_spectrum() {
    let v = Visualizer::new(timeline(), 8, 8, 4, 2_000, Visualization::SquaredGod, vec![]);
    let mut display = vec![100i32, 200];
    assert_eq!(v.get_live_buffer(&mut display, &[], 16_000), None);
    assert_eq!(display, vec![100, 200]);
    let image = v.get_live_buffer(&mut display, &[1_000_100, 200, 5], 500_000).unwrap();
    assert_eq!(display, vec![1_000_100, 200]);
    assert_eq!(image, v.draw_squares(&display, &v.colors));
}
