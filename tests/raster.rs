use raytracer::raster::{pixel_positions, render_raster};

#[test]
fn pixel_positions_run_row_by_row() {
    let v = pixel_positions(3, 2);
    assert_eq!(v, vec![(0, 0), (1, 0), (2, 0), (0, 1), (1, 1), (2, 1)]);
}

#[test]
fn pixel_positions_of_empty_image() {
    assert!(pixel_positions(0, 5).is_empty());
    assert!(pixel_positions(4, 0).is_empty());
}

#[test]
fn render_raster_lays_out_three_samples_per_pixel() {
    let colors = vec![[1, 2, 3], [4, 5, 6], [7, 8, 9], [10, 11, 12]];
    let samples = render_raster(2, 2, &colors);
    assert_eq!(samples, vec![1, 2, 3, 4, 5, 6, 7, 8, 9, 10, 11, 12]);
}

#[test]
fn render_raster_puts_each_pixel_at_its_position() {
    let width = 4u32;
    let height = 3u32;
    let positions = pixel_positions(width, height);
    let colors: Vec<[u8; 3]> = positions.iter().map(|&(x, y)| [x as u8, y as u8, 200]).collect();
    let samples = render_raster(width, height, &colors);
    assert_eq!(samples.len(), 36);
    for y in 0..height {
        for x in 0..width {
            let at = 3 * (y * width + x) as usize;
            assert_eq!(&samples[at..at + 3], &[x as u8, y as u8, 200]);
        }
    }
}

#[test]
fn render_raster_of_empty_image() {
    assert!(render_raster(0, 3, &vec![]).is_empty());
}
