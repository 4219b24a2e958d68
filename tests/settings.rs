use raytracer::settings::RenderSettings;

#[test]
fn settings_keep_valid_values() {
    let s = RenderSettings::new(1920, 1080, 100, 32);
    assert_eq!(s.image_width, 1920);
    assert_eq!(s.image_height, 1080);
    assert_eq!(s.num_samples, 100);
    assert_eq!(s.max_bounce_depth, 32);
}

#[test]
fn zero_height_becomes_one_row() {
    let s = RenderSettings::new(1, 0, 4, 8);
    assert_eq!(s.image_height, 1);
}

#[test]
fn zero_samples_become_one_sample() {
    let s = RenderSettings::new(2, 2, 0, 1);
    assert_eq!(s.num_samples, 1);
}

#[test]
fn zero_bounce_depth_is_kept() {
    let s = RenderSettings::new(2, 2, 1, 0);
    assert_eq!(s.max_bounce_depth, 0);
}

#[test]
fn pixel_count_of_largest_image() {
    assert_eq!(RenderSettings::new(1920, 1080, 1, 1).pixel_count(), 2_073_600);
    assert_eq!(
        RenderSettings::new(u32::MAX, u32::MAX, 1, 1).pixel_count(),
        (u32::MAX as u64) * (u32::MAX as u64)
    );
}
