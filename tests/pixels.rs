use glint::pixel::camera_row;
use glint::seed::pixel_seed;

#[test]
fn camera_row_flips_top_to_bottom() {
    assert_eq!(camera_row(0, 800), 800);
    assert_eq!(camera_row(799, 800), 1);
    assert_eq!(camera_row(300, 800), 500);
}

#[test]
fn pixel_seed_known_values() {
    // index 1 from seed 0 is the first output of the SplitMix64 sequence
    assert_eq!(pixel_seed(0, 1, 0, 1), 16294208416658607535);
    assert_eq!(pixel_seed(42, 3, 2, 10), 11064657849904403925);
    assert_eq!(pixel_seed(42, 0, 0, 10), 12058926934050108962);
    assert_eq!(pixel_seed(7, u32::MAX, u32::MAX, u32::MAX), 9225227799696503897);
}

#[test]
fn pixel_seed_is_reproducible() {
    assert_eq!(pixel_seed(2024, 17, 5, 64), pixel_seed(2024, 17, 5, 64));
}

#[test]
fn pixel_seeds_differ_across_small_image() {
    let width = 16u32;
    let mut seen = Vec::new();
    for row in 0..12u32 {
        for column in 0..width {
            seen.push(pixel_seed(99, column, row, width));
        }
    }
    let mut sorted = seen.clone();
    sorted.sort();
    sorted.dedup();
    assert_eq!(sorted.len(), seen.len());
}

#[test]
fn pixel_seed_depends_on_render_seed() {
    assert_ne!(pixel_seed(1, 3, 4, 10), pixel_seed(2, 3, 4, 10));
}
