use image_processor::blur::{blur, default_iterations, default_radius, offset, process_image, Params};
use image_processor::mirror::{mirror, Params as MirrorParams};

#[test]
fn blur_offset_matches_row_major_layout() {
    assert_eq!(offset(3, 2, 1), 20);
    assert_eq!(offset(7, 0, 0), 0);
}

#[test]
fn blur_defaults_are_one() {
    assert_eq!(default_radius(), 1);
    assert_eq!(default_iterations(), 1);
    let p = Params::default();
    assert_eq!(p.radius, 0);
    assert_eq!(p.iterations, 0);
}

#[test]
fn blur_averages_over_the_clipped_window() {
    let mut data = vec![0, 3, 9, 255, 30, 6, 9, 255, 60, 9, 9, 255];
    blur(3, 1, &mut data, Params { radius: 1, iterations: 1 });
    assert_eq!(data, vec![15, 4, 9, 255, 30, 6, 9, 255, 45, 7, 9, 255]);
}

#[test]
fn blur_zero_iterations_makes_one_pass() {
    let mut once = vec![0, 3, 9, 255, 30, 6, 9, 255, 60, 9, 9, 255];
    let mut zero = once.clone();
    blur(3, 1, &mut once, Params { radius: 1, iterations: 1 });
    blur(3, 1, &mut zero, Params { radius: 1, iterations: 0 });
    assert_eq!(once, zero);
}

#[test]
fn blur_two_passes_use_the_first_result() {
    let mut data = vec![0, 0, 0, 0, 30, 0, 0, 0, 60, 0, 0, 0];
    blur(3, 1, &mut data, Params { radius: 1, iterations: 2 });
    // first pass: 15, 30, 45; second pass: 22, 30, 37
    assert_eq!(data, vec![22, 0, 0, 0, 30, 0, 0, 0, 37, 0, 0, 0]);
}

#[test]
fn blur_two_dimensional_window() {
    // 2x2 image, channel 0 holds 0, 10, 20, 30; radius 1 covers the whole image.
    let mut data = vec![0, 1, 2, 3, 10, 1, 2, 3, 20, 1, 2, 3, 30, 1, 2, 3];
    blur(2, 2, &mut data, Params { radius: 1, iterations: 1 });
    assert_eq!(data, vec![15, 1, 2, 3, 15, 1, 2, 3, 15, 1, 2, 3, 15, 1, 2, 3]);
}

#[test]
fn blur_with_zero_radius_changes_nothing() {
    let mut data: Vec<u8> = (0u8..36).collect();
    let before = data.clone();
    blur(3, 3, &mut data, Params { radius: 0, iterations: 5 });
    assert_eq!(data, before);
}

#[test]
fn blur_keeps_a_uniform_image() {
    let mut data: Vec<u8> = [12u8, 200, 7, 255].iter().cycle().take(4 * 12).cloned().collect();
    let before = data.clone();
    blur(4, 3, &mut data, Params { radius: 2, iterations: 3 });
    assert_eq!(data, before);
}

#[test]
fn blur_leaves_trailing_bytes_and_empty_images() {
    let mut data = vec![0, 0, 0, 0, 100, 100, 100, 100, 7, 8];
    blur(2, 1, &mut data, Params { radius: 1, iterations: 1 });
    assert_eq!(data, vec![50, 50, 50, 50, 50, 50, 50, 50, 7, 8]);
    let mut empty = vec![1, 2, 3];
    blur(0, 4, &mut empty, Params { radius: 3, iterations: 2 });
    assert_eq!(empty, vec![1, 2, 3]);
}

#[test]
fn blur_process_image_without_params_changes_nothing() {
    let mut rgba: Vec<u8> = (0u8..16).collect();
    let before = rgba.clone();
    process_image(2, 2, &mut rgba, None);
    assert_eq!(rgba, before);
}

#[test]
fn blur_process_image_applies_parsed_params() {
    let mut rgba = vec![0, 0, 0, 0, 30, 0, 0, 0, 60, 0, 0, 0];
    process_image(3, 1, &mut rgba, Some(Params { radius: 1, iterations: 1 }));
    assert_eq!(rgba, vec![15, 0, 0, 0, 30, 0, 0, 0, 45, 0, 0, 0]);
}

#[test]
fn blur_commutes_with_mirroring() {
    let image: Vec<u8> = (0u8..48).map(|v| v.wrapping_mul(37)).collect();
    for (horizontal, vertical) in [(true, false), (false, true), (true, true)] {
        let flips = MirrorParams { horizontal, vertical };
        let blur_params = Params { radius: 1, iterations: 2 };
        let mut mirrored_then_blurred = image.clone();
        mirror(4, 3, &mut mirrored_then_blurred, flips);
        blur(4, 3, &mut mirrored_then_blurred, blur_params);
        let mut blurred_then_mirrored = image.clone();
        blur(4, 3, &mut blurred_then_mirrored, blur_params);
        mirror(4, 3, &mut blurred_then_mirrored, flips);
        assert_eq!(mirrored_then_blurred, blurred_then_mirrored);
    }
}

#[test]
fn blur_passes_add_up() {
    let image: Vec<u8> = (0u8..36).map(|v| v.wrapping_mul(53)).collect();
    let mut stepwise = image.clone();
    blur(3, 3, &mut stepwise, Params { radius: 1, iterations: 2 });
    blur(3, 3, &mut stepwise, Params { radius: 1, iterations: 3 });
    let mut at_once = image.clone();
    blur(3, 3, &mut at_once, Params { radius: 1, iterations: 5 });
    assert_eq!(stepwise, at_once);
}
