use image_processor::mirror::{mirror, offset, process_image, Params};

#[test]
fn test_offset() {
    assert_eq!(offset(10, 0, 0), 0);
    assert_eq!(offset(10, 1, 0), 4);
    assert_eq!(offset(10, 0, 1), 40);
    assert_eq!(offset(10, 1, 1), 44);
}

#[test]
fn test_mirror_horizontal() {
    let width = 2;
    let height = 1;
    let mut data = vec![
        255, 0, 0, 255, // Red
        0, 255, 0, 255, // Green
    ];
    let params = Params { horizontal: true, vertical: false };
    mirror(width, height, &mut data, params);

    let expected = vec![
        0, 255, 0, 255, // Green
        255, 0, 0, 255, // Red
    ];
    assert_eq!(data, expected);
}

#[test]
fn test_mirror_vertical() {
    let width = 1;
    let height = 2;
    let mut data = vec![
        255, 0, 0, 255, // Red
        0, 255, 0, 255, // Green
    ];
    let params = Params { horizontal: false, vertical: true };
    mirror(width, height, &mut data, params);

    let expected = vec![
        0, 255, 0, 255, // Green
        255, 0, 0, 255, // Red
    ];
    assert_eq!(data, expected);
}

#[test]
fn test_mirror_both() {
    let width = 2;
    let height = 2;
    let mut data = vec![
        255, 0, 0, 255, // (0,0) Red
        0, 255, 0, 255, // (1,0) Green
        0, 0, 255, 255, // (0,1) Blue
        255, 255, 0, 255, // (1,1) Yellow
    ];
    let params = Params { horizontal: true, vertical: true };
    mirror(width, height, &mut data, params);

    let expected = vec![
        255, 255, 0, 255, // (0,0) <- (1,1)
        0, 0, 255, 255, // (1,0) <- (0,1)
        0, 255, 0, 255, // (0,1) <- (1,0)
        255, 0, 0, 255, // (1,1) <- (0,0)
    ];
    assert_eq!(data, expected);
}

#[test]
fn test_mirror_no_op() {
    let width = 2;
    let height = 1;
    let mut data = vec![255, 0, 0, 255, 0, 255, 0, 255];
    let before = data.clone();
    let params = Params { horizontal: false, vertical: false };
    mirror(width, height, &mut data, params);
    assert_eq!(data, before);
}

#[test]
fn mirror_twice_restores_the_image() {
    let mut data: Vec<u8> = (0u8..24).collect();
    let before = data.clone();
    let params = Params { horizontal: true, vertical: true };
    mirror(3, 2, &mut data, params);
    assert_ne!(data, before);
    mirror(3, 2, &mut data, params);
    assert_eq!(data, before);
}

#[test]
fn mirror_horizontal_then_vertical_equals_both() {
    let mut stepwise: Vec<u8> = (0u8..24).collect();
    let mut at_once = stepwise.clone();
    mirror(2, 3, &mut stepwise, Params { horizontal: true, vertical: false });
    mirror(2, 3, &mut stepwise, Params { horizontal: false, vertical: true });
    mirror(2, 3, &mut at_once, Params { horizontal: true, vertical: true });
    assert_eq!(stepwise, at_once);
}

#[test]
fn mirror_leaves_trailing_bytes() {
    let mut data = vec![1, 2, 3, 4, 5, 6, 7, 8, 9, 10];
    mirror(2, 1, &mut data, Params { horizontal: true, vertical: false });
    assert_eq!(data, vec![5, 6, 7, 8, 1, 2, 3, 4, 9, 10]);
}

#[test]
fn mirror_with_zero_extent_is_a_no_op() {
    let mut data = vec![1, 2, 3];
    mirror(0, 5, &mut data, Params { horizontal: true, vertical: true });
    assert_eq!(data, vec![1, 2, 3]);
}

#[test]
fn test_process_image_basic() {
    let width: u32 = 2;
    let height: u32 = 1;
    let mut rgba_data = vec![
        255, 0, 0, 255, // Red
        0, 255, 0, 255, // Green
    ];
    // The parameter text `{"horizontal": true}` reads as these parameters:
    // the flag it names is set, the missing one defaults to false.
    let params = Params { horizontal: true, vertical: false };
    process_image(width, height, &mut rgba_data, Some(params));

    let expected = vec![
        0, 255, 0, 255, // Green
        255, 0, 0, 255, // Red
    ];
    assert_eq!(rgba_data, expected);
}

#[test]
fn test_process_image_invalid_params() {
    let width: u32 = 2;
    let height: u32 = 1;
    let mut rgba_data = vec![255, 0, 0, 255, 0, 255, 0, 255];
    let before = rgba_data.clone();
    // The parameter text `{"invalid": "json"}` names neither flag, so both
    // default to false.
    let params = Params { horizontal: false, vertical: false };
    process_image(width, height, &mut rgba_data, Some(params));
    assert_eq!(rgba_data, before);
}

#[test]
fn process_image_without_params_changes_nothing() {
    let mut rgba = vec![255, 0, 0, 255, 0, 255, 0, 255];
    let before = rgba.clone();
    process_image(2, 1, &mut rgba, None);
    assert_eq!(rgba, before);
}

#[test]
fn process_image_with_overflowing_extents_changes_nothing() {
    if usize::BITS == 64 {
        let mut rgba = vec![1, 2, 3, 4];
        process_image(u32::MAX, u32::MAX, &mut rgba, Some(Params { horizontal: true, vertical: true }));
        assert_eq!(rgba, vec![1, 2, 3, 4]);
    }
}

#[test]
fn mirror_params_default_flips_nothing() {
    let p = Params::default();
    assert!(!p.horizontal);
    assert!(!p.vertical);
}
