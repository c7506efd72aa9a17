use image_viewer::raster::Raster;
use image_viewer::threshold::{
    average_level, find_segment, segmented_level, threshold_pixel, threshold_raster,
};

fn gray(v: u8) -> (u8, u8, u8, u8) {
    (v, v, v, 255)
}

#[test]
fn find_segment_takes_the_first_stop_not_exceeded() {
    let stops = vec![50, 100, 150];
    assert_eq!(find_segment(&stops, 0), 0);
    assert_eq!(find_segment(&stops, 50), 0);
    assert_eq!(find_segment(&stops, 51), 1);
    assert_eq!(find_segment(&stops, 100), 1);
    assert_eq!(find_segment(&stops, 101), 2);
    assert_eq!(find_segment(&stops, 150), 2);
    assert_eq!(find_segment(&stops, 151), 3);
    assert_eq!(find_segment(&stops, 255), 3);
}

#[test]
fn find_segment_without_stops() {
    assert_eq!(find_segment(&Vec::new(), 0), 0);
    assert_eq!(find_segment(&Vec::new(), 255), 0);
}

#[test]
fn segmented_mode_with_one_stop_splits_at_the_stop() {
    let stops = vec![128];
    for g in 0..=255u8 {
        let expected = if g <= 128 { 0 } else { 255 };
        assert_eq!(segmented_level(&stops, g), expected);
        assert_eq!(threshold_pixel(&stops, false, gray(g)), gray(expected));
    }
}

#[test]
fn segmented_mode_spreads_the_inner_segments() {
    let stops = vec![50, 100, 150];
    assert_eq!(segmented_level(&stops, 10), 0);
    assert_eq!(segmented_level(&stops, 50), 0);
    assert_eq!(segmented_level(&stops, 51), 85);
    assert_eq!(segmented_level(&stops, 100), 85);
    assert_eq!(segmented_level(&stops, 101), 170);
    assert_eq!(segmented_level(&stops, 150), 170);
    assert_eq!(segmented_level(&stops, 151), 255);
}

#[test]
fn segmented_mode_truncates_the_inner_levels() {
    // 255 * 3 / 4 = 191.25
    let stops = vec![64, 128, 192, 255];
    assert_eq!(segmented_level(&stops, 65), 63);
    assert_eq!(segmented_level(&stops, 129), 127);
    assert_eq!(segmented_level(&stops, 193), 191);
    assert_eq!(segmented_level(&stops, 255), 191);
}

#[test]
fn segmented_mode_without_stops_is_the_middle() {
    assert_eq!(segmented_level(&Vec::new(), 0), 128);
    assert_eq!(segmented_level(&Vec::new(), 255), 128);
}

#[test]
fn average_mode_takes_the_midpoint_of_the_segment() {
    let stops = vec![100, 200];
    assert_eq!(average_level(&stops, 50), 50);
    assert_eq!(average_level(&stops, 150), 150);
    assert_eq!(average_level(&stops, 230), 227);
    assert_eq!(threshold_pixel(&stops, true, gray(50)), gray(50));
    assert_eq!(threshold_pixel(&stops, true, gray(150)), gray(150));
    assert_eq!(threshold_pixel(&stops, true, gray(230)), gray(227));
}

#[test]
fn average_mode_at_the_stops() {
    let stops = vec![100, 200];
    assert_eq!(average_level(&stops, 0), 50);
    assert_eq!(average_level(&stops, 100), 50);
    assert_eq!(average_level(&stops, 101), 150);
    assert_eq!(average_level(&stops, 200), 150);
    assert_eq!(average_level(&stops, 201), 227);
    assert_eq!(average_level(&stops, 255), 227);
}

#[test]
fn average_mode_with_one_stop() {
    let stops = vec![128];
    assert_eq!(average_level(&stops, 0), 64);
    assert_eq!(average_level(&stops, 128), 64);
    assert_eq!(average_level(&stops, 129), 191);
}

#[test]
fn average_mode_with_the_ends_of_the_range_as_stops() {
    assert_eq!(average_level(&vec![0], 0), 0);
    assert_eq!(average_level(&vec![0], 1), 127);
    assert_eq!(average_level(&vec![255], 255), 127);
    assert_eq!(average_level(&vec![1, 2], 2), 1);
}

#[test]
fn stops_are_taken_in_the_order_given() {
    let stops = vec![200, 100];
    assert_eq!(find_segment(&stops, 150), 0);
    assert_eq!(average_level(&stops, 150), 100);
    assert_eq!(find_segment(&stops, 201), 2);
    assert_eq!(average_level(&stops, 201), 177);
    assert_eq!(segmented_level(&stops, 201), 255);
}

#[test]
fn threshold_pixel_uses_the_luma() {
    let stops = vec![100];
    // luma 76 and luma 149
    assert_eq!(threshold_pixel(&stops, false, (255, 0, 0, 255)), gray(0));
    assert_eq!(threshold_pixel(&stops, false, (0, 255, 0, 255)), gray(255));
    assert_eq!(threshold_pixel(&stops, true, (255, 0, 0, 255)), gray(50));
    assert_eq!(threshold_pixel(&stops, true, (0, 255, 0, 255)), gray(177));
}

#[test]
fn threshold_pixel_clears_transparent_and_opens_the_rest() {
    let stops = vec![100, 200];
    for mode in [false, true] {
        for a in 0..=255u8 {
            let q = threshold_pixel(&stops, mode, (150, 150, 150, a));
            if a == 0 {
                assert_eq!(q, (0, 0, 0, 0));
            } else {
                assert_eq!(q.3, 255);
                assert_eq!(q.0, q.1);
                assert_eq!(q.1, q.2);
            }
        }
    }
}

#[test]
fn threshold_raster_maps_into_a_new_raster() {
    let data: Vec<u8> = vec![
        50, 50, 50, 255, 150, 150, 150, 9, 230, 230, 230, 255, //
        50, 50, 50, 0, 100, 100, 100, 255, 201, 201, 201, 1,
    ];
    let src = Raster::from_rgba(3, 2, &data).unwrap();
    let stops = vec![100, 200];
    let averaged = threshold_raster(&src, &stops, true);
    assert_eq!(
        averaged.to_rgba(),
        vec![
            50, 50, 50, 255, 150, 150, 150, 255, 227, 227, 227, 255, //
            0, 0, 0, 0, 50, 50, 50, 255, 227, 227, 227, 255,
        ]
    );
    let segmented = threshold_raster(&src, &stops, false);
    assert_eq!(
        segmented.to_rgba(),
        vec![
            0, 0, 0, 255, 127, 127, 127, 255, 255, 255, 255, 255, //
            0, 0, 0, 0, 0, 0, 0, 255, 255, 255, 255, 255,
        ]
    );
    assert_eq!(src.to_rgba(), data);
    assert_eq!((averaged.width(), averaged.height()), (3, 2));
}

#[test]
fn threshold_raster_of_an_empty_raster() {
    let src = Raster::new(0, 3).unwrap();
    let out = threshold_raster(&src, &vec![10], true);
    assert_eq!((out.width(), out.height()), (0, 3));
}
