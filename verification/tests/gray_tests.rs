use image_viewer::gray::gray_raster;
use image_viewer::raster::Raster;

#[test]
fn gray_raster_turns_every_pixel() {
    let data: Vec<u8> = vec![
        255, 0, 0, 255, 0, 255, 0, 10, //
        0, 0, 255, 0, 200, 100, 50, 1,
    ];
    let mut r = Raster::from_rgba(2, 2, &data).unwrap();
    gray_raster(&mut r);
    assert_eq!(
        r.to_rgba(),
        vec![
            76, 76, 76, 255, 149, 149, 149, 255, //
            0, 0, 0, 0, 124, 124, 124, 255,
        ]
    );
    assert_eq!((r.width(), r.height()), (2, 2));
}

#[test]
fn gray_raster_of_an_empty_raster() {
    let mut r = Raster::new(0, 0).unwrap();
    gray_raster(&mut r);
    assert_eq!((r.width(), r.height()), (0, 0));
}

#[test]
fn gray_raster_clears_transparent_and_opens_the_rest() {
    let mut data: Vec<u8> = Vec::new();
    for a in 0..=255u8 {
        data.extend_from_slice(&[10, 20, 30, a]);
    }
    let mut r = Raster::from_rgba(16, 16, &data).unwrap();
    gray_raster(&mut r);
    for i in 0..256u32 {
        let p = r.pixel(i % 16, i / 16).unwrap();
        if i == 0 {
            assert_eq!(p, (0, 0, 0, 0));
        } else {
            assert_eq!(p, (18, 18, 18, 255));
        }
    }
}

#[test]
fn gray_raster_twice_is_gray_raster_once() {
    let data: Vec<u8> = vec![9, 200, 31, 77, 1, 2, 3, 0, 250, 250, 100, 255];
    let mut once = Raster::from_rgba(3, 1, &data).unwrap();
    gray_raster(&mut once);
    let mut twice = once.clone();
    gray_raster(&mut twice);
    assert_eq!(twice.to_rgba(), once.to_rgba());
}
