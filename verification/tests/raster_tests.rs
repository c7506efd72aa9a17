use image_viewer::raster::Raster;

fn sample() -> Raster {
    // 3 columns, 2 rows
    let data: Vec<u8> = vec![
        1, 2, 3, 4, 5, 6, 7, 8, 9, 10, 11, 12, //
        13, 14, 15, 16, 17, 18, 19, 20, 21, 22, 23, 24,
    ];
    Raster::from_rgba(3, 2, &data).unwrap()
}

#[test]
fn new_raster_is_cleared() {
    let r = Raster::new(4, 3).unwrap();
    assert_eq!(r.width(), 4);
    assert_eq!(r.height(), 3);
    for y in 0..3 {
        for x in 0..4 {
            assert_eq!(r.pixel(x, y), Some((0, 0, 0, 0)));
        }
    }
}

#[test]
fn new_raster_may_be_empty() {
    let r = Raster::new(0, 5).unwrap();
    assert_eq!(r.width(), 0);
    assert_eq!(r.height(), 5);
    assert_eq!(r.pixel(0, 0), None);
    assert_eq!(r.to_rgba(), Vec::<u8>::new());
    let r = Raster::new(5, 0).unwrap();
    assert_eq!((r.width(), r.height()), (5, 0));
}

#[test]
fn new_raster_refuses_what_cannot_be_allocated() {
    assert!(Raster::new(u32::MAX, u32::MAX).is_none());
}

#[test]
fn pixel_reads_by_column_and_row() {
    let r = sample();
    assert_eq!(r.pixel(0, 0), Some((1, 2, 3, 4)));
    assert_eq!(r.pixel(2, 0), Some((9, 10, 11, 12)));
    assert_eq!(r.pixel(0, 1), Some((13, 14, 15, 16)));
    assert_eq!(r.pixel(2, 1), Some((21, 22, 23, 24)));
}

#[test]
fn pixel_outside_is_none() {
    let r = sample();
    assert_eq!(r.pixel(3, 0), None);
    assert_eq!(r.pixel(0, 2), None);
    assert_eq!(r.pixel(u32::MAX, u32::MAX), None);
}

#[test]
fn set_pixel_changes_one_pixel_only() {
    let mut r = sample();
    assert!(r.set_pixel(1, 1, (100, 101, 102, 103)));
    assert_eq!(r.pixel(1, 1), Some((100, 101, 102, 103)));
    assert_eq!(
        r.to_rgba(),
        vec![
            1, 2, 3, 4, 5, 6, 7, 8, 9, 10, 11, 12, //
            13, 14, 15, 16, 100, 101, 102, 103, 21, 22, 23, 24,
        ]
    );
    assert_eq!((r.width(), r.height()), (3, 2));
}

#[test]
fn set_pixel_outside_changes_nothing() {
    let mut r = sample();
    assert!(!r.set_pixel(3, 0, (9, 9, 9, 9)));
    assert!(!r.set_pixel(0, 2, (9, 9, 9, 9)));
    assert_eq!(r.to_rgba(), sample().to_rgba());
}

#[test]
fn from_rgba_wants_the_exact_length() {
    let data = vec![0u8; 24];
    assert!(Raster::from_rgba(3, 2, &data).is_some());
    assert!(Raster::from_rgba(2, 3, &data).is_some());
    assert!(Raster::from_rgba(3, 3, &data).is_none());
    assert!(Raster::from_rgba(2, 2, &data).is_none());
    assert!(Raster::from_rgba(0, 0, &data).is_none());
    assert!(Raster::from_rgba(0, 7, &Vec::new()).is_some());
}

#[test]
fn to_rgba_gives_back_what_from_rgba_took() {
    let data: Vec<u8> = (0..48).collect();
    let r = Raster::from_rgba(4, 3, &data).unwrap();
    assert_eq!(r.to_rgba(), data);
    assert_eq!(r.pixel(3, 2), Some((44, 45, 46, 47)));
    assert_eq!(r.pixel(1, 2), Some((36, 37, 38, 39)));
}

#[test]
fn clone_is_a_copy_of_its_own() {
    let original = sample();
    let mut copy = original.clone();
    assert_eq!(copy.to_rgba(), original.to_rgba());
    assert_eq!((copy.width(), copy.height()), (3, 2));
    assert!(copy.set_pixel(0, 0, (0, 0, 0, 0)));
    assert_eq!(original.pixel(0, 0), Some((1, 2, 3, 4)));
    assert_eq!(copy.pixel(0, 0), Some((0, 0, 0, 0)));
}

#[test]
fn bytes_are_laid_out_as_the_image_crate_lays_them_out() {
    let img = image::RgbaImage::from_fn(5, 4, |x, y| {
        image::Rgba([x as u8, y as u8, (x * 10 + y) as u8, 200])
    });
    let r = Raster::from_rgba(5, 4, img.as_raw()).unwrap();
    for y in 0..4 {
        for x in 0..5 {
            let p = img.get_pixel(x, y).0;
            assert_eq!(r.pixel(x, y), Some((p[0], p[1], p[2], p[3])));
        }
    }
    let back = image::RgbaImage::from_raw(5, 4, r.to_rgba()).unwrap();
    assert_eq!(back, img);
}
