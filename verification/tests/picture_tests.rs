use image::imageops::FilterType;
use image::{DynamicImage, GenericImageView};
use imgitor::picture::Picture;
use imgitor::transform::Crop;

/// The shrinking loop computed in floating point.
fn shrink_with_floats(mut img: DynamicImage) -> DynamicImage {
    while img.width() * img.height() > 500 * 1000 {
        let w = img.width() as f64;
        let h = img.height() as f64;
        img = img.resize(
            ((w * 0.9).round() as i64).try_into().unwrap(),
            ((h * 0.9).round() as i64).try_into().unwrap(),
            FilterType::CatmullRom,
        );
    }
    img
}

#[test]
fn picture_measures_its_image() {
    let p = Picture::new(DynamicImage::new_rgb8(30, 20));
    assert_eq!((p.width(), p.height()), (30, 20));
    assert_eq!(p.into_image().dimensions(), (30, 20));
}

#[test]
fn small_picture_is_not_shrunk() {
    let p = Picture::new(DynamicImage::new_rgb8(100, 100)).shrink().unwrap();
    assert_eq!((p.width(), p.height()), (100, 100));
    let q = Picture::new(DynamicImage::new_rgb8(1000, 500)).shrink().unwrap();
    assert_eq!((q.width(), q.height()), (1000, 500));
}

#[test]
fn large_picture_is_shrunk_once() {
    let p = Picture::new(DynamicImage::new_rgb8(1000, 520)).shrink().unwrap();
    assert_eq!((p.width(), p.height()), (900, 468));
    assert_eq!(p.into_image().dimensions(), (900, 468));
}

#[test]
fn shrinking_matches_float_loop() {
    for (w, h) in [(800u32, 800u32), (1500, 400), (333, 2000)] {
        let expected = shrink_with_floats(DynamicImage::new_rgb8(w, h)).dimensions();
        let p = Picture::new(DynamicImage::new_rgb8(w, h)).shrink().unwrap();
        assert_eq!((p.width(), p.height()), expected);
        assert!(p.width() * p.height() <= 500_000);
    }
}

#[test]
fn landscape_picture_is_split_in_halves() {
    let (left, right, plan) = Picture::new(DynamicImage::new_rgb8(41, 10)).split("p.png").unwrap();
    assert_eq!(plan.left, Crop { x: 0, y: 0, width: 20, height: 10 });
    assert_eq!(plan.right, Crop { x: 20, y: 0, width: 20, height: 10 });
    assert_eq!(plan.left_path, "p.png.split.left.webp");
    assert_eq!((left.width(), left.height()), (20, 10));
    assert_eq!(right.into_image().dimensions(), (20, 10));
}

#[test]
fn split_halves_carry_the_pixels() {
    let mut img = image::RgbImage::new(4, 1);
    img.put_pixel(0, 0, image::Rgb([1, 0, 0]));
    img.put_pixel(2, 0, image::Rgb([2, 0, 0]));
    let (left, right, _) = Picture::new(DynamicImage::ImageRgb8(img)).split("q").unwrap();
    let l = left.into_image().into_rgb8();
    let r = right.into_image().into_rgb8();
    assert_eq!(l.get_pixel(0, 0), &image::Rgb([1, 0, 0]));
    assert_eq!(r.get_pixel(0, 0), &image::Rgb([2, 0, 0]));
}

#[test]
fn portrait_picture_is_not_split() {
    assert!(Picture::new(DynamicImage::new_rgb8(10, 41)).split("p.png").is_none());
    assert!(Picture::new(DynamicImage::new_rgb8(10, 10)).split("p.png").is_none());
}
