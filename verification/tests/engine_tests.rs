use imgpipe::engine::{Image, OutputFormat, Photon, StructuralError};
use imgpipe::ops::{Crop, Filter, Resize, ResizeType, SampleFilter, Spec, SpecData};

fn solid(width: u32, height: u32, rgba: [u8; 4]) -> Image {
    let mut pixels = Vec::new();
    for _ in 0..(width as usize * height as usize) {
        pixels.extend_from_slice(&rgba);
    }
    Image::from_raw(width, height, pixels).unwrap()
}

fn small_watermark() -> Image {
    solid(4, 4, [255, 0, 0, 255])
}

#[test]
fn from_raw_checks_the_length() {
    assert!(Image::from_raw(2, 2, vec![0; 16]).is_some());
    assert!(Image::from_raw(2, 2, vec![0; 15]).is_none());
    assert!(Image::from_raw(0, 0, vec![]).is_some());
}

#[test]
fn resize_then_gray_and_gray_then_resize_agree_on_the_result() {
    // Two columns, red then blue, so the grayscale has something to do.
    let mut pixels = Vec::new();
    for _row in 0..20 {
        for col in 0..20 {
            if col < 10 {
                pixels.extend_from_slice(&[200, 10, 10, 255]);
            } else {
                pixels.extend_from_slice(&[10, 10, 200, 255]);
            }
        }
    }
    let img = Image::from_raw(20, 20, pixels).unwrap();

    let ops_a = vec![
        Spec::new_resize(100, 100, SampleFilter::Nearest),
        Spec { data: Some(SpecData::Gray) },
    ];
    let ops_b = vec![
        Spec { data: Some(SpecData::Gray) },
        Spec::new_resize(100, 100, SampleFilter::Nearest),
    ];

    let mut ea = Photon::new(img.clone(), small_watermark());
    ea.apply(&ops_a).unwrap();
    let mut eb = Photon::new(img, small_watermark());
    eb.apply(&ops_b).unwrap();

    assert_eq!(ea.img.width, 100);
    assert_eq!(ea.img.height, 100);
    assert_eq!(eb.img.width, 100);
    assert_eq!(eb.img.height, 100);
    for p in ea.img.pixels.chunks(4) {
        assert_eq!(p[0], p[1]);
        assert_eq!(p[1], p[2]);
    }
    for p in eb.img.pixels.chunks(4) {
        assert_eq!(p[0], p[1]);
        assert_eq!(p[1], p[2]);
    }
}

#[test]
fn resize_after_crop_sees_only_the_cropped_region() {
    // Left half red, right half blue; crop the left half, then shrink.
    let mut pixels = Vec::new();
    for _row in 0..60 {
        for col in 0..60 {
            if col < 30 {
                pixels.extend_from_slice(&[255, 0, 0, 255]);
            } else {
                pixels.extend_from_slice(&[0, 0, 255, 255]);
            }
        }
    }
    let img = Image::from_raw(60, 60, pixels).unwrap();
    let ops = vec![
        Spec { data: Some(SpecData::Crop(Crop { x1: 0, y1: 0, x2: 30, y2: 60 })) },
        Spec::new_resize(10, 10, SampleFilter::Nearest),
    ];
    let mut engine = Photon::new(img, small_watermark());
    engine.apply(&ops).unwrap();
    assert_eq!(engine.img.width, 10);
    assert_eq!(engine.img.height, 10);
    for p in engine.img.pixels.chunks(4) {
        assert_eq!(p[0], 255);
        assert_eq!(p[2], 0);
    }
}

#[test]
fn crop_takes_the_exact_rectangle() {
    // A 3x2 picture with distinct pixels; crop the middle column.
    let pixels = vec![
        1, 1, 1, 255, 2, 2, 2, 255, 3, 3, 3, 255, //
        4, 4, 4, 255, 5, 5, 5, 255, 6, 6, 6, 255,
    ];
    let img = Image::from_raw(3, 2, pixels).unwrap();
    let mut engine = Photon::new(img, small_watermark());
    engine
        .transform_crop(&Crop { x1: 1, y1: 0, x2: 2, y2: 2 })
        .unwrap();
    assert_eq!(engine.img.width, 1);
    assert_eq!(engine.img.height, 2);
    assert_eq!(engine.img.pixels, vec![2, 2, 2, 255, 5, 5, 5, 255]);
}

#[test]
fn unspecified_filter_is_a_no_op() {
    let img = solid(8, 8, [12, 34, 56, 255]);
    let before = img.pixels.clone();
    let mut engine = Photon::new(img, small_watermark());
    engine.apply(&vec![Spec::new_filter(Filter::Unspecified)]).unwrap();
    assert_eq!(engine.img.pixels, before);
    assert_eq!(engine.img.width, 8);
    assert_eq!(engine.img.height, 8);
}

#[test]
fn marine_filter_changes_the_pixels() {
    let img = solid(8, 8, [200, 200, 200, 255]);
    let before = img.pixels.clone();
    let mut engine = Photon::new(img, small_watermark());
    engine.apply(&vec![Spec::new_filter(Filter::Marine)]).unwrap();
    assert_ne!(engine.img.pixels, before);
}

#[test]
fn contrast_changes_the_pixels() {
    let img = solid(8, 8, [100, 100, 100, 255]);
    let before = img.pixels.clone();
    let mut engine = Photon::new(img, small_watermark());
    engine
        .apply(&vec![Spec { data: Some(SpecData::Contrast(imgpipe::ops::Contrast {
            contrast: 100,
        })) }])
        .unwrap();
    assert_ne!(engine.img.pixels, before);
    assert_eq!(engine.img.pixels.len(), before.len());
}

#[test]
fn fliph_mirrors_the_columns() {
    let pixels = vec![1, 2, 3, 255, 9, 8, 7, 255];
    let img = Image::from_raw(2, 1, pixels).unwrap();
    let mut engine = Photon::new(img, small_watermark());
    engine.transform_fliph();
    assert_eq!(engine.img.pixels, vec![9, 8, 7, 255, 1, 2, 3, 255]);
}

#[test]
fn flipv_mirrors_the_rows() {
    let pixels = vec![1, 2, 3, 255, 9, 8, 7, 255];
    let img = Image::from_raw(1, 2, pixels).unwrap();
    let mut engine = Photon::new(img, small_watermark());
    engine.transform_flipv();
    assert_eq!(engine.img.pixels, vec![9, 8, 7, 255, 1, 2, 3, 255]);
}

#[test]
fn gray_averages_the_channels() {
    let img = solid(2, 2, [30, 60, 90, 255]);
    let mut engine = Photon::new(img, small_watermark());
    engine.transform_gray();
    for p in engine.img.pixels.chunks(4) {
        assert_eq!(p[0], p[1]);
        assert_eq!(p[1], p[2]);
        assert_eq!(p[3], 255);
    }
}

#[test]
fn invalid_crop_is_rejected_and_yields_no_output() {
    let img = solid(10, 10, [1, 2, 3, 255]);
    let mut engine = Photon::new(img, small_watermark());
    // Empty rectangle.
    let r = engine.apply(&vec![Spec { data: Some(SpecData::Crop(Crop {
        x1: 5,
        y1: 5,
        x2: 5,
        y2: 9,
    })) }]);
    assert_eq!(r.unwrap_err(), StructuralError::BadCrop);
    // Rectangle leaving the picture.
    let r = engine.apply(&vec![Spec { data: Some(SpecData::Crop(Crop {
        x1: 0,
        y1: 0,
        x2: 11,
        y2: 5,
    })) }]);
    assert_eq!(r.unwrap_err(), StructuralError::BadCrop);
}

#[test]
fn zero_size_resize_is_rejected() {
    let img = solid(10, 10, [1, 2, 3, 255]);
    let mut engine = Photon::new(img, small_watermark());
    let op = Resize { width: 0, height: 5, rtype: ResizeType::Normal, filter: SampleFilter::Nearest };
    let r = engine.apply(&vec![Spec { data: Some(SpecData::Resize(op)) }]);
    assert_eq!(r.unwrap_err(), StructuralError::EmptyResize);
}

#[test]
fn seam_carve_clamps_to_current_dimensions() {
    let img = solid(10, 10, [50, 100, 150, 255]);
    let mut engine = Photon::new(img, small_watermark());
    engine.apply(&vec![Spec::new_resize_seam_carve(5, 6)]).unwrap();
    assert_eq!(engine.img.width, 5);
    assert_eq!(engine.img.height, 6);
    // A target beyond the current size only shrinks to the current size.
    let img = solid(10, 10, [50, 100, 150, 255]);
    let mut engine = Photon::new(img, small_watermark());
    engine.apply(&vec![Spec::new_resize_seam_carve(20, 20)]).unwrap();
    assert_eq!(engine.img.width, 10);
    assert_eq!(engine.img.height, 10);
}

#[test]
fn seam_carve_of_a_degenerate_picture_is_empty_and_does_not_fail() {
    // A well-formed picture with no rows has no seams; the clamped target
    // keeps the zero dimension and the buffer stays empty.
    let img = Image::from_raw(10, 0, vec![]).unwrap();
    let mut engine = Photon::new(img, small_watermark());
    engine.apply(&vec![Spec::new_resize_seam_carve(5, 5)]).unwrap();
    assert_eq!(engine.img.width, 5);
    assert_eq!(engine.img.height, 0);
    assert_eq!(engine.img.pixels.len(), 0);
}

#[test]
fn watermark_partial_overlap_touches_only_the_covered_corner() {
    let img = solid(10, 10, [255, 255, 255, 255]);
    let mut engine = Photon::new(img, small_watermark());
    engine.apply(&vec![Spec::new_watermark(8, 8)]).unwrap();
    assert_eq!(engine.img.width, 10);
    assert_eq!(engine.img.height, 10);
    let px = &engine.img.pixels;
    let mut changed = 0;
    for row in 0..10u32 {
        for col in 0..10u32 {
            let i = (4 * (row * 10 + col)) as usize;
            let p = [px[i], px[i + 1], px[i + 2], px[i + 3]];
            if row >= 8 && col >= 8 {
                if p != [255, 255, 255, 255] {
                    changed += 1;
                }
            } else {
                assert_eq!(p, [255, 255, 255, 255]);
            }
        }
    }
    assert!(changed > 0);
}

#[test]
fn watermark_wholly_outside_changes_nothing() {
    let img = solid(6, 6, [9, 9, 9, 255]);
    let before = img.pixels.clone();
    let mut engine = Photon::new(img, small_watermark());
    engine.apply(&vec![Spec::new_watermark(100, 100)]).unwrap();
    assert_eq!(engine.img.pixels, before);
}

#[test]
fn png_round_trip_through_generate() {
    let img = solid(3, 2, [10, 20, 30, 255]);
    let expected = img.pixels.clone();
    let engine = Photon::new(img, small_watermark());
    let bytes = engine.generate(OutputFormat::Png).unwrap();
    let engine2 = Photon::try_from_bytes(&bytes, small_watermark()).unwrap();
    assert_eq!(engine2.img.width, 3);
    assert_eq!(engine2.img.height, 2);
    assert_eq!(engine2.img.pixels, expected);
}

#[test]
fn bad_picture_bytes_are_rejected() {
    let junk = vec![1, 2, 3, 4, 5];
    assert!(Photon::try_from_bytes(&junk, small_watermark()).is_err());
}
