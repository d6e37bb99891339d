use imgpipe::codec::DecodeError;
use imgpipe::ops::{Contrast, Crop, Filter, ImageSpec, Resize, ResizeType, SampleFilter, Spec,
    SpecData, Watermark};

#[test]
fn encode_spec_could_be_decoded() {
    let spec1 = Spec::new_resize(600, 600, SampleFilter::CatmullRom);
    let spec2 = Spec::new_filter(Filter::Marine);
    let image_spec = ImageSpec::new(vec![spec1, spec2]);
    let s: String = image_spec.encode();
    assert_eq!(image_spec, ImageSpec::decode(s.as_str()).unwrap());
}

#[test]
fn empty_pipeline_round_trips() {
    let image_spec = ImageSpec::new(vec![]);
    let s = image_spec.encode();
    assert_eq!(s, "");
    let back = ImageSpec::decode(s.as_str()).unwrap();
    assert_eq!(back.specs.len(), 0);
}

#[test]
fn every_variant_round_trips() {
    let specs = vec![
        Spec { data: None },
        Spec { data: Some(SpecData::Crop(Crop { x1: 1, y1: 2, x2: 3, y2: 4 })) },
        Spec { data: Some(SpecData::Contrast(Contrast { contrast: -10 })) },
        Spec { data: Some(SpecData::Gray) },
        Spec { data: Some(SpecData::Fliph) },
        Spec { data: Some(SpecData::Flipv) },
        Spec::new_filter(Filter::Unspecified),
        Spec::new_filter(Filter::Oceanic),
        Spec::new_filter(Filter::Islands),
        Spec::new_filter(Filter::Marine),
        Spec::new_resize(4096, 2160, SampleFilter::Lanczos3),
        Spec::new_resize_seam_carve(100, 50),
        Spec::new_watermark(20, 20),
        Spec { data: Some(SpecData::Watermark(Watermark { x: u32::MAX, y: 0 })) },
        Spec {
            data: Some(SpecData::Contrast(Contrast { contrast: i32::MIN })),
        },
        Spec {
            data: Some(SpecData::Contrast(Contrast { contrast: i32::MAX })),
        },
    ];
    let image_spec = ImageSpec::new(specs);
    let token = image_spec.encode();
    let back = ImageSpec::decode(token.as_str()).unwrap();
    assert_eq!(image_spec, back);
}

#[test]
fn equal_specs_give_equal_tokens() {
    let a = ImageSpec::new(vec![Spec::new_watermark(5, 6), Spec { data: Some(SpecData::Gray) }]);
    let b = ImageSpec::new(vec![Spec::new_watermark(5, 6), Spec { data: Some(SpecData::Gray) }]);
    assert_eq!(a.encode(), b.encode());
}

#[test]
fn gray_token_is_exact() {
    let image_spec = ImageSpec::new(vec![Spec { data: Some(SpecData::Gray) }]);
    assert_eq!(image_spec.encode(), "AwAAAAAAAAAAAAAAAAAAAAA");
    let back = ImageSpec::decode("AwAAAAAAAAAAAAAAAAAAAAA").unwrap();
    assert_eq!(back, image_spec);
}

#[test]
fn tokens_use_only_url_safe_characters() {
    let image_spec = ImageSpec::new(vec![
        Spec { data: Some(SpecData::Crop(Crop { x1: 0, y1: 0, x2: 1000, y2: 999 })) },
        Spec::new_resize(4096, 2160, SampleFilter::Lanczos3),
        Spec { data: Some(SpecData::Contrast(Contrast { contrast: -77 })) },
        Spec::new_watermark(u32::MAX, u32::MAX),
    ]);
    let token = image_spec.encode();
    for c in token.chars() {
        assert!(c.is_ascii_alphanumeric() || c == '-' || c == '_');
    }
}

#[test]
fn decode_rejects_non_alphabet_token() {
    assert_eq!(ImageSpec::decode("@@@!").unwrap_err(), DecodeError::Alphabet);
}

#[test]
fn decode_rejects_truncated_chunk() {
    // One operation chunk with its last byte cut off: sixteen bytes.
    assert_eq!(
        ImageSpec::decode("AwAAAAAAAAAAAAAAAAAAAA").unwrap_err(),
        DecodeError::Truncated
    );
}

#[test]
fn decode_rejects_unknown_tag() {
    // A chunk whose tag byte is 99.
    assert_eq!(
        ImageSpec::decode("YwAAAAAAAAAAAAAAAAAAAAA").unwrap_err(),
        DecodeError::UnknownTag
    );
}

#[test]
fn decode_rejects_zero_size_resize() {
    // A resize chunk asking for width zero.
    assert_eq!(
        ImageSpec::decode("BwAAAAAFAAAAAAAAAAEAAAA").unwrap_err(),
        DecodeError::BadValue
    );
}

#[test]
fn filter_to_str_names_the_catalog() {
    assert_eq!(Filter::Unspecified.to_str(), None);
    assert_eq!(Filter::Oceanic.to_str(), Some("oceanic"));
    assert_eq!(Filter::Islands.to_str(), Some("islands"));
    assert_eq!(Filter::Marine.to_str(), Some("marine"));
}

#[test]
fn constructors_fill_the_fields() {
    let s = Spec::new_resize(30, 40, SampleFilter::Gaussian);
    match s.data {
        Some(SpecData::Resize(r)) => {
            assert_eq!(r.width, 30);
            assert_eq!(r.height, 40);
            assert!(matches!(r.rtype, ResizeType::Normal));
            assert!(matches!(r.filter, SampleFilter::Gaussian));
        },
        _ => panic!("wrong variant"),
    }
    let s = Spec::new_resize_seam_carve(7, 8);
    match s.data {
        Some(SpecData::Resize(r)) => {
            assert_eq!(r.width, 7);
            assert_eq!(r.height, 8);
            assert!(matches!(r.rtype, ResizeType::SeamCarve));
        },
        _ => panic!("wrong variant"),
    }
    let s = Spec::new_watermark(3, 9);
    match s.data {
        Some(SpecData::Watermark(w)) => {
            assert_eq!(w.x, 3);
            assert_eq!(w.y, 9);
        },
        _ => panic!("wrong variant"),
    }
}
