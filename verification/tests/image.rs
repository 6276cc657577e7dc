use lunar_png::{Image, ImageType};

fn img(img_type: ImageType, data: Vec<u8>) -> Image {
    Image { width: 2, height: 1, img_type, data }
}

#[test]
fn sixteen_bit_types() {
    for t in [ImageType::R16, ImageType::Ra16, ImageType::Rgb16, ImageType::Rgba16] {
        assert!(t.is_16_bit());
    }
    for t in [ImageType::R8, ImageType::Ra8, ImageType::Rgb8, ImageType::Rgba8] {
        assert!(!t.is_16_bit());
    }
}

#[test]
fn add_alpha_each_type() {
    let mut i = img(ImageType::R8, vec![1, 2]);
    i.add_alpha();
    assert_eq!(i, img(ImageType::Ra8, vec![1, 255, 2, 255]));

    let mut i = img(ImageType::R16, vec![1, 2, 3, 4]);
    i.add_alpha();
    assert_eq!(i, img(ImageType::Ra16, vec![1, 2, 255, 255, 3, 4, 255, 255]));

    let mut i = img(ImageType::Rgb8, vec![1, 2, 3, 4, 5, 6]);
    i.add_alpha();
    assert_eq!(i, img(ImageType::Rgba8, vec![1, 2, 3, 255, 4, 5, 6, 255]));

    let mut i = img(ImageType::Rgb16, vec![1, 2, 3, 4, 5, 6]);
    i.add_alpha();
    assert_eq!(i, img(ImageType::Rgba16, vec![1, 2, 3, 4, 5, 6, 255, 255]));
}

#[test]
fn add_alpha_keeps_alpha_images() {
    for t in [ImageType::Ra8, ImageType::Ra16, ImageType::Rgba8, ImageType::Rgba16] {
        let mut i = img(t, vec![1, 2, 3, 4, 5, 6, 7, 8]);
        i.add_alpha();
        assert_eq!(i, img(t, vec![1, 2, 3, 4, 5, 6, 7, 8]));
    }
}

#[test]
fn strip_alpha_each_type() {
    let mut i = img(ImageType::Ra8, vec![1, 9, 2, 9]);
    i.strip_alpha();
    assert_eq!(i, img(ImageType::R8, vec![1, 2]));

    let mut i = img(ImageType::Ra16, vec![1, 2, 9, 9, 3, 4, 9, 9]);
    i.strip_alpha();
    assert_eq!(i, img(ImageType::R16, vec![1, 2, 3, 4]));

    let mut i = img(ImageType::Rgba8, vec![1, 2, 3, 9]);
    i.strip_alpha();
    assert_eq!(i, img(ImageType::Rgb8, vec![1, 2, 3]));

    let mut i = img(ImageType::Rgba16, vec![1, 2, 3, 4, 5, 6, 9, 9]);
    i.strip_alpha();
    assert_eq!(i, img(ImageType::Rgb16, vec![1, 2, 3, 4, 5, 6]));
}

#[test]
fn strip_alpha_trailing_partial_pixel() {
    let mut i = img(ImageType::Ra8, vec![1, 9, 2]);
    i.strip_alpha();
    assert_eq!(i, img(ImageType::R8, vec![1, 2]));

    let mut i = img(ImageType::Rgba8, vec![1, 2, 3, 9, 4, 5, 6]);
    i.strip_alpha();
    assert_eq!(i, img(ImageType::Rgb8, vec![1, 2, 3, 4, 5, 6]));
}

#[test]
fn strip_alpha_keeps_opaque_images() {
    for t in [ImageType::R8, ImageType::R16, ImageType::Rgb8, ImageType::Rgb16] {
        let mut i = img(t, vec![1, 2, 3, 4, 5, 6]);
        i.strip_alpha();
        assert_eq!(i, img(t, vec![1, 2, 3, 4, 5, 6]));
    }
}

#[test]
fn add_channels_each_type() {
    let mut i = img(ImageType::R8, vec![5, 6]);
    i.add_channels();
    assert_eq!(i, img(ImageType::Rgb8, vec![5, 5, 5, 6, 6, 6]));

    let mut i = img(ImageType::R16, vec![1, 2]);
    i.add_channels();
    assert_eq!(i, img(ImageType::Rgb16, vec![1, 2, 1, 2, 1, 2]));

    let mut i = img(ImageType::Ra8, vec![5, 9]);
    i.add_channels();
    assert_eq!(i, img(ImageType::Rgba8, vec![5, 5, 5, 9]));

    let mut i = img(ImageType::Ra16, vec![1, 2, 3, 4]);
    i.add_channels();
    assert_eq!(i, img(ImageType::Rgba16, vec![1, 2, 1, 2, 1, 2, 3, 4]));
}

#[test]
fn add_channels_keeps_color_images() {
    for t in [ImageType::Rgb8, ImageType::Rgba8, ImageType::Rgb16, ImageType::Rgba16] {
        let mut i = img(t, vec![1, 2, 3, 4, 5, 6, 7, 8]);
        i.add_channels();
        assert_eq!(i, img(t, vec![1, 2, 3, 4, 5, 6, 7, 8]));
    }
}

#[test]
fn strip_alpha_undoes_add_alpha_example() {
    for (t, data) in [
        (ImageType::R8, vec![1, 2, 3]),
        (ImageType::R16, vec![1, 2, 3, 4]),
        (ImageType::Rgb8, vec![1, 2, 3, 4, 5, 6]),
        (ImageType::Rgb16, vec![1, 2, 3, 4, 5, 6]),
    ] {
        let original = img(t, data);
        let mut i = original.clone();
        i.add_alpha();
        i.strip_alpha();
        assert_eq!(i, original);
    }
}

#[test]
fn add_alpha_twice_example() {
    let mut once = img(ImageType::Rgb8, vec![1, 2, 3]);
    once.add_alpha();
    let mut twice = once.clone();
    twice.add_alpha();
    assert_eq!(once, twice);
}

#[test]
fn add_alpha_and_add_channels_commute_example() {
    for (t, data) in [
        (ImageType::R8, vec![1, 2]),
        (ImageType::R16, vec![1, 2, 3, 4]),
        (ImageType::Ra8, vec![1, 2, 3, 4]),
        (ImageType::Rgb8, vec![1, 2, 3]),
    ] {
        let mut x = img(t, data.clone());
        x.add_alpha();
        x.add_channels();
        let mut y = img(t, data);
        y.add_channels();
        y.add_alpha();
        assert_eq!(x, y);
    }
}

#[test]
fn conversions_keep_pixel_count_example() {
    let mut i = img(ImageType::R16, vec![0; 8]);
    i.add_channels();
    assert_eq!(i.data.len() / 6, 4);
    i.add_alpha();
    assert_eq!(i.data.len() / 8, 4);
    i.strip_alpha();
    assert_eq!(i.data.len() / 6, 4);
}
