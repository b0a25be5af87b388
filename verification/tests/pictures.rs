use epub_image_embedder::disk_cache::{encode_settings, DiskCacheError};
use epub_image_embedder::image_optimizer::{
    can_be_scaled, drop_opacity, encode_raster, image_format, load_and_transform, optimization_settings,
    optimize_image, rasterize, scaled_width, Format, ImageOptimizationSettings, OptimizationEvent,
    OptimizationState, OptimizeImageError, Raster, PICTURE_LIFETIME,
};
use image::{
    DynamicImage, GrayAlphaImage, GrayImage, ImageBuffer, ImageFormat, Luma, LumaA, Rgb, RgbImage,
    Rgba, RgbaImage,
};
use std::io::Cursor;

fn settings(is_grayscale: bool, max_width: Option<u32>) -> ImageOptimizationSettings {
    ImageOptimizationSettings { key: "k".to_string(), is_grayscale, max_width }
}

fn file(image: &DynamicImage, format: ImageFormat) -> Vec<u8> {
    let mut out = Cursor::new(Vec::new());
    image.write_to(&mut out, format).unwrap();
    out.into_inner()
}

fn grey(width: u32, height: u32) -> DynamicImage {
    GrayImage::from_fn(width, height, |x, y| Luma([(x * 37 + y * 11) as u8])).into()
}

fn colored(width: u32, height: u32) -> DynamicImage {
    RgbImage::from_fn(width, height, |x, y| Rgb([x as u8 * 9, y as u8 * 5, 200])).into()
}

fn written(state: OptimizationState) -> Vec<u8> {
    match state {
        OptimizationState::WriteCache { contents, settings } => {
            assert_eq!(settings.key, "k");
            contents
        }
        _ => panic!("nothing to keep"),
    }
}

#[test]
fn small_grey_png_keeps_every_sample() {
    let image = grey(5, 3);
    let png = file(&image, ImageFormat::Png);
    let contents = written(optimize_image(&png, settings(true, Some(5))));
    assert!(contents.starts_with(b"\x89PNG"));
    let back = image::load_from_memory(&contents).unwrap();
    assert_eq!(back.to_luma8().into_raw(), image.to_luma8().into_raw());
    assert_eq!((back.width(), back.height()), (5, 3));
}

#[test]
fn colored_png_becomes_grey() {
    let png = file(&colored(4, 4), ImageFormat::Png);
    let contents = written(optimize_image(&png, settings(true, None)));
    let back = image::load_from_memory(&contents).unwrap();
    assert_eq!(back.color().channel_count(), 1);
    assert_eq!(back.to_luma8().into_raw(), colored(4, 4).to_luma8().into_raw());
}

#[test]
fn colored_png_keeps_its_colors_where_the_device_shows_them() {
    let png = file(&colored(4, 4), ImageFormat::Png);
    let contents = written(optimize_image(&png, settings(false, None)));
    let back = image::load_from_memory(&contents).unwrap();
    assert_eq!(back.to_rgb8().into_raw(), colored(4, 4).to_rgb8().into_raw());
}

#[test]
fn wide_png_is_scaled_down() {
    let png = file(&grey(10, 6), ImageFormat::Png);
    let state = optimize_image(&png, settings(true, Some(5)));
    match &state {
        OptimizationState::Scale { picture, format, width, .. } => {
            assert_eq!((picture.width(), picture.height()), (10, 6));
            assert_eq!(*format, Format::Png);
            assert_eq!(*width, 5);
        }
        _ => panic!("not scaled"),
    }
    let contents = written(state.step(OptimizationEvent::Height(3)));
    let back = image::load_from_memory(&contents).unwrap();
    assert_eq!((back.width(), back.height()), (5, 3));
}

/// A picture whose four quarters differ in color.
fn quarters(side: u32) -> DynamicImage {
    RgbImage::from_fn(side, side, |x, y| match (x < side / 2, y < side / 2) {
        (true, true) => Rgb([40, 40, 40]),
        (false, true) => Rgb([210, 210, 210]),
        (true, false) => Rgb([90, 90, 90]),
        (false, false) => Rgb([10, 130, 250]),
    })
    .into()
}

#[test]
fn even_regions_keep_their_shade_at_their_place() {
    let png = file(&quarters(400), ImageFormat::Png);
    let state = optimize_image(&png, settings(true, Some(100)));
    let contents = written(state.step(OptimizationEvent::Height(80)));
    let back = image::load_from_memory(&contents).unwrap().to_luma8();
    assert_eq!(back.dimensions(), (100, 80));
    for (x, y, shade) in [(0, 0, 40), (44, 34, 40), (99, 0, 210), (56, 34, 210), (0, 79, 90)] {
        assert!(back.get_pixel(x, y).0[0].abs_diff(shade) <= 2, "{} {}", x, y);
    }
}

#[test]
fn even_regions_keep_their_color_at_their_place() {
    let png = file(&quarters(300), ImageFormat::Png);
    let state = optimize_image(&png, settings(false, Some(60)));
    let contents = written(state.step(OptimizationEvent::Height(600)));
    let back = image::load_from_memory(&contents).unwrap().to_rgba8();
    let expected = [
        (2, 3, [40u8, 40, 40, 255]),
        (57, 280, [210, 210, 210, 255]),
        (5, 590, [90, 90, 90, 255]),
        (58, 400, [10, 130, 250, 255]),
    ];
    for (x, y, color) in expected {
        for (sample, value) in back.get_pixel(x, y).0.iter().zip(color) {
            assert!(sample.abs_diff(value) <= 1, "{} {}", x, y);
        }
    }
}

#[test]
fn samples_of_sixteen_bits_are_rounded_to_eight() {
    let samples: Vec<u16> = (0..=u16::MAX).collect();
    let image = DynamicImage::ImageLuma16(ImageBuffer::from_raw(256, 256, samples).unwrap());
    let rounded = |sample: u32| ((sample + 128) / 257) as u8;
    let grey = rasterize(&image, true).samples;
    let colored = rasterize(&image, false).samples;
    for sample in 0..=0xffffu32 {
        let at = sample as usize;
        let value = rounded(sample);
        assert_eq!(grey[at], value);
        assert_eq!(colored[at * 4..at * 4 + 4], [value, value, value, 255]);
    }
    let pixel = LumaA([1000u16, 60000]);
    let image = DynamicImage::ImageLumaA16(ImageBuffer::from_pixel(1, 1, pixel));
    assert_eq!(rasterize(&image, true).samples, vec![rounded(1000)]);
    let value = rounded(1000);
    assert_eq!(rasterize(&image, false).samples, vec![value, value, value, rounded(60000)]);
    let pixel = Rgba([1000u16, 20000, 65535, 300]);
    let image = DynamicImage::ImageRgba16(ImageBuffer::from_pixel(1, 1, pixel));
    assert_eq!(
        rasterize(&image, false).samples,
        vec![rounded(1000), rounded(20000), 255, rounded(300)]
    );
    let sum = 2126 * 1000 + 7152 * 20000 + 722 * 65535u32;
    let brightness = u32::from(rasterize(&image, true).samples[0]);
    assert!((2570000 * brightness).abs_diff(sum) <= 2570000);
}

#[test]
fn grey_of_eight_bits_becomes_colored() {
    let samples: Vec<u8> = (0..=u8::MAX).collect();
    let image = DynamicImage::ImageLuma8(ImageBuffer::from_raw(16, 16, samples).unwrap());
    for (value, pixel) in rasterize(&image, false).samples.chunks(4).enumerate() {
        let value = value as u8;
        assert_eq!(pixel, [value, value, value, 255]);
    }
}

#[test]
fn uniform_picture_keeps_its_color_when_it_is_scaled() {
    for (width, height, new_width, new_height) in [(2560, 1000, 10, 4), (30, 7, 29, 40)] {
        let image: DynamicImage = RgbImage::from_pixel(width, height, Rgb([200, 100, 50])).into();
        let png = file(&image, ImageFormat::Png);
        let state = optimize_image(&png, settings(false, Some(new_width)));
        let contents = written(state.step(OptimizationEvent::Height(new_height)));
        let back = image::load_from_memory(&contents).unwrap().to_rgba8();
        assert_eq!(back.dimensions(), (new_width, new_height));
        for pixel in back.pixels() {
            for (sample, value) in pixel.0.iter().zip([200u8, 100, 50, 255]) {
                assert!(sample.abs_diff(value) <= 1);
            }
        }
    }
}

#[test]
fn uniform_grey_keeps_its_shade_when_it_is_scaled() {
    let image: DynamicImage = RgbImage::from_pixel(64, 64, Rgb([130, 130, 130])).into();
    let state = optimize_image(&file(&image, ImageFormat::Png), settings(true, Some(9)));
    let back = image::load_from_memory(&written(state.step(OptimizationEvent::Height(9)))).unwrap();
    assert!(back.to_luma8().into_raw().iter().all(|sample| sample.abs_diff(130) <= 2));
}

#[test]
fn brightness_weighs_the_colors() {
    for red in (0..=255u32).step_by(15) {
        for green in (0..=255u32).step_by(15) {
            for blue in (0..=255u32).step_by(15) {
                let pixel = Rgb([red as u8, green as u8, blue as u8]);
                let image: DynamicImage = RgbImage::from_pixel(1, 1, pixel).into();
                let brightness = u32::from(rasterize(&image, true).samples[0]);
                let sum = 2126 * red + 7152 * green + 722 * blue;
                assert!((10000 * brightness).abs_diff(sum) <= 10000);
            }
        }
    }
    let red: DynamicImage = RgbImage::from_pixel(1, 1, Rgb([255, 0, 0])).into();
    assert_eq!(rasterize(&red, true).samples, vec![54]);
}

#[test]
fn jpeg_is_handed_to_the_encoder() {
    let jpeg = file(&grey(8, 8), ImageFormat::Jpeg);
    match optimize_image(&jpeg, settings(true, Some(8))) {
        OptimizationState::Compress { raster, settings } => {
            assert_eq!((raster.width, raster.height), (8, 8));
            assert!(raster.is_grayscale);
            assert_eq!(raster.samples.len(), 64);
            assert_eq!(settings.max_width, Some(8));
        }
        _ => panic!("not compressed"),
    }
}

#[test]
fn colored_jpeg_is_handed_over_without_opacity() {
    let jpeg = file(&colored(8, 8), ImageFormat::Jpeg);
    let decoded = image::load_from_memory(&jpeg).unwrap();
    match optimize_image(&jpeg, settings(false, None)) {
        OptimizationState::Compress { raster, .. } => {
            assert!(!raster.is_grayscale);
            assert_eq!(raster.samples, decoded.to_rgb8().into_raw());
        }
        _ => panic!("not compressed"),
    }
}

#[test]
fn wide_jpeg_is_scaled_before_it_is_compressed() {
    let jpeg = file(&grey(16, 8), ImageFormat::Jpeg);
    let state = optimize_image(&jpeg, settings(true, Some(4)));
    match state.step(OptimizationEvent::Height(2)) {
        OptimizationState::Compress { raster, .. } => {
            assert_eq!((raster.width, raster.height), (4, 2));
            assert_eq!(raster.samples.len(), 8);
        }
        _ => panic!("not compressed"),
    }
}

#[test]
fn flat_picture_may_lose_its_height() {
    let jpeg = file(&grey(40, 1), ImageFormat::Jpeg);
    let state = optimize_image(&jpeg, settings(true, Some(4)));
    match state.step(OptimizationEvent::Height(0)) {
        OptimizationState::Compress { raster, .. } => {
            assert_eq!((raster.width, raster.height), (4, 0));
            assert_eq!(raster.samples.len(), 0);
        }
        _ => panic!("not compressed"),
    }
}

#[test]
fn other_formats_are_refused() {
    match optimize_image(b"GIF89a......", settings(true, None)) {
        OptimizationState::Done(Err(OptimizeImageError::UnsupportedImageFormat(mimetype))) => {
            assert_eq!(mimetype, "image/gif");
        }
        _ => panic!("not refused"),
    }
    match optimize_image(b"", settings(true, None)) {
        OptimizationState::Done(Err(OptimizeImageError::UnsupportedImageFormat(mimetype))) => {
            assert_eq!(mimetype, "");
        }
        _ => panic!("not refused"),
    }
}

#[test]
fn formats_go_by_the_media_type() {
    assert!(matches!(image_format(Some("image/png".to_string())), Ok(Format::Png)));
    assert!(matches!(image_format(Some("image/jpeg".to_string())), Ok(Format::Jpeg)));
    assert!(image_format(Some("image/webp".to_string())).is_err());
    assert!(image_format(None).is_err());
}

#[test]
fn broken_picture_is_an_error() {
    let mut png = file(&grey(5, 3), ImageFormat::Png);
    png.truncate(20);
    let state = optimize_image(&png, settings(true, None));
    assert!(matches!(state, OptimizationState::Done(Err(OptimizeImageError::ImageDecoding(_)))));
    let state = load_and_transform(b"no picture", Format::Jpeg, settings(true, None));
    assert!(matches!(state, OptimizationState::Done(Err(OptimizeImageError::ImageDecoding(_)))));
}

#[test]
fn cached_picture_needs_no_work() {
    let state = OptimizationState::start(b"no picture", settings(true, None));
    match state.step(OptimizationEvent::Cached(Ok(Some(vec![1, 2])))) {
        OptimizationState::Done(Ok(contents)) => assert_eq!(contents, vec![1, 2]),
        _ => panic!("not done"),
    }
}

#[test]
fn every_result_is_kept() {
    let png = file(&grey(5, 3), ImageFormat::Png);
    let state = OptimizationState::start(&png, settings(true, None));
    let state = state.step(OptimizationEvent::Cached(Ok(None)));
    let kept = match &state {
        OptimizationState::WriteCache { contents, .. } => contents.clone(),
        _ => panic!("not kept"),
    };
    match state.step(OptimizationEvent::Written(Ok(()))) {
        OptimizationState::Done(Ok(contents)) => assert_eq!(contents, kept),
        _ => panic!("not done"),
    }
    let again = OptimizationState::start(&png, settings(true, None));
    match again.step(OptimizationEvent::Cached(Ok(Some(kept.clone())))) {
        OptimizationState::Done(Ok(contents)) => assert_eq!(contents, kept),
        _ => panic!("not done"),
    }
}

#[test]
fn compressed_picture_is_kept() {
    let raster = || Raster { width: 1, height: 1, is_grayscale: true, samples: vec![7] };
    let state = encode_raster(raster(), Format::Jpeg, settings(true, Some(3)));
    let state = state.step(OptimizationEvent::Compressed(Some(Ok(vec![9, 9]))));
    assert_eq!(written(state), vec![9, 9]);
    let state = encode_raster(raster(), Format::Jpeg, settings(true, Some(3)));
    let error = std::io::Error::from(std::io::ErrorKind::Other);
    let state = state.step(OptimizationEvent::Compressed(Some(Err(error))));
    assert!(matches!(state, OptimizationState::Done(Err(OptimizeImageError::Io(_)))));
    let state = encode_raster(raster(), Format::Jpeg, settings(true, Some(3)));
    let state = state.step(OptimizationEvent::Compressed(None));
    assert!(matches!(state, OptimizationState::Done(Err(OptimizeImageError::Unknown))));
}

#[test]
fn errors_of_the_cache_end_the_work() {
    let error = || DiskCacheError::Io(std::io::Error::from(std::io::ErrorKind::Other));
    let state = OptimizationState::start(b"", settings(true, None));
    let state = state.step(OptimizationEvent::Cached(Err(error())));
    assert!(matches!(state, OptimizationState::Done(Err(OptimizeImageError::Cache(_)))));
    let state = OptimizationState::WriteCache { contents: vec![1], settings: settings(true, None) };
    let state = state.step(OptimizationEvent::Written(Err(error())));
    assert!(matches!(state, OptimizationState::Done(Err(OptimizeImageError::Cache(_)))));
}

#[test]
fn widths_shrink_and_never_grow() {
    assert_eq!(scaled_width(1000, Some(999)), Some(999));
    assert_eq!(scaled_width(1000, Some(1000)), None);
    assert_eq!(scaled_width(1000, Some(2000)), None);
    assert_eq!(scaled_width(1000, None), None);
}

#[test]
fn pages_limit_the_width() {
    let max_width = |displayed: Option<u32>| optimization_settings("p", displayed).max_width;
    assert_eq!(max_width(None), Some(1200));
    assert_eq!(max_width(Some(1201)), Some(1200));
    assert_eq!(max_width(Some(300)), Some(300));
    assert_eq!(max_width(Some(0)), Some(0));
    let settings = optimization_settings("p", None);
    assert_eq!(settings.key, "p");
    assert!(settings.is_grayscale);
}

#[test]
fn settings_are_the_key() {
    assert_eq!(
        settings(true, Some(5)).cache_key().unwrap(),
        encode_settings("k", true, Some(5)).unwrap()
    );
}

#[test]
fn opacity_is_dropped() {
    assert_eq!(drop_opacity(&[1, 2, 3, 4, 5, 6, 7, 8]), vec![1, 2, 3, 5, 6, 7]);
    assert_eq!(drop_opacity(&[1, 2, 3]), Vec::<u8>::new());
    assert_eq!(drop_opacity(&[]), Vec::<u8>::new());
}

#[test]
fn pictures_become_samples() {
    let image: DynamicImage = RgbaImage::from_pixel(1, 2, Rgba([10, 20, 30, 40])).into();
    let raster = rasterize(&image, false);
    assert_eq!(raster.samples, vec![10, 20, 30, 40, 10, 20, 30, 40]);
    let image: DynamicImage = RgbImage::from_pixel(2, 1, Rgb([1, 2, 3])).into();
    assert_eq!(rasterize(&image, false).samples, vec![1, 2, 3, 255, 1, 2, 3, 255]);
    assert_eq!((raster.width, raster.height), (1, 2));
    let image: DynamicImage = GrayAlphaImage::from_pixel(2, 1, LumaA([50, 60])).into();
    assert_eq!(rasterize(&image, true).samples, vec![50, 50]);
    let raster = rasterize(&grey(3, 1), true);
    assert_eq!(raster.samples, vec![0, 37, 74]);
    assert!(raster.is_grayscale);
}

#[test]
fn pictures_stay_in_the_cache_for_long() {
    assert_eq!(PICTURE_LIFETIME, 1_000_000_000);
}

#[test]
fn pictures_must_fit_into_memory_to_be_scaled() {
    let image = grey(10, 6);
    assert!(can_be_scaled(&image, 5, 3));
    assert!(can_be_scaled(&image, 0, 0));
    assert!(!can_be_scaled(&image, u32::MAX, u32::MAX));
    assert!(can_be_scaled(&image, 0x10_0000, 1));
    assert!(!can_be_scaled(&image, 0x10_0001, 1));
    assert!(!can_be_scaled(&image, 1, 0x10_0001));
}
