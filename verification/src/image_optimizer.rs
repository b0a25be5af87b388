//! Making pictures smaller: they are scaled down to the width that is of use,
//! lose what the device cannot show, and are written anew.

use crate::disk_cache::{encode_settings, settings_bytes, DiskCacheError};
use crate::images::text_view;
use image::imageops::FilterType;
use image::DynamicImage;
use oxipng::{BitDepth, ColorType, Options, RawImage};
use vstd::prelude::*;

verus! {

#[verifier::external_type_specification]
#[verifier::external_body]
pub struct ExDynamicImage(image::DynamicImage);

#[verifier::external_type_specification]
#[verifier::external_body]
pub struct ExImageError(image::ImageError);

#[verifier::external_type_specification]
#[verifier::external_body]
pub struct ExPngError(oxipng::PngError);

#[verifier::external_type_specification]
#[verifier::external_body]
pub struct ExRawImage(oxipng::RawImage);

/// Why a picture could not be made smaller.
#[derive(Debug)]
pub enum OptimizeImageError {
    Io(std::io::Error),
    Unknown,
    /// The media type of the picture, empty where it is not known.
    UnsupportedImageFormat(String),
    Cache(DiskCacheError),
    ImageDecoding(image::ImageError),
    OxiPNG(oxipng::PngError),
}

/// The value of an [`OptimizeImageError`].
pub enum OptimizeImageErrorView {
    Io(std::io::Error),
    Unknown,
    UnsupportedImageFormat(Seq<char>),
    Cache(DiskCacheError),
    ImageDecoding(image::ImageError),
    OxiPNG(oxipng::PngError),
}

impl View for OptimizeImageError {
    type V = OptimizeImageErrorView;

    open spec fn view(&self) -> OptimizeImageErrorView {
        match *self {
            OptimizeImageError::Io(error) => OptimizeImageErrorView::Io(error),
            OptimizeImageError::Unknown => OptimizeImageErrorView::Unknown,
            OptimizeImageError::UnsupportedImageFormat(mimetype) =>
                OptimizeImageErrorView::UnsupportedImageFormat(mimetype@),
            OptimizeImageError::Cache(error) => OptimizeImageErrorView::Cache(error),
            OptimizeImageError::ImageDecoding(error) => OptimizeImageErrorView::ImageDecoding(
                error,
            ),
            OptimizeImageError::OxiPNG(error) => OptimizeImageErrorView::OxiPNG(error),
        }
    }
}

/// How a picture is to be made smaller.
pub struct ImageOptimizationSettings {
    /// What tells the picture from others.
    pub key: String,
    pub is_grayscale: bool,
    pub max_width: Option<u32>,
}

/// The value of [`ImageOptimizationSettings`].
pub struct ImageOptimizationSettingsView {
    pub key: Seq<char>,
    pub is_grayscale: bool,
    pub max_width: Option<u32>,
}

impl View for ImageOptimizationSettings {
    type V = ImageOptimizationSettingsView;

    open spec fn view(&self) -> ImageOptimizationSettingsView {
        ImageOptimizationSettingsView {
            key: self.key@,
            is_grayscale: self.is_grayscale,
            max_width: self.max_width,
        }
    }
}

/// The key of the row in which the smaller picture for some settings is kept.
pub open spec fn settings_key(settings: ImageOptimizationSettingsView) -> Seq<u8> {
    settings_bytes(settings.key, settings.is_grayscale, settings.max_width)
}

impl ImageOptimizationSettings {
    /// The key of the row in which the smaller picture is kept.
    pub fn cache_key(&self) -> (key: Result<Vec<u8>, DiskCacheError>)
        ensures
            key is Ok,
            key->Ok_0@ == settings_bytes(self@.key, self@.is_grayscale, self@.max_width),
            key->Ok_0@ == settings_key(self@),
    {
        encode_settings(self.key.as_str(), self.is_grayscale, self.max_width)
    }
}

/// The widest picture that is of use, in pixels.
pub const WIDEST: u32 = 1200;

/// The settings for a picture that a page shows at some width.
pub open spec fn settings_for(
    key: Seq<char>,
    displayed_width: Option<u32>,
) -> ImageOptimizationSettingsView {
    ImageOptimizationSettingsView {
        key: key,
        is_grayscale: true,
        max_width: Some(
            match displayed_width {
                Some(width) => if width < WIDEST {
                    width
                } else {
                    WIDEST
                },
                None => WIDEST,
            },
        ),
    }
}

/// Finds the settings for a picture that a page shows at some width.
pub fn optimization_settings(key: &str, displayed_width: Option<u32>) -> (settings:
    ImageOptimizationSettings)
    ensures
        settings@ == settings_for(key@, displayed_width),
{
    let max_width: u32 = match displayed_width {
        Some(width) => if width < WIDEST {
            width
        } else {
            WIDEST
        },
        None => WIDEST,
    };
    ImageOptimizationSettings {
        key: key.to_owned(),
        is_grayscale: true,
        max_width: Some(max_width),
    }
}

/// The media type of a file, as its first bytes give it away.
pub uninterp spec fn mime_of(contents: Seq<u8>) -> Option<Seq<char>>;

/// Calls `infer::get` and picks the media type.
#[verifier::external_body]
pub(crate) fn infer_mime(contents: &[u8]) -> (mimetype: Option<String>)
    ensures
        text_view(mimetype) == mime_of(contents@),
{
    infer::get(contents).map(|kind| kind.mime_type().to_string())
}

/// The formats in which pictures are written anew.
#[derive(Clone, Copy, Debug, PartialEq, Eq, Structural)]
pub enum Format {
    Png,
    Jpeg,
}

/// The format of a media type, `None` where pictures of it stay as they are.
pub open spec fn format_of(mimetype: Option<Seq<char>>) -> Option<Format> {
    match mimetype {
        Some(mimetype) => if mimetype == "image/png"@ {
            Some(Format::Png)
        } else if mimetype == "image/jpeg"@ {
            Some(Format::Jpeg)
        } else {
            None
        },
        None => None,
    }
}

/// Tells the format of a media type, or says that it has none.
pub fn image_format(mimetype: Option<String>) -> (format: Result<Format, OptimizeImageError>)
    ensures
        match format {
            Ok(format) => format_of(text_view(mimetype)) == Some(format),
            Err(error) => format_of(text_view(mimetype)) is None && error@
                == unsupported(text_view(mimetype)),
        },
{
    match mimetype {
        Some(mimetype) => if mimetype == "image/png".to_owned() {
            Ok(Format::Png)
        } else if mimetype == "image/jpeg".to_owned() {
            Ok(Format::Jpeg)
        } else {
            Err(OptimizeImageError::UnsupportedImageFormat(mimetype))
        },
        None => Err(OptimizeImageError::UnsupportedImageFormat(String::new())),
    }
}

/// The error for a picture that has no format.
pub open spec fn unsupported(mimetype: Option<Seq<char>>) -> OptimizeImageErrorView {
    OptimizeImageErrorView::UnsupportedImageFormat(
        match mimetype {
            Some(mimetype) => mimetype,
            None => Seq::empty(),
        },
    )
}

/// What a picture in memory holds.
pub struct PictureView {
    pub width: u32,
    pub height: u32,
    /// How many samples make a pixel. One is the brightness, two are the
    /// brightness and the opacity, three are red, green and blue, and with a
    /// fourth comes the opacity.
    pub channels: u8,
    /// How many bits a sample has.
    pub depth: u8,
    /// Whether its red, green and blue are those of sRGB.
    pub is_srgb: bool,
    /// The samples of its pixels, row by row. A fraction is given by its bits.
    pub samples: Seq<u32>,
}

/// How many samples an area has.
pub open spec fn sample_count(width: u32, height: u32, channels: int) -> int {
    width * height * channels
}

/// Whether a picture holds each sample and no more.
pub open spec fn is_whole(picture: PictureView) -> bool {
    picture.samples.len() == sample_count(
        picture.width,
        picture.height,
        picture.channels as int,
    )
}

/// What a picture in memory holds.
pub uninterp spec fn picture(image: DynamicImage) -> PictureView;

/// The picture in a file, or why it cannot be decoded.
pub uninterp spec fn decoded(contents: Seq<u8>) -> Result<PictureView, image::ImageError>;

/// Calls `image::load_from_memory`. What it gives holds each sample and no more,
/// and its colours are taken for those of sRGB.
#[verifier::external_body]
fn load_from_memory(contents: &[u8]) -> (loaded: Result<DynamicImage, image::ImageError>)
    ensures
        match loaded {
            Ok(image) => {
                &&& decoded(contents@) == Ok::<PictureView, image::ImageError>(picture(image))
                &&& is_whole(picture(image))
                &&& picture(image).is_srgb
            },
            Err(error) => decoded(contents@) == Err::<PictureView, image::ImageError>(error),
        },
{
    image::load_from_memory(contents)
}

/// `DynamicImage::width` is the width of the picture.
pub assume_specification[ DynamicImage::width ](image: &DynamicImage) -> (width: u32)
    ensures
        width == picture(*image).width,
;

/// `DynamicImage::height` is the height of the picture.
pub assume_specification[ DynamicImage::height ](image: &DynamicImage) -> (height: u32)
    ensures
        height == picture(*image).height,
;

/// The most pixels that a side of a picture may have when it is scaled. Up to
/// there the place of a pixel is known to a fraction of a pixel.
pub const LONGEST_SIDE: u32 = 0x10_0000;

/// Whether a picture can be scaled: no side is too long, before or after, and with
/// its own width and with the new one the picture fits into memory at its new
/// height, with four fractions to the pixel.
pub open spec fn is_scalable(picture: PictureView, width: u32, height: u32) -> bool {
    &&& picture.width <= LONGEST_SIDE
    &&& picture.height <= LONGEST_SIDE
    &&& width <= LONGEST_SIDE
    &&& height <= LONGEST_SIDE
    &&& sample_count(picture.width, height, 16) <= isize::MAX
    &&& sample_count(width, height, 16) <= isize::MAX
}

/// Tells whether a picture can be scaled.
pub fn can_be_scaled(image: &DynamicImage, width: u32, height: u32) -> (fits: bool)
    ensures
        fits == is_scalable(picture(*image), width, height),
{
    let widest: u32 = if image.width() < width {
        width
    } else {
        image.width()
    };
    if widest > LONGEST_SIDE || image.height() > LONGEST_SIDE || height > LONGEST_SIDE {
        return false;
    }
    proof {
        let own = picture(*image).width;
        assert(own * height * 16 <= widest * height * 16 && width * height * 16 <= widest * height
            * 16 && widest * height * 16 <= 0xffff_ffff * 0xffff_ffff * 16) by (nonlinear_arith)
            requires
                own <= widest,
                width <= widest,
        ;
    }
    widest as u128 * height as u128 * 16 <= isize::MAX as u128
}

/// Whether the samples of a picture are whole numbers of eight or sixteen bits.
pub open spec fn has_integers(picture: PictureView) -> bool {
    picture.depth == 8 || picture.depth == 16
}

/// A sample of so many bits in eight bits, rounded to the nearest.
pub open spec fn in_eight_bits(sample: u32, depth: u8) -> int {
    if depth == 16 {
        (sample + 128) / 257
    } else {
        sample as int
    }
}

/// The red, green, blue or opacity of a pixel in eight bits, which is what the
/// channels from zero to three stand for. Without colours the brightness stands
/// for all three, and what says nothing else is opaque.
pub open spec fn rgba_at(picture: PictureView, pixel: int, channel: int) -> int {
    let first = pixel * picture.channels;
    if channel < 3 {
        if picture.channels >= 3 {
            in_eight_bits(picture.samples[first + channel], picture.depth)
        } else {
            in_eight_bits(picture.samples[first], picture.depth)
        }
    } else if picture.channels % 2 == 0 {
        in_eight_bits(picture.samples[first + picture.channels - 1], picture.depth)
    } else {
        255
    }
}

/// Whether a pixel on a side is near the place that a pixel on the scaled side comes
/// from. That is within three pixels, as long as they are on the side that has
/// fewer, and two pixels more of the side before.
pub open spec fn is_near(at: int, size: u32, new_at: int, new_size: u32) -> bool {
    let longer = if size < new_size {
        new_size
    } else {
        size
    };
    let reach = 6 * longer + 4 * new_size;
    -reach <= (2 * at + 1) * new_size - (2 * new_at + 1) * size <= reach
}

/// Whether a channel of a picture has the same value in all pixels near the place
/// that a pixel of the scaled picture comes from.
pub open spec fn is_even_around(
    picture: PictureView,
    width: u32,
    height: u32,
    x: int,
    y: int,
    channel: int,
    value: int,
) -> bool {
    forall|i: int, j: int|
        0 <= i < picture.width && 0 <= j < picture.height && #[trigger] is_near(
            i,
            picture.width,
            x,
            width,
        ) && #[trigger] is_near(j, picture.height, y, height) ==> rgba_at(
            picture,
            j * picture.width + i,
            channel,
        ) == value
}

/// Whether a picture of whole numbers is scaled moderately: no side has more than
/// 65536 pixels, and none shrinks to less than a 256th.
pub open spec fn is_moderate(picture: PictureView, width: u32, height: u32) -> bool {
    &&& has_integers(picture)
    &&& 0 < picture.width <= 0x1_0000
    &&& 0 < picture.height <= 0x1_0000
    &&& width <= 0x1_0000
    &&& height <= 0x1_0000
    &&& picture.width <= 256 * width
    &&& picture.height <= 256 * height
}

/// Whether a picture is what another one can be scaled to: it has that size, and
/// red, green, blue and opacity of eight bits each. Where the scaling is moderate,
/// a channel that has the same value around a place keeps it there, give or take
/// one.
pub open spec fn is_scaled(
    scaled: PictureView,
    picture: PictureView,
    width: u32,
    height: u32,
) -> bool {
    &&& scaled.width == width
    &&& scaled.height == height
    &&& scaled.channels == 4
    &&& scaled.depth == 8
    &&& scaled.is_srgb
    &&& is_whole(scaled)
    &&& is_moderate(picture, width, height) ==> forall|
        x: int,
        y: int,
        channel: int,
        value: int,
    |
        0 <= x < width && 0 <= y < height && 0 <= channel < 4 && #[trigger] is_even_around(
            picture,
            width,
            height,
            x,
            y,
            channel,
            value,
        ) ==> value - 1 <= rgba_at(scaled, y * width + x, channel) <= value + 1
}

/// Calls `image::imageops::resize` with the Lanczos filter. A sample is a sum over
/// the samples near its place, with weights that are divided by their sum, so that
/// equal samples give their value again, as far as the sum is not too long for the
/// precision. What unequal samples give depends on the sines of the machine and is
/// left unsaid. On sides that are too long a place may be so far off that there is
/// no weight to divide by.
#[verifier::external_body]
fn resize(image: &DynamicImage, width: u32, height: u32) -> (resized: DynamicImage)
    requires
        is_scalable(picture(*image), width, height),
    ensures
        is_scaled(picture(resized), picture(*image), width, height),
{
    image::imageops::resize(image, width, height, FilterType::Lanczos3).into()
}

/// Whether a brightness of eight bits is that of a colour in sRGB with so many bits:
/// of red it takes 2126 parts in 10000, of green 7152 and of blue 722, rounded up
/// or down.
pub open spec fn is_brightness(
    brightness: u8,
    red: u32,
    green: u32,
    blue: u32,
    depth: u8,
) -> bool {
    let sum = 2126 * red + 7152 * green + 722 * blue;
    let one = if depth == 16 {
        2570000
    } else {
        10000int
    };
    sum - one <= one * brightness <= sum + one
}

/// Whether samples are the brightness of the pixels of a picture. What has no
/// colour keeps its brightness, and a colour in sRGB is weighted.
pub open spec fn is_luma_of(samples: Seq<u8>, picture: PictureView) -> bool {
    &&& samples.len() == sample_count(picture.width, picture.height, 1)
    &&& has_integers(picture) && picture.channels <= 2 ==> forall|i: int|
        0 <= i < samples.len() ==> (#[trigger] samples[i]) == in_eight_bits(
            picture.samples[i * picture.channels],
            picture.depth,
        )
    &&& has_integers(picture) && picture.channels >= 3 && picture.is_srgb ==> forall|i: int|
        0 <= i < samples.len() ==> is_brightness(
            #[trigger] samples[i],
            picture.samples[i * picture.channels],
            picture.samples[i * picture.channels + 1],
            picture.samples[i * picture.channels + 2],
            picture.depth,
        )
}

/// Calls `DynamicImage::to_luma8`. How the brightness of a colour is rounded
/// depends on how the machine rounds a sum of products, and what becomes of
/// fractions is left unsaid.
#[verifier::external_body]
fn to_luma8(image: &DynamicImage) -> (samples: Vec<u8>)
    requires
        is_whole(picture(*image)),
    ensures
        is_luma_of(samples@, picture(*image)),
{
    image.to_luma8().into_raw()
}

/// The red, green, blue and opacity of the pixels of a picture in eight bits each.
pub uninterp spec fn rgba8(picture: PictureView) -> Seq<u8>;

/// Whether samples are the red, green, blue and opacity of the pixels of a
/// picture.
pub open spec fn is_rgba_of(samples: Seq<u8>, picture: PictureView) -> bool {
    &&& samples.len() == sample_count(picture.width, picture.height, 4)
    &&& has_integers(picture) ==> forall|i: int|
        0 <= i < samples.len() ==> (#[trigger] samples[i]) == rgba_at(picture, i / 4, i % 4)
}

/// Calls `DynamicImage::to_rgba8`.
#[verifier::external_body]
fn to_rgba8(image: &DynamicImage) -> (samples: Vec<u8>)
    requires
        is_whole(picture(*image)),
    ensures
        samples@ == rgba8(picture(*image)),
        is_rgba_of(samples@, picture(*image)),
{
    image.to_rgba8().into_raw()
}

/// Samples of eight bits, row by row.
pub struct Raster {
    pub width: u32,
    pub height: u32,
    pub is_grayscale: bool,
    pub samples: Vec<u8>,
}

/// The value of a [`Raster`].
pub struct RasterView {
    pub width: u32,
    pub height: u32,
    pub is_grayscale: bool,
    pub samples: Seq<u8>,
}

impl View for Raster {
    type V = RasterView;

    open spec fn view(&self) -> RasterView {
        RasterView {
            width: self.width,
            height: self.height,
            is_grayscale: self.is_grayscale,
            samples: self.samples@,
        }
    }
}

impl RasterView {
    /// A pixel has one sample, or four of colour and opacity.
    pub open spec fn wf(&self) -> bool {
        self.samples.len() == sample_count(
            self.width,
            self.height,
            if self.is_grayscale {
                1
            } else {
                4
            },
        )
    }
}

/// Whether a raster shows a picture, in grey or in colour.
pub open spec fn is_raster_of(
    raster: RasterView,
    picture: PictureView,
    is_grayscale: bool,
) -> bool {
    &&& raster.wf()
    &&& raster.width == picture.width
    &&& raster.height == picture.height
    &&& raster.is_grayscale == is_grayscale
    &&& if is_grayscale {
        is_luma_of(raster.samples, picture)
    } else {
        raster.samples == rgba8(picture) && is_rgba_of(raster.samples, picture)
    }
}

/// Turns a picture grey, or into one of colours and opacity.
pub fn rasterize(image: &DynamicImage, is_grayscale: bool) -> (raster: Raster)
    requires
        is_whole(picture(*image)),
    ensures
        is_raster_of(raster@, picture(*image), is_grayscale),
{
    let samples = if is_grayscale {
        to_luma8(image)
    } else {
        to_rgba8(image)
    };
    Raster {
        width: image.width(),
        height: image.height(),
        is_grayscale: is_grayscale,
        samples: samples,
    }
}

/// What a picture that is to be written in the PNG format holds.
pub uninterp spec fn raw_raster(raw: RawImage) -> RasterView;

/// Calls `RawImage::new`. It fails only where the number of samples does not fit
/// the size.
#[verifier::external_body]
fn raw_image(raster: Raster) -> (raw: Result<RawImage, oxipng::PngError>)
    requires
        raster@.wf(),
    ensures
        raw is Ok,
        raw_raster(raw->Ok_0) == raster@,
{
    let color_type = match raster.is_grayscale {
        true => ColorType::Grayscale { transparent_shade: None },
        false => ColorType::RGBA,
    };
    RawImage::new(raster.width, raster.height, color_type, BitDepth::Eight, raster.samples)
}

/// A picture in the PNG format, written at a level of effort, or why that fails.
pub uninterp spec fn optimized_png(raster: RasterView, level: u8) -> Result<
    Seq<u8>,
    oxipng::PngError,
>;

/// Calls `RawImage::create_optimized_png` with the preset of that level.
#[verifier::external_body]
fn create_optimized_png(raw: &RawImage, level: u8) -> (png: Result<Vec<u8>, oxipng::PngError>)
    ensures
        match png {
            Ok(png) => optimized_png(raw_raster(*raw), level) == Ok::<Seq<u8>, oxipng::PngError>(
                png@,
            ),
            Err(error) => optimized_png(raw_raster(*raw), level) == Err::<
                Seq<u8>,
                oxipng::PngError,
            >(error),
        },
{
    raw.create_optimized_png(&Options::from_preset(level))
}

/// Writes a picture in the PNG format.
fn write_png(raster: Raster, level: u8) -> (png: Result<Vec<u8>, oxipng::PngError>)
    requires
        raster@.wf(),
    ensures
        match png {
            Ok(png) => optimized_png(raster@, level) == Ok::<Seq<u8>, oxipng::PngError>(png@),
            Err(error) => optimized_png(raster@, level) == Err::<Seq<u8>, oxipng::PngError>(
                error,
            ),
        },
{
    match raw_image(raster) {
        Ok(raw) => create_optimized_png(&raw, level),
        Err(error) => Err(error),
    }
}

/// The colours of pixels without their opacity.
pub open spec fn without_opacity(samples: Seq<u8>) -> Seq<u8> {
    Seq::new((samples.len() / 4 * 3) as nat, |i: int| samples[i / 3 * 4 + i % 3])
}

/// Takes the opacity from the samples of pixels.
pub fn drop_opacity(samples: &[u8]) -> (colors: Vec<u8>)
    ensures
        colors@ == without_opacity(samples@),
{
    let mut colors: Vec<u8> = Vec::new();
    let mut at: usize = 0;
    while samples.len() - at >= 4
        invariant
            at <= samples@.len(),
            at % 4 == 0,
            colors@.len() == at / 4 * 3,
            forall|i: int|
                0 <= i < colors@.len() ==> (#[trigger] colors@[i]) == samples@[i / 3 * 4 + i % 3],
        decreases samples@.len() - at,
    {
        colors.push(samples[at]);
        colors.push(samples[at + 1]);
        colors.push(samples[at + 2]);
        at = at + 4;
    }
    assert(colors@ =~= without_opacity(samples@));
    colors
}

/// How far the work on a picture has come, which is what has to be done next.
pub enum OptimizationState<'a> {
    /// Look up the settings in the cache.
    ReadCache { image: &'a [u8], settings: ImageOptimizationSettings },
    /// Find the height that goes with the new width.
    Scale {
        picture: DynamicImage,
        format: Format,
        width: u32,
        settings: ImageOptimizationSettings,
    },
    /// Write the samples in the JPEG format. A pixel has one sample, or three of
    /// colour.
    Compress { raster: Raster, settings: ImageOptimizationSettings },
    /// Keep the smaller picture under the settings.
    WriteCache { contents: Vec<u8>, settings: ImageOptimizationSettings },
    /// Nothing more.
    Done(Result<Vec<u8>, OptimizeImageError>),
}

/// The value of an [`OptimizationState`].
pub enum OptimizationStateView {
    ReadCache { image: Seq<u8>, settings: ImageOptimizationSettingsView },
    Scale {
        picture: PictureView,
        format: Format,
        width: u32,
        settings: ImageOptimizationSettingsView,
    },
    Compress { raster: RasterView, settings: ImageOptimizationSettingsView },
    WriteCache { contents: Seq<u8>, settings: ImageOptimizationSettingsView },
    Done(Result<Seq<u8>, OptimizeImageErrorView>),
}

impl<'a> View for OptimizationState<'a> {
    type V = OptimizationStateView;

    open spec fn view(&self) -> OptimizationStateView {
        match *self {
            OptimizationState::ReadCache { image, settings } => OptimizationStateView::ReadCache {
                image: image@,
                settings: settings@,
            },
            OptimizationState::Scale { picture: image, format, width, settings } =>
                OptimizationStateView::Scale {
                picture: picture(image),
                format: format,
                width: width,
                settings: settings@,
            },
            OptimizationState::Compress { raster, settings } => OptimizationStateView::Compress {
                raster: raster@,
                settings: settings@,
            },
            OptimizationState::WriteCache { contents, settings } =>
                OptimizationStateView::WriteCache { contents: contents@, settings: settings@ },
            OptimizationState::Done(Ok(contents)) => OptimizationStateView::Done(Ok(contents@)),
            OptimizationState::Done(Err(error)) => OptimizationStateView::Done(Err(error@)),
        }
    }
}

/// What came of the last thing that had to be done for a picture.
pub enum OptimizationEvent {
    /// What the cache says.
    Cached(Result<Option<Vec<u8>>, DiskCacheError>),
    /// The height that goes with the new width.
    Height(u32),
    /// The picture in the JPEG format, `None` where the encoder broke down.
    Compressed(Option<Result<Vec<u8>, std::io::Error>>),
    /// Whether the cache was written.
    Written(Result<(), DiskCacheError>),
}

/// The value of an [`OptimizationEvent`].
pub enum OptimizationEventView {
    Cached(Result<Option<Seq<u8>>, DiskCacheError>),
    Height(u32),
    Compressed(Option<Result<Seq<u8>, std::io::Error>>),
    Written(Result<(), DiskCacheError>),
}

impl View for OptimizationEvent {
    type V = OptimizationEventView;

    open spec fn view(&self) -> OptimizationEventView {
        match *self {
            OptimizationEvent::Cached(Ok(Some(contents))) => OptimizationEventView::Cached(
                Ok(Some(contents@)),
            ),
            OptimizationEvent::Cached(Ok(None)) => OptimizationEventView::Cached(Ok(None)),
            OptimizationEvent::Cached(Err(error)) => OptimizationEventView::Cached(Err(error)),
            OptimizationEvent::Height(height) => OptimizationEventView::Height(height),
            OptimizationEvent::Compressed(Some(Ok(contents))) => OptimizationEventView::Compressed(
                Some(Ok(contents@)),
            ),
            OptimizationEvent::Compressed(Some(Err(error))) => OptimizationEventView::Compressed(
                Some(Err(error)),
            ),
            OptimizationEvent::Compressed(None) => OptimizationEventView::Compressed(None),
            OptimizationEvent::Written(result) => OptimizationEventView::Written(result),
        }
    }
}

/// Whether an event answers what a state asks for. The new height must be one to
/// which the picture can be scaled.
pub open spec fn answers(state: OptimizationStateView, event: OptimizationEventView) -> bool {
    match state {
        OptimizationStateView::ReadCache { .. } => event is Cached,
        OptimizationStateView::Scale { picture, width, .. } => match event {
            OptimizationEventView::Height(height) => is_scalable(picture, width, height),
            _ => false,
        },
        OptimizationStateView::Compress { .. } => event is Compressed,
        OptimizationStateView::WriteCache { .. } => event is Written,
        OptimizationStateView::Done(_) => false,
    }
}

/// The work on a picture that has come to an error.
pub open spec fn failed(error: OptimizeImageErrorView) -> OptimizationStateView {
    OptimizationStateView::Done(Err(error))
}

/// The level of effort at which pictures are written in the PNG format.
pub const PNG_LEVEL: u8 = 2;

/// How long a smaller picture stays in the cache, in seconds. The key changes
/// where the picture does.
pub const PICTURE_LIFETIME: u64 = 1000000000;

/// How the work goes on with the samples of a picture.
pub open spec fn after_raster(
    raster: RasterView,
    format: Format,
    settings: ImageOptimizationSettingsView,
) -> OptimizationStateView {
    match format {
        Format::Png => match optimized_png(raster, PNG_LEVEL) {
            Ok(contents) => OptimizationStateView::WriteCache {
                contents: contents,
                settings: settings,
            },
            Err(error) => failed(OptimizeImageErrorView::OxiPNG(error)),
        },
        Format::Jpeg => OptimizationStateView::Compress {
            raster: if raster.is_grayscale {
                raster
            } else {
                RasterView { samples: without_opacity(raster.samples), ..raster }
            },
            settings: settings,
        },
    }
}

/// Goes on with the samples of a picture.
pub fn encode_raster(
    raster: Raster,
    format: Format,
    settings: ImageOptimizationSettings,
) -> (state: OptimizationState<'static>)
    requires
        raster@.wf(),
    ensures
        state@ == after_raster(raster@, format, settings@),
{
    match format {
        Format::Png => match write_png(raster, PNG_LEVEL) {
            Ok(contents) => OptimizationState::WriteCache {
                contents: contents,
                settings: settings,
            },
            Err(error) => OptimizationState::Done(Err(OptimizeImageError::OxiPNG(error))),
        },
        Format::Jpeg => if raster.is_grayscale {
            OptimizationState::Compress { raster: raster, settings: settings }
        } else {
            let samples = drop_opacity(&raster.samples);
            OptimizationState::Compress {
                raster: Raster { samples: samples, ..raster },
                settings: settings,
            }
        },
    }
}

/// The width to which a picture is scaled down, `None` where it stays as wide as
/// it is.
pub open spec fn target_width(width: u32, max_width: Option<u32>) -> Option<u32> {
    match max_width {
        Some(max_width) => if width > max_width {
            Some(max_width)
        } else {
            None
        },
        None => None,
    }
}

/// Finds the width to which a picture is scaled down.
pub fn scaled_width(width: u32, max_width: Option<u32>) -> (scaled: Option<u32>)
    ensures
        scaled == target_width(width, max_width),
{
    match max_width {
        Some(max_width) => if width > max_width {
            Some(max_width)
        } else {
            None
        },
        None => None,
    }
}

/// Whether the work can go on like that once a picture has its size.
pub open spec fn may_follow_picture(
    picture: PictureView,
    format: Format,
    settings: ImageOptimizationSettingsView,
    next: OptimizationStateView,
) -> bool {
    exists|raster: RasterView|
        #[trigger] is_raster_of(raster, picture, settings.is_grayscale) && next == after_raster(
            raster,
            format,
            settings,
        )
}

/// Whether the work can go on like that with a file of some format: a picture
/// that is too wide is scaled first.
pub open spec fn may_follow_file(
    decoded: Result<PictureView, image::ImageError>,
    format: Format,
    settings: ImageOptimizationSettingsView,
    next: OptimizationStateView,
) -> bool {
    match decoded {
        Err(error) => next == failed(OptimizeImageErrorView::ImageDecoding(error)),
        Ok(picture) => match target_width(picture.width, settings.max_width) {
            Some(width) => next == (OptimizationStateView::Scale {
                picture: picture,
                format: format,
                width: width,
                settings: settings,
            }),
            None => may_follow_picture(picture, format, settings, next),
        },
    }
}

/// Whether the work on a picture can go on like that after an event that answers
/// its state.
pub open spec fn may_follow(
    state: OptimizationStateView,
    event: OptimizationEventView,
    next: OptimizationStateView,
) -> bool {
    match (state, event) {
        (_, OptimizationEventView::Cached(Err(error))) => next == failed(
            OptimizeImageErrorView::Cache(error),
        ),
        (_, OptimizationEventView::Cached(Ok(Some(contents)))) => next
            == OptimizationStateView::Done(Ok(contents)),
        (OptimizationStateView::ReadCache { image, settings }, _) => match format_of(
            mime_of(image),
        ) {
            Some(format) => may_follow_file(decoded(image), format, settings, next),
            None => next == failed(unsupported(mime_of(image))),
        },
        (
            OptimizationStateView::Scale { picture, format, width, settings },
            OptimizationEventView::Height(height),
        ) => exists|scaled: PictureView| #[trigger]
            is_scaled(scaled, picture, width, height) && may_follow_picture(
                scaled,
                format,
                settings,
                next,
            ),
        (
            OptimizationStateView::Compress { settings, .. },
            OptimizationEventView::Compressed(Some(Ok(contents))),
        ) => next == (OptimizationStateView::WriteCache { contents: contents, settings: settings }),
        (_, OptimizationEventView::Compressed(Some(Err(error)))) => next == failed(
            OptimizeImageErrorView::Io(error),
        ),
        (_, OptimizationEventView::Compressed(None)) => next == failed(
            OptimizeImageErrorView::Unknown,
        ),
        (_, OptimizationEventView::Written(Err(error))) => next == failed(
            OptimizeImageErrorView::Cache(error),
        ),
        (OptimizationStateView::WriteCache { contents, .. }, _) => next
            == OptimizationStateView::Done(Ok(contents)),
        _ => next == state,
    }
}

/// Goes on with a picture that has its size.
pub fn transform(
    image: &DynamicImage,
    format: Format,
    settings: ImageOptimizationSettings,
) -> (state: OptimizationState<'static>)
    requires
        is_whole(picture(*image)),
    ensures
        may_follow_picture(picture(*image), format, settings@, state@),
{
    let raster = rasterize(image, settings.is_grayscale);
    assert(is_raster_of(raster@, picture(*image), settings@.is_grayscale));
    encode_raster(raster, format, settings)
}

/// Goes on with a file of some format.
pub fn load_and_transform(
    image: &[u8],
    format: Format,
    settings: ImageOptimizationSettings,
) -> (state: OptimizationState<'static>)
    ensures
        may_follow_file(decoded(image@), format, settings@, state@),
{
    match load_from_memory(image) {
        Ok(image) => match scaled_width(image.width(), settings.max_width) {
            Some(width) => OptimizationState::Scale {
                picture: image,
                format: format,
                width: width,
                settings: settings,
            },
            None => transform(&image, format, settings),
        },
        Err(error) => OptimizationState::Done(Err(OptimizeImageError::ImageDecoding(error))),
    }
}

/// Goes on with a file that is not in the cache.
pub fn optimize_image(image: &[u8], settings: ImageOptimizationSettings) -> (state:
    OptimizationState<'static>)
    ensures
        match format_of(mime_of(image@)) {
            Some(format) => may_follow_file(decoded(image@), format, settings@, state@),
            None => state@ == failed(unsupported(mime_of(image@))),
        },
{
    match image_format(infer_mime(image)) {
        Ok(format) => load_and_transform(image, format, settings),
        Err(error) => OptimizationState::Done(Err(error)),
    }
}

impl<'a> OptimizationState<'a> {
    /// The beginning of the work on a picture.
    pub fn start(image: &'a [u8], settings: ImageOptimizationSettings) -> (state: Self)
        ensures
            state@ == (OptimizationStateView::ReadCache { image: image@, settings: settings@ }),
    {
        OptimizationState::ReadCache { image: image, settings: settings }
    }

    /// Goes on with the work on a picture after an event.
    pub fn step(self, event: OptimizationEvent) -> (next: Self)
        requires
            answers(self@, event@),
        ensures
            may_follow(self@, event@, next@),
    {
        match (self, event) {
            (_, OptimizationEvent::Cached(Err(error))) => OptimizationState::Done(
                Err(OptimizeImageError::Cache(error)),
            ),
            (_, OptimizationEvent::Cached(Ok(Some(contents)))) => OptimizationState::Done(
                Ok(contents),
            ),
            (OptimizationState::ReadCache { image, settings }, _) => optimize_image(
                image,
                settings,
            ),
            (
                OptimizationState::Scale { picture: image, format, width, settings },
                OptimizationEvent::Height(height),
            ) => {
                let scaled = resize(&image, width, height);
                assert(is_scaled(picture(scaled), picture(image), width, height));
                transform(&scaled, format, settings)
            },
            (
                OptimizationState::Compress { settings, .. },
                OptimizationEvent::Compressed(Some(Ok(contents))),
            ) => OptimizationState::WriteCache { contents: contents, settings: settings },
            (_, OptimizationEvent::Compressed(Some(Err(error)))) => OptimizationState::Done(
                Err(OptimizeImageError::Io(error)),
            ),
            (_, OptimizationEvent::Compressed(None)) => OptimizationState::Done(
                Err(OptimizeImageError::Unknown),
            ),
            (_, OptimizationEvent::Written(Err(error))) => OptimizationState::Done(
                Err(OptimizeImageError::Cache(error)),
            ),
            (OptimizationState::WriteCache { contents, .. }, _) => OptimizationState::Done(
                Ok(contents),
            ),
            (state, _) => state,
        }
    }
}

/// The most steps that the work on a picture still takes.
pub open spec fn steps_left(state: OptimizationStateView) -> nat {
    match state {
        OptimizationStateView::ReadCache { .. } => 4,
        OptimizationStateView::Scale { .. } => 3,
        OptimizationStateView::Compress { .. } => 2,
        OptimizationStateView::WriteCache { .. } => 1,
        OptimizationStateView::Done(_) => 0,
    }
}

/// Whatever comes of what it has to do, the work on a picture never asks for
/// anything twice: each step takes it nearer to its end.
pub proof fn law_optimizations_come_to_an_end(
    state: OptimizationStateView,
    event: OptimizationEventView,
    next: OptimizationStateView,
)
    requires
        answers(state, event),
        may_follow(state, event, next),
    ensures
        steps_left(next) < steps_left(state),
{
}

/// A picture of the cache is given out as it is, whatever file it was asked for.
pub proof fn law_cached_picture_needs_no_work(
    image: Seq<u8>,
    settings: ImageOptimizationSettingsView,
    contents: Seq<u8>,
    next: OptimizationStateView,
)
    requires
        may_follow(
            OptimizationStateView::ReadCache { image: image, settings: settings },
            OptimizationEventView::Cached(Ok(Some(contents))),
            next,
        ),
    ensures
        next == OptimizationStateView::Done(Ok(contents)),
{
}

/// A smaller picture is given out only when it was in the cache, or has been
/// written to it under its settings.
pub proof fn law_every_result_is_cached(
    state: OptimizationStateView,
    event: OptimizationEventView,
    contents: Seq<u8>,
)
    requires
        answers(state, event),
        may_follow(state, event, OptimizationStateView::Done(Ok(contents))),
    ensures
        ({
            ||| event == OptimizationEventView::Cached(Ok(Some(contents)))
            ||| state matches OptimizationStateView::WriteCache { contents: written, .. } && written
                == contents && event matches OptimizationEventView::Written(Ok(_))
        }),
{
}

/// Once a smaller picture has been kept, asking for it again with the same
/// settings gives the same bytes, whatever file comes with the question.
pub proof fn law_kept_picture_is_given_again(
    contents: Seq<u8>,
    settings: ImageOptimizationSettingsView,
    image: Seq<u8>,
    first: OptimizationStateView,
    again: OptimizationStateView,
)
    requires
        may_follow(
            OptimizationStateView::WriteCache { contents: contents, settings: settings },
            OptimizationEventView::Written(Ok(())),
            first,
        ),
        may_follow(
            OptimizationStateView::ReadCache { image: image, settings: settings },
            OptimizationEventView::Cached(Ok(Some(contents))),
            again,
        ),
    ensures
        first == OptimizationStateView::Done(Ok(contents)),
        again == first,
{
}

/// What settings a state works with.
pub open spec fn settings_of(state: OptimizationStateView) -> Option<
    ImageOptimizationSettingsView,
> {
    match state {
        OptimizationStateView::ReadCache { settings, .. } => Some(settings),
        OptimizationStateView::Scale { settings, .. } => Some(settings),
        OptimizationStateView::Compress { settings, .. } => Some(settings),
        OptimizationStateView::WriteCache { settings, .. } => Some(settings),
        OptimizationStateView::Done(_) => None,
    }
}

/// The settings under which a picture is looked up are those by which it is made
/// smaller and under which it is kept.
pub proof fn law_settings_stay(
    state: OptimizationStateView,
    event: OptimizationEventView,
    next: OptimizationStateView,
)
    requires
        answers(state, event),
        may_follow(state, event, next),
    ensures
        next is Done || settings_of(next) == settings_of(state),
{
}

/// A file that is neither a PNG nor a JPEG picture is refused with its media
/// type, and nothing is kept of it.
pub proof fn law_other_formats_are_refused(
    image: Seq<u8>,
    settings: ImageOptimizationSettingsView,
    next: OptimizationStateView,
)
    requires
        mime_of(image) != Some("image/png"@),
        mime_of(image) != Some("image/jpeg"@),
        may_follow(
            OptimizationStateView::ReadCache { image: image, settings: settings },
            OptimizationEventView::Cached(Ok(None)),
            next,
        ),
    ensures
        next == failed(unsupported(mime_of(image))),
{
}

/// Whether a state fits its settings: a picture is scaled down to the largest
/// width, and what is compressed is not wider and as grey as it has to be.
pub open spec fn fits_settings(state: OptimizationStateView) -> bool {
    match state {
        OptimizationStateView::Scale { picture, width, settings, .. } => settings.max_width
            == Some(width) && width < picture.width,
        OptimizationStateView::Compress { raster, settings } => {
            &&& raster.is_grayscale == settings.is_grayscale
            &&& settings.max_width matches Some(width) ==> raster.width <= width
            &&& raster.samples.len() == sample_count(
                raster.width,
                raster.height,
                if raster.is_grayscale {
                    1
                } else {
                    3
                },
            )
        },
        _ => true,
    }
}

/// The work on a picture keeps to its settings at every step.
pub proof fn law_results_fit_settings(
    state: OptimizationStateView,
    event: OptimizationEventView,
    next: OptimizationStateView,
)
    requires
        fits_settings(state),
        answers(state, event),
        may_follow(state, event, next),
    ensures
        fits_settings(next),
{
    if let OptimizationStateView::Compress { raster, settings } = next {
        if !raster.is_grayscale {
            assert(raster.width * raster.height * 4 / 4 * 3 == raster.width * raster.height * 3);
        }
    }
}

/// A grey picture of eight bits that is not too wide keeps every sample.
pub proof fn law_small_grey_picture_is_kept(
    picture: PictureView,
    format: Format,
    settings: ImageOptimizationSettingsView,
    next: OptimizationStateView,
)
    requires
        is_whole(picture),
        picture.channels == 1,
        picture.depth == 8,
        settings.is_grayscale,
        target_width(picture.width, settings.max_width) is None,
        may_follow_file(Ok(picture), format, settings, next),
    ensures
        exists|raster: RasterView|
            {
                &&& #[trigger] is_raster_of(raster, picture, true)
                &&& next == after_raster(raster, format, settings)
                &&& raster.samples.len() == picture.samples.len()
                &&& forall|i: int|
                    0 <= i < raster.samples.len() ==> (#[trigger] raster.samples[i])
                        == picture.samples[i]
            },
{
}

proof fn lemma_pixel_is_in_picture(x: int, y: int, width: u32, height: u32)
    requires
        0 <= x < width,
        0 <= y < height,
    ensures
        0 <= y * width + x < sample_count(width, height, 1),
        0 <= (y * width + x) * 4 < sample_count(width, height, 4),
        (y * width + x) * 4 + 3 < sample_count(width, height, 4),
{
    assert(0 <= y * width + x && y * width + x + 1 <= width * height) by (nonlinear_arith)
        requires
            0 <= x < width,
            0 <= y < height,
    ;
}

/// A region of a picture that is evenly grey keeps its shade at its place when the
/// picture is scaled moderately and turned grey, give or take two.
pub proof fn law_even_region_keeps_its_shade(
    picture: PictureView,
    format: Format,
    width: u32,
    height: u32,
    settings: ImageOptimizationSettingsView,
    next: OptimizationStateView,
)
    requires
        is_moderate(picture, width, height),
        settings.is_grayscale,
        may_follow(
            OptimizationStateView::Scale {
                picture: picture,
                format: format,
                width: width,
                settings: settings,
            },
            OptimizationEventView::Height(height),
            next,
        ),
    ensures
        exists|raster: RasterView|
            {
                &&& next == #[trigger] after_raster(raster, format, settings)
                &&& raster.width == width
                &&& raster.height == height
                &&& raster.wf()
                &&& forall|x: int, y: int, shade: int|
                    0 <= x < width && 0 <= y < height && #[trigger] is_even_around(
                        picture,
                        width,
                        height,
                        x,
                        y,
                        0,
                        shade,
                    ) && is_even_around(picture, width, height, x, y, 1, shade) && is_even_around(
                        picture,
                        width,
                        height,
                        x,
                        y,
                        2,
                        shade,
                    ) ==> shade - 2 <= raster.samples[y * width + x] <= shade + 2
            },
{
    let scaled = choose|scaled: PictureView| #[trigger]
        is_scaled(scaled, picture, width, height) && may_follow_picture(
            scaled,
            format,
            settings,
            next,
        );
    let raster = choose|raster: RasterView|
        #[trigger] is_raster_of(raster, scaled, true) && next == after_raster(
            raster,
            format,
            settings,
        );
    assert forall|x: int, y: int, shade: int|
        0 <= x < width && 0 <= y < height && #[trigger] is_even_around(
            picture,
            width,
            height,
            x,
            y,
            0,
            shade,
        ) && is_even_around(picture, width, height, x, y, 1, shade) && is_even_around(
            picture,
            width,
            height,
            x,
            y,
            2,
            shade,
        ) implies shade - 2 <= raster.samples[y * width + x] <= shade + 2 by {
        lemma_pixel_is_in_picture(x, y, width, height);
        let pixel = y * width + x;
        assert(shade - 1 <= rgba_at(scaled, pixel, 0) <= shade + 1);
        assert(shade - 1 <= rgba_at(scaled, pixel, 1) <= shade + 1);
        assert(shade - 1 <= rgba_at(scaled, pixel, 2) <= shade + 1);
        assert(raster.samples[pixel] == raster.samples[pixel]);
    }
    assert(next == after_raster(raster, format, settings));
}

/// A region of a picture that is evenly coloured keeps its colour and its opacity
/// at its place when the picture is scaled moderately, give or take one.
pub proof fn law_even_region_keeps_its_color(
    picture: PictureView,
    format: Format,
    width: u32,
    height: u32,
    settings: ImageOptimizationSettingsView,
    next: OptimizationStateView,
)
    requires
        is_moderate(picture, width, height),
        !settings.is_grayscale,
        may_follow(
            OptimizationStateView::Scale {
                picture: picture,
                format: format,
                width: width,
                settings: settings,
            },
            OptimizationEventView::Height(height),
            next,
        ),
    ensures
        exists|raster: RasterView|
            {
                &&& next == #[trigger] after_raster(raster, format, settings)
                &&& raster.width == width
                &&& raster.height == height
                &&& raster.wf()
                &&& forall|x: int, y: int, channel: int, value: int|
                    0 <= x < width && 0 <= y < height && 0 <= channel < 4
                        && #[trigger] is_even_around(
                        picture,
                        width,
                        height,
                        x,
                        y,
                        channel,
                        value,
                    ) ==> value - 1 <= raster.samples[(y * width + x) * 4 + channel] <= value + 1
            },
{
    let scaled = choose|scaled: PictureView| #[trigger]
        is_scaled(scaled, picture, width, height) && may_follow_picture(
            scaled,
            format,
            settings,
            next,
        );
    let raster = choose|raster: RasterView|
        #[trigger] is_raster_of(raster, scaled, false) && next == after_raster(
            raster,
            format,
            settings,
        );
    assert forall|x: int, y: int, channel: int, value: int|
        0 <= x < width && 0 <= y < height && 0 <= channel < 4 && #[trigger] is_even_around(
            picture,
            width,
            height,
            x,
            y,
            channel,
            value,
        ) implies value - 1 <= raster.samples[(y * width + x) * 4 + channel] <= value + 1 by {
        lemma_pixel_is_in_picture(x, y, width, height);
        let pixel = y * width + x;
        let at = pixel * 4 + channel;
        assert(at / 4 == pixel && at % 4 == channel);
        assert(raster.samples[at] == rgba_at(scaled, pixel, channel));
    }
    assert(next == after_raster(raster, format, settings));
}

/// No picture for a page is wider than what is of use, nor than the page shows
/// it.
pub proof fn law_pages_limit_the_width(key: Seq<char>, displayed_width: Option<u32>)
    ensures
        settings_for(key, displayed_width).max_width matches Some(width) && width <= WIDEST && (
        displayed_width matches Some(displayed) ==> width <= displayed),
{
}

/// Settings that differ in anything are kept under different keys, so that no
/// picture is given out for settings other than its own.
#[verifier::rlimit(5)]
pub proof fn law_settings_have_their_own_keys(
    left: ImageOptimizationSettingsView,
    right: ImageOptimizationSettingsView,
)
    requires
        vstd::utf8::encode_utf8(left.key).len() <= u64::MAX,
        vstd::utf8::encode_utf8(right.key).len() <= u64::MAX,
        settings_key(left) == settings_key(right),
    ensures
        left == right,
{
    crate::disk_cache::law_settings_keys_differ(
        (left.key, left.is_grayscale, left.max_width),
        (right.key, right.is_grayscale, right.max_width),
    );
}

/// A picture for a page is grey, is kept under its own key, and may be as wide as the
/// page shows it, up to 1200 pixels, and 1200 pixels where the page does not say.
#[verifier::rlimit(3)]
pub proof fn law_settings_go_by_the_page(key: Seq<char>, displayed_width: Option<u32>)
    ensures
        ({
            let settings = settings_for(key, displayed_width);
            &&& settings.key == key
            &&& settings.is_grayscale
            &&& settings.max_width matches Some(width) && width <= 1200 && (
            displayed_width matches Some(displayed) ==> width <= displayed) && (width == 1200
                || displayed_width == Some(width))
        }),
{
}

/// A PNG file is worked on as one, a JPEG file as one, and a file that cannot be
/// decoded is given up with the very error of the decoder.
#[verifier::rlimit(5)]
pub proof fn law_files_are_worked_on_by_their_type(
    image: Seq<u8>,
    settings: ImageOptimizationSettingsView,
    next: OptimizationStateView,
)
    requires
        may_follow(
            OptimizationStateView::ReadCache { image: image, settings: settings },
            OptimizationEventView::Cached(Ok(None)),
            next,
        ),
    ensures
        mime_of(image) == Some("image/png"@) ==> match decoded(image) {
            Ok(picture) => may_follow_file(Ok(picture), Format::Png, settings, next),
            Err(error) => next == OptimizationStateView::Done(
                Err(OptimizeImageErrorView::ImageDecoding(error)),
            ),
        },
        mime_of(image) == Some("image/jpeg"@) ==> match decoded(image) {
            Ok(picture) => may_follow_file(Ok(picture), Format::Jpeg, settings, next),
            Err(error) => next == OptimizationStateView::Done(
                Err(OptimizeImageErrorView::ImageDecoding(error)),
            ),
        },
        mime_of(image) != Some("image/png"@) && mime_of(image) != Some("image/jpeg"@)
            ==> match mime_of(image) {
            Some(mimetype) => next == OptimizationStateView::Done(
                Err(OptimizeImageErrorView::UnsupportedImageFormat(mimetype)),
            ),
            None => next == OptimizationStateView::Done(
                Err(OptimizeImageErrorView::UnsupportedImageFormat(Seq::empty())),
            ),
        },
{
    reveal_strlit("image/png");
    reveal_strlit("image/jpeg");
    assert("image/png"@.len() != "image/jpeg"@.len());
}

/// A picture that is wider than it may be is scaled to the very width that it may
/// have, and no other picture is scaled.
#[verifier::rlimit(5)]
pub proof fn law_only_wide_pictures_are_scaled(
    picture: PictureView,
    format: Format,
    settings: ImageOptimizationSettingsView,
    next: OptimizationStateView,
)
    requires
        may_follow_file(Ok(picture), format, settings, next),
    ensures
        (settings.max_width matches Some(width) && width < picture.width) ==> next == (
        OptimizationStateView::Scale {
            picture: picture,
            format: format,
            width: settings.max_width->0,
            settings: settings,
        }),
        !(settings.max_width matches Some(width) && width < picture.width) ==> !(next is Scale),
{
}

/// Whether a state is what a grey picture comes to: in the JPEG format its very
/// brightness is handed to the encoder, in the PNG format it is written from its
/// very brightness, at the second level of effort, and kept.
pub open spec fn hands_over_grey(
    next: OptimizationStateView,
    picture: PictureView,
    format: Format,
    settings: ImageOptimizationSettingsView,
) -> bool {
    match format {
        Format::Jpeg => {
            &&& next matches OptimizationStateView::Compress { raster, settings: kept }
            &&& kept == settings
            &&& raster.width == picture.width
            &&& raster.height == picture.height
            &&& raster.is_grayscale
            &&& is_luma_of(raster.samples, picture)
        },
        Format::Png => exists|raster: RasterView|
            {
                &&& raster.width == picture.width
                &&& raster.height == picture.height
                &&& raster.is_grayscale
                &&& is_luma_of(raster.samples, picture)
                &&& match #[trigger] optimized_png(raster, 2) {
                    Ok(contents) => next == (OptimizationStateView::WriteCache {
                        contents: contents,
                        settings: settings,
                    }),
                    Err(error) => next == OptimizationStateView::Done(
                        Err(OptimizeImageErrorView::OxiPNG(error)),
                    ),
                }
            },
    }
}

/// Whether a state is what a coloured picture comes to: in the JPEG format the very
/// red, green and blue of each pixel are handed to the encoder, in the PNG format
/// it is written from them and the opacity, at the second level of effort, and kept.
pub open spec fn hands_over_color(
    next: OptimizationStateView,
    picture: PictureView,
    format: Format,
    settings: ImageOptimizationSettingsView,
) -> bool {
    match format {
        Format::Jpeg => {
            &&& next matches OptimizationStateView::Compress { raster, settings: kept }
            &&& kept == settings
            &&& raster.width == picture.width
            &&& raster.height == picture.height
            &&& !raster.is_grayscale
            &&& raster.samples.len() == sample_count(picture.width, picture.height, 3)
            &&& has_integers(picture) ==> forall|i: int|
                0 <= i < raster.samples.len() ==> (#[trigger] raster.samples[i]) == rgba_at(
                    picture,
                    i / 3,
                    i % 3,
                )
        },
        Format::Png => exists|raster: RasterView|
            {
                &&& raster.width == picture.width
                &&& raster.height == picture.height
                &&& !raster.is_grayscale
                &&& is_rgba_of(raster.samples, picture)
                &&& match #[trigger] optimized_png(raster, 2) {
                    Ok(contents) => next == (OptimizationStateView::WriteCache {
                        contents: contents,
                        settings: settings,
                    }),
                    Err(error) => next == OptimizationStateView::Done(
                        Err(OptimizeImageErrorView::OxiPNG(error)),
                    ),
                }
            },
    }
}

#[verifier::rlimit(5)]
proof fn lemma_grey_is_handed_over(
    picture: PictureView,
    format: Format,
    settings: ImageOptimizationSettingsView,
    next: OptimizationStateView,
)
    requires
        settings.is_grayscale,
        may_follow_picture(picture, format, settings, next),
    ensures
        hands_over_grey(next, picture, format, settings),
{
    let raster = choose|raster: RasterView|
        #[trigger] is_raster_of(raster, picture, true) && next == after_raster(
            raster,
            format,
            settings,
        );
    if format is Png {
        let png = optimized_png(raster, 2);
        assert(is_luma_of(raster.samples, picture));
    }
}

#[verifier::rlimit(5)]
proof fn lemma_color_is_handed_over(
    picture: PictureView,
    format: Format,
    settings: ImageOptimizationSettingsView,
    next: OptimizationStateView,
)
    requires
        !settings.is_grayscale,
        may_follow_picture(picture, format, settings, next),
    ensures
        hands_over_color(next, picture, format, settings),
{
    let raster = choose|raster: RasterView|
        #[trigger] is_raster_of(raster, picture, false) && next == after_raster(
            raster,
            format,
            settings,
        );
    if format is Png {
        let png = optimized_png(raster, 2);
        assert(is_rgba_of(raster.samples, picture));
    } else {
        let area = picture.width * picture.height;
        assert(area >= 0) by (nonlinear_arith)
            requires
                area == picture.width * picture.height,
        ;
        let colors = without_opacity(raster.samples);
        assert(raster.samples.len() == area * 4);
        assert(colors.len() == area * 3);
        if has_integers(picture) {
            assert forall|i: int| 0 <= i < colors.len() implies (#[trigger] colors[i]) == rgba_at(
                picture,
                i / 3,
                i % 3,
            ) by {
                let at = i / 3 * 4 + i % 3;
                assert(0 <= at < raster.samples.len());
                assert(at / 4 == i / 3 && at % 4 == i % 3);
                assert(raster.samples[at] == rgba_at(picture, at / 4, at % 4));
            }
        }
    }
}

/// What is handed to the encoder, or written, is the decoded picture itself: its
/// brightness where it has to be grey, and its colours where not.
#[verifier::rlimit(5)]
pub proof fn law_picture_itself_is_written(
    picture: PictureView,
    format: Format,
    settings: ImageOptimizationSettingsView,
    next: OptimizationStateView,
)
    requires
        !(settings.max_width matches Some(width) && width < picture.width),
        may_follow_file(Ok(picture), format, settings, next),
    ensures
        settings.is_grayscale ==> hands_over_grey(next, picture, format, settings),
        !settings.is_grayscale ==> hands_over_color(next, picture, format, settings),
{
    if settings.is_grayscale {
        lemma_grey_is_handed_over(picture, format, settings, next);
    } else {
        lemma_color_is_handed_over(picture, format, settings, next);
    }
}

/// Of a picture that was too wide, what is handed to the encoder, or written, is the
/// scaled picture itself.
#[verifier::rlimit(5)]
pub proof fn law_scaled_picture_itself_is_written(
    picture: PictureView,
    format: Format,
    width: u32,
    height: u32,
    settings: ImageOptimizationSettingsView,
    next: OptimizationStateView,
)
    requires
        may_follow(
            OptimizationStateView::Scale {
                picture: picture,
                format: format,
                width: width,
                settings: settings,
            },
            OptimizationEventView::Height(height),
            next,
        ),
    ensures
        exists|scaled: PictureView| #[trigger]
            is_scaled(scaled, picture, width, height) && (if settings.is_grayscale {
                hands_over_grey(next, scaled, format, settings)
            } else {
                hands_over_color(next, scaled, format, settings)
            }),
{
    let scaled = choose|scaled: PictureView| #[trigger]
        is_scaled(scaled, picture, width, height) && may_follow_picture(
            scaled,
            format,
            settings,
            next,
        );
    if settings.is_grayscale {
        lemma_grey_is_handed_over(scaled, format, settings, next);
    } else {
        lemma_color_is_handed_over(scaled, format, settings, next);
    }
}

/// In the samples that are handed to the JPEG encoder a region that is evenly grey
/// has kept its shade at its place, give or take two, when the picture was scaled
/// moderately and turned grey.
#[verifier::rlimit(5)]
pub proof fn law_compressed_region_keeps_its_shade(
    picture: PictureView,
    width: u32,
    height: u32,
    settings: ImageOptimizationSettingsView,
    next: OptimizationStateView,
    x: int,
    y: int,
    shade: int,
)
    requires
        is_moderate(picture, width, height),
        settings.is_grayscale,
        0 <= x < width,
        0 <= y < height,
        is_even_around(picture, width, height, x, y, 0, shade),
        is_even_around(picture, width, height, x, y, 1, shade),
        is_even_around(picture, width, height, x, y, 2, shade),
        may_follow(
            OptimizationStateView::Scale {
                picture: picture,
                format: Format::Jpeg,
                width: width,
                settings: settings,
            },
            OptimizationEventView::Height(height),
            next,
        ),
    ensures
        next matches OptimizationStateView::Compress { raster, .. } && raster.width == width
            && raster.height == height && shade - 2 <= raster.samples[y * width + x] <= shade + 2,
{
    law_scaled_picture_itself_is_written(picture, Format::Jpeg, width, height, settings, next);
    let scaled = choose|scaled: PictureView| #[trigger]
        is_scaled(scaled, picture, width, height) && hands_over_grey(
            next,
            scaled,
            Format::Jpeg,
            settings,
        );
    lemma_pixel_is_in_picture(x, y, width, height);
    let pixel = y * width + x;
    assert(shade - 1 <= rgba_at(scaled, pixel, 0) <= shade + 1);
    assert(shade - 1 <= rgba_at(scaled, pixel, 1) <= shade + 1);
    assert(shade - 1 <= rgba_at(scaled, pixel, 2) <= shade + 1);
    let samples = next->raster.samples;
    assert(samples[pixel] == samples[pixel]);
}

/// What the JPEG encoder gives is kept as it is. Where it fails, the work ends with
/// that very error, and where it breaks down, with one that says no more. A cache
/// that fails ends the work with its error.
#[verifier::rlimit(5)]
pub proof fn law_outcomes_are_handed_on(
    state: OptimizationStateView,
    event: OptimizationEventView,
    next: OptimizationStateView,
)
    requires
        answers(state, event),
        may_follow(state, event, next),
    ensures
        match (state, event) {
            (
                OptimizationStateView::Compress { settings, .. },
                OptimizationEventView::Compressed(Some(Ok(contents))),
            ) => next == (OptimizationStateView::WriteCache {
                contents: contents,
                settings: settings,
            }),
            (
                OptimizationStateView::WriteCache { contents, .. },
                OptimizationEventView::Written(Ok(_)),
            ) => next == OptimizationStateView::Done(Ok(contents)),
            _ => true,
        },
        (event matches OptimizationEventView::Compressed(Some(Err(error))) ==> next
            == OptimizationStateView::Done(Err(OptimizeImageErrorView::Io(error)))),
        (event matches OptimizationEventView::Compressed(None) ==> next
            == OptimizationStateView::Done(Err(OptimizeImageErrorView::Unknown))),
        (event matches OptimizationEventView::Cached(Err(error)) ==> next
            == OptimizationStateView::Done(Err(OptimizeImageErrorView::Cache(error)))),
        (event matches OptimizationEventView::Written(Err(error)) ==> next
            == OptimizationStateView::Done(Err(OptimizeImageErrorView::Cache(error)))),
{
}

/// The work on a picture takes every reply of the cache and of the compression,
/// failures included, and every height to which the picture can be scaled. Work that
/// has ended takes nothing more.
#[verifier::rlimit(5)]
pub proof fn law_every_reply_is_taken(
    image: Seq<u8>,
    picture: PictureView,
    raster: RasterView,
    settings: ImageOptimizationSettingsView,
    format: Format,
    width: u32,
    height: u32,
    contents: Seq<u8>,
    kept: Result<Option<Seq<u8>>, DiskCacheError>,
    compressed: Option<Result<Seq<u8>, std::io::Error>>,
    written: Result<(), DiskCacheError>,
    result: Result<Seq<u8>, OptimizeImageErrorView>,
    event: OptimizationEventView,
)
    ensures
        answers(
            OptimizationStateView::ReadCache { image: image, settings: settings },
            OptimizationEventView::Cached(kept),
        ),
        is_scalable(picture, width, height) ==> answers(
            OptimizationStateView::Scale {
                picture: picture,
                format: format,
                width: width,
                settings: settings,
            },
            OptimizationEventView::Height(height),
        ),
        answers(
            OptimizationStateView::Compress { raster: raster, settings: settings },
            OptimizationEventView::Compressed(compressed),
        ),
        answers(
            OptimizationStateView::WriteCache { contents: contents, settings: settings },
            OptimizationEventView::Written(written),
        ),
        !answers(OptimizationStateView::Done(result), event),
{
}

} // verus!
