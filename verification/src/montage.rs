//! Pictures and the sheets of thumbnails made of them. The pixels are the
//! image crate's; where each thumbnail goes, and what size a picture is
//! scaled to, is decided here.

use vstd::prelude::*;
use vstd::string::StringExecFns;

use crate::photos::{
    as_preview, is_jpg, is_preview_side, jpg_name, mp4_name, preview_size, resize_dimensions,
    scaled_size, Image, Sheet, MAX_TN_COUNT, PREVIEW_AREA, THUMBNAIL_SIZE,
};
use crate::sink::NginxBuffer;
use crate::text::strings;

verus! {

/// A decoded picture of the image crate.
#[verifier::external_type_specification]
#[verifier::external_body]
pub struct ExDynamicImage(image::DynamicImage);

/// The error type of the image crate.
#[verifier::external_type_specification]
#[verifier::external_body]
pub struct ExImageError(image::ImageError);

/// A raster of pixels with red, green, blue and alpha, a byte each: an
/// `ImageBuffer<Rgba<u8>, Vec<u8>>` of the image crate.
#[verifier::external_body]
pub struct Canvas {
    inner: image::RgbaImage,
}

/// The width and the height of a decoded picture, in pixels.
pub uninterp spec fn picture_dimensions(picture: image::DynamicImage) -> (u32, u32);

/// How a decoded picture holds its samples: the channels of a pixel, and the
/// kind of number for each.
#[derive(Clone, Copy, Debug, PartialEq, Eq, Structural)]
pub enum ColorKind {
    L8,
    La8,
    Rgb8,
    Rgba8,
    L16,
    La16,
    Rgb16,
    Rgba16,
    Rgb32F,
    Rgba32F,
    /// A kind that this library does not know.
    Other,
}

/// How a decoded picture holds its samples.
pub uninterp spec fn picture_color(picture: image::DynamicImage) -> ColorKind;

/// Whether every sample of a picture of this kind is a whole number. Only
/// such pictures are scaled: a sample that is no number at all cannot be
/// turned into a byte.
pub open spec fn whole_samples(kind: ColorKind) -> bool {
    kind != ColorKind::Rgb32F && kind != ColorKind::Rgba32F && kind != ColorKind::Other
}

/// Whether `pixels` is a raster that `imageops::resize` with the Gaussian
/// filter may make of a picture at `width` by `height` pixels. The filter
/// weighs with the exponential function, whose last digit std leaves open, so
/// the raster is not taken to follow from picture and size alone.
pub uninterp spec fn resampled(
    picture: image::DynamicImage,
    width: u32,
    height: u32,
    pixels: Seq<u8>,
) -> bool;

/// The width and the height of a canvas, in pixels.
pub uninterp spec fn canvas_dimensions(canvas: Canvas) -> (u32, u32);

/// The bytes of a canvas: row after row from the top, pixel after pixel from
/// the left, four bytes a pixel.
pub uninterp spec fn canvas_pixels(canvas: Canvas) -> Seq<u8>;

/// The bytes of the raster that `imageops::thumbnail` makes of a picture at
/// `width` by `height` pixels.
pub uninterp spec fn thumbnail_pixels(picture: image::DynamicImage, width: u32, height: u32) -> Seq<
    u8,
>;

/// What the image crate's JPEG encoder, as `JpegEncoder::new` makes it,
/// writes for a raster of `width` by `height` pixels of four bytes each, or
/// `None` where it reports an error.
pub uninterp spec fn jpeg_encoding(pixels: Seq<u8>, width: u32, height: u32) -> Option<Seq<u8>>;

/// The greatest width and the greatest height that a JPEG file can state.
pub const MAX_JPEG_SIDE: u32 = 0xffff;

/// Why a picture could not be made.
#[derive(Clone, Copy, Debug, PartialEq, Eq, Structural)]
pub enum ImageFault {
    /// The picture has no pixels.
    Empty,
    /// The picture is larger than memory can address.
    TooLarge,
    /// The encoder reported an error.
    Encode,
    /// The thumbnail has no place on the sheet.
    Mismatch,
    /// The samples of the picture are not whole numbers.
    FloatSamples,
}

/// The number of bytes that a raster of `width` by `height` pixels takes.
pub open spec fn raster_len(width: int, height: int) -> int {
    4 * width * height
}

/// Decodes a picture from the bytes of the file at `path`: the image crate's
/// `Reader`, told the format that the path's ending names, has
/// `with_guessed_format` look at the bytes and then decodes them. Nothing is
/// claimed of the outcome.
#[verifier::external_body]
pub fn read_image(path: &str, bytes: &[u8]) -> (r: Result<image::DynamicImage, image::ImageError>) {
    let mut reader = image::io::Reader::new(std::io::Cursor::new(bytes));
    if let Ok(format) = image::ImageFormat::from_path(path) {
        reader.set_format(format);
    }
    match reader.with_guessed_format() {
        Ok(guessed) => guessed.decode(),
        Err(e) => Err(image::ImageError::IoError(e)),
    }
}

/// `GenericImageView::dimensions` of a decoded picture.
#[verifier::external_body]
fn picture_size(picture: &image::DynamicImage) -> (r: (u32, u32))
    ensures
        r == picture_dimensions(*picture),
{
    image::GenericImageView::dimensions(picture)
}

/// `DynamicImage::color`, each kind told apart.
#[verifier::external_body]
fn picture_kind(picture: &image::DynamicImage) -> (r: ColorKind)
    ensures
        r == picture_color(*picture),
{
    match picture.color() {
        image::ColorType::L8 => ColorKind::L8,
        image::ColorType::La8 => ColorKind::La8,
        image::ColorType::Rgb8 => ColorKind::Rgb8,
        image::ColorType::Rgba8 => ColorKind::Rgba8,
        image::ColorType::L16 => ColorKind::L16,
        image::ColorType::La16 => ColorKind::La16,
        image::ColorType::Rgb16 => ColorKind::Rgb16,
        image::ColorType::Rgba16 => ColorKind::Rgba16,
        image::ColorType::Rgb32F => ColorKind::Rgb32F,
        image::ColorType::Rgba32F => ColorKind::Rgba32F,
        _ => ColorKind::Other,
    }
}

/// `ImageBuffer::dimensions`. Claimed: the buffer holds four bytes for each
/// pixel.
#[verifier::external_body]
fn canvas_size(canvas: &Canvas) -> (r: (u32, u32))
    ensures
        r == canvas_dimensions(*canvas),
        canvas_pixels(*canvas).len() == raster_len(r.0 as int, r.1 as int),
{
    canvas.inner.dimensions()
}

/// `ImageBuffer::as_raw`, copied.
#[verifier::external_body]
fn canvas_bytes(canvas: &Canvas) -> (r: Vec<u8>)
    ensures
        r@ == canvas_pixels(*canvas),
{
    canvas.inner.as_raw().clone()
}

/// `ImageBuffer::new`. Claimed: the raster has the size asked for, and every
/// byte of it is 0.
#[verifier::external_body]
fn blank(width: u32, height: u32) -> (c: Canvas)
    requires
        raster_len(width as int, height as int) <= usize::MAX,
    ensures
        canvas_dimensions(c) == (width, height),
        canvas_pixels(c) == Seq::new(raster_len(width as int, height as int) as nat, |i: int| 0u8),
{
    Canvas { inner: image::ImageBuffer::new(width, height) }
}

/// `imageops::thumbnail`. Claimed: the raster has the size asked for, and its
/// bytes depend on the picture and that size alone. The samples of the
/// picture must be whole numbers.
#[verifier::external_body]
fn shrink(picture: &image::DynamicImage, width: u32, height: u32) -> (c: Canvas)
    requires
        whole_samples(picture_color(*picture)),
        raster_len(width as int, height as int) <= usize::MAX,
    ensures
        canvas_dimensions(c) == (width, height),
        canvas_pixels(c) == thumbnail_pixels(*picture, width, height),
        canvas_pixels(c).len() == raster_len(width as int, height as int),
{
    Canvas { inner: image::imageops::thumbnail(picture, width, height) }
}

/// `imageops::resize` with the Gaussian filter. Claimed: the raster has the
/// size asked for. The picture must have pixels, its samples must be whole
/// numbers, and the rasters that the two passes make must be addressable.
#[verifier::external_body]
fn resample(picture: &image::DynamicImage, width: u32, height: u32) -> (c: Canvas)
    requires
        whole_samples(picture_color(*picture)),
        picture_dimensions(*picture).0 >= 1,
        picture_dimensions(*picture).1 >= 1,
        raster_len(picture_dimensions(*picture).0 as int, picture_dimensions(*picture).1 as int)
            <= usize::MAX,
        raster_len(picture_dimensions(*picture).0 as int, height as int) <= usize::MAX,
        raster_len(width as int, height as int) <= usize::MAX,
    ensures
        canvas_dimensions(c) == (width, height),
        canvas_pixels(c).len() == raster_len(width as int, height as int),
        resampled(*picture, width, height, canvas_pixels(c)),
{
    Canvas {
        inner: image::imageops::resize(
            picture,
            width,
            height,
            image::imageops::FilterType::Gaussian,
        ),
    }
}

/// `GenericImage::copy_from` at column 0 and row `y`, with a tile as wide as
/// the canvas. Claimed: the rows from `y` on, as many as the tile has, become
/// the tile's, and nothing else changes.
#[verifier::external_body]
fn place(canvas: &mut Canvas, tile: &Canvas, y: u32)
    requires
        canvas_dimensions(*tile).0 == canvas_dimensions(*old(canvas)).0,
        y + canvas_dimensions(*tile).1 <= canvas_dimensions(*old(canvas)).1,
    ensures
        canvas_dimensions(*final(canvas)) == canvas_dimensions(*old(canvas)),
        canvas_pixels(*final(canvas)) == canvas_pixels(*old(canvas)).take(
            raster_len(canvas_dimensions(*tile).0 as int, y as int),
        ) + canvas_pixels(*tile) + canvas_pixels(*old(canvas)).skip(
            raster_len(canvas_dimensions(*tile).0 as int, y + canvas_dimensions(*tile).1),
        ),
{
    let _ = image::GenericImage::copy_from(&mut canvas.inner, &tile.inner, 0, y);
}

/// `ImageBuffer::write_with_encoder` with `JpegEncoder::new` over a vector.
/// Claimed: what is written depends on the raster alone, and the one error is
/// that of a side too long for the format, which holds it in sixteen bits.
#[verifier::external_body]
fn encode(canvas: &Canvas) -> (r: Option<Vec<u8>>)
    ensures
        r.is_some() == (canvas_dimensions(*canvas).0 <= MAX_JPEG_SIDE && canvas_dimensions(
            *canvas,
        ).1 <= MAX_JPEG_SIDE),
        match r {
            Some(bytes) => jpeg_encoding(
                canvas_pixels(*canvas),
                canvas_dimensions(*canvas).0,
                canvas_dimensions(*canvas).1,
            ) == Some(bytes@),
            None => jpeg_encoding(
                canvas_pixels(*canvas),
                canvas_dimensions(*canvas).0,
                canvas_dimensions(*canvas).1,
            ) is None,
        },
{
    let mut out: Vec<u8> = Vec::new();
    match canvas.inner.write_with_encoder(image::codecs::jpeg::JpegEncoder::new(&mut out)) {
        Ok(_) => Some(out),
        Err(_) => None,
    }
}

impl Canvas {
    /// The width and the height, in pixels.
    pub fn dimensions(&self) -> (r: (u32, u32))
        ensures
            r == canvas_dimensions(*self),
            canvas_pixels(*self).len() == raster_len(r.0 as int, r.1 as int),
    {
        canvas_size(self)
    }

    /// The bytes of the raster, row after row.
    pub fn pixels(&self) -> (r: Vec<u8>)
        ensures
            r@ == canvas_pixels(*self),
    {
        canvas_bytes(self)
    }

    /// The raster as a JPEG file. It is an error where a side is longer
    /// than `MAX_JPEG_SIDE`, and only there.
    pub fn to_jpeg(&self) -> (r: Result<Vec<u8>, ImageFault>)
        ensures
            r is Ok <==> canvas_dimensions(*self).0 <= MAX_JPEG_SIDE && canvas_dimensions(
                *self,
            ).1 <= MAX_JPEG_SIDE,
            match r {
                Ok(bytes) => jpeg_encoding(
                    canvas_pixels(*self),
                    canvas_dimensions(*self).0,
                    canvas_dimensions(*self).1,
                ) == Some(bytes@),
                Err(e) => e == ImageFault::Encode && jpeg_encoding(
                    canvas_pixels(*self),
                    canvas_dimensions(*self).0,
                    canvas_dimensions(*self).1,
                ) is None,
            },
    {
        match encode(self) {
            Some(bytes) => Ok(bytes),
            None => Err(ImageFault::Encode),
        }
    }
}

/// Whether a raster of `width` by `height` pixels can be addressed.
fn addressable(width: u32, height: u32) -> (r: bool)
    ensures
        r == (raster_len(width as int, height as int) <= usize::MAX),
{
    let w = width as u128;
    let h = height as u128;
    assert(w * h <= 0xffff_ffff * 0xffff_ffff) by (nonlinear_arith)
        requires
            w <= 0xffff_ffff,
            h <= 0xffff_ffff,
    ;
    assert(4 * (w * h) == 4 * w * h) by (nonlinear_arith);
    4 * (w * h) <= usize::MAX as u128
}

/// Why a picture cannot be scaled, if it cannot: its samples are not whole
/// numbers, it has no pixels, or its raster is larger than memory can
/// address.
pub open spec fn scaling_fault(image: image::DynamicImage) -> Option<ImageFault> {
    let (w, h) = picture_dimensions(image);
    if !whole_samples(picture_color(image)) {
        Some(ImageFault::FloatSamples)
    } else if w == 0 || h == 0 {
        Some(ImageFault::Empty)
    } else if raster_len(w as int, h as int) > usize::MAX {
        Some(ImageFault::TooLarge)
    } else {
        None
    }
}

/// Whether the samples of a picture are whole numbers.
pub fn has_whole_samples(picture: &image::DynamicImage) -> (r: bool)
    ensures
        r == whole_samples(picture_color(*picture)),
{
    match picture_kind(picture) {
        ColorKind::Rgb32F => false,
        ColorKind::Rgba32F => false,
        ColorKind::Other => false,
        _ => true,
    }
}

/// The picture scaled down to fit a box of `width` by `height` pixels, never
/// up: its size is `scaled_size` of its own and the box, and its pixels are
/// those that the Gaussian filter makes of the picture's.
pub fn scale_image(image: &image::DynamicImage, width: u32, height: u32) -> (r: Result<
    Canvas,
    ImageFault,
>)
    ensures
        match r {
            Ok(canvas) => {
                &&& scaling_fault(*image) is None
                &&& canvas_dimensions(canvas) == scaled_picture_size(*image, width, height)
                &&& canvas_pixels(canvas).len() == raster_len(
                    scaled_picture_size(*image, width, height).0 as int,
                    scaled_picture_size(*image, width, height).1 as int,
                )
                &&& resampled(
                    *image,
                    scaled_picture_size(*image, width, height).0,
                    scaled_picture_size(*image, width, height).1,
                    canvas_pixels(canvas),
                )
            },
            Err(e) => scaling_fault(*image) == Some(e),
        },
{
    if !has_whole_samples(image) {
        return Err(ImageFault::FloatSamples);
    }
    let (src_w, src_h) = picture_size(image);
    if src_w == 0 || src_h == 0 {
        return Err(ImageFault::Empty);
    }
    if !addressable(src_w, src_h) {
        return Err(ImageFault::TooLarge);
    }
    let (w, h) = resize_dimensions(src_w, src_h, width, height);
    proof {
        assert(raster_len(src_w as int, h as int) <= raster_len(src_w as int, src_h as int))
            by (nonlinear_arith)
            requires
                0 <= h <= src_h,
                0 <= src_w,
        ;
        assert(raster_len(w as int, h as int) <= raster_len(src_w as int, h as int))
            by (nonlinear_arith)
            requires
                0 <= w <= src_w,
                0 <= h,
        ;
    }
    Ok(resample(image, w, h))
}

/// The size to which a picture is scaled to fit a box of `width` by
/// `height` pixels.
pub open spec fn scaled_picture_size(image: image::DynamicImage, width: u32, height: u32) -> (
    u32,
    u32,
) {
    let (w, h) = scaled_size(
        picture_dimensions(image).0 as int,
        picture_dimensions(image).1 as int,
        width as int,
        height as int,
    );
    (w as u32, h as u32)
}

/// Whether `bytes` is the picture as a JPEG file, scaled to fit a box of
/// `width` by `height` pixels: what the encoder writes for a raster that the
/// Gaussian filter makes of the picture at the scaled size.
pub open spec fn is_resized_jpeg(
    image: image::DynamicImage,
    width: u32,
    height: u32,
    bytes: Seq<u8>,
) -> bool {
    exists|pixels: Seq<u8>|
        #[trigger] resampled(
            image,
            scaled_picture_size(image, width, height).0,
            scaled_picture_size(image, width, height).1,
            pixels,
        ) && jpeg_encoding(
            pixels,
            scaled_picture_size(image, width, height).0,
            scaled_picture_size(image, width, height).1,
        ) == Some(bytes)
}

/// Why a picture cannot be written as a JPEG file scaled to fit a box of
/// `width` by `height` pixels, if it cannot: it cannot be scaled, or a side
/// of the scaled picture is longer than the format can state.
pub open spec fn resize_fault(image: image::DynamicImage, width: u32, height: u32) -> Option<
    ImageFault,
> {
    if scaling_fault(image) is Some {
        scaling_fault(image)
    } else if scaled_picture_size(image, width, height).0 > MAX_JPEG_SIDE || scaled_picture_size(
        image,
        width,
        height,
    ).1 > MAX_JPEG_SIDE {
        Some(ImageFault::Encode)
    } else {
        None
    }
}

/// Writes the picture to `buffer` as a JPEG file, scaled down to fit a box
/// of `width` by `height` pixels. It succeeds unless the picture cannot be
/// scaled or the scaled picture has a side longer than `MAX_JPEG_SIDE`; on an
/// error nothing is written.
pub fn resize_image(
    image: &image::DynamicImage,
    width: u32,
    height: u32,
    buffer: &mut NginxBuffer,
) -> (r: Result<(), ImageFault>)
    ensures
        r is Ok <==> scaling_fault(*image) is None && scaled_picture_size(*image, width, height).0
            <= 0xffff && scaled_picture_size(*image, width, height).1 <= 0xffff,
        match r {
            Ok(_) => old(buffer)@.is_prefix_of(final(buffer)@) && is_resized_jpeg(
                *image,
                width,
                height,
                final(buffer)@.skip(old(buffer)@.len() as int),
            ),
            Err(e) => *final(buffer) == *old(buffer) && resize_fault(*image, width, height)
                == Some(e),
        },
{
    let canvas = match scale_image(image, width, height) {
        Ok(canvas) => canvas,
        Err(e) => {
            return Err(e);
        },
    };
    match canvas.to_jpeg() {
        Ok(bytes) => {
            buffer.write(bytes.as_slice());
            proof {
                let (w, h) = canvas_dimensions(canvas);
                assert(resampled(*image, w, h, canvas_pixels(canvas)));
                assert(jpeg_encoding(canvas_pixels(canvas), w, h) == Some(bytes@));
                assert(buffer@.skip(old(buffer)@.len() as int) =~= bytes@);
            }
            Ok(())
        },
        Err(e) => Err(e),
    }
}

/// The height of a sheet that shows `count` thumbnails, in pixels.
pub open spec fn sheet_height(count: int) -> int {
    THUMBNAIL_SIZE * count
}

/// The bytes that one thumbnail takes on a sheet.
pub open spec fn tile_len() -> int {
    raster_len(THUMBNAIL_SIZE as int, THUMBNAIL_SIZE as int)
}

/// A sheet of `count` thumbnails takes `count` times the bytes of one.
proof fn lemma_tiles(count: int)
    ensures
        tile_len() == 40_000,
        raster_len(THUMBNAIL_SIZE as int, THUMBNAIL_SIZE * count) == count * tile_len(),
{
    assert(4 * 100 * 100 == 40_000) by (nonlinear_arith);
    assert(4 * 100 * (100 * count) == count * 40_000) by (nonlinear_arith);
}

/// An empty sheet for the records `sheet.start..sheet.end`: as wide as a
/// thumbnail, a thumbnail high for each record, and every byte 0.
pub fn new_sheet(sheet: &Sheet) -> (r: Result<Canvas, ImageFault>)
    ensures
        match r {
            Ok(canvas) => {
                let count = sheet.end - sheet.start;
                &&& 0 <= count <= MAX_TN_COUNT
                &&& canvas_dimensions(canvas) == (THUMBNAIL_SIZE, sheet_height(count) as u32)
                &&& canvas_pixels(canvas) == Seq::new(
                    (count * tile_len()) as nat,
                    |i: int| 0u8,
                )
            },
            Err(e) => e == ImageFault::Mismatch && !(0 <= sheet.end - sheet.start
                <= MAX_TN_COUNT),
        },
{
    if sheet.end < sheet.start || sheet.end - sheet.start > MAX_TN_COUNT {
        return Err(ImageFault::Mismatch);
    }
    let count = (sheet.end - sheet.start) as u32;
    let height: u32 = THUMBNAIL_SIZE * count;
    proof {
        lemma_tiles(count as int);
    }
    Ok(blank(THUMBNAIL_SIZE, height))
}

/// Why the thumbnail of a picture cannot be put on a sheet `offset` places
/// below the first, if it cannot: the sheet has no such place, or the samples
/// of the picture are not whole numbers.
pub open spec fn thumbnail_fault(
    sheet: Canvas,
    offset: usize,
    picture: image::DynamicImage,
) -> Option<ImageFault> {
    if !(canvas_dimensions(sheet).0 == THUMBNAIL_SIZE && sheet_height(offset + 1)
        <= canvas_dimensions(sheet).1) {
        Some(ImageFault::Mismatch)
    } else if !whole_samples(picture_color(picture)) {
        Some(ImageFault::FloatSamples)
    } else {
        None
    }
}

/// Puts the thumbnail of `picture` on the sheet, `offset` places below the
/// first: the rows of that place become those of the picture's thumbnail,
/// and nothing else changes. An error leaves the sheet as it is.
pub fn add_thumbnail(canvas: &mut Canvas, offset: usize, picture: &image::DynamicImage) -> (r:
    Result<(), ImageFault>)
    ensures
        canvas_dimensions(*final(canvas)) == canvas_dimensions(*old(canvas)),
        match r {
            Ok(_) => {
                &&& thumbnail_fault(*old(canvas), offset, *picture) is None
                &&& thumbnail_pixels(*picture, THUMBNAIL_SIZE, THUMBNAIL_SIZE).len() == tile_len()
                &&& canvas_pixels(*final(canvas)) == (canvas_pixels(*old(canvas)).take(
                    offset * tile_len(),
                ) + thumbnail_pixels(*picture, THUMBNAIL_SIZE, THUMBNAIL_SIZE)) + canvas_pixels(
                    *old(canvas),
                ).skip((offset + 1) * tile_len())
            },
            Err(e) => {
                &&& thumbnail_fault(*old(canvas), offset, *picture) == Some(e)
                &&& canvas_pixels(*final(canvas)) == canvas_pixels(*old(canvas))
            },
        },
{
    let (width, height) = canvas_size(canvas);
    if width != THUMBNAIL_SIZE || offset >= height as usize / THUMBNAIL_SIZE as usize {
        return Err(ImageFault::Mismatch);
    }
    if !has_whole_samples(picture) {
        return Err(ImageFault::FloatSamples);
    }
    let top: u32 = (offset as u32) * THUMBNAIL_SIZE;
    let tile = shrink(picture, THUMBNAIL_SIZE, THUMBNAIL_SIZE);
    proof {
        lemma_tiles(offset as int);
        lemma_tiles(offset + 1);
        lemma_tiles(1);
    }
    place(canvas, &tile, top);
    Ok(())
}

/// Where a frame taken out of a video is put before it is read.
pub const TMP_FILE: &'static str = "/tmp/out.jpg";

/// How the thumbnail of one record is made.
#[derive(Clone, Copy, Debug, PartialEq, Eq, Structural)]
pub struct ThumbnailPlan {
    /// Whether the picture is a frame taken out of the file, one second in,
    /// rather than the file itself.
    pub from_video: bool,
    /// How many places below the sheet's first the thumbnail goes.
    pub offset: usize,
    /// Whether the frame is kept as the video's preview.
    pub makes_preview: bool,
}

/// How the thumbnail of record `i` is made for `sheet`: from the file itself
/// where its name ends as a picture's does, else from a frame; `i -
/// sheet.start` places down; and with a preview where the record is a video.
pub open spec fn planned(images: Seq<Image>, sheet: Sheet, i: int) -> ThumbnailPlan {
    ThumbnailPlan {
        from_video: !jpg_name(images[i].path@),
        offset: (i - sheet.start) as usize,
        makes_preview: mp4_name(images[i].path@),
    }
}

/// How the thumbnail of record `i` is made for `sheet`; `None` where the
/// sheet does not show record `i`.
pub fn plan_thumbnail(images: &Vec<Image>, sheet: &Sheet, i: usize) -> (r: Option<ThumbnailPlan>)
    ensures
        match r {
            Some(plan) => {
                &&& sheet.start <= i < sheet.end
                &&& i < images.len()
                &&& plan == planned(images@, *sheet, i as int)
            },
            None => !(sheet.start <= i < sheet.end && i < images.len()),
        },
{
    if i < sheet.start || i >= sheet.end || i >= images.len() {
        return None;
    }
    Some(
        ThumbnailPlan {
            from_video: !is_jpg(&images[i].path),
            offset: i - sheet.start,
            makes_preview: images[i].is_mp4(),
        },
    )
}

/// The arguments with which the transcoder takes the frame one second into
/// the video at `path` and puts it in `TMP_FILE`.
pub fn frame_arguments(path: &str) -> (r: Vec<String>)
    ensures
        strings(r@) == seq![
            "-y"@,
            "-i"@,
            path@,
            "-ss"@,
            "00:00:01"@,
            "-vframes"@,
            "1"@,
            "-update"@,
            "true"@,
            TMP_FILE@,
        ],
{
    let mut r: Vec<String> = Vec::new();
    r.push(String::from_str("-y"));
    r.push(String::from_str("-i"));
    r.push(String::from_str(path));
    r.push(String::from_str("-ss"));
    r.push(String::from_str("00:00:01"));
    r.push(String::from_str("-vframes"));
    r.push(String::from_str("1"));
    r.push(String::from_str("-update"));
    r.push(String::from_str("true"));
    r.push(String::from_str(TMP_FILE));
    assert(strings(r@) =~= seq![
        "-y"@,
        "-i"@,
        path@,
        "-ss"@,
        "00:00:01"@,
        "-vframes"@,
        "1"@,
        "-update"@,
        "true"@,
        TMP_FILE@,
    ]);
    r
}

/// The bytes of the place `k` places below the first on a sheet.
pub open spec fn place_of(pixels: Seq<u8>, k: int) -> Seq<u8> {
    pixels.subrange(k * tile_len(), (k + 1) * tile_len())
}

/// A place on a sheet on which no thumbnail was put: every byte 0.
pub open spec fn blank_place() -> Seq<u8> {
    Seq::new(tile_len() as nat, |i: int| 0u8)
}

/// A sheet of thumbnails, and which of its places were filled.
pub struct FilledSheet {
    pub canvas: Canvas,
    /// For each record of the sheet, whether its thumbnail was put on it.
    pub placed: Vec<bool>,
}

/// Whether `picture` is what `fetch` may bring when it is asked for the
/// picture of record `i` with the plan `plan`.
pub open spec fn fetched<F: FnMut(usize, ThumbnailPlan) -> Option<image::DynamicImage>>(
    fetch: F,
    i: usize,
    plan: ThumbnailPlan,
    picture: Option<image::DynamicImage>,
) -> bool {
    call_ensures(fetch, (i, plan), picture)
}

/// Whether a place of a sheet shows what `fetch` brought for record `i`: it
/// was filled where a picture with whole samples was brought, and only there,
/// and then holds that picture's thumbnail.
pub open spec fn shows<F: FnMut(usize, ThumbnailPlan) -> Option<image::DynamicImage>>(
    fetch: F,
    i: usize,
    plan: ThumbnailPlan,
    placed: bool,
    place: Seq<u8>,
) -> bool {
    exists|picture: Option<image::DynamicImage>|
        #[trigger] fetched(fetch, i, plan, picture) && placed == (picture is Some && whole_samples(
            picture_color(picture->Some_0),
        )) && (placed ==> place == thumbnail_pixels(
            picture->Some_0,
            THUMBNAIL_SIZE,
            THUMBNAIL_SIZE,
        ))
}

/// Makes the sheet of thumbnails for the records `sheet.start..sheet.end`.
/// For each record in turn `fetch` is asked for the picture, with the
/// record's index and how its thumbnail is planned; where it brings one, the
/// thumbnail is put in the record's place; where it brings none, or one whose
/// samples are not whole numbers, the place stays blank and the sheet goes on. A sheet that does not lie within the
/// gallery, or is longer than a sheet may be, is an error.
pub fn make_preview_from_range<F: FnMut(usize, ThumbnailPlan) -> Option<image::DynamicImage>>(
    images: &Vec<Image>,
    sheet: &Sheet,
    mut fetch: F,
) -> (r: Result<FilledSheet, ImageFault>)
    requires
        forall|i: usize, plan: ThumbnailPlan| call_requires(fetch, (i, plan)),
    ensures
        match r {
            Ok(filled) => {
                let count = sheet.end - sheet.start;
                &&& sheet.start <= sheet.end <= images.len()
                &&& count <= MAX_TN_COUNT
                &&& canvas_dimensions(filled.canvas) == (THUMBNAIL_SIZE, sheet_height(count) as u32)
                &&& canvas_pixels(filled.canvas).len() == count * tile_len()
                &&& filled.placed.len() == count
                &&& forall|k: int|
                    0 <= k < count && !#[trigger] filled.placed[k] ==> place_of(
                        canvas_pixels(filled.canvas),
                        k,
                    ) == blank_place()
                &&& forall|k: int|
                    0 <= k < count ==> shows(
                        fetch,
                        (sheet.start + k) as usize,
                        planned(images@, *sheet, sheet.start + k),
                        #[trigger] filled.placed[k],
                        place_of(canvas_pixels(filled.canvas), k),
                    )
            },
            Err(e) => e == ImageFault::Mismatch && !(sheet.start <= sheet.end <= images.len()
                && sheet.end - sheet.start <= MAX_TN_COUNT),
        },
{
    if sheet.end > images.len() {
        return Err(ImageFault::Mismatch);
    }
    let mut canvas = match new_sheet(sheet) {
        Ok(canvas) => canvas,
        Err(e) => {
            return Err(e);
        },
    };
    let count = sheet.end - sheet.start;
    let mut placed: Vec<bool> = Vec::with_capacity(count);
    let mut k: usize = 0;
    let ghost asked = fetch;
    proof {
        lemma_tiles(count as int);
        lemma_tiles(1);
        assert forall|j: int| 0 <= j < count implies #[trigger] place_of(canvas_pixels(canvas), j)
            == blank_place() by {
            assert(place_of(canvas_pixels(canvas), j) =~= blank_place());
        }
    }
    while k < count
        invariant
            fetch == asked,
            forall|i: usize, plan: ThumbnailPlan| call_requires(fetch, (i, plan)),
            sheet.start <= sheet.end <= images.len(),
            count == sheet.end - sheet.start,
            count <= MAX_TN_COUNT,
            k <= count,
            placed.len() == k,
            canvas_dimensions(canvas) == (THUMBNAIL_SIZE, sheet_height(count as int) as u32),
            canvas_pixels(canvas).len() == count * tile_len(),
            tile_len() == 40_000,
            forall|j: int|
                k <= j < count ==> #[trigger] place_of(canvas_pixels(canvas), j) == blank_place(),
            forall|j: int|
                0 <= j < k && !#[trigger] placed[j] ==> place_of(canvas_pixels(canvas), j)
                    == blank_place(),
            forall|j: int|
                0 <= j < k ==> shows(
                    fetch,
                    (sheet.start + j) as usize,
                    planned(images@, *sheet, sheet.start + j),
                    #[trigger] placed[j],
                    place_of(canvas_pixels(canvas), j),
                ),
        decreases count - k,
    {
        let i = sheet.start + k;
        let plan = match plan_thumbnail(images, sheet, i) {
            Some(plan) => plan,
            None => {
                return Err(ImageFault::Mismatch);
            },
        };
        let ghost held = placed@;
        let ghost start_pixels = canvas_pixels(canvas);
        let got = fetch(i, plan);
        assert(fetched(fetch, i, plan, got));
        let done = match &got {
            Some(picture) => {
                let ghost before = canvas_pixels(canvas);
                match add_thumbnail(&mut canvas, k, picture) {
                    Ok(_) => {
                        proof {
                            let after = canvas_pixels(canvas);
                            assert forall|j: int| 0 <= j < count && j != k implies place_of(
                                after,
                                j,
                            ) == place_of(before, j) by {
                                assert(place_of(after, j) =~= place_of(before, j));
                            }
                            assert(place_of(after, k as int) =~= thumbnail_pixels(
                                *picture,
                                THUMBNAIL_SIZE,
                                THUMBNAIL_SIZE,
                            ));
                        }
                        true
                    },
                    Err(ImageFault::FloatSamples) => false,
                    Err(e) => {
                        return Err(e);
                    },
                }
            },
            None => false,
        };
        placed.push(done);
        proof {
            assert forall|j: int| 0 <= j < k + 1 implies shows(
                fetch,
                (sheet.start + j) as usize,
                planned(images@, *sheet, sheet.start + j),
                #[trigger] placed[j],
                place_of(canvas_pixels(canvas), j),
            ) by {
                if j < k {
                    assert(placed[j] == held[j]);
                    assert(place_of(canvas_pixels(canvas), j) == place_of(start_pixels, j));
                    assert(shows(
                        fetch,
                        (sheet.start + j) as usize,
                        planned(images@, *sheet, sheet.start + j),
                        held[j],
                        place_of(start_pixels, j),
                    ));
                } else {
                    assert(fetched(fetch, i, plan, got));
                }
            }
        }
        k += 1;
    }
    Ok(FilledSheet { canvas, placed })
}

/// Where the preview of a video goes, and the box that the frame is scaled
/// into; without a box the frame is kept as it is.
#[derive(Clone, Debug, PartialEq, Eq)]
pub struct PreviewPlan {
    pub path: String,
    pub size: Option<(u32, u32)>,
}

/// How the preview of the video `image` is made from its frame: the frame is
/// scaled down where the video has more than `PREVIEW_AREA` pixels, both
/// sides by the same factor, to that area.
pub fn make_mp4_preview(image: &Image) -> (r: PreviewPlan)
    ensures
        r.path@ == image.path@ + ".preview.jpg"@,
        match r.size {
            None => image.width * image.height <= PREVIEW_AREA,
            Some((w, h)) => image.width * image.height > PREVIEW_AREA && is_preview_side(
                w as int,
                image.width as int,
                image.height as int,
            ) && is_preview_side(h as int, image.height as int, image.width as int),
        },
{
    PreviewPlan { path: as_preview(&image.path), size: preview_size(image.width, image.height) }
}

/// Writes the bytes of a file to `buffer`, where the file could be read.
pub fn load_file(contents: Option<&[u8]>, buffer: &mut NginxBuffer) -> (loaded: bool)
    ensures
        loaded == contents is Some,
        final(buffer)@ == match contents {
            Some(bytes) => old(buffer)@ + bytes@,
            None => old(buffer)@,
        },
{
    match contents {
        Some(bytes) => {
            buffer.write(bytes);
            true
        },
        None => false,
    }
}

} // verus!
