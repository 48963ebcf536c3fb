use rust_gallery::montage::{
    add_thumbnail, frame_arguments, has_whole_samples, make_mp4_preview, make_preview_from_range,
    new_sheet, plan_thumbnail, scale_image, ImageFault, PreviewPlan, ThumbnailPlan, TMP_FILE,
};
use rust_gallery::photos::Sheet;
use rust_gallery::timestamp::Timestamp;
use rust_gallery::{read_image, resize_image, Image, NginxBuffer};

fn image(path: &str) -> Image {
    Image {
        path: path.to_string(),
        caption: String::new(),
        time: Timestamp::epoch(),
        width: 0,
        height: 0,
        mp4_scaled: false,
        location: None,
    }
}

fn plain(width: u32, height: u32, colour: [u8; 4]) -> image::DynamicImage {
    image::DynamicImage::ImageRgba8(image::RgbaImage::from_pixel(width, height, image::Rgba(colour)))
}

fn sheet(start: usize, end: usize) -> Sheet {
    Sheet { file_name: "thumbnails.jpg".to_string(), start, end }
}

fn contents(buffer: &NginxBuffer) -> Vec<u8> {
    buffer.chain().iter().flat_map(|s| s.as_slice().to_vec()).collect()
}

fn jpeg(width: u32, height: u32) -> Vec<u8> {
    let rgb = image::RgbImage::from_pixel(width, height, image::Rgb([10, 200, 30]));
    let mut out = Vec::new();
    rgb.write_with_encoder(image::codecs::jpeg::JpegEncoder::new(&mut out)).unwrap();
    out
}

#[test]
fn new_sheet_is_blank_and_a_thumbnail_high_for_each_record() {
    let canvas = new_sheet(&sheet(655, 658)).unwrap();
    assert_eq!(canvas.dimensions(), (100, 300));
    assert_eq!(canvas.pixels(), vec![0u8; 120_000]);
    let none = new_sheet(&sheet(5, 5)).unwrap();
    assert_eq!(none.dimensions(), (100, 0));
    assert!(none.pixels().is_empty());
    assert_eq!(new_sheet(&sheet(0, 655)).unwrap().dimensions(), (100, 65_500));
}

#[test]
fn sheet_that_is_too_long_or_backwards_is_refused() {
    assert_eq!(new_sheet(&sheet(0, 656)).err(), Some(ImageFault::Mismatch));
    assert_eq!(new_sheet(&sheet(3, 2)).err(), Some(ImageFault::Mismatch));
}

#[test]
fn thumbnail_fills_its_place_and_no_other() {
    let mut canvas = new_sheet(&sheet(0, 3)).unwrap();
    assert_eq!(add_thumbnail(&mut canvas, 1, &plain(640, 480, [255, 0, 0, 255])), Ok(()));
    assert_eq!(canvas.dimensions(), (100, 300));
    let pixels = canvas.pixels();
    assert_eq!(&pixels[..40_000], &vec![0u8; 40_000][..]);
    assert_eq!(&pixels[80_000..], &vec![0u8; 40_000][..]);
    for pixel in pixels[40_000..80_000].chunks(4) {
        assert_eq!(pixel, &[255, 0, 0, 255]);
    }
    assert_eq!(add_thumbnail(&mut canvas, 0, &plain(30, 30, [0, 0, 255, 255])), Ok(()));
    let both = canvas.pixels();
    assert_eq!(&both[..4], &[0, 0, 255, 255]);
    assert_eq!(&both[39_996..40_004], &[0, 0, 255, 255, 255, 0, 0, 255]);
    assert_eq!(&both[80_000..], &vec![0u8; 40_000][..]);
}

#[test]
fn thumbnail_without_a_place_is_refused() {
    let mut canvas = new_sheet(&sheet(0, 2)).unwrap();
    let before = canvas.pixels();
    assert_eq!(add_thumbnail(&mut canvas, 2, &plain(8, 8, [1, 2, 3, 4])), Err(ImageFault::Mismatch));
    assert_eq!(add_thumbnail(&mut canvas, usize::MAX, &plain(8, 8, [1, 2, 3, 4])), Err(ImageFault::Mismatch));
    assert_eq!(canvas.pixels(), before);
    let mut wide = scale_image(&plain(200, 100, [1, 2, 3, 4]), 200, 100).unwrap();
    assert_eq!(add_thumbnail(&mut wide, 0, &plain(8, 8, [1, 2, 3, 4])), Err(ImageFault::Mismatch));
}

#[test]
fn sheet_is_written_as_a_jpeg() {
    let mut canvas = new_sheet(&sheet(0, 2)).unwrap();
    add_thumbnail(&mut canvas, 0, &plain(50, 50, [255, 255, 255, 255])).unwrap();
    let bytes = canvas.to_jpeg().unwrap();
    assert_eq!(&bytes[..2], &[0xff, 0xd8]);
    assert_eq!(&bytes[bytes.len() - 2..], &[0xff, 0xd9]);
    let back = read_image("thumbnails.jpg", &bytes).unwrap();
    assert_eq!((back.width(), back.height()), (100, 200));
    assert_eq!(canvas.to_jpeg().unwrap(), bytes);
}

#[test]
fn picture_that_fits_the_box_keeps_its_size() {
    let canvas = scale_image(&plain(80, 60, [9, 9, 9, 255]), 1920, 1080).unwrap();
    assert_eq!(canvas.dimensions(), (80, 60));
    assert_eq!(canvas.pixels().len(), 80 * 60 * 4);
    assert_eq!(&canvas.pixels()[..4], &[9, 9, 9, 255]);
}

#[test]
fn picture_is_scaled_down_to_the_box() {
    let canvas = scale_image(&plain(400, 300, [9, 9, 9, 255]), 192, 108).unwrap();
    assert_eq!(canvas.dimensions(), (144, 108));
    assert_eq!(canvas.pixels().len(), 144 * 108 * 4);
    let narrow = scale_image(&plain(400, 300, [9, 9, 9, 255]), 100, 100).unwrap();
    assert_eq!(narrow.dimensions(), (100, 75));
}

#[test]
fn picture_without_pixels_is_refused() {
    assert_eq!(scale_image(&plain(0, 0, [0; 4]), 10, 10).err(), Some(ImageFault::Empty));
    assert_eq!(scale_image(&plain(0, 7, [0; 4]), 10, 10).err(), Some(ImageFault::Empty));
    let mut buffer = NginxBuffer::new();
    assert_eq!(resize_image(&plain(3, 0, [0; 4]), 10, 10, &mut buffer), Err(ImageFault::Empty));
    assert!(buffer.chain().is_empty());
}

#[test]
fn resized_picture_is_written_to_the_sink() {
    let mut buffer = NginxBuffer::new();
    buffer.write(b"head");
    assert_eq!(resize_image(&plain(400, 300, [200, 100, 50, 255]), 192, 108, &mut buffer), Ok(()));
    let all = contents(&buffer);
    assert_eq!(&all[..4], b"head");
    assert_eq!(&all[4..6], &[0xff, 0xd8]);
    let back = read_image("x.jpg", &all[4..]).unwrap();
    assert_eq!((back.width(), back.height()), (144, 108));
    let pixel = back.to_rgb8().get_pixel(70, 50).0;
    assert!(pixel[0] > 180 && pixel[1] > 80 && pixel[1] < 120 && pixel[2] < 70, "{:?}", pixel);
}

#[test]
fn picture_wider_than_a_jpeg_can_be_is_not_written() {
    let mut buffer = NginxBuffer::new();
    let wide = plain(70_000, 1, [1, 1, 1, 255]);
    assert_eq!(resize_image(&wide, 70_000, 1, &mut buffer), Err(ImageFault::Encode));
    assert!(buffer.chain().is_empty());
    assert_eq!(resize_image(&wide, 65_536, 1, &mut buffer), Err(ImageFault::Encode));
    assert_eq!(resize_image(&wide, 65_535, 1, &mut buffer), Ok(()));
    assert!(!buffer.chain().is_empty());
    let tall = scale_image(&plain(1, 65_536, [1, 1, 1, 255]), 1, 65_536).unwrap();
    assert_eq!(tall.to_jpeg().err(), Some(ImageFault::Encode));
}

#[test]
fn thumbnail_depends_on_the_picture_alone() {
    let picture = plain(37, 91, [12, 34, 56, 255]);
    let mut one = new_sheet(&sheet(0, 2)).unwrap();
    let mut other = new_sheet(&sheet(0, 2)).unwrap();
    add_thumbnail(&mut one, 0, &picture).unwrap();
    add_thumbnail(&mut other, 1, &picture).unwrap();
    assert_eq!(&one.pixels()[..40_000], &other.pixels()[40_000..]);
    let direct = image::imageops::thumbnail(&picture, 100, 100).into_raw();
    assert_eq!(&one.pixels()[..40_000], &direct[..]);
}

#[test]
fn file_is_decoded_from_its_bytes() {
    let bytes = jpeg(64, 48);
    let picture = read_image("a.jpg", &bytes).unwrap();
    assert_eq!((picture.width(), picture.height()), (64, 48));
    let renamed = read_image("a.unknown", &bytes).unwrap();
    assert_eq!((renamed.width(), renamed.height()), (64, 48));
}

#[test]
fn bytes_that_are_no_picture_are_an_error() {
    assert!(read_image("a.jpg", b"not a picture").is_err());
    assert!(read_image("a.jpg", b"").is_err());
    assert!(read_image("a.txt", b"plain text").is_err());
}

#[test]
fn thumbnail_is_planned_by_the_kind_of_file() {
    let images = vec![image("a.jpg"), image("b.mp4"), image("c.MOV"), image("d.JPG")];
    let s = sheet(1, 4);
    assert_eq!(plan_thumbnail(&images, &s, 0), None);
    assert_eq!(
        plan_thumbnail(&images, &s, 1),
        Some(ThumbnailPlan { from_video: true, offset: 0, makes_preview: true })
    );
    assert_eq!(
        plan_thumbnail(&images, &s, 2),
        Some(ThumbnailPlan { from_video: true, offset: 1, makes_preview: true })
    );
    assert_eq!(
        plan_thumbnail(&images, &s, 3),
        Some(ThumbnailPlan { from_video: false, offset: 2, makes_preview: false })
    );
    assert_eq!(plan_thumbnail(&images, &s, 4), None);
    assert_eq!(plan_thumbnail(&images, &sheet(0, 9), 4), None);
}

#[test]
fn frame_is_taken_one_second_in() {
    assert_eq!(
        frame_arguments("b.mp4"),
        vec!["-y", "-i", "b.mp4", "-ss", "00:00:01", "-vframes", "1", "-update", "true", "/tmp/out.jpg"]
    );
    assert_eq!(TMP_FILE, "/tmp/out.jpg");
}

#[test]
fn preview_of_a_large_video_is_scaled() {
    let mut video = image("b.mp4");
    video.width = 3840;
    video.height = 2160;
    assert_eq!(
        make_mp4_preview(&video),
        PreviewPlan { path: "b.mp4.preview.jpg".to_string(), size: Some((1920, 1080)) }
    );
    video.width = 1920;
    video.height = 1080;
    assert_eq!(
        make_mp4_preview(&video),
        PreviewPlan { path: "b.mp4.preview.jpg".to_string(), size: None }
    );
}

#[test]
fn sheet_is_filled_record_by_record() {
    let images = vec![image("skip.jpg"), image("a.jpg"), image("broken.jpg"), image("c.mp4")];
    let mut asked = Vec::new();
    let filled = make_preview_from_range(&images, &sheet(1, 4), |i, plan| {
        asked.push((i, plan));
        if images[i].path == "broken.jpg" {
            None
        } else {
            Some(plain(20, 20, [i as u8, 0, 0, 255]))
        }
    })
    .unwrap();
    assert_eq!(
        asked,
        vec![
            (1, ThumbnailPlan { from_video: false, offset: 0, makes_preview: false }),
            (2, ThumbnailPlan { from_video: false, offset: 1, makes_preview: false }),
            (3, ThumbnailPlan { from_video: true, offset: 2, makes_preview: true }),
        ]
    );
    assert_eq!(filled.placed, vec![true, false, true]);
    assert_eq!(filled.canvas.dimensions(), (100, 300));
    let pixels = filled.canvas.pixels();
    assert_eq!(&pixels[..4], &[1, 0, 0, 255]);
    assert_eq!(&pixels[40_000..80_000], &vec![0u8; 40_000][..]);
    assert_eq!(&pixels[80_000..80_004], &[3, 0, 0, 255]);
}

#[test]
fn sheet_outside_the_gallery_is_refused() {
    let images = vec![image("a.jpg")];
    let mut calls = 0;
    let result = make_preview_from_range(&images, &sheet(0, 2), |_, _| {
        calls += 1;
        None
    });
    assert_eq!(result.err(), Some(ImageFault::Mismatch));
    assert_eq!(calls, 0);
    let empty = make_preview_from_range(&images, &sheet(1, 1), |_, _| None).unwrap();
    assert!(empty.placed.is_empty());
    assert_eq!(empty.canvas.dimensions(), (100, 0));
}

fn not_a_number() -> image::DynamicImage {
    image::DynamicImage::ImageRgb32F(image::Rgb32FImage::from_pixel(
        8,
        8,
        image::Rgb([f32::NAN, 0.5, 0.5]),
    ))
}

#[test]
fn samples_that_are_whole_numbers_are_told_apart() {
    let blank = image::DynamicImage::new_rgb8(2, 2);
    assert!(has_whole_samples(&blank));
    assert!(has_whole_samples(&image::DynamicImage::new_luma8(2, 2)));
    assert!(has_whole_samples(&image::DynamicImage::new_luma_a8(2, 2)));
    assert!(has_whole_samples(&image::DynamicImage::new_rgba8(2, 2)));
    assert!(has_whole_samples(&image::DynamicImage::new_luma16(2, 2)));
    assert!(has_whole_samples(&image::DynamicImage::new_luma_a16(2, 2)));
    assert!(has_whole_samples(&image::DynamicImage::new_rgb16(2, 2)));
    assert!(has_whole_samples(&image::DynamicImage::new_rgba16(2, 2)));
    assert!(!has_whole_samples(&image::DynamicImage::new_rgb32f(2, 2)));
    assert!(!has_whole_samples(&image::DynamicImage::new_rgba32f(2, 2)));
    assert!(!has_whole_samples(&not_a_number()));
}

#[test]
fn picture_of_other_than_whole_samples_is_refused() {
    let picture = not_a_number();
    let mut canvas = new_sheet(&sheet(0, 2)).unwrap();
    assert_eq!(add_thumbnail(&mut canvas, 0, &picture), Err(ImageFault::FloatSamples));
    assert_eq!(canvas.pixels(), vec![0u8; 80_000]);
    assert_eq!(add_thumbnail(&mut canvas, 2, &picture), Err(ImageFault::Mismatch));
    assert_eq!(scale_image(&picture, 4, 4).err(), Some(ImageFault::FloatSamples));
    assert_eq!(scale_image(&picture, 100, 100).err(), Some(ImageFault::FloatSamples));
    let mut buffer = NginxBuffer::new();
    assert_eq!(resize_image(&picture, 4, 4, &mut buffer), Err(ImageFault::FloatSamples));
    assert!(buffer.chain().is_empty());
    let empty = image::DynamicImage::new_rgb32f(0, 0);
    assert_eq!(scale_image(&empty, 4, 4).err(), Some(ImageFault::FloatSamples));
}

#[test]
fn sheet_goes_on_past_a_picture_of_other_than_whole_samples() {
    let images = vec![image("a.jpg"), image("b.jpg"), image("c.jpg")];
    let filled = make_preview_from_range(&images, &sheet(0, 3), |i, _| {
        if i == 1 {
            Some(not_a_number())
        } else {
            Some(plain(10, 10, [7, 7, 7, 255]))
        }
    })
    .unwrap();
    assert_eq!(filled.placed, vec![true, false, true]);
    let pixels = filled.canvas.pixels();
    assert_eq!(&pixels[..4], &[7, 7, 7, 255]);
    assert_eq!(&pixels[40_000..80_000], &vec![0u8; 40_000][..]);
    assert_eq!(&pixels[80_000..80_004], &[7, 7, 7, 255]);
}

#[test]
fn sixteen_bit_picture_is_scaled() {
    let picture = image::DynamicImage::ImageRgb16(image::ImageBuffer::from_pixel(
        40,
        30,
        image::Rgb([65_535u16, 0, 0]),
    ));
    let canvas = scale_image(&picture, 20, 20).unwrap();
    assert_eq!(canvas.dimensions(), (20, 15));
    let mut sheet_canvas = new_sheet(&sheet(0, 1)).unwrap();
    assert_eq!(add_thumbnail(&mut sheet_canvas, 0, &picture), Ok(()));
    assert_eq!(&sheet_canvas.pixels()[..4], &[255, 0, 0, 255]);
}
