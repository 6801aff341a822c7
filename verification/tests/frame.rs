use rustlock::frame::{decode_argb32, pixbuf_to_argb32, rgba_to_argb32,
    convert_xbgr8888_to_argb32, convert_xrgb8888_to_argb32, frame_to_argb32, FrameError, PixelFormat,
};

#[test]
fn xbgr_is_reordered() {
    let data = [1, 2, 3, 4, 5, 6, 7, 8];
    assert_eq!(convert_xbgr8888_to_argb32(&data, 2, 1), vec![3, 2, 1, 255, 7, 6, 5, 255]);
}

#[test]
fn xrgb_gets_opaque_alpha() {
    let data = [1, 2, 3, 4, 5, 6, 7, 8, 99];
    assert_eq!(convert_xrgb8888_to_argb32(&data, 1, 2), vec![1, 2, 3, 255, 5, 6, 7, 255]);
}

#[test]
fn rows_are_packed_without_padding() {
    // two rows of one pixel, 6 bytes apart
    let canvas = [1, 2, 3, 4, 0, 0, 5, 6, 7, 8, 0, 0];
    let out = frame_to_argb32(&canvas, 1, 2, 6, PixelFormat::Argb8888, false);
    assert_eq!(out, Ok(vec![1, 2, 3, 4, 5, 6, 7, 8]));
}

#[test]
fn upside_down_frames_are_flipped() {
    let canvas = [1, 2, 3, 4, 5, 6, 7, 8];
    let out = frame_to_argb32(&canvas, 1, 2, 4, PixelFormat::Xbgr8888, true);
    assert_eq!(out, Ok(vec![7, 6, 5, 255, 3, 2, 1, 255]));
}

#[test]
fn rows_past_the_canvas_are_zero() {
    let canvas = [1, 2, 3, 4];
    let out = frame_to_argb32(&canvas, 1, 3, 4, PixelFormat::Other, false);
    assert_eq!(out, Ok(vec![1, 2, 3, 4, 0, 0, 0, 0, 0, 0, 0, 0]));
}

#[test]
fn short_stride_is_an_error() {
    let canvas = [0u8; 16];
    assert_eq!(
        frame_to_argb32(&canvas, 2, 2, 7, PixelFormat::Argb8888, false),
        Err(FrameError::StrideTooSmall)
    );
}

#[test]
fn rgba_pixels_become_bgra() {
    let data = vec![1u8, 2, 3, 4, 10, 20, 30, 40];
    assert_eq!(rgba_to_argb32(&data, 2, 1), vec![3, 2, 1, 4, 30, 20, 10, 40]);
    assert_eq!(rgba_to_argb32(&data, 1, 1), vec![3, 2, 1, 4]);
}

#[test]
fn icon_pixels_are_packed_as_argb() {
    // Two rows of one RGB pixel each, rows padded to 4 bytes.
    let rgb = vec![1u8, 2, 3, 0, 4, 5, 6, 0];
    assert_eq!(pixbuf_to_argb32(&rgb, 1, 2, 4, 3), vec![3, 2, 1, 255, 6, 5, 4, 255]);
    // One row of two RGBA pixels.
    let rgba = vec![1u8, 2, 3, 9, 4, 5, 6, 8];
    assert_eq!(pixbuf_to_argb32(&rgba, 2, 1, 8, 4), vec![3, 2, 1, 9, 6, 5, 4, 8]);
    // Any other channel count gives transparent black.
    assert_eq!(pixbuf_to_argb32(&[7u8, 7], 1, 1, 2, 2), vec![0, 0, 0, 0]);
}

#[test]
fn flipping_twice_gives_back_the_rows() {
    let data: Vec<u8> = (0..24).collect();
    let once = frame_to_argb32(&data, 2, 3, 8, PixelFormat::Argb8888, true).unwrap();
    assert_ne!(once, data);
    let twice = frame_to_argb32(&once, 2, 3, 8, PixelFormat::Argb8888, true).unwrap();
    assert_eq!(twice, data);
}

fn png_of(width: u32, height: u32, rgba: Vec<u8>) -> Vec<u8> {
    let img = image::RgbaImage::from_raw(width, height, rgba).unwrap();
    let mut out = std::io::Cursor::new(Vec::new());
    image::DynamicImage::ImageRgba8(img).write_to(&mut out, image::ImageFormat::Png).unwrap();
    out.into_inner()
}

#[test]
fn encoded_images_decode_to_argb32() {
    let png = png_of(2, 1, vec![10, 20, 30, 255, 200, 100, 50, 128]);
    let (w, h, pixels) = decode_argb32(&png).unwrap();
    assert_eq!((w, h), (2, 1));
    assert_eq!(pixels, vec![30, 20, 10, 255, 50, 100, 200, 128]);
}

#[test]
fn bytes_that_are_no_image_decode_to_nothing() {
    assert!(decode_argb32(&[]).is_none());
    assert!(decode_argb32(b"not an image at all").is_none());
}
