use pathtrace::bitmap::{Bitmap, BitmapError};
use pathtrace::color::Rgb8;

#[test]
fn bitmap_size_checks() {
    assert!(matches!(Bitmap::new(0, 1, vec![]), Err(BitmapError::Size)));
    assert!(matches!(Bitmap::new(1, 0, vec![]), Err(BitmapError::Size)));
    assert!(matches!(Bitmap::new(2, 2, vec![0; 11]), Err(BitmapError::Size)));
    assert!(matches!(Bitmap::new(2, 2, vec![0; 13]), Err(BitmapError::Size)));
    assert!(matches!(Bitmap::new(u32::MAX, u32::MAX, vec![0; 3]), Err(BitmapError::Size)));
    assert!(Bitmap::new(2, 2, vec![0; 12]).is_ok());
}

#[test]
fn bitmap_texels_clamp_to_the_edge() {
    let data: Vec<u8> = (0..18).collect();
    let b = Bitmap::new(3, 2, data).unwrap();
    assert_eq!(b.texel(0, 0), Rgb8 { r: 0, g: 1, b: 2 });
    assert_eq!(b.texel(2, 0), Rgb8 { r: 6, g: 7, b: 8 });
    assert_eq!(b.texel(1, 1), Rgb8 { r: 12, g: 13, b: 14 });
    assert_eq!(b.texel(9, 1), Rgb8 { r: 15, g: 16, b: 17 });
    assert_eq!(b.texel(0, 7), Rgb8 { r: 9, g: 10, b: 11 });
    assert_eq!(b.texel(u32::MAX, u32::MAX), Rgb8 { r: 15, g: 16, b: 17 });
}

#[test]
fn bitmap_rejects_bytes_that_are_no_image() {
    let junk = b"not an image at all".to_vec();
    assert!(matches!(Bitmap::from_encoded(&junk), Err(BitmapError::Decode)));
    assert!(matches!(Bitmap::from_encoded(&Vec::new()), Err(BitmapError::Decode)));
}

#[test]
fn bitmap_decodes_a_jpeg() {
    let (w, h) = (4u32, 3u32);
    let pixels: Vec<u8> = vec![200; (w * h * 3) as usize];
    let mut encoded = Vec::new();
    image::codecs::jpeg::JpegEncoder::new(&mut encoded)
        .encode(&pixels, w, h, image::ColorType::Rgb8)
        .unwrap();
    let b = Bitmap::from_encoded(&encoded).unwrap();
    assert_eq!((b.width, b.height), (w, h));
    assert_eq!(b.data.len(), (w * h * 3) as usize);
    let t = b.texel(1, 1);
    for c in [t.r, t.g, t.b] {
        assert!((190..=210).contains(&c));
    }
}

#[test]
fn bitmap_of_one_pixel() {
    let b = Bitmap::new(1, 1, vec![7, 8, 9]).unwrap();
    assert_eq!((b.width, b.height, b.data.len()), (1, 1, 3));
    for (i, j) in [(0, 0), (1, 0), (0, 1), (5, 5)] {
        assert_eq!(b.texel(i, j), Rgb8 { r: 7, g: 8, b: 9 });
    }
}

#[test]
fn bitmap_texels_past_the_last_column_and_row() {
    // 2 wide, 3 high: texel (i, j) holds 10 * j + i in every channel
    let mut data = Vec::new();
    for j in 0..3u8 {
        for i in 0..2u8 {
            data.extend([10 * j + i; 3]);
        }
    }
    let b = Bitmap::new(2, 3, data).unwrap();
    let v = |c: u8| Rgb8 { r: c, g: c, b: c };
    assert_eq!(b.texel(1, 0), v(1));
    assert_eq!(b.texel(2, 0), v(1));
    assert_eq!(b.texel(0, 2), v(20));
    assert_eq!(b.texel(0, 3), v(20));
    assert_eq!(b.texel(100, 100), v(21));
    assert_eq!(b.texel(1, 1), v(11));
}

#[test]
fn bitmap_size_error_on_mismatch_by_one_pixel() {
    assert!(matches!(Bitmap::new(3, 2, vec![0; 15]), Err(BitmapError::Size)));
    assert!(matches!(Bitmap::new(3, 2, vec![0; 21]), Err(BitmapError::Size)));
    assert!(matches!(Bitmap::new(3, 2, Vec::new()), Err(BitmapError::Size)));
}
