use vstd::prelude::*;

use crate::color::Rgb8;

verus! {

/// The error of a failed image decode, `image::ImageError`.
#[verifier::external_type_specification]
#[verifier::external_body]
pub struct ExImageError(image::ImageError);

/// The size that decoding an encoded image (JPEG and the like) finds, as
/// width and height, or `None` when the bytes are not an image that can be
/// decoded. Only the size is named: the pixel values a JPEG decodes to may
/// differ from one CPU to another, as the decoder picks SIMD code paths at run
/// time.
pub uninterp spec fn decoded_size(bytes: Seq<u8>) -> Option<(u32, u32)>;

/// Relies on `image::load_from_memory`, whose result is converted with
/// `DynamicImage::to_rgb8` and taken apart into width, height and raw bytes.
/// Whether decoding succeeds, and the size found, depend on the bytes alone;
/// `to_rgb8` allocates its buffer with `ImageBuffer::new`, which holds exactly
/// three bytes for each pixel.
#[verifier::external_body]
fn decode_rgb(bytes: &[u8]) -> (r: Result<(u32, u32, Vec<u8>), image::ImageError>)
    ensures
        r is Ok <==> decoded_size(bytes@) is Some,
        r matches Ok(t) ==> decoded_size(bytes@) == Some((t.0, t.1)) && t.2@.len() == 3 * (t.0
            * t.1),
{
    let rgb = image::load_from_memory(bytes)?.to_rgb8();
    Ok((rgb.width(), rgb.height(), rgb.into_raw()))
}

/// Why a bitmap could not be made.
#[derive(Clone, Copy, Debug, PartialEq, Eq, Structural)]
pub enum BitmapError {
    /// The bytes are not an image that could be decoded.
    Decode,
    /// The size is zero, or the pixel bytes do not hold three bytes for each
    /// of `width * height` pixels.
    Size,
}

/// An RGB image with 8 bits per channel, row by row from the top, used as a
/// texture.
#[derive(Debug)]
pub struct Bitmap {
    pub width: u32,
    pub height: u32,
    pub data: Vec<u8>,
}

/// Whether a `width` by `height` image can be held in `len` bytes, three per
/// pixel, and has at least one pixel.
pub open spec fn fits(width: nat, height: nat, len: nat) -> bool {
    width > 0 && height > 0 && len == 3 * (width * height)
}

/// The texel in column `i` of row `j` of `data`, an image `width` pixels wide.
pub open spec fn texel_of(data: Seq<u8>, width: nat, i: nat, j: nat) -> Rgb8 {
    let at = (3 * (j * width + i)) as int;
    Rgb8 { r: data[at], g: data[at + 1], b: data[at + 2] }
}

/// `x`, or `hi` if `x` is above it.
pub open spec fn clamp_to(x: nat, hi: nat) -> nat {
    if x > hi {
        hi
    } else {
        x
    }
}

impl Bitmap {
    pub open spec fn wf(&self) -> bool {
        fits(self.width as nat, self.height as nat, self.data@.len())
    }

    /// A bitmap of the given size over `data`; `Size` unless `data` holds
    /// exactly three bytes for each of `width * height` pixels, at least one.
    pub fn new(width: u32, height: u32, data: Vec<u8>) -> (r: Result<Bitmap, BitmapError>)
        ensures
            r is Ok <==> fits(width as nat, height as nat, data@.len()),
            r is Err ==> r == Err::<Bitmap, BitmapError>(BitmapError::Size),
            r matches Ok(b) ==> b.width == width && b.height == height && b.data@ == data@ && b.wf(),
    {
        if width == 0 || height == 0 {
            return Err(BitmapError::Size);
        }
        assert((width as u64) * (height as u64) <= u64::MAX) by (nonlinear_arith)
            requires
                width <= u32::MAX,
                height <= u32::MAX,
        ;
        let area: u64 = (width as u64) * (height as u64);
        assert(area * 3 == 3 * (width * height)) by (nonlinear_arith)
            requires
                area == width * height,
        ;
        let len = data.len();
        let ok = match area.checked_mul(3) {
            Some(need) => need == len as u64,
            None => false,
        };
        assert(ok <==> fits(width as nat, height as nat, data@.len()));
        if ok {
            Ok(Bitmap { width, height, data })
        } else {
            Err(BitmapError::Size)
        }
    }

    /// Decodes an encoded image into a bitmap: `Decode` when the bytes are
    /// not an image, `Size` when the decoded image has no pixels.
    pub fn from_encoded(bytes: &Vec<u8>) -> (r: Result<Bitmap, BitmapError>)
        ensures
            decoded_size(bytes@) is None ==> r == Err::<Bitmap, BitmapError>(BitmapError::Decode),
            decoded_size(bytes@) matches Some(t) ==> {
                &&& (r is Ok <==> t.0 > 0 && t.1 > 0)
                &&& (r is Err ==> r == Err::<Bitmap, BitmapError>(BitmapError::Size))
                &&& (r matches Ok(b) ==> b.width == t.0 && b.height == t.1)
            },
            r matches Ok(b) ==> b.wf(),
    {
        match decode_rgb(bytes.as_slice()) {
            Ok((width, height, data)) => Bitmap::new(width, height, data),
            Err(_) => Err(BitmapError::Decode),
        }
    }

    /// The texel at column `i`, row `j` (from the top); coordinates past the
    /// last column or row are taken as the last one.
    pub fn texel(&self, i: u32, j: u32) -> (r: Rgb8)
        requires
            self.wf(),
        ensures
            r == texel_of(
                self.data@,
                self.width as nat,
                clamp_to(i as nat, (self.width - 1) as nat),
                clamp_to(j as nat, (self.height - 1) as nat),
            ),
    {
        let i = if i > self.width - 1 { self.width - 1 } else { i };
        let j = if j > self.height - 1 { self.height - 1 } else { j };
        let w = self.width as usize;
        let h = self.height as usize;
        let ii = i as usize;
        let jj = j as usize;
        let len = self.data.len();
        assert(3 * (jj * w + ii) + 2 < 3 * (w * h) && jj * w <= jj * w + ii) by (nonlinear_arith)
            requires
                ii < w,
                jj < h,
        {
            assert(jj * w + ii < (jj + 1) * w);
            assert((jj + 1) * w <= h * w);
        }
        assert(3 * (w * h) == len);
        let row_start: usize = jj * w;
        let at: usize = 3 * (row_start + ii);
        Rgb8 { r: self.data[at], g: self.data[at + 1], b: self.data[at + 2] }
    }
}

} // verus!
