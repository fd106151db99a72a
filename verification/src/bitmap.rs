//! Decoded images: encoded bytes (PNG, JPEG, WebP) turned into 8-bit RGBA
//! pixels by the `image` crate.
use vstd::prelude::*;

verus! {

/// What `image::load_from_memory(bytes)` followed by `into_rgba8()` gives:
/// width, height and the row-major RGBA bytes, or nothing when the bytes
/// do not decode.
pub uninterp spec fn rgba_decoding(bytes: Seq<u8>) -> Option<(u32, u32, Seq<u8>)>;

/// `image::load_from_memory` then `DynamicImage::into_rgba8`, taken apart
/// by `dimensions` and `into_raw`. The buffer that `into_raw` hands back is
/// one that `ImageBuffer::from_raw` accepted, so it holds at least four
/// bytes per pixel. The error's text (from `ImageError`'s `Display`) is left
/// unstated.
#[verifier::external_body]
fn load_rgba8(bytes: &[u8]) -> (r: Result<(u32, u32, Vec<u8>), String>)
    ensures
        r is Ok <==> rgba_decoding(bytes@) is Some,
        r matches Ok(t) ==> rgba_decoding(bytes@) == Some((t.0, t.1, t.2@)),
        r matches Ok(t) ==> t.2@.len() >= t.0 * t.1 * 4,
{
    match image::load_from_memory(bytes) {
        Ok(img) => {
            let rgba = img.into_rgba8();
            let (w, h) = rgba.dimensions();
            Ok((w, h, rgba.into_raw()))
        },
        Err(e) => Err(e.to_string()),
    }
}

/// An 8-bit RGBA image, rows top to bottom, four bytes per pixel.
pub struct Bitmap {
    width: u32,
    height: u32,
    pixels: Vec<u8>,
}

impl Bitmap {
    /// Every pixel has its four bytes.
    #[verifier::type_invariant]
    pub closed spec fn holds_all_pixels(self) -> bool {
        self.pixels@.len() >= self.width * self.height * 4
    }

    pub closed spec fn width_view(&self) -> u32 {
        self.width
    }

    pub closed spec fn height_view(&self) -> u32 {
        self.height
    }

    pub closed spec fn pixels_view(&self) -> Seq<u8> {
        self.pixels@
    }

    /// Decodes `bytes` into RGBA pixels; the decoder's message when they
    /// are not an image it reads.
    pub fn decode(bytes: &[u8]) -> (r: Result<Bitmap, String>)
        ensures
            r is Ok <==> rgba_decoding(bytes@) is Some,
            r matches Ok(b) ==> rgba_decoding(bytes@) == Some(
                (b.width_view(), b.height_view(), b.pixels_view()),
            ),
    {
        match load_rgba8(bytes) {
            Ok((width, height, pixels)) => Ok(Bitmap { width, height, pixels }),
            Err(msg) => Err(msg),
        }
    }

    pub fn width(&self) -> (w: u32)
        ensures
            w == self.width_view(),
    {
        self.width
    }

    pub fn height(&self) -> (h: u32)
        ensures
            h == self.height_view(),
    {
        self.height
    }

    /// The pixel bytes, at least four per pixel.
    pub fn pixels(&self) -> (p: &[u8])
        ensures
            p@ == self.pixels_view(),
            p@.len() >= self.width_view() * self.height_view() * 4,
    {
        proof {
            use_type_invariant(self);
        }
        self.pixels.as_slice()
    }
}

} // verus!
