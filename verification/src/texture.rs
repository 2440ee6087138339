//! The image-backed texture: a decoded picture held as plain bytes.
//!
//! Decoding is the outside crate's work and sits behind one trusted
//! wrapper; everything after it — keeping the dimensions with the bytes and
//! addressing a texel inside them — is verified. The mapping from surface
//! coordinates `(u, v)` to a texel column and row is floating point and
//! lives with the caller, which hands over the clamped integer indices.

use vstd::prelude::*;

verus! {

/// A decoded RGB image: three bytes per texel, rows of `width` texels
/// stored one after another, `height` rows.
pub struct ImageTexture {
    width: u32,
    height: u32,
    data: Vec<u8>,
}

/// Relies on image::load_from_memory and DynamicImage::to_rgb8: a
/// successfully decoded image, converted to eight-bit RGB, hands out its
/// dimensions and a raw buffer holding at least three bytes per texel in
/// row-major order.
#[verifier::external_body]
fn decode_rgb8(image_bytes: &[u8]) -> (r: Option<(u32, u32, Vec<u8>)>)
    ensures
        r matches Some(t) ==> t.2@.len() >= 3 * t.0 * t.1,
{
    match image::load_from_memory(image_bytes) {
        Ok(decoded) => {
            let rgb = decoded.to_rgb8();
            Some((rgb.width(), rgb.height(), rgb.into_raw()))
        },
        Err(_) => None,
    }
}

impl ImageTexture {
    /// The texel grid is addressable inside the byte buffer.
    pub closed spec fn wf(self) -> bool {
        self.data@.len() >= 3 * self.width * self.height
    }

    pub closed spec fn spec_width(self) -> u32 {
        self.width
    }

    pub closed spec fn spec_height(self) -> u32 {
        self.height
    }

    /// The bytes of the decoded picture, row-major, three per texel.
    pub closed spec fn bytes(self) -> Seq<u8> {
        self.data@
    }

    /// Decodes a picture from its raw file bytes; `None` when the bytes are
    /// not a readable image, where the caller decides whether that is
    /// fatal.
    pub fn new(image_bytes: &[u8]) -> (r: Option<ImageTexture>)
        ensures
            r matches Some(t) ==> t.wf(),
    {
        match decode_rgb8(image_bytes) {
            Some((width, height, data)) => Some(ImageTexture { width, height, data }),
            None => None,
        }
    }

    pub fn width(&self) -> (r: u32)
        ensures
            r == self.spec_width(),
    {
        self.width
    }

    pub fn height(&self) -> (r: u32)
        ensures
            r == self.spec_height(),
    {
        self.height
    }

    /// Where texel `(i, j)` starts in the byte buffer.
    pub open spec fn texel_offset(self, i: int, j: int) -> int {
        3 * i + 3 * self.spec_width() * j
    }

    /// The three colour bytes of texel `(i, j)`.
    pub fn texel(&self, i: u32, j: u32) -> (rgb: (u8, u8, u8))
        requires
            self.wf(),
            i < self.spec_width(),
            j < self.spec_height(),
        ensures
            rgb.0 == self.bytes()[self.texel_offset(i as int, j as int)],
            rgb.1 == self.bytes()[self.texel_offset(i as int, j as int) + 1],
            rgb.2 == self.bytes()[self.texel_offset(i as int, j as int) + 2],
    {
        let n: usize = self.data.len();
        proof {
            lemma_texel_offset_in_bounds(*self, i as int, j as int);
        }
        let offset64: u64 = 3 * (i as u64) + 3 * (self.width as u64) * (j as u64);
        let offset: usize = offset64 as usize;
        (self.data[offset], self.data[offset + 1], self.data[offset + 2])
    }
}

/// A texel's three bytes lie inside the buffer of any well-formed texture.
proof fn lemma_texel_offset_in_bounds(t: ImageTexture, i: int, j: int)
    requires
        t.wf(),
        0 <= i < t.spec_width(),
        0 <= j < t.spec_height(),
    ensures
        0 <= t.texel_offset(i, j),
        t.texel_offset(i, j) + 3 <= t.bytes().len(),
        t.texel_offset(i, j) == 3 * i + 3 * (t.spec_width() * j),
{
    let w = t.spec_width() as int;
    let h = t.spec_height() as int;
    assert(0 <= 3 * i + 3 * w * j && 3 * i + 3 * w * j + 3 <= 3 * w * h && 3 * i + 3 * w * j == 3
        * i + 3 * (w * j) && 3 * w * h == 3 * (w * h)) by (nonlinear_arith)
        requires
            0 <= i < w,
            0 <= j < h,
    ;
}

} // verus!
