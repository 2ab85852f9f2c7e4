//! The picture as the `image` crate holds it, ready to be written.

use vstd::prelude::*;
use crate::raster::PixelTensor;

verus! {

/// A picture of eight-bit red, green and blue, held by the `image` crate.
#[verifier::external_body]
pub struct Picture {
    /// The picture itself, for the code that encodes and writes it.
    pub image: image::RgbImage,
}

/// The bytes of a picture: row after row, pixel after pixel, three a pixel.
pub uninterp spec fn picture_bytes(picture: Picture) -> Seq<u8>;

/// The width and the height of a picture, in pixels.
pub uninterp spec fn picture_size(picture: Picture) -> (nat, nat);

/// Whether a buffer of `len` bytes holds a picture of `width` by `height`
/// pixels of three bytes: the bytes of one row of pixels are no more than a
/// `usize` can say, and the bytes of all rows no more than `len`.
pub open spec fn buffer_holds(width: u32, height: u32, len: nat) -> bool {
    3 * width <= usize::MAX && 3 * (width * height) <= len
}

/// `ImageBuffer::from_raw` of the `image` crate, for pixels of three bytes.
/// It counts the bytes that the picture needs, three times `width` and that
/// times `height`, and gives none where either product is more than a
/// `usize` can say, or where the buffer holds fewer bytes. Otherwise it
/// gives a picture that has that width and height and keeps the buffer as
/// it is.
#[verifier::external_body]
fn picture_from_raw(width: u32, height: u32, raw: Vec<u8>) -> (r: Option<Picture>)
    ensures
        r is Some <==> buffer_holds(width, height, raw.len() as nat),
        r matches Some(picture) ==> picture_bytes(picture) == raw@ && picture_size(picture) == (
            width as nat,
            height as nat,
        ),
{
    match image::RgbImage::from_raw(width, height, raw) {
        Some(image) => Some(Picture { image }),
        None => None,
    }
}

/// The picture with the bytes of `tensor`, as wide as the tensor has
/// columns and as high as it has rows.
///
/// There is none where, and only where, the rows or the columns are more
/// than a picture's 32-bit sizes can say, or the bytes of one row of pixels
/// are more than a `usize` can say.
pub fn data_to_image(tensor: PixelTensor) -> (r: Option<Picture>)
    ensures
        match r {
            Some(picture) => picture_bytes(picture) == tensor@.data && picture_size(picture) == (
                tensor@.cols,
                tensor@.rows,
            ),
            None => tensor@.rows > u32::MAX || tensor@.cols > u32::MAX || 3 * tensor@.cols
                > usize::MAX,
        },
{
    let rows = tensor.rows();
    let cols = tensor.cols();
    if rows > u32::MAX as usize || cols > u32::MAX as usize {
        return None;
    }
    if cols.checked_mul(3).is_none() {
        return None;
    }
    let raw = tensor.into_raw();
    assert(3 * (cols * rows) == 3 * (rows * cols)) by (nonlinear_arith);
    picture_from_raw(cols as u32, rows as u32, raw)
}

} // verus!
