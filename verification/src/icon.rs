//! The window icon: the embedded PNG decoded to RGBA pixels, or no pixels at
//! all when it cannot be decoded.
use vstd::prelude::*;

verus! {

/// RGBA pixels of an icon (unmultiplied alpha), with its size.
#[derive(Debug, Clone, PartialEq, Eq)]
pub struct IconPixels {
    /// RGBA bytes, row by row.
    pub rgba: Vec<u8>,
    /// Width in pixels.
    pub width: u32,
    /// Height in pixels.
    pub height: u32,
}

/// Whether a buffer of `len` bytes holds the four channels of every pixel of
/// a `width` by `height` image.
pub open spec fn covers_pixels(len: nat, width: u32, height: u32) -> bool {
    len >= 4 * width * height
}

/// Decodes `image` with `image::load_from_memory` (format guessed from the
/// bytes) and converts it with `into_rgba8`, handing back the raw RGBA buffer
/// with the width and height, or `None` when decoding fails.
///
/// The contract states only what holds of every outcome: an RGBA buffer has
/// room for four bytes per pixel (`ImageBuffer` is only built over a buffer at
/// least that long). Which pixels come back is not stated, nor that the same
/// bytes decode the same way twice: `image` consults process-wide format and
/// decoding hooks that any code in the process may register.
#[verifier::external_body]
fn decode_rgba(image: &[u8]) -> (decoded: Option<(Vec<u8>, u32, u32)>)
    ensures
        decoded matches Some((rgba, width, height)) ==> covers_pixels(rgba@.len(), width, height),
{
    match image::load_from_memory(image) {
        Ok(picture) => {
            let rgba = picture.into_rgba8();
            let (width, height) = rgba.dimensions();
            Some((rgba.into_raw(), width, height))
        },
        Err(_) => None,
    }
}

/// The icon for a decoding result: the decoded pixels and size, or an empty
/// icon (no pixels, zero size) when decoding failed.
pub fn icon_from_decoded(decoded: Option<(Vec<u8>, u32, u32)>) -> (icon: IconPixels)
    ensures
        decoded matches Some((rgba, width, height)) ==> icon.rgba@ == rgba@ && icon.width == width
            && icon.height == height,
        decoded is None ==> icon.rgba@.len() == 0 && icon.width == 0 && icon.height == 0,
{
    match decoded {
        Some((rgba, width, height)) => IconPixels { rgba, width, height },
        None => IconPixels { rgba: Vec::new(), width: 0, height: 0 },
    }
}

/// The icon decoded from the image bytes `image`, or an empty icon when they
/// cannot be decoded (`icon_from_decoded` says exactly which). Whatever the
/// decoder returns, the icon's buffer has four bytes for each of its pixels.
pub fn icon_pixels(image: &[u8]) -> (icon: IconPixels)
    ensures
        covers_pixels(icon.rgba@.len(), icon.width, icon.height),
{
    icon_from_decoded(decode_rgba(image))
}

} // verus!
