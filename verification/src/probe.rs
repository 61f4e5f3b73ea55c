//! The dimension prober: reads an image's pixel width and height from its
//! encoded bytes, through the `image` crate.

use vstd::prelude::*;
use crate::GalleryError;

verus! {

/// The dimensions the `image` crate reads from these encoded bytes: `Some`
/// of (width, height) when it recognises the format and can read the
/// header, `None` otherwise.
pub uninterp spec fn probed_dims(data: Seq<u8>) -> Option<(u32, u32)>;

/// Relies on `image::ImageReader`: `with_guessed_format` inspects only the
/// leading bytes (and its I/O cannot fail over an in-memory cursor), and
/// `into_dimensions` reads the dimensions from the image header; with no
/// decoding hooks registered, the outcome depends on the bytes alone.
#[verifier::external_body]
fn probe_dims_raw(data: &[u8]) -> (r: Option<(u32, u32)>)
    ensures
        r == probed_dims(data@),
{
    image::ImageReader::new(std::io::Cursor::new(data))
        .with_guessed_format()
        .ok()
        .and_then(|reader| reader.into_dimensions().ok())
}

/// Probes one image's dimensions from its encoded bytes; bytes the `image`
/// crate cannot read as an image are rejected as unsupported.
pub fn probe_dimensions(data: &Vec<u8>) -> (r: Result<(u32, u32), GalleryError>)
    ensures
        match r {
            Ok(d) => probed_dims(data@) == Some(d),
            Err(e) => e == GalleryError::UnsupportedFormat && probed_dims(data@) is None,
        },
{
    match probe_dims_raw(data.as_slice()) {
        Some(d) => Ok(d),
        None => Err(GalleryError::UnsupportedFormat),
    }
}

} // verus!
