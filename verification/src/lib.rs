//! Static photo-gallery generator: orders a directory listing, balances the
//! images across three display columns, and renders the gallery's HTML pages.

use vstd::prelude::*;

pub mod order;
pub mod pack;
pub mod pages;
pub mod pipeline;
pub mod probe;

verus! {

/// Errors the gallery pipeline can surface.
#[derive(Clone, Copy, Debug, PartialEq, Eq, Structural)]
pub enum GalleryError {
    /// A file could not be interpreted as an image with readable dimensions.
    UnsupportedFormat,
    /// A filename lacks the extension needed to derive its page's base name.
    MissingExtension,
}

/// The views of a sequence of owned strings.
pub open spec fn views_of(ss: Seq<String>) -> Seq<Seq<char>> {
    ss.map_values(|s: String| s@)
}

} // verus!
