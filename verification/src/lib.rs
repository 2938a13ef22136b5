//! Pixel-buffer filters (mirroring and box blur) over RGBA8 images, and the
//! checks that the image processor performs before it hands a buffer to a
//! filter plugin.

pub mod blur;
pub mod error;
pub mod mirror;
pub mod plugin;
pub mod plugin_loader;
pub mod raster;

use vstd::prelude::*;

verus! {

/// A filesystem path, carried as it came.
#[verifier::external_type_specification]
#[verifier::external_body]
pub struct ExPathBuf(std::path::PathBuf);

/// What one run of the image processor works on.
pub struct ArgsParam {
    /// The PNG image to read.
    pub input: std::path::PathBuf,
    /// Where the processed image is written.
    pub output: std::path::PathBuf,
    /// The name of the plugin that processes the image.
    pub plugin: String,
    /// The text file that holds the plugin's parameters.
    pub params: std::path::PathBuf,
    /// The directory that holds the plugin libraries.
    pub plugin_path: std::path::PathBuf,
}

/// The eight bytes that every PNG file starts with.
pub open spec fn png_signature() -> Seq<u8> {
    seq![0x89u8, 0x50u8, 0x4Eu8, 0x47u8, 0x0Du8, 0x0Au8, 0x1Au8, 0x0Au8]
}

/// Whether the first eight bytes read from a file are the PNG signature.
pub fn has_png_signature(header: &[u8; 8]) -> (r: bool)
    ensures
        r == (header@ == png_signature()),
{
    let png_header: [u8; 8] = [0x89, 0x50, 0x4E, 0x47, 0x0D, 0x0A, 0x1A, 0x0A];
    let mut i: usize = 0;
    while i < 8
        invariant
            0 <= i <= 8,
            header@.len() == 8,
            png_header@ == png_signature(),
            forall|j: int| 0 <= j < i ==> header@[j] == png_header@[j],
        decreases 8 - i,
    {
        if header[i] != png_header[i] {
            assert(header@[i as int] != png_signature()[i as int]);
            return false;
        }
        i = i + 1;
    }
    assert(header@ =~= png_signature());
    true
}

} // verus!
