//! The errors that processing an image can end in.

use vstd::prelude::*;

verus! {

/// An I/O error, carried as it came.
#[verifier::external_type_specification]
#[verifier::external_body]
pub struct ExIoError(std::io::Error);

/// An error from loading a dynamic library or one of its symbols, carried as it came.
#[verifier::external_type_specification]
#[verifier::external_body]
pub struct ExLibloadingError(libloading::Error);

/// An error from decoding or encoding an image, carried as it came.
#[verifier::external_type_specification]
#[verifier::external_body]
pub struct ExImageError(image::ImageError);

/// Why processing an image failed.
#[derive(Debug)]
pub enum ImageProcessorError {
    /// The input file does not start with the PNG signature.
    InputFileNotPNG,
    /// The input path names something that is not a regular file.
    InputIsNotFile,
    /// The parameter path names something that is not a regular file.
    ParamsIsNotFile,
    /// The input file could not be opened.
    InputFileNotFound(std::io::Error),
    /// The parameter file could not be opened or read.
    ParamsFileNotFound(std::io::Error),
    /// No plugin library: plugin name, plugin directory, expected library path.
    PluginLibraryNotFound(String, String, String),
    /// The plugin library exists but could not be loaded.
    PluginLibraryLoad { path: String, source: libloading::Error },
    /// The plugin library has no usable `process_image` symbol.
    PluginSymbolLoad { path: String, source: libloading::Error },
    /// The pixel buffer's length differs from what the image extents call for:
    /// `expected` holds the length the extents call for, `actual` the buffer's.
    InvalidRgbaBufferLen { expected: usize, actual: usize },
    /// The parameter text holds a NUL byte, at the given byte position, so it
    /// cannot be handed over as a C string.
    InvalidParamsCString(usize),
    /// Decoding or encoding the image failed.
    Image(image::ImageError),
    /// The processed buffer could not be turned back into an image.
    ImageBufferFromRawFailed,
    /// The byte length of the image overflows a `usize`.
    InvalidRgbaBufferLenNone,
}

} // verus!
