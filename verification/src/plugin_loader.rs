//! Locating a filter plugin's library and checking the inputs of a plugin call.

use vstd::prelude::*;

use crate::error::ImageProcessorError;
use crate::raster::rgba_len;
use vstd::string::StringSliceAdditionalSpecFns;

verus! {

/// The operating-system family a plugin library is built for; it decides the
/// library's file name.
#[derive(Clone, Copy, PartialEq, Eq, Structural)]
pub enum TargetOs {
    Windows,
    MacOs,
    Other,
}

/// The file name of the library of plugin `plugin_name` on `os`.
pub open spec fn plugin_file_name_text(plugin_name: Seq<char>, os: TargetOs) -> Seq<char> {
    match os {
        TargetOs::Windows => plugin_name + "_plugin.dll"@,
        TargetOs::MacOs => "lib"@ + plugin_name + "_plugin.dylib"@,
        TargetOs::Other => "lib"@ + plugin_name + "_plugin.so"@,
    }
}

/// Returns the file name of the library of plugin `plugin_name` on `os`.
pub fn plugin_file_name(plugin_name: &str, os: TargetOs) -> (r: String)
    ensures
        r@ == plugin_file_name_text(plugin_name@, os),
{
    match os {
        TargetOs::Windows => {
            let mut name = String::from_str(plugin_name);
            name.append("_plugin.dll");
            name
        },
        TargetOs::MacOs => {
            let mut name = String::from_str("lib");
            name.append(plugin_name);
            name.append("_plugin.dylib");
            name
        },
        TargetOs::Other => {
            let mut name = String::from_str("lib");
            name.append(plugin_name);
            name.append("_plugin.so");
            name
        },
    }
}

/// The library of plugin `n` is `n` followed by `_plugin.dll` on Windows,
/// `lib`, `n`, `_plugin.dylib` on macOS and `lib`, `n`, `_plugin.so` elsewhere.
pub proof fn lemma_plugin_file_names(n: Seq<char>)
    ensures
        plugin_file_name_text(n, TargetOs::Windows) == n + "_plugin.dll"@,
        plugin_file_name_text(n, TargetOs::MacOs) == "lib"@ + n + "_plugin.dylib"@,
        plugin_file_name_text(n, TargetOs::Other) == "lib"@ + n + "_plugin.so"@,
{
}

/// The path that `std::path::Path::join` makes of directory `base` and
/// relative name `file_name`, as text.
pub uninterp spec fn joined_path(base: Seq<char>, file_name: Seq<char>) -> Seq<char>;

/// Calls `std::path::Path::join` on `base` and `file_name`; claims that the
/// result, as text, is `joined_path` of the two. The text of a path built from
/// two `str`s is valid UTF-8, so the lossy conversion loses nothing.
#[verifier::external_body]
pub(crate) fn join_path(base: &str, file_name: &str) -> (r: String)
    ensures
        r@ == joined_path(base@, file_name@),
{
    std::path::Path::new(base).join(file_name).to_string_lossy().into_owned()
}

/// Calls `std::path::Path::exists`. What it returns depends on the filesystem
/// at the time of the call, so nothing is claimed of it.
#[verifier::external_body]
pub(crate) fn path_exists(path: &str) -> bool {
    std::path::Path::new(path).exists()
}

/// Calls `std::path::Path::is_file`. What it returns depends on the filesystem
/// at the time of the call, so nothing is claimed of it.
#[verifier::external_body]
pub(crate) fn path_is_file(path: &str) -> bool {
    std::path::Path::new(path).is_file()
}

/// Whether `e` is the error that reports plugin `plugin_name` missing from
/// directory `plugin_path`, where it was looked for at `full_path`.
pub open spec fn is_not_found_error(
    e: ImageProcessorError,
    plugin_name: Seq<char>,
    plugin_path: Seq<char>,
    full_path: Seq<char>,
) -> bool {
    e matches ImageProcessorError::PluginLibraryNotFound(name, dir, file) && name@ == plugin_name
        && dir@ == plugin_path && file@ == full_path
}

/// Decides the outcome of a plugin lookup once the filesystem has been asked
/// whether `full_path` is an existing regular file (`found`).
pub fn plugin_lookup_outcome(plugin_path: &str, plugin_name: &str, full_path: String, found: bool) -> (r:
    Result<String, ImageProcessorError>)
    ensures
        found ==> (r matches Ok(p) && p@ == full_path@),
        !found ==> (r matches Err(e) && is_not_found_error(e, plugin_name@, plugin_path@, full_path@)),
{
    if found {
        Ok(full_path)
    } else {
        Err(
            ImageProcessorError::PluginLibraryNotFound(
                String::from_str(plugin_name),
                String::from_str(plugin_path),
                full_path,
            ),
        )
    }
}

/// Looks for the library of plugin `plugin_name` in directory `plugin_path`:
/// the library's path when it is an existing regular file, an error that names
/// the plugin, the directory and the expected path otherwise.
pub fn find_plugin_library(plugin_path: &str, plugin_name: &str, os: TargetOs) -> (r: Result<
    String,
    ImageProcessorError,
>)
    ensures
        match r {
            Ok(p) => p@ == joined_path(plugin_path@, plugin_file_name_text(plugin_name@, os)),
            Err(e) => is_not_found_error(
                e,
                plugin_name@,
                plugin_path@,
                joined_path(plugin_path@, plugin_file_name_text(plugin_name@, os)),
            ),
        },
{
    let file_name = plugin_file_name(plugin_name, os);
    let full_path = join_path(plugin_path, file_name.as_str());
    let found = path_exists(full_path.as_str()) && path_is_file(full_path.as_str());
    plugin_lookup_outcome(plugin_path, plugin_name, full_path, found)
}

/// Checks that a pixel buffer of `buffer_len` bytes holds exactly a `width` x
/// `height` RGBA8 image.
pub fn check_rgba_buffer(width: u32, height: u32, buffer_len: usize) -> (r: Result<
    (),
    ImageProcessorError,
>)
    ensures
        width * height * 4 > usize::MAX ==> (r matches Err(
            ImageProcessorError::InvalidRgbaBufferLenNone,
        )),
        width * height * 4 <= usize::MAX && buffer_len != width * height * 4 ==> (r matches Err(
            ImageProcessorError::InvalidRgbaBufferLen { expected, actual },
        ) && expected == width * height * 4 && actual == buffer_len),
        width * height * 4 == buffer_len ==> r is Ok,
{
    match rgba_len(width, height) {
        Some(v) => {
            if buffer_len != v {
                return Err(ImageProcessorError::InvalidRgbaBufferLen { expected: v, actual: buffer_len });
            }
        },
        None => return Err(ImageProcessorError::InvalidRgbaBufferLenNone),
    }
    Ok(())
}

/// Whether `bytes` holds no zero byte.
pub open spec fn nul_free(bytes: Seq<u8>) -> bool {
    forall|i: int| 0 <= i < bytes.len() ==> bytes[i] != 0
}

/// Whether `p` is the position of the first zero byte of `bytes`.
pub open spec fn is_first_nul(bytes: Seq<u8>, p: int) -> bool {
    &&& 0 <= p < bytes.len()
    &&& bytes[p] == 0
    &&& forall|j: int| 0 <= j < p ==> bytes[j] != 0
}

/// What checking parameter text for a C string gives: success when its bytes
/// hold no zero byte, else the error that names the first one.
pub open spec fn params_text_outcome(bytes: Seq<u8>, r: Result<(), ImageProcessorError>) -> bool {
    match r {
        Ok(()) => nul_free(bytes),
        Err(e) => e matches ImageProcessorError::InvalidParamsCString(p) && is_first_nul(bytes, p as int),
    }
}

/// Checks that `params` can be handed to a plugin as a C string: its UTF-8
/// bytes hold no zero byte. The error gives the position of the first one.
pub fn check_params_text(params: &str) -> (r: Result<(), ImageProcessorError>)
    ensures
        params_text_outcome(params.spec_bytes(), r),
{
    let bytes = params.as_bytes();
    let mut i: usize = 0;
    while i < bytes.len()
        invariant
            bytes@ == params.spec_bytes(),
            0 <= i <= bytes@.len(),
            forall|j: int| 0 <= j < i ==> bytes@[j] != 0,
        decreases bytes@.len() - i,
    {
        if bytes[i] == 0 {
            return Err(ImageProcessorError::InvalidParamsCString(i));
        }
        i = i + 1;
    }
    Ok(())
}

/// The checks that precede a plugin call, in the order the call makes them:
/// the buffer's length first, then the parameter text.
pub fn check_plugin_call(width: u32, height: u32, buffer_len: usize, params: &str) -> (r: Result<
    (),
    ImageProcessorError,
>)
    ensures
        width * height * 4 > usize::MAX ==> (r matches Err(
            ImageProcessorError::InvalidRgbaBufferLenNone,
        )),
        width * height * 4 <= usize::MAX && buffer_len != width * height * 4 ==> (r matches Err(
            ImageProcessorError::InvalidRgbaBufferLen { expected, actual },
        ) && expected == width * height * 4 && actual == buffer_len),
        width * height * 4 == buffer_len ==> params_text_outcome(params.spec_bytes(), r),
{
    match check_rgba_buffer(width, height, buffer_len) {
        Ok(()) => {},
        Err(e) => return Err(e),
    }
    check_params_text(params)
}

} // verus!
