//! Plugin lookup under a two-way naming scheme: `<name>_plugin.dll` on Windows
//! and `lib<name>_plugin.so` on every other system, macOS included.

use vstd::prelude::*;

use crate::error::ImageProcessorError;
use crate::plugin_loader::{
    is_not_found_error, join_path, joined_path, path_exists, path_is_file,
    plugin_lookup_outcome, TargetOs,
};

verus! {

/// The file name under which this lookup expects the library of `plugin_name`.
pub open spec fn library_file_name_text(plugin_name: Seq<char>, os: TargetOs) -> Seq<char> {
    match os {
        TargetOs::Windows => plugin_name + "_plugin.dll"@,
        _ => "lib"@ + plugin_name + "_plugin.so"@,
    }
}

/// Returns the file name under which this lookup expects the library of `plugin_name`.
pub fn library_file_name(plugin_name: &str, os: TargetOs) -> (r: String)
    ensures
        r@ == library_file_name_text(plugin_name@, os),
{
    match os {
        TargetOs::Windows => {
            let mut name = String::from_str(plugin_name);
            name.append("_plugin.dll");
            name
        },
        _ => {
            let mut name = String::from_str("lib");
            name.append(plugin_name);
            name.append("_plugin.so");
            name
        },
    }
}

/// On every system but Windows the library of plugin `n` is `lib`, then `n`,
/// then `_plugin.so`, so macOS and the others agree; on Windows it is `n`
/// followed by `_plugin.dll`. On Windows and on systems other than macOS this
/// scheme names libraries as the plugin loader does.
pub proof fn lemma_library_file_names(n: Seq<char>, os: TargetOs)
    ensures
        os != TargetOs::Windows ==> library_file_name_text(n, os) == "lib"@ + n + "_plugin.so"@,
        os == TargetOs::Windows ==> library_file_name_text(n, os) == n + "_plugin.dll"@,
        library_file_name_text(n, TargetOs::MacOs) == library_file_name_text(n, TargetOs::Other),
        os != TargetOs::MacOs ==> library_file_name_text(n, os)
            == crate::plugin_loader::plugin_file_name_text(n, os),
{
}

/// Looks for the library of plugin `plugin_name` in directory `plugin_path`:
/// the library's path when it is an existing regular file, an error that names
/// the plugin, the directory and the expected path otherwise.
pub fn find_plugin_library(plugin_path: &str, plugin_name: &str, os: TargetOs) -> (r: Result<
    String,
    ImageProcessorError,
>)
    ensures
        match r {
            Ok(p) => p@ == joined_path(plugin_path@, library_file_name_text(plugin_name@, os)),
            Err(e) => is_not_found_error(
                e,
                plugin_name@,
                plugin_path@,
                joined_path(plugin_path@, library_file_name_text(plugin_name@, os)),
            ),
        },
{
    let file_name = library_file_name(plugin_name, os);
    let full_path = join_path(plugin_path, file_name.as_str());
    let found = path_exists(full_path.as_str()) && path_is_file(full_path.as_str());
    plugin_lookup_outcome(plugin_path, plugin_name, full_path, found)
}

} // verus!
