use image_processor::error::ImageProcessorError;
use image_processor::has_png_signature;
use image_processor::plugin;
use image_processor::plugin_loader::{
    check_params_text, check_plugin_call, check_rgba_buffer, find_plugin_library,
    plugin_file_name, plugin_lookup_outcome, TargetOs,
};

#[test]
fn png_signature_is_recognised() {
    let png_header = [0x89, 0x50, 0x4E, 0x47, 0x0D, 0x0A, 0x1A, 0x0A];
    assert!(has_png_signature(&png_header));
}

#[test]
fn other_headers_are_not_png() {
    assert!(!has_png_signature(&[0, 0, 0, 0, 0, 0, 0, 0]));
    assert!(!has_png_signature(&[0x89, 0x50, 0x4E, 0x47, 0x0D, 0x0A, 0x1A, 0x0B]));
}

#[test]
fn plugin_file_names_per_os() {
    assert_eq!(plugin_file_name("mirror", TargetOs::Other), "libmirror_plugin.so");
    assert_eq!(plugin_file_name("mirror", TargetOs::MacOs), "libmirror_plugin.dylib");
    assert_eq!(plugin_file_name("blur", TargetOs::Windows), "blur_plugin.dll");
    assert_eq!(plugin::library_file_name("blur", TargetOs::MacOs), "libblur_plugin.so");
    assert_eq!(plugin::library_file_name("blur", TargetOs::Windows), "blur_plugin.dll");
}

#[test]
fn missing_plugin_is_reported_with_its_expected_path() {
    let dir = "/nonexistent/plugins/dir";
    match find_plugin_library(dir, "mirror", TargetOs::Other) {
        Err(ImageProcessorError::PluginLibraryNotFound(name, path, file)) => {
            assert_eq!(name, "mirror");
            assert_eq!(path, dir);
            assert_eq!(file, "/nonexistent/plugins/dir/libmirror_plugin.so");
        }
        other => panic!("unexpected outcome: {:?}", other),
    }
    match plugin::find_plugin_library(dir, "blur", TargetOs::MacOs) {
        Err(ImageProcessorError::PluginLibraryNotFound(_, _, file)) => {
            assert_eq!(file, "/nonexistent/plugins/dir/libblur_plugin.so");
        }
        other => panic!("unexpected outcome: {:?}", other),
    }
}

#[test]
fn found_plugin_path_is_returned() {
    match plugin_lookup_outcome("dir", "mirror", "dir/libmirror_plugin.so".to_string(), true) {
        Ok(p) => assert_eq!(p, "dir/libmirror_plugin.so"),
        Err(e) => panic!("unexpected error: {:?}", e),
    }
}

#[test]
fn buffer_length_is_checked() {
    assert!(check_rgba_buffer(2, 3, 24).is_ok());
    match check_rgba_buffer(2, 3, 20) {
        Err(ImageProcessorError::InvalidRgbaBufferLen { expected, actual }) => {
            assert_eq!(expected, 24);
            assert_eq!(actual, 20);
        }
        other => panic!("unexpected outcome: {:?}", other),
    }
    if usize::BITS == 64 {
        assert!(matches!(
            check_rgba_buffer(u32::MAX, u32::MAX, 0),
            Err(ImageProcessorError::InvalidRgbaBufferLenNone)
        ));
    }
}

#[test]
fn params_with_nul_are_refused_at_the_first_nul() {
    assert!(check_params_text("{\"horizontal\": true}").is_ok());
    assert!(check_params_text("").is_ok());
    match check_params_text("ab\0c\0") {
        Err(ImageProcessorError::InvalidParamsCString(p)) => assert_eq!(p, 2),
        other => panic!("unexpected outcome: {:?}", other),
    }
    match check_params_text("é\0") {
        Err(ImageProcessorError::InvalidParamsCString(p)) => assert_eq!(p, 2),
        other => panic!("unexpected outcome: {:?}", other),
    }
}

#[test]
fn plugin_call_checks_length_before_params() {
    assert!(matches!(
        check_plugin_call(1, 1, 3, "a\0"),
        Err(ImageProcessorError::InvalidRgbaBufferLen { expected: 4, actual: 3 })
    ));
    assert!(matches!(
        check_plugin_call(1, 1, 4, "a\0"),
        Err(ImageProcessorError::InvalidParamsCString(1))
    ));
    assert!(check_plugin_call(1, 1, 4, "{}").is_ok());
    assert!(matches!(
        check_plugin_call(2, 1, 4, "{}"),
        Err(ImageProcessorError::InvalidRgbaBufferLen { expected: 8, actual: 4 })
    ));
}
