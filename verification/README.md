# image_processor

Filters for RGBA8 pixel buffers and the checks around a plugin-based image
processor, verified with Verus.

- `src/raster.rs` — layout of a row-major RGBA8 buffer (pixel and channel
  offsets, image byte length) and the arithmetic facts about it.
- `src/mirror.rs` — mirroring along either axis, specified by `mirrored`;
  laws: mirroring twice is the identity, the two axes compose, no flip changes
  nothing.
- `src/blur.rs` — box blur, specified by `blur_pass` / `blurred`; laws: a zero
  radius and a uniform image are left unchanged, bytes past the image are kept,
  pass counts add up, and blurring commutes with mirroring.
- `src/plugin_loader.rs`, `src/plugin.rs` — plugin library file names and
  lookup, buffer-length and parameter-text checks before a plugin call.
- `src/error.rs` — the error type; `src/lib.rs` — run arguments and the PNG
  signature check.
- `app/` — the command-line program: argument parsing, file and image I/O,
  JSON parameter parsing, dynamic library loading and the C entry points.
