# imgmeta

Reads the format, pixel width and height of a JPEG or PNG image straight
from its header bytes, and for JPEG the orientation, timestamp and GPS
position from the first Exif APP1 segment.

- `src/` is the verified library: `png.rs` (signature and IHDR),
  `jpeg.rs` (marker walk), `exif.rs` (TIFF/IFD reading), `lib.rs`
  (format dispatch, errors) and `laws.rs` (properties proved of the whole).
  Each reader's contract is an exact specification over the input bytes.
- `app/` wraps the library for callers who want `std::error::Error` on the
  error type and GPS positions as `f64` decimal degrees.
- `tests/` runs the readers on concrete headers.
