//! Reads basic image metadata (format, pixel dimensions, and for JPEG a
//! subset of Exif) directly from the byte header of an image, without
//! decoding pixels.

use vstd::prelude::*;
use vstd::string::StringExecFns;

pub mod exif;
pub mod jpeg;
pub mod laws;
pub mod png;

pub use exif::{ExifData, ExifView, GpsCoords};

verus! {

/// Image container format, as identified by the file's own magic bytes
/// (not by file extension).
#[derive(Debug, Clone, Copy, PartialEq, Eq, Structural)]
pub enum Format {
    Jpeg,
    Png,
}

/// Why a header could not be read.
#[derive(Debug, Clone, Copy, PartialEq, Eq)]
pub enum MetadataError {
    /// The byte stream doesn't start with a magic number we recognize.
    UnknownFormat,
    /// Recognized as a supported format, but the header ended before we
    /// found the data we needed (truncated file, or not actually an image).
    Truncated,
    /// Recognized and complete enough to parse, but the header is
    /// internally inconsistent (e.g. no SOF marker in a JPEG).
    Malformed(&'static str),
}

/// The subset of metadata we currently know how to extract.
#[derive(Debug, Clone, PartialEq)]
pub struct ImageInfo {
    pub format: Format,
    pub width: u32,
    pub height: u32,
    /// Exif metadata, when present. Only ever `Some` for JPEG; the PNG
    /// header region this crate reads doesn't carry Exif data.
    pub exif: Option<ExifData>,
}

/// What an `ImageInfo` says, as plain values.
pub struct InfoView {
    pub format: Format,
    pub width: u32,
    pub height: u32,
    pub exif: Option<ExifView>,
}

/// View of an optional `ExifData`.
pub open spec fn opt_exif(x: Option<ExifData>) -> Option<ExifView> {
    match x {
        Some(x) => Some(x@),
        None => None,
    }
}

impl View for ImageInfo {
    type V = InfoView;

    open spec fn view(&self) -> InfoView {
        InfoView {
            format: self.format,
            width: self.width,
            height: self.height,
            exif: opt_exif(self.exif),
        }
    }
}


/// What `read_info` gives for `data`.
pub open spec fn spec_read_info(data: Seq<u8>) -> Result<InfoView, MetadataError> {
    if png::spec_is_png(data) {
        png::spec_read_info(data)
    } else if jpeg::spec_is_jpeg(data) {
        jpeg::spec_read_info(data)
    } else {
        Err(MetadataError::UnknownFormat)
    }
}

/// Inspects the magic bytes at the start of `data` and dispatches to the
/// matching format-specific parser.
///
/// `data` only needs to contain the header of the image; for both supported
/// formats that means everything up through (for JPEG) the first frame
/// marker, or (for PNG) the first chunk. Passing an entire file is fine too.
pub fn read_info(data: &[u8]) -> (r: Result<ImageInfo, MetadataError>)
    ensures
        match r {
            Ok(info) => spec_read_info(data@) == Ok::<InfoView, MetadataError>(info@),
            Err(e) => spec_read_info(data@) == Err::<InfoView, MetadataError>(e),
        },
{
    if png::is_png(data) {
        png::read_info(data)
    } else if jpeg::is_jpeg(data) {
        jpeg::read_info(data)
    } else {
        Err(MetadataError::UnknownFormat)
    }
}

/// The text that describes an error.
pub open spec fn spec_message(e: MetadataError) -> Seq<char> {
    match e {
        MetadataError::UnknownFormat => "unrecognized image format"@,
        MetadataError::Truncated => "header ended before metadata was found"@,
        MetadataError::Malformed(why) => "malformed header: "@ + why@,
    }
}

impl MetadataError {
    /// Describes the error in words.
    pub fn message(&self) -> (r: String)
        ensures
            r@ == spec_message(*self),
    {
        match self {
            MetadataError::UnknownFormat => "unrecognized image format".to_owned(),
            MetadataError::Truncated => "header ended before metadata was found".to_owned(),
            MetadataError::Malformed(why) => {
                let mut text = "malformed header: ".to_owned();
                text.append(why);
                text
            },
        }
    }
}

} // verus!

