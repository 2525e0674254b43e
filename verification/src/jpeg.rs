//! JPEG stores dimensions in the "start of frame" (SOFn) marker segment,
//! which can appear anywhere before the compressed scan data starts. We
//! have to walk the marker chain from the top of the file to find it,
//! skipping every other segment (APPn, quantization tables, huffman
//! tables, ...) by its declared length. On the way, the first APP1 segment
//! that carries an Exif block is handed to the Exif reader.

use vstd::prelude::*;

use crate::exif::{self, spec_parse, ExifView};
use crate::{opt_exif, Format, ImageInfo, InfoView, MetadataError};

verus! {

/// `data` starts with the SOI marker `FF D8`.
pub open spec fn spec_is_jpeg(data: Seq<u8>) -> bool {
    data.len() >= 2 && data[0] == 0xFF && data[1] == 0xD8
}

/// Markers with no payload: TEM and the eight restart markers. Every other
/// marker is followed by a 2-byte big-endian length that includes the
/// length field itself.
pub open spec fn spec_has_no_payload(marker: u8) -> bool {
    marker == 0x01 || (0xD0 <= marker && marker <= 0xD7)
}

/// Start-of-frame markers that carry dimensions. 0xC4 (DHT), 0xC8 (JPG,
/// reserved), and 0xCC (DAC) look like they belong in this range but don't
/// carry a frame header, so they're excluded.
pub open spec fn spec_is_sof(marker: u8) -> bool {
    (0xC0 <= marker && marker <= 0xC3) || (0xC5 <= marker && marker <= 0xC7) || (0xC9 <= marker
        && marker <= 0xCB) || (0xCD <= marker && marker <= 0xCF)
}

/// The big-endian `u16` at `data[off..off + 2]`.
pub open spec fn be_u16(data: Seq<u8>, off: int) -> u16 {
    (data[off] * 0x100 + data[off + 1]) as u16
}

/// The six bytes `"Exif\0\0"` that open an Exif APP1 payload.
pub open spec fn exif_header() -> Seq<u8> {
    seq![0x45u8, 0x78u8, 0x69u8, 0x66u8, 0x00u8, 0x00u8]
}

/// The marker walk, from the marker at `pos` on. `seen` tells whether an
/// Exif APP1 segment was met already, `exif` what it gave.
pub open spec fn walk(data: Seq<u8>, pos: int, seen: bool, exif: Option<ExifView>) -> Result<InfoView, MetadataError>
    decreases data.len() - pos,
{
    if pos < 0 || pos + 1 >= data.len() {
        Err(MetadataError::Truncated)
    } else if data[pos] != 0xFF {
        Err(MetadataError::Malformed("expected marker byte"))
    } else {
        let marker = data[pos + 1];
        let p = pos + 2;
        if marker == 0xD9 {
            // EOI reached without finding a frame header.
            Err(MetadataError::Malformed("no SOF marker found"))
        } else if spec_has_no_payload(marker) {
            walk(data, p, seen, exif)
        } else if p + 1 >= data.len() {
            Err(MetadataError::Truncated)
        } else {
            let seg_len = be_u16(data, p) as int;
            if seg_len < 2 {
                Err(MetadataError::Malformed("segment length too small"))
            } else if spec_is_sof(marker) {
                // After the length field: 1 byte sample precision, 2 bytes
                // height, 2 bytes width.
                if p + 7 > data.len() {
                    Err(MetadataError::Truncated)
                } else {
                    Ok(
                        InfoView {
                            format: Format::Jpeg,
                            width: be_u16(data, p + 5) as u32,
                            height: be_u16(data, p + 3) as u32,
                            exif,
                        },
                    )
                }
            } else if marker == 0xDA {
                // SOS: scan data starts, dimensions must come before it.
                Err(MetadataError::Malformed("scan data reached before SOF"))
            } else if p + seg_len + 1 >= data.len() {
                // The next marker would lie past the end.
                Err(MetadataError::Truncated)
            } else if !seen && marker == 0xE1 && seg_len >= 8 && data.subrange(p + 2, p + 8)
                == exif_header() {
                walk(data, p + seg_len, true, spec_parse(data.subrange(p + 8, p + seg_len)))
            } else {
                walk(data, p + seg_len, seen, exif)
            }
        }
    }
}

/// What reading a JPEG header gives: the marker walk from just past SOI.
pub open spec fn spec_read_info(data: Seq<u8>) -> Result<InfoView, MetadataError> {
    walk(data, 2, false, None)
}

/// Tells whether `data` starts with the JPEG SOI marker.
pub fn is_jpeg(data: &[u8]) -> (r: bool)
    ensures
        r == spec_is_jpeg(data@),
{
    data.len() >= 2 && data[0] == 0xFF && data[1] == 0xD8
}

fn has_no_payload(marker: u8) -> (r: bool)
    ensures
        r == spec_has_no_payload(marker),
{
    marker == 0x01 || (0xD0 <= marker && marker <= 0xD7)
}

fn is_sof(marker: u8) -> (r: bool)
    ensures
        r == spec_is_sof(marker),
{
    (0xC0 <= marker && marker <= 0xC3) || (0xC5 <= marker && marker <= 0xC7) || (0xC9 <= marker
        && marker <= 0xCB) || (0xCD <= marker && marker <= 0xCF)
}

fn read_be_u16(data: &[u8], off: usize) -> (r: u16)
    requires
        off + 2 <= data@.len(),
    ensures
        r == be_u16(data@, off as int),
{
    (data[off] as u16) * 0x100 + (data[off + 1] as u16)
}

/// Whether `data[start..start + 6]` is the Exif header.
fn has_exif_header(data: &[u8], start: usize) -> (r: bool)
    requires
        start + 6 <= data@.len(),
    ensures
        r == (data@.subrange(start as int, start + 6) == exif_header()),
{
    let r = data[start] == 0x45 && data[start + 1] == 0x78 && data[start + 2] == 0x69 && data[start
        + 3] == 0x66 && data[start + 4] == 0x00 && data[start + 5] == 0x00;
    proof {
        let s = data@.subrange(start as int, start + 6);
        if r {
            assert(s =~= exif_header());
        } else {
            assert(s[0] != exif_header()[0] || s[1] != exif_header()[1] || s[2] != exif_header()[2]
                || s[3] != exif_header()[3] || s[4] != exif_header()[4] || s[5]
                != exif_header()[5]);
        }
    }
    r
}

/// Walks the marker chain of a JPEG whose SOI marker has already been
/// checked, up to the first frame header.
pub fn read_info(data: &[u8]) -> (r: Result<ImageInfo, MetadataError>)
    ensures
        match r {
            Ok(info) => spec_read_info(data@) == Ok::<InfoView, MetadataError>(info@),
            Err(e) => spec_read_info(data@) == Err::<InfoView, MetadataError>(e),
        },
{
    let mut pos: usize = 2;  // past the SOI marker
    let mut seen = false;
    let mut exif: Option<exif::ExifData> = None;
    loop
        invariant
            2 <= pos <= data@.len() + 2,
            spec_read_info(data@) == walk(data@, pos as int, seen, opt_exif(exif)),
        decreases data@.len() + 2 - pos,
    {
        if pos >= data.len() || data.len() - pos < 2 {
            return Err(MetadataError::Truncated);
        }
        if data[pos] != 0xFF {
            return Err(MetadataError::Malformed("expected marker byte"));
        }
        let marker = data[pos + 1];
        let p = pos + 2;
        if marker == 0xD9 {
            return Err(MetadataError::Malformed("no SOF marker found"));
        }
        if has_no_payload(marker) {
            pos = p;
            continue;
        }
        if p >= data.len() || data.len() - p < 2 {
            return Err(MetadataError::Truncated);
        }
        let seg_len = read_be_u16(data, p) as usize;
        if seg_len < 2 {
            return Err(MetadataError::Malformed("segment length too small"));
        }
        if is_sof(marker) {
            if data.len() - p < 7 {
                return Err(MetadataError::Truncated);
            }
            let height = read_be_u16(data, p + 3);
            let width = read_be_u16(data, p + 5);
            return Ok(ImageInfo { format: Format::Jpeg, width: width as u32, height: height as u32, exif });
        }
        if marker == 0xDA {
            return Err(MetadataError::Malformed("scan data reached before SOF"));
        }
        if data.len() - p <= seg_len + 1 {
            return Err(MetadataError::Truncated);
        }
        if !seen && marker == 0xE1 && seg_len >= 8 && has_exif_header(data, p + 2) {
            seen = true;
            exif = exif::parse(&data[p + 8..p + seg_len]);
        }
        pos = p + seg_len;
    }
}

} // verus!
