//! PNG: the file signature is always followed immediately by an IHDR chunk,
//! and IHDR always starts with width and height as 4-byte big-endian
//! integers. No walking required.

use vstd::prelude::*;

use crate::{Format, ImageInfo, InfoView, MetadataError};

verus! {

/// The eight bytes every PNG file starts with.
pub const SIGNATURE: [u8; 8] = [0x89, 0x50, 0x4E, 0x47, 0x0D, 0x0A, 0x1A, 0x0A];

/// The signature as a sequence.
pub open spec fn signature() -> Seq<u8> {
    seq![0x89u8, 0x50u8, 0x4Eu8, 0x47u8, 0x0Du8, 0x0Au8, 0x1Au8, 0x0Au8]
}

/// `data` starts with the PNG signature.
pub open spec fn spec_is_png(data: Seq<u8>) -> bool {
    data.len() >= 8 && data.subrange(0, 8) == signature()
}

/// The big-endian `u32` stored in `data[off..off + 4]`.
pub open spec fn be_u32(data: Seq<u8>, off: int) -> u32 {
    (data[off] * 0x1000000 + data[off + 1] * 0x10000 + data[off + 2] * 0x100 + data[off + 3]) as u32
}

/// What reading the IHDR chunk of a PNG gives.
pub open spec fn spec_read_info(data: Seq<u8>) -> Result<InfoView, MetadataError> {
    if data.len() < 24 {
        Err(MetadataError::Truncated)
    } else if !(data[12] == 0x49 && data[13] == 0x48 && data[14] == 0x44 && data[15] == 0x52) {
        Err(MetadataError::Malformed("first chunk is not IHDR"))
    } else if be_u32(data, 8) != 13 {
        Err(MetadataError::Malformed("IHDR has unexpected length"))
    } else if data.len() < 29 {
        Err(MetadataError::Truncated)
    } else {
        Ok(
            InfoView {
                format: Format::Png,
                width: be_u32(data, 16),
                height: be_u32(data, 20),
                exif: None,
            },
        )
    }
}

fn read_be_u32(data: &[u8], off: usize) -> (r: u32)
    requires
        off + 4 <= data@.len(),
    ensures
        r == be_u32(data@, off as int),
{
    (data[off] as u32) * 0x1000000 + (data[off + 1] as u32) * 0x10000 + (data[off + 2] as u32)
        * 0x100 + (data[off + 3] as u32)
}

/// Tells whether `data` starts with the PNG signature.
pub fn is_png(data: &[u8]) -> (r: bool)
    ensures
        r == spec_is_png(data@),
{
    if data.len() < 8 {
        return false;
    }
    let mut i: usize = 0;
    while i < 8
        invariant
            8 <= data@.len(),
            i <= 8,
            forall|j: int| 0 <= j < i ==> data@[j] == signature()[j],
        decreases 8 - i,
    {
        if data[i] != SIGNATURE[i] {
            assert(data@.subrange(0, 8)[i as int] != signature()[i as int]);
            return false;
        }
        i = i + 1;
    }
    assert(data@.subrange(0, 8) =~= signature());
    true
}

/// Reads width and height from the IHDR chunk of a PNG whose signature has
/// already been checked.
pub fn read_info(data: &[u8]) -> (r: Result<ImageInfo, MetadataError>)
    ensures
        match r {
            Ok(info) => spec_read_info(data@) == Ok::<InfoView, MetadataError>(info@),
            Err(e) => spec_read_info(data@) == Err::<InfoView, MetadataError>(e),
        },
{
    // Chunk layout: 4-byte length, 4-byte type, `length` bytes of data,
    // 4-byte CRC. IHDR's data is: width(4) height(4) bit_depth(1)
    // color_type(1) compression(1) filter(1) interlace(1) = 13 bytes.
    if data.len() < 24 {
        return Err(MetadataError::Truncated);
    }
    let chunk_len = read_be_u32(data, 8);
    if !(data[12] == 0x49 && data[13] == 0x48 && data[14] == 0x44 && data[15] == 0x52) {
        return Err(MetadataError::Malformed("first chunk is not IHDR"));
    }
    if chunk_len != 13 {
        return Err(MetadataError::Malformed("IHDR has unexpected length"));
    }
    if data.len() < 29 {
        return Err(MetadataError::Truncated);
    }
    let width = read_be_u32(data, 16);
    let height = read_be_u32(data, 20);
    Ok(ImageInfo { format: Format::Png, width, height, exif: None })
}

} // verus!
