use imgmeta::exif::{
    parse, TAG_DATETIME, TAG_DATETIME_ORIGINAL, TAG_EXIF_IFD_POINTER, TAG_ORIENTATION, TYPE_ASCII,
    TYPE_LONG, TYPE_SHORT,
};
use imgmeta::png::SIGNATURE;
use imgmeta::{jpeg, png, read_info, Format, MetadataError};

fn minimal_png(width: u32, height: u32) -> Vec<u8> {
    let mut bytes = SIGNATURE.to_vec();
    bytes.extend_from_slice(&13u32.to_be_bytes());
    bytes.extend_from_slice(b"IHDR");
    bytes.extend_from_slice(&width.to_be_bytes());
    bytes.extend_from_slice(&height.to_be_bytes());
    bytes.extend_from_slice(&[8, 6, 0, 0, 0]); // depth, color type, etc.
    bytes.extend_from_slice(&[0u8; 4]); // fake CRC, unchecked by us
    bytes
}

fn minimal_jpeg(width: u16, height: u16) -> Vec<u8> {
    let mut bytes = vec![0xFF, 0xD8]; // SOI
    // SOF0 segment: length=17, precision=8, height, width, 1 component.
    bytes.extend_from_slice(&[0xFF, 0xC0]);
    bytes.extend_from_slice(&17u16.to_be_bytes());
    bytes.push(8);
    bytes.extend_from_slice(&height.to_be_bytes());
    bytes.extend_from_slice(&width.to_be_bytes());
    bytes.push(1); // one component
    bytes.extend_from_slice(&[1, 0x11, 0]); // id, sampling, quant table
    bytes.extend_from_slice(&[0xFF, 0xD9]); // EOI
    bytes
}

#[test]
fn rejects_short_or_bad_input() {
    assert_eq!(parse(&[]), None);
    assert_eq!(parse(b"not tiff"), None);
    assert_eq!(parse(&[0u8; 4]), None);
}

#[test]
fn parses_orientation_only() {
    let mut buf = Vec::new();
    buf.extend_from_slice(b"II");
    buf.extend_from_slice(&42u16.to_le_bytes());
    buf.extend_from_slice(&8u32.to_le_bytes()); // IFD0 offset

    buf.extend_from_slice(&1u16.to_le_bytes()); // one entry
    buf.extend_from_slice(&TAG_ORIENTATION.to_le_bytes());
    buf.extend_from_slice(&TYPE_SHORT.to_le_bytes());
    buf.extend_from_slice(&1u32.to_le_bytes());
    buf.extend_from_slice(&[6, 0, 0, 0]); // value 6, inline
    buf.extend_from_slice(&0u32.to_le_bytes()); // no next IFD

    let result = parse(&buf).unwrap();
    assert_eq!(result.orientation, Some(6));
    assert_eq!(result.timestamp, None);
}

#[test]
fn prefers_datetime_original_from_sub_ifd_over_datetime() {
    let header_len = 8usize;
    let ifd0_len = 2 + 12 * 2 + 4; // count + 2 entries + next-IFD offset
    let sub_ifd_offset = header_len + ifd0_len;
    let sub_ifd_len = 2 + 12 * 1 + 4;
    let string_offset = sub_ifd_offset + sub_ifd_len;
    let datetime = b"2021:05:04 10:20:30\0";
    assert_eq!(datetime.len(), 20);

    let mut buf = Vec::new();
    buf.extend_from_slice(b"MM");
    buf.extend_from_slice(&42u16.to_be_bytes());
    buf.extend_from_slice(&(header_len as u32).to_be_bytes());

    // IFD0: DateTime (inline, short so it's overridden) + Exif pointer.
    buf.extend_from_slice(&2u16.to_be_bytes());
    buf.extend_from_slice(&TAG_DATETIME.to_be_bytes());
    buf.extend_from_slice(&TYPE_ASCII.to_be_bytes());
    buf.extend_from_slice(&4u32.to_be_bytes());
    buf.extend_from_slice(b"197\0"); // 4 bytes, fits inline
    buf.extend_from_slice(&TAG_EXIF_IFD_POINTER.to_be_bytes());
    buf.extend_from_slice(&TYPE_LONG.to_be_bytes());
    buf.extend_from_slice(&1u32.to_be_bytes());
    buf.extend_from_slice(&(sub_ifd_offset as u32).to_be_bytes());
    buf.extend_from_slice(&0u32.to_be_bytes());
    assert_eq!(buf.len(), header_len + ifd0_len);

    // Sub IFD: DateTimeOriginal, stored out-of-line since it's >4 bytes.
    buf.extend_from_slice(&1u16.to_be_bytes());
    buf.extend_from_slice(&TAG_DATETIME_ORIGINAL.to_be_bytes());
    buf.extend_from_slice(&TYPE_ASCII.to_be_bytes());
    buf.extend_from_slice(&(datetime.len() as u32).to_be_bytes());
    buf.extend_from_slice(&(string_offset as u32).to_be_bytes());
    buf.extend_from_slice(&0u32.to_be_bytes());
    assert_eq!(buf.len(), sub_ifd_offset + sub_ifd_len);

    buf.extend_from_slice(datetime);

    let result = parse(&buf).unwrap();
    assert_eq!(result.timestamp.as_deref(), Some("2021:05:04 10:20:30"));
}

#[test]
fn truncated_ifd_yields_none_instead_of_panicking() {
    let mut buf = Vec::new();
    buf.extend_from_slice(b"II");
    buf.extend_from_slice(&42u16.to_le_bytes());
    buf.extend_from_slice(&8u32.to_le_bytes());
    buf.extend_from_slice(&5u16.to_le_bytes()); // claims 5 entries, none follow
    assert_eq!(parse(&buf), None);
}

#[test]
fn reads_dimensions_from_sof0() {
    let data = minimal_jpeg(640, 480);
    let info = jpeg::read_info(&data).unwrap();
    assert_eq!(info.format, Format::Jpeg);
    assert_eq!(info.width, 640);
    assert_eq!(info.height, 480);
}

#[test]
fn skips_app0_segment_first() {
    let mut bytes = vec![0xFF, 0xD8];
    bytes.extend_from_slice(&[0xFF, 0xE0]); // APP0
    bytes.extend_from_slice(&16u16.to_be_bytes());
    bytes.extend_from_slice(&[0u8; 14]);
    bytes.extend_from_slice(&minimal_jpeg(100, 50)[2..]);
    let info = jpeg::read_info(&bytes).unwrap();
    assert_eq!((info.width, info.height), (100, 50));
}

#[test]
fn rejects_garbage() {
    let data = [0u8, 1, 2, 3, 4, 5, 6, 7];
    assert_eq!(read_info(&data), Err(MetadataError::UnknownFormat));
}

#[test]
fn rejects_truncated_signature() {
    let data = [0xFFu8, 0xD8];
    assert_eq!(read_info(&data), Err(MetadataError::Truncated));
}

#[test]
fn reads_dimensions_from_ihdr() {
    let data = minimal_png(1920, 1080);
    let info = png::read_info(&data).unwrap();
    assert_eq!(info.format, Format::Png);
    assert_eq!(info.width, 1920);
    assert_eq!(info.height, 1080);
}

#[test]
fn rejects_missing_ihdr() {
    let mut bytes = SIGNATURE.to_vec();
    bytes.extend_from_slice(&13u32.to_be_bytes());
    bytes.extend_from_slice(b"IDAT");
    bytes.extend_from_slice(&[0u8; 13]);
    assert!(matches!(png::read_info(&bytes), Err(MetadataError::Malformed(_))));
}
