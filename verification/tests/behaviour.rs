use imgmeta::exif::{
    degrees, parse, Degrees, Dms, ExifData, TAG_DATETIME, TAG_DATETIME_ORIGINAL,
    TAG_EXIF_IFD_POINTER, TAG_GPS_IFD_POINTER, TAG_GPS_LATITUDE, TAG_GPS_LATITUDE_REF,
    TAG_GPS_LONGITUDE, TAG_GPS_LONGITUDE_REF, TAG_ORIENTATION, TYPE_ASCII, TYPE_LONG,
    TYPE_RATIONAL, TYPE_SHORT,
};
use imgmeta::png::SIGNATURE;
use imgmeta::{read_info, Format, GpsCoords, MetadataError};

fn entry(buf: &mut Vec<u8>, tag: u16, ty: u16, count: u32, value: [u8; 4]) {
    buf.extend_from_slice(&tag.to_le_bytes());
    buf.extend_from_slice(&ty.to_le_bytes());
    buf.extend_from_slice(&count.to_le_bytes());
    buf.extend_from_slice(&value);
}

fn header(buf: &mut Vec<u8>) {
    buf.extend_from_slice(b"II");
    buf.extend_from_slice(&42u16.to_le_bytes());
    buf.extend_from_slice(&8u32.to_le_bytes());
}

fn rationals(buf: &mut Vec<u8>, values: [(u32, u32); 3]) {
    for (n, d) in values {
        buf.extend_from_slice(&n.to_le_bytes());
        buf.extend_from_slice(&d.to_le_bytes());
    }
}

/// A little-endian TIFF block with orientation 6 and a GPS IFD for
/// 37°46'29.64"N 122°25'9.60"W.
fn tiff_with_gps(lat_den: u32) -> Vec<u8> {
    let mut buf = Vec::new();
    header(&mut buf);
    let gps_off = 8 + 2 + 12 * 2 + 4;
    buf.extend_from_slice(&2u16.to_le_bytes());
    entry(&mut buf, TAG_ORIENTATION, TYPE_SHORT, 1, [6, 0, 0, 0]);
    entry(&mut buf, TAG_GPS_IFD_POINTER, TYPE_LONG, 1, (gps_off as u32).to_le_bytes());
    buf.extend_from_slice(&0u32.to_le_bytes());
    assert_eq!(buf.len(), gps_off);
    let lat_off = gps_off + 2 + 12 * 4 + 4;
    let lon_off = lat_off + 24;
    buf.extend_from_slice(&4u16.to_le_bytes());
    entry(&mut buf, TAG_GPS_LATITUDE_REF, TYPE_ASCII, 2, *b"N\0\0\0");
    entry(&mut buf, TAG_GPS_LATITUDE, TYPE_RATIONAL, 3, (lat_off as u32).to_le_bytes());
    entry(&mut buf, TAG_GPS_LONGITUDE_REF, TYPE_ASCII, 2, *b"W\0\0\0");
    entry(&mut buf, TAG_GPS_LONGITUDE, TYPE_RATIONAL, 3, (lon_off as u32).to_le_bytes());
    buf.extend_from_slice(&0u32.to_le_bytes());
    assert_eq!(buf.len(), lat_off);
    rationals(&mut buf, [(37, lat_den), (46, 1), (2964, 100)]);
    rationals(&mut buf, [(122, 1), (25, 1), (960, 100)]);
    buf
}

fn sof0(width: u16, height: u16) -> Vec<u8> {
    let mut bytes = vec![0xFF, 0xC0];
    bytes.extend_from_slice(&17u16.to_be_bytes());
    bytes.push(8);
    bytes.extend_from_slice(&height.to_be_bytes());
    bytes.extend_from_slice(&width.to_be_bytes());
    bytes.push(1);
    bytes.extend_from_slice(&[1, 0x11, 0]);
    bytes.extend_from_slice(&[0xFF, 0xD9]);
    bytes
}

fn app1(payload: &[u8]) -> Vec<u8> {
    let mut bytes = vec![0xFF, 0xE1];
    bytes.extend_from_slice(&((payload.len() + 2) as u16).to_be_bytes());
    bytes.extend_from_slice(payload);
    bytes
}

fn exif_app1(tiff: &[u8]) -> Vec<u8> {
    let mut payload = b"Exif\0\0".to_vec();
    payload.extend_from_slice(tiff);
    app1(&payload)
}

fn orientation_tiff(value: u16) -> Vec<u8> {
    let mut buf = Vec::new();
    header(&mut buf);
    buf.extend_from_slice(&1u16.to_le_bytes());
    let v = value.to_le_bytes();
    entry(&mut buf, TAG_ORIENTATION, TYPE_SHORT, 1, [v[0], v[1], 0, 0]);
    buf.extend_from_slice(&0u32.to_le_bytes());
    buf
}

fn lat_lon() -> GpsCoords {
    GpsCoords {
        latitude: Degrees { numerator: 13_598_964, denominator: 360_000 },
        longitude: Degrees { numerator: -44_070_960, denominator: 360_000 },
    }
}

#[test]
fn jpeg_reports_exif_orientation_and_gps() {
    let mut data = vec![0xFF, 0xD8];
    data.extend_from_slice(&exif_app1(&tiff_with_gps(1)));
    data.extend_from_slice(&sof0(4000, 3000));
    let info = read_info(&data).unwrap();
    assert_eq!(info.format, Format::Jpeg);
    assert_eq!((info.width, info.height), (4000, 3000));
    let exif = info.exif.unwrap();
    assert_eq!(exif.orientation, Some(6));
    assert_eq!(exif.timestamp, None);
    assert_eq!(exif.gps, Some(lat_lon()));
}

/// `tiff_with_gps` written big-endian.
fn tiff_with_gps_big_endian() -> Vec<u8> {
    let mut buf = Vec::new();
    buf.extend_from_slice(b"MM");
    buf.extend_from_slice(&42u16.to_be_bytes());
    buf.extend_from_slice(&8u32.to_be_bytes());
    let be_entry = |buf: &mut Vec<u8>, tag: u16, ty: u16, count: u32, value: [u8; 4]| {
        buf.extend_from_slice(&tag.to_be_bytes());
        buf.extend_from_slice(&ty.to_be_bytes());
        buf.extend_from_slice(&count.to_be_bytes());
        buf.extend_from_slice(&value);
    };
    let gps_off = 8 + 2 + 12 * 2 + 4;
    buf.extend_from_slice(&2u16.to_be_bytes());
    be_entry(&mut buf, TAG_ORIENTATION, TYPE_SHORT, 1, [0, 6, 0, 0]);
    be_entry(&mut buf, TAG_GPS_IFD_POINTER, TYPE_LONG, 1, (gps_off as u32).to_be_bytes());
    buf.extend_from_slice(&0u32.to_be_bytes());
    let lat_off = gps_off + 2 + 12 * 4 + 4;
    let lon_off = lat_off + 24;
    buf.extend_from_slice(&4u16.to_be_bytes());
    be_entry(&mut buf, TAG_GPS_LATITUDE_REF, TYPE_ASCII, 2, *b"N\0\0\0");
    be_entry(&mut buf, TAG_GPS_LATITUDE, TYPE_RATIONAL, 3, (lat_off as u32).to_be_bytes());
    be_entry(&mut buf, TAG_GPS_LONGITUDE_REF, TYPE_ASCII, 2, *b"W\0\0\0");
    be_entry(&mut buf, TAG_GPS_LONGITUDE, TYPE_RATIONAL, 3, (lon_off as u32).to_be_bytes());
    buf.extend_from_slice(&0u32.to_be_bytes());
    for (n, d) in [(37u32, 1u32), (46, 1), (2964, 100), (122, 1), (25, 1), (960, 100)] {
        buf.extend_from_slice(&n.to_be_bytes());
        buf.extend_from_slice(&d.to_be_bytes());
    }
    buf
}

#[test]
fn byte_order_does_not_change_exif() {
    let little = tiff_with_gps(1);
    let big = tiff_with_gps_big_endian();
    assert_eq!(little.len(), big.len());
    assert_ne!(little, big);
    let a = parse(&little).unwrap();
    assert_eq!(parse(&big), Some(a.clone()));
    assert_eq!(a.gps, Some(lat_lon()));
}

#[test]
fn gps_needs_nonzero_denominators() {
    let exif = parse(&tiff_with_gps(0)).unwrap();
    assert_eq!(exif.orientation, Some(6));
    assert_eq!(exif.gps, None);
}

#[test]
fn degrees_are_exact_fractions() {
    let d = Dms { deg_num: 10, deg_den: 1, min_num: 30, min_den: 1, sec_num: 36, sec_den: 1 };
    // 10 + 30/60 + 36/3600 = 10.51
    assert_eq!(degrees(d, false), Some(Degrees { numerator: 37_836, denominator: 3600 }));
    assert_eq!(degrees(d, true), Some(Degrees { numerator: -37_836, denominator: 3600 }));
    let max = Dms {
        deg_num: u32::MAX,
        deg_den: u32::MAX,
        min_num: u32::MAX,
        min_den: u32::MAX,
        sec_num: u32::MAX,
        sec_den: u32::MAX,
    };
    let m = u32::MAX as u128;
    let den = 3600 * m * m * m;
    let num = (3600 + 60 + 1) * m * m * m;
    assert_eq!(degrees(max, false), Some(Degrees { numerator: num as i128, denominator: den }));
    assert_eq!(degrees(Dms { sec_den: 0, ..d }, false), None);
}

#[test]
fn app1_without_exif_header_is_skipped() {
    let mut data = vec![0xFF, 0xD8];
    data.extend_from_slice(&app1(b"http://ns.adobe.com/xap/1.0/\0<x/>"));
    data.extend_from_slice(&sof0(10, 20));
    let info = read_info(&data).unwrap();
    assert_eq!((info.width, info.height), (10, 20));
    assert_eq!(info.exif, None);
}

#[test]
fn only_first_exif_segment_counts() {
    let mut empty_tiff = Vec::new();
    header(&mut empty_tiff);
    empty_tiff.extend_from_slice(&0u16.to_le_bytes());
    empty_tiff.extend_from_slice(&0u32.to_le_bytes());

    let mut data = vec![0xFF, 0xD8];
    data.extend_from_slice(&exif_app1(&empty_tiff));
    data.extend_from_slice(&exif_app1(&orientation_tiff(3)));
    data.extend_from_slice(&sof0(10, 20));
    assert_eq!(read_info(&data).unwrap().exif, None);

    let mut data = vec![0xFF, 0xD8];
    data.extend_from_slice(&exif_app1(&orientation_tiff(3)));
    data.extend_from_slice(&exif_app1(&orientation_tiff(8)));
    data.extend_from_slice(&sof0(10, 20));
    assert_eq!(read_info(&data).unwrap().exif.unwrap().orientation, Some(3));
}

#[test]
fn truncated_app1_segment_is_truncated() {
    let mut data = vec![0xFF, 0xD8];
    let seg = exif_app1(&orientation_tiff(3));
    data.extend_from_slice(&seg[..seg.len() - 3]);
    assert_eq!(read_info(&data), Err(MetadataError::Truncated));
}

#[test]
fn jpeg_malformed_cases() {
    assert_eq!(
        read_info(&[0xFF, 0xD8, 0x00, 0xC0, 0, 0]),
        Err(MetadataError::Malformed("expected marker byte"))
    );
    assert_eq!(
        read_info(&[0xFF, 0xD8, 0xFF, 0xD9]),
        Err(MetadataError::Malformed("no SOF marker found"))
    );
    assert_eq!(
        read_info(&[0xFF, 0xD8, 0xFF, 0xDA, 0x00, 0x08, 0, 0, 0, 0, 0, 0]),
        Err(MetadataError::Malformed("scan data reached before SOF"))
    );
    assert_eq!(
        read_info(&[0xFF, 0xD8, 0xFF, 0xE0, 0x00, 0x01, 0, 0]),
        Err(MetadataError::Malformed("segment length too small"))
    );
}

#[test]
fn jpeg_skips_payloadless_and_non_frame_markers() {
    // RST0 has no payload; DHT (C4) looks like SOF but carries none.
    let mut data = vec![0xFF, 0xD8, 0xFF, 0xD0, 0xFF, 0xC4, 0x00, 0x04, 0x01, 0x02];
    data.extend_from_slice(&sof0(300, 200));
    let info = read_info(&data).unwrap();
    assert_eq!((info.width, info.height), (300, 200));
}

#[test]
fn jpeg_truncated_frame_header() {
    let data = [0xFF, 0xD8, 0xFF, 0xC2, 0x00, 0x11, 8, 0x01];
    assert_eq!(read_info(&data), Err(MetadataError::Truncated));
}

#[test]
fn whole_file_reads_like_its_header() {
    let mut header_only = vec![0xFF, 0xD8];
    header_only.extend_from_slice(&exif_app1(&orientation_tiff(1)));
    header_only.extend_from_slice(&[0xFF, 0xC0, 0x00, 0x11, 8, 0x00, 0x20, 0x00, 0x40]);
    let mut whole = header_only.clone();
    whole.extend_from_slice(&[1, 1, 0x11, 0, 0xFF, 0xDA, 0x12, 0x34, 0xFF, 0xD9]);
    let a = read_info(&header_only).unwrap();
    let b = read_info(&whole).unwrap();
    assert_eq!(a, b);
    assert_eq!((a.width, a.height), (64, 32));
}

fn png_bytes(width: u32, height: u32) -> Vec<u8> {
    let mut bytes = SIGNATURE.to_vec();
    bytes.extend_from_slice(&13u32.to_be_bytes());
    bytes.extend_from_slice(b"IHDR");
    bytes.extend_from_slice(&width.to_be_bytes());
    bytes.extend_from_slice(&height.to_be_bytes());
    bytes.extend_from_slice(&[8, 6, 0, 0, 0]);
    bytes.extend_from_slice(&[0u8; 4]);
    bytes
}

#[test]
fn png_first_33_bytes_suffice() {
    let mut file = png_bytes(0x0102_0304, 0xA0B0_C0D0);
    assert_eq!(file.len(), 33);
    let head = read_info(&file).unwrap();
    file.extend_from_slice(b"\0\0\0\x04IDATjunk");
    assert_eq!(read_info(&file), Ok(head.clone()));
    assert_eq!((head.width, head.height), (0x0102_0304, 0xA0B0_C0D0));
    assert_eq!(head.exif, None);
}

#[test]
fn png_errors() {
    let file = png_bytes(1, 1);
    assert_eq!(read_info(&file[..23]), Err(MetadataError::Truncated));
    assert_eq!(read_info(&file[..28]), Err(MetadataError::Truncated));
    let mut bad_len = file.clone();
    bad_len[11] = 12;
    assert_eq!(read_info(&bad_len), Err(MetadataError::Malformed("IHDR has unexpected length")));
    let mut not_ihdr = file.clone();
    not_ihdr[12] = b'X';
    assert_eq!(read_info(&not_ihdr), Err(MetadataError::Malformed("first chunk is not IHDR")));
    assert_eq!(read_info(&file[..7]), Err(MetadataError::UnknownFormat));
}

#[test]
fn error_messages() {
    assert_eq!(MetadataError::UnknownFormat.message(), "unrecognized image format");
    assert_eq!(MetadataError::Truncated.message(), "header ended before metadata was found");
    assert_eq!(
        MetadataError::Malformed("no SOF marker found").message(),
        "malformed header: no SOF marker found"
    );
}

fn one_ascii_tiff(tag: u16, text: &[u8]) -> Vec<u8> {
    let mut buf = Vec::new();
    header(&mut buf);
    buf.extend_from_slice(&1u16.to_le_bytes());
    let text_off = 8 + 2 + 12 + 4;
    entry(&mut buf, tag, TYPE_ASCII, text.len() as u32, (text_off as u32).to_le_bytes());
    buf.extend_from_slice(&0u32.to_le_bytes());
    buf.extend_from_slice(text);
    buf
}

#[test]
fn timestamp_text_is_utf8_up_to_nul() {
    let x = parse(&one_ascii_tiff(TAG_DATETIME, b"ab\0cd")).unwrap();
    assert_eq!(x.timestamp.as_deref(), Some("ab"));
    let x = parse(&one_ascii_tiff(TAG_DATETIME, "2020:01:01 é".as_bytes())).unwrap();
    assert_eq!(x.timestamp.as_deref(), Some("2020:01:01 é"));
    assert_eq!(parse(&one_ascii_tiff(TAG_DATETIME, &[0x32, 0xFF, 0x30, 0x30, 0x30])), None);
}

#[test]
fn last_entry_of_a_tag_wins() {
    let mut buf = Vec::new();
    header(&mut buf);
    buf.extend_from_slice(&3u16.to_le_bytes());
    entry(&mut buf, TAG_ORIENTATION, TYPE_SHORT, 1, [1, 0, 0, 0]);
    entry(&mut buf, TAG_DATETIME, TYPE_ASCII, 4, *b"abc\0");
    entry(&mut buf, TAG_ORIENTATION, TYPE_SHORT, 1, [8, 0, 0, 0]);
    buf.extend_from_slice(&0u32.to_le_bytes());
    let x = parse(&buf).unwrap();
    assert_eq!(x.orientation, Some(8));
    assert_eq!(x.timestamp.as_deref(), Some("abc"));

    // A later entry of the wrong type clears what an earlier one gave.
    let mut buf = Vec::new();
    header(&mut buf);
    buf.extend_from_slice(&3u16.to_le_bytes());
    entry(&mut buf, TAG_ORIENTATION, TYPE_SHORT, 1, [1, 0, 0, 0]);
    entry(&mut buf, TAG_DATETIME, TYPE_ASCII, 4, *b"abc\0");
    entry(&mut buf, TAG_ORIENTATION, TYPE_LONG, 1, [8, 0, 0, 0]);
    buf.extend_from_slice(&0u32.to_le_bytes());
    let x = parse(&buf).unwrap();
    assert_eq!(x.orientation, None);
}

#[test]
fn datetime_kept_when_original_is_unreadable() {
    let mut buf = Vec::new();
    header(&mut buf);
    let sub_off = 8 + 2 + 12 * 2 + 4;
    buf.extend_from_slice(&2u16.to_le_bytes());
    entry(&mut buf, TAG_DATETIME, TYPE_ASCII, 4, *b"old\0");
    entry(&mut buf, TAG_EXIF_IFD_POINTER, TYPE_LONG, 1, (sub_off as u32).to_le_bytes());
    buf.extend_from_slice(&0u32.to_le_bytes());
    buf.extend_from_slice(&1u16.to_le_bytes());
    // DateTimeOriginal pointing past the end of the block.
    entry(&mut buf, TAG_DATETIME_ORIGINAL, TYPE_ASCII, 20, 5000u32.to_le_bytes());
    buf.extend_from_slice(&0u32.to_le_bytes());
    let x = parse(&buf).unwrap();
    assert_eq!(x.timestamp.as_deref(), Some("old"));
}

#[test]
fn bad_tiff_headers() {
    let mut buf = orientation_tiff(6);
    buf[2] = 43;
    assert_eq!(parse(&buf), None);
    let mut buf = orientation_tiff(6);
    buf[0] = b'M';
    assert_eq!(parse(&buf), None);
    let mut buf = orientation_tiff(6);
    buf[4] = 200; // IFD0 offset past the end
    assert_eq!(parse(&buf), None);
}

#[test]
fn default_exif_is_empty() {
    let x = ExifData::default();
    assert_eq!(x, ExifData { orientation: None, timestamp: None, gps: None });
}
