//! Properties of the library as a whole, proved over the specifications
//! that the readers' contracts use.

use vstd::prelude::*;

use crate::exif::{
    byte_order, entry_at, gps_from_ifd, last_tagged, last_text, ref_is, spec_as_ascii,
    spec_as_dms, spec_as_long, spec_as_short, spec_ascii_bytes, spec_degrees, spec_gps,
    spec_original_time, spec_parse, spec_read_ifd, spec_u16_at, spec_u32_at, tagged_ascii,
    tagged_ascii_bytes, tagged_dms, tagged_long, tagged_short, u16_from, u32_from, Dms, IfdEntry,
    TAG_EXIF_IFD_POINTER, TAG_GPS_IFD_POINTER, TAG_GPS_LATITUDE, TAG_GPS_LATITUDE_REF,
    TAG_GPS_LONGITUDE, TAG_GPS_LONGITUDE_REF, TYPE_ASCII, TYPE_LONG, TYPE_RATIONAL, TYPE_SHORT,
};
use crate::jpeg::{be_u16, exif_header, spec_is_jpeg, walk};
use crate::png::{be_u32, spec_is_png};
use crate::{spec_read_info, Format, InfoView, MetadataError};

verus! {

/// The result is final once known: a result that is neither `Truncated`
/// nor `UnknownFormat` stays the same when more bytes follow.
pub open spec fn is_settled(r: Result<InfoView, MetadataError>) -> bool {
    match r {
        Ok(_) => true,
        Err(MetadataError::Malformed(_)) => true,
        _ => false,
    }
}

proof fn lemma_walk_extends(
    data: Seq<u8>,
    more: Seq<u8>,
    pos: int,
    seen: bool,
    exif: Option<crate::exif::ExifView>,
)
    requires
        is_settled(walk(data, pos, seen, exif)),
    ensures
        walk(data + more, pos, seen, exif) == walk(data, pos, seen, exif),
    decreases data.len() - pos,
{
    let full = data + more;
    if pos < 0 || pos + 1 >= data.len() {
    } else {
        assert(full[pos] == data[pos]);
        assert(full[pos + 1] == data[pos + 1]);
        if data[pos] != 0xFF {
        } else {
            let marker = data[pos + 1];
            let p = pos + 2;
            if marker == 0xD9 {
            } else if crate::jpeg::spec_has_no_payload(marker) {
                lemma_walk_extends(data, more, p, seen, exif);
            } else if p + 1 >= data.len() {
            } else {
                assert(full[p] == data[p] && full[p + 1] == data[p + 1]);
                assert(be_u16(full, p) == be_u16(data, p));
                let seg_len = be_u16(data, p) as int;
                if seg_len < 2 {
                } else if crate::jpeg::spec_is_sof(marker) {
                    if p + 7 > data.len() {
                    } else {
                        assert(full[p + 3] == data[p + 3] && full[p + 4] == data[p + 4]);
                        assert(full[p + 5] == data[p + 5] && full[p + 6] == data[p + 6]);
                        assert(be_u16(full, p + 3) == be_u16(data, p + 3));
                        assert(be_u16(full, p + 5) == be_u16(data, p + 5));
                    }
                } else if marker == 0xDA {
                } else if p + seg_len + 1 >= data.len() {
                } else {
                    if seg_len >= 8 {
                        assert(full.subrange(p + 2, p + 8) =~= data.subrange(p + 2, p + 8));
                        assert(full.subrange(p + 8, p + seg_len) =~= data.subrange(
                            p + 8,
                            p + seg_len,
                        ));
                    }
                    if !seen && marker == 0xE1 && seg_len >= 8 && data.subrange(p + 2, p + 8)
                        == exif_header() {
                        lemma_walk_extends(
                            data,
                            more,
                            p + seg_len,
                            true,
                            spec_parse(data.subrange(p + 8, p + seg_len)),
                        );
                    } else {
                        lemma_walk_extends(data, more, p + seg_len, seen, exif);
                    }
                }
            }
        }
    }
}

/// A header is enough: when the bytes read so far already give the image's
/// metadata (or show the header malformed), any bytes that follow them
/// change nothing, so passing a whole file gives what its header gives.
pub proof fn law_header_prefix_suffices(header: Seq<u8>, rest: Seq<u8>)
    requires
        is_settled(spec_read_info(header)),
    ensures
        spec_read_info(header + rest) == spec_read_info(header),
{
    let full = header + rest;
    if spec_is_png(header) {
        assert(full.subrange(0, 8) =~= header.subrange(0, 8));
        assert(spec_is_png(full));
        if header.len() >= 24 {
            assert(forall|i: int| 0 <= i < header.len() ==> full[i] == header[i]);
            assert(be_u32(full, 8) == be_u32(header, 8));
            if header.len() >= 29 {
                assert(be_u32(full, 16) == be_u32(header, 16));
                assert(be_u32(full, 20) == be_u32(header, 20));
            }
        }
    } else if spec_is_jpeg(header) {
        assert(full[0] == header[0] && full[1] == header[1]);
        assert(!spec_is_png(full)) by {
            if full.len() >= 8 && full.subrange(0, 8) == crate::png::signature() {
                assert(full.subrange(0, 8)[0] == full[0]);
            }
        }
        lemma_walk_extends(header, rest, 2, false, None);
    }
}

/// A PNG's first 33 bytes (signature, IHDR chunk and its CRC) are all that
/// is needed: the rest of the file makes no difference.
pub proof fn law_png_needs_33_bytes(data: Seq<u8>)
    requires
        spec_is_png(data),
        data.len() >= 33,
    ensures
        spec_read_info(data) == spec_read_info(data.take(33)),
{
    let head = data.take(33);
    assert(head.subrange(0, 8) =~= data.subrange(0, 8));
    assert(be_u32(head, 8) == be_u32(data, 8));
    assert(be_u32(head, 16) == be_u32(data, 16));
    assert(be_u32(head, 20) == be_u32(data, 20));
}

/// The format comes from the magic bytes alone: a PNG result for data that
/// starts with the PNG signature, a JPEG result only for data that starts
/// with `FF D8`, and `UnknownFormat` exactly when neither is there.
pub proof fn law_format_follows_magic(data: Seq<u8>)
    ensures
        spec_read_info(data) matches Ok(info) ==> (info.format == Format::Png <==> spec_is_png(data)),
        spec_read_info(data) matches Ok(info) ==> (info.format == Format::Jpeg ==> spec_is_jpeg(
            data,
        )),
        spec_read_info(data) == Err::<InfoView, MetadataError>(MetadataError::UnknownFormat) <==> (
        !spec_is_png(data) && !spec_is_jpeg(data)),
{
    if !spec_is_png(data) && spec_is_jpeg(data) {
        lemma_walk_result(data, 2, false, None);
    }
}

proof fn lemma_walk_result(data: Seq<u8>, pos: int, seen: bool, exif: Option<crate::exif::ExifView>)
    ensures
        walk(data, pos, seen, exif) matches Ok(info) ==> info.format == Format::Jpeg && info.width
            < 0x10000 && info.height < 0x10000,
        walk(data, pos, seen, exif) != Err::<InfoView, MetadataError>(MetadataError::UnknownFormat),
    decreases data.len() - pos,
{
    if pos < 0 || pos + 1 >= data.len() {
    } else if data[pos] != 0xFF {
    } else {
        let marker = data[pos + 1];
        let p = pos + 2;
        if marker == 0xD9 {
        } else if crate::jpeg::spec_has_no_payload(marker) {
            lemma_walk_result(data, p, seen, exif);
        } else if p + 1 >= data.len() {
        } else {
            let seg_len = be_u16(data, p) as int;
            if seg_len < 2 || crate::jpeg::spec_is_sof(marker) || marker == 0xDA || p + seg_len + 1
                >= data.len() {
            } else if !seen && marker == 0xE1 && seg_len >= 8 && data.subrange(p + 2, p + 8)
                == exif_header() {
                lemma_walk_result(
                    data,
                    p + seg_len,
                    true,
                    spec_parse(data.subrange(p + 8, p + seg_len)),
                );
            } else {
                lemma_walk_result(data, p + seg_len, seen, exif);
            }
        }
    }
}

/// JPEG dimensions come from 16-bit fields, and Exif metadata only ever
/// comes with a JPEG.
pub proof fn law_jpeg_dimensions_and_exif(data: Seq<u8>)
    ensures
        spec_read_info(data) matches Ok(info) ==> (info.format == Format::Jpeg ==> info.width
            < 0x10000 && info.height < 0x10000),
        spec_read_info(data) matches Ok(info) ==> (info.exif is Some ==> info.format
            == Format::Jpeg),
{
    if !spec_is_png(data) && spec_is_jpeg(data) {
        lemma_walk_result(data, 2, false, None);
    }
}

/// An Exif block is reported only when it yields at least an orientation,
/// a timestamp or a GPS position.
pub proof fn law_exif_not_empty(tiff: Seq<u8>)
    ensures
        spec_parse(tiff) matches Some(x) ==> (x.orientation is Some || x.timestamp is Some
            || x.gps is Some),
{
}

/// Decimal degrees are exact: the fraction equals
/// `deg + min / 60 + sec / 3600` (cross-multiplied), with a positive
/// denominator, and its sign is the one asked for.
pub proof fn law_degrees_exact(d: Dms, negative: bool)
    ensures
        spec_degrees(d, negative) matches Some(x) ==> {
            let dd = d.deg_den as int;
            let md = d.min_den as int;
            let sd = d.sec_den as int;
            &&& x.denominator > 0
            &&& (if negative { -x.numerator } else { x.numerator as int }) * (dd * 60 * md * 3600 * sd)
                == x.denominator * (d.deg_num * 60 * md * 3600 * sd + d.min_num * dd * 3600 * sd
                + d.sec_num * dd * 60 * md)
            &&& (negative ==> x.numerator <= 0)
            &&& (!negative ==> x.numerator >= 0)
        },
{
    if let Some(x) = spec_degrees(d, negative) {
        let dn = d.deg_num as int;
        let dd = d.deg_den as int;
        let mn = d.min_num as int;
        let md = d.min_den as int;
        let sn = d.sec_num as int;
        let sd = d.sec_den as int;
        assert(0 <= dd * md * sd <= 0xffff_ffff * 0xffff_ffff * 0xffff_ffff) by (nonlinear_arith)
            requires
                0 < dd <= 0xffff_ffff,
                0 < md <= 0xffff_ffff,
                0 < sd <= 0xffff_ffff,
        ;
        assert(0 < dd * md * sd) by (nonlinear_arith)
            requires
                0 < dd,
                0 < md,
                0 < sd,
        ;
        let den: int = 3600 * dd * md * sd;
        let num: int = 3600 * dn * md * sd + 60 * mn * dd * sd + sn * dd * md;
        assert(0 <= dn * md * sd <= 0xffff_ffff * 0xffff_ffff * 0xffff_ffff) by (nonlinear_arith)
            requires
                0 <= dn <= 0xffff_ffff,
                0 < md <= 0xffff_ffff,
                0 < sd <= 0xffff_ffff,
        ;
        assert(0 <= mn * dd * sd <= 0xffff_ffff * 0xffff_ffff * 0xffff_ffff) by (nonlinear_arith)
            requires
                0 <= mn <= 0xffff_ffff,
                0 < dd <= 0xffff_ffff,
                0 < sd <= 0xffff_ffff,
        ;
        assert(0 <= sn * dd * md <= 0xffff_ffff * 0xffff_ffff * 0xffff_ffff) by (nonlinear_arith)
            requires
                0 <= sn <= 0xffff_ffff,
                0 < dd <= 0xffff_ffff,
                0 < md <= 0xffff_ffff,
        ;
        assert(den == 3600 * (dd * md * sd)) by (nonlinear_arith)
            requires
                den == 3600 * dd * md * sd,
        ;
        assert(num == 3600 * (dn * md * sd) + 60 * (mn * dd * sd) + (sn * dd * md))
            by (nonlinear_arith)
            requires
                num == 3600 * dn * md * sd + 60 * mn * dd * sd + sn * dd * md,
        ;
        assert(x.denominator as int == den);
        assert((if negative { -x.numerator } else { x.numerator as int }) == num);
        let x3 = dd * md * sd;
        let p = dn * 60 * md * 3600 * sd + mn * dd * 3600 * sd + sn * dd * 60 * md;
        assert(p == 60 * num) by (nonlinear_arith)
            requires
                p == dn * 60 * md * 3600 * sd + mn * dd * 3600 * sd + sn * dd * 60 * md,
                num == 3600 * dn * md * sd + 60 * mn * dd * sd + sn * dd * md,
        ;
        assert(dd * 60 * md * 3600 * sd == 216000 * x3) by (nonlinear_arith)
            requires
                x3 == dd * md * sd,
        ;
        assert(num * (216000 * x3) == (3600 * x3) * (60 * num)) by (nonlinear_arith);
    }
}

/// GPS signs come from the reference tags: a latitude is negative only
/// under an `S` reference and a longitude only under a `W` one.
pub proof fn law_gps_sign_from_refs(data: Seq<u8>, le: bool, g: Seq<crate::exif::IfdEntry>)
    ensures
        gps_from_ifd(data, le, g) matches Some(c) ==> {
            &&& (c.latitude.numerator < 0 ==> ref_is(
                tagged_ascii_bytes(data, le, g, TAG_GPS_LATITUDE_REF),
                0x53,
            ))
            &&& (c.longitude.numerator < 0 ==> ref_is(
                tagged_ascii_bytes(data, le, g, TAG_GPS_LONGITUDE_REF),
                0x57,
            ))
        },
{
    if let Some(c) = gps_from_ifd(data, le, g) {
        let lat = tagged_dms(data, le, g, TAG_GPS_LATITUDE).unwrap();
        let lon = tagged_dms(data, le, g, TAG_GPS_LONGITUDE).unwrap();
        law_degrees_exact(lat, ref_is(tagged_ascii_bytes(data, le, g, TAG_GPS_LATITUDE_REF), 0x53));
        law_degrees_exact(lon, ref_is(tagged_ascii_bytes(data, le, g, TAG_GPS_LONGITUDE_REF), 0x57));
    }
}


// ---------------------------------------------------------------------------
// Byte order. An Exif block may be written little-endian ("II") or
// big-endian ("MM"); the same metadata written either way reads the same.
// "Written the other way" is stated over a layout: the offsets of the 2-byte
// and the 4-byte integer fields of the block.

/// Byte `i` lies in none of the layout's integer fields.
pub open spec fn uncovered(shorts: Set<int>, longs: Set<int>, i: int) -> bool {
    &&& forall|o: int| #[trigger] shorts.contains(o) ==> !(o <= i < o + 2)
    &&& forall|o: int| #[trigger] longs.contains(o) ==> !(o <= i < o + 4)
}

/// `t2` is `t` written in the other byte order: the byte-order mark is
/// switched (`II` <-> `MM`), every 2-byte field of the layout has its two
/// bytes swapped, every 4-byte field has its four bytes reversed, and every
/// other byte is unchanged.
pub open spec fn reencoded(t: Seq<u8>, t2: Seq<u8>, shorts: Set<int>, longs: Set<int>) -> bool {
    &&& t.len() == t2.len()
    &&& t.len() >= 2
    &&& ((t[0] == 0x49 && t[1] == 0x49 && t2[0] == 0x4D && t2[1] == 0x4D) || (t[0] == 0x4D && t[1]
        == 0x4D && t2[0] == 0x49 && t2[1] == 0x49))
    &&& forall|o: int| #[trigger]
        shorts.contains(o) ==> 0 <= o && o + 2 <= t.len() && t2[o] == t[o + 1] && t2[o + 1] == t[o]
    &&& forall|o: int| #[trigger]
        longs.contains(o) ==> 0 <= o && o + 4 <= t.len() && t2[o] == t[o + 3] && t2[o + 1] == t[o
            + 2] && t2[o + 2] == t[o + 1] && t2[o + 3] == t[o]
    &&& forall|i: int| 2 <= i < t.len() && #[trigger] uncovered(shorts, longs, i) ==> t2[i] == t[i]
}

/// A 2-byte field is in the layout wherever it lies inside the block.
pub open spec fn has16(shorts: Set<int>, len: int, off: int) -> bool {
    shorts.contains(off) || !(0 <= off && off + 2 <= len)
}

/// A 4-byte field is in the layout wherever it lies inside the block.
pub open spec fn has32(longs: Set<int>, len: int, off: int) -> bool {
    longs.contains(off) || !(0 <= off && off + 4 <= len)
}

/// Byte `i`, if it lies inside the block, is neither the byte-order mark
/// nor part of an integer field.
pub open spec fn text_byte(shorts: Set<int>, longs: Set<int>, len: int, i: int) -> bool {
    0 <= i < len ==> 2 <= i && uncovered(shorts, longs, i)
}

/// The bytes `[a, b)` that lie inside the block are text: neither the
/// byte-order mark nor part of an integer field.
pub open spec fn text_untouched(shorts: Set<int>, longs: Set<int>, len: int, a: int, b: int) -> bool {
    forall|i: int| a <= i < b ==> #[trigger] text_byte(shorts, longs, len, i)
}

/// The layout holds the value of entry `e` that the reader interprets: the
/// SHORT or LONG value, the offset of out-of-line text and the text bytes
/// themselves (which must stay as they are), the offset of the RATIONAL
/// values and the six numbers they are made of.
pub open spec fn value_covered(t: Seq<u8>, le: bool, shorts: Set<int>, longs: Set<int>, e: IfdEntry) -> bool {
    let len = t.len() as int;
    let vf = e.value_field as int;
    &&& (e.value_type == TYPE_SHORT && e.count >= 1 ==> has16(shorts, len, vf))
    &&& (e.value_type == TYPE_LONG && e.count >= 1 ==> has32(longs, len, vf))
    &&& (e.value_type == TYPE_ASCII && e.count >= 1 ==> {
        &&& (e.count <= 4 ==> text_untouched(shorts, longs, len, vf, vf + e.count))
        &&& (e.count > 4 ==> has32(longs, len, vf) && (spec_u32_at(t, le, vf) matches Some(o)
            ==> text_untouched(shorts, longs, len, o as int, o + e.count)))
    })
    &&& (e.value_type == TYPE_RATIONAL && e.count >= 3 ==> has32(longs, len, vf) && (spec_u32_at(
        t,
        le,
        vf,
    ) matches Some(o) ==> forall|k: int| 0 <= k < 6 ==> #[trigger] has32(longs, len, o + 4 * k)))
}

/// The layout holds the IFD at `off`: its entry count, the tag, type and
/// count of each entry, and each entry's value.
pub open spec fn ifd_covered(t: Seq<u8>, le: bool, shorts: Set<int>, longs: Set<int>, off: int) -> bool {
    &&& has16(shorts, t.len() as int, off)
    &&& (spec_read_ifd(t, le, off) matches Some(es) ==> forall|i: int|
        0 <= i < es.len() ==> {
            &&& shorts.contains(off + 2 + 12 * i)
            &&& shorts.contains(off + 4 + 12 * i)
            &&& longs.contains(off + 6 + 12 * i)
            &&& value_covered(t, le, shorts, longs, #[trigger] es[i])
        })
}

/// The layout holds the IFD a pointer leads to, if there is one.
pub open spec fn pointed_covered(t: Seq<u8>, le: bool, shorts: Set<int>, longs: Set<int>, p: Option<u32>) -> bool {
    match p {
        Some(off) => ifd_covered(t, le, shorts, longs, off as int),
        None => true,
    }
}

/// The layout holds every integer field of the Exif block `t` that the
/// reader interprets: the magic number 42, the IFD0 offset, IFD0, and the
/// Exif and GPS IFDs that IFD0 points to.
pub open spec fn layout_covers(t: Seq<u8>, shorts: Set<int>, longs: Set<int>) -> bool {
    let le = byte_order(t)->Some_0;
    t.len() >= 8 ==> {
        &&& shorts.contains(2)
        &&& longs.contains(4)
        &&& ifd_covered(t, le, shorts, longs, u32_from(t, le, 4) as int)
        &&& (spec_read_ifd(t, le, u32_from(t, le, 4) as int) matches Some(ifd0) ==> {
            &&& pointed_covered(t, le, shorts, longs, tagged_long(t, le, ifd0, TAG_EXIF_IFD_POINTER))
            &&& pointed_covered(t, le, shorts, longs, tagged_long(t, le, ifd0, TAG_GPS_IFD_POINTER))
        })
    }
}

/// The readings of one entry's value agree between the two blocks.
pub open spec fn values_agree(t: Seq<u8>, le: bool, t2: Seq<u8>, e: IfdEntry) -> bool {
    &&& spec_as_short(t2, !le, e) == spec_as_short(t, le, e)
    &&& spec_as_long(t2, !le, e) == spec_as_long(t, le, e)
    &&& spec_ascii_bytes(t2, !le, e) == spec_ascii_bytes(t, le, e)
    &&& spec_as_dms(t2, !le, e) == spec_as_dms(t, le, e)
}

proof fn lemma_u16(t: Seq<u8>, t2: Seq<u8>, shorts: Set<int>, longs: Set<int>, le: bool, off: int)
    requires
        reencoded(t, t2, shorts, longs),
        has16(shorts, t.len() as int, off),
    ensures
        spec_u16_at(t2, !le, off) == spec_u16_at(t, le, off),
        0 <= off && off + 2 <= t.len() ==> u16_from(t2, !le, off) == u16_from(t, le, off),
{
    if shorts.contains(off) {
        assert(t2[off] == t[off + 1] && t2[off + 1] == t[off]);
    }
}

proof fn lemma_u32(t: Seq<u8>, t2: Seq<u8>, shorts: Set<int>, longs: Set<int>, le: bool, off: int)
    requires
        reencoded(t, t2, shorts, longs),
        has32(longs, t.len() as int, off),
    ensures
        spec_u32_at(t2, !le, off) == spec_u32_at(t, le, off),
        0 <= off && off + 4 <= t.len() ==> u32_from(t2, !le, off) == u32_from(t, le, off),
{
    if longs.contains(off) {
        assert(t2[off] == t[off + 3] && t2[off + 1] == t[off + 2] && t2[off + 2] == t[off + 1]
            && t2[off + 3] == t[off]);
    }
}

proof fn lemma_text(t: Seq<u8>, t2: Seq<u8>, shorts: Set<int>, longs: Set<int>, a: int, b: int)
    requires
        reencoded(t, t2, shorts, longs),
        text_untouched(shorts, longs, t.len() as int, a, b),
        0 <= a <= b <= t.len(),
    ensures
        t2.subrange(a, b) == t.subrange(a, b),
{
    assert forall|i: int| 0 <= i < b - a implies t2.subrange(a, b)[i] == t.subrange(a, b)[i] by {
        let j = a + i;
        assert(text_byte(shorts, longs, t.len() as int, j));
    }
    assert(t2.subrange(a, b) =~= t.subrange(a, b));
}

proof fn lemma_values_agree(t: Seq<u8>, t2: Seq<u8>, shorts: Set<int>, longs: Set<int>, le: bool, e: IfdEntry)
    requires
        reencoded(t, t2, shorts, longs),
        value_covered(t, le, shorts, longs, e),
    ensures
        values_agree(t, le, t2, e),
{
    let len = t.len() as int;
    let vf = e.value_field as int;
    if e.value_type == TYPE_SHORT && e.count >= 1 {
        lemma_u16(t, t2, shorts, longs, le, vf);
    }
    if e.value_type == TYPE_LONG && e.count >= 1 {
        lemma_u32(t, t2, shorts, longs, le, vf);
    }
    if e.value_type == TYPE_ASCII && e.count >= 1 {
        if e.count <= 4 {
            if vf + e.count <= len {
                lemma_text(t, t2, shorts, longs, vf, vf + e.count);
            }
        } else {
            lemma_u32(t, t2, shorts, longs, le, vf);
            if let Some(o) = spec_u32_at(t, le, vf) {
                if o + e.count <= len {
                    lemma_text(t, t2, shorts, longs, o as int, o + e.count);
                }
            }
        }
    }
    if e.value_type == TYPE_RATIONAL && e.count >= 3 {
        lemma_u32(t, t2, shorts, longs, le, vf);
        if let Some(o) = spec_u32_at(t, le, vf) {
            if o + 24 <= len {
                assert(has32(longs, len, o + 4 * 0));
                lemma_u32(t, t2, shorts, longs, le, o + 4 * 0);
                assert(has32(longs, len, o + 4 * 1));
                lemma_u32(t, t2, shorts, longs, le, o + 4 * 1);
                assert(has32(longs, len, o + 4 * 2));
                lemma_u32(t, t2, shorts, longs, le, o + 4 * 2);
                assert(has32(longs, len, o + 4 * 3));
                lemma_u32(t, t2, shorts, longs, le, o + 4 * 3);
                assert(has32(longs, len, o + 4 * 4));
                lemma_u32(t, t2, shorts, longs, le, o + 4 * 4);
                assert(has32(longs, len, o + 4 * 5));
                lemma_u32(t, t2, shorts, longs, le, o + 4 * 5);
                assert(u32_from(t2, !le, o + 4 * 0) == u32_from(t, le, o + 4 * 0));
                assert(u32_from(t2, !le, o + 4 * 1) == u32_from(t, le, o + 4 * 1));
                assert(u32_from(t2, !le, o + 4 * 2) == u32_from(t, le, o + 4 * 2));
                assert(u32_from(t2, !le, o + 4 * 3) == u32_from(t, le, o + 4 * 3));
                assert(u32_from(t2, !le, o + 4 * 4) == u32_from(t, le, o + 4 * 4));
                assert(u32_from(t2, !le, o + 4 * 5) == u32_from(t, le, o + 4 * 5));
            }
        }
    }
}

proof fn lemma_ifd(t: Seq<u8>, t2: Seq<u8>, shorts: Set<int>, longs: Set<int>, le: bool, off: int)
    requires
        reencoded(t, t2, shorts, longs),
        ifd_covered(t, le, shorts, longs, off),
    ensures
        spec_read_ifd(t2, !le, off) == spec_read_ifd(t, le, off),
        spec_read_ifd(t, le, off) matches Some(es) ==> forall|i: int|
            0 <= i < es.len() ==> values_agree(t, le, t2, #[trigger] es[i]),
{
    lemma_u16(t, t2, shorts, longs, le, off);
    if let Some(es) = spec_read_ifd(t, le, off) {
        let count = u16_from(t, le, off);
        assert forall|i: int| 0 <= i < es.len() implies entry_at(t2, !le, off + 2 + 12 * i)
            == entry_at(t, le, off + 2 + 12 * i) && values_agree(t, le, t2, #[trigger] es[i]) by {
            let e = off + 2 + 12 * i;
            let ent = es[i];
            assert(value_covered(t, le, shorts, longs, ent));
            assert(shorts.contains(off + 2 + 12 * i));
            assert(shorts.contains(off + 4 + 12 * i));
            assert(longs.contains(off + 6 + 12 * i));
            lemma_u16(t, t2, shorts, longs, le, e);
            lemma_u16(t, t2, shorts, longs, le, e + 2);
            lemma_u32(t, t2, shorts, longs, le, e + 4);
            lemma_values_agree(t, t2, shorts, longs, le, es[i]);
        }
        assert(spec_read_ifd(t2, !le, off).unwrap() =~= es);
    }
}

proof fn lemma_last_tagged_in(es: Seq<IfdEntry>, tag: u16)
    ensures
        last_tagged(es, tag) matches Some(e) ==> exists|i: int| 0 <= i < es.len() && es[i] == e,
    decreases es.len(),
{
    if es.len() > 0 && es.last().tag != tag {
        lemma_last_tagged_in(es.drop_last(), tag);
        if let Some(e) = last_tagged(es.drop_last(), tag) {
            let i = choose|i: int| 0 <= i < es.drop_last().len() && es.drop_last()[i] == e;
            assert(es[i] == e);
        }
    } else if es.len() > 0 {
        assert(es[es.len() - 1] == es.last());
    }
}

proof fn lemma_tagged(t: Seq<u8>, le: bool, t2: Seq<u8>, es: Seq<IfdEntry>, tag: u16)
    requires
        forall|i: int| 0 <= i < es.len() ==> values_agree(t, le, t2, #[trigger] es[i]),
    ensures
        tagged_short(t2, !le, es, tag) == tagged_short(t, le, es, tag),
        tagged_long(t2, !le, es, tag) == tagged_long(t, le, es, tag),
        tagged_ascii(t2, !le, es, tag) == tagged_ascii(t, le, es, tag),
        tagged_ascii_bytes(t2, !le, es, tag) == tagged_ascii_bytes(t, le, es, tag),
        tagged_dms(t2, !le, es, tag) == tagged_dms(t, le, es, tag),
        last_text(t2, !le, es, tag) == last_text(t, le, es, tag),
    decreases es.len(),
{
    lemma_last_tagged_in(es, tag);
    if let Some(e) = last_tagged(es, tag) {
        let i = choose|i: int| 0 <= i < es.len() && es[i] == e;
        assert(values_agree(t, le, t2, es[i]));
    }
    if es.len() > 0 {
        assert(values_agree(t, le, t2, es[es.len() - 1]));
        assert forall|i: int| 0 <= i < es.drop_last().len() implies values_agree(
            t,
            le,
            t2,
            #[trigger] es.drop_last()[i],
        ) by {
            assert(values_agree(t, le, t2, es[i]));
        }
        lemma_tagged(t, le, t2, es.drop_last(), tag);
    }
}

proof fn lemma_pointed(t: Seq<u8>, t2: Seq<u8>, shorts: Set<int>, longs: Set<int>, le: bool, p: Option<u32>)
    requires
        reencoded(t, t2, shorts, longs),
        pointed_covered(t, le, shorts, longs, p),
    ensures
        spec_original_time(t2, !le, p) == spec_original_time(t, le, p),
        spec_gps(t2, !le, p) == spec_gps(t, le, p),
{
    if let Some(off) = p {
        lemma_ifd(t, t2, shorts, longs, le, off as int);
        if let Some(g) = spec_read_ifd(t, le, off as int) {
            lemma_tagged(t, le, t2, g, crate::exif::TAG_DATETIME_ORIGINAL);
            lemma_tagged(t, le, t2, g, TAG_GPS_LATITUDE);
            lemma_tagged(t, le, t2, g, TAG_GPS_LONGITUDE);
            lemma_tagged(t, le, t2, g, TAG_GPS_LATITUDE_REF);
            lemma_tagged(t, le, t2, g, TAG_GPS_LONGITUDE_REF);
        }
    }
}

/// Byte order does not matter: an Exif block and the same block written in
/// the other byte order (mark switched, every integer field the reader
/// interprets re-encoded, text left as it is) give the same metadata.
pub proof fn law_byte_order_symmetry(t: Seq<u8>, t2: Seq<u8>, shorts: Set<int>, longs: Set<int>)
    requires
        reencoded(t, t2, shorts, longs),
        layout_covers(t, shorts, longs),
    ensures
        spec_parse(t2) == spec_parse(t),
{
    if t.len() >= 8 {
        let le = byte_order(t)->Some_0;
        assert(byte_order(t2) == Some(!le));
        lemma_u16(t, t2, shorts, longs, le, 2);
        lemma_u32(t, t2, shorts, longs, le, 4);
        let off = u32_from(t, le, 4) as int;
        lemma_ifd(t, t2, shorts, longs, le, off);
        if let Some(ifd0) = spec_read_ifd(t, le, off) {
            lemma_tagged(t, le, t2, ifd0, crate::exif::TAG_ORIENTATION);
            lemma_tagged(t, le, t2, ifd0, crate::exif::TAG_DATETIME);
            lemma_tagged(t, le, t2, ifd0, TAG_EXIF_IFD_POINTER);
            lemma_tagged(t, le, t2, ifd0, TAG_GPS_IFD_POINTER);
            lemma_pointed(t, t2, shorts, longs, le, tagged_long(t, le, ifd0, TAG_EXIF_IFD_POINTER));
            lemma_pointed(t, t2, shorts, longs, le, tagged_long(t, le, ifd0, TAG_GPS_IFD_POINTER));
        }
    }
}


// ---------------------------------------------------------------------------
// What the readers are for, stated over the raw bytes.

/// Every start-of-frame marker of JPEG (T.81: C0-C3, C5-C7, C9-CB, CD-CF)
/// carries the dimensions: a JPEG whose first segment after SOI is such a
/// frame header reads as that image, height at bytes 7..9 and width at
/// bytes 9..11, whatever else follows.
pub proof fn law_every_sof_marker_gives_dimensions(data: Seq<u8>)
    requires
        data.len() >= 11,
        data[0] == 0xFF,
        data[1] == 0xD8,
        data[2] == 0xFF,
        (0xC0 <= data[3] <= 0xC3) || (0xC5 <= data[3] <= 0xC7) || (0xC9 <= data[3] <= 0xCB) || (0xCD
            <= data[3] <= 0xCF),
        data[4] * 0x100 + data[5] >= 2,
    ensures
        spec_read_info(data) matches Ok(info) && info.format == Format::Jpeg && info.width == data[9]
            * 0x100 + data[10] && info.height == data[7] * 0x100 + data[8] && info.exif is None,
{
    assert(!spec_is_png(data)) by {
        if data.len() >= 8 && data.subrange(0, 8) == crate::png::signature() {
            assert(data.subrange(0, 8)[0] == data[0]);
        }
    }
}

/// A JPEG that opens with an APP1 segment carrying an Exif block, followed
/// by a frame header, reports the metadata of that Exif block along with
/// the frame's dimensions.
pub proof fn law_exif_app1_is_reported(data: Seq<u8>, seg_len: int)
    requires
        data[0] == 0xFF,
        data[1] == 0xD8,
        data[2] == 0xFF,
        data[3] == 0xE1,
        seg_len == data[4] * 0x100 + data[5],
        seg_len >= 8,
        data[6] == 0x45,
        data[7] == 0x78,
        data[8] == 0x69,
        data[9] == 0x66,
        data[10] == 0,
        data[11] == 0,
        data.len() >= 4 + seg_len + 11,
        data[4 + seg_len] == 0xFF,
        (0xC0 <= data[5 + seg_len] <= 0xC3) || (0xC5 <= data[5 + seg_len] <= 0xC7) || (0xC9
            <= data[5 + seg_len] <= 0xCB) || (0xCD <= data[5 + seg_len] <= 0xCF),
        data[6 + seg_len] * 0x100 + data[7 + seg_len] >= 2,
    ensures
        spec_read_info(data) matches Ok(info) && info.format == Format::Jpeg && info.exif
            == spec_parse(data.subrange(12, 4 + seg_len)) && info.width == data[11 + seg_len]
            * 0x100 + data[12 + seg_len] && info.height == data[9 + seg_len] * 0x100 + data[10
            + seg_len],
{
    assert(!spec_is_png(data)) by {
        if data.len() >= 8 && data.subrange(0, 8) == crate::png::signature() {
            assert(data.subrange(0, 8)[0] == data[0]);
        }
    }
    assert(data.subrange(6, 12) =~= exif_header());
    let q = 4 + seg_len;
    lemma_exif_step(data, seg_len);
    lemma_frame_after(data, q, spec_parse(data.subrange(12, q)));
}

proof fn lemma_exif_step(data: Seq<u8>, seg_len: int)
    requires
        data[2] == 0xFF,
        data[3] == 0xE1,
        seg_len == data[4] * 0x100 + data[5],
        seg_len >= 8,
        data.len() >= 4 + seg_len + 11,
        data.subrange(6, 12) == exif_header(),
    ensures
        walk(data, 2, false, None) == walk(data, 4 + seg_len, true, spec_parse(data.subrange(12, 4 + seg_len))),
{
    assert(be_u16(data, 4) as int == seg_len);
}

proof fn lemma_frame_after(data: Seq<u8>, q: int, x: Option<crate::exif::ExifView>)
    requires
        q >= 0,
        data.len() >= q + 11,
        data[q] == 0xFF,
        (0xC0 <= data[q + 1] <= 0xC3) || (0xC5 <= data[q + 1] <= 0xC7) || (0xC9 <= data[q + 1]
            <= 0xCB) || (0xCD <= data[q + 1] <= 0xCF),
        data[q + 2] * 0x100 + data[q + 3] >= 2,
    ensures
        walk(data, q, true, x) matches Ok(info) && info.format == Format::Jpeg && info.exif == x
            && info.width == data[q + 7] * 0x100 + data[q + 8] && info.height == data[q + 5]
            * 0x100 + data[q + 6],
{
}

/// Segments with markers that are not frame headers (DHT `C4`, JPG `C8`,
/// DAC `CC`, APPn, ...) are skipped by their declared length: putting one
/// in front of a frame header leaves the dimensions as they are.
pub proof fn law_non_frame_segment_skipped(data: Seq<u8>)
    requires
        data.len() >= 17,
        data[0] == 0xFF,
        data[1] == 0xD8,
        data[2] == 0xFF,
        data[3] == 0xC4 || data[3] == 0xC8 || data[3] == 0xCC || (0xE0 <= data[3] <= 0xEF && data[3]
            != 0xE1),
        data[4] == 0x00,
        data[5] == 0x04,
        data[8] == 0xFF,
        (0xC0 <= data[9] <= 0xC3) || (0xC5 <= data[9] <= 0xC7) || (0xC9 <= data[9] <= 0xCB) || (0xCD
            <= data[9] <= 0xCF),
        data[10] * 0x100 + data[11] >= 2,
    ensures
        spec_read_info(data) matches Ok(info) && info.format == Format::Jpeg && info.width
            == data[15] * 0x100 + data[16] && info.height == data[13] * 0x100 + data[14],
{
    assert(!spec_is_png(data)) by {
        if data.len() >= 8 && data.subrange(0, 8) == crate::png::signature() {
            assert(data.subrange(0, 8)[0] == data[0]);
        }
    }
    assert(walk(data, 2, false, None) == walk(data, 8, false, None));
}

/// A PNG whose first chunk is a 13-byte IHDR reads as that image, width and
/// height being the big-endian numbers at bytes 16..20 and 20..24, whatever
/// its bit depth, color type, compression, filter or interlace bytes are.
pub proof fn law_png_dimensions_from_ihdr(data: Seq<u8>)
    requires
        data.len() >= 29,
        data[0] == 0x89,
        data[1] == 0x50,
        data[2] == 0x4E,
        data[3] == 0x47,
        data[4] == 0x0D,
        data[5] == 0x0A,
        data[6] == 0x1A,
        data[7] == 0x0A,
        data[8] == 0,
        data[9] == 0,
        data[10] == 0,
        data[11] == 13,
        data[12] == 0x49,
        data[13] == 0x48,
        data[14] == 0x44,
        data[15] == 0x52,
    ensures
        spec_read_info(data) matches Ok(info) && info.format == Format::Png && info.width
            == data[16] * 0x1000000 + data[17] * 0x10000 + data[18] * 0x100 + data[19]
            && info.height == data[20] * 0x1000000 + data[21] * 0x10000 + data[22] * 0x100
            + data[23] && info.exif is None,
{
    assert(data.subrange(0, 8) =~= crate::png::signature());
}

/// `last_tagged` finds the last entry with the tag, and nothing when no
/// entry has it.
pub proof fn law_last_tagged_is_last(es: Seq<IfdEntry>, tag: u16)
    ensures
        last_tagged(es, tag) matches Some(e) ==> exists|i: int|
            0 <= i < es.len() && es[i] == e && e.tag == tag && forall|j: int|
                i < j < es.len() ==> (#[trigger] es[j]).tag != tag,
        last_tagged(es, tag) is None ==> forall|j: int| 0 <= j < es.len() ==> (#[trigger] es[j]).tag
            != tag,
    decreases es.len(),
{
    if es.len() > 0 {
        let n = es.len() - 1;
        if es.last().tag == tag {
            assert(es[n] == es.last());
        } else {
            let d = es.drop_last();
            law_last_tagged_is_last(d, tag);
            if let Some(e) = last_tagged(d, tag) {
                let i = choose|i: int|
                    0 <= i < d.len() && d[i] == e && e.tag == tag && forall|j: int|
                        i < j < d.len() ==> (#[trigger] d[j]).tag != tag;
                assert(es[i] == e);
                assert forall|j: int| i < j < es.len() implies (#[trigger] es[j]).tag != tag by {
                    if j < n {
                        assert(es[j] == d[j]);
                    }
                }
            } else {
                assert forall|j: int| 0 <= j < es.len() implies (#[trigger] es[j]).tag != tag by {
                    if j < n {
                        assert(es[j] == d[j]);
                    }
                }
            }
        }
    }
}

/// `last_text` gives the text of the last entry with the tag whose text
/// decodes, and nothing when no entry with the tag has text that decodes.
pub proof fn law_last_text_is_last(data: Seq<u8>, le: bool, es: Seq<IfdEntry>, tag: u16)
    ensures
        last_text(data, le, es, tag) matches Some(s) ==> exists|i: int|
            0 <= i < es.len() && es[i].tag == tag && spec_as_ascii(data, le, es[i]) == Some(s)
                && forall|j: int|
                i < j < es.len() ==> !((#[trigger] es[j]).tag == tag && spec_as_ascii(
                    data,
                    le,
                    es[j],
                ) is Some),
        last_text(data, le, es, tag) is None ==> forall|j: int|
            0 <= j < es.len() ==> !((#[trigger] es[j]).tag == tag && spec_as_ascii(data, le, es[j]) is Some),
    decreases es.len(),
{
    if es.len() > 0 {
        let n = es.len() - 1;
        if es.last().tag == tag && spec_as_ascii(data, le, es.last()) is Some {
            assert(es[n] == es.last());
        } else {
            let d = es.drop_last();
            law_last_text_is_last(data, le, d, tag);
            if let Some(s) = last_text(data, le, d, tag) {
                let i = choose|i: int|
                    0 <= i < d.len() && d[i].tag == tag && spec_as_ascii(data, le, d[i]) == Some(s)
                        && forall|j: int|
                        i < j < d.len() ==> !((#[trigger] d[j]).tag == tag && spec_as_ascii(
                            data,
                            le,
                            d[j],
                        ) is Some);
                assert(es[i] == d[i]);
                assert forall|j: int| i < j < es.len() implies !((#[trigger] es[j]).tag == tag
                    && spec_as_ascii(data, le, es[j]) is Some) by {
                    if j < n {
                        assert(es[j] == d[j]);
                    }
                }
            } else {
                assert forall|j: int| 0 <= j < es.len() implies !((#[trigger] es[j]).tag == tag
                    && spec_as_ascii(data, le, es[j]) is Some) by {
                    if j < n {
                        assert(es[j] == d[j]);
                    }
                }
            }
        }
    }
}

/// The Exif block `t` has a readable header (byte order `le`, magic 42) and
/// IFD0 `ifd0`.
pub open spec fn has_ifd0(t: Seq<u8>, le: bool, ifd0: Seq<IfdEntry>) -> bool {
    &&& t.len() >= 8
    &&& ((le && t[0] == 0x49 && t[1] == 0x49) || (!le && t[0] == 0x4D && t[1] == 0x4D))
    &&& u16_from(t, le, 2) == 42
    &&& spec_read_ifd(t, le, u32_from(t, le, 4) as int) == Some(ifd0)
}

/// The orientation comes from IFD0's Orientation entry alone: an
/// orientation there is always reported, and what is reported is exactly
/// that entry's value, whatever other tags (Exif or GPS pointers,
/// timestamps) IFD0 holds.
pub proof fn law_orientation_from_ifd0(t: Seq<u8>, le: bool, ifd0: Seq<IfdEntry>)
    requires
        has_ifd0(t, le, ifd0),
    ensures
        spec_parse(t) matches Some(x) ==> x.orientation == tagged_short(t, le, ifd0, crate::exif::TAG_ORIENTATION),
        tagged_short(t, le, ifd0, crate::exif::TAG_ORIENTATION) matches Some(v) ==> (spec_parse(t) matches Some(x)
            && x.orientation == Some(v)),
{
}

/// The text of the last decodable `DateTimeOriginal` in the IFD that
/// IFD0's Exif pointer (0x8769) leads to, if any.
pub open spec fn capture_time(t: Seq<u8>, le: bool, ifd0: Seq<IfdEntry>) -> Option<Seq<char>> {
    match tagged_long(t, le, ifd0, TAG_EXIF_IFD_POINTER) {
        Some(p) => match spec_read_ifd(t, le, p as int) {
            Some(sub) => last_text(t, le, sub, crate::exif::TAG_DATETIME_ORIGINAL),
            None => None,
        },
        None => None,
    }
}

/// The timestamp is the capture time when there is one: when the IFD that
/// IFD0's Exif pointer (0x8769) leads to has a `DateTimeOriginal` whose
/// text decodes, that text (of its last such entry) is the timestamp,
/// whatever other IFD pointers IFD0 holds; otherwise it is IFD0's
/// `DateTime`.
pub proof fn law_timestamp_prefers_capture_time(t: Seq<u8>, le: bool, ifd0: Seq<IfdEntry>)
    requires
        has_ifd0(t, le, ifd0),
    ensures
        capture_time(t, le, ifd0) matches Some(s) ==> (spec_parse(t) matches Some(x)
            && x.timestamp == Some(s)),
        capture_time(t, le, ifd0) is None ==> (spec_parse(t) matches Some(x) ==> x.timestamp
            == tagged_ascii(t, le, ifd0, crate::exif::TAG_DATETIME)),
{
}

/// The GPS position comes from the IFD that IFD0's GPS pointer (0x8825)
/// leads to, and from nowhere else.
pub proof fn law_gps_from_gps_ifd(t: Seq<u8>, le: bool, ifd0: Seq<IfdEntry>)
    requires
        has_ifd0(t, le, ifd0),
    ensures
        spec_parse(t) matches Some(x) ==> x.gps == (match tagged_long(t, le, ifd0, TAG_GPS_IFD_POINTER) {
            Some(p) => match spec_read_ifd(t, le, p as int) {
                Some(g) => gps_from_ifd(t, le, g),
                None => None,
            },
            None => None,
        }),
{
}

/// The sign of a GPS reference: `-1` when its text starts with `letter`.
pub open spec fn ref_sign(r: Option<Seq<u8>>, letter: u8) -> int {
    if r matches Some(b) && b.len() > 0 && b[0] == letter {
        -1
    } else {
        1
    }
}

/// `value * (60 * 3600 * dd * md * sd)` for the angle `d`, scaled by `sign`:
/// `sign * (dn * 60 * md * 3600 * sd + mn * dd * 3600 * sd + sn * dd * 60 * md)`.
pub open spec fn scaled_angle(d: Dms, sign: int) -> int {
    sign * (d.deg_num * 60 * d.min_den * 3600 * d.sec_den + d.min_num * d.deg_den * 3600 * d.sec_den
        + d.sec_num * d.deg_den * 60 * d.min_den)
}

/// A GPS position is the latitude and longitude of the GPS IFD in signed
/// decimal degrees: each is `deg + min / 60 + sec / 3600` of the stored
/// fractions (as an exact fraction with positive denominator), negated when
/// the latitude reference starts with `S` or the longitude reference with
/// `W`. It is reported whenever both angles are there with nonzero
/// denominators.
pub proof fn law_gps_signed_decimal_degrees(data: Seq<u8>, le: bool, g: Seq<IfdEntry>)
    ensures
        gps_from_ifd(data, le, g) matches Some(c) ==> {
            &&& tagged_dms(data, le, g, TAG_GPS_LATITUDE) matches Some(lat)
            &&& tagged_dms(data, le, g, TAG_GPS_LONGITUDE) matches Some(lon)
            &&& c.latitude.denominator > 0
            &&& c.longitude.denominator > 0
            &&& c.latitude.numerator * (lat.deg_den * 60 * lat.min_den * 3600 * lat.sec_den)
                == c.latitude.denominator * scaled_angle(
                lat,
                ref_sign(tagged_ascii_bytes(data, le, g, TAG_GPS_LATITUDE_REF), 0x53),
            )
            &&& c.longitude.numerator * (lon.deg_den * 60 * lon.min_den * 3600 * lon.sec_den)
                == c.longitude.denominator * scaled_angle(
                lon,
                ref_sign(tagged_ascii_bytes(data, le, g, TAG_GPS_LONGITUDE_REF), 0x57),
            )
        },
        (tagged_dms(data, le, g, TAG_GPS_LATITUDE) matches Some(lat) && tagged_dms(
            data,
            le,
            g,
            TAG_GPS_LONGITUDE,
        ) matches Some(lon) && lat.deg_den != 0 && lat.min_den != 0 && lat.sec_den != 0
            && lon.deg_den != 0 && lon.min_den != 0 && lon.sec_den != 0) ==> gps_from_ifd(
            data,
            le,
            g,
        ) is Some,
{
    if let (Some(lat), Some(lon)) = (
        tagged_dms(data, le, g, TAG_GPS_LATITUDE),
        tagged_dms(data, le, g, TAG_GPS_LONGITUDE),
    ) {
        let south = ref_is(tagged_ascii_bytes(data, le, g, TAG_GPS_LATITUDE_REF), 0x53);
        let west = ref_is(tagged_ascii_bytes(data, le, g, TAG_GPS_LONGITUDE_REF), 0x57);
        law_degrees_exact(lat, south);
        law_degrees_exact(lon, west);
        lemma_signed_scale(lat, south, tagged_ascii_bytes(data, le, g, TAG_GPS_LATITUDE_REF), 0x53);
        lemma_signed_scale(lon, west, tagged_ascii_bytes(data, le, g, TAG_GPS_LONGITUDE_REF), 0x57);
    }
}

proof fn lemma_signed_scale(d: Dms, negative: bool, r: Option<Seq<u8>>, letter: u8)
    requires
        negative == ref_is(r, letter),
    ensures
        spec_degrees(d, negative) matches Some(x) ==> x.numerator * (d.deg_den * 60 * d.min_den * 3600
            * d.sec_den) == x.denominator * scaled_angle(d, ref_sign(r, letter)),
{
    law_degrees_exact(d, negative);
    if let Some(x) = spec_degrees(d, negative) {
        let k = d.deg_den * 60 * d.min_den * 3600 * d.sec_den;
        let m = d.deg_num * 60 * d.min_den * 3600 * d.sec_den + d.min_num * d.deg_den * 3600 * d.sec_den
            + d.sec_num * d.deg_den * 60 * d.min_den;
        if negative {
            assert(-x.numerator * k == x.denominator * m);
            assert(x.numerator * k == x.denominator * (-1 * m)) by (nonlinear_arith)
                requires
                    -x.numerator * k == x.denominator * m,
            ;
        } else {
            assert(x.numerator * k == x.denominator * (1 * m));
        }
    }
}

} // verus!
