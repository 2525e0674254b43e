//! Exif metadata lives inside a JPEG APP1 segment as a self-contained TIFF
//! file: a byte-order marker, then a chain of IFDs (image file directories)
//! made of fixed 12-byte tag entries. We only care about a few tags
//! (orientation, the two timestamp tags, and the GPS position), so this
//! walks just enough of the structure to find them and ignores everything
//! else (thumbnails, maker notes, ...).

use vstd::prelude::*;
use vstd::utf8::{decode_utf8, encode_utf8, valid_utf8};

verus! {

broadcast use vstd::utf8::encode_utf8_decode_utf8;

pub const TAG_ORIENTATION: u16 = 0x0112;
pub const TAG_DATETIME: u16 = 0x0132;
pub const TAG_EXIF_IFD_POINTER: u16 = 0x8769;
pub const TAG_GPS_IFD_POINTER: u16 = 0x8825;
pub const TAG_DATETIME_ORIGINAL: u16 = 0x9003;
pub const TAG_GPS_LATITUDE_REF: u16 = 0x0001;
pub const TAG_GPS_LATITUDE: u16 = 0x0002;
pub const TAG_GPS_LONGITUDE_REF: u16 = 0x0003;
pub const TAG_GPS_LONGITUDE: u16 = 0x0004;

pub const TYPE_ASCII: u16 = 2;
pub const TYPE_SHORT: u16 = 3;
pub const TYPE_LONG: u16 = 4;
pub const TYPE_RATIONAL: u16 = 5;

// ---------------------------------------------------------------------------
// Reading integers out of the TIFF block.

/// The `u16` stored at `data[off..off + 2]` in the given byte order.
pub open spec fn u16_from(data: Seq<u8>, le: bool, off: int) -> u16 {
    if le {
        (data[off] + data[off + 1] * 0x100) as u16
    } else {
        (data[off] * 0x100 + data[off + 1]) as u16
    }
}

/// The `u32` stored at `data[off..off + 4]` in the given byte order.
pub open spec fn u32_from(data: Seq<u8>, le: bool, off: int) -> u32 {
    if le {
        (data[off] + data[off + 1] * 0x100 + data[off + 2] * 0x10000 + data[off + 3] * 0x1000000) as u32
    } else {
        (data[off] * 0x1000000 + data[off + 1] * 0x10000 + data[off + 2] * 0x100 + data[off + 3]) as u32
    }
}

/// The `u16` at `off`, when the two bytes lie inside `data`.
pub open spec fn spec_u16_at(data: Seq<u8>, le: bool, off: int) -> Option<u16> {
    if 0 <= off && off + 2 <= data.len() {
        Some(u16_from(data, le, off))
    } else {
        None
    }
}

/// The `u32` at `off`, when the four bytes lie inside `data`.
pub open spec fn spec_u32_at(data: Seq<u8>, le: bool, off: int) -> Option<u32> {
    if 0 <= off && off + 4 <= data.len() {
        Some(u32_from(data, le, off))
    } else {
        None
    }
}

struct Reader<'a> {
    data: &'a [u8],
    little_endian: bool,
}

impl<'a> Reader<'a> {
    fn u16_at(&self, offset: usize) -> (r: Option<u16>)
        ensures
            r == spec_u16_at(self.data@, self.little_endian, offset as int),
    {
        if offset > self.data.len() || self.data.len() - offset < 2 {
            return None;
        }
        let b0 = self.data[offset] as u16;
        let b1 = self.data[offset + 1] as u16;
        Some(if self.little_endian { b0 + b1 * 0x100 } else { b0 * 0x100 + b1 })
    }

    fn u32_at(&self, offset: usize) -> (r: Option<u32>)
        ensures
            r == spec_u32_at(self.data@, self.little_endian, offset as int),
    {
        if offset > self.data.len() || self.data.len() - offset < 4 {
            return None;
        }
        let b0 = self.data[offset] as u32;
        let b1 = self.data[offset + 1] as u32;
        let b2 = self.data[offset + 2] as u32;
        let b3 = self.data[offset + 3] as u32;
        Some(
            if self.little_endian {
                b0 + b1 * 0x100 + b2 * 0x10000 + b3 * 0x1000000
            } else {
                b0 * 0x1000000 + b1 * 0x10000 + b2 * 0x100 + b3
            },
        )
    }
}

// ---------------------------------------------------------------------------
// IFD entries.

/// One 12-byte tag entry of an IFD.
#[derive(Clone, Copy)]
pub struct IfdEntry {
    pub tag: u16,
    pub value_type: u16,
    pub count: u32,
    /// Offset (into the TIFF data) of the entry's 4-byte value field. For
    /// values that fit in 4 bytes this holds the value itself; otherwise it
    /// holds an offset to where the value actually lives.
    pub value_field: usize,
}

/// The entry whose 12 bytes start at `e`.
pub open spec fn entry_at(data: Seq<u8>, le: bool, e: int) -> IfdEntry {
    IfdEntry {
        tag: u16_from(data, le, e),
        value_type: u16_from(data, le, e + 2),
        count: u32_from(data, le, e + 4),
        value_field: (e + 8) as usize,
    }
}

/// The entries of the IFD at `off`: a 2-byte entry count, then that many
/// 12-byte entries. `None` when the count or the tag, type and count of
/// some entry lie outside `data`.
pub open spec fn spec_read_ifd(data: Seq<u8>, le: bool, off: int) -> Option<Seq<IfdEntry>> {
    match spec_u16_at(data, le, off) {
        None => None,
        Some(count) => if count == 0 || off + 12 * count - 2 <= data.len() {
            Some(Seq::new(count as nat, |i: int| entry_at(data, le, off + 2 + 12 * i)))
        } else {
            None
        },
    }
}

/// A SHORT entry's first value.
pub open spec fn spec_as_short(data: Seq<u8>, le: bool, e: IfdEntry) -> Option<u16> {
    if e.value_type != TYPE_SHORT || e.count < 1 {
        None
    } else {
        spec_u16_at(data, le, e.value_field as int)
    }
}

/// A LONG entry's first value.
pub open spec fn spec_as_long(data: Seq<u8>, le: bool, e: IfdEntry) -> Option<u32> {
    if e.value_type != TYPE_LONG || e.count < 1 {
        None
    } else {
        spec_u32_at(data, le, e.value_field as int)
    }
}

/// Index of the first NUL byte of `b` at or after `i`, or `b.len()`.
pub open spec fn nul_index(b: Seq<u8>, i: int) -> int
    decreases b.len() - i,
{
    if i < 0 || i >= b.len() || b[i] == 0 {
        i
    } else {
        nul_index(b, i + 1)
    }
}

/// Where an ASCII entry's `count` bytes are: inline in the value field when
/// they fit in 4 bytes, else at the offset that the value field holds.
pub open spec fn ascii_offset(data: Seq<u8>, le: bool, e: IfdEntry) -> Option<int> {
    if e.count <= 4 {
        Some(e.value_field as int)
    } else {
        match spec_u32_at(data, le, e.value_field as int) {
            Some(o) => Some(o as int),
            None => None,
        }
    }
}

/// An ASCII entry's bytes up to (not including) the first NUL, or all
/// `count` of them when there is none.
pub open spec fn spec_ascii_bytes(data: Seq<u8>, le: bool, e: IfdEntry) -> Option<Seq<u8>> {
    if e.value_type != TYPE_ASCII || e.count == 0 {
        None
    } else {
        match ascii_offset(data, le, e) {
            None => None,
            Some(o) => if o + e.count <= data.len() {
                let raw = data.subrange(o, o + e.count);
                Some(raw.take(nul_index(raw, 0)))
            } else {
                None
            },
        }
    }
}

/// An ASCII entry's text, when its bytes are valid UTF-8.
pub open spec fn spec_as_ascii(data: Seq<u8>, le: bool, e: IfdEntry) -> Option<Seq<char>> {
    match spec_ascii_bytes(data, le, e) {
        None => None,
        Some(b) => if valid_utf8(b) {
            Some(decode_utf8(b))
        } else {
            None
        },
    }
}

/// Decodes `bytes` as UTF-8 with `std::str::from_utf8`.
/// Claimed of it: it succeeds exactly when `bytes` is valid UTF-8, and then
/// hands back a string slice made of the same bytes.
#[verifier::external_body]
fn str_from_utf8(bytes: &[u8]) -> (r: Option<&str>)
    ensures
        r is Some <==> valid_utf8(bytes@),
        r matches Some(s) ==> encode_utf8(s@) == bytes@,
{
    match std::str::from_utf8(bytes) {
        Ok(s) => Some(s),
        Err(_) => None,
    }
}

/// View of an optional string.
pub open spec fn opt_str(s: Option<String>) -> Option<Seq<char>> {
    match s {
        Some(s) => Some(s@),
        None => None,
    }
}

impl IfdEntry {
    fn as_short(&self, reader: &Reader) -> (r: Option<u16>)
        ensures
            r == spec_as_short(reader.data@, reader.little_endian, *self),
    {
        if self.value_type != TYPE_SHORT || self.count < 1 {
            return None;
        }
        reader.u16_at(self.value_field)
    }

    fn as_long(&self, reader: &Reader) -> (r: Option<u32>)
        ensures
            r == spec_as_long(reader.data@, reader.little_endian, *self),
    {
        if self.value_type != TYPE_LONG || self.count < 1 {
            return None;
        }
        reader.u32_at(self.value_field)
    }

    fn ascii_bytes<'a>(&self, reader: &Reader<'a>) -> (r: Option<&'a [u8]>)
        ensures
            match r {
                Some(b) => spec_ascii_bytes(reader.data@, reader.little_endian, *self) == Some(b@),
                None => spec_ascii_bytes(reader.data@, reader.little_endian, *self) is None,
            },
    {
        if self.value_type != TYPE_ASCII || self.count == 0 {
            return None;
        }
        let len = self.count as usize;
        let data_offset = if len <= 4 {
            self.value_field
        } else {
            match reader.u32_at(self.value_field) {
                Some(o) => o as usize,
                None => return None,
            }
        };
        if data_offset > reader.data.len() || reader.data.len() - data_offset < len {
            return None;
        }
        let raw = &reader.data[data_offset..data_offset + len];
        // Exif ASCII values are NUL-terminated; trust the terminator over
        // `count` in case a writer padded the field.
        let mut end: usize = 0;
        while end < raw.len() && raw[end] != 0
            invariant
                end <= raw@.len(),
                nul_index(raw@, 0) == nul_index(raw@, end as int),
            decreases raw@.len() - end,
        {
            end = end + 1;
        }
        Some(&raw[0..end])
    }

    fn as_ascii(&self, reader: &Reader) -> (r: Option<String>)
        ensures
            opt_str(r) == spec_as_ascii(reader.data@, reader.little_endian, *self),
    {
        match self.ascii_bytes(reader) {
            None => None,
            Some(bytes) => match str_from_utf8(bytes) {
                None => None,
                Some(s) => Some(s.to_owned()),
            },
        }
    }
}

fn read_ifd(reader: &Reader, offset: usize) -> (r: Option<Vec<IfdEntry>>)
    ensures
        match r {
            Some(v) => spec_read_ifd(reader.data@, reader.little_endian, offset as int) == Some(v@),
            None => spec_read_ifd(reader.data@, reader.little_endian, offset as int) is None,
        },
{
    let count = match reader.u16_at(offset) {
        Some(c) => c as usize,
        None => return None,
    };
    let ghost data = reader.data@;
    let ghost le = reader.little_endian;
    let mut entries: Vec<IfdEntry> = Vec::new();
    let mut i: usize = 0;
    while i < count
        invariant
            data == reader.data@,
            le == reader.little_endian,
            offset + 2 <= data.len(),
            count == u16_from(data, le, offset as int),
            i <= count,
            entries@.len() == i,
            i > 0 ==> offset + 12 * i - 2 <= data.len(),
            forall|j: int| 0 <= j < i ==> entries@[j] == entry_at(data, le, offset + 2 + 12 * j),
        decreases count - i,
    {
        let room = reader.data.len() - (offset + 2);
        if i * 12 + 8 > room {
            return None;
        }
        let entry_offset = offset + 2 + i * 12;
        let tag = match reader.u16_at(entry_offset) { Some(v) => v, None => return None };
        let value_type = match reader.u16_at(entry_offset + 2) { Some(v) => v, None => return None };
        let n = match reader.u32_at(entry_offset + 4) { Some(v) => v, None => return None };
        entries.push(IfdEntry { tag, value_type, count: n, value_field: entry_offset + 8 });
        i = i + 1;
    }
    assert(entries@ =~= Seq::new(count as nat, |j: int| entry_at(data, le, offset + 2 + 12 * j)));
    Some(entries)
}


// ---------------------------------------------------------------------------
// GPS values.

/// A GPS angle as Exif stores it: degrees, minutes and seconds, each an
/// unsigned fraction `num / den`.
#[derive(Debug, Clone, Copy, PartialEq, Eq, Structural)]
pub struct Dms {
    pub deg_num: u32,
    pub deg_den: u32,
    pub min_num: u32,
    pub min_den: u32,
    pub sec_num: u32,
    pub sec_den: u32,
}

/// An angle in decimal degrees, kept exact as the fraction
/// `numerator / denominator` (the denominator is never 0).
#[derive(Debug, Clone, Copy, PartialEq, Eq, Structural)]
pub struct Degrees {
    pub numerator: i128,
    pub denominator: u128,
}

/// A GPS position in decimal degrees, positive north and east.
#[derive(Debug, Clone, Copy, PartialEq, Eq, Structural)]
pub struct GpsCoords {
    pub latitude: Degrees,
    pub longitude: Degrees,
}

/// A RATIONAL entry's first three values, which Exif always stores out of
/// line (24 bytes) at the offset the value field holds.
pub open spec fn spec_as_dms(data: Seq<u8>, le: bool, e: IfdEntry) -> Option<Dms> {
    if e.value_type != TYPE_RATIONAL || e.count < 3 {
        None
    } else {
        match spec_u32_at(data, le, e.value_field as int) {
            None => None,
            Some(o) => if o + 24 <= data.len() {
                Some(Dms {
                    deg_num: u32_from(data, le, o as int),
                    deg_den: u32_from(data, le, o + 4),
                    min_num: u32_from(data, le, o + 8),
                    min_den: u32_from(data, le, o + 12),
                    sec_num: u32_from(data, le, o + 16),
                    sec_den: u32_from(data, le, o + 20),
                })
            } else {
                None
            },
        }
    }
}

/// `d + m / 60 + s / 3600` over the common denominator
/// `3600 * deg_den * min_den * sec_den`, negated when `negative`;
/// `None` when one of the three fractions has a zero denominator.
pub open spec fn spec_degrees(d: Dms, negative: bool) -> Option<Degrees> {
    if d.deg_den == 0 || d.min_den == 0 || d.sec_den == 0 {
        None
    } else {
        let den: int = 3600 * d.deg_den * d.min_den * d.sec_den;
        let num: int = 3600 * d.deg_num * d.min_den * d.sec_den + 60 * d.min_num * d.deg_den
            * d.sec_den + d.sec_num * d.deg_den * d.min_den;
        Some(
            Degrees {
                numerator: (if negative {
                    -num
                } else {
                    num
                }) as i128,
                denominator: den as u128,
            },
        )
    }
}

/// A GPS reference tag (`"N"`, `"S"`, `"E"`, `"W"`) names `letter`.
pub open spec fn ref_is(r: Option<Seq<u8>>, letter: u8) -> bool {
    match r {
        Some(b) => b.len() > 0 && b[0] == letter,
        None => false,
    }
}

// ---------------------------------------------------------------------------
// Looking tags up. When a tag occurs more than once in an IFD, the last
// occurrence counts.

/// The last entry of `entries` with the given tag.
pub open spec fn last_tagged(entries: Seq<IfdEntry>, tag: u16) -> Option<IfdEntry>
    decreases entries.len(),
{
    if entries.len() == 0 {
        None
    } else if entries.last().tag == tag {
        Some(entries.last())
    } else {
        last_tagged(entries.drop_last(), tag)
    }
}

pub open spec fn tagged_short(data: Seq<u8>, le: bool, entries: Seq<IfdEntry>, tag: u16) -> Option<u16> {
    match last_tagged(entries, tag) {
        Some(e) => spec_as_short(data, le, e),
        None => None,
    }
}

pub open spec fn tagged_long(data: Seq<u8>, le: bool, entries: Seq<IfdEntry>, tag: u16) -> Option<u32> {
    match last_tagged(entries, tag) {
        Some(e) => spec_as_long(data, le, e),
        None => None,
    }
}

pub open spec fn tagged_ascii(data: Seq<u8>, le: bool, entries: Seq<IfdEntry>, tag: u16) -> Option<Seq<char>> {
    match last_tagged(entries, tag) {
        Some(e) => spec_as_ascii(data, le, e),
        None => None,
    }
}

pub open spec fn tagged_ascii_bytes(data: Seq<u8>, le: bool, entries: Seq<IfdEntry>, tag: u16) -> Option<Seq<u8>> {
    match last_tagged(entries, tag) {
        Some(e) => spec_ascii_bytes(data, le, e),
        None => None,
    }
}

pub open spec fn tagged_dms(data: Seq<u8>, le: bool, entries: Seq<IfdEntry>, tag: u16) -> Option<Dms> {
    match last_tagged(entries, tag) {
        Some(e) => spec_as_dms(data, le, e),
        None => None,
    }
}

/// The text of the last entry with the given tag whose text decodes.
pub open spec fn last_text(data: Seq<u8>, le: bool, entries: Seq<IfdEntry>, tag: u16) -> Option<Seq<char>>
    decreases entries.len(),
{
    if entries.len() == 0 {
        None
    } else if entries.last().tag == tag && spec_as_ascii(data, le, entries.last()) is Some {
        spec_as_ascii(data, le, entries.last())
    } else {
        last_text(data, le, entries.drop_last(), tag)
    }
}


impl IfdEntry {
    fn as_dms(&self, reader: &Reader) -> (r: Option<Dms>)
        ensures
            r == spec_as_dms(reader.data@, reader.little_endian, *self),
    {
        if self.value_type != TYPE_RATIONAL || self.count < 3 {
            return None;
        }
        let o = match reader.u32_at(self.value_field) {
            Some(o) => o as usize,
            None => return None,
        };
        if o > reader.data.len() || reader.data.len() - o < 24 {
            return None;
        }
        let deg_num = match reader.u32_at(o) { Some(v) => v, None => return None };
        let deg_den = match reader.u32_at(o + 4) { Some(v) => v, None => return None };
        let min_num = match reader.u32_at(o + 8) { Some(v) => v, None => return None };
        let min_den = match reader.u32_at(o + 12) { Some(v) => v, None => return None };
        let sec_num = match reader.u32_at(o + 16) { Some(v) => v, None => return None };
        let sec_den = match reader.u32_at(o + 20) { Some(v) => v, None => return None };
        Some(Dms { deg_num, deg_den, min_num, min_den, sec_num, sec_den })
    }

    /// Whether this reference entry's text starts with `letter`.
    fn names(&self, reader: &Reader, letter: u8) -> (r: bool)
        ensures
            r == ref_is(spec_ascii_bytes(reader.data@, reader.little_endian, *self), letter),
    {
        match self.ascii_bytes(reader) {
            Some(b) => b.len() > 0 && b[0] == letter,
            None => false,
        }
    }
}

/// Products of three 32-bit values fit in 96 bits.
proof fn lemma_product_bound(a: u128, b: u128, c: u128)
    requires
        a <= 0xffff_ffff,
        b <= 0xffff_ffff,
        c <= 0xffff_ffff,
    ensures
        a * b <= 0xffff_ffff_ffff_ffff,
        a * b * c <= 0xffff_ffff_ffff_ffff_ffff_ffff,
{
    assert(a * b <= 0xffff_ffff * 0xffff_ffffu128) by (nonlinear_arith)
        requires
            a <= 0xffff_ffff,
            b <= 0xffff_ffff,
    ;
    assert(a * b * c <= 0xffff_ffff_ffff_ffff * 0xffff_ffffu128) by (nonlinear_arith)
        requires
            a * b <= 0xffff_ffff_ffff_ffff,
            c <= 0xffff_ffff,
    ;
}

/// Converts degrees, minutes and seconds to exact decimal degrees.
pub fn degrees(d: Dms, negative: bool) -> (r: Option<Degrees>)
    ensures
        r == spec_degrees(d, negative),
{
    if d.deg_den == 0 || d.min_den == 0 || d.sec_den == 0 {
        return None;
    }
    let dn = d.deg_num as u128;
    let dd = d.deg_den as u128;
    let mn = d.min_num as u128;
    let md = d.min_den as u128;
    let sn = d.sec_num as u128;
    let sd = d.sec_den as u128;
    proof {
        lemma_product_bound(dd, md, sd);
        lemma_product_bound(dn, md, sd);
        lemma_product_bound(mn, dd, sd);
        lemma_product_bound(sn, dd, md);
    }
    let den = 3600 * (dd * md * sd);
    let num = 3600 * (dn * md * sd) + 60 * (mn * dd * sd) + sn * dd * md;
    assert(den == 3600 * d.deg_den * d.min_den * d.sec_den) by (nonlinear_arith)
        requires
            den == 3600 * (dd * md * sd),
            dd == d.deg_den,
            md == d.min_den,
            sd == d.sec_den,
    ;
    assert(num == 3600 * d.deg_num * d.min_den * d.sec_den + 60 * d.min_num * d.deg_den * d.sec_den
        + d.sec_num * d.deg_den * d.min_den) by (nonlinear_arith)
        requires
            num == 3600 * (dn * md * sd) + 60 * (mn * dd * sd) + sn * dd * md,
            dn == d.deg_num,
            dd == d.deg_den,
            mn == d.min_num,
            md == d.min_den,
            sn == d.sec_num,
            sd == d.sec_den,
    ;
    let magnitude = num as i128;
    let numerator = if negative {
        -magnitude
    } else {
        magnitude
    };
    Some(Degrees { numerator, denominator: den })
}

/// What the GPS IFD `g` says of the position: both a latitude and a
/// longitude are needed, signs come from the reference tags.
pub open spec fn gps_from_ifd(data: Seq<u8>, le: bool, g: Seq<IfdEntry>) -> Option<GpsCoords> {
    match (tagged_dms(data, le, g, TAG_GPS_LATITUDE), tagged_dms(data, le, g, TAG_GPS_LONGITUDE)) {
        (Some(lat), Some(lon)) => match (
            spec_degrees(lat, ref_is(tagged_ascii_bytes(data, le, g, TAG_GPS_LATITUDE_REF), 0x53)),
            spec_degrees(lon, ref_is(tagged_ascii_bytes(data, le, g, TAG_GPS_LONGITUDE_REF), 0x57)),
        ) {
            (Some(a), Some(b)) => Some(GpsCoords { latitude: a, longitude: b }),
            _ => None,
        },
        _ => None,
    }
}

/// The position from the GPS IFD that IFD0's pointer leads to, if any.
pub open spec fn spec_gps(data: Seq<u8>, le: bool, pointer: Option<u32>) -> Option<GpsCoords> {
    match pointer {
        None => None,
        Some(off) => match spec_read_ifd(data, le, off as int) {
            None => None,
            Some(g) => gps_from_ifd(data, le, g),
        },
    }
}

/// `DateTimeOriginal` from the Exif sub-IFD that IFD0's pointer leads to.
pub open spec fn spec_original_time(data: Seq<u8>, le: bool, pointer: Option<u32>) -> Option<Seq<char>> {
    match pointer {
        None => None,
        Some(off) => match spec_read_ifd(data, le, off as int) {
            None => None,
            Some(sub) => last_text(data, le, sub, TAG_DATETIME_ORIGINAL),
        },
    }
}

fn read_gps(reader: &Reader, pointer: Option<u32>) -> (r: Option<GpsCoords>)
    ensures
        r == spec_gps(reader.data@, reader.little_endian, pointer),
{
    let off = match pointer {
        Some(off) => off,
        None => return None,
    };
    let g = match read_ifd(reader, off as usize) {
        Some(g) => g,
        None => return None,
    };
    let ghost data = reader.data@;
    let ghost le = reader.little_endian;
    let mut lat: Option<Dms> = None;
    let mut lon: Option<Dms> = None;
    let mut lat_south = false;
    let mut lon_west = false;
    let mut i: usize = 0;
    while i < g.len()
        invariant
            data == reader.data@,
            le == reader.little_endian,
            i <= g@.len(),
            lat == tagged_dms(data, le, g@.take(i as int), TAG_GPS_LATITUDE),
            lon == tagged_dms(data, le, g@.take(i as int), TAG_GPS_LONGITUDE),
            lat_south == ref_is(tagged_ascii_bytes(data, le, g@.take(i as int), TAG_GPS_LATITUDE_REF), 0x53),
            lon_west == ref_is(tagged_ascii_bytes(data, le, g@.take(i as int), TAG_GPS_LONGITUDE_REF), 0x57),
        decreases g@.len() - i,
    {
        let entry = g[i];
        if entry.tag == TAG_GPS_LATITUDE {
            lat = entry.as_dms(reader);
        } else if entry.tag == TAG_GPS_LONGITUDE {
            lon = entry.as_dms(reader);
        } else if entry.tag == TAG_GPS_LATITUDE_REF {
            lat_south = entry.names(reader, 0x53);
        } else if entry.tag == TAG_GPS_LONGITUDE_REF {
            lon_west = entry.names(reader, 0x57);
        }
        assert(g@.take(i + 1).drop_last() =~= g@.take(i as int));
        i = i + 1;
    }
    assert(g@.take(g@.len() as int) =~= g@);
    match (lat, lon) {
        (Some(lat), Some(lon)) => match (degrees(lat, lat_south), degrees(lon, lon_west)) {
            (Some(a), Some(b)) => Some(GpsCoords { latitude: a, longitude: b }),
            _ => None,
        },
        _ => None,
    }
}

fn read_original_time(reader: &Reader, pointer: Option<u32>) -> (r: Option<String>)
    ensures
        opt_str(r) == spec_original_time(reader.data@, reader.little_endian, pointer),
{
    let off = match pointer {
        Some(off) => off,
        None => return None,
    };
    let sub = match read_ifd(reader, off as usize) {
        Some(sub) => sub,
        None => return None,
    };
    let ghost data = reader.data@;
    let ghost le = reader.little_endian;
    let mut original: Option<String> = None;
    let mut i: usize = 0;
    while i < sub.len()
        invariant
            data == reader.data@,
            le == reader.little_endian,
            i <= sub@.len(),
            opt_str(original) == last_text(data, le, sub@.take(i as int), TAG_DATETIME_ORIGINAL),
        decreases sub@.len() - i,
    {
        let entry = sub[i];
        if entry.tag == TAG_DATETIME_ORIGINAL {
            // Prefer the capture time over the file's save time.
            if let Some(text) = entry.as_ascii(reader) {
                original = Some(text);
            }
        }
        assert(sub@.take(i + 1).drop_last() =~= sub@.take(i as int));
        i = i + 1;
    }
    assert(sub@.take(sub@.len() as int) =~= sub@);
    original
}


// ---------------------------------------------------------------------------
// The whole block.

/// Parsed subset of Exif metadata found in a JPEG APP1 segment.
#[derive(Debug, Clone, PartialEq, Eq)]
pub struct ExifData {
    /// Raw orientation value, 1-8 per the Exif spec (1 = normal, 6 = rotated
    /// 90deg CW, etc). Left undecoded so callers can apply whichever
    /// interpretation (rotate/flip) they need.
    pub orientation: Option<u16>,
    /// `DateTimeOriginal` (when the picture was taken) if present, falling
    /// back to `DateTime` (when the file was last saved). Formatted exactly
    /// as Exif stores it: `"YYYY:MM:DD HH:MM:SS"`.
    pub timestamp: Option<String>,
    /// Position from the GPS IFD, when it has both a latitude and a
    /// longitude. `None` also when one of the six degree, minute or second
    /// fractions of either has a zero denominator, since such a value
    /// names no angle.
    pub gps: Option<GpsCoords>,
}

/// What an `ExifData` says, as plain values.
pub struct ExifView {
    pub orientation: Option<u16>,
    pub timestamp: Option<Seq<char>>,
    pub gps: Option<GpsCoords>,
}

impl View for ExifData {
    type V = ExifView;

    open spec fn view(&self) -> ExifView {
        ExifView { orientation: self.orientation, timestamp: opt_str(self.timestamp), gps: self.gps }
    }
}

impl Default for ExifData {
    fn default() -> (r: ExifData)
        ensures
            r.orientation is None,
            r.timestamp is None,
            r.gps is None,
    {
        ExifData { orientation: None, timestamp: None, gps: None }
    }
}

/// The byte order named by a TIFF header's first two bytes: `"II"` is
/// little-endian, `"MM"` big-endian.
pub open spec fn byte_order(t: Seq<u8>) -> Option<bool> {
    if t[0] == 0x49 && t[1] == 0x49 {
        Some(true)
    } else if t[0] == 0x4D && t[1] == 0x4D {
        Some(false)
    } else {
        None
    }
}

/// What the Exif block `t` (a TIFF file) says: orientation and `DateTime`
/// from IFD0, `DateTimeOriginal` from the Exif sub-IFD in place of
/// `DateTime` when it is there, and the GPS position from the GPS IFD.
/// `None` when the header or IFD0 cannot be read, or when none of the three
/// is found.
pub open spec fn spec_parse(t: Seq<u8>) -> Option<ExifView> {
    if t.len() < 8 {
        None
    } else {
        match byte_order(t) {
            None => None,
            Some(le) => if u16_from(t, le, 2) != 42 {
                None
            } else {
                match spec_read_ifd(t, le, u32_from(t, le, 4) as int) {
                    None => None,
                    Some(ifd0) => {
                        let orientation = tagged_short(t, le, ifd0, TAG_ORIENTATION);
                        let original = spec_original_time(
                            t,
                            le,
                            tagged_long(t, le, ifd0, TAG_EXIF_IFD_POINTER),
                        );
                        let timestamp = if original is Some {
                            original
                        } else {
                            tagged_ascii(t, le, ifd0, TAG_DATETIME)
                        };
                        let gps = spec_gps(t, le, tagged_long(t, le, ifd0, TAG_GPS_IFD_POINTER));
                        if orientation is None && timestamp is None && gps is None {
                            None
                        } else {
                            Some(ExifView { orientation, timestamp, gps })
                        }
                    },
                }
            },
        }
    }
}

/// `tiff_data` is the APP1 segment's payload with the 6-byte `"Exif\0\0"`
/// prefix already stripped, so it starts at the TIFF byte-order marker.
///
/// Returns `None` for anything malformed or lacking all the tags we look
/// for; callers treat that the same as "no Exif metadata" rather than an
/// error, since a broken thumbnail IFD or maker note elsewhere in the block
/// shouldn't stop us from reporting the pixel dimensions we came for.
pub fn parse(tiff_data: &[u8]) -> (r: Option<ExifData>)
    ensures
        match r {
            Some(x) => spec_parse(tiff_data@) == Some(x@),
            None => spec_parse(tiff_data@) is None,
        },
{
    if tiff_data.len() < 8 {
        return None;
    }
    let little_endian = if tiff_data[0] == 0x49 && tiff_data[1] == 0x49 {
        true
    } else if tiff_data[0] == 0x4D && tiff_data[1] == 0x4D {
        false
    } else {
        return None;
    };
    let reader = Reader { data: tiff_data, little_endian };
    let ghost t = tiff_data@;
    let ghost le = little_endian;
    match reader.u16_at(2) {
        Some(v) => if v != 42 {
            return None;
        },
        None => return None,
    }
    let ifd0_offset = match reader.u32_at(4) {
        Some(o) => o as usize,
        None => return None,
    };
    let ifd0 = match read_ifd(&reader, ifd0_offset) {
        Some(entries) => entries,
        None => return None,
    };

    let mut orientation: Option<u16> = None;
    let mut timestamp: Option<String> = None;
    let mut exif_pointer: Option<u32> = None;
    let mut gps_pointer: Option<u32> = None;
    let mut i: usize = 0;
    while i < ifd0.len()
        invariant
            t == reader.data@,
            le == reader.little_endian,
            i <= ifd0@.len(),
            orientation == tagged_short(t, le, ifd0@.take(i as int), TAG_ORIENTATION),
            opt_str(timestamp) == tagged_ascii(t, le, ifd0@.take(i as int), TAG_DATETIME),
            exif_pointer == tagged_long(t, le, ifd0@.take(i as int), TAG_EXIF_IFD_POINTER),
            gps_pointer == tagged_long(t, le, ifd0@.take(i as int), TAG_GPS_IFD_POINTER),
        decreases ifd0@.len() - i,
    {
        let entry = ifd0[i];
        if entry.tag == TAG_ORIENTATION {
            orientation = entry.as_short(&reader);
        } else if entry.tag == TAG_DATETIME {
            timestamp = entry.as_ascii(&reader);
        } else if entry.tag == TAG_EXIF_IFD_POINTER {
            exif_pointer = entry.as_long(&reader);
        } else if entry.tag == TAG_GPS_IFD_POINTER {
            gps_pointer = entry.as_long(&reader);
        }
        assert(ifd0@.take(i + 1).drop_last() =~= ifd0@.take(i as int));
        i = i + 1;
    }
    assert(ifd0@.take(ifd0@.len() as int) =~= ifd0@);

    let original = read_original_time(&reader, exif_pointer);
    if original.is_some() {
        timestamp = original;
    }
    let gps = read_gps(&reader, gps_pointer);

    if orientation.is_none() && timestamp.is_none() && gps.is_none() {
        None
    } else {
        Some(ExifData { orientation, timestamp, gps })
    }
}

} // verus!
