//! Image dimensions read from the format headers of JPEG, PNG and WebP files.

use vstd::prelude::*;

verus! {

/// Why the dimensions of an image could not be read.
#[derive(Clone, Copy, Debug, PartialEq, Eq)]
pub enum DimensionError {
    /// The data ended before the header field that was needed.
    UnexpectedEof,
    /// The first bytes match none of JPEG, PNG or WebP.
    UnsupportedFormat,
    /// A WebP chunk other than `VP8 `, `VP8L` or `VP8X`.
    UnknownWebpVariant,
    /// A JPEG segment does not start with `0xFF`.
    InvalidJpegMarker,
    /// The JPEG end-of-image marker came before any frame header.
    EoiBeforeDimensions,
    /// The JPEG start-of-scan marker came before any frame header.
    SosBeforeDimensions,
    /// A JPEG segment length below 2.
    InvalidJpegMarkerLength,
}

/// Big-endian 16-bit value at `i`.
pub open spec fn be16(s: Seq<u8>, i: int) -> int {
    s[i] * 256 + s[i + 1]
}

/// Big-endian 32-bit value at `i`.
pub open spec fn be32(s: Seq<u8>, i: int) -> int {
    s[i] * 16777216 + s[i + 1] * 65536 + s[i + 2] * 256 + s[i + 3]
}

/// Little-endian 16-bit value at `i`.
pub open spec fn le16(s: Seq<u8>, i: int) -> int {
    s[i] + s[i + 1] * 256
}

/// Little-endian 24-bit value at `i`.
pub open spec fn le24(s: Seq<u8>, i: int) -> int {
    s[i] + s[i + 1] * 256 + s[i + 2] * 65536
}

/// Little-endian 32-bit value at `i`.
pub open spec fn le32(s: Seq<u8>, i: int) -> int {
    s[i] + s[i + 1] * 256 + s[i + 2] * 65536 + s[i + 3] * 16777216
}

pub open spec fn is_jpeg_header(s: Seq<u8>) -> bool {
    s[0] == 0xFF && s[1] == 0xD8 && s[2] == 0xFF
}

pub open spec fn is_png_header(s: Seq<u8>) -> bool {
    s[0] == 0x89 && s[1] == 0x50 && s[2] == 0x4E && s[3] == 0x47
}

/// `RIFF` at offset 0 and `WEBP` at offset 8.
pub open spec fn is_webp_header(s: Seq<u8>) -> bool {
    &&& s[0] == 0x52 && s[1] == 0x49 && s[2] == 0x46 && s[3] == 0x46
    &&& s[8] == 0x57 && s[9] == 0x45 && s[10] == 0x42 && s[11] == 0x50
}

/// Start-of-frame markers, the segments that carry the frame size.
pub open spec fn is_sof_marker(m: u8) -> bool {
    (0xC0 <= m <= 0xC3) || (0xC5 <= m <= 0xC7) || (0xC9 <= m <= 0xCB) || (0xCD <= m <= 0xCF)
}

/// Markers that stand alone, with no length field: TEM, RST0-7, SOI, and a
/// stuffed zero byte.
pub open spec fn is_standalone_marker(m: u8) -> bool {
    m == 0x00 || m == 0x01 || (0xD0 <= m <= 0xD8)
}

/// PNG: width and height as big-endian 32-bit values at offsets 16 and 20.
pub open spec fn spec_png_dimensions(s: Seq<u8>) -> Result<(u32, u32), DimensionError> {
    if s.len() < 24 {
        Err(DimensionError::UnexpectedEof)
    } else {
        Ok((be32(s, 16) as u32, be32(s, 20) as u32))
    }
}

/// WebP: the chunk tag's fourth byte (offset 15) selects lossy (`' '`),
/// lossless (`'L'`) or extended (`'X'`) layout.
pub open spec fn spec_webp_dimensions(s: Seq<u8>) -> Result<(u32, u32), DimensionError> {
    if s.len() < 20 {
        Err(DimensionError::UnexpectedEof)
    } else if s[15] == 0x20 {
        if s.len() < 30 {
            Err(DimensionError::UnexpectedEof)
        } else {
            Ok(((le16(s, 26) % 16384) as u32, (le16(s, 28) % 16384) as u32))
        }
    } else if s[15] == 0x4C {
        if s.len() < 25 {
            Err(DimensionError::UnexpectedEof)
        } else {
            Ok(((le32(s, 21) % 16384 + 1) as u32, ((le32(s, 21) / 16384) % 16384 + 1) as u32))
        }
    } else if s[15] == 0x58 {
        if s.len() < 30 {
            Err(DimensionError::UnexpectedEof)
        } else {
            Ok(((le24(s, 24) + 1) as u32, (le24(s, 27) + 1) as u32))
        }
    } else {
        Err(DimensionError::UnknownWebpVariant)
    }
}

/// JPEG, at position `p` where a segment must begin: two bytes, the first `0xFF`.
pub open spec fn jpeg_segment(s: Seq<u8>, p: int) -> Result<(u32, u32), DimensionError>
    decreases s.len() - p, 1int,
{
    if p < 0 || p + 2 > s.len() {
        Err(DimensionError::UnexpectedEof)
    } else if s[p] != 0xFF {
        Err(DimensionError::InvalidJpegMarker)
    } else {
        jpeg_marker(s, p + 1)
    }
}

/// JPEG, at position `j` of a marker byte; `0xFF` fill bytes are skipped.
pub open spec fn jpeg_marker(s: Seq<u8>, j: int) -> Result<(u32, u32), DimensionError>
    decreases s.len() - j, 0int,
{
    if j < 0 || j >= s.len() {
        Err(DimensionError::UnexpectedEof)
    } else if s[j] == 0xFF {
        jpeg_marker(s, j + 1)
    } else if is_standalone_marker(s[j]) {
        jpeg_segment(s, j + 1)
    } else if s[j] == 0xD9 {
        Err(DimensionError::EoiBeforeDimensions)
    } else if s[j] == 0xDA {
        Err(DimensionError::SosBeforeDimensions)
    } else if is_sof_marker(s[j]) {
        // length(2) + precision(1) + height(2) + width(2)
        if j + 8 > s.len() {
            Err(DimensionError::UnexpectedEof)
        } else {
            Ok((be16(s, j + 6) as u32, be16(s, j + 4) as u32))
        }
    } else if j + 3 > s.len() {
        Err(DimensionError::UnexpectedEof)
    } else if be16(s, j + 1) < 2 {
        Err(DimensionError::InvalidJpegMarkerLength)
    } else if j + 1 + be16(s, j + 1) > s.len() {
        Err(DimensionError::UnexpectedEof)
    } else {
        jpeg_segment(s, j + 1 + be16(s, j + 1))
    }
}

/// What the dimensions (width, height) of an image file `s` are, read from
/// its format header.
pub open spec fn spec_read_dimensions(s: Seq<u8>) -> Result<(u32, u32), DimensionError> {
    if s.len() < 12 {
        Err(DimensionError::UnexpectedEof)
    } else if is_jpeg_header(s) {
        jpeg_segment(s, 2)
    } else if is_png_header(s) {
        spec_png_dimensions(s)
    } else if is_webp_header(s) {
        spec_webp_dimensions(s)
    } else {
        Err(DimensionError::UnsupportedFormat)
    }
}

fn u32_be(b: &[u8], i: usize) -> (r: u32)
    requires
        i + 4 <= b@.len(),
    ensures
        r == be32(b@, i as int),
{
    (b[i] as u32) * 16777216 + (b[i + 1] as u32) * 65536 + (b[i + 2] as u32) * 256 + (b[i + 3] as u32)
}

fn u16_be(b: &[u8], i: usize) -> (r: u16)
    requires
        i + 2 <= b@.len(),
    ensures
        r == be16(b@, i as int),
{
    (b[i] as u16) * 256 + (b[i + 1] as u16)
}

fn u32_le(b: &[u8], i: usize) -> (r: u32)
    requires
        i + 4 <= b@.len(),
    ensures
        r == le32(b@, i as int),
{
    (b[i] as u32) + (b[i + 1] as u32) * 256 + (b[i + 2] as u32) * 65536 + (b[i + 3] as u32) * 16777216
}

fn u24_le(b: &[u8], i: usize) -> (r: u32)
    requires
        i + 3 <= b@.len(),
    ensures
        r == le24(b@, i as int),
{
    (b[i] as u32) + (b[i + 1] as u32) * 256 + (b[i + 2] as u32) * 65536
}

fn u16_le(b: &[u8], i: usize) -> (r: u16)
    requires
        i + 2 <= b@.len(),
    ensures
        r == le16(b@, i as int),
{
    (b[i] as u16) + (b[i + 1] as u16) * 256
}

fn png_dimensions(data: &[u8]) -> (r: Result<(u32, u32), DimensionError>)
    ensures
        r == spec_png_dimensions(data@),
{
    if data.len() < 24 {
        return Err(DimensionError::UnexpectedEof);
    }
    Ok((u32_be(data, 16), u32_be(data, 20)))
}

fn webp_dimensions(data: &[u8]) -> (r: Result<(u32, u32), DimensionError>)
    ensures
        r == spec_webp_dimensions(data@),
{
    if data.len() < 20 {
        return Err(DimensionError::UnexpectedEof);
    }
    let variant: u8 = data[15];
    if variant == 0x20 {
        // Lossy: width/height as u16 LE at chunk offsets 6 and 8 (lower 14 bits)
        if data.len() < 30 {
            return Err(DimensionError::UnexpectedEof);
        }
        let w: u16 = u16_le(data, 26);
        let h: u16 = u16_le(data, 28);
        assert(w & 0x3FFF == w % 16384) by (bit_vector);
        assert(h & 0x3FFF == h % 16384) by (bit_vector);
        Ok(((w & 0x3FFF) as u32, (h & 0x3FFF) as u32))
    } else if variant == 0x4C {
        // Lossless: 1 signature byte + 4 bytes bit-packed dimensions
        if data.len() < 25 {
            return Err(DimensionError::UnexpectedEof);
        }
        let bits: u32 = u32_le(data, 21);
        assert(bits & 0x3FFF == bits % 16384) by (bit_vector);
        assert((bits >> 14) & 0x3FFF == (bits / 16384) % 16384) by (bit_vector);
        Ok(((bits & 0x3FFF) + 1, ((bits >> 14) & 0x3FFF) + 1))
    } else if variant == 0x58 {
        // Extended: 4 bytes flags + width-1 and height-1 as u24 LE
        if data.len() < 30 {
            return Err(DimensionError::UnexpectedEof);
        }
        Ok((u24_le(data, 24) + 1, u24_le(data, 27) + 1))
    } else {
        Err(DimensionError::UnknownWebpVariant)
    }
}

/// Scans JPEG segments from offset 2 until a start-of-frame marker.
fn jpeg_dimensions(data: &[u8]) -> (r: Result<(u32, u32), DimensionError>)
    requires
        data@.len() >= 12,
    ensures
        r == jpeg_segment(data@, 2),
{
    let len: usize = data.len();
    let mut pos: usize = 2;
    loop
        invariant
            len == data@.len(),
            pos <= len + 1,
            jpeg_segment(data@, pos as int) == jpeg_segment(data@, 2),
        decreases len + 1 - pos,
    {
        if pos > len || len - pos < 2 {
            return Err(DimensionError::UnexpectedEof);
        }
        if data[pos] != 0xFF {
            return Err(DimensionError::InvalidJpegMarker);
        }
        let mut j: usize = pos + 1;
        // Skip fill bytes (consecutive FF padding between markers)
        while j < len && data[j] == 0xFF
            invariant
                len == data@.len(),
                pos < j <= len,
                jpeg_marker(data@, j as int) == jpeg_segment(data@, 2),
            decreases len - j,
        {
            j = j + 1;
        }
        if j >= len {
            return Err(DimensionError::UnexpectedEof);
        }
        let marker: u8 = data[j];
        if marker == 0x00 || marker == 0x01 || (0xD0 <= marker && marker <= 0xD8) {
            pos = j + 1;
        } else if marker == 0xD9 {
            return Err(DimensionError::EoiBeforeDimensions);
        } else if marker == 0xDA {
            return Err(DimensionError::SosBeforeDimensions);
        } else if (0xC0 <= marker && marker <= 0xC3) || (0xC5 <= marker && marker <= 0xC7)
            || (0xC9 <= marker && marker <= 0xCB) || (0xCD <= marker && marker <= 0xCF)
        {
            if len - j < 8 {
                return Err(DimensionError::UnexpectedEof);
            }
            return Ok((u16_be(data, j + 6) as u32, u16_be(data, j + 4) as u32));
        } else {
            if len - j < 3 {
                return Err(DimensionError::UnexpectedEof);
            }
            let seg: u16 = u16_be(data, j + 1);
            if seg < 2 {
                return Err(DimensionError::InvalidJpegMarkerLength);
            }
            if len - (j + 1) < seg as usize {
                return Err(DimensionError::UnexpectedEof);
            }
            pos = j + 1 + seg as usize;
        }
    }
}

/// Reads an image's dimensions (width, height) by parsing its format header.
pub fn read_dimensions(data: &[u8]) -> (r: Result<(u32, u32), DimensionError>)
    ensures
        r == spec_read_dimensions(data@),
{
    if data.len() < 12 {
        return Err(DimensionError::UnexpectedEof);
    }
    if data[0] == 0xFF && data[1] == 0xD8 && data[2] == 0xFF {
        jpeg_dimensions(data)
    } else if data[0] == 0x89 && data[1] == 0x50 && data[2] == 0x4E && data[3] == 0x47 {
        png_dimensions(data)
    } else if data[0] == 0x52 && data[1] == 0x49 && data[2] == 0x46 && data[3] == 0x46
        && data[8] == 0x57 && data[9] == 0x45 && data[10] == 0x42 && data[11] == 0x50
    {
        webp_dimensions(data)
    } else {
        Err(DimensionError::UnsupportedFormat)
    }
}

/// The image formats whose headers are read.
#[derive(Clone, Copy, Debug, PartialEq, Eq)]
pub enum ImageFormat {
    Jpeg,
    Png,
    Webp,
}

/// The media type of each format.
pub open spec fn spec_mime(f: ImageFormat) -> &'static str {
    match f {
        ImageFormat::Jpeg => "image/jpeg",
        ImageFormat::Png => "image/png",
        ImageFormat::Webp => "image/webp",
    }
}

impl ImageFormat {
    /// The media type of the format, as served to the browser.
    pub fn mime(&self) -> (r: &'static str)
        ensures
            r == spec_mime(*self),
    {
        match self {
            ImageFormat::Jpeg => "image/jpeg",
            ImageFormat::Png => "image/png",
            ImageFormat::Webp => "image/webp",
        }
    }
}

/// The format that the first bytes of `s` announce, if any: the same header
/// tests that `spec_read_dimensions` makes.
pub open spec fn spec_image_format(s: Seq<u8>) -> Option<ImageFormat> {
    if s.len() < 12 {
        None
    } else if is_jpeg_header(s) {
        Some(ImageFormat::Jpeg)
    } else if is_png_header(s) {
        Some(ImageFormat::Png)
    } else if is_webp_header(s) {
        Some(ImageFormat::Webp)
    } else {
        None
    }
}

/// Format and dimensions of an image.
#[derive(Clone, Copy, Debug, PartialEq, Eq)]
pub struct ImageInfo {
    pub format: ImageFormat,
    pub dimensions: (u32, u32),
}

/// The format that the first bytes of `data` announce, if any.
pub fn image_format(data: &[u8]) -> (r: Option<ImageFormat>)
    ensures
        r == spec_image_format(data@),
{
    if data.len() < 12 {
        None
    } else if data[0] == 0xFF && data[1] == 0xD8 && data[2] == 0xFF {
        Some(ImageFormat::Jpeg)
    } else if data[0] == 0x89 && data[1] == 0x50 && data[2] == 0x4E && data[3] == 0x47 {
        Some(ImageFormat::Png)
    } else if data[0] == 0x52 && data[1] == 0x49 && data[2] == 0x46 && data[3] == 0x46
        && data[8] == 0x57 && data[9] == 0x45 && data[10] == 0x42 && data[11] == 0x50
    {
        Some(ImageFormat::Webp)
    } else {
        None
    }
}

/// Classifies an archive entry: `None` when its first bytes are not those of
/// a JPEG, PNG or WebP image; otherwise its format and dimensions, or why the
/// dimensions could not be read.
pub fn read_image_info(data: &[u8]) -> (r: Result<Option<ImageInfo>, DimensionError>)
    ensures
        match r {
            Ok(None) => spec_image_format(data@) is None,
            Ok(Some(info)) => spec_image_format(data@) == Some(info.format)
                && spec_read_dimensions(data@) == Ok::<(u32, u32), DimensionError>(info.dimensions),
            Err(e) => spec_image_format(data@) is Some
                && spec_read_dimensions(data@) == Err::<(u32, u32), DimensionError>(e),
        },
{
    match image_format(data) {
        None => Ok(None),
        Some(format) => match read_dimensions(data) {
            Ok(dimensions) => Ok(Some(ImageInfo { format, dimensions })),
            Err(e) => Err(e),
        },
    }
}

proof fn lemma_segment_prefix(s: Seq<u8>, t: Seq<u8>, p: int)
    requires
        jpeg_segment(s, p) != Err::<(u32, u32), DimensionError>(DimensionError::UnexpectedEof),
    ensures
        jpeg_segment(s + t, p) == jpeg_segment(s, p),
    decreases s.len() - p, 1int,
{
    let u = s + t;
    if p >= 0 && p + 2 <= s.len() {
        assert(u[p] == s[p]);
        if s[p] == 0xFF {
            lemma_marker_prefix(s, t, p + 1);
        }
    }
}

proof fn lemma_marker_prefix(s: Seq<u8>, t: Seq<u8>, j: int)
    requires
        jpeg_marker(s, j) != Err::<(u32, u32), DimensionError>(DimensionError::UnexpectedEof),
    ensures
        jpeg_marker(s + t, j) == jpeg_marker(s, j),
    decreases s.len() - j, 0int,
{
    let u = s + t;
    if j >= 0 && j < s.len() {
        assert(u[j] == s[j]);
        if s[j] == 0xFF {
            lemma_marker_prefix(s, t, j + 1);
        } else if is_standalone_marker(s[j]) {
            lemma_segment_prefix(s, t, j + 1);
        } else if s[j] == 0xD9 || s[j] == 0xDA {
        } else if is_sof_marker(s[j]) {
            if j + 8 <= s.len() {
                assert(u[j + 4] == s[j + 4] && u[j + 5] == s[j + 5]);
                assert(u[j + 6] == s[j + 6] && u[j + 7] == s[j + 7]);
            }
        } else if j + 3 <= s.len() {
            assert(u[j + 1] == s[j + 1] && u[j + 2] == s[j + 2]);
            if be16(s, j + 1) >= 2 && j + 1 + be16(s, j + 1) <= s.len() {
                lemma_segment_prefix(s, t, j + 1 + be16(s, j + 1));
            }
        }
    }
}

proof fn lemma_segment_shift(s: Seq<u8>, k: int, p: int)
    requires
        0 <= k <= p,
        k <= s.len(),
    ensures
        jpeg_segment(s, p) == jpeg_segment(s.skip(k), p - k),
    decreases s.len() - p, 1int,
{
    let u = s.skip(k);
    if p + 2 <= s.len() {
        assert(u[p - k] == s[p]);
        if s[p] == 0xFF {
            lemma_marker_shift(s, k, p + 1);
        }
    }
}

proof fn lemma_marker_shift(s: Seq<u8>, k: int, j: int)
    requires
        0 <= k <= j,
        k <= s.len(),
    ensures
        jpeg_marker(s, j) == jpeg_marker(s.skip(k), j - k),
    decreases s.len() - j, 0int,
{
    let u = s.skip(k);
    if j < s.len() {
        assert(u[j - k] == s[j]);
        if s[j] == 0xFF {
            lemma_marker_shift(s, k, j + 1);
        } else if is_standalone_marker(s[j]) {
            lemma_segment_shift(s, k, j + 1);
        } else if s[j] == 0xD9 || s[j] == 0xDA {
        } else if is_sof_marker(s[j]) {
            if j + 8 <= s.len() {
                assert(u[j - k + 4] == s[j + 4] && u[j - k + 5] == s[j + 5]);
                assert(u[j - k + 6] == s[j + 6] && u[j - k + 7] == s[j + 7]);
            }
        } else if j + 3 <= s.len() {
            assert(u[j - k + 1] == s[j + 1] && u[j - k + 2] == s[j + 2]);
            if be16(s, j + 1) >= 2 && j + 1 + be16(s, j + 1) <= s.len() {
                lemma_segment_shift(s, k, j + 1 + be16(s, j + 1));
            }
        }
    }
}

/// A JPEG segment that carries a big-endian length after its marker is
/// skipped whole: placed right after the start-of-image marker, it changes
/// nothing of what is read. This holds of every marker byte but the fill
/// byte `0xFF`, the stuffed zero `0x00`, TEM `0x01`, RST0-7, SOI, EOI and SOS
/// (`0xD0` to `0xDA`) and the start-of-frame markers, among them the
/// quantization tables (DQT, `0xDB`), the Huffman tables (DHT, `0xC4`) and
/// the application segments (APP0-15, `0xE0` to `0xEF`).
pub proof fn lemma_jpeg_skips_length_segment(m: u8, hi: u8, lo: u8, body: Seq<u8>, t: Seq<u8>)
    requires
        m != 0xFF && m != 0x00 && m != 0x01,
        !(0xD0 <= m <= 0xDA),
        !(0xC0 <= m <= 0xCF) || m == 0xC4 || m == 0xC8 || m == 0xCC,
        hi * 256 + lo >= 2,
        body.len() == hi * 256 + lo - 2,
        t.len() >= 10,
        t[0] == 0xFF,
    ensures
        spec_read_dimensions(seq![0xFFu8, 0xD8u8] + (seq![0xFFu8, m, hi, lo] + body) + t)
            == spec_read_dimensions(seq![0xFFu8, 0xD8u8] + t),
{
    let seg = seq![0xFFu8, m, hi, lo] + body;
    let s = seq![0xFFu8, 0xD8u8] + seg + t;
    let u = seq![0xFFu8, 0xD8u8] + t;
    let len = hi * 256 + lo;
    assert(s.len() == len + 4 + t.len());
    assert(s[0] == 0xFF && s[1] == 0xD8 && s[2] == 0xFF && s[3] == m && s[4] == hi && s[5] == lo);
    assert(u[0] == 0xFF && u[1] == 0xD8 && u[2] == 0xFF);
    assert(!is_standalone_marker(m) && !is_sof_marker(m));
    assert(be16(s, 4) == len);
    assert(jpeg_segment(s, 2) == jpeg_marker(s, 3));
    assert(jpeg_marker(s, 3) == jpeg_segment(s, 4 + len));
    lemma_segment_shift(s, 4 + len, 4 + len);
    lemma_segment_shift(u, 2, 2);
    assert(s.skip(4 + len) =~= t);
    assert(u.skip(2) =~= t);
}

/// The width and height of a JPEG are read from its start-of-frame segment
/// (SOF0-3, 5-7, 9-11, 13-15): the big-endian height at its bytes 3 and 4
/// after the length, the width at bytes 5 and 6.
pub proof fn lemma_jpeg_frame_size(
    m: u8,
    l1: u8,
    l2: u8,
    precision: u8,
    h1: u8,
    h2: u8,
    w1: u8,
    w2: u8,
    rest: Seq<u8>,
)
    requires
        (0xC0 <= m <= 0xCF) && m != 0xC4 && m != 0xC8 && m != 0xCC,
        rest.len() >= 1,
    ensures
        spec_read_dimensions(seq![0xFFu8, 0xD8u8, 0xFFu8, m, l1, l2, precision, h1, h2, w1, w2] + rest)
            == Ok::<(u32, u32), DimensionError>(((w1 * 256 + w2) as u32, (h1 * 256 + h2) as u32)),
{
    let s = seq![0xFFu8, 0xD8u8, 0xFFu8, m, l1, l2, precision, h1, h2, w1, w2] + rest;
    assert(s[0] == 0xFF && s[1] == 0xD8 && s[2] == 0xFF && s[3] == m);
    assert(s[7] == h1 && s[8] == h2 && s[9] == w1 && s[10] == w2);
    assert(is_sof_marker(m) && !is_standalone_marker(m));
}

/// A baseline JFIF file, whose application and quantization-table segments
/// come before its frame header, is read with the frame header's size,
/// whatever those segments hold.
pub proof fn lemma_jfif_with_tables(
    app_body: Seq<u8>,
    dqt_body: Seq<u8>,
    l1: u8,
    l2: u8,
    h1: u8,
    h2: u8,
    w1: u8,
    w2: u8,
    rest: Seq<u8>,
)
    requires
        app_body.len() == 14,
        dqt_body.len() == 65,
        rest.len() >= 1,
    ensures
        spec_read_dimensions(
            seq![0xFFu8, 0xD8u8] + (seq![0xFFu8, 0xE0u8, 0u8, 16u8] + app_body) + ((seq![0xFFu8, 0xDBu8, 0u8, 67u8]
                + dqt_body) + (seq![0xFFu8, 0xC0u8, l1, l2, 8u8, h1, h2, w1, w2] + rest)),
        ) == Ok::<(u32, u32), DimensionError>(((w1 * 256 + w2) as u32, (h1 * 256 + h2) as u32)),
{
    let sof = seq![0xFFu8, 0xC0u8, l1, l2, 8u8, h1, h2, w1, w2] + rest;
    let dqt = seq![0xFFu8, 0xDBu8, 0u8, 67u8] + dqt_body;
    let app = seq![0xFFu8, 0xE0u8, 0u8, 16u8] + app_body;
    assert(sof[0] == 0xFF);
    lemma_jpeg_skips_length_segment(0xDBu8, 0u8, 67u8, dqt_body, sof);
    assert((dqt + sof)[0] == 0xFF);
    lemma_jpeg_skips_length_segment(0xE0u8, 0u8, 16u8, app_body, dqt + sof);
    lemma_jpeg_frame_size(0xC0u8, l1, l2, 8u8, h1, h2, w1, w2, rest);
    assert(seq![0xFFu8, 0xD8u8] + dqt + sof =~= seq![0xFFu8, 0xD8u8] + (dqt + sof));
    assert(seq![0xFFu8, 0xD8u8] + sof =~= seq![0xFFu8, 0xD8u8, 0xFFu8, 0xC0u8, l1, l2, 8u8, h1, h2, w1, w2] + rest);
}

/// Reading stops at the header field that decides the answer: bytes after
/// the data change no result but a report that the data ended too soon.
pub proof fn lemma_dimensions_prefix_stable(s: Seq<u8>, t: Seq<u8>)
    requires
        spec_read_dimensions(s) != Err::<(u32, u32), DimensionError>(DimensionError::UnexpectedEof),
    ensures
        spec_read_dimensions(s + t) == spec_read_dimensions(s),
{
    let u = s + t;
    if s.len() >= 12 {
        assert forall|i: int| 0 <= i < s.len() implies u[i] == s[i] by {}
        assert(u[0] == s[0] && u[1] == s[1] && u[2] == s[2] && u[3] == s[3]);
        assert(u[8] == s[8] && u[9] == s[9] && u[10] == s[10] && u[11] == s[11]);
        if is_jpeg_header(s) {
            lemma_segment_prefix(s, t, 2);
        } else if is_png_header(s) {
            if s.len() >= 24 {
                assert(be32(u, 16) == be32(s, 16) && be32(u, 20) == be32(s, 20));
            }
        } else if is_webp_header(s) {
            if s.len() >= 20 {
                assert(u[15] == s[15]);
                if s.len() >= 30 {
                    assert(le16(u, 26) == le16(s, 26) && le16(u, 28) == le16(s, 28));
                    assert(le24(u, 24) == le24(s, 24) && le24(u, 27) == le24(s, 27));
                }
                if s.len() >= 25 {
                    assert(le32(u, 21) == le32(s, 21));
                }
            }
        }
    }
}

/// The format test and the dimension reader agree: data whose first bytes
/// announce a format is never reported as unsupported, and data of at least
/// 12 bytes that announce none always is.
pub proof fn lemma_format_matches_reader(s: Seq<u8>)
    ensures
        spec_image_format(s) is Some ==> spec_read_dimensions(s) != Err::<(u32, u32), DimensionError>(
            DimensionError::UnsupportedFormat,
        ),
        s.len() >= 12 && spec_image_format(s) is None ==> spec_read_dimensions(s) == Err::<(u32, u32), DimensionError>(
            DimensionError::UnsupportedFormat,
        ),
{
    if spec_image_format(s) is Some && is_jpeg_header(s) {
        lemma_jpeg_never_unsupported(s, 2);
    }
}

proof fn lemma_jpeg_never_unsupported(s: Seq<u8>, p: int)
    ensures
        jpeg_segment(s, p) != Err::<(u32, u32), DimensionError>(DimensionError::UnsupportedFormat),
        jpeg_marker(s, p) != Err::<(u32, u32), DimensionError>(DimensionError::UnsupportedFormat),
    decreases s.len() - p,
{
    if p >= 0 && p < s.len() {
        lemma_jpeg_never_unsupported(s, p + 1);
        if p + 3 <= s.len() && be16(s, p + 1) >= 2 && p + 1 + be16(s, p + 1) <= s.len() {
            lemma_jpeg_never_unsupported(s, p + 1 + be16(s, p + 1));
        }
    }
}

} // verus!
