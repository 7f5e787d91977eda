use mgr::image::{image_format, read_dimensions, read_image_info, DimensionError, ImageFormat, ImageInfo};

fn png(width: u32, height: u32) -> Vec<u8> {
    let mut v = vec![0x89, 0x50, 0x4E, 0x47, 0x0D, 0x0A, 0x1A, 0x0A, 0, 0, 0, 13, b'I', b'H', b'D', b'R'];
    v.extend_from_slice(&width.to_be_bytes());
    v.extend_from_slice(&height.to_be_bytes());
    v.extend_from_slice(&[8, 6, 0, 0, 0]);
    v
}

fn riff(tag: &[u8; 4], body: &[u8]) -> Vec<u8> {
    let mut v = b"RIFF".to_vec();
    v.extend_from_slice(&[0, 0, 0, 0]);
    v.extend_from_slice(b"WEBP");
    v.extend_from_slice(tag);
    v.extend_from_slice(&[0, 0, 0, 0]);
    v.extend_from_slice(body);
    v
}

fn jpeg(segments: &[&[u8]]) -> Vec<u8> {
    let mut v = vec![0xFF, 0xD8];
    for s in segments {
        v.extend_from_slice(s);
    }
    v
}

const SOF0_640X480: [u8; 12] = [0xFF, 0xC0, 0x00, 0x11, 0x08, 0x01, 0xE0, 0x02, 0x80, 0x03, 0x01, 0x22];
const APP0: [u8; 8] = [0xFF, 0xE0, 0x00, 0x06, b'J', b'F', b'I', b'F'];

#[test]
fn png_dimensions_are_read_big_endian() {
    assert_eq!(read_dimensions(&png(1200, 1800)), Ok((1200, 1800)));
    assert_eq!(read_dimensions(&png(0x01020304, 7)), Ok((0x01020304, 7)));
}

#[test]
fn png_truncated_is_eof() {
    let data = png(10, 20);
    assert_eq!(read_dimensions(&data[..23]), Err(DimensionError::UnexpectedEof));
    assert_eq!(read_dimensions(&data[..24]), Ok((10, 20)));
}

#[test]
fn short_data_is_eof() {
    assert_eq!(read_dimensions(&[0xFF, 0xD8, 0xFF]), Err(DimensionError::UnexpectedEof));
    assert_eq!(read_dimensions(&[]), Err(DimensionError::UnexpectedEof));
}

#[test]
fn unknown_header_is_unsupported() {
    assert_eq!(read_dimensions(b"GIF89a......."), Err(DimensionError::UnsupportedFormat));
    assert_eq!(image_format(b"GIF89a......."), None);
}

#[test]
fn webp_lossy() {
    // frame tag (3 bytes), start code (3 bytes), width and height with scale bits
    let body = [0, 0, 0, 0x9D, 0x01, 0x2A, 0x20, 0xC3, 0x58, 0x42];
    // width 0xC320 & 0x3FFF = 0x0320 = 800, height 0x4258 & 0x3FFF = 0x0258 = 600
    assert_eq!(read_dimensions(&riff(b"VP8 ", &body)), Ok((800, 600)));
}

#[test]
fn webp_lossless() {
    // width-1 = 99, height-1 = 49 packed in 14-bit fields
    let bits: u32 = 99 | (49 << 14);
    let mut body = vec![0x2F];
    body.extend_from_slice(&bits.to_le_bytes());
    assert_eq!(read_dimensions(&riff(b"VP8L", &body)), Ok((100, 50)));
}

#[test]
fn webp_extended() {
    let mut body = vec![0, 0, 0, 0];
    body.extend_from_slice(&[0xFF, 0x03, 0x00]); // width - 1 = 1023
    body.extend_from_slice(&[0x01, 0x00, 0x01]); // height - 1 = 65537
    assert_eq!(read_dimensions(&riff(b"VP8X", &body)), Ok((1024, 65538)));
}

#[test]
fn webp_unknown_variant() {
    assert_eq!(read_dimensions(&riff(b"VP8Q", &[0; 10])), Err(DimensionError::UnknownWebpVariant));
}

#[test]
fn webp_truncated_body_is_eof() {
    let data = riff(b"VP8X", &[0; 10]);
    assert_eq!(read_dimensions(&data[..29]), Err(DimensionError::UnexpectedEof));
    assert_eq!(read_dimensions(&data[..19]), Err(DimensionError::UnexpectedEof));
}

#[test]
fn jpeg_frame_after_other_segment() {
    let data = jpeg(&[&APP0, &SOF0_640X480]);
    assert_eq!(read_dimensions(&data), Ok((640, 480)));
}

#[test]
fn jpeg_fill_bytes_and_standalone_markers_are_skipped() {
    let data = jpeg(&[&[0xFF, 0xFF, 0xFF, 0xD0], &[0xFF, 0x01], &APP0, &SOF0_640X480]);
    assert_eq!(read_dimensions(&data), Ok((640, 480)));
}

#[test]
fn jpeg_progressive_frame() {
    let mut sof2 = SOF0_640X480;
    sof2[1] = 0xC2;
    assert_eq!(read_dimensions(&jpeg(&[&APP0, &sof2])), Ok((640, 480)));
}

#[test]
fn jpeg_errors() {
    assert_eq!(read_dimensions(&jpeg(&[&APP0, &[0xFF, 0xD9], &[0; 4]])), Err(DimensionError::EoiBeforeDimensions));
    assert_eq!(read_dimensions(&jpeg(&[&APP0, &[0xFF, 0xDA], &[0; 4]])), Err(DimensionError::SosBeforeDimensions));
    assert_eq!(read_dimensions(&jpeg(&[&APP0, &[0x00, 0xC0], &[0; 4]])), Err(DimensionError::InvalidJpegMarker));
    assert_eq!(read_dimensions(&jpeg(&[&APP0, &[0xFF, 0xE1, 0x00, 0x01], &[0; 4]])), Err(DimensionError::InvalidJpegMarkerLength));
    assert_eq!(read_dimensions(&jpeg(&[&APP0, &[0xFF, 0xE1, 0x00, 0x40], &[0; 4]])), Err(DimensionError::UnexpectedEof));
    assert_eq!(read_dimensions(&jpeg(&[&APP0, &APP0])), Err(DimensionError::UnexpectedEof));
}

#[test]
fn appended_bytes_do_not_change_a_result() {
    let data = jpeg(&[&APP0, &SOF0_640X480]);
    let mut longer = data.clone();
    longer.extend_from_slice(&[0xAB; 40]);
    assert_eq!(read_dimensions(&longer), read_dimensions(&data));
    let bad = jpeg(&[&APP0, &[0xFF, 0xD9], &[0; 4]]);
    let mut bad_longer = bad.clone();
    bad_longer.extend_from_slice(&SOF0_640X480);
    assert_eq!(read_dimensions(&bad_longer), Err(DimensionError::EoiBeforeDimensions));
}

#[test]
fn image_info_classifies_entries() {
    assert_eq!(read_image_info(b"just some text in a file"), Ok(None));
    assert_eq!(
        read_image_info(&png(3, 4)),
        Ok(Some(ImageInfo { format: ImageFormat::Png, dimensions: (3, 4) }))
    );
    assert_eq!(read_image_info(&png(3, 4)[..20]), Err(DimensionError::UnexpectedEof));
    assert_eq!(image_format(&jpeg(&[&APP0, &APP0])), Some(ImageFormat::Jpeg));
    assert_eq!(image_format(&jpeg(&[&APP0])), None);
    assert_eq!(ImageFormat::Jpeg.mime(), "image/jpeg");
    assert_eq!(ImageFormat::Png.mime(), "image/png");
    assert_eq!(ImageFormat::Webp.mime(), "image/webp");
}
