use bmpdither::bmp::{Bmp, BmpHeader, DecodeError, DibHeader, Pixel};

fn le32(v: u32) -> [u8; 4] {
    [v as u8, (v >> 8) as u8, (v >> 16) as u8, (v >> 24) as u8]
}

fn le16(v: u16) -> [u8; 2] {
    [v as u8, (v >> 8) as u8]
}

/// A hand-built file for a w x h image: 14-byte file header, 40-byte info
/// header, then the raw pixel rows.
fn build_file(w: u32, h: u32, bpp: u16, pixel_bytes: &[u8]) -> Vec<u8> {
    let mut out = Vec::new();
    out.push(b'B');
    out.push(b'M');
    out.extend_from_slice(&le32(54 + w * h * 3));
    out.extend_from_slice(&le16(0));
    out.extend_from_slice(&le16(0));
    out.extend_from_slice(&le32(54));
    out.extend_from_slice(&le32(40));
    out.extend_from_slice(&le32(w));
    out.extend_from_slice(&le32(h));
    out.extend_from_slice(&le16(1));
    out.extend_from_slice(&le16(bpp));
    out.extend_from_slice(&le32(0));
    out.extend_from_slice(&le32(w * h * 3));
    out.extend_from_slice(&le32(0));
    out.extend_from_slice(&le32(0));
    out.extend_from_slice(&le32(0));
    out.extend_from_slice(&le32(0));
    out.extend_from_slice(pixel_bytes);
    out
}

#[test]
fn bmp_header_round_trip() {
    let h = BmpHeader {
        magic_b: b'B',
        magic_m: b'M',
        file_size: 1234,
        reserved_1: 7,
        reserved_2: 9,
        image_data_offset: 54,
    };
    let bytes = h.save();
    assert_eq!(bytes.len(), 14);
    let h2 = BmpHeader::load(&bytes, 0).unwrap();
    assert_eq!(h, h2);
}

#[test]
fn bmp_header_too_short() {
    let bytes = vec![0u8; 13];
    assert_eq!(BmpHeader::load(&bytes, 0), Err(DecodeError::Truncated));
}

#[test]
fn dib_header_round_trip() {
    let d = DibHeader { width: 3, height: 2, bpp: 24 };
    let bytes = d.save();
    assert_eq!(bytes.len(), 40);
    let d2 = DibHeader::load(&bytes, 0).unwrap();
    assert_eq!(d, d2);
    // header size field, color planes, bits per pixel, image data size
    assert_eq!(&bytes[0..4], &le32(40));
    assert_eq!(&bytes[12..14], &le16(1));
    assert_eq!(&bytes[14..16], &le16(24));
    assert_eq!(&bytes[20..24], &le32(18));
}

#[test]
fn dib_header_rejects_other_depths() {
    let mut d = DibHeader { width: 1, height: 1, bpp: 24 }.save();
    d[14] = 8;
    d[15] = 0;
    assert_eq!(DibHeader::load(&d, 0), Err(DecodeError::UnsupportedBitDepth(8)));
}

#[test]
fn decode_rejects_bpp_8() {
    let file = build_file(1, 1, 8, &[0, 0, 0]);
    assert_eq!(Bmp::load(&file).err(), Some(DecodeError::UnsupportedBitDepth(8)));
}

#[test]
fn decode_rejects_truncated_header() {
    let file = vec![b'B', b'M', 0, 0];
    assert_eq!(Bmp::load(&file).err(), Some(DecodeError::Truncated));
}

#[test]
fn decode_rejects_truncated_pixels() {
    let mut file = build_file(2, 2, 24, &[0u8; 12]);
    file.truncate(54 + 11);
    assert_eq!(Bmp::load(&file).err(), Some(DecodeError::Truncated));
}

#[test]
fn decode_reads_bottom_up_bgr() {
    // 2 x 2 image; the first stored row is the bottom row (y = 1), and each
    // pixel is blue, green, red on the wire.
    let pixel_bytes = [
        1, 2, 3, // (0, 1): b=1 g=2 r=3
        4, 5, 6, // (1, 1)
        7, 8, 9, // (0, 0)
        10, 11, 12, // (1, 0)
    ];
    let file = build_file(2, 2, 24, &pixel_bytes);
    let bmp = Bmp::load(&file).unwrap();
    assert_eq!(bmp.width(), 2);
    assert_eq!(bmp.height(), 2);
    assert_eq!(bmp.pixels[0][1], Pixel { r: 3, g: 2, b: 1 });
    assert_eq!(bmp.pixels[1][1], Pixel { r: 6, g: 5, b: 4 });
    assert_eq!(bmp.pixels[0][0], Pixel { r: 9, g: 8, b: 7 });
    assert_eq!(bmp.pixels[1][0], Pixel { r: 12, g: 11, b: 10 });
}

#[test]
fn decode_honors_pixel_data_offset() {
    // Extra junk between the headers and the pixel data is tolerated: the
    // decoder seeks to the offset stored in the file header.
    let mut file = build_file(1, 1, 24, &[]);
    file[10] = 60; // pixel data now claimed at byte 60
    file.extend_from_slice(&[0xEE; 6]); // bytes 54..60: junk
    file.extend_from_slice(&[20, 30, 40]);
    let bmp = Bmp::load(&file).unwrap();
    assert_eq!(bmp.pixels[0][0], Pixel { r: 40, g: 30, b: 20 });
}

#[test]
fn encode_layout() {
    let mut bmp = Bmp::new(1, 2);
    bmp.pixels[0][0] = Pixel { r: 10, g: 20, b: 30 };
    bmp.pixels[0][1] = Pixel { r: 40, g: 50, b: 60 };
    let out = bmp.save();
    assert_eq!(out.len(), 54 + 6);
    assert_eq!(out[0], b'B');
    assert_eq!(out[1], b'M');
    assert_eq!(&out[2..6], &le32(60)); // recomputed file size
    assert_eq!(&out[10..14], &le32(54)); // pixel data offset
    assert_eq!(&out[18..22], &le32(1)); // width
    assert_eq!(&out[22..26], &le32(2)); // height
    assert_eq!(&out[28..30], &le16(24)); // bits per pixel
    // bottom row (y = 1) first, blue-green-red order
    assert_eq!(&out[54..57], &[60, 50, 40]);
    assert_eq!(&out[57..60], &[30, 20, 10]);
}

#[test]
fn round_trip_2x2() {
    let mut bmp = Bmp::new(2, 2);
    bmp.pixels[0][0] = Pixel { r: 1, g: 2, b: 3 };
    bmp.pixels[1][0] = Pixel { r: 250, g: 251, b: 252 };
    bmp.pixels[0][1] = Pixel { r: 13, g: 14, b: 15 };
    bmp.pixels[1][1] = Pixel { r: 16, g: 17, b: 18 };
    let bytes = bmp.save();
    let back = Bmp::load(&bytes).unwrap();
    assert_eq!(back.width(), 2);
    assert_eq!(back.height(), 2);
    for x in 0..2 {
        for y in 0..2 {
            assert_eq!(back.pixels[x][y], bmp.pixels[x][y]);
        }
    }
}

#[test]
fn round_trip_1x1() {
    let mut bmp = Bmp::new(1, 1);
    bmp.pixels[0][0] = Pixel { r: 200, g: 100, b: 50 };
    let bytes = bmp.save();
    let back = Bmp::load(&bytes).unwrap();
    assert_eq!(back.width(), 1);
    assert_eq!(back.height(), 1);
    assert_eq!(back.pixels[0][0], Pixel { r: 200, g: 100, b: 50 });
}

#[test]
fn round_trip_wide() {
    let (w, h) = (5usize, 3usize);
    let mut bmp = Bmp::new(w as u32, h as u32);
    for x in 0..w {
        for y in 0..h {
            bmp.pixels[x][y] = Pixel {
                r: (x * 40 + y) as u8,
                g: (y * 70 + x) as u8,
                b: (x * y * 11 + 5) as u8,
            };
        }
    }
    let bytes = bmp.save();
    let back = Bmp::load(&bytes).unwrap();
    for x in 0..w {
        for y in 0..h {
            assert_eq!(back.pixels[x][y], bmp.pixels[x][y]);
        }
    }
}

#[test]
fn pixel_helpers() {
    let p = Pixel::new();
    assert_eq!(p, Pixel { r: 0, g: 0, b: 0 });
    assert_eq!(Pixel { r: 1, g: 2, b: 3 }.as_tuple(), (1, 2, 3));
    assert_eq!(Pixel::black(), Pixel { r: 0, g: 0, b: 0 });
    assert_eq!(Pixel::white(), Pixel { r: 255, g: 255, b: 255 });
    assert_eq!(Pixel::red(), Pixel { r: 255, g: 0, b: 0 });
    assert_eq!(Pixel::green(), Pixel { r: 0, g: 255, b: 0 });
    assert_eq!(Pixel::blue(), Pixel { r: 0, g: 0, b: 255 });
    assert_eq!(Pixel::cyan(), Pixel { r: 0, g: 255, b: 255 });
    assert_eq!(Pixel::magenta(), Pixel { r: 255, g: 0, b: 255 });
    assert_eq!(Pixel::yellow(), Pixel { r: 255, g: 255, b: 0 });
}
