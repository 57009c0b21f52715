//! The raw bitmap container: a 14-byte file header, a 40-byte info header,
//! and 24-bit pixel rows stored bottom-up with blue-green-red byte order and
//! no row padding. Decoding and encoding are pure functions over byte
//! vectors; the surrounding program does the file reads and writes.

use vstd::prelude::*;

use crate::bytesle::{
    le16_at, le16_bytes, le32_at, le32_bytes, le_read_u16, le_read_u32, le_u16_vec, le_u32_vec,
};

verus! {

/// Why a byte buffer could not be decoded into a bitmap.
#[derive(Clone, Copy, PartialEq, Eq, Structural, Debug)]
pub enum DecodeError {
    /// The buffer ends before the headers or the pixel data do.
    Truncated,
    /// The bits-per-pixel field holds something other than 24.
    UnsupportedBitDepth(u16),
}

/// One color value: three 8-bit channels, red, green, blue.
#[derive(Clone, Copy, PartialEq, Eq, Structural, Debug)]
pub struct Pixel {
    pub r: u8,
    pub g: u8,
    pub b: u8,
}

impl Pixel {
    /// The channels widened to signed integers, in (r, g, b) order.
    pub open spec fn spec_tuple(self) -> (i32, i32, i32) {
        (self.r as i32, self.g as i32, self.b as i32)
    }

    pub fn new() -> (p: Pixel)
        ensures
            p == (Pixel { r: 0u8, g: 0u8, b: 0u8 }),
    {
        Pixel { r: 0u8, g: 0u8, b: 0u8 }
    }

    pub fn as_tuple(&self) -> (t: (i32, i32, i32))
        ensures
            t == self.spec_tuple(),
    {
        (self.r as i32, self.g as i32, self.b as i32)
    }

    pub fn black() -> (p: Pixel)
        ensures
            p == (Pixel { r: 0u8, g: 0u8, b: 0u8 }),
    {
        Pixel { r: 0u8, g: 0u8, b: 0u8 }
    }

    pub fn white() -> (p: Pixel)
        ensures
            p == (Pixel { r: 255u8, g: 255u8, b: 255u8 }),
    {
        Pixel { r: 255u8, g: 255u8, b: 255u8 }
    }

    pub fn red() -> (p: Pixel)
        ensures
            p == (Pixel { r: 255u8, g: 0u8, b: 0u8 }),
    {
        Pixel { r: 255u8, g: 0u8, b: 0u8 }
    }

    pub fn green() -> (p: Pixel)
        ensures
            p == (Pixel { r: 0u8, g: 255u8, b: 0u8 }),
    {
        Pixel { r: 0u8, g: 255u8, b: 0u8 }
    }

    pub fn blue() -> (p: Pixel)
        ensures
            p == (Pixel { r: 0u8, g: 0u8, b: 255u8 }),
    {
        Pixel { r: 0u8, g: 0u8, b: 255u8 }
    }

    pub fn cyan() -> (p: Pixel)
        ensures
            p == (Pixel { r: 0u8, g: 255u8, b: 255u8 }),
    {
        Pixel { r: 0u8, g: 255u8, b: 255u8 }
    }

    pub fn magenta() -> (p: Pixel)
        ensures
            p == (Pixel { r: 255u8, g: 0u8, b: 255u8 }),
    {
        Pixel { r: 255u8, g: 0u8, b: 255u8 }
    }

    pub fn yellow() -> (p: Pixel)
        ensures
            p == (Pixel { r: 255u8, g: 255u8, b: 0u8 }),
    {
        Pixel { r: 255u8, g: 255u8, b: 0u8 }
    }
}

/// The 14-byte file header: two magic bytes, a file size, two reserved
/// fields, and the offset of the pixel data. Nothing in it is validated on
/// read; the magic and reserved fields are carried through.
#[derive(Clone, Copy, PartialEq, Eq, Structural, Debug)]
pub struct BmpHeader {
    pub magic_b: u8,
    pub magic_m: u8,
    pub file_size: u32,
    pub reserved_1: u16,
    pub reserved_2: u16,
    pub image_data_offset: u32,
}

impl BmpHeader {
    /// The 14-byte serialized form of this header.
    pub open spec fn spec_bytes(self) -> Seq<u8> {
        seq![self.magic_b, self.magic_m] + le32_bytes(self.file_size) + le16_bytes(
            self.reserved_1,
        ) + le16_bytes(self.reserved_2) + le32_bytes(self.image_data_offset)
    }

    /// Parses the 14-byte file header found at `pos` in `data`.
    pub fn load(data: &Vec<u8>, pos: usize) -> (r: Result<BmpHeader, DecodeError>)
        ensures
            r is Ok <==> pos + 14 <= data@.len(),
            r matches Ok(h) ==> h == (BmpHeader {
                magic_b: data@[pos as int],
                magic_m: data@[pos + 1],
                file_size: le32_at(data@, pos + 2) as u32,
                reserved_1: le16_at(data@, pos + 6) as u16,
                reserved_2: le16_at(data@, pos + 8) as u16,
                image_data_offset: le32_at(data@, pos + 10) as u32,
            }),
            r is Err ==> r == Err::<BmpHeader, DecodeError>(DecodeError::Truncated),
    {
        if data.len() < 14 || pos > data.len() - 14 {
            return Err(DecodeError::Truncated);
        }
        Ok(BmpHeader {
            magic_b: data[pos],
            magic_m: data[pos + 1],
            file_size: le_read_u32(data, pos + 2),
            reserved_1: le_read_u16(data, pos + 6),
            reserved_2: le_read_u16(data, pos + 8),
            image_data_offset: le_read_u32(data, pos + 10),
        })
    }

    /// Serializes this header into its 14-byte form.
    pub fn save(&self) -> (out: Vec<u8>)
        ensures
            out@ == self.spec_bytes(),
    {
        let mut out: Vec<u8> = Vec::new();
        out.push(self.magic_b);
        out.push(self.magic_m);
        let mut t = le_u32_vec(self.file_size);
        out.append(&mut t);
        let mut t = le_u16_vec(self.reserved_1);
        out.append(&mut t);
        let mut t = le_u16_vec(self.reserved_2);
        out.append(&mut t);
        let mut t = le_u32_vec(self.image_data_offset);
        out.append(&mut t);
        proof {
            assert(out@ =~= self.spec_bytes());
        }
        out
    }
}

/// The info header fields the codec keeps: the grid dimensions and the color
/// depth, which must be 24 bits per pixel.
#[derive(Clone, Copy, PartialEq, Eq, Structural, Debug)]
pub struct DibHeader {
    pub width: u32,
    pub height: u32,
    pub bpp: u16,
}

impl DibHeader {
    /// The 40-byte serialized form: always the 40-byte header variant, one
    /// color plane, 24 bits per pixel, no compression, the image data size
    /// recomputed as width * height * 3, and zeroed density and palette
    /// fields.
    pub open spec fn spec_bytes(self) -> Seq<u8> {
        le32_bytes(40u32) + le32_bytes(self.width) + le32_bytes(self.height) + le16_bytes(1u16)
            + le16_bytes(24u16) + le32_bytes(0u32) + le32_bytes(
            (self.width * self.height * 3) as u32,
        ) + le32_bytes(0u32) + le32_bytes(0u32) + le32_bytes(0u32) + le32_bytes(0u32)
    }

    /// Parses the 40-byte info header found at `pos` in `data`. Fails on a
    /// short buffer, and on any color depth other than 24 bits per pixel.
    pub fn load(data: &Vec<u8>, pos: usize) -> (r: Result<DibHeader, DecodeError>)
        ensures
            r is Ok <==> pos + 40 <= data@.len() && le16_at(data@, pos + 14) == 24,
            r matches Ok(h) ==> h == (DibHeader {
                width: le32_at(data@, pos + 4) as u32,
                height: le32_at(data@, pos + 8) as u32,
                bpp: 24u16,
            }),
            pos + 40 > data@.len() ==> r == Err::<DibHeader, DecodeError>(DecodeError::Truncated),
            pos + 40 <= data@.len() && le16_at(data@, pos + 14) != 24 ==> r == Err::<
                DibHeader,
                DecodeError,
            >(DecodeError::UnsupportedBitDepth(le16_at(data@, pos + 14) as u16)),
    {
        if data.len() < 40 || pos > data.len() - 40 {
            return Err(DecodeError::Truncated);
        }
        let width = le_read_u32(data, pos + 4);
        let height = le_read_u32(data, pos + 8);
        let bpp = le_read_u16(data, pos + 14);
        if bpp != 24 {
            return Err(DecodeError::UnsupportedBitDepth(bpp));
        }
        Ok(DibHeader { width, height, bpp })
    }

    /// Serializes this header into its 40-byte form.
    pub fn save(&self) -> (out: Vec<u8>)
        requires
            self.width * self.height * 3 <= u32::MAX,
        ensures
            out@ == self.spec_bytes(),
    {
        let image_size: u32 = self.width.checked_mul(self.height).unwrap().checked_mul(3).unwrap();
        let mut out: Vec<u8> = Vec::new();
        let mut t = le_u32_vec(40);
        out.append(&mut t);
        let mut t = le_u32_vec(self.width);
        out.append(&mut t);
        let mut t = le_u32_vec(self.height);
        out.append(&mut t);
        let mut t = le_u16_vec(1);
        out.append(&mut t);
        let mut t = le_u16_vec(24);
        out.append(&mut t);
        let mut t = le_u32_vec(0);
        out.append(&mut t);
        let mut t = le_u32_vec(image_size);
        out.append(&mut t);
        let mut t = le_u32_vec(0);
        out.append(&mut t);
        let mut t = le_u32_vec(0);
        out.append(&mut t);
        let mut t = le_u32_vec(0);
        out.append(&mut t);
        let mut t = le_u32_vec(0);
        out.append(&mut t);
        proof {
            assert(out@ =~= self.spec_bytes());
        }
        out
    }
}

/// Where the pixel data starts according to the file header.
pub open spec fn decoded_offset(data: Seq<u8>) -> int {
    le32_at(data, 10)
}

/// The width field of the info header.
pub open spec fn decoded_width(data: Seq<u8>) -> int {
    le32_at(data, 18)
}

/// The height field of the info header.
pub open spec fn decoded_height(data: Seq<u8>) -> int {
    le32_at(data, 22)
}

/// The bits-per-pixel field of the info header.
pub open spec fn decoded_bpp(data: Seq<u8>) -> int {
    le16_at(data, 28)
}

/// A buffer decodes successfully exactly when both headers fit, the color
/// depth is 24 bits, and the buffer reaches to the end of the pixel data.
/// With no pixels to read, the stored offset does not matter.
pub open spec fn decode_ok(data: Seq<u8>) -> bool {
    &&& data.len() >= 54
    &&& decoded_bpp(data) == 24
    &&& (decoded_width(data) * decoded_height(data) == 0 || decoded_offset(data) + decoded_width(
        data,
    ) * decoded_height(data) * 3 <= data.len())
}

/// The pixel at grid position `(x, y)`: rows are stored bottom-up starting
/// at the pixel data offset, each pixel as three bytes in blue, green, red
/// order.
pub open spec fn decoded_pixel(data: Seq<u8>, x: int, y: int) -> Pixel {
    let base = decoded_offset(data) + ((decoded_height(data) - 1 - y) * decoded_width(data) + x)
        * 3;
    Pixel { r: data[base + 2], g: data[base + 1], b: data[base] }
}

/// An in-memory bitmap: the two headers as read (or as constructed), and the
/// pixel grid addressed `pixels[x][y]` with `x` in `[0, width)` and `y` in
/// `[0, height)`.
pub struct Bmp {
    pub bmp_header: BmpHeader,
    pub dib_header: DibHeader,
    pub pixels: Vec<Vec<Pixel>>,
}

impl Bmp {
    /// The pixel grid as a sequence of columns.
    pub open spec fn grid(self) -> Seq<Seq<Pixel>> {
        Seq::new(self.pixels@.len(), |x: int| self.pixels@[x]@)
    }

    /// The grid has exactly the dimensions the info header claims.
    pub open spec fn wf(self) -> bool {
        &&& self.pixels@.len() == self.dib_header.width
        &&& forall|x: int|
            0 <= x < self.pixels@.len() ==> (#[trigger] self.pixels@[x])@.len()
                == self.dib_header.height
    }

    /// The serialized size fits the 32-bit file size field.
    pub open spec fn encodable(self) -> bool {
        54 + self.dib_header.width * self.dib_header.height * 3 <= u32::MAX
    }

    /// A fresh all-black bitmap of the given dimensions, with default
    /// headers: 'B', 'M', zero reserved fields, pixel data at byte 54.
    pub fn new(width: u32, height: u32) -> (bmp: Bmp)
        ensures
            bmp.wf(),
            bmp.dib_header == (DibHeader { width, height, bpp: 24u16 }),
            bmp.bmp_header == (BmpHeader {
                magic_b: 66u8,
                magic_m: 77u8,
                file_size: 0u32,
                reserved_1: 0u16,
                reserved_2: 0u16,
                image_data_offset: 54u32,
            }),
            forall|x: int, y: int|
                0 <= x < width && 0 <= y < height ==> bmp.grid()[x][y] == (Pixel {
                    r: 0u8,
                    g: 0u8,
                    b: 0u8,
                }),
    {
        Bmp {
            bmp_header: BmpHeader {
                magic_b: 66,
                magic_m: 77,
                file_size: 0,
                reserved_1: 0,
                reserved_2: 0,
                image_data_offset: 54,
            },
            dib_header: DibHeader { width, height, bpp: 24 },
            pixels: Bmp::create_pixels(width as usize, height as usize),
        }
    }

    /// A width * height grid filled with black pixels.
    fn create_pixels(width: usize, height: usize) -> (pixels: Vec<Vec<Pixel>>)
        ensures
            pixels@.len() == width,
            forall|x: int|
                0 <= x < width ==> (#[trigger] pixels@[x])@.len() == height,
            forall|x: int, y: int|
                0 <= x < width && 0 <= y < height ==> pixels@[x]@[y] == (Pixel {
                    r: 0u8,
                    g: 0u8,
                    b: 0u8,
                }),
    {
        let mut pixels: Vec<Vec<Pixel>> = Vec::new();
        let mut x: usize = 0;
        while x < width
            invariant
                x <= width,
                pixels@.len() == x,
                forall|i: int|
                    0 <= i < x ==> (#[trigger] pixels@[i])@.len() == height,
                forall|i: int, y: int|
                    0 <= i < x && 0 <= y < height ==> pixels@[i]@[y] == (Pixel {
                        r: 0u8,
                        g: 0u8,
                        b: 0u8,
                    }),
            decreases width - x,
        {
            let mut col: Vec<Pixel> = Vec::new();
            let mut y: usize = 0;
            while y < height
                invariant
                    y <= height,
                    col@.len() == y,
                    forall|j: int|
                        0 <= j < y ==> col@[j] == (Pixel { r: 0u8, g: 0u8, b: 0u8 }),
                decreases height - y,
            {
                col.push(Pixel::new());
                y += 1;
            }
            pixels.push(col);
            x += 1;
        }
        pixels
    }

    pub fn width(&self) -> (w: u32)
        ensures
            w == self.dib_header.width,
    {
        self.dib_header.width
    }

    pub fn height(&self) -> (h: u32)
        ensures
            h == self.dib_header.height,
    {
        self.dib_header.height
    }

    /// Overwrites the pixel at grid position `(x, y)`, leaving every other
    /// position and both headers as they were.
    pub fn set_pixel(&mut self, x: usize, y: usize, p: Pixel)
        requires
            x < old(self).grid().len(),
            y < old(self).grid()[x as int].len(),
        ensures
            final(self).bmp_header == old(self).bmp_header,
            final(self).dib_header == old(self).dib_header,
            final(self).grid() == old(self).grid().update(
                x as int,
                old(self).grid()[x as int].update(y as int, p),
            ),
            old(self).wf() ==> final(self).wf(),
    {
        set_px(&mut self.pixels, x, y, p);
        proof {
            assert(final(self).grid() =~= old(self).grid().update(
                x as int,
                old(self).grid()[x as int].update(y as int, p),
            ));
            let fin = *final(self);
            assert forall|i: int|
                0 <= i < fin.pixels@.len() implies (#[trigger] fin.pixels@[i])@.len() == (old(
                self,
            ).pixels@[i])@.len() by {
                if i != x {
                    assert(final(self).pixels@[i] == old(self).pixels@[i]);
                }
            }
        }
    }

    /// Decodes a byte buffer into a bitmap. Fails with `Truncated` when the
    /// buffer ends before the headers or the pixel data do, and with
    /// `UnsupportedBitDepth` when the color depth is not 24 bits per pixel.
    pub fn load(data: &Vec<u8>) -> (r: Result<Bmp, DecodeError>)
        ensures
            r is Ok <==> decode_ok(data@),
            data@.len() < 54 ==> r == Err::<Bmp, DecodeError>(DecodeError::Truncated),
            data@.len() >= 54 && decoded_bpp(data@) != 24 ==> r == Err::<Bmp, DecodeError>(
                DecodeError::UnsupportedBitDepth(decoded_bpp(data@) as u16),
            ),
            data@.len() >= 54 && decoded_bpp(data@) == 24 && !decode_ok(data@) ==> r == Err::<
                Bmp,
                DecodeError,
            >(DecodeError::Truncated),
            r matches Ok(bmp) ==> {
                &&& bmp.wf()
                &&& bmp.dib_header == (DibHeader {
                    width: decoded_width(data@) as u32,
                    height: decoded_height(data@) as u32,
                    bpp: 24u16,
                })
                &&& bmp.bmp_header == (BmpHeader {
                    magic_b: data@[0],
                    magic_m: data@[1],
                    file_size: le32_at(data@, 2) as u32,
                    reserved_1: le16_at(data@, 6) as u16,
                    reserved_2: le16_at(data@, 8) as u16,
                    image_data_offset: decoded_offset(data@) as u32,
                })
                &&& forall|x: int, y: int|
                    0 <= x < decoded_width(data@) && 0 <= y < decoded_height(data@)
                        ==> bmp.grid()[x][y] == decoded_pixel(data@, x, y)
            },
    {
        let bh = match BmpHeader::load(data, 0) {
            Ok(h) => h,
            Err(e) => { return Err(e) },
        };
        let dh = match DibHeader::load(data, 14) {
            Ok(h) => h,
            Err(e) => { return Err(e) },
        };
        let w = dh.width as usize;
        let h = dh.height as usize;
        let off = bh.image_data_offset as usize;
        let n = data.len();
        proof {
            assert(0 <= le32_at(data@, 18) < 0x1_0000_0000);
            assert(0 <= le32_at(data@, 22) < 0x1_0000_0000);
            assert(0 <= le32_at(data@, 10) < 0x1_0000_0000);
            assert(w == decoded_width(data@));
            assert(h == decoded_height(data@));
            assert(off == decoded_offset(data@));
        }
        let px_count = match w.checked_mul(h) {
            Some(v) => v,
            None => {
                proof {
                    assert(3 * ((w as int) * (h as int)) >= (w as int) * (h as int));
                }
                return Err(DecodeError::Truncated);
            },
        };
        if px_count > 0 {
            let px_bytes = match px_count.checked_mul(3) {
                Some(v) => v,
                None => { return Err(DecodeError::Truncated) },
            };
            let needed = match off.checked_add(px_bytes) {
                Some(v) => v,
                None => { return Err(DecodeError::Truncated) },
            };
            if needed > n {
                return Err(DecodeError::Truncated);
            }
        }
        let mut pixels = Bmp::create_pixels(w, h);
        let mut ri: usize = 0;
        while ri < h
            invariant
                ri <= h,
                w == decoded_width(data@),
                h == decoded_height(data@),
                off == decoded_offset(data@),
                w * h == 0 || off + w * h * 3 <= data@.len(),
                data@.len() <= usize::MAX,
                pixels@.len() == w,
                forall|i: int| 0 <= i < w ==> (#[trigger] pixels@[i])@.len() == h,
                forall|xx: int, yy: int|
                    0 <= xx < w && h - ri <= yy < h ==> pixels@[xx]@[yy] == decoded_pixel(
                        data@,
                        xx,
                        yy,
                    ),
            decreases h - ri,
        {
            let y = h - 1 - ri;
            let mut x: usize = 0;
            while x < w
                invariant
                    x <= w,
                    ri < h,
                    y == h - 1 - ri,
                    w == decoded_width(data@),
                    h == decoded_height(data@),
                    off == decoded_offset(data@),
                    w * h == 0 || off + w * h * 3 <= data@.len(),
                    data@.len() <= usize::MAX,
                    pixels@.len() == w,
                    forall|i: int| 0 <= i < w ==> (#[trigger] pixels@[i])@.len() == h,
                    forall|xx: int, yy: int|
                        0 <= xx < w && h - ri <= yy < h ==> pixels@[xx]@[yy] == decoded_pixel(
                            data@,
                            xx,
                            yy,
                        ),
                    forall|xx: int|
                        0 <= xx < x ==> pixels@[xx]@[y as int] == decoded_pixel(
                            data@,
                            xx,
                            y as int,
                        ),
                decreases w - x,
            {
                proof {
                    assert((ri as int) * (w as int) + (x as int) < (w as int) * (h as int)
                        && (ri as int) * (w as int) + (x as int) >= 0) by (nonlinear_arith)
                        requires
                            0 <= ri < h,
                            0 <= x < w,
                    ;
                    assert((w as int) * (h as int) <= (w as int) * (h as int) * 3);
                    assert(((ri as int) * (w as int) + (x as int)) * 3 + 3 <= (w as int) * (
                    h as int) * 3);
                    assert(data@.len() <= usize::MAX);
                }
                let base = off + (ri * w + x) * 3;
                let p = Pixel { r: data[base + 2], g: data[base + 1], b: data[base] };
                set_px(&mut pixels, x, y, p);
                proof {
                    assert(pixels@[x as int]@[y as int] == decoded_pixel(data@, x as int, y as int));
                }
                x += 1;
            }
            ri += 1;
        }
        Ok(Bmp { bmp_header: bh, dib_header: dh, pixels })
    }

    /// The file header as the encoder writes it: magic and reserved fields
    /// carried over, the file size recomputed, and the pixel data placed
    /// directly after the two headers at byte 54.
    pub open spec fn save_header(self) -> BmpHeader {
        BmpHeader {
            magic_b: self.bmp_header.magic_b,
            magic_m: self.bmp_header.magic_m,
            file_size: (54 + self.dib_header.width * self.dib_header.height * 3) as u32,
            reserved_1: self.bmp_header.reserved_1,
            reserved_2: self.bmp_header.reserved_2,
            image_data_offset: 54u32,
        }
    }

    /// Byte `i` of the encoded pixel data: rows bottom-up, pixels left to
    /// right, channels in blue, green, red order.
    pub open spec fn pixel_data_byte(self, i: int) -> u8 {
        let w = self.dib_header.width as int;
        let h = self.dib_header.height as int;
        let pi = i / 3;
        let ch = i % 3;
        let ri = pi / w;
        let x = pi % w;
        let p = self.grid()[x][h - 1 - ri];
        if ch == 0 {
            p.b
        } else if ch == 1 {
            p.g
        } else {
            p.r
        }
    }

    /// The full encoded form: 14-byte file header, 40-byte info header, then
    /// the pixel data with no row padding.
    pub open spec fn spec_encoded(self) -> Seq<u8> {
        self.save_header().spec_bytes() + self.dib_header.spec_bytes() + Seq::new(
            (self.dib_header.width * self.dib_header.height * 3) as nat,
            |i: int| self.pixel_data_byte(i),
        )
    }

    /// Encodes the bitmap into its byte form.
    #[verifier::rlimit(60)]
    pub fn save(&self) -> (out: Vec<u8>)
        requires
            self.wf(),
            self.encodable(),
        ensures
            out@ == self.spec_encoded(),
    {
        let px_bytes: u32 = self.dib_header.width.checked_mul(self.dib_header.height).unwrap()
            .checked_mul(3).unwrap();
        let hdr = BmpHeader {
            magic_b: self.bmp_header.magic_b,
            magic_m: self.bmp_header.magic_m,
            file_size: 54 + px_bytes,
            reserved_1: self.bmp_header.reserved_1,
            reserved_2: self.bmp_header.reserved_2,
            image_data_offset: 54,
        };
        let mut out = hdr.save();
        let mut t = self.dib_header.save();
        out.append(&mut t);
        proof {
            assert(hdr == self.save_header());
            assert(out@ =~= self.spec_encoded().take(54));
        }
        let w = self.dib_header.width as usize;
        let h = self.dib_header.height as usize;
        let mut ri: usize = 0;
        while ri < h
            invariant
                ri <= h,
                w == self.dib_header.width,
                h == self.dib_header.height,
                self.wf(),
                self.encodable(),
                out@.len() == 54 + ri * w * 3,
                out@ == self.spec_encoded().take(54 + (ri * w * 3) as int),
            decreases h - ri,
        {
            let y = h - 1 - ri;
            let mut x: usize = 0;
            while x < w
                invariant
                    x <= w,
                    ri < h,
                    y == h - 1 - ri,
                    w == self.dib_header.width,
                    h == self.dib_header.height,
                    self.wf(),
                    self.encodable(),
                    out@.len() == 54 + (ri * w + x) * 3,
                    out@ == self.spec_encoded().take(54 + ((ri * w + x) * 3) as int),
                decreases w - x,
            {
                proof {
                    assert((ri as int) * (w as int) + (x as int) < (w as int) * (h as int)
                        && (ri as int) * (w as int) + (x as int) >= 0 && (ri as int) * (w as int)
                        + (x as int) + 1 <= (w as int) * (h as int)) by (nonlinear_arith)
                        requires
                            0 <= ri < h,
                            0 <= x < w,
                    ;
                }
                let p = self.pixels[x][y];
                out.push(p.b);
                out.push(p.g);
                out.push(p.r);
                proof {
                    let j0 = ((ri as int) * (w as int) + (x as int)) * 3;
                    let pi = (ri as int) * (w as int) + (x as int);
                    vstd::arithmetic::div_mod::lemma_fundamental_div_mod_converse_div(
                        j0, 3, pi, 0);
                    vstd::arithmetic::div_mod::lemma_fundamental_div_mod_converse_mod(
                        j0, 3, pi, 0);
                    vstd::arithmetic::div_mod::lemma_fundamental_div_mod_converse_div(
                        j0 + 1, 3, pi, 1);
                    vstd::arithmetic::div_mod::lemma_fundamental_div_mod_converse_mod(
                        j0 + 1, 3, pi, 1);
                    vstd::arithmetic::div_mod::lemma_fundamental_div_mod_converse_div(
                        j0 + 2, 3, pi, 2);
                    vstd::arithmetic::div_mod::lemma_fundamental_div_mod_converse_mod(
                        j0 + 2, 3, pi, 2);
                    vstd::arithmetic::div_mod::lemma_fundamental_div_mod_converse_div(
                        pi, w as int, ri as int, x as int);
                    vstd::arithmetic::div_mod::lemma_fundamental_div_mod_converse_mod(
                        pi, w as int, ri as int, x as int);
                    assert(self.pixel_data_byte(j0) == p.b);
                    assert(self.pixel_data_byte(j0 + 1) == p.g);
                    assert(self.pixel_data_byte(j0 + 2) == p.r);
                    assert(out@ =~= self.spec_encoded().take(54 + ((ri * w + x + 1) * 3) as int));
                }
                x += 1;
            }
            proof {
                assert(((ri as int) + 1) * (w as int) == (ri as int) * (w as int) + (
                w as int)) by (nonlinear_arith);
            }
            ri += 1;
        }
        proof {
            assert((h as int) * (w as int) == (w as int) * (h as int)) by (nonlinear_arith);
            assert(out@ =~= self.spec_encoded());
        }
        out
    }
}

/// Round trip: a buffer produced by `save` decodes successfully, with the
/// same dimensions, and yields the same pixel grid, channel for channel.
pub proof fn lemma_codec_round_trip(b: Bmp)
    requires
        b.wf(),
        b.encodable(),
    ensures
        decode_ok(b.spec_encoded()),
        decoded_offset(b.spec_encoded()) == 54,
        decoded_width(b.spec_encoded()) == b.dib_header.width,
        decoded_height(b.spec_encoded()) == b.dib_header.height,
        decoded_bpp(b.spec_encoded()) == 24,
        forall|x: int, y: int|
            0 <= x < b.dib_header.width && 0 <= y < b.dib_header.height ==> decoded_pixel(
                b.spec_encoded(),
                x,
                y,
            ) == b.grid()[x][y],
{
    let data = b.spec_encoded();
    let w = b.dib_header.width as int;
    let h = b.dib_header.height as int;
    let hb = b.save_header().spec_bytes();
    let db = b.dib_header.spec_bytes();
    assert(hb.len() == 14);
    assert(db.len() == 40);
    assert(w * h >= 0 && w * h * 3 >= 0) by (nonlinear_arith)
        requires
            w >= 0,
            h >= 0,
    ;
    assert(data.len() == 54 + w * h * 3);
    assert forall|k: int| 0 <= k < 40 implies data[14 + k] == db[k] by {}
    assert forall|k: int| 0 <= k < 14 implies data[k] == hb[k] by {}
    assert(decoded_offset(data) == le32_at(le32_bytes(54u32), 0));
    crate::bytesle::lemma_le32_round_trip(54u32);
    assert(decoded_offset(data) == 54);
    assert(decoded_width(data) == le32_at(le32_bytes(b.dib_header.width), 0));
    crate::bytesle::lemma_le32_round_trip(b.dib_header.width);
    assert(decoded_width(data) == b.dib_header.width);
    assert(decoded_height(data) == le32_at(le32_bytes(b.dib_header.height), 0));
    crate::bytesle::lemma_le32_round_trip(b.dib_header.height);
    assert(decoded_height(data) == b.dib_header.height);
    assert(decoded_bpp(data) == le16_at(le16_bytes(24u16), 0));
    crate::bytesle::lemma_le16_round_trip(24u16);
    assert(decoded_bpp(data) == 24);
    assert(decode_ok(data));
    assert forall|x: int, y: int| 0 <= x < w && 0 <= y < h implies decoded_pixel(data, x, y)
        == b.grid()[x][y] by {
        let ri = h - 1 - y;
        let pi = ri * w + x;
        let j0 = pi * 3;
        assert(0 <= ri * w + x && ri * w + x < w * h) by (nonlinear_arith)
            requires
                0 <= ri < h,
                0 <= x < w,
        ;
        assert(j0 + 3 <= w * h * 3);
        assert(data[54 + j0] == b.pixel_data_byte(j0));
        assert(data[54 + j0 + 1] == b.pixel_data_byte(j0 + 1));
        assert(data[54 + j0 + 2] == b.pixel_data_byte(j0 + 2));
        vstd::arithmetic::div_mod::lemma_fundamental_div_mod_converse_div(j0, 3, pi, 0);
        vstd::arithmetic::div_mod::lemma_fundamental_div_mod_converse_mod(j0, 3, pi, 0);
        vstd::arithmetic::div_mod::lemma_fundamental_div_mod_converse_div(j0 + 1, 3, pi, 1);
        vstd::arithmetic::div_mod::lemma_fundamental_div_mod_converse_mod(j0 + 1, 3, pi, 1);
        vstd::arithmetic::div_mod::lemma_fundamental_div_mod_converse_div(j0 + 2, 3, pi, 2);
        vstd::arithmetic::div_mod::lemma_fundamental_div_mod_converse_mod(j0 + 2, 3, pi, 2);
        vstd::arithmetic::div_mod::lemma_fundamental_div_mod_converse_div(pi, w, ri, x);
        vstd::arithmetic::div_mod::lemma_fundamental_div_mod_converse_mod(pi, w, ri, x);
        assert(b.pixel_data_byte(j0) == b.grid()[x][y].b);
        assert(b.pixel_data_byte(j0 + 1) == b.grid()[x][y].g);
        assert(b.pixel_data_byte(j0 + 2) == b.grid()[x][y].r);
        assert(decoded_pixel(data, x, y) == b.grid()[x][y]);
    }
}

/// Writes pixel `p` at grid position `(x, y)`, leaving every other position
/// as it was.
fn set_px(pixels: &mut Vec<Vec<Pixel>>, x: usize, y: usize, p: Pixel)
    requires
        x < old(pixels)@.len(),
        y < old(pixels)@[x as int]@.len(),
    ensures
        final(pixels)@.len() == old(pixels)@.len(),
        forall|i: int|
            0 <= i < final(pixels)@.len() && i != x ==> final(pixels)@[i] == old(pixels)@[i],
        final(pixels)@[x as int]@ == old(pixels)@[x as int]@.update(y as int, p),
{
    let col = &mut pixels[x];
    col[y] = p;
}

} // verus!
