//! Textures: solid colors, the checker pair, and image lookup.
//!
//! Colors are RGB vectors with Q16.16 channels.  The image texture holds
//! a validated RGB byte buffer and its lookup arithmetic is exact; the
//! decoding itself is the image crate's work, behind a trusted wrapper.

use vstd::prelude::*;

use crate::vec3::{Vec3, UNIT};

verus! {

/// Channels within `[0, COLOR_MAX]`: radiance never exceeds two to the
/// twenty-fourth world units of brightness.
pub const COLOR_MAX: i64 = 0x100_0000_0000;  // 2^40

pub open spec fn color_wf(c: Vec3) -> bool {
    0 <= c.x <= COLOR_MAX && 0 <= c.y <= COLOR_MAX && 0 <= c.z <= COLOR_MAX
}

#[derive(Clone, Copy, Debug)]
pub struct SolidColor {
    pub color_value: Vec3,
}

impl SolidColor {
    /// A solid color is the same everywhere.
    pub fn value(&self, _u: i64, _v: i64) -> (r: Vec3)
        ensures
            r == self.color_value,
    {
        self.color_value
    }
}

/// Two solid colors alternating in a sine-sign checker pattern; the sign
/// itself comes from the trigonometric shell around the core.
#[derive(Clone, Copy, Debug)]
pub struct CheckerTexture {
    pub odd: SolidColor,
    pub even: SolidColor,
}

impl CheckerTexture {
    /// The color for a point whose checker sign is already known.
    pub fn value_from_sign(&self, sines_negative: bool) -> (r: Vec3)
        ensures
            r == if sines_negative {
                self.odd.color_value
            } else {
                self.even.color_value
            },
    {
        if sines_negative {
            self.odd.value(0, 0)
        } else {
            self.even.value(0, 0)
        }
    }
}

/// A decoded RGB image: three bytes per pixel, row-major.
#[derive(Clone, Debug)]
pub struct ImageTexture {
    pub data: Vec<u8>,
    pub width: usize,
    pub height: usize,
    pub bytes_per_scanline: usize,
}

pub open spec fn image_wf(t: ImageTexture) -> bool {
    &&& 0 < t.width <= 0x1_0000
    &&& 0 < t.height <= 0x1_0000
    &&& t.bytes_per_scanline == 3 * t.width
    &&& t.data.len() == t.bytes_per_scanline * t.height
}

/// The RGB bytes the image crate decodes from an encoded image: a pure
/// function of the bytes alone, named so that callers can carry the
/// decoded pixels through their own contracts.
pub uninterp spec fn decoded_rgb_of(bytes: Seq<u8>) -> Seq<u8>;

/// Relies on `image::load_from_memory` and `DynamicImage::to_rgb8`: the
/// decoded buffer holds `decoded_rgb_of` the input, row-major, three
/// bytes per pixel, so its length is three times the pixel count.
#[verifier::external_body]
fn decode_rgb_image(bytes: &[u8]) -> (res: Option<(Vec<u8>, usize, usize)>)
    ensures
        res matches Some(t) ==> t.0@ == decoded_rgb_of(bytes@) && t.0@.len() == 3 * t.1 * t.2,
{
    match image::load_from_memory(bytes) {
        Ok(img) => {
            let rgb = img.to_rgb8();
            let w = rgb.width() as usize;
            let h = rgb.height() as usize;
            Some((rgb.into_raw(), w, h))
        },
        Err(_) => None,
    }
}

/// The exact color scale: a byte channel mapped to Q16.16 by
/// `b * UNIT / 255`.
pub open spec fn byte_to_q16(b: int) -> int {
    b * UNIT / 255
}

/// The pixel column for a Q16.16 coordinate clamped to `[0, 1]`.
pub open spec fn image_col(t: ImageTexture, u: int) -> int {
    let uu = if u < 0 {
        0
    } else if u > UNIT {
        UNIT as int
    } else {
        u
    };
    let c = uu * t.width / (UNIT as int);
    if c >= t.width {
        t.width - 1
    } else {
        c
    }
}

/// The pixel row: the `v` coordinate is flipped, then treated the same.
pub open spec fn image_row(t: ImageTexture, v: int) -> int {
    let vv = if v < 0 {
        UNIT as int
    } else if v > UNIT {
        0
    } else {
        UNIT - v
    };
    let r = vv * t.height / (UNIT as int);
    if r >= t.height {
        t.height - 1
    } else {
        r
    }
}

impl ImageTexture {
    /// Bytes per pixel of the decoded buffer.
    pub fn bytes_per_pixel() -> (r: usize)
        ensures
            r == 3,
    {
        3
    }

    /// Decode and validate an encoded image; sizes beyond the supported
    /// range are rejected rather than trusted.
    pub fn new(bytes: &[u8]) -> (res: Option<ImageTexture>)
        ensures
            res matches Some(t) ==> image_wf(t) && t.data@ == decoded_rgb_of(bytes@),
    {
        match decode_rgb_image(bytes) {
            Some((data, width, height)) => {
                if width == 0 || height == 0 || width > 0x1_0000 || height > 0x1_0000 {
                    return None;
                }
                proof {
                    assert(3 * width * height == (3 * width) * height) by (nonlinear_arith);
                }
                Some(
                    ImageTexture {
                        data,
                        width,
                        height,
                        bytes_per_scanline: 3 * width,
                    },
                )
            },
            None => None,
        }
    }

    /// Look the pixel up: clamp the coordinates, flip `v`, scale to the
    /// pixel grid, and map each byte channel to Q16.16 exactly.
    pub fn value(&self, u: i64, v: i64) -> (r: Vec3)
        requires
            image_wf(*self),
        ensures
            ({
                let col = image_col(*self, u as int);
                let row = image_row(*self, v as int);
                let idx = self.bytes_per_scanline * row + 3 * col;
                &&& r.x == byte_to_q16(self.data[idx] as int)
                &&& r.y == byte_to_q16(self.data[idx + 1] as int)
                &&& r.z == byte_to_q16(self.data[idx + 2] as int)
            }),
            color_wf(r),
    {
        let uu: u64 = if u < 0 {
            0
        } else if u > UNIT {
            UNIT as u64
        } else {
            u as u64
        };
        let vv: u64 = if v < 0 {
            UNIT as u64
        } else if v > UNIT {
            0
        } else {
            (UNIT - v) as u64
        };
        proof {
            assert(uu * self.width <= 0x1_0000_0000 && vv * self.height <= 0x1_0000_0000)
                by (nonlinear_arith)
                requires
                    uu <= 0x1_0000,
                    vv <= 0x1_0000,
                    self.width <= 0x1_0000,
                    self.height <= 0x1_0000,
            ;
        }
        let mut col = (uu * (self.width as u64) / (UNIT as u64)) as usize;
        if col >= self.width {
            col = self.width - 1;
        }
        let mut row = (vv * (self.height as u64) / (UNIT as u64)) as usize;
        if row >= self.height {
            row = self.height - 1;
        }
        proof {
            assert(col as int == image_col(*self, u as int));
            assert(row as int == image_row(*self, v as int));
            lemma_image_index(*self, col as int, row as int);
        }
        let idx = self.bytes_per_scanline * row + 3 * col;
        let r = Vec3 {
            x: ((self.data[idx] as u64) * (UNIT as u64) / 255) as i64,
            y: ((self.data[idx + 1] as u64) * (UNIT as u64) / 255) as i64,
            z: ((self.data[idx + 2] as u64) * (UNIT as u64) / 255) as i64,
        };
        proof {
            lemma_byte_scale(self.data[idx as int] as int);
            lemma_byte_scale(self.data[idx + 1] as int);
            lemma_byte_scale(self.data[idx + 2] as int);
        }
        r
    }
}

/// A pixel index stays within the buffer.
proof fn lemma_image_index(t: ImageTexture, col: int, row: int)
    requires
        image_wf(t),
        0 <= col < t.width,
        0 <= row < t.height,
    ensures
        0 <= t.bytes_per_scanline * row,
        t.bytes_per_scanline * row + 3 * col + 2 < t.data.len(),
        t.bytes_per_scanline * row + 3 * col + 2 < usize::MAX,
{
    assert(0 <= (3 * t.width) * row && (3 * t.width) * row + 3 * col + 2 < (3 * t.width) * t.height)
        by (nonlinear_arith)
        requires
            0 <= col < t.width,
            0 <= row < t.height,
            t.width > 0,
    ;
    assert(t.data.len() == (3 * t.width) * t.height);
}

/// The byte scale lands in `[0, UNIT]`.
proof fn lemma_byte_scale(b: int)
    requires
        0 <= b < 256,
    ensures
        0 <= b * UNIT / 255 <= UNIT,
        b * UNIT == (b as i64) * UNIT,
{
    assert(0 <= b * UNIT <= 255 * UNIT) by (nonlinear_arith)
        requires
            0 <= b < 256,
            UNIT == 0x1_0000,
    ;
}

/// The texture registry: a flat arena indexed by the materials.
pub enum TextureKind {
    Solid(SolidColor),
    Checker(CheckerTexture),
    Image(ImageTexture),
}

pub struct Textures {
    pub kinds: Vec<TextureKind>,
}

pub open spec fn texture_kind_wf(t: TextureKind) -> bool {
    match t {
        TextureKind::Solid(s) => color_wf(s.color_value),
        TextureKind::Checker(c) => color_wf(c.odd.color_value) && color_wf(c.even.color_value),
        TextureKind::Image(img) => image_wf(img),
    }
}

pub open spec fn textures_wf(ts: Textures) -> bool {
    forall|i: int| 0 <= i < ts.kinds.len() ==> texture_kind_wf(#[trigger] ts.kinds[i])
}

/// The color a texture yields at Q16.16 coordinates `(u, v)`; the
/// checker answers its even color here (its sign bit is trigonometric
/// and supplied by the shell through `value_from_sign`), and a missing
/// index yields black.
pub open spec fn texture_value(ts: Textures, idx: int, u: int, v: int) -> Vec3 {
    if 0 <= idx < ts.kinds.len() {
        match ts.kinds[idx] {
            TextureKind::Solid(s) => s.color_value,
            TextureKind::Checker(c) => c.even.color_value,
            TextureKind::Image(img) => {
                let col = image_col(img, u);
                let row = image_row(img, v);
                let i = img.bytes_per_scanline * row + 3 * col;
                Vec3 {
                    x: byte_to_q16(img.data[i] as int) as i64,
                    y: byte_to_q16(img.data[i + 1] as int) as i64,
                    z: byte_to_q16(img.data[i + 2] as int) as i64,
                }
            },
        }
    } else {
        Vec3 { x: 0, y: 0, z: 0 }
    }
}

impl Textures {
    pub fn new() -> (ts: Textures)
        ensures
            ts.kinds@.len() == 0,
            textures_wf(ts),
    {
        Textures { kinds: Vec::new() }
    }

    pub fn add(&mut self, kind: TextureKind)
        requires
            texture_kind_wf(kind),
        ensures
            final(self).kinds@ =~= old(self).kinds@.push(kind),
    {
        self.kinds.push(kind);
    }

    /// Evaluate the texture with the given index.
    pub fn value(&self, idx: usize, u: i64, v: i64) -> (r: Vec3)
        requires
            textures_wf(*self),
        ensures
            r == texture_value(*self, idx as int, u as int, v as int),
            color_wf(r),
    {
        if idx < self.kinds.len() {
            match &self.kinds[idx] {
                TextureKind::Solid(s) => s.value(u, v),
                TextureKind::Checker(c) => c.value_from_sign(false),
                TextureKind::Image(img) => img.value(u, v),
            }
        } else {
            Vec3 { x: 0, y: 0, z: 0 }
        }
    }
}

} // verus!
