//! An image ready to be shown: one number per pixel.

use vstd::prelude::*;
use crate::scorpion::metadata::Metadata;

verus! {

/// An image as the window wants it, with what is known of its file.
pub struct ImageData {
    buffer: Vec<u32>,
    width: usize,
    height: usize,
    metadata: Metadata,
}

/// One pixel as the window wants it: alpha, red, green and blue, eight bits
/// each, alpha highest.
pub open spec fn packed(r: u8, g: u8, b: u8, a: u8) -> u32 {
    ((a as u32) << 24) | ((r as u32) << 16) | ((g as u32) << 8) | (b as u32)
}

/// The pixels of an image given as bytes, four per pixel in the order red,
/// green, blue, alpha; bytes left over at the end are dropped.
pub open spec fn packed_pixels(rgba: Seq<u8>) -> Seq<u32> {
    Seq::new(
        rgba.len() / 4,
        |i: int| packed(rgba[4 * i], rgba[4 * i + 1], rgba[4 * i + 2], rgba[4 * i + 3]),
    )
}

/// The pixel of the source that shows at column `x`, row `y` of a target of
/// `target_width` by `target_height`: the nearest one up and to the left,
/// and 0 where the source has no pixel there.
pub open spec fn scaled_pixel(
    buffer: Seq<u32>,
    width: int,
    height: int,
    target_width: int,
    target_height: int,
    x: int,
    y: int,
) -> u32 {
    let src_x = (x * width) / target_width;
    let src_y = (y * height) / target_height;
    let src_idx = src_y * width + src_x;
    if 0 <= src_idx < buffer.len() {
        buffer[src_idx]
    } else {
        0
    }
}

/// The source scaled to `target_width` by `target_height`, row by row.
pub open spec fn scaled(
    buffer: Seq<u32>,
    width: int,
    height: int,
    target_width: int,
    target_height: int,
) -> Seq<u32> {
    Seq::new(
        (target_width * target_height) as nat,
        |i: int|
            scaled_pixel(
                buffer,
                width,
                height,
                target_width,
                target_height,
                i % target_width,
                i / target_width,
            ),
    )
}

/// Packs one pixel.
pub fn pack_pixel(r: u8, g: u8, b: u8, a: u8) -> (p: u32)
    ensures
        p == packed(r, g, b, a),
{
    ((a as u32) << 24) | ((r as u32) << 16) | ((g as u32) << 8) | (b as u32)
}

/// Packs the pixels of an image given as bytes, four per pixel.
pub fn pack_pixels(rgba: &[u8]) -> (pixels: Vec<u32>)
    ensures
        pixels@ == packed_pixels(rgba@),
{
    let len: usize = rgba.len();
    let n: usize = len / 4;
    let mut pixels: Vec<u32> = Vec::new();
    let mut i: usize = 0;
    while i < n
        invariant
            len == rgba@.len(),
            n == len / 4,
            i <= n,
            pixels@.len() == i,
            forall|j: int|
                0 <= j < i ==> pixels@[j] == packed(
                    rgba@[4 * j],
                    rgba@[4 * j + 1],
                    rgba@[4 * j + 2],
                    rgba@[4 * j + 3],
                ),
        decreases n - i,
    {
        pixels.push(pack_pixel(rgba[4 * i], rgba[4 * i + 1], rgba[4 * i + 2], rgba[4 * i + 3]));
        i += 1;
    }
    assert(pixels@ =~= packed_pixels(rgba@));
    pixels
}

impl ImageData {
    /// The pixels, row by row.
    pub closed spec fn pixels(&self) -> Seq<u32> {
        self.buffer@
    }

    /// Width in pixels.
    pub closed spec fn spec_width(&self) -> usize {
        self.width
    }

    /// Height in pixels.
    pub closed spec fn spec_height(&self) -> usize {
        self.height
    }

    /// What is known of the file.
    pub closed spec fn spec_metadata(&self) -> Metadata {
        self.metadata
    }

    /// An image of `width` by `height` from its bytes, four per pixel in the
    /// order red, green, blue, alpha.
    pub fn from_rgba(rgba: &[u8], width: u32, height: u32, metadata: Metadata) -> (image: Self)
        ensures
            image.pixels() == packed_pixels(rgba@),
            image.spec_width() == width,
            image.spec_height() == height,
            image.spec_metadata() == metadata,
    {
        ImageData {
            buffer: pack_pixels(rgba),
            width: width as usize,
            height: height as usize,
            metadata,
        }
    }

    /// Width in pixels.
    #[verifier::when_used_as_spec(spec_width)]
    pub fn width(&self) -> (w: usize)
        ensures
            w == self.spec_width(),
    {
        self.width
    }

    /// Height in pixels.
    #[verifier::when_used_as_spec(spec_height)]
    pub fn height(&self) -> (h: usize)
        ensures
            h == self.spec_height(),
    {
        self.height
    }

    /// What is known of the file.
    pub fn metadata(&self) -> (m: &Metadata)
        ensures
            *m == self.spec_metadata(),
    {
        &self.metadata
    }

    /// Scales the image to the space kept for it: each target pixel shows the
    /// source pixel at the same relative place.
    pub fn get_scaled_buffer(&self, target_width: usize, target_height: usize) -> (out: Vec<u32>)
        requires
            target_width * target_height <= usize::MAX,
        ensures
            out@ == scaled(
                self.pixels(),
                self.spec_width() as int,
                self.spec_height() as int,
                target_width as int,
                target_height as int,
            ),
    {
        let total: usize = target_width * target_height;
        let mut out: Vec<u32> = vec![0u32; total];
        let ghost wanted = scaled(
            self.pixels(),
            self.width as int,
            self.height as int,
            target_width as int,
            target_height as int,
        );
        let mut y: usize = 0;
        while y < target_height
            invariant
                total == target_width * target_height,
                out@.len() == total,
                wanted == scaled(
                    self.pixels(),
                    self.width as int,
                    self.height as int,
                    target_width as int,
                    target_height as int,
                ),
                y <= target_height,
                forall|i: int| 0 <= i < y * target_width ==> out@[i] == wanted[i],
            decreases target_height - y,
        {
            let mut x: usize = 0;
            while x < target_width
                invariant
                    total == target_width * target_height,
                    out@.len() == total,
                    wanted == scaled(
                        self.pixels(),
                        self.width as int,
                        self.height as int,
                        target_width as int,
                        target_height as int,
                    ),
                    y < target_height,
                    x <= target_width,
                    forall|i: int| 0 <= i < y * target_width + x ==> out@[i] == wanted[i],
                decreases target_width - x,
            {
                proof {
                    lemma_cell_index(x as int, y as int, target_width as int, target_height as int);
                }
                let dst_idx: usize = y * target_width + x;
                let pixel: u32 = self.source_pixel(target_width, target_height, x, y);
                out[dst_idx] = pixel;
                x += 1;
            }
            proof {
                assert(y * target_width + target_width == (y + 1) * target_width)
                    by (nonlinear_arith);
            }
            y += 1;
        }
        assert(out@ =~= wanted);
        out
    }

    /// The source pixel that shows at column `x`, row `y` of the target.
    fn source_pixel(&self, target_width: usize, target_height: usize, x: usize, y: usize) -> (p:
        u32)
        requires
            x < target_width,
            y < target_height,
        ensures
            p == scaled_pixel(
                self.pixels(),
                self.width as int,
                self.height as int,
                target_width as int,
                target_height as int,
                x as int,
                y as int,
            ),
    {
        let src_x: u128 = wide_product(x, self.width) / (target_width as u128);
        let src_y: u128 = wide_product(y, self.height) / (target_height as u128);
        assert(src_y <= self.height) by (nonlinear_arith)
            requires
                src_y == (y * self.height) / (target_height as int),
                0 <= y < target_height,
                0 <= self.height,
        ;
        assert(src_x <= self.width) by (nonlinear_arith)
            requires
                src_x == (x * self.width) / (target_width as int),
                0 <= x < target_width,
                0 <= self.width,
        ;
        let row: u128 = wide_product(src_y as usize, self.width);
        let src_idx: u128 = row + src_x;
        if src_idx < self.buffer.len() as u128 {
            self.buffer[src_idx as usize]
        } else {
            0
        }
    }
}

/// `a * b`, which always fits in 128 bits.
fn wide_product(a: usize, b: usize) -> (p: u128)
    ensures
        p == a * b,
        p <= 0xffff_ffff_ffff_ffff * 0xffff_ffff_ffff_ffff,
{
    assert(a * b <= 0xffff_ffff_ffff_ffff * 0xffff_ffff_ffff_ffff) by (nonlinear_arith)
        requires
            0 <= a <= 0xffff_ffff_ffff_ffff,
            0 <= b <= 0xffff_ffff_ffff_ffff,
    ;
    (a as u128) * (b as u128)
}

/// The cell at column `x`, row `y` of a grid `w` wide and `h` high is cell
/// `y * w + x` counted row by row, and that count gives the column and the
/// row back.
pub proof fn lemma_cell_index(x: int, y: int, w: int, h: int)
    requires
        0 <= x < w,
        0 <= y < h,
    ensures
        0 <= y * w + x < w * h,
        (y * w + x) % w == x,
        (y * w + x) / w == y,
{
    assert(0 <= y * w + x < w * h) by (nonlinear_arith)
        requires
            0 <= x < w,
            0 <= y < h,
    ;
    vstd::arithmetic::div_mod::lemma_fundamental_div_mod_converse(y * w + x, w, y, x);
}

} // verus!
