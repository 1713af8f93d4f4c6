//! A measurement as a picture: the avalanche matrix on the left, the tree
//! matrix on the right, one square of pixels for each cell.

use crate::stats::{Stats, Tally};
use vstd::prelude::*;

verus! {

/// The side of a cell's square, in pixels.
pub const BIT_PIXEL_SIZE: usize = 8;

/// The picture's width in pixels: two matrices side by side.
pub const WIDTH: usize = 512;

/// The picture's height in pixels.
pub const HEIGHT: usize = 256;

/// The picture's size in bytes: four for each pixel.
pub const IMAGE_BYTES: usize = 524288;

/// The brightness, from 0 to 255, of the fraction `num / den` cut off at 1.
/// Where nothing was sampled the picture is black.
pub open spec fn shade(num: nat, den: nat) -> nat {
    if den == 0 {
        0
    } else if num >= den {
        255
    } else {
        255 * num / den
    }
}

/// The brightness of the pixel in column `x` and row `y`. A cell's row is
/// the input bit or the first bin coordinate, and its square lies that far
/// down; the avalanche bias is shown as it is, the tree matrix by its
/// density.
pub open spec fn pixel_shade(t: Tally, x: int, y: int) -> nat {
    let row = y / 8;
    let col = x / 8;
    if col < 32 {
        shade(t.bias(row, col), t.samples)
    } else {
        shade(t.density(row, col - 32), t.samples)
    }
}

/// Byte `i` of the picture: red, green and blue hold the pixel's brightness,
/// and the fourth byte makes it opaque.
pub open spec fn image_byte(t: Tally, i: int) -> u8 {
    if i % 4 == 3 {
        255
    } else {
        pixel_shade(t, (i / 4) % 512, (i / 4) / 512) as u8
    }
}

/// The picture of `t`, row by row from the top, four bytes for each pixel.
pub open spec fn rendered(t: Tally) -> Seq<u8> {
    Seq::new(524288, |i: int| image_byte(t, i))
}

/// The brightness of the fraction `num / den`.
pub fn shade_of(num: u128, den: u128) -> (s: u8)
    requires
        num <= 1024 * u64::MAX,
    ensures
        s == shade(num as nat, den as nat),
{
    if den == 0 {
        0
    } else if num >= den {
        255
    } else {
        assert((255 * num) / (den as int) < 255) by (nonlinear_arith)
            requires
                0 <= num < den,
        ;
        (255 * num / den) as u8
    }
}

/// Renders `stats` as a picture of `WIDTH` by `HEIGHT` pixels.
pub fn render(stats: &Stats) -> (image: Vec<u8>)
    ensures
        image@ == rendered(stats@),
{
    let mut image: Vec<u8> = Vec::with_capacity(IMAGE_BYTES);
    let mut y: usize = 0;
    while y < 256
        invariant
            y <= 256,
            image@.len() == 4 * (y * 512),
            forall|i: int| 0 <= i < image@.len() ==> image@[i] == image_byte(stats@, i),
        decreases 256 - y,
    {
        let mut x: usize = 0;
        while x < 512
            invariant
                x <= 512,
                y < 256,
                image@.len() == 4 * (y * 512 + x),
                forall|i: int| 0 <= i < image@.len() ==> image@[i] == image_byte(stats@, i),
            decreases 512 - x,
        {
            let row = y / 8;
            let col = x / 8;
            let fraction = if col < 32 {
                stats.avalanche_bias(row, col)
            } else {
                stats.tree_density(row, col - 32)
            };
            let color = shade_of(fraction.numerator, fraction.denominator);
            let ghost base = image@.len() as int;
            assert(base / 4 == y * 512 + x);
            assert((y * 512 + x) % 512 == x && (y * 512 + x) / 512 == y);
            assert(color == pixel_shade(stats@, x as int, y as int));
            image.push(color);
            image.push(color);
            image.push(color);
            image.push(0xff);
            assert forall|i: int| base <= i < base + 4 implies image@[i] == image_byte(
                stats@,
                i,
            ) by {
                assert(i / 4 == base / 4);
            }
            x += 1;
        }
        y += 1;
    }
    assert(image@ =~= rendered(stats@));
    image
}

/// How far a dot reaches from its centre, in pixels.
pub const PLOT_RADIUS: usize = 2;

/// Whether the pixel in column `xx` and row `yy` is no farther than
/// `PLOT_RADIUS` from the one in column `x` and row `y`.
pub open spec fn in_dot(x: int, y: int, xx: int, yy: int) -> bool {
    (x - xx) * (x - xx) + (y - yy) * (y - yy) <= 4
}

/// Byte `c` of a pixel of a dot: black and opaque.
pub open spec fn ink(c: int) -> u8 {
    if c == 3 {
        255
    } else {
        0
    }
}

/// The picture `before` of `width` pixels a row, with a dot around column
/// `x` and row `y`: the pixels of the picture that the dot covers are inked,
/// the others are left.
pub open spec fn dotted(before: Seq<u8>, width: int, x: int, y: int) -> Seq<u8> {
    Seq::new(
        before.len(),
        |i: int|
            if in_dot(x, y, (i / 4) % width, (i / 4) / width) {
                ink(i % 4)
            } else {
                before[i]
            },
    )
}

/// The pixel in column `xx` and row `yy` has its own place in the picture,
/// from which its column and row can be read back.
proof fn lemma_pixel_place(width: int, height: int, xx: int, yy: int)
    requires
        0 <= xx < width,
        0 <= yy < height,
    ensures
        0 <= yy * width,
        0 <= yy * width + xx < width * height,
        (yy * width + xx) % width == xx,
        (yy * width + xx) / width == yy,
{
    vstd::arithmetic::div_mod::lemma_fundamental_div_mod_converse(yy * width + xx, width, yy, xx);
    assert(yy * width + xx < width * height) by (nonlinear_arith)
        requires
            0 <= xx < width,
            0 <= yy < height,
    ;
    assert(0 <= yy * width) by (nonlinear_arith)
        requires
            0 <= yy,
            0 <= width,
    ;
}

/// A dot reaches no farther than its radius along either axis.
proof fn lemma_dot_reach(x: int, y: int, xx: int, yy: int)
    requires
        in_dot(x, y, xx, yy),
    ensures
        x - 2 <= xx <= x + 2,
        y - 2 <= yy <= y + 2,
{
    assert(x - 2 <= xx <= x + 2 && y - 2 <= yy <= y + 2) by (nonlinear_arith)
        requires
            (x - xx) * (x - xx) + (y - yy) * (y - yy) <= 4,
    ;
}

/// Whether the pixel in column `xx` and row `yy` is within the dot around
/// the one in column `x` and row `y`.
pub fn within_dot(x: usize, y: usize, xx: usize, yy: usize) -> (r: bool)
    ensures
        r == in_dot(x as int, y as int, xx as int, yy as int),
{
    let dx = if x >= xx {
        x - xx
    } else {
        xx - x
    };
    let dy = if y >= yy {
        y - yy
    } else {
        yy - y
    };
    if dx <= PLOT_RADIUS && dy <= PLOT_RADIUS {
        assert(dx * dx <= 4 && dy * dy <= 4 && dx * dx + dy * dy == (x - xx) * (x - xx) + (y - yy)
            * (y - yy)) by (nonlinear_arith)
            requires
                0 <= dx <= 2,
                0 <= dy <= 2,
                dx == x - xx || dx == xx - x,
                dy == y - yy || dy == yy - y,
        ;
        dx * dx + dy * dy <= PLOT_RADIUS * PLOT_RADIUS
    } else {
        assert(!in_dot(x as int, y as int, xx as int, yy as int)) by {
            if in_dot(x as int, y as int, xx as int, yy as int) {
                lemma_dot_reach(x as int, y as int, xx as int, yy as int);
            }
        }
        false
    }
}

/// The plotting of a dot on its way: the picture's width, the dot's centre,
/// the columns and the first row that are gone through, and the pixel that
/// comes next.
struct Sweep {
    width: int,
    x: int,
    y: int,
    min_x: int,
    max_x: int,
    min_y: int,
    at_x: int,
    at_y: int,
}

impl Sweep {
    /// The same plotting with the pixel in column `xx` and row `yy` next.
    spec fn at(self, xx: int, yy: int) -> Sweep {
        Sweep { at_x: xx, at_y: yy, ..self }
    }

    /// Whether the plotting has come past the pixel in column `xx` and row
    /// `yy`, going row by row through its columns.
    spec fn past(self, xx: int, yy: int) -> bool {
        self.min_x <= xx < self.max_x && self.min_y <= yy && (yy < self.at_y || (yy == self.at_y
            && xx < self.at_x))
    }

    /// Byte `i` of the picture `before` as the plotting has left it: inked
    /// if its pixel is in the dot and the plotting has come past it.
    spec fn byte(self, before: Seq<u8>, i: int) -> u8 {
        let xx = (i / 4) % self.width;
        let yy = (i / 4) / self.width;
        if in_dot(self.x, self.y, xx, yy) && self.past(xx, yy) {
            ink(i % 4)
        } else {
            before[i]
        }
    }

    /// Whether `image` is the picture `before` as the plotting has left it.
    spec fn holds(self, image: Seq<u8>, before: Seq<u8>) -> bool {
        &&& image.len() == before.len()
        &&& forall|i: int| 0 <= i < before.len() ==> #[trigger] image[i] == self.byte(before, i)
    }
}

/// Draws a black dot around the pixel in column `x` and row `y` of a
/// picture of `width` by `height` pixels. The centre may lie outside the
/// picture: what of the dot lies inside is drawn.
pub fn plot_dot(image: &mut Vec<u8>, width: usize, height: usize, x: usize, y: usize)
    requires
        old(image)@.len() == width * height * 4,
    ensures
        final(image)@ == dotted(old(image)@, width as int, x as int, y as int),
{
    let min_x = x.saturating_sub(PLOT_RADIUS);
    let min_y = y.saturating_sub(PLOT_RADIUS);
    let far_x = x.saturating_add(PLOT_RADIUS + 1);
    let far_y = y.saturating_add(PLOT_RADIUS + 1);
    let max_x = if far_x < width {
        far_x
    } else {
        width
    };
    let max_y = if far_y < height {
        far_y
    } else {
        height
    };
    let ghost before = image@;
    let ghost sweep = Sweep {
        width: width as int,
        x: x as int,
        y: y as int,
        min_x: min_x as int,
        max_x: max_x as int,
        min_y: min_y as int,
        at_x: min_x as int,
        at_y: min_y as int,
    };
    let mut yy = min_y;
    while yy < max_y
        invariant
            min_y <= yy,
            max_y <= height,
            max_x <= width,
            image.len() == width * height * 4,
            before.len() == width * height * 4,
            sweep.width == width && sweep.x == x && sweep.y == y,
            sweep.min_x == min_x && sweep.max_x == max_x && sweep.min_y == min_y,
            sweep.at(min_x as int, yy as int).holds(image@, before),
        decreases max_y - yy,
    {
        let mut xx = min_x;
        while xx < max_x
            invariant
                min_x <= xx,
                min_y <= yy < max_y,
                max_y <= height,
                max_x <= width,
                image.len() == width * height * 4,
                before.len() == width * height * 4,
                sweep.width == width && sweep.x == x && sweep.y == y,
                sweep.min_x == min_x && sweep.max_x == max_x && sweep.min_y == min_y,
                sweep.at(xx as int, yy as int).holds(image@, before),
            decreases max_x - xx,
        {
            proof {
                lemma_pixel_place(width as int, height as int, xx as int, yy as int);
            }
            let place = yy * width + xx;
            let ghost earlier = image@;
            if within_dot(x, y, xx, yy) {
                image[place * 4] = 0x00;
                image[place * 4 + 1] = 0x00;
                image[place * 4 + 2] = 0x00;
                image[place * 4 + 3] = 0xff;
            }
            assert forall|i: int| 0 <= i < before.len() implies #[trigger] image@[i] == sweep.at(
                xx + 1,
                yy as int,
            ).byte(before, i) by {
                assert(earlier[i] == sweep.at(xx as int, yy as int).byte(before, i));
                if i / 4 != place && (i / 4) / (width as int) == yy && (i / 4) % (width as int)
                    == xx {
                    vstd::arithmetic::div_mod::lemma_fundamental_div_mod(i / 4, width as int);
                    assert(width * ((i / 4) / (width as int)) == yy * width) by (nonlinear_arith)
                        requires
                            (i / 4) / (width as int) == yy,
                    ;
                }
            }
            xx += 1;
        }
        assert forall|i: int| 0 <= i < before.len() implies #[trigger] image@[i] == sweep.at(
            min_x as int,
            yy + 1,
        ).byte(before, i) by {
            assert(image@[i] == sweep.at(max_x as int, yy as int).byte(before, i));
        }
        yy += 1;
    }
    assert forall|i: int| 0 <= i < before.len() implies #[trigger] image@[i] == dotted(
        before,
        width as int,
        x as int,
        y as int,
    )[i] by {
        assert(image@[i] == sweep.at(min_x as int, yy as int).byte(before, i));
        let px = (i / 4) % (width as int);
        let py = (i / 4) / (width as int);
        if in_dot(x as int, y as int, px, py) {
            lemma_dot_reach(x as int, y as int, px, py);
            assert(width > 0) by (nonlinear_arith)
                requires
                    0 <= i < width * height * 4,
                    width >= 0,
                    height >= 0,
            ;
            assert(0 <= px < width);
            assert(py < height) by (nonlinear_arith)
                requires
                    0 <= i < width * height * 4,
                    py == (i / 4) / (width as int),
                    width > 0,
            ;
        }
    }
    assert(image@ =~= dotted(before, width as int, x as int, y as int));
}

/// The bytes of the PNG file that the encoder makes of a picture of
/// `width` by `height` pixels.
pub uninterp spec fn png_encoding(image: Seq<u8>, width: u32, height: u32) -> Seq<u8>;

/// Whether a picture of `len` bytes can be encoded as `width` by `height`
/// pixels: it has a pixel at least, four bytes for each, and its rows with
/// one more byte each fit the encoder's 32-bit arithmetic.
pub open spec fn encodable(len: nat, width: u32, height: u32) -> bool {
    &&& width >= 1
    &&& height >= 1
    &&& len == width * height * 4
    &&& (width * 4 + 1) * height <= u32::MAX
}

/// The bytes that `file` holds, if it is one.
pub open spec fn bytes_of(file: Option<Vec<u8>>) -> Option<Seq<u8>> {
    match file {
        Some(bytes) => Some(bytes@),
        None => None,
    }
}

/// `png_encode_mini::write_rgba_from_u8`, writing into a new vector: the
/// signature, a header with the width and the height, the rows from the last
/// to the first as stored data with its checksums, and the end mark. It reads
/// nothing but its three arguments, so the file's bytes depend on them alone;
/// the contract gives them a name and says no more of them. The encoder hands
/// on an error of its writer and has no other; its writer here is a vector,
/// which std documents to take a write by appending and growing as needed,
/// so the contract says that a file comes back. The encoder stops on sizes
/// that do not belong together and on a picture without pixels, which
/// `requires` leaves out.
#[verifier::external_body]
fn write_png(image: &Vec<u8>, width: u32, height: u32) -> (out: Option<Vec<u8>>)
    requires
        encodable(image@.len(), width, height),
    ensures
        bytes_of(out) == Some(png_encoding(image@, width, height)),
{
    let mut out: Vec<u8> = Vec::new();
    match png_encode_mini::write_rgba_from_u8(&mut out, image.as_slice(), width, height) {
        Ok(()) => Some(out),
        Err(_) => None,
    }
}

/// What `encode_rgba` returns: the file where the picture can be encoded,
/// and nothing where it cannot.
pub open spec fn encoded(image: Seq<u8>, width: u32, height: u32) -> Option<Seq<u8>> {
    if encodable(image.len(), width, height) {
        Some(png_encoding(image, width, height))
    } else {
        None
    }
}

/// Encodes a picture of `width` by `height` pixels, four bytes each, as a
/// PNG file. Returns nothing where the picture cannot be encoded.
pub fn encode_rgba(image: &Vec<u8>, width: u32, height: u32) -> (out: Option<Vec<u8>>)
    ensures
        bytes_of(out) == encoded(image@, width, height),
{
    if width == 0 || height == 0 {
        return None;
    }
    let w = width as u128;
    let h = height as u128;
    assert(0 <= (w * 4 + 1) * h <= 0x4_0000_0000 * 0x1_0000_0000 && 0 <= w * h * 4 < (w * 4 + 1)
        * h) by (nonlinear_arith)
        requires
            1 <= w <= 0xffff_ffff,
            1 <= h <= 0xffff_ffff,
    ;
    if (w * 4 + 1) * h > 0xffff_ffff {
        return None;
    }
    if image.len() as u128 != w * h * 4 {
        return None;
    }
    write_png(image, width, height)
}

/// Renders `stats` and encodes the picture as a PNG file. The picture is of
/// a size that can be encoded, so a file always comes back.
pub fn stats_png(stats: &Stats) -> (out: Option<Vec<u8>>)
    ensures
        bytes_of(out) == Some(png_encoding(rendered(stats@), 512, 256)),
{
    let image = render(stats);
    encode_rgba(&image, 512, 256)
}

} // verus!
