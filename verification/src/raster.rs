//! The raster model of the pipeline: an 8-bit RGB image stored as one flat
//! byte vector, with the pixel operations the compositors need — filling,
//! rendering a module grid, multiplicative channel blending, nearest-neighbour
//! scaling and placing one raster onto another.

use vstd::prelude::*;

use crate::constants::QR_MAX_WIDTH;

verus! {

/// An 8-bit-per-channel RGB colour.
#[derive(Copy, Clone, Debug, PartialEq, Eq, Structural)]
pub struct Color {
    pub r: u8,
    pub g: u8,
    pub b: u8,
}

/// Channel `c` of a colour: 0 is red, 1 is green, 2 is blue.
pub open spec fn color_chan(col: Color, c: int) -> u8 {
    if c == 0 {
        col.r
    } else if c == 1 {
        col.g
    } else {
        col.b
    }
}

/// One RGB raster. `pixels` holds the rows top to bottom, three bytes per
/// pixel in channel order red, green, blue.
pub struct Image {
    pub width: usize,
    pub height: usize,
    pub pixels: Vec<u8>,
}

impl Image {
    /// The raster is well formed: exactly three bytes for every pixel.
    pub open spec fn wf(self) -> bool {
        self.pixels@.len() == 3 * self.width * self.height
    }

    /// Channel `c` (0 red, 1 green, 2 blue) of the pixel at column `x`,
    /// row `y`.
    pub open spec fn chan(self, x: int, y: int, c: int) -> u8 {
        self.pixels@[3 * (y * self.width + x) + c]
    }

    /// Both rasters have the same pixel dimensions.
    pub open spec fn same_dims(self, other: Image) -> bool {
        self.width == other.width && self.height == other.height
    }
}

/// The flat index of a channel of an in-range pixel lies inside the pixel
/// vector of a well-formed raster.
pub proof fn lemma_pixel_index(w: int, h: int, x: int, y: int, c: int)
    requires
        0 <= x < w,
        0 <= y < h,
        0 <= c < 3,
    ensures
        0 <= y * w,
        0 <= y * w + x < w * h,
        w * h <= 3 * w * h,
        0 <= 3 * (y * w + x) + c,
        3 * (y * w + x) + c < 3 * w * h,
        3 * (w * h) == 3 * w * h,
        (3 * (y * w + x) + c) % 3 == c,
        (3 * (y * w + x) + c) / 3 == y * w + x,
        (y * w + x) % w == x,
        (y * w + x) / w == y,
{
    assert(0 <= y * w && y * w + x < w * h && w * h <= 3 * w * h && 3 * (y * w + x) + c < 3 * w * h
        && 3 * (w * h) == 3 * w * h && (3 * (y * w + x) + c) % 3 == c && (3 * (y * w + x) + c) / 3
        == y * w + x && (y * w + x) % w == x && (y * w + x) / w == y) by (nonlinear_arith)
        requires
            0 <= x < w,
            0 <= y < h,
            0 <= c < 3,
    ;
}

/// The residues modulo three of the three channel slots of one pixel.
pub proof fn lemma_mod3(m: int)
    requires
        0 <= m,
    ensures
        (3 * m) % 3 == 0,
        (3 * m + 1) % 3 == 1,
        (3 * m + 2) % 3 == 2,
        (3 * m) / 3 == m,
        (3 * m + 1) / 3 == m,
        (3 * m + 2) / 3 == m,
{
    assert((3 * m) % 3 == 0 && (3 * m + 1) % 3 == 1 && (3 * m + 2) % 3 == 2 && (3 * m) / 3 == m && (
    3 * m + 1) / 3 == m && (3 * m + 2) / 3 == m) by (nonlinear_arith)
        requires
            0 <= m,
    ;
}

/// Distinct in-range channel coordinates have distinct flat indices.
pub proof fn lemma_pixel_index_injective(
    w: int,
    x1: int,
    y1: int,
    c1: int,
    x2: int,
    y2: int,
    c2: int,
)
    requires
        0 <= x1 < w,
        0 <= x2 < w,
        0 <= y1,
        0 <= y2,
        0 <= c1 < 3,
        0 <= c2 < 3,
        3 * (y1 * w + x1) + c1 == 3 * (y2 * w + x2) + c2,
    ensures
        x1 == x2,
        y1 == y2,
        c1 == c2,
{
    assert(x1 == x2 && y1 == y2 && c1 == c2) by (nonlinear_arith)
        requires
            0 <= x1 < w,
            0 <= x2 < w,
            0 <= y1,
            0 <= y2,
            0 <= c1 < 3,
            0 <= c2 < 3,
            3 * (y1 * w + x1) + c1 == 3 * (y2 * w + x2) + c2,
    ;
}

/// A raster of the given dimensions with every pixel set to `fill`.
pub fn new_image(width: usize, height: usize, fill: Color) -> (r: Image)
    requires
        3 * (width as int) * (height as int) <= usize::MAX as int,
    ensures
        r.wf(),
        r.width == width,
        r.height == height,
        forall|x: int, y: int, c: int|
            0 <= x < width && 0 <= y < height && 0 <= c < 3 ==> r.chan(x, y, c) == color_chan(
                fill,
                c,
            ),
{
    proof {
        assert((width as int) * (height as int) <= 3 * (width as int) * (height as int))
            by (nonlinear_arith)
            requires
                width >= 0,
                height >= 0,
        ;
    }
    let n: usize = width * height;
    let mut pixels: Vec<u8> = Vec::new();
    let mut i: usize = 0;
    while i < n
        invariant
            i <= n,
            n == width * height,
            3 * (width as int) * (height as int) <= usize::MAX as int,
            pixels@.len() == 3 * i,
            forall|k: int|
                0 <= k < pixels@.len() ==> #[trigger] pixels@[k] == (if k % 3 == 0 {
                    fill.r
                } else if k % 3 == 1 {
                    fill.g
                } else {
                    fill.b
                }),
        decreases n - i,
    {
        pixels.push(fill.r);
        pixels.push(fill.g);
        pixels.push(fill.b);
        proof {
            lemma_mod3(i as int);
        }
        i = i + 1;
    }
    let r = Image { width, height, pixels };
    proof {
        assert(3 * (width as int * height as int) == 3 * width * height) by (nonlinear_arith);
        assert(r.wf());
        assert forall|x: int, y: int, c: int|
            0 <= x < width && 0 <= y < height && 0 <= c < 3 implies r.chan(x, y, c) == color_chan(
            fill,
            c,
        ) by {
            lemma_pixel_index(width as int, height as int, x, y, c);
        }
    }
    r
}

/// Channel `c` of the pixel at `(x, y)`.
pub fn chan_at(img: &Image, x: usize, y: usize, c: usize) -> (v: u8)
    requires
        img.wf(),
        x < img.width,
        y < img.height,
        c < 3,
    ensures
        v == img.chan(x as int, y as int, c as int),
{
    proof {
        lemma_pixel_index(img.width as int, img.height as int, x as int, y as int, c as int);
    }
    let n = img.pixels.len();
    img.pixels[3 * (y * img.width + x) + c]
}

/// Overwrites the pixel at `(x, y)` with the three given channel values and
/// leaves every other pixel as it was.
pub fn set_pixel(img: &mut Image, x: usize, y: usize, v0: u8, v1: u8, v2: u8)
    requires
        old(img).wf(),
        x < old(img).width,
        y < old(img).height,
    ensures
        final(img).wf(),
        final(img).width == old(img).width,
        final(img).height == old(img).height,
        final(img).chan(x as int, y as int, 0) == v0,
        final(img).chan(x as int, y as int, 1) == v1,
        final(img).chan(x as int, y as int, 2) == v2,
        forall|xx: int, yy: int, cc: int|
            0 <= xx < old(img).width && 0 <= yy < old(img).height && 0 <= cc < 3 && !(xx == x && yy
                == y) ==> final(img).chan(xx, yy, cc) == old(img).chan(xx, yy, cc),
{
    proof {
        lemma_pixel_index(img.width as int, img.height as int, x as int, y as int, 0);
        lemma_pixel_index(img.width as int, img.height as int, x as int, y as int, 2);
    }
    let n = img.pixels.len();
    let base: usize = 3 * (y * img.width + x);
    img.pixels.set(base, v0);
    img.pixels.set(base + 1, v1);
    img.pixels.set(base + 2, v2);
    proof {
        assert forall|xx: int, yy: int, cc: int|
            0 <= xx < old(img).width && 0 <= yy < old(img).height && 0 <= cc < 3 && !(xx == x && yy
                == y) implies final(img).chan(xx, yy, cc) == old(img).chan(xx, yy, cc) by {
            lemma_pixel_index(img.width as int, img.height as int, xx, yy, cc);
            if 3 * (yy * img.width + xx) + cc == base + 0 {
                lemma_pixel_index_injective(img.width as int, xx, yy, cc, x as int, y as int, 0);
            }
            if 3 * (yy * img.width + xx) + cc == base + 1 {
                lemma_pixel_index_injective(img.width as int, xx, yy, cc, x as int, y as int, 1);
            }
            if 3 * (yy * img.width + xx) + cc == base + 2 {
                lemma_pixel_index_injective(img.width as int, xx, yy, cc, x as int, y as int, 2);
            }
        }
    }
}

/// Multiplicative blend of two channel values: `(a * b) / 255`, the
/// subtractive-light approximation used for two-channel symbols.
pub open spec fn blend2_spec(a: u8, b: u8) -> u8 {
    ((a * b) / 255) as u8
}

/// Multiplicative blend of three channel values: `(a * b * c) / (255 * 255)`.
pub open spec fn blend3_spec(a: u8, b: u8, c: u8) -> u8 {
    ((a * b * c) / 65025) as u8
}

/// Multiplicative blending never increases a channel: the blend of two
/// values is at most the smaller of them.
pub proof fn lemma_blend2_le(a: u8, b: u8)
    ensures
        blend2_spec(a, b) <= a,
        blend2_spec(a, b) <= b,
{
    assert((a * b) / 255 <= a && (a * b) / 255 <= b) by (nonlinear_arith)
        requires
            a <= 255,
            b <= 255,
    ;
}

/// Multiplicative blending never increases a channel: the blend of three
/// values is at most the smallest of them.
pub proof fn lemma_blend3_le(a: u8, b: u8, c: u8)
    ensures
        blend3_spec(a, b, c) <= a,
        blend3_spec(a, b, c) <= b,
        blend3_spec(a, b, c) <= c,
{
    assert((a * b * c) / 65025 <= a && (a * b * c) / 65025 <= b && (a * b * c) / 65025 <= c)
        by (nonlinear_arith)
        requires
            a <= 255,
            b <= 255,
            c <= 255,
    ;
}

/// Multiplicative blend of two channel values.
pub fn blend2(a: u8, b: u8) -> (r: u8)
    ensures
        r == blend2_spec(a, b),
{
    proof {
        assert(a * b <= 255 * 255 && (a * b) / 255 <= 255) by (nonlinear_arith)
            requires
                a <= 255,
                b <= 255,
        ;
    }
    ((a as u16 * b as u16) / 255) as u8
}

/// Multiplicative blend of three channel values.
pub fn blend3(a: u8, b: u8, c: u8) -> (r: u8)
    ensures
        r == blend3_spec(a, b, c),
{
    proof {
        assert(a * b * c <= 255 * 255 * 255 && (a * b * c) / 65025 <= 255) by (nonlinear_arith)
            requires
                a <= 255,
                b <= 255,
                c <= 255,
        ;
        assert(a as int * b as int <= 255 * 255) by (nonlinear_arith)
            requires
                a <= 255,
                b <= 255,
        ;
    }
    ((a as u32 * b as u32 * c as u32) / 65025) as u8
}

/// Per-pixel multiplicative combination of two rasters of equal size. A dark
/// module in either source darkens the corresponding output channel, and a
/// combined channel never exceeds either input channel.
pub fn combine2(a: &Image, b: &Image) -> (r: Image)
    requires
        a.wf(),
        b.wf(),
        a.same_dims(*b),
    ensures
        r.wf(),
        r.same_dims(*a),
        forall|k: int|
            0 <= k < r.pixels@.len() ==> #[trigger] r.pixels@[k] == blend2_spec(
                a.pixels@[k],
                b.pixels@[k],
            ),
        forall|k: int|
            0 <= k < r.pixels@.len() ==> #[trigger] r.pixels@[k] <= a.pixels@[k] && r.pixels@[k]
                <= b.pixels@[k],
{
    let n = a.pixels.len();
    let mut pixels: Vec<u8> = Vec::new();
    let mut k: usize = 0;
    while k < n
        invariant
            k <= n,
            n == a.pixels@.len(),
            b.pixels@.len() == n,
            pixels@.len() == k,
            forall|j: int|
                0 <= j < k ==> #[trigger] pixels@[j] == blend2_spec(a.pixels@[j], b.pixels@[j]),
        decreases n - k,
    {
        pixels.push(blend2(a.pixels[k], b.pixels[k]));
        k = k + 1;
    }
    let r = Image { width: a.width, height: a.height, pixels };
    proof {
        assert forall|j: int| 0 <= j < r.pixels@.len() implies #[trigger] r.pixels@[j]
            <= a.pixels@[j] && r.pixels@[j] <= b.pixels@[j] by {
            lemma_blend2_le(a.pixels@[j], b.pixels@[j]);
        }
    }
    r
}

/// Per-pixel multiplicative combination of three rasters of equal size.
pub fn combine3(a: &Image, b: &Image, c: &Image) -> (r: Image)
    requires
        a.wf(),
        b.wf(),
        c.wf(),
        a.same_dims(*b),
        a.same_dims(*c),
    ensures
        r.wf(),
        r.same_dims(*a),
        forall|k: int|
            0 <= k < r.pixels@.len() ==> #[trigger] r.pixels@[k] == blend3_spec(
                a.pixels@[k],
                b.pixels@[k],
                c.pixels@[k],
            ),
        forall|k: int|
            0 <= k < r.pixels@.len() ==> #[trigger] r.pixels@[k] <= a.pixels@[k] && r.pixels@[k]
                <= b.pixels@[k] && r.pixels@[k] <= c.pixels@[k],
{
    let n = a.pixels.len();
    let mut pixels: Vec<u8> = Vec::new();
    let mut k: usize = 0;
    while k < n
        invariant
            k <= n,
            n == a.pixels@.len(),
            b.pixels@.len() == n,
            c.pixels@.len() == n,
            pixels@.len() == k,
            forall|j: int|
                0 <= j < k ==> #[trigger] pixels@[j] == blend3_spec(
                    a.pixels@[j],
                    b.pixels@[j],
                    c.pixels@[j],
                ),
        decreases n - k,
    {
        pixels.push(blend3(a.pixels[k], b.pixels[k], c.pixels[k]));
        k = k + 1;
    }
    let r = Image { width: a.width, height: a.height, pixels };
    proof {
        assert forall|j: int| 0 <= j < r.pixels@.len() implies #[trigger] r.pixels@[j]
            <= a.pixels@[j] && r.pixels@[j] <= b.pixels@[j] && r.pixels@[j] <= c.pixels@[j] by {
            lemma_blend3_le(a.pixels@[j], b.pixels@[j], c.pixels@[j]);
        }
    }
    r
}

/// The sequence-of-rows view of a module grid.
pub open spec fn grid_view(m: Seq<Vec<bool>>) -> Seq<Seq<bool>> {
    m.map_values(|row: Vec<bool>| row@)
}

/// Every row of the grid is as long as the grid is tall.
pub open spec fn is_square_grid(g: Seq<Seq<bool>>) -> bool {
    forall|i: int| 0 <= i < g.len() ==> #[trigger] g[i].len() == g.len()
}

/// Channel `c` at `(x, y)` of the rendering of module grid `g` with dark
/// modules in `tint` on a white background.
pub open spec fn module_chan(g: Seq<Seq<bool>>, tint: Color, x: int, y: int, c: int) -> u8 {
    if g[y][x] {
        color_chan(tint, c)
    } else {
        255
    }
}

/// Renders a square module grid at one pixel per module: dark modules in
/// `tint`, light modules white, no margin and no anti-aliasing.
pub fn render_modules(m: &Vec<Vec<bool>>, tint: Color) -> (r: Image)
    requires
        m@.len() <= QR_MAX_WIDTH,
        is_square_grid(grid_view(m@)),
    ensures
        r.wf(),
        r.width == m@.len(),
        r.height == m@.len(),
        forall|x: int, y: int, c: int|
            0 <= x < m@.len() && 0 <= y < m@.len() && 0 <= c < 3 ==> #[trigger] r.chan(x, y, c)
                == module_chan(grid_view(m@), tint, x, y, c),
{
    let size = m.len();
    proof {
        assert(size * size <= 177 * 177) by (nonlinear_arith)
            requires
                size <= 177,
        ;
    }
    let n: usize = size * size;
    let mut pixels: Vec<u8> = Vec::new();
    let mut j: usize = 0;
    while j < n
        invariant
            j <= n,
            n == size * size,
            size == m@.len(),
            size <= 177,
            is_square_grid(grid_view(m@)),
            pixels@.len() == 3 * j,
            forall|k: int|
                0 <= k < pixels@.len() ==> #[trigger] pixels@[k] == module_chan(
                    grid_view(m@),
                    tint,
                    (k / 3) % (size as int),
                    (k / 3) / (size as int),
                    k % 3,
                ),
        decreases n - j,
    {
        proof {
            assert(size >= 1) by (nonlinear_arith)
                requires
                    size * size > 0,
            ;
            vstd::arithmetic::div_mod::lemma_mod_bound(j as int, size as int);
            vstd::arithmetic::div_mod::lemma_multiply_divide_lt(
                j as int,
                size as int,
                size as int,
            );
            vstd::arithmetic::div_mod::lemma_div_pos_is_pos(j as int, size as int);
        }
        let xx = j % size;
        let yy = j / size;
        proof {
            assert(grid_view(m@)[yy as int] == m@[yy as int]@);
            assert(grid_view(m@)[yy as int].len() == size);
        }
        let dark = m[yy][xx];
        let v0: u8 = if dark {
            tint.r
        } else {
            255
        };
        let v1: u8 = if dark {
            tint.g
        } else {
            255
        };
        let v2: u8 = if dark {
            tint.b
        } else {
            255
        };
        pixels.push(v0);
        pixels.push(v1);
        pixels.push(v2);
        proof {
            lemma_mod3(j as int);
        }
        j = j + 1;
    }
    let r = Image { width: size, height: size, pixels };
    proof {
        assert(3 * (size as int * size as int) == 3 * size * size) by (nonlinear_arith);
        assert(r.wf());
        assert forall|x: int, y: int, c: int|
            0 <= x < m@.len() && 0 <= y < m@.len() && 0 <= c < 3 implies #[trigger] r.chan(x, y, c)
            == module_chan(grid_view(m@), tint, x, y, c) by {
            lemma_pixel_index(size as int, size as int, x, y, c);
        }
    }
    r
}

/// The index of the source column or row that column or row `x` of the
/// scaled raster samples.
pub proof fn lemma_scale_index(x: int, wout: int, win: int)
    requires
        0 <= x < wout,
        1 <= win,
    ensures
        0 <= x * win,
        x * win < wout * win,
        0 <= (x * win) / wout < win,
{
    assert(0 <= x * win && x * win < wout * win && x * win < win * wout) by (nonlinear_arith)
        requires
            0 <= x < wout,
            1 <= win,
    ;
    vstd::arithmetic::div_mod::lemma_multiply_divide_lt(x * win, wout, win);
    vstd::arithmetic::div_mod::lemma_div_pos_is_pos(x * win, wout);
}

/// Nearest-neighbour scaling to the given dimensions: the pixel at `(x, y)`
/// of the result samples the source pixel at
/// `(x * source_width / width, y * source_height / height)`. No resampling
/// filter is applied, so module edges stay crisp.
pub fn scale_nearest(img: &Image, width: usize, height: usize) -> (r: Image)
    requires
        img.wf(),
        1 <= img.width,
        1 <= img.height,
        1 <= width,
        1 <= height,
        3 * (width as int) * (height as int) <= usize::MAX as int,
        (width as int) * (img.width as int) <= usize::MAX as int,
        (height as int) * (img.height as int) <= usize::MAX as int,
    ensures
        r.wf(),
        r.width == width,
        r.height == height,
        forall|x: int, y: int, c: int|
            0 <= x < width && 0 <= y < height && 0 <= c < 3 ==> #[trigger] r.chan(x, y, c)
                == img.chan(
                (x * img.width as int) / width as int,
                (y * img.height as int) / height as int,
                c,
            ),
{
    proof {
        assert((width as int) * (height as int) <= 3 * (width as int) * (height as int))
            by (nonlinear_arith)
            requires
                width >= 0,
                height >= 0,
        ;
    }
    let n: usize = width * height;
    let mut pixels: Vec<u8> = Vec::new();
    let mut j: usize = 0;
    while j < n
        invariant
            j <= n,
            n == width * height,
            1 <= width,
            1 <= height,
            1 <= img.width,
            1 <= img.height,
            img.wf(),
            (width as int) * (img.width as int) <= usize::MAX as int,
            (height as int) * (img.height as int) <= usize::MAX as int,
            pixels@.len() == 3 * j,
            forall|k: int|
                0 <= k < pixels@.len() ==> #[trigger] pixels@[k] == img.chan(
                    (((k / 3) % (width as int)) * img.width as int) / width as int,
                    (((k / 3) / (width as int)) * img.height as int) / height as int,
                    k % 3,
                ),
        decreases n - j,
    {
        proof {
            vstd::arithmetic::div_mod::lemma_mod_bound(j as int, width as int);
            vstd::arithmetic::div_mod::lemma_multiply_divide_lt(
                j as int,
                width as int,
                height as int,
            );
            vstd::arithmetic::div_mod::lemma_div_pos_is_pos(j as int, width as int);
            lemma_scale_index((j as int) % (width as int), width as int, img.width as int);
            lemma_scale_index((j as int) / (width as int), height as int, img.height as int);
        }
        let xx = j % width;
        let yy = j / width;
        let sx = (xx * img.width) / width;
        let sy = (yy * img.height) / height;
        let v0 = chan_at(img, sx, sy, 0);
        let v1 = chan_at(img, sx, sy, 1);
        let v2 = chan_at(img, sx, sy, 2);
        pixels.push(v0);
        pixels.push(v1);
        pixels.push(v2);
        proof {
            lemma_mod3(j as int);
        }
        j = j + 1;
    }
    let r = Image { width, height, pixels };
    proof {
        assert(3 * (width as int * height as int) == 3 * width * height) by (nonlinear_arith);
        assert(r.wf());
        assert forall|x: int, y: int, c: int|
            0 <= x < width && 0 <= y < height && 0 <= c < 3 implies #[trigger] r.chan(x, y, c)
            == img.chan(
            (x * img.width as int) / width as int,
            (y * img.height as int) / height as int,
            c,
        ) by {
            lemma_pixel_index(width as int, height as int, x, y, c);
        }
    }
    r
}

/// Places `img` onto `base` with its top-left corner at `(x0, y0)`. The
/// covered rectangle takes the pixels of `img`; every other pixel of `base`
/// is untouched.
pub fn overlay(base: &mut Image, img: &Image, x0: usize, y0: usize)
    requires
        old(base).wf(),
        img.wf(),
        x0 + img.width <= old(base).width,
        y0 + img.height <= old(base).height,
    ensures
        final(base).wf(),
        final(base).width == old(base).width,
        final(base).height == old(base).height,
        forall|x: int, y: int, c: int|
            x0 <= x < x0 + img.width && y0 <= y < y0 + img.height && 0 <= c < 3
                ==> #[trigger] final(base).chan(x, y, c) == img.chan(x - x0, y - y0, c),
        forall|x: int, y: int, c: int|
            0 <= x < old(base).width && 0 <= y < old(base).height && 0 <= c < 3 && !(x0 <= x < x0
                + img.width && y0 <= y < y0 + img.height) ==> #[trigger] final(base).chan(x, y, c)
                == old(base).chan(x, y, c),
{
    let w = img.width;
    let h = img.height;
    let mut y: usize = 0;
    while y < h
        invariant
            y <= h,
            w == img.width,
            h == img.height,
            img.wf(),
            base.wf(),
            base.width == old(base).width,
            base.height == old(base).height,
            x0 + w <= base.width,
            y0 + h <= base.height,
            forall|xx: int, yy: int, cc: int|
                x0 <= xx < x0 + w && y0 <= yy < y0 + y && 0 <= cc < 3 ==> #[trigger] base.chan(
                    xx,
                    yy,
                    cc,
                ) == img.chan(xx - x0, yy - y0, cc),
            forall|xx: int, yy: int, cc: int|
                0 <= xx < old(base).width && 0 <= yy < old(base).height && 0 <= cc < 3 && !(x0 <= xx
                    < x0 + w && y0 <= yy < y0 + h) ==> #[trigger] base.chan(xx, yy, cc) == old(
                    base,
                ).chan(xx, yy, cc),
        decreases h - y,
    {
        let mut x: usize = 0;
        while x < w
            invariant
                x <= w,
                y < h,
                w == img.width,
                h == img.height,
                img.wf(),
                base.wf(),
                base.width == old(base).width,
                base.height == old(base).height,
                x0 + w <= base.width,
                y0 + h <= base.height,
                forall|xx: int, yy: int, cc: int|
                    x0 <= xx < x0 + w && y0 <= yy < y0 + y && 0 <= cc < 3 ==> #[trigger] base.chan(
                        xx,
                        yy,
                        cc,
                    ) == img.chan(xx - x0, yy - y0, cc),
                forall|xx: int, cc: int|
                    x0 <= xx < x0 + x && 0 <= cc < 3 ==> #[trigger] base.chan(xx, y0 + y, cc)
                        == img.chan(xx - x0, y as int, cc),
                forall|xx: int, yy: int, cc: int|
                    0 <= xx < old(base).width && 0 <= yy < old(base).height && 0 <= cc < 3 && !(x0
                        <= xx < x0 + w && y0 <= yy < y0 + h) ==> #[trigger] base.chan(xx, yy, cc)
                        == old(base).chan(xx, yy, cc),
            decreases w - x,
        {
            let v0 = chan_at(img, x, y, 0);
            let v1 = chan_at(img, x, y, 1);
            let v2 = chan_at(img, x, y, 2);
            set_pixel(base, x0 + x, y0 + y, v0, v1, v2);
            x = x + 1;
        }
        y = y + 1;
    }
}

} // verus!
