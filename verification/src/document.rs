//! The page compositor and the archive entry serialisation: composite
//! symbol images are packed six to a page below two label strips, in
//! row-major chunk order, and every page becomes one named PNG entry, in
//! page order.

use vstd::prelude::*;

use crate::constants::{
    GRID_SIZE, MARGIN_X, MARGIN_Y, PAGE_HEIGHT, PAGE_WIDTH, QRCODE_SIZE, TEXT_HEIGHT,
};
use crate::qrcode::chunk_count;
use crate::EncodeError;
use crate::raster::{new_image, overlay, Color, Image};

verus! {

/// Pages needed for `n` composite images, six to a page.
pub open spec fn page_count_spec(n: int) -> int {
    chunk_count(n, GRID_SIZE as int)
}

/// Pages needed for `n` composite images.
pub fn page_count(n: usize) -> (r: usize)
    ensures
        r == page_count_spec(n as int),
{
    let q = n / GRID_SIZE;
    let rem = n % GRID_SIZE;
    proof {
        vstd::arithmetic::div_mod::lemma_fundamental_div_mod(n as int, GRID_SIZE as int);
        vstd::arithmetic::div_mod::lemma_mod_bound(n as int, GRID_SIZE as int);
        vstd::arithmetic::div_mod::lemma_div_pos_is_pos(n as int, GRID_SIZE as int);
        if rem == 0 {
            if n == 0 {
                crate::qrcode::lemma_chunk_count_zero(GRID_SIZE as int);
            } else {
                assert(q >= 1) by (nonlinear_arith)
                    requires
                        n as int == 6 * (q as int),
                        n > 0,
                ;
                assert(n as int == (q as int - 1) * 6 + 6) by (nonlinear_arith)
                    requires
                        n as int == 6 * (q as int),
                ;
                crate::qrcode::lemma_chunk_count_split(q as int - 1, 6, 6);
            }
        } else {
            assert(n as int == (q as int) * 6 + rem as int) by (nonlinear_arith)
                requires
                    n as int == 6 * (q as int) + rem as int,
            ;
            crate::qrcode::lemma_chunk_count_split(q as int, rem as int, 6);
        }
    }
    if rem != 0 {
        q + 1
    } else {
        q
    }
}

/// How many composite images page `p` holds when there are `n` of them in
/// all: a full grid of six, except possibly on the last page.
pub open spec fn page_fill(n: int, p: int) -> int {
    if n - p * GRID_SIZE < GRID_SIZE {
        n - p * GRID_SIZE
    } else {
        GRID_SIZE as int
    }
}

/// Pixel column of the left edge of grid cell `i`: two columns, filled in
/// row-major order.
pub open spec fn cell_x(i: int) -> int {
    MARGIN_X + (i % 2) * (QRCODE_SIZE + MARGIN_X)
}

/// Pixel row of the top edge of grid cell `i`: three rows below the two
/// label strips.
pub open spec fn cell_y(i: int) -> int {
    2 * MARGIN_Y + 2 * TEXT_HEIGHT + (i / 2) * (QRCODE_SIZE + MARGIN_Y)
}

/// Whether pixel `(x, y)` lies inside grid cell `i`.
pub open spec fn in_cell(i: int, x: int, y: int) -> bool {
    cell_x(i) <= x < cell_x(i) + QRCODE_SIZE && cell_y(i) <= y < cell_y(i) + QRCODE_SIZE
}

/// Whether pixel `(x, y)` lies inside label strip 1 (the page index, page
/// count and content hash) or strip 2 (the timestamp and free-text message).
pub open spec fn in_strip1(x: int, y: int) -> bool {
    0 <= x < PAGE_WIDTH && MARGIN_Y <= y < MARGIN_Y + TEXT_HEIGHT
}

/// Whether pixel `(x, y)` lies inside label strip 2.
pub open spec fn in_strip2(x: int, y: int) -> bool {
    0 <= x < PAGE_WIDTH && MARGIN_Y + TEXT_HEIGHT <= y < MARGIN_Y + 2 * TEXT_HEIGHT
}

/// The two rendered label strips of one page: the index/hash strip above
/// the timestamp/message strip. Each is a full-width strip of the fixed
/// text height.
pub struct PageLabels {
    pub info: Image,
    pub msg: Image,
}

impl PageLabels {
    /// Both strips are well formed and have the fixed strip geometry.
    pub open spec fn wf(self) -> bool {
        &&& self.info.wf()
        &&& self.info.width == PAGE_WIDTH
        &&& self.info.height == TEXT_HEIGHT
        &&& self.msg.wf()
        &&& self.msg.width == PAGE_WIDTH
        &&& self.msg.height == TEXT_HEIGHT
    }
}

/// `page` is the finished page canvas holding `codes[start .. start + k]`:
/// white background, the two label strips at their fixed offsets, the `k`
/// composite images in the grid cells in row-major order, and every other
/// pixel white.
pub open spec fn is_page_image(
    page: Image,
    codes: Seq<Image>,
    start: int,
    k: int,
    labels: PageLabels,
) -> bool {
    &&& page.wf()
    &&& page.width == PAGE_WIDTH
    &&& page.height == PAGE_HEIGHT
    &&& forall|x: int, y: int, c: int|
        in_strip1(x, y) && 0 <= c < 3 ==> #[trigger] page.chan(x, y, c) == labels.info.chan(
            x,
            y - MARGIN_Y,
            c,
        )
    &&& forall|x: int, y: int, c: int|
        in_strip2(x, y) && 0 <= c < 3 ==> #[trigger] page.chan(x, y, c) == labels.msg.chan(
            x,
            y - (MARGIN_Y + TEXT_HEIGHT),
            c,
        )
    &&& forall|i: int, x: int, y: int, c: int|
        #![trigger page.chan(x, y, c), in_cell(i, x, y)]
        0 <= i < k && in_cell(i, x, y) && 0 <= c < 3 ==> page.chan(x, y, c) == codes[start
            + i].chan(x - cell_x(i), y - cell_y(i), c)
    &&& forall|x: int, y: int, c: int|
        0 <= x < PAGE_WIDTH && 0 <= y < PAGE_HEIGHT && 0 <= c < 3 && !in_strip1(x, y) && !in_strip2(
            x,
            y,
        ) && !(exists|i: int| 0 <= i < k && #[trigger] in_cell(i, x, y)) ==> #[trigger] page.chan(
            x,
            y,
            c,
        ) == 255
}

/// The two grid cells of two distinct indices do not overlap, and every
/// cell lies below both label strips and inside the page.
proof fn lemma_cell_geometry(i: int, j: int)
    requires
        0 <= i < GRID_SIZE,
        0 <= j < GRID_SIZE,
    ensures
        0 <= cell_x(i),
        cell_x(i) + QRCODE_SIZE <= PAGE_WIDTH,
        MARGIN_Y + 2 * TEXT_HEIGHT <= cell_y(i),
        cell_y(i) + QRCODE_SIZE <= PAGE_HEIGHT,
        i != j ==> forall|x: int, y: int| in_cell(i, x, y) ==> !in_cell(j, x, y),
{
    vstd::arithmetic::div_mod::lemma_fundamental_div_mod(i, 2);
    vstd::arithmetic::div_mod::lemma_fundamental_div_mod(j, 2);
    vstd::arithmetic::div_mod::lemma_mod_bound(i, 2);
    vstd::arithmetic::div_mod::lemma_mod_bound(j, 2);
    vstd::arithmetic::div_mod::lemma_div_pos_is_pos(i, 2);
    vstd::arithmetic::div_mod::lemma_div_pos_is_pos(j, 2);
    vstd::arithmetic::div_mod::lemma_multiply_divide_lt(i, 2, 3);
    vstd::arithmetic::div_mod::lemma_multiply_divide_lt(j, 2, 3);
}

/// Composes one page: a white canvas, the two label strips at their fixed
/// offsets, and `codes[start .. start + count]` in the grid cells in
/// row-major order, matching chunk order within the page.
pub fn compose_page(codes: &Vec<Image>, start: usize, count: usize, labels: &PageLabels) -> (page:
    Image)
    requires
        labels.wf(),
        start + count <= codes@.len(),
        count <= GRID_SIZE,
        forall|i: int|
            0 <= i < codes@.len() ==> (#[trigger] codes@[i]).wf() && codes@[i].width == QRCODE_SIZE
                && codes@[i].height == QRCODE_SIZE,
    ensures
        is_page_image(page, codes@, start as int, count as int, *labels),
{
    let mut page = new_image(PAGE_WIDTH, PAGE_HEIGHT, Color { r: 255, g: 255, b: 255 });
    overlay(&mut page, &labels.info, 0, MARGIN_Y);
    overlay(&mut page, &labels.msg, 0, MARGIN_Y + TEXT_HEIGHT);
    let mut i: usize = 0;
    while i < count
        invariant
            labels.wf(),
            start + count <= codes@.len(),
            count <= GRID_SIZE,
            i <= count,
            forall|j: int|
                0 <= j < codes@.len() ==> (#[trigger] codes@[j]).wf() && codes@[j].width
                    == QRCODE_SIZE && codes@[j].height == QRCODE_SIZE,
            page.wf(),
            page.width == PAGE_WIDTH,
            page.height == PAGE_HEIGHT,
            forall|x: int, y: int, c: int|
                in_strip1(x, y) && 0 <= c < 3 ==> #[trigger] page.chan(x, y, c)
                    == labels.info.chan(x, y - MARGIN_Y, c),
            forall|x: int, y: int, c: int|
                in_strip2(x, y) && 0 <= c < 3 ==> #[trigger] page.chan(x, y, c) == labels.msg.chan(
                    x,
                    y - (MARGIN_Y + TEXT_HEIGHT),
                    c,
                ),
            forall|j: int, x: int, y: int, c: int|
                #![trigger page.chan(x, y, c), in_cell(j, x, y)]
                0 <= j < i && in_cell(j, x, y) && 0 <= c < 3 ==> page.chan(x, y, c)
                    == codes@[start + j].chan(x - cell_x(j), y - cell_y(j), c),
            forall|x: int, y: int, c: int|
                0 <= x < PAGE_WIDTH && 0 <= y < PAGE_HEIGHT && 0 <= c < 3 && !in_strip1(x, y)
                    && !in_strip2(x, y) && !(exists|j: int|
                    0 <= j < i && #[trigger] in_cell(j, x, y)) ==> #[trigger] page.chan(x, y, c)
                    == 255,
        decreases count - i,
    {
        let total = codes.len();
        proof {
            vstd::arithmetic::div_mod::lemma_mod_bound(i as int, 2);
            vstd::arithmetic::div_mod::lemma_div_pos_is_pos(i as int, 2);
            vstd::arithmetic::div_mod::lemma_multiply_divide_lt(i as int, 2, 3);
        }
        let col: usize = i % 2;
        let row: usize = i / 2;
        proof {
            assert(col * (QRCODE_SIZE + MARGIN_X) <= QRCODE_SIZE + MARGIN_X) by (nonlinear_arith)
                requires
                    col <= 1,
            ;
            assert(row * (QRCODE_SIZE + MARGIN_Y) <= 2 * (QRCODE_SIZE + MARGIN_Y))
                by (nonlinear_arith)
                requires
                    row <= 2,
            ;
        }
        let cx: usize = MARGIN_X + col * (QRCODE_SIZE + MARGIN_X);
        let cy: usize = 2 * MARGIN_Y + 2 * TEXT_HEIGHT + row * (QRCODE_SIZE + MARGIN_Y);
        proof {
            assert(cx as int == cell_x(i as int));
            assert(cy as int == cell_y(i as int));
            lemma_cell_geometry(i as int, i as int);
        }
        let ghost before = page;
        overlay(&mut page, &codes[start + i], cx, cy);
        proof {
            assert forall|j: int, x: int, y: int, c: int|
                #![trigger page.chan(x, y, c), in_cell(j, x, y)]
                0 <= j < i + 1 && in_cell(j, x, y) && 0 <= c < 3 implies page.chan(x, y, c)
                == codes@[start + j].chan(x - cell_x(j), y - cell_y(j), c) by {
                lemma_cell_geometry(j, i as int);
                if j < i {
                    assert(!in_cell(i as int, x, y));
                    assert(page.chan(x, y, c) == before.chan(x, y, c));
                }
            }
            assert forall|x: int, y: int, c: int|
                0 <= x < PAGE_WIDTH && 0 <= y < PAGE_HEIGHT && 0 <= c < 3 && !in_strip1(x, y)
                    && !in_strip2(x, y) && !(exists|j: int|
                    0 <= j < i + 1 && #[trigger] in_cell(j, x, y)) implies #[trigger] page.chan(
                    x,
                    y,
                    c,
                ) == 255 by {
                assert(!in_cell(i as int, x, y));
                assert(page.chan(x, y, c) == before.chan(x, y, c));
            }
            assert forall|x: int, y: int, c: int| in_strip1(x, y) && 0 <= c < 3 implies #[trigger]
                page.chan(x, y, c) == labels.info.chan(x, y - MARGIN_Y, c) by {
                lemma_cell_geometry(i as int, i as int);
                assert(page.chan(x, y, c) == before.chan(x, y, c));
            }
            assert forall|x: int, y: int, c: int| in_strip2(x, y) && 0 <= c < 3 implies #[trigger]
                page.chan(x, y, c) == labels.msg.chan(x, y - (MARGIN_Y + TEXT_HEIGHT), c) by {
                lemma_cell_geometry(i as int, i as int);
                assert(page.chan(x, y, c) == before.chan(x, y, c));
            }
        }
        i = i + 1;
    }
    page
}

/// Page packing: every page except possibly the last holds exactly six
/// composite images; the last holds `n % 6` when that is nonzero, else six;
/// and no page of a nonempty document is empty.
pub proof fn lemma_page_packing(n: int)
    requires
        0 <= n,
    ensures
        forall|p: int|
            0 <= p < page_count_spec(n) - 1 ==> #[trigger] page_fill(n, p) == GRID_SIZE,
        page_count_spec(n) > 0 ==> page_fill(n, page_count_spec(n) - 1) == (if n % (
        GRID_SIZE as int) == 0 {
            GRID_SIZE as int
        } else {
            n % (GRID_SIZE as int)
        }),
        forall|p: int| 0 <= p < page_count_spec(n) ==> 0 < #[trigger] page_fill(n, p) <= GRID_SIZE,
{
    let q = n / 6;
    let rem = n % 6;
    vstd::arithmetic::div_mod::lemma_fundamental_div_mod(n, 6);
    vstd::arithmetic::div_mod::lemma_mod_bound(n, 6);
    vstd::arithmetic::div_mod::lemma_div_pos_is_pos(n, 6);
    let cnt = page_count_spec(n);
    if n == 0 {
        crate::qrcode::lemma_chunk_count_zero(6);
    } else if rem == 0 {
        assert(q >= 1) by (nonlinear_arith)
            requires
                n == 6 * q,
                n > 0,
        ;
        assert(n == (q - 1) * 6 + 6) by (nonlinear_arith)
            requires
                n == 6 * q,
        ;
        crate::qrcode::lemma_chunk_count_split(q - 1, 6, 6);
        assert(cnt == q);
    } else {
        assert(n == q * 6 + rem) by (nonlinear_arith)
            requires
                n == 6 * q + rem,
        ;
        crate::qrcode::lemma_chunk_count_split(q, rem, 6);
        assert(cnt == q + 1);
    }
    assert forall|p: int| 0 <= p < cnt implies 0 < #[trigger] page_fill(n, p) <= GRID_SIZE && (p
        < cnt - 1 ==> page_fill(n, p) == GRID_SIZE) by {
        assert(p * 6 <= (cnt - 1) * 6 && (p < cnt - 1 ==> p * 6 <= (cnt - 2) * 6) && (cnt - 1) * 6
            == cnt * 6 - 6 && (cnt - 2) * 6 == cnt * 6 - 12 && (cnt == q ==> cnt * 6 == 6 * q) && (
        cnt == q + 1 ==> cnt * 6 == 6 * q + 6)) by (nonlinear_arith)
            requires
                0 <= p < cnt,
        ;
    }
    if cnt > 0 {
        let last = cnt - 1;
        assert(last * 6 == cnt * 6 - 6 && (cnt == q ==> cnt * 6 == 6 * q) && (cnt == q + 1 ==> cnt
            * 6 == 6 * q + 6)) by (nonlinear_arith)
            requires
                last == cnt - 1,
        ;
    }
}

/// Page `p` of a document of `n` composite images starts at image `6 p`,
/// which exists, and its images all exist.
proof fn lemma_page_start(n: int, p: int)
    requires
        0 <= n,
        0 <= p < page_count_spec(n),
    ensures
        0 <= p * GRID_SIZE < n,
        p * GRID_SIZE + page_fill(n, p) <= n,
        0 < page_fill(n, p) <= GRID_SIZE,
{
    lemma_page_packing(n);
    let cnt = page_count_spec(n);
    vstd::arithmetic::div_mod::lemma_fundamental_div_mod(n + 5, 6);
    vstd::arithmetic::div_mod::lemma_mod_bound(n + 5, 6);
    assert(0 <= p * 6 && p * 6 <= (cnt - 1) * 6 && (cnt - 1) * 6 == 6 * cnt - 6)
        by (nonlinear_arith)
        requires
            0 <= p <= cnt - 1,
    ;
}

/// Packs the composite images onto pages: page `p` holds images
/// `6 p .. 6 p + fill(p)` in row-major chunk order below its two label
/// strips, and the number of pages is the ceiling of `n / 6`. Image order is
/// never permuted: page order times grid position recovers chunk order.
pub fn generate_pages(qrcodes: &Vec<Image>, labels: &Vec<PageLabels>) -> (pages: Vec<Image>)
    requires
        labels@.len() == page_count_spec(qrcodes@.len() as int),
        forall|i: int|
            0 <= i < qrcodes@.len() ==> (#[trigger] qrcodes@[i]).wf() && qrcodes@[i].width
                == QRCODE_SIZE && qrcodes@[i].height == QRCODE_SIZE,
        forall|p: int| 0 <= p < labels@.len() ==> (#[trigger] labels@[p]).wf(),
    ensures
        pages@.len() == page_count_spec(qrcodes@.len() as int),
        forall|p: int|
            0 <= p < pages@.len() ==> is_page_image(
                #[trigger] pages@[p],
                qrcodes@,
                p * (GRID_SIZE as int),
                page_fill(qrcodes@.len() as int, p),
                labels@[p],
            ),
{
    let n = qrcodes.len();
    let total = page_count(n);
    let mut pages: Vec<Image> = Vec::new();
    let mut p: usize = 0;
    while p < total
        invariant
            n == qrcodes@.len(),
            total == page_count_spec(n as int),
            labels@.len() == total,
            forall|i: int|
                0 <= i < qrcodes@.len() ==> (#[trigger] qrcodes@[i]).wf() && qrcodes@[i].width
                    == QRCODE_SIZE && qrcodes@[i].height == QRCODE_SIZE,
            forall|pp: int| 0 <= pp < labels@.len() ==> (#[trigger] labels@[pp]).wf(),
            pages@.len() == p,
            p <= total,
            forall|pp: int|
                0 <= pp < p ==> is_page_image(
                    #[trigger] pages@[pp],
                    qrcodes@,
                    pp * (GRID_SIZE as int),
                    page_fill(n as int, pp),
                    labels@[pp],
                ),
        decreases total - p,
    {
        proof {
            lemma_page_start(n as int, p as int);
        }
        let start = p * GRID_SIZE;
        let fill = if n - start < GRID_SIZE {
            n - start
        } else {
            GRID_SIZE
        };
        let pg = compose_page(qrcodes, start, fill, &labels[p]);
        pages.push(pg);
        p = p + 1;
    }
    pages
}

/// Determinism: any two page images composed of the same composite images
/// and label strips agree in their dimensions and in every pixel byte.
pub proof fn lemma_page_image_unique(
    a: Image,
    b: Image,
    codes: Seq<Image>,
    start: int,
    k: int,
    labels: PageLabels,
)
    requires
        is_page_image(a, codes, start, k, labels),
        is_page_image(b, codes, start, k, labels),
    ensures
        a.width == b.width,
        a.height == b.height,
        a.pixels@ == b.pixels@,
{
    let w = a.width as int;
    let h = a.height as int;
    assert(3 * (w * h) == 3 * w * h) by (nonlinear_arith);
    assert forall|kk: int| 0 <= kk < a.pixels@.len() implies a.pixels@[kk] == b.pixels@[kk] by {
        let j = kk / 3;
        let c = kk % 3;
        vstd::arithmetic::div_mod::lemma_fundamental_div_mod(kk, 3);
        vstd::arithmetic::div_mod::lemma_mod_bound(kk, 3);
        vstd::arithmetic::div_mod::lemma_div_pos_is_pos(kk, 3);
        vstd::arithmetic::div_mod::lemma_multiply_divide_lt(kk, 3, w * h);
        let x = j % w;
        let y = j / w;
        vstd::arithmetic::div_mod::lemma_fundamental_div_mod(j, w);
        vstd::arithmetic::div_mod::lemma_mod_bound(j, w);
        vstd::arithmetic::div_mod::lemma_div_pos_is_pos(j, w);
        vstd::arithmetic::div_mod::lemma_multiply_divide_lt(j, w, h);
        if in_strip1(x, y) {
            assert(a.chan(x, y, c) == labels.info.chan(x, y - MARGIN_Y, c));
            assert(b.chan(x, y, c) == labels.info.chan(x, y - MARGIN_Y, c));
        } else if in_strip2(x, y) {
            assert(a.chan(x, y, c) == labels.msg.chan(x, y - (MARGIN_Y + TEXT_HEIGHT), c));
            assert(b.chan(x, y, c) == labels.msg.chan(x, y - (MARGIN_Y + TEXT_HEIGHT), c));
        } else if exists|i: int| 0 <= i < k && #[trigger] in_cell(i, x, y) {
            let i = choose|i: int| 0 <= i < k && #[trigger] in_cell(i, x, y);
            assert(a.chan(x, y, c) == codes[start + i].chan(x - cell_x(i), y - cell_y(i), c));
            assert(b.chan(x, y, c) == codes[start + i].chan(x - cell_x(i), y - cell_y(i), c));
        } else {
            assert(a.chan(x, y, c) == 255);
            assert(b.chan(x, y, c) == 255);
        }
        assert(3 * (y * w + x) + c == kk) by (nonlinear_arith)
            requires
                kk == 3 * j + c,
                j == w * y + x,
        ;
    }
    assert(a.pixels@ =~= b.pixels@);
}

/// The archive entry name of page `i`: `page` followed by the zero-padded
/// six-digit page number and `.png`. The fixed width keeps the names from
/// colliding and keeps lexical order equal to page order for any realistic
/// page count.
pub open spec fn entry_name_spec(i: nat) -> Seq<char> {
    seq!['p', 'a', 'g', 'e'] + crate::utils::dec_padded(i, 6) + seq!['.', 'p', 'n', 'g']
}

/// Builds the archive entry name of page `i`.
pub fn page_entry_name(i: usize) -> (r: String)
    ensures
        r@ == entry_name_spec(i as nat),
{
    let mut s = String::new();
    crate::utils::push_char(&mut s, 'p');
    crate::utils::push_char(&mut s, 'a');
    crate::utils::push_char(&mut s, 'g');
    crate::utils::push_char(&mut s, 'e');
    crate::utils::push_padded(&mut s, i, 6);
    crate::utils::push_char(&mut s, '.');
    crate::utils::push_char(&mut s, 'p');
    crate::utils::push_char(&mut s, 'n');
    crate::utils::push_char(&mut s, 'g');
    proof {
        assert(s@ =~= entry_name_spec(i as nat));
    }
    s
}

/// The error type of the external image serialiser.
#[verifier::external_type_specification]
#[verifier::external_body]
pub struct ExImageError(image::ImageError);

/// The PNG serialisation of an RGB raster of the given dimensions and pixel
/// bytes, as the external encoder writes it: a pure function of all three.
pub uninterp spec fn png_bytes_of(width: nat, height: nat, pixels: Seq<u8>) -> Seq<u8>;

/// Relies on image's in-memory PNG encoder over an 8-bit RGB buffer: with
/// fixed default settings the encoding is deterministic in the dimensions
/// and pixel bytes, writing to an in-memory cursor never fails, and the
/// encoder rejects only a zero width or height.
#[verifier::external_body]
fn png_encode(img: &Image) -> (r: Result<Vec<u8>, image::ImageError>)
    requires
        img.wf(),
        1 <= img.width <= 0xFFFF_FFFF,
        1 <= img.height <= 0xFFFF_FFFF,
    ensures
        r is Ok,
        r matches Ok(b) ==> b@ == png_bytes_of(img.width as nat, img.height as nat, img.pixels@),
{
    let buf = image::RgbImage::from_raw(
        img.width as u32,
        img.height as u32,
        img.pixels.clone(),
    ).unwrap();
    let mut out = std::io::Cursor::new(Vec::new());
    match buf.write_to(&mut out, image::ImageFormat::Png) {
        Ok(()) => Ok(out.into_inner()),
        Err(e) => Err(e),
    }
}

/// Serialises the pages, in order, as named PNG blobs: page `i` becomes the
/// entry `page{i:06}.png`, and entry order equals page order — the load-
/// bearing property a decoder reconstructs chunk order from. Every page with
/// nonzero dimensions encodes, so the call always succeeds.
pub fn archive_entries(pages: &Vec<Image>) -> (r: Result<Vec<(String, Vec<u8>)>, EncodeError>)
    requires
        forall|i: int|
            0 <= i < pages@.len() ==> (#[trigger] pages@[i]).wf() && 1 <= pages@[i].width
                <= 0xFFFF_FFFF && 1 <= pages@[i].height <= 0xFFFF_FFFF,
    ensures
        r is Ok,
        r matches Ok(es) ==> {
            &&& es@.len() == pages@.len()
            &&& forall|i: int|
                0 <= i < es@.len() ==> (#[trigger] es@[i]).0@ == entry_name_spec(i as nat)
                    && es@[i].1@ == png_bytes_of(
                    pages@[i].width as nat,
                    pages@[i].height as nat,
                    pages@[i].pixels@,
                )
        },
{
    let n = pages.len();
    let mut es: Vec<(String, Vec<u8>)> = Vec::new();
    let mut i: usize = 0;
    while i < n
        invariant
            n == pages@.len(),
            forall|j: int|
                0 <= j < pages@.len() ==> (#[trigger] pages@[j]).wf() && 1 <= pages@[j].width
                    <= 0xFFFF_FFFF && 1 <= pages@[j].height <= 0xFFFF_FFFF,
            es@.len() == i,
            i <= n,
            forall|j: int|
                0 <= j < i ==> (#[trigger] es@[j]).0@ == entry_name_spec(j as nat) && es@[j].1@
                    == png_bytes_of(
                    pages@[j].width as nat,
                    pages@[j].height as nat,
                    pages@[j].pixels@,
                ),
        decreases n - i,
    {
        let name = page_entry_name(i);
        let bytes = png_encode(&pages[i]).unwrap();
        es.push((name, bytes));
        i = i + 1;
    }
    Ok(es)
}

} // verus!
