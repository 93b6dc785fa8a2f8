//! The symbol pipeline: deterministic chunking of the input bytes, the
//! adaptation layer over the external optical-code encoder, and the channel
//! compositor that renders one chunk as one fixed-size composite image.

use vstd::prelude::*;

use crate::constants::{CHUNK_SIZE, QRCODE_SIZE, QR_MAX_BYTES, QR_MAX_WIDTH, QR_MIN_WIDTH};
use crate::raster::{
    blend2_spec, blend3_spec, combine2, combine3, grid_view, is_square_grid, module_chan,
    render_modules, scale_nearest, Color, Image,
};
use crate::{EncodeError, Variant};

verus! {

/// How many chunks of `size` bytes a `len`-byte input yields: the ceiling of
/// `len / size`. An empty input yields no chunk at all.
pub open spec fn chunk_count(len: int, size: int) -> int {
    (len + size - 1) / size
}

/// The bytes of chunk `i`: the window starting at `i * size`, cut short at
/// the end of the input.
pub open spec fn chunk_at(data: Seq<u8>, size: int, i: int) -> Seq<u8> {
    data.subrange(
        i * size,
        if (i + 1) * size <= data.len() {
            (i + 1) * size
        } else {
            data.len() as int
        },
    )
}

/// All the bytes a sequence of chunks holds, concatenated in order.
pub open spec fn concat_chunks(r: Seq<Vec<u8>>) -> Seq<u8>
    decreases r.len(),
{
    if r.len() == 0 {
        Seq::empty()
    } else {
        concat_chunks(r.drop_last()) + r.last()@
    }
}

/// A copy of `data[start..end]`.
fn copy_range(data: &Vec<u8>, start: usize, end: usize) -> (r: Vec<u8>)
    requires
        start <= end <= data@.len(),
    ensures
        r@ == data@.subrange(start as int, end as int),
{
    let mut r: Vec<u8> = Vec::new();
    let mut i: usize = start;
    while i < end
        invariant
            start <= i <= end <= data@.len(),
            r@ == data@.subrange(start as int, i as int),
        decreases end - i,
    {
        r.push(data[i]);
        proof {
            assert(r@ =~= data@.subrange(start as int, i + 1 as int));
        }
        i = i + 1;
    }
    r
}

/// Splits the input bytes into consecutive chunks of `size` bytes, in input
/// order, the final chunk possibly shorter and never empty; an input whose
/// length is an exact multiple yields no trailing short chunk, and an empty
/// input yields no chunk. Concatenating the chunks in emission order
/// reproduces the input exactly.
pub fn chunk_bytes(data: &Vec<u8>, size: usize) -> (r: Vec<Vec<u8>>)
    requires
        size >= 1,
    ensures
        r@.len() == chunk_count(data@.len() as int, size as int),
        forall|i: int| 0 <= i < r@.len() ==> (#[trigger] r@[i])@ == chunk_at(data@, size as int, i),
        concat_chunks(r@) == data@,
{
    let n = data.len();
    let mut r: Vec<Vec<u8>> = Vec::new();
    proof {
        assert(r@.len() * size as int == 0) by (nonlinear_arith)
            requires
                r@.len() == 0,
        ;
    }
    let mut pos: usize = 0;
    while pos < n
        invariant
            n == data@.len(),
            size >= 1,
            pos <= n,
            (pos == r@.len() * size) || (pos == n && r@.len() == chunk_count(
                n as int,
                size as int,
            )),
            forall|i: int|
                0 <= i < r@.len() ==> (#[trigger] r@[i])@ == chunk_at(data@, size as int, i),
            concat_chunks(r@) == data@.subrange(0, pos as int),
        decreases n - pos,
    {
        let ghost i: int = r@.len() as int;
        proof {
            assert(pos == i * size);
            assert((i + 1) * size == i * size + size) by (nonlinear_arith);
        }
        let end: usize = if n - pos >= size {
            pos + size
        } else {
            n
        };
        let chunk = copy_range(data, pos, end);
        proof {
            assert(chunk@ == chunk_at(data@, size as int, i));
        }
        let ghost prev = r@;
        r.push(chunk);
        proof {
            assert(r@.drop_last() =~= prev);
            assert(concat_chunks(r@) == concat_chunks(prev) + chunk@);
            assert(data@.subrange(0, pos as int) + data@.subrange(pos as int, end as int)
                =~= data@.subrange(0, end as int));
            if end < n {
                assert(end == (i + 1) * size);
            } else {
                lemma_chunk_count_split(i, n - pos, size as int);
            }
        }
        pos = end;
    }
    proof {
        if pos == r@.len() * size {
            if n == 0 {
                lemma_chunk_count_zero(size as int);
                assert(r@.len() == 0) by (nonlinear_arith)
                    requires
                        r@.len() * size as int == 0,
                        size >= 1,
                ;
            } else {
                let q: int = r@.len() as int - 1;
                assert(r@.len() >= 1) by (nonlinear_arith)
                    requires
                        r@.len() * size as int == n as int,
                        n > 0,
                ;
                assert(n as int == q * size + size) by (nonlinear_arith)
                    requires
                        n as int == (q + 1) * size as int,
                ;
                lemma_chunk_count_split(q, size as int, size as int);
            }
        }
        assert(data@.subrange(0, n as int) =~= data@);
    }
    r
}

/// An input that ends `rem` bytes into chunk `q` (so `1 <= rem <= size`)
/// has exactly `q + 1` chunks.
pub proof fn lemma_chunk_count_split(q: int, rem: int, size: int)
    requires
        1 <= size,
        0 <= q,
        1 <= rem <= size,
    ensures
        chunk_count(q * size + rem, size) == q + 1,
{
    assert(q * size + rem + size - 1 == size * (q + 1) + (rem - 1)) by (nonlinear_arith);
    vstd::arithmetic::div_mod::lemma_div_multiples_vanish_fancy(q + 1, rem - 1, size);
}

/// Final-chunk shortness: every chunk but the last is exactly `size` bytes;
/// the last chunk holds `len % size` bytes when that remainder is nonzero and
/// a full `size` bytes otherwise; and no chunk of a nonempty input is empty.
pub proof fn lemma_chunk_sizes(data: Seq<u8>, size: int)
    requires
        1 <= size,
    ensures
        forall|i: int|
            0 <= i < chunk_count(data.len() as int, size) - 1 ==> (#[trigger] chunk_at(
                data,
                size,
                i,
            )).len() == size,
        chunk_count(data.len() as int, size) > 0 ==> chunk_at(
            data,
            size,
            chunk_count(data.len() as int, size) - 1,
        ).len() == (if data.len() as int % size == 0 {
            size
        } else {
            data.len() as int % size
        }),
        forall|i: int|
            0 <= i < chunk_count(data.len() as int, size) ==> (#[trigger] chunk_at(
                data,
                size,
                i,
            )).len() > 0,
{
    let n = data.len() as int;
    let q = n / size;
    let rem = n % size;
    vstd::arithmetic::div_mod::lemma_fundamental_div_mod(n, size);
    vstd::arithmetic::div_mod::lemma_mod_bound(n, size);
    vstd::arithmetic::div_mod::lemma_div_pos_is_pos(n, size);
    let cnt = chunk_count(n, size);
    if n == 0 {
        lemma_chunk_count_zero(size);
    } else if rem == 0 {
        assert(q >= 1) by (nonlinear_arith)
            requires
                n == size * q + 0,
                n > 0,
                size >= 1,
        ;
        assert(n == (q - 1) * size + size) by (nonlinear_arith)
            requires
                n == size * q,
        ;
        lemma_chunk_count_split(q - 1, size, size);
        assert(cnt == q);
    } else {
        assert(n == q * size + rem) by (nonlinear_arith)
            requires
                n == size * q + rem,
        ;
        lemma_chunk_count_split(q, rem, size);
        assert(cnt == q + 1);
    }
    assert forall|i: int| 0 <= i < cnt implies 0 < (#[trigger] chunk_at(data, size, i)).len() && (i
        < cnt - 1 ==> chunk_at(data, size, i).len() == size) by {
        assert(0 <= i * size && i * size < n && (i + 1) * size == i * size + size && (i + 1 <= q
            ==> (i + 1) * size <= q * size) && q * size <= n) by (nonlinear_arith)
            requires
                0 <= i,
                size >= 1,
                n == size * q + rem,
                0 <= rem < size,
                (rem == 0 && i < q) || (rem != 0 && i <= q),
        ;
    }
    if cnt > 0 {
        let last = cnt - 1;
        assert(last * size == n - size || last * size == q * size) by (nonlinear_arith)
            requires
                (rem == 0 && (last + 1) * size == n) || (rem != 0 && last == q),
                size >= 1,
        ;
        if rem == 0 {
            assert((last + 1) * size == n) by (nonlinear_arith)
                requires
                    last + 1 == q,
                    n == size * q,
            ;
        } else {
            assert(last * size == q * size && (last + 1) * size == q * size + size)
                by (nonlinear_arith)
                requires
                    last == q,
            ;
        }
    }
}

/// Byte `k` of the input lies in chunk `k / size`, which exists, at offset
/// `k % size`, which is inside it.
pub open spec fn chunk_byte_covered(data: Seq<u8>, size: int, k: int) -> bool {
    &&& 0 <= k / size < chunk_count(data.len() as int, size)
    &&& 0 <= k % size < chunk_at(data, size, k / size).len()
    &&& chunk_at(data, size, k / size)[k % size] == data[k]
}

/// Chunking round trip, byte by byte: every byte of the input lies in
/// exactly one chunk — byte `k` is byte `k % size` of chunk `k / size`, and
/// that chunk exists — so concatenating the chunks in index order reproduces
/// the input and nothing is reordered, dropped or duplicated.
pub proof fn lemma_chunk_bytes_cover(data: Seq<u8>, size: int)
    requires
        1 <= size,
    ensures
        forall|k: int| 0 <= k < data.len() ==> #[trigger] chunk_byte_covered(data, size, k),
{
    let n = data.len() as int;
    assert forall|k: int| 0 <= k < data.len() implies #[trigger] chunk_byte_covered(
        data,
        size,
        k,
    ) by {
        let i = k / size;
        let rem = k % size;
        vstd::arithmetic::div_mod::lemma_fundamental_div_mod(k, size);
        vstd::arithmetic::div_mod::lemma_mod_bound(k, size);
        vstd::arithmetic::div_mod::lemma_div_pos_is_pos(k, size);
        assert(i * size + rem == k && i * size + 1 + size - 1 == size * i + size && (i + 1) * size
            == i * size + size) by (nonlinear_arith)
            requires
                k == size * i + rem,
        ;
        lemma_chunk_count_split(i, 1, size);
        vstd::arithmetic::div_mod::lemma_div_is_ordered(
            i * size + 1 + size - 1,
            n + size - 1,
            size,
        );
        assert(chunk_count(data.len() as int, size) == chunk_count(i * size + 1, size)
            || i * size + 1 < n);
        assert(i < chunk_count(data.len() as int, size));
        assert(rem < chunk_at(data, size, i).len());
        assert(chunk_at(data, size, i)[rem] == data[k]);
    }
}

/// An empty input yields no chunk.
pub proof fn lemma_chunk_count_zero(size: int)
    requires
        1 <= size,
    ensures
        chunk_count(0, size) == 0,
{
    assert(0 + size - 1 == size * 0 + (size - 1)) by (nonlinear_arith);
    vstd::arithmetic::div_mod::lemma_div_multiples_vanish_fancy(0, size - 1, size);
}

/// The error type of the external optical-code encoder.
#[verifier::external_type_specification]
#[verifier::external_body]
pub struct ExQRCodeError(fast_qr::qr::QRCodeError);

/// The module grid the external optical-code encoder produces for a byte
/// payload, encoded in byte mode at the lowest error-correction class. The
/// encoder is deterministic, so the grid is a function of the payload alone.
pub uninterp spec fn qr_modules_of(data: Seq<u8>) -> Seq<Seq<bool>>;

/// The width in modules of that grid, as a function of the payload length
/// alone: the encoder picks the symbol version from its capacity table by
/// the payload length at the fixed mode and error-correction class, and the
/// width is determined by the version.
pub uninterp spec fn qr_width_of(len: nat) -> nat;

/// Relies on fast_qr's QRBuilder: with byte mode and error-correction class L
/// forced and no version pinned, `build` succeeds exactly when the payload is
/// at most 2953 bytes (the byte-mode capacity of the largest version at class
/// L), and yields a square module matrix whose width is `version * 4 + 17`
/// for a version between 1 and 40, the version being picked from the payload
/// length alone.
#[verifier::external_body]
fn qr_encode(data: &Vec<u8>) -> (r: Result<Vec<Vec<bool>>, fast_qr::qr::QRCodeError>)
    ensures
        r is Ok <==> data@.len() <= QR_MAX_BYTES,
        r matches Ok(m) ==> {
            &&& grid_view(m@) == qr_modules_of(data@)
            &&& is_square_grid(qr_modules_of(data@))
            &&& QR_MIN_WIDTH <= qr_modules_of(data@).len() <= QR_MAX_WIDTH
            &&& qr_modules_of(data@).len() == qr_width_of(data@.len())
        },
{
    let qr = fast_qr::QRBuilder::new(data.clone())
        .mode(fast_qr::Mode::Byte)
        .ecl(fast_qr::ECL::L)
        .build()?;
    let mut rows: Vec<Vec<bool>> = Vec::new();
    for y in 0..qr.size {
        let mut row: Vec<bool> = Vec::new();
        for x in 0..qr.size {
            row.push(qr.data[y * qr.size + x].value());
        }
        rows.push(row);
    }
    Ok(rows)
}

/// The tint of sub-slice `i` under variant `v`: black for the single
/// channel; blue then yellow for two channels; cyan, magenta then yellow for
/// three. Each tint occupies mostly disjoint colour channels, so a channel
/// separation recovers which source had a dark module at a pixel.
pub open spec fn slice_tint(v: Variant, i: int) -> Color {
    match v {
        Variant::QRCode => Color { r: 0, g: 0, b: 0 },
        Variant::Color4 => if i == 0 {
            Color { r: 0, g: 0, b: 255 }
        } else {
            Color { r: 255, g: 255, b: 0 }
        },
        Variant::Color8 => if i == 0 {
            Color { r: 0, g: 255, b: 255 }
        } else if i == 1 {
            Color { r: 255, g: 0, b: 255 }
        } else {
            Color { r: 255, g: 255, b: 0 }
        },
    }
}

/// `img` is the one-pixel-per-module rendering of the symbol of `data`,
/// tinted `tint`.
pub open spec fn is_symbol_render(img: Image, data: Seq<u8>, tint: Color) -> bool {
    let g = qr_modules_of(data);
    &&& img.wf()
    &&& img.width == g.len()
    &&& img.height == g.len()
    &&& forall|x: int, y: int, c: int|
        0 <= x < g.len() && 0 <= y < g.len() && 0 <= c < 3 ==> #[trigger] img.chan(x, y, c)
            == module_chan(g, tint, x, y, c)
}

/// Encodes one payload as a single tinted symbol image, one pixel per
/// module, no margin. Fails with `Capacity` exactly when the payload exceeds
/// the byte-mode capacity at the fixed error-correction class.
pub fn generate_qrcode(data: &Vec<u8>, color: Color) -> (r: Result<Image, EncodeError>)
    ensures
        r is Ok <==> data@.len() <= QR_MAX_BYTES,
        r is Err ==> r == Err::<Image, EncodeError>(EncodeError::Capacity),
        r matches Ok(img) ==> is_symbol_render(img, data@, color) && QR_MIN_WIDTH
            <= qr_modules_of(data@).len() <= QR_MAX_WIDTH && qr_modules_of(data@).len()
            == qr_width_of(data@.len()),
{
    match qr_encode(data) {
        Ok(m) => Ok(render_modules(&m, color)),
        Err(_) => Err(EncodeError::Capacity),
    }
}

/// Sub-slice `i` of a multi-channel chunk: its bytes from `i * 512` up to
/// `(i + 1) * 512`, zero-padded to exactly 512 bytes where the chunk ends
/// early. Padding keeps the module grids of one chunk the same size by
/// construction, so the per-pixel combination stays aligned on a short final
/// chunk.
pub open spec fn sub_slice(data: Seq<u8>, i: int) -> Seq<u8> {
    Seq::new(
        CHUNK_SIZE as nat,
        |k: int|
            if i * CHUNK_SIZE + k < data.len() {
                data[i * CHUNK_SIZE + k]
            } else {
                0u8
            },
    )
}

/// Copies sub-slice `i` of a chunk, zero-padded to exactly 512 bytes.
fn take_sub_slice(data: &Vec<u8>, i: usize) -> (r: Vec<u8>)
    requires
        i <= 2,
    ensures
        r@ == sub_slice(data@, i as int),
        r@.len() == CHUNK_SIZE,
{
    let mut r: Vec<u8> = Vec::new();
    let mut k: usize = 0;
    while k < CHUNK_SIZE
        invariant
            k <= CHUNK_SIZE,
            i <= 2,
            r@.len() == k,
            forall|j: int| 0 <= j < k ==> #[trigger] r@[j] == sub_slice(data@, i as int)[j],
        decreases CHUNK_SIZE - k,
    {
        let idx = i * CHUNK_SIZE + k;
        if idx < data.len() {
            r.push(data[idx]);
        } else {
            r.push(0);
        }
        k = k + 1;
    }
    proof {
        assert(r@ =~= sub_slice(data@, i as int));
    }
    r
}

/// The width in modules of the composite of one chunk, before scaling.
pub open spec fn composite_size(data: Seq<u8>, v: Variant) -> int {
    match v {
        Variant::QRCode => qr_modules_of(data).len() as int,
        Variant::Color4 => qr_modules_of(sub_slice(data, 0)).len() as int,
        Variant::Color8 => qr_modules_of(sub_slice(data, 0)).len() as int,
    }
}

/// Channel `c` at `(x, y)` of the unscaled composite of one chunk: the
/// plain monochrome rendering for one channel, and the per-channel
/// multiplicative blend of the tinted renderings for two or three.
pub open spec fn composite_chan(data: Seq<u8>, v: Variant, x: int, y: int, c: int) -> u8 {
    match v {
        Variant::QRCode => module_chan(qr_modules_of(data), slice_tint(v, 0), x, y, c),
        Variant::Color4 => blend2_spec(
            module_chan(qr_modules_of(sub_slice(data, 0)), slice_tint(v, 0), x, y, c),
            module_chan(qr_modules_of(sub_slice(data, 1)), slice_tint(v, 1), x, y, c),
        ),
        Variant::Color8 => blend3_spec(
            module_chan(qr_modules_of(sub_slice(data, 0)), slice_tint(v, 0), x, y, c),
            module_chan(qr_modules_of(sub_slice(data, 1)), slice_tint(v, 1), x, y, c),
            module_chan(qr_modules_of(sub_slice(data, 2)), slice_tint(v, 2), x, y, c),
        ),
    }
}

/// `img` is the unscaled composite of `data` under variant `v`.
pub open spec fn is_composite(img: Image, data: Seq<u8>, v: Variant) -> bool {
    let size = composite_size(data, v);
    &&& img.wf()
    &&& img.width == size
    &&& img.height == size
    &&& QR_MIN_WIDTH <= size <= QR_MAX_WIDTH
    &&& forall|x: int, y: int, c: int|
        0 <= x < size && 0 <= y < size && 0 <= c < 3 ==> #[trigger] img.chan(x, y, c)
            == composite_chan(data, v, x, y, c)
}

/// Encodes one chunk of at most 1024 bytes as two independently encoded
/// 512-byte sub-slices, rendered blue and yellow and combined per channel by
/// multiplicative blending. Both sub-slices are exactly 512 bytes, so the
/// two module grids have the same width and the combination is always
/// defined: the call succeeds on every allowed input.
pub fn generate_4color_qrcode(data: &Vec<u8>) -> (r: Result<Image, EncodeError>)
    requires
        data@.len() <= 2 * CHUNK_SIZE,
    ensures
        r is Ok,
        r matches Ok(img) ==> is_composite(img, data@, Variant::Color4),
{
    let s0 = take_sub_slice(data, 0);
    let s1 = take_sub_slice(data, 1);
    let q0 = generate_qrcode(&s0, Color { r: 0, g: 0, b: 255 }).unwrap();
    let q1 = generate_qrcode(&s1, Color { r: 255, g: 255, b: 0 }).unwrap();
    proof {
        assert(q0.same_dims(q1));
    }
    let img = combine2(&q0, &q1);
    proof {
        lemma_composite_chan_2(img, q0, q1, data@);
    }
    Ok(img)
}

/// The flat pointwise blend of two symbol renderings is the composite of
/// the chunk, channel by channel.
proof fn lemma_composite_chan_2(img: Image, q0: Image, q1: Image, data: Seq<u8>)
    requires
        is_symbol_render(q0, sub_slice(data, 0), slice_tint(Variant::Color4, 0)),
        is_symbol_render(q1, sub_slice(data, 1), slice_tint(Variant::Color4, 1)),
        q0.same_dims(q1),
        QR_MIN_WIDTH <= qr_modules_of(sub_slice(data, 0)).len() <= QR_MAX_WIDTH,
        img.wf(),
        img.same_dims(q0),
        forall|k: int|
            0 <= k < img.pixels@.len() ==> #[trigger] img.pixels@[k] == blend2_spec(
                q0.pixels@[k],
                q1.pixels@[k],
            ),
    ensures
        is_composite(img, data, Variant::Color4),
{
    let size = composite_size(data, Variant::Color4);
    assert forall|x: int, y: int, c: int|
        0 <= x < size && 0 <= y < size && 0 <= c < 3 implies #[trigger] img.chan(x, y, c)
        == composite_chan(data, Variant::Color4, x, y, c) by {
        crate::raster::lemma_pixel_index(img.width as int, img.height as int, x, y, c);
        assert(img.chan(x, y, c) == blend2_spec(q0.chan(x, y, c), q1.chan(x, y, c)));
        assert(q0.chan(x, y, c) == module_chan(
            qr_modules_of(sub_slice(data, 0)),
            slice_tint(Variant::Color4, 0),
            x,
            y,
            c,
        ));
        assert(q1.chan(x, y, c) == module_chan(
            qr_modules_of(sub_slice(data, 1)),
            slice_tint(Variant::Color4, 1),
            x,
            y,
            c,
        ));
    }
}

/// Encodes one chunk of at most 1536 bytes as three independently encoded
/// 512-byte sub-slices, rendered cyan, magenta and yellow and combined per
/// channel by multiplicative blending. All sub-slices are exactly 512 bytes,
/// so the three module grids have the same width and the combination is
/// always defined: the call succeeds on every allowed input.
pub fn generate_8color_qrcode(data: &Vec<u8>) -> (r: Result<Image, EncodeError>)
    requires
        data@.len() <= 3 * CHUNK_SIZE,
    ensures
        r is Ok,
        r matches Ok(img) ==> is_composite(img, data@, Variant::Color8),
{
    let s0 = take_sub_slice(data, 0);
    let s1 = take_sub_slice(data, 1);
    let s2 = take_sub_slice(data, 2);
    let q0 = generate_qrcode(&s0, Color { r: 0, g: 255, b: 255 }).unwrap();
    let q1 = generate_qrcode(&s1, Color { r: 255, g: 0, b: 255 }).unwrap();
    let q2 = generate_qrcode(&s2, Color { r: 255, g: 255, b: 0 }).unwrap();
    proof {
        assert(q0.same_dims(q1));
        assert(q0.same_dims(q2));
    }
    let img = combine3(&q0, &q1, &q2);
    proof {
        lemma_composite_chan_3(img, q0, q1, q2, data@);
    }
    Ok(img)
}

/// The flat pointwise blend of three symbol renderings is the composite of
/// the chunk, channel by channel.
proof fn lemma_composite_chan_3(img: Image, q0: Image, q1: Image, q2: Image, data: Seq<u8>)
    requires
        is_symbol_render(q0, sub_slice(data, 0), slice_tint(Variant::Color8, 0)),
        is_symbol_render(q1, sub_slice(data, 1), slice_tint(Variant::Color8, 1)),
        is_symbol_render(q2, sub_slice(data, 2), slice_tint(Variant::Color8, 2)),
        q0.same_dims(q1),
        q0.same_dims(q2),
        QR_MIN_WIDTH <= qr_modules_of(sub_slice(data, 0)).len() <= QR_MAX_WIDTH,
        img.wf(),
        img.same_dims(q0),
        forall|k: int|
            0 <= k < img.pixels@.len() ==> #[trigger] img.pixels@[k] == blend3_spec(
                q0.pixels@[k],
                q1.pixels@[k],
                q2.pixels@[k],
            ),
    ensures
        is_composite(img, data, Variant::Color8),
{
    let size = composite_size(data, Variant::Color8);
    assert forall|x: int, y: int, c: int|
        0 <= x < size && 0 <= y < size && 0 <= c < 3 implies #[trigger] img.chan(x, y, c)
        == composite_chan(data, Variant::Color8, x, y, c) by {
        crate::raster::lemma_pixel_index(img.width as int, img.height as int, x, y, c);
        assert(img.chan(x, y, c) == blend3_spec(
            q0.chan(x, y, c),
            q1.chan(x, y, c),
            q2.chan(x, y, c),
        ));
        assert(q0.chan(x, y, c) == module_chan(
            qr_modules_of(sub_slice(data, 0)),
            slice_tint(Variant::Color8, 0),
            x,
            y,
            c,
        ));
        assert(q1.chan(x, y, c) == module_chan(
            qr_modules_of(sub_slice(data, 1)),
            slice_tint(Variant::Color8, 1),
            x,
            y,
            c,
        ));
        assert(q2.chan(x, y, c) == module_chan(
            qr_modules_of(sub_slice(data, 2)),
            slice_tint(Variant::Color8, 2),
            x,
            y,
            c,
        ));
    }
}

/// `img` is the final composite symbol image of one chunk: the unscaled
/// composite scaled to the fixed symbol size by nearest-neighbour sampling.
pub open spec fn is_symbol_image(img: Image, data: Seq<u8>, v: Variant) -> bool {
    let size = composite_size(data, v);
    &&& img.wf()
    &&& img.width == QRCODE_SIZE
    &&& img.height == QRCODE_SIZE
    &&& forall|x: int, y: int, c: int|
        0 <= x < QRCODE_SIZE && 0 <= y < QRCODE_SIZE && 0 <= c < 3 ==> #[trigger] img.chan(x, y, c)
            == composite_chan(data, v, (x * size) / QRCODE_SIZE as int, (y * size) / QRCODE_SIZE as int, c)
}

/// Encodes one chunk as its final fixed-size composite symbol image under
/// the given variant: the tinted sub-slice renderings are combined and the
/// result is scaled once, by nearest-neighbour sampling, to the fixed symbol
/// size. Every chunk of at most `512 * d` bytes encodes: a single channel
/// stays within the symbol capacity, and the padded sub-slices of a
/// multi-channel chunk always align.
pub fn generate_variant(data: &Vec<u8>, variant: &Variant) -> (r: Result<Image, EncodeError>)
    requires
        data@.len() <= CHUNK_SIZE * variant.density(),
    ensures
        r is Ok,
        r matches Ok(img) ==> is_symbol_image(img, data@, *variant),
{
    let composite: Image = match variant {
        Variant::QRCode => generate_qrcode(data, Color { r: 0, g: 0, b: 0 }).unwrap(),
        Variant::Color4 => generate_4color_qrcode(data).unwrap(),
        Variant::Color8 => generate_8color_qrcode(data).unwrap(),
    };
    proof {
        assert(is_composite(composite, data@, *variant));
    }
    let img = scale_nearest(&composite, QRCODE_SIZE, QRCODE_SIZE);
    proof {
        let size = composite_size(data@, *variant);
        assert forall|x: int, y: int, c: int|
            0 <= x < QRCODE_SIZE && 0 <= y < QRCODE_SIZE && 0 <= c < 3 implies #[trigger] img.chan(
            x,
            y,
            c,
        ) == composite_chan(
            data@,
            *variant,
            (x * size) / QRCODE_SIZE as int,
            (y * size) / QRCODE_SIZE as int,
            c,
        ) by {
            crate::raster::lemma_scale_index(x, QRCODE_SIZE as int, size);
            crate::raster::lemma_scale_index(y, QRCODE_SIZE as int, size);
        }
    }
    Ok(img)
}

/// Combination monotonicity: for two or three channels, a channel of the
/// composite never exceeds the corresponding channel of any tinted source
/// rendering — multiplicative blending only darkens.
pub proof fn lemma_composite_monotone(data: Seq<u8>, v: Variant, x: int, y: int, c: int)
    requires
        v is Color4 || v is Color8,
    ensures
        forall|i: int|
            0 <= i < v.density() ==> composite_chan(data, v, x, y, c) <= #[trigger] module_chan(
                qr_modules_of(sub_slice(data, i)),
                slice_tint(v, i),
                x,
                y,
                c,
            ),
{
    let m0 = module_chan(qr_modules_of(sub_slice(data, 0)), slice_tint(v, 0), x, y, c);
    let m1 = module_chan(qr_modules_of(sub_slice(data, 1)), slice_tint(v, 1), x, y, c);
    if v is Color4 {
        crate::raster::lemma_blend2_le(m0, m1);
    } else {
        let m2 = module_chan(qr_modules_of(sub_slice(data, 2)), slice_tint(v, 2), x, y, c);
        crate::raster::lemma_blend3_le(m0, m1, m2);
    }
    assert forall|i: int| 0 <= i < v.density() implies composite_chan(data, v, x, y, c)
        <= #[trigger] module_chan(qr_modules_of(sub_slice(data, i)), slice_tint(v, i), x, y, c) by {
        assert(i == 0 || i == 1 || i == 2);
    }
}

/// Density idempotence: no blend arithmetic touches a single-channel chunk.
/// An image is the unscaled composite of such a chunk exactly when it is the
/// plain monochrome rendering of the chunk's one symbol, dark modules black
/// on white.
pub proof fn lemma_density1_is_plain_render(img: Image, data: Seq<u8>)
    requires
        QR_MIN_WIDTH <= qr_modules_of(data).len() <= QR_MAX_WIDTH,
    ensures
        is_composite(img, data, Variant::QRCode) <==> is_symbol_render(
            img,
            data,
            slice_tint(Variant::QRCode, 0),
        ),
{
}

/// Determinism: any two composite symbol images of the same chunk under the
/// same variant agree in their dimensions and in every pixel byte.
pub proof fn lemma_symbol_image_unique(a: Image, b: Image, data: Seq<u8>, v: Variant)
    requires
        is_symbol_image(a, data, v),
        is_symbol_image(b, data, v),
    ensures
        a.width == b.width,
        a.height == b.height,
        a.pixels@ == b.pixels@,
{
    let w = a.width as int;
    let h = a.height as int;
    assert(3 * (w * h) == 3 * w * h) by (nonlinear_arith);
    assert forall|k: int| 0 <= k < a.pixels@.len() implies a.pixels@[k] == b.pixels@[k] by {
        let j = k / 3;
        let c = k % 3;
        vstd::arithmetic::div_mod::lemma_fundamental_div_mod(k, 3);
        vstd::arithmetic::div_mod::lemma_mod_bound(k, 3);
        vstd::arithmetic::div_mod::lemma_div_pos_is_pos(k, 3);
        vstd::arithmetic::div_mod::lemma_multiply_divide_lt(k, 3, w * h);
        let x = j % w;
        let y = j / w;
        vstd::arithmetic::div_mod::lemma_fundamental_div_mod(j, w);
        vstd::arithmetic::div_mod::lemma_mod_bound(j, w);
        vstd::arithmetic::div_mod::lemma_div_pos_is_pos(j, w);
        vstd::arithmetic::div_mod::lemma_multiply_divide_lt(j, w, h);
        assert(a.chan(x, y, c) == b.chan(x, y, c));
        assert(3 * (y * w + x) + c == k) by (nonlinear_arith)
            requires
                k == 3 * j + c,
                j == w * y + x,
        ;
    }
    assert(a.pixels@ =~= b.pixels@);
}

/// The chunk size in bytes under variant `v`: 512 bytes for each of its
/// channels.
pub open spec fn variant_chunk_size(v: Variant) -> int {
    CHUNK_SIZE * v.density()
}

/// Splits the input into chunks of `512 * d` bytes and encodes every chunk
/// as one composite symbol image, in chunk order: image `i` encodes chunk
/// `i`, and the order is never permuted. Every chunk is within the symbol
/// capacity and its sub-slices always align, so the call always succeeds.
pub fn generate_qrcodes(data: &Vec<u8>, variant: &Variant) -> (r: Result<
    Vec<Image>,
    EncodeError,
>)
    ensures
        r is Ok,
        r matches Ok(imgs) ==> {
            &&& imgs@.len() == chunk_count(data@.len() as int, variant_chunk_size(*variant))
            &&& forall|i: int|
                0 <= i < imgs@.len() ==> is_symbol_image(
                    #[trigger] imgs@[i],
                    chunk_at(data@, variant_chunk_size(*variant), i),
                    *variant,
                )
        },
{
    let d = variant.data_density();
    let size = CHUNK_SIZE * d;
    let chunks = chunk_bytes(data, size);
    let n = chunks.len();
    let mut imgs: Vec<Image> = Vec::new();
    let mut i: usize = 0;
    while i < n
        invariant
            d == variant.density(),
            size == variant_chunk_size(*variant),
            size >= 1,
            n == chunks@.len(),
            chunks@.len() == chunk_count(data@.len() as int, size as int),
            forall|j: int|
                0 <= j < chunks@.len() ==> (#[trigger] chunks@[j])@ == chunk_at(
                    data@,
                    size as int,
                    j,
                ),
            imgs@.len() == i,
            i <= n,
            forall|j: int|
                0 <= j < i ==> is_symbol_image(
                    #[trigger] imgs@[j],
                    chunk_at(data@, size as int, j),
                    *variant,
                ),
        decreases n - i,
    {
        proof {
            lemma_chunk_sizes(data@, size as int);
        }
        let img = generate_variant(&chunks[i], variant).unwrap();
        imgs.push(img);
        i = i + 1;
    }
    Ok(imgs)
}

} // verus!
