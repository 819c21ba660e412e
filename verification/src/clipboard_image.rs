//! The byte layouts a page image is handed to the system clipboard in:
//! straight RGBA rows, or a bottom-up 24-bit device-independent bitmap.
use vstd::prelude::*;

verus! {

/// One pixel, as the viewer stores it.
#[derive(Clone, Copy, Debug, PartialEq, Eq)]
pub struct Rgba {
    pub r: u8,
    pub g: u8,
    pub b: u8,
    pub a: u8,
}

/// The pixels in order, each as its four bytes red, green, blue, alpha.
pub open spec fn rgba_flat(ps: Seq<Rgba>) -> Seq<u8>
    decreases ps.len(),
{
    if ps.len() == 0 {
        Seq::empty()
    } else {
        let p = ps.last();
        rgba_flat(ps.drop_last()) + seq![p.r, p.g, p.b, p.a]
    }
}

/// The RGBA bytes of an image, pixel after pixel.
pub fn rgba_bytes(pixels: &Vec<Rgba>) -> (r: Vec<u8>)
    ensures
        r@ == rgba_flat(pixels@),
{
    let mut out: Vec<u8> = Vec::new();
    let mut i: usize = 0;
    while i < pixels.len()
        invariant
            i <= pixels@.len(),
            out@ == rgba_flat(pixels@.take(i as int)),
        decreases pixels@.len() - i,
    {
        let p = pixels[i];
        out.push(p.r);
        out.push(p.g);
        out.push(p.b);
        out.push(p.a);
        proof {
            assert(pixels@.take(i + 1).drop_last() =~= pixels@.take(i as int));
            assert(out@ =~= rgba_flat(pixels@.take(i as int)) + seq![p.r, p.g, p.b, p.a]);
        }
        i = i + 1;
    }
    assert(pixels@.take(pixels@.len() as int) =~= pixels@);
    out
}

/// The number of bytes of one row of a 24-bit bitmap `w` pixels wide: three
/// per pixel, rounded up to a multiple of four.
pub open spec fn dib_stride(w: int) -> int {
    (w * 3 + 3) / 4 * 4
}

/// The bitmap row made from image row `src_y`: blue, green and red of each
/// pixel, then zero padding.
pub open spec fn dib_row(pixels: Seq<Rgba>, w: int, src_y: int) -> Seq<u8> {
    Seq::new(
        dib_stride(w) as nat,
        |j: int|
            if j < 3 * w {
                let p = pixels[src_y * w + j / 3];
                if j % 3 == 0 {
                    p.b
                } else if j % 3 == 1 {
                    p.g
                } else {
                    p.r
                }
            } else {
                0u8
            },
    )
}

/// The first `k` rows of the bitmap of an image `w` by `h`: a bitmap lists its
/// rows bottom-up, so its row `y` comes from image row `h - 1 - y`.
pub open spec fn dib_rows(pixels: Seq<Rgba>, w: int, h: int, k: int) -> Seq<u8>
    decreases k,
{
    if k <= 0 {
        Seq::empty()
    } else {
        dib_rows(pixels, w, h, k - 1) + dib_row(pixels, w, h - k)
    }
}

/// The pixel bytes of the 24-bit bitmap of an image `w` by `h`.
pub open spec fn dib_pixels(pixels: Seq<Rgba>, w: int, h: int) -> Seq<u8> {
    dib_rows(pixels, w, h, h)
}

proof fn lemma_stride_bounds(w: int)
    requires
        w >= 0,
    ensures
        3 * w <= dib_stride(w) <= 3 * w + 3,
{
}

/// The pixel bytes of the bitmap the clipboard receives for an image `w`
/// pixels wide and `h` high.
pub fn dib_pixel_data(pixels: &Vec<Rgba>, w: usize, h: usize) -> (r: Vec<u8>)
    requires
        pixels@.len() == w * h,
        w * 3 + 3 <= i32::MAX,
        dib_stride(w as int) * h <= i32::MAX,
    ensures
        r@ == dib_pixels(pixels@, w as int, h as int),
{
    let stride = (w * 3 + 3) / 4 * 4;
    proof {
        lemma_stride_bounds(w as int);
    }
    let mut out: Vec<u8> = Vec::new();
    let mut y: usize = 0;
    while y < h
        invariant
            y <= h,
            pixels@.len() == w * h,
            w * 3 + 3 <= i32::MAX,
            stride == dib_stride(w as int),
            3 * w <= stride,
            out@ == dib_rows(pixels@, w as int, h as int, y as int),
        decreases h - y,
    {
        let src_y = h - 1 - y;
        let ghost row_start = out@;
        let ghost row = dib_row(pixels@, w as int, src_y as int);
        let mut j: usize = 0;
        while j < stride
            invariant
                y < h,
                src_y == h - 1 - y,
                j <= stride,
                pixels@.len() == w * h,
                pixels.len() == w * h,
                w * 3 + 3 <= i32::MAX,
                stride == dib_stride(w as int),
                3 * w <= stride,
                row == dib_row(pixels@, w as int, src_y as int),
                out@ == row_start + row.take(j as int),
            decreases stride - j,
        {
            let byte = if j < 3 * w {
                let x = j / 3;
                proof {
                    assert(src_y * w + x < w * h) by (nonlinear_arith)
                        requires
                            src_y < h,
                            x < w,
                    ;
                    assert(src_y * w <= src_y * w + x);
                    assert(w * h == pixels.len());
                }
                let p = pixels[src_y * w + x];
                if j % 3 == 0 {
                    p.b
                } else if j % 3 == 1 {
                    p.g
                } else {
                    p.r
                }
            } else {
                0
            };
            out.push(byte);
            proof {
                assert(row.take(j + 1) =~= row.take(j as int).push(row[j as int]));
            }
            j = j + 1;
        }
        proof {
            assert(row.take(stride as int) =~= row);
        }
        y = y + 1;
    }
    out
}

/// The four little-endian bytes of `v`.
pub open spec fn le32(v: u32) -> Seq<u8> {
    seq![
        (v % 256) as u8,
        ((v / 256) % 256) as u8,
        ((v / 65536) % 256) as u8,
        ((v / 16777216) % 256) as u8,
    ]
}

/// The two little-endian bytes of `v`.
pub open spec fn le16(v: u16) -> Seq<u8> {
    seq![(v % 256) as u8, ((v / 256) % 256) as u8]
}

/// The 40-byte `BITMAPINFOHEADER` of a bottom-up, uncompressed 24-bit bitmap
/// `w` by `h` whose pixel bytes take `size_image` bytes.
pub open spec fn dib_header(w: u32, h: u32, size_image: u32) -> Seq<u8> {
    le32(40) + le32(w) + le32(h) + le16(1) + le16(24) + le32(0) + le32(size_image) + le32(0)
        + le32(0) + le32(0) + le32(0)
}

fn push_le32(out: &mut Vec<u8>, v: u32)
    ensures
        final(out)@ == old(out)@ + le32(v),
{
    out.push((v % 256) as u8);
    out.push(((v / 256) % 256) as u8);
    out.push(((v / 65536) % 256) as u8);
    out.push(((v / 16777216) % 256) as u8);
    assert(out@ =~= old(out)@ + le32(v));
}

fn push_le16(out: &mut Vec<u8>, v: u16)
    ensures
        final(out)@ == old(out)@ + le16(v),
{
    out.push((v % 256) as u8);
    out.push(((v / 256) % 256) as u8);
    assert(out@ =~= old(out)@ + le16(v));
}

/// The header of the bitmap the clipboard receives for an image `w` by `h`.
pub fn dib_header_bytes(w: u32, h: u32) -> (r: Vec<u8>)
    requires
        w * 3 + 3 <= i32::MAX,
        dib_stride(w as int) * h <= i32::MAX,
    ensures
        r@ == dib_header(w, h, (dib_stride(w as int) * h) as u32),
        r@.len() == 40,
{
    let stride = (w * 3 + 3) / 4 * 4;
    assert(stride * h <= i32::MAX);
    let size_image = stride * h;
    let mut out: Vec<u8> = Vec::new();
    push_le32(&mut out, 40);
    push_le32(&mut out, w);
    push_le32(&mut out, h);
    push_le16(&mut out, 1);
    push_le16(&mut out, 24);
    push_le32(&mut out, 0);
    push_le32(&mut out, size_image);
    push_le32(&mut out, 0);
    push_le32(&mut out, 0);
    push_le32(&mut out, 0);
    push_le32(&mut out, 0);
    assert(out@ =~= dib_header(w, h, (dib_stride(w as int) * h) as u32));
    out
}

proof fn lemma_dib_rows_index(pixels: Seq<Rgba>, w: int, h: int, k: int, y: int, j: int)
    requires
        w >= 0,
        0 <= k,
        0 <= y < k,
        0 <= j < dib_stride(w),
    ensures
        dib_rows(pixels, w, h, k).len() == k * dib_stride(w),
        y * dib_stride(w) + j < k * dib_stride(w),
        dib_rows(pixels, w, h, k)[y * dib_stride(w) + j] == dib_row(pixels, w, h - 1 - y)[j],
    decreases k,
{
    let s = dib_stride(w);
    lemma_dib_rows_len(pixels, w, h, k - 1);
    if y < k - 1 {
        lemma_dib_rows_index(pixels, w, h, k - 1, y, j);
    } else {
        assert(y * s == (k - 1) * s);
    }
    assert(k * s == (k - 1) * s + s) by (nonlinear_arith);
}

proof fn lemma_dib_rows_len(pixels: Seq<Rgba>, w: int, h: int, k: int)
    requires
        w >= 0,
    ensures
        k >= 0 ==> dib_rows(pixels, w, h, k).len() == k * dib_stride(w),
    decreases k,
{
    if k > 0 {
        lemma_dib_rows_len(pixels, w, h, k - 1);
        lemma_stride_bounds(w);
        assert(k * dib_stride(w) == (k - 1) * dib_stride(w) + dib_stride(w)) by (nonlinear_arith);
        assert(dib_row(pixels, w, h - k).len() == dib_stride(w));
    } else if k == 0 {
        assert(0 * dib_stride(w) == 0);
    }
}

/// Every row of the bitmap takes the fewest bytes that hold three per pixel
/// and are a whole number of 4-byte words, so the pixel data of an image `h`
/// rows high takes `h` times that, also a multiple of four.
pub proof fn law_dib_rows_are_word_aligned(pixels: Seq<Rgba>, w: int, h: int)
    requires
        w >= 0,
        h >= 0,
    ensures
        dib_stride(w) % 4 == 0,
        3 * w <= dib_stride(w) < 3 * w + 4,
        dib_pixels(pixels, w, h).len() == h * dib_stride(w),
        dib_pixels(pixels, w, h).len() % 4 == 0,
{
    lemma_dib_rows_len(pixels, w, h, h);
    let s = dib_stride(w);
    assert((h * s) % 4 == 0) by (nonlinear_arith)
        requires
            s % 4 == 0,
    {
        assert(h * s == h * (s / 4) * 4);
    }
}

/// Row `y` of the bitmap comes from image row `h - 1 - y` (bitmaps are stored
/// bottom-up): pixel `x` of it is written at byte `3 * x` of the row as blue,
/// green, red.
pub proof fn law_dib_pixel_is_blue_green_red(pixels: Seq<Rgba>, w: int, h: int, y: int, x: int)
    requires
        pixels.len() == w * h,
        0 <= y < h,
        0 <= x < w,
    ensures
        ({
            let s = dib_stride(w);
            let bytes = dib_pixels(pixels, w, h);
            let p = pixels[(h - 1 - y) * w + x];
            &&& bytes[y * s + 3 * x] == p.b
            &&& bytes[y * s + 3 * x + 1] == p.g
            &&& bytes[y * s + 3 * x + 2] == p.r
        }),
{
    lemma_stride_bounds(w);
    lemma_dib_rows_index(pixels, w, h, h, y, 3 * x);
    lemma_dib_rows_index(pixels, w, h, h, y, 3 * x + 1);
    lemma_dib_rows_index(pixels, w, h, h, y, 3 * x + 2);
    assert((3 * x) / 3 == x && (3 * x) % 3 == 0);
    assert((3 * x + 1) / 3 == x && (3 * x + 1) % 3 == 1);
    assert((3 * x + 2) / 3 == x && (3 * x + 2) % 3 == 2);
}

/// The bytes of a bitmap row after the pixels are zero padding.
pub proof fn law_dib_row_padding_is_zero(pixels: Seq<Rgba>, w: int, h: int, y: int, j: int)
    requires
        w >= 0,
        0 <= y < h,
        3 * w <= j < dib_stride(w),
    ensures
        dib_pixels(pixels, w, h)[y * dib_stride(w) + j] == 0,
{
    lemma_dib_rows_index(pixels, w, h, h, y, j);
}

/// The RGBA bytes hold four bytes per pixel, in pixel order: red, green,
/// blue, alpha of pixel `i` at bytes `4 * i` to `4 * i + 3`.
pub proof fn law_rgba_bytes_pixel_order(ps: Seq<Rgba>, i: int)
    requires
        0 <= i < ps.len(),
    ensures
        rgba_flat(ps).len() == 4 * ps.len(),
        rgba_flat(ps)[4 * i] == ps[i].r,
        rgba_flat(ps)[4 * i + 1] == ps[i].g,
        rgba_flat(ps)[4 * i + 2] == ps[i].b,
        rgba_flat(ps)[4 * i + 3] == ps[i].a,
    decreases ps.len(),
{
    lemma_rgba_flat_len(ps.drop_last());
    if i < ps.len() - 1 {
        law_rgba_bytes_pixel_order(ps.drop_last(), i);
    }
}

proof fn lemma_rgba_flat_len(ps: Seq<Rgba>)
    ensures
        rgba_flat(ps).len() == 4 * ps.len(),
    decreases ps.len(),
{
    if ps.len() > 0 {
        lemma_rgba_flat_len(ps.drop_last());
    }
}

/// The bitmap header is 40 bytes long and describes an uncompressed,
/// bottom-up bitmap of one plane and 24 bits per pixel, `w` by `h`, whose
/// pixel data takes `size_image` bytes; every number is little-endian.
pub proof fn law_dib_header_fields(w: u32, h: u32, size_image: u32)
    ensures
        ({
            let hd = dib_header(w, h, size_image);
            let word = |k: int| hd[k] + hd[k + 1] * 256 + hd[k + 2] * 65536 + hd[k + 3] * 16777216;
            &&& hd.len() == 40
            &&& word(0) == 40
            &&& word(4) == w
            &&& word(8) == h
            &&& hd[12] + hd[13] * 256 == 1
            &&& hd[14] + hd[15] * 256 == 24
            &&& word(16) == 0
            &&& word(20) == size_image
            &&& forall|k: int| 24 <= k < 40 ==> hd[k] == 0
        }),
{
    let hd = dib_header(w, h, size_image);
    assert(hd.len() == 40);
    assert(hd[4] == (w % 256) as u8 && hd[5] == ((w / 256) % 256) as u8 && hd[6] == ((w / 65536)
        % 256) as u8 && hd[7] == ((w / 16777216) % 256) as u8);
    assert(hd[8] == (h % 256) as u8 && hd[9] == ((h / 256) % 256) as u8 && hd[10] == ((h / 65536)
        % 256) as u8 && hd[11] == ((h / 16777216) % 256) as u8);
    assert(hd[20] == (size_image % 256) as u8 && hd[21] == ((size_image / 256) % 256) as u8
        && hd[22] == ((size_image / 65536) % 256) as u8 && hd[23] == ((size_image / 16777216)
        % 256) as u8);
    lemma_le32_word(w);
    lemma_le32_word(h);
    lemma_le32_word(size_image);
}

proof fn lemma_le32_word(v: u32)
    ensures
        (v % 256) as u8 + ((v / 256) % 256) as u8 * 256 + ((v / 65536) % 256) as u8 * 65536 + ((v
            / 16777216) % 256) as u8 * 16777216 == v,
{
    assert(v / 16777216 < 256);
}

} // verus!
