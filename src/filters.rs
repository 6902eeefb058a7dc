use vstd::prelude::*;
use vstd::arithmetic::div_mod::{lemma_fundamental_div_mod, lemma_fundamental_div_mod_converse, lemma_mod_pos_bound};
use crate::image::{pixel_offset, Image};

verus! {

/// Execution strategy for a resize.
#[derive(Clone, Copy, Debug, PartialEq, Eq, Structural)]
pub enum ResizeBackend {
    Cpu,
    Simd,
    Gpu,
}

/// Sampling strategy for a resize.
#[derive(Clone, Copy, Debug, PartialEq, Eq, Structural)]
pub enum ResizeAlgorithm {
    Nearest,
    Bilinear,
    Bicubic,
}

/// Why a filter produced no image.
#[derive(Clone, Copy, Debug, PartialEq, Eq, Structural)]
pub enum FilterError {
    /// The filter does not handle the image's pixel format.
    InvalidOperation,
    /// The requested backend and algorithm pair has no implementation.
    Unsupported,
}

/// The capability table of `resize`: which pairs have an implementation.
pub open spec fn is_implemented(backend: ResizeBackend, algorithm: ResizeAlgorithm) -> bool {
    backend == ResizeBackend::Cpu && algorithm == ResizeAlgorithm::Nearest
}

/// Source coordinate that destination coordinate `d` reads, by floor division.
pub open spec fn nearest_coord(d: int, src_len: int, dst_len: int) -> int {
    d * src_len / dst_len
}

/// Byte `i` of the nearest-neighbor resize of a row-major buffer with
/// `ch` channels from `width x height` to `new_width x new_height`.
pub open spec fn nearest_byte(
    src: Seq<u8>,
    width: int,
    height: int,
    ch: int,
    new_width: int,
    new_height: int,
    i: int,
) -> u8 {
    let p = i / ch;
    let x = p % new_width;
    let y = p / new_width;
    let sx = nearest_coord(x, width, new_width);
    let sy = nearest_coord(y, height, new_height);
    src[(sy * width + sx) * ch + i % ch]
}

/// The whole buffer of the nearest-neighbor resize of `img`.
pub open spec fn nearest_data(img: Image, new_width: int, new_height: int) -> Seq<u8> {
    Seq::new(
        (new_width * new_height * img.channels()) as nat,
        |i: int|
            nearest_byte(
                img.spec_data(),
                img.spec_width() as int,
                img.spec_height() as int,
                img.channels() as int,
                new_width,
                new_height,
                i,
            ),
    )
}

/// `out` is `img` resized by nearest neighbor: same format, the new size, and
/// the buffer of `nearest_data`.
pub open spec fn is_nearest_resize(img: Image, new_width: int, new_height: int, out: Image) -> bool {
    &&& out.channels() == img.channels()
    &&& out.spec_width() == new_width
    &&& out.spec_height() == new_height
    &&& out.spec_data() == nearest_data(img, new_width, new_height)
}

/// What the nearest-neighbor algorithm needs of its arguments: an empty source
/// cannot fill a non-empty target, and all offsets fit in `usize`.
pub open spec fn nearest_fits(img: Image, new_width: int, new_height: int) -> bool {
    &&& (new_width > 0 && new_height > 0) ==> (img.spec_width() > 0 && img.spec_height() > 0)
    &&& new_width * new_height * img.channels() <= usize::MAX
    &&& new_width * img.spec_width() <= usize::MAX
    &&& new_height * img.spec_height() <= usize::MAX
}

proof fn lemma_coord_in_range(d: int, src_len: int, dst_len: int)
    requires
        0 <= d < dst_len,
        0 < src_len,
    ensures
        0 <= nearest_coord(d, src_len, dst_len) < src_len,
        d * src_len < dst_len * src_len,
{
    assert(d * src_len < dst_len * src_len) by (nonlinear_arith)
        requires 0 <= d < dst_len, 0 < src_len;
    assert(0 <= d * src_len) by (nonlinear_arith)
        requires 0 <= d, 0 < src_len;
    let q = d * src_len / dst_len;
    assert(q * dst_len <= d * src_len) by (nonlinear_arith)
        requires q == d * src_len / dst_len, dst_len > 0, d * src_len >= 0;
    assert(q < src_len) by (nonlinear_arith)
        requires q * dst_len <= d * src_len, d * src_len < dst_len * src_len, dst_len > 0;
    assert(0 <= q) by (nonlinear_arith)
        requires q == d * src_len / dst_len, dst_len > 0, d * src_len >= 0;
}

proof fn lemma_offset_in_range(x: int, y: int, c: int, w: int, h: int, ch: int)
    requires
        0 <= x < w,
        0 <= y < h,
        0 <= c < ch,
    ensures
        0 <= (y * w + x) * ch + c < w * h * ch,
{
    assert(0 <= (y * w + x) * ch + c < w * h * ch) by (nonlinear_arith)
        requires 0 <= x < w, 0 <= y < h, 0 <= c < ch;
}

/// Fills the nearest-neighbor buffer row by row.
fn nearest_buffer(
    src: &Vec<u8>,
    width: usize,
    height: usize,
    ch: usize,
    new_width: usize,
    new_height: usize,
) -> (out: Vec<u8>)
    requires
        ch == 1 || ch == 3,
        src@.len() == width * height * ch,
        (new_width > 0 && new_height > 0) ==> (width > 0 && height > 0),
        new_width * new_height * ch <= usize::MAX,
        new_width * width <= usize::MAX,
        new_height * height <= usize::MAX,
    ensures
        out@.len() == new_width * new_height * ch,
        forall|i: int|
            0 <= i < out@.len() ==> out@[i] == nearest_byte(
                src@,
                width as int,
                height as int,
                ch as int,
                new_width as int,
                new_height as int,
                i,
            ),
{
    let src_len = src.len();
    let mut out: Vec<u8> = Vec::new();
    let mut y: usize = 0;
    while y < new_height
        invariant
            ch == 1 || ch == 3,
            src@.len() == width * height * ch,
            (new_width > 0 && new_height > 0) ==> (width > 0 && height > 0),
            new_width * new_height * ch <= usize::MAX,
            new_width * width <= usize::MAX,
            new_height * height <= usize::MAX,
            src_len == src@.len(),
            y <= new_height,
            out@.len() == y * new_width * ch,
            forall|i: int|
                0 <= i < out@.len() ==> out@[i] == nearest_byte(
                    src@,
                    width as int,
                    height as int,
                    ch as int,
                    new_width as int,
                    new_height as int,
                    i,
                ),
        decreases new_height - y,
    {
        let mut x: usize = 0;
        while x < new_width
            invariant
                ch == 1 || ch == 3,
                src@.len() == width * height * ch,
                (new_width > 0 && new_height > 0) ==> (width > 0 && height > 0),
                new_width * new_height * ch <= usize::MAX,
                new_width * width <= usize::MAX,
                new_height * height <= usize::MAX,
                src_len == src@.len(),
                y < new_height,
                x <= new_width,
                out@.len() == (y * new_width + x) * ch,
                forall|i: int|
                    0 <= i < out@.len() ==> out@[i] == nearest_byte(
                        src@,
                        width as int,
                        height as int,
                        ch as int,
                        new_width as int,
                        new_height as int,
                        i,
                    ),
            decreases new_width - x,
        {
            proof {
                lemma_coord_in_range(x as int, width as int, new_width as int);
                lemma_coord_in_range(y as int, height as int, new_height as int);
            }
            let src_x = x * width / new_width;
            let src_y = y * height / new_height;
            proof {
                lemma_offset_in_range(src_x as int, src_y as int, 0, width as int, height as int, ch as int);
            }
            let base = (src_y * width + src_x) * ch;
            let mut c: usize = 0;
            while c < ch
                invariant
                    ch == 1 || ch == 3,
                    src@.len() == width * height * ch,
                    src_len == src@.len(),
                    y < new_height,
                    x < new_width,
                    src_x < width,
                    src_y < height,
                    src_x == nearest_coord(x as int, width as int, new_width as int),
                    src_y == nearest_coord(y as int, height as int, new_height as int),
                    base == (src_y * width + src_x) * ch,
                    c <= ch,
                    out@.len() == (y * new_width + x) * ch + c,
                    forall|i: int|
                        0 <= i < out@.len() ==> out@[i] == nearest_byte(
                            src@,
                            width as int,
                            height as int,
                            ch as int,
                            new_width as int,
                            new_height as int,
                            i,
                        ),
                decreases ch - c,
            {
                proof {
                    lemma_offset_in_range(src_x as int, src_y as int, c as int, width as int, height as int, ch as int);
                    let p = y * new_width + x;
                    let i = p * ch + c;
                    lemma_fundamental_div_mod_converse(i, ch as int, p, c as int);
                    lemma_fundamental_div_mod_converse(p, new_width as int, y as int, x as int);
                }
                out.push(src[base + c]);
                c += 1;
            }
            proof {
                assert((y * new_width + x) * ch + ch == (y * new_width + x + 1) * ch) by (nonlinear_arith);
            }
            x += 1;
        }
        proof {
            assert((y * new_width + new_width) * ch == (y + 1) * new_width * ch) by (nonlinear_arith);
        }
        y += 1;
    }
    assert(y * new_width * ch == new_width * new_height * ch) by (nonlinear_arith)
        requires y == new_height;
    out
}

fn resize_nearest_cpu(img: &Image, new_width: usize, new_height: usize) -> (r: Image)
    requires
        img.wf(),
        nearest_fits(*img, new_width as int, new_height as int),
    ensures
        r.wf(),
        is_nearest_resize(*img, new_width as int, new_height as int, r),
{
    match img {
        Image::Gray { width, height, data } => {
            let new_data = nearest_buffer(data, *width, *height, 1, new_width, new_height);
            assert(new_data@ =~= nearest_data(*img, new_width as int, new_height as int));
            Image::gray(new_width, new_height, new_data)
        },
        Image::Rgb { width, height, data } => {
            let new_data = nearest_buffer(data, *width, *height, 3, new_width, new_height);
            assert(new_data@ =~= nearest_data(*img, new_width as int, new_height as int));
            Image::rgb(new_width, new_height, new_data)
        },
    }
}

/// Resizes `img` to `new_width x new_height` with the given backend and
/// algorithm. Only the CPU nearest-neighbor pair is implemented; every other
/// pair reports `Unsupported` and computes nothing.
pub fn resize(
    img: &Image,
    new_width: usize,
    new_height: usize,
    backend: ResizeBackend,
    algorithm: ResizeAlgorithm,
) -> (r: Result<Image, FilterError>)
    requires
        img.wf(),
        is_implemented(backend, algorithm) ==> nearest_fits(*img, new_width as int, new_height as int),
    ensures
        is_implemented(backend, algorithm) <==> r is Ok,
        !is_implemented(backend, algorithm) ==> r == Err::<Image, FilterError>(FilterError::Unsupported),
        r matches Ok(out) ==> out.wf() && is_nearest_resize(*img, new_width as int, new_height as int, out),
{
    match backend {
        ResizeBackend::Cpu => match algorithm {
            ResizeAlgorithm::Nearest => Ok(resize_nearest_cpu(img, new_width, new_height)),
            ResizeAlgorithm::Bilinear => Err(FilterError::Unsupported),
            ResizeAlgorithm::Bicubic => Err(FilterError::Unsupported),
        },
        ResizeBackend::Simd => Err(FilterError::Unsupported),
        ResizeBackend::Gpu => Err(FilterError::Unsupported),
    }
}

/// Horizontal Sobel kernel, row-major, center at index 4.
pub open spec fn sobel_gx() -> Seq<int> {
    seq![-1, 0, 1, -2, 0, 2, -1, 0, 1]
}

/// Vertical Sobel kernel, row-major, center at index 4.
pub open spec fn sobel_gy() -> Seq<int> {
    seq![-1, -2, -1, 0, 0, 0, 1, 2, 1]
}

/// The sample under kernel cell `k` when the 3x3 kernel is centered on
/// `(x, y)`; a cell outside the image contributes nothing.
pub open spec fn tap(data: Seq<u8>, width: int, height: int, x: int, y: int, k: int) -> int {
    let ix = x + k % 3 - 1;
    let iy = y + k / 3 - 1;
    if 0 <= ix < width && 0 <= iy < height {
        data[iy * width + ix] as int
    } else {
        0
    }
}

/// Sum of the first `n` kernel cells, each tap times its weight.
pub open spec fn kernel_sum(
    data: Seq<u8>,
    width: int,
    height: int,
    x: int,
    y: int,
    kernel: Seq<int>,
    n: nat,
) -> int
    decreases n,
{
    if n == 0 {
        0
    } else {
        kernel_sum(data, width, height, x, y, kernel, (n - 1) as nat)
            + tap(data, width, height, x, y, n - 1) * kernel[n - 1]
    }
}

pub open spec fn abs(v: int) -> int {
    if v < 0 { -v } else { v }
}

/// Edge magnitude at `(x, y)`: `|sx| + |sy|`, capped at 255.
pub open spec fn sobel_value(data: Seq<u8>, width: int, height: int, x: int, y: int) -> u8 {
    let sx = kernel_sum(data, width, height, x, y, sobel_gx(), 9);
    let sy = kernel_sum(data, width, height, x, y, sobel_gy(), 9);
    let m = abs(sx) + abs(sy);
    if m > 255 { 255 } else { m as u8 }
}

/// The whole output buffer of the Sobel filter on a gray image.
pub open spec fn sobel_data(img: Image) -> Seq<u8> {
    let w = img.spec_width() as int;
    let h = img.spec_height() as int;
    Seq::new((w * h) as nat, |i: int| sobel_value(img.spec_data(), w, h, i % w, i / w))
}

/// Sobel magnitude at one pixel of a `width x height` gray buffer.
fn sobel_at(data: &Vec<u8>, width: usize, height: usize, x: usize, y: usize) -> (r: u8)
    requires
        data@.len() == width * height,
        x < width,
        y < height,
    ensures
        r == sobel_value(data@, width as int, height as int, x as int, y as int),
{
    let gx: [i32; 9] = [-1, 0, 1, -2, 0, 2, -1, 0, 1];
    let gy: [i32; 9] = [-1, -2, -1, 0, 0, 0, 1, 2, 1];
    assert(gx@.map_values(|v: i32| v as int) =~= sobel_gx());
    assert(gy@.map_values(|v: i32| v as int) =~= sobel_gy());
    let len = data.len();
    let mut sx: i32 = 0;
    let mut sy: i32 = 0;
    let mut ky: usize = 0;
    while ky < 3
        invariant
            data@.len() == width * height,
            len == data@.len(),
            x < width,
            y < height,
            ky <= 3,
            gx@.map_values(|v: i32| v as int) == sobel_gx(),
            gy@.map_values(|v: i32| v as int) == sobel_gy(),
            sx == kernel_sum(data@, width as int, height as int, x as int, y as int, sobel_gx(), (ky * 3) as nat),
            sy == kernel_sum(data@, width as int, height as int, x as int, y as int, sobel_gy(), (ky * 3) as nat),
            -1530 * ky <= sx <= 1530 * ky,
            -1530 * ky <= sy <= 1530 * ky,
        decreases 3 - ky,
    {
        let mut kx: usize = 0;
        while kx < 3
            invariant
                data@.len() == width * height,
                len == data@.len(),
                x < width,
                y < height,
                ky < 3,
                kx <= 3,
                gx@.map_values(|v: i32| v as int) == sobel_gx(),
                gy@.map_values(|v: i32| v as int) == sobel_gy(),
                sx == kernel_sum(data@, width as int, height as int, x as int, y as int, sobel_gx(), (ky * 3 + kx) as nat),
                sy == kernel_sum(data@, width as int, height as int, x as int, y as int, sobel_gy(), (ky * 3 + kx) as nat),
                -1530 * ky - 510 * kx <= sx <= 1530 * ky + 510 * kx,
                -1530 * ky - 510 * kx <= sy <= 1530 * ky + 510 * kx,
            decreases 3 - kx,
        {
            let k = ky * 3 + kx;
            assert(k % 3 == kx && k / 3 == ky);
            assert(-2 <= sobel_gx()[k as int] <= 2 && -2 <= sobel_gy()[k as int] <= 2);
            let inside = (kx >= 1 || x >= 1) && (kx == 0 || x + (kx - 1) < width)
                && (ky >= 1 || y >= 1) && (ky == 0 || y + (ky - 1) < height);
            if inside {
                let ix = if kx == 0 { x - 1 } else { x + (kx - 1) };
                let iy = if ky == 0 { y - 1 } else { y + (ky - 1) };
                proof {
                    assert(iy * width + ix < width * height) by (nonlinear_arith)
                        requires ix < width, iy < height;
                }
                let v = data[iy * width + ix] as i32;
                assert(v as int == tap(data@, width as int, height as int, x as int, y as int, k as int));
                let wx = gx[k];
                let wy = gy[k];
                assert(wx as int == sobel_gx()[k as int] && wy as int == sobel_gy()[k as int]);
                proof {
                    assert(-510 <= v * wx <= 510 && -510 <= v * wy <= 510) by (nonlinear_arith)
                        requires 0 <= v <= 255, -2 <= wx <= 2, -2 <= wy <= 2;
                    let t = tap(data@, width as int, height as int, x as int, y as int, k as int);
                    let gxk = sobel_gx()[k as int];
                    let gyk = sobel_gy()[k as int];
                    assert(v * wx == t * gxk && v * wy == t * gyk) by (nonlinear_arith)
                        requires v == t, wx == gxk, wy == gyk;
                }
                sx = sx + v * wx;
                sy = sy + v * wy;
            } else {
                assert(tap(data@, width as int, height as int, x as int, y as int, k as int) == 0);
                assert(0 * sobel_gx()[k as int] == 0 && 0 * sobel_gy()[k as int] == 0);
            }
            assert(kernel_sum(data@, width as int, height as int, x as int, y as int, sobel_gx(), (k + 1) as nat)
                == kernel_sum(data@, width as int, height as int, x as int, y as int, sobel_gx(), k as nat)
                + tap(data@, width as int, height as int, x as int, y as int, k as int) * sobel_gx()[k as int]);
            assert(kernel_sum(data@, width as int, height as int, x as int, y as int, sobel_gy(), (k + 1) as nat)
                == kernel_sum(data@, width as int, height as int, x as int, y as int, sobel_gy(), k as nat)
                + tap(data@, width as int, height as int, x as int, y as int, k as int) * sobel_gy()[k as int]);
            assert(ky * 3 + (kx + 1) == k + 1);
            kx += 1;
        }
        ky += 1;
    }
    let ax: i32 = if sx < 0 { -sx } else { sx };
    let ay: i32 = if sy < 0 { -sy } else { sy };
    let m = ax + ay;
    if m > 255 { 255 } else { m as u8 }
}

/// Sobel edge detection: the `|sx| + |sy|` gradient magnitude of every pixel,
/// capped at 255, with neighbors outside the image skipped. Gray images only.
pub fn sobel_edge_detection(img: &Image) -> (r: Result<Image, FilterError>)
    requires
        img.wf(),
    ensures
        img is Rgb <==> r == Err::<Image, FilterError>(FilterError::InvalidOperation),
        img is Gray <==> r is Ok,
        r matches Ok(out) ==> {
            &&& out is Gray
            &&& out.wf()
            &&& out.spec_width() == img.spec_width()
            &&& out.spec_height() == img.spec_height()
            &&& out.spec_data() == sobel_data(*img)
        },
{
    let (width, height, data) = match img {
        Image::Gray { width, height, data } => (*width, *height, data),
        Image::Rgb { .. } => {
            return Err(FilterError::InvalidOperation);
        },
    };
    let mut out: Vec<u8> = Vec::new();
    let mut y: usize = 0;
    while y < height
        invariant
            img is Gray,
            width == img.spec_width(),
            height == img.spec_height(),
            data@ == img.spec_data(),
            data@.len() == width * height,
            y <= height,
            out@.len() == y * width,
            forall|i: int| 0 <= i < out@.len() ==> out@[i] == sobel_data(*img)[i],
        decreases height - y,
    {
        let mut x: usize = 0;
        while x < width
            invariant
                img is Gray,
                width == img.spec_width(),
                height == img.spec_height(),
                data@ == img.spec_data(),
                data@.len() == width * height,
                y < height,
                x <= width,
                out@.len() == y * width + x,
                forall|i: int| 0 <= i < out@.len() ==> out@[i] == sobel_data(*img)[i],
            decreases width - x,
        {
            proof {
                let i = y * width + x;
                assert(i < width * height) by (nonlinear_arith)
                    requires x < width, y < height, i == y * width + x;
                lemma_fundamental_div_mod_converse(i, width as int, y as int, x as int);
            }
            let v = sobel_at(data, width, height, x, y);
            out.push(v);
            x += 1;
        }
        assert(y * width + width == (y + 1) * width) by (nonlinear_arith);
        y += 1;
    }
    assert(out@ =~= sobel_data(*img)) by {
        assert(y * width == width * height) by (nonlinear_arith)
            requires y == height;
    }
    Ok(Image::gray(width, height, out))
}

/// The binary threshold of one sample: `maxval` above `thresh`, else 0.
pub open spec fn threshold_value(v: u8, thresh: u8, maxval: u8) -> u8 {
    if v > thresh { maxval } else { 0 }
}

/// Binary threshold: every sample strictly above `thresh` becomes `maxval`,
/// every other becomes 0. Gray images only.
pub fn threshold_binary(img: &Image, thresh: u8, maxval: u8) -> (r: Result<Image, FilterError>)
    requires
        img.wf(),
    ensures
        img is Rgb <==> r == Err::<Image, FilterError>(FilterError::InvalidOperation),
        img is Gray <==> r is Ok,
        r matches Ok(out) ==> {
            &&& out is Gray
            &&& out.wf()
            &&& out.spec_width() == img.spec_width()
            &&& out.spec_height() == img.spec_height()
            &&& out.spec_data() == img.spec_data().map_values(|v: u8| threshold_value(v, thresh, maxval))
        },
{
    match img {
        Image::Gray { width, height, data } => {
            let mut out: Vec<u8> = Vec::with_capacity(data.len());
            let mut i: usize = 0;
            while i < data.len()
                invariant
                    i <= data@.len(),
                    out@.len() == i,
                    forall|j: int| 0 <= j < i ==> out@[j] == threshold_value(data@[j], thresh, maxval),
                decreases data@.len() - i,
            {
                let v = data[i];
                out.push(if v > thresh { maxval } else { 0 });
                i += 1;
            }
            assert(out@ =~= data@.map_values(|v: u8| threshold_value(v, thresh, maxval)));
            Ok(Image::gray(*width, *height, out))
        },
        Image::Rgb { .. } => Err(FilterError::InvalidOperation),
    }
}

/// Resizing by nearest neighbor to the image's own size is the identity: the
/// buffer that `resize` returns is the source buffer.
pub proof fn lemma_nearest_same_size_is_identity(img: Image)
    requires
        img.wf(),
    ensures
        nearest_data(img, img.spec_width() as int, img.spec_height() as int) == img.spec_data(),
{
    let w = img.spec_width() as int;
    let h = img.spec_height() as int;
    let ch = img.channels() as int;
    let out = nearest_data(img, w, h);
    assert forall|i: int| 0 <= i < out.len() implies out[i] == img.spec_data()[i] by {
        let p = i / ch;
        let c = i % ch;
        lemma_fundamental_div_mod(i, ch);
        lemma_mod_pos_bound(i, ch);
        assert(0 <= p < w * h) by (nonlinear_arith)
            requires i == ch * p + c, 0 <= c < ch, 0 <= i < w * h * ch, ch > 0;
        assert(w > 0 && h > 0) by (nonlinear_arith)
            requires 0 <= p < w * h, w >= 0, h >= 0;
        let x = p % w;
        let y = p / w;
        lemma_fundamental_div_mod(p, w);
        lemma_mod_pos_bound(p, w);
        lemma_fundamental_div_mod_converse(x * w, w, x, 0);
        lemma_fundamental_div_mod_converse(y * h, h, y, 0);
        assert((y * w + x) * ch + c == i) by (nonlinear_arith)
            requires p == w * y + x, i == ch * p + c;
    }
    assert(out =~= img.spec_data());
}

/// Upscaling by nearest neighbor by a whole factor `f` copies each source
/// pixel into an `f x f` block: destination pixel `(x*f + dx, y*f + dy)` holds
/// source pixel `(x, y)` for every `dx, dy < f`.
pub proof fn lemma_nearest_upscale_replicates(img: Image, f: int, x: int, y: int, dx: int, dy: int, c: int)
    requires
        img.wf(),
        f > 0,
        0 <= x < img.spec_width(),
        0 <= y < img.spec_height(),
        0 <= dx < f,
        0 <= dy < f,
        0 <= c < img.channels(),
    ensures
        nearest_data(img, img.spec_width() * f, img.spec_height() * f)[pixel_offset(
            img.spec_width() * f,
            img.channels() as int,
            x * f + dx,
            y * f + dy,
            c,
        )] == img.sample(x, y, c),
{
    let w = img.spec_width() as int;
    let h = img.spec_height() as int;
    let ch = img.channels() as int;
    let nw = w * f;
    let nh = h * f;
    let dst_x = x * f + dx;
    let dst_y = y * f + dy;
    let p = dst_y * nw + dst_x;
    let i = p * ch + c;
    assert(0 <= dst_x < nw) by (nonlinear_arith)
        requires 0 <= x < w, 0 <= dx < f, nw == w * f, dst_x == x * f + dx;
    assert(0 <= dst_y < nh) by (nonlinear_arith)
        requires 0 <= y < h, 0 <= dy < f, nh == h * f, dst_y == y * f + dy;
    assert(0 <= i < nw * nh * ch) by (nonlinear_arith)
        requires 0 <= dst_x < nw, 0 <= dst_y < nh, 0 <= c < ch, p == dst_y * nw + dst_x, i == p * ch + c;
    lemma_fundamental_div_mod_converse(i, ch, p, c);
    lemma_fundamental_div_mod_converse(p, nw, dst_y, dst_x);
    assert(dst_x * w == x * nw + dx * w && 0 <= dx * w < nw) by (nonlinear_arith)
        requires dst_x == x * f + dx, nw == w * f, 0 <= dx < f, w > 0;
    lemma_fundamental_div_mod_converse(dst_x * w, nw, x, dx * w);
    assert(dst_y * h == y * nh + dy * h && 0 <= dy * h < nh) by (nonlinear_arith)
        requires dst_y == y * f + dy, nh == h * f, 0 <= dy < f, h > 0;
    lemma_fundamental_div_mod_converse(dst_y * h, nh, y, dy * h);
}

/// Sobel finds no gradient in a uniform image: every pixel whose 3x3
/// neighborhood lies inside the image gets magnitude 0.
pub proof fn lemma_sobel_uniform_is_zero(img: Image, v: u8, x: int, y: int)
    requires
        img.wf(),
        img is Gray,
        forall|i: int| 0 <= i < img.spec_data().len() ==> img.spec_data()[i] == v,
        1 <= x < img.spec_width() - 1,
        1 <= y < img.spec_height() - 1,
    ensures
        sobel_value(img.spec_data(), img.spec_width() as int, img.spec_height() as int, x, y) == 0,
{
    let w = img.spec_width() as int;
    let h = img.spec_height() as int;
    let data = img.spec_data();
    assert forall|k: int| 0 <= k < 9 implies tap(data, w, h, x, y, k) == v by {
        let ix = x + k % 3 - 1;
        let iy = y + k / 3 - 1;
        assert(0 <= iy * w + ix < w * h) by (nonlinear_arith)
            requires 0 <= ix < w, 0 <= iy < h;
    }
    reveal_with_fuel(kernel_sum, 10);
    assert(tap(data, w, h, x, y, 0) == v);
    assert(tap(data, w, h, x, y, 1) == v);
    assert(tap(data, w, h, x, y, 2) == v);
    assert(tap(data, w, h, x, y, 3) == v);
    assert(tap(data, w, h, x, y, 4) == v);
    assert(tap(data, w, h, x, y, 5) == v);
    assert(tap(data, w, h, x, y, 6) == v);
    assert(tap(data, w, h, x, y, 7) == v);
    assert(tap(data, w, h, x, y, 8) == v);
    assert(sobel_gx()[0] == -1 && sobel_gy()[0] == -1);
    assert(tap(data, w, h, x, y, 0) * sobel_gx()[0] == -1 * (v as int) && tap(data, w, h, x, y, 0) * sobel_gy()[0] == -1 * (v as int));
    assert(sobel_gx()[1] == 0 && sobel_gy()[1] == -2);
    assert(tap(data, w, h, x, y, 1) * sobel_gx()[1] == 0 * (v as int) && tap(data, w, h, x, y, 1) * sobel_gy()[1] == -2 * (v as int));
    assert(sobel_gx()[2] == 1 && sobel_gy()[2] == -1);
    assert(tap(data, w, h, x, y, 2) * sobel_gx()[2] == 1 * (v as int) && tap(data, w, h, x, y, 2) * sobel_gy()[2] == -1 * (v as int));
    assert(sobel_gx()[3] == -2 && sobel_gy()[3] == 0);
    assert(tap(data, w, h, x, y, 3) * sobel_gx()[3] == -2 * (v as int) && tap(data, w, h, x, y, 3) * sobel_gy()[3] == 0 * (v as int));
    assert(sobel_gx()[4] == 0 && sobel_gy()[4] == 0);
    assert(tap(data, w, h, x, y, 4) * sobel_gx()[4] == 0 * (v as int) && tap(data, w, h, x, y, 4) * sobel_gy()[4] == 0 * (v as int));
    assert(sobel_gx()[5] == 2 && sobel_gy()[5] == 0);
    assert(tap(data, w, h, x, y, 5) * sobel_gx()[5] == 2 * (v as int) && tap(data, w, h, x, y, 5) * sobel_gy()[5] == 0 * (v as int));
    assert(sobel_gx()[6] == -1 && sobel_gy()[6] == 1);
    assert(tap(data, w, h, x, y, 6) * sobel_gx()[6] == -1 * (v as int) && tap(data, w, h, x, y, 6) * sobel_gy()[6] == 1 * (v as int));
    assert(sobel_gx()[7] == 0 && sobel_gy()[7] == 2);
    assert(tap(data, w, h, x, y, 7) * sobel_gx()[7] == 0 * (v as int) && tap(data, w, h, x, y, 7) * sobel_gy()[7] == 2 * (v as int));
    assert(sobel_gx()[8] == 1 && sobel_gy()[8] == 1);
    assert(tap(data, w, h, x, y, 8) * sobel_gx()[8] == 1 * (v as int) && tap(data, w, h, x, y, 8) * sobel_gy()[8] == 1 * (v as int));
    assert(kernel_sum(data, w, h, x, y, sobel_gx(), 1) == -1 * (v as int));
    assert(kernel_sum(data, w, h, x, y, sobel_gx(), 2) == -1 * (v as int));
    assert(kernel_sum(data, w, h, x, y, sobel_gx(), 3) == 0 * (v as int));
    assert(kernel_sum(data, w, h, x, y, sobel_gx(), 4) == -2 * (v as int));
    assert(kernel_sum(data, w, h, x, y, sobel_gx(), 5) == -2 * (v as int));
    assert(kernel_sum(data, w, h, x, y, sobel_gx(), 6) == 0 * (v as int));
    assert(kernel_sum(data, w, h, x, y, sobel_gx(), 7) == -1 * (v as int));
    assert(kernel_sum(data, w, h, x, y, sobel_gx(), 8) == -1 * (v as int));
    assert(kernel_sum(data, w, h, x, y, sobel_gx(), 9) == 0 * (v as int));
    assert(kernel_sum(data, w, h, x, y, sobel_gy(), 1) == -1 * (v as int));
    assert(kernel_sum(data, w, h, x, y, sobel_gy(), 2) == -3 * (v as int));
    assert(kernel_sum(data, w, h, x, y, sobel_gy(), 3) == -4 * (v as int));
    assert(kernel_sum(data, w, h, x, y, sobel_gy(), 4) == -4 * (v as int));
    assert(kernel_sum(data, w, h, x, y, sobel_gy(), 5) == -4 * (v as int));
    assert(kernel_sum(data, w, h, x, y, sobel_gy(), 6) == -4 * (v as int));
    assert(kernel_sum(data, w, h, x, y, sobel_gy(), 7) == -3 * (v as int));
    assert(kernel_sum(data, w, h, x, y, sobel_gy(), 8) == -1 * (v as int));
    assert(kernel_sum(data, w, h, x, y, sobel_gy(), 9) == 0 * (v as int));
}

} // verus!
