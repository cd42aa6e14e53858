use vstd::prelude::*;
use crate::error::Error;

verus! {

/// A greyscale image, one byte of luminance per pixel, row after row; the
/// luminances may be read inverted.
#[derive(Debug)]
pub struct Luma8LuminanceSource {
    pub dimensions: (u32, u32),
    pub data: Vec<u8>,
    pub inverted: bool,
}

/// The luminance `byte`, inverted when `invert` is set.
pub open spec fn luma_read(byte: u8, invert: bool) -> u8 {
    if invert {
        (255 - byte) as u8
    } else {
        byte
    }
}

proof fn lemma_cell(x: int, y: int, w: int, h: int)
    requires
        0 <= x < w,
        0 <= y < h,
    ensures
        0 <= y * w + x < w * h,
        0 <= y * w,
{
    assert(y * w + x < w * h) by (nonlinear_arith)
        requires
            0 <= x < w,
            0 <= y < h,
    ;
    assert(0 <= y * w) by (nonlinear_arith)
        requires
            0 <= y,
            0 <= w,
    ;
}

impl Luma8LuminanceSource {
    /// Whether luminances are read inverted.
    pub open spec fn spec_inverted(&self) -> bool {
        self.inverted
    }

    /// The image `width` by `height` with the given luminances; their number
    /// must be `width * height` (else an invalid argument).
    pub fn new(source: Vec<u8>, width: u32, height: u32) -> (res: Result<Self, Error>)
        ensures
            (width as int * height as int > usize::MAX || source@.len() != width as int * height as int)
                ==> res == Err::<Self, Error>(Error::InvalidArgument),
            (width as int * height as int <= usize::MAX && source@.len() == width as int * height as int)
                ==> (res matches Ok(s) && s.dimensions == (width, height) && s.data@ == source@
                && !s.spec_inverted()),
    {
        let expected = match (width as usize).checked_mul(height as usize) {
            Some(v) => v,
            None => {
                return Err(Error::InvalidArgument);
            },
        };
        if source.len() != expected {
            return Err(Error::InvalidArgument);
        }
        Ok(Luma8LuminanceSource { dimensions: (width, height), data: source, inverted: false })
    }

    /// A black image `width` by `height`; `width * height` must fit in a
    /// `usize` (else an invalid argument). The dimensions are kept as 32-bit
    /// numbers, truncated if larger.
    pub fn with_empty_image(width: usize, height: usize) -> (res: Result<Self, Error>)
        ensures
            width as int * height as int > usize::MAX ==> res == Err::<Self, Error>(Error::InvalidArgument),
            width as int * height as int <= usize::MAX ==> (res matches Ok(s) && s.dimensions == (
                width as u32,
                height as u32,
            ) && s.data@ == Seq::new((width * height) as nat, |i: int| 0u8) && !s.spec_inverted()),
    {
        let size = match width.checked_mul(height) {
            Some(v) => v,
            None => {
                return Err(Error::InvalidArgument);
            },
        };
        let data: Vec<u8> = vec![0u8; size];
        Ok(Luma8LuminanceSource { dimensions: (width as u32, height as u32), data, inverted: false })
    }

    /// The luminance bytes, to change in place.
    pub fn get_matrix_mut(&mut self) -> (res: &mut Vec<u8>)
        ensures
            *res == old(self).data,
            final(self).data == *final(res),
            final(self).dimensions == old(self).dimensions,
            final(self).spec_inverted() == old(self).spec_inverted(),
    {
        &mut self.data
    }

    /// Width of the image.
    pub fn get_width(&self) -> (res: usize)
        ensures
            res == self.dimensions.0,
    {
        self.dimensions.0 as usize
    }

    /// Height of the image.
    pub fn get_height(&self) -> (res: usize)
        ensures
            res == self.dimensions.1,
    {
        self.dimensions.1 as usize
    }

    /// Reads luminances inverted from now on, or no longer inverted.
    pub fn invert(&mut self)
        ensures
            final(self).spec_inverted() == !old(self).spec_inverted(),
            final(self).dimensions == old(self).dimensions,
            final(self).data@ == old(self).data@,
    {
        self.inverted = !self.inverted;
    }

    /// The luminance at `column`, `row`, which must lie inside the image.
    pub fn get_luma8_point(&self, column: usize, row: usize) -> (res: u8)
        requires
            column < self.dimensions.0,
            row < self.dimensions.1,
            self.data@.len() == self.dimensions.0 as int * self.dimensions.1 as int,
        ensures
            res == luma_read(self.data@[row * self.dimensions.0 + column], self.spec_inverted()),
    {
        proof {
            lemma_cell(column as int, row as int, self.dimensions.0 as int, self.dimensions.1 as int);
        }
        let len = self.data.len();
        let byte = self.data[row * (self.dimensions.0 as usize) + column];
        if self.inverted {
            255 - byte
        } else {
            byte
        }
    }

    /// The luminances of row `y`, which must lie inside the image.
    pub fn get_row(&self, y: usize) -> (res: Vec<u8>)
        requires
            y < self.dimensions.1,
            self.data@.len() == self.dimensions.0 as int * self.dimensions.1 as int,
        ensures
            res@.len() == self.dimensions.0,
            forall|x: int|
                0 <= x < self.dimensions.0 ==> #[trigger] res@[x] == luma_read(
                    self.data@[y * self.dimensions.0 + x],
                    self.spec_inverted(),
                ),
    {
        let width = self.dimensions.0 as usize;
        let mut row: Vec<u8> = Vec::new();
        let mut x: usize = 0;
        while x < width
            invariant
                x <= width,
                width == self.dimensions.0,
                y < self.dimensions.1,
                self.data@.len() == self.dimensions.0 as int * self.dimensions.1 as int,
                row@.len() == x,
                forall|k: int|
                    0 <= k < x ==> #[trigger] row@[k] == luma_read(
                        self.data@[y * self.dimensions.0 + k],
                        self.spec_inverted(),
                    ),
            decreases width - x,
        {
            let v = self.get_luma8_point(x, y);
            row.push(v);
            x = x + 1;
        }
        row
    }

    /// The luminances of column `x`, which must lie inside the image.
    pub fn get_column(&self, x: usize) -> (res: Vec<u8>)
        requires
            x < self.dimensions.0,
            self.data@.len() == self.dimensions.0 as int * self.dimensions.1 as int,
        ensures
            res@.len() == self.dimensions.1,
            forall|y: int|
                0 <= y < self.dimensions.1 ==> #[trigger] res@[y] == luma_read(
                    self.data@[y * self.dimensions.0 + x],
                    self.spec_inverted(),
                ),
    {
        let height = self.dimensions.1 as usize;
        let mut column: Vec<u8> = Vec::new();
        let mut y: usize = 0;
        while y < height
            invariant
                y <= height,
                height == self.dimensions.1,
                x < self.dimensions.0,
                self.data@.len() == self.dimensions.0 as int * self.dimensions.1 as int,
                column@.len() == y,
                forall|k: int|
                    0 <= k < y ==> #[trigger] column@[k] == luma_read(
                        self.data@[k * self.dimensions.0 + x],
                        self.spec_inverted(),
                    ),
            decreases height - y,
        {
            let v = self.get_luma8_point(x, y);
            column.push(v);
            y = y + 1;
        }
        column
    }

    /// All luminances, as read.
    pub fn get_matrix(&self) -> (res: Vec<u8>)
        ensures
            res@.len() == self.data@.len(),
            forall|i: int| 0 <= i < self.data@.len() ==> #[trigger] res@[i] == luma_read(self.data@[i], self.spec_inverted()),
    {
        let mut out: Vec<u8> = Vec::new();
        let mut i: usize = 0;
        while i < self.data.len()
            invariant
                i <= self.data@.len(),
                out@.len() == i,
                forall|k: int| 0 <= k < i ==> #[trigger] out@[k] == luma_read(self.data@[k], self.spec_inverted()),
            decreases self.data@.len() - i,
        {
            let byte = self.data[i];
            out.push(if self.inverted {
                255 - byte
            } else {
                byte
            });
            i = i + 1;
        }
        out
    }

    /// The image turned a quarter turn counter-clockwise: the new image is
    /// `height` wide and `width` high, and its pixel at column `c`, row `r`
    /// is the old pixel at column `width - 1 - r`, row `c`.
    pub fn rotate_counter_clockwise(&self) -> (res: Result<Self, Error>)
        requires
            self.data@.len() == self.dimensions.0 as int * self.dimensions.1 as int,
        ensures
            res matches Ok(s) && s.dimensions == (self.dimensions.1, self.dimensions.0) && s.spec_inverted()
                == self.spec_inverted() && is_rotation(
                self.data@,
                self.dimensions.0 as int,
                self.dimensions.1 as int,
                s.data@,
            ),
    {
        let width = self.dimensions.0 as usize;
        let height = self.dimensions.1 as usize;
        let len = self.data.len();
        let mut out: Vec<u8> = Vec::new();
        let mut r: usize = 0;
        while r < width
            invariant
                len == self.data@.len(),
                r <= width,
                width == self.dimensions.0,
                height == self.dimensions.1,
                self.data@.len() == width as int * height as int,
                out@.len() == r * height,
                forall|rr: int, cc: int|
                    0 <= rr < r && 0 <= cc < height ==> #[trigger] out@[rr * height + cc] == self.data@[cc
                        * width + (width - 1 - rr)],
            decreases width - r,
        {
            let mut c: usize = 0;
            let ghost before = out@;
            while c < height
                invariant
                    len == self.data@.len(),
                    c <= height,
                    r < width,
                    width == self.dimensions.0,
                    height == self.dimensions.1,
                    self.data@.len() == width as int * height as int,
                    out@.len() == r * height + c,
                    before.len() == r * height,
                    forall|k: int| 0 <= k < before.len() ==> #[trigger] out@[k] == before[k],
                    forall|cc: int| 0 <= cc < c ==> #[trigger] out@[r * height + cc] == self.data@[cc * width
                        + (width - 1 - r)],
                decreases height - c,
            {
                proof {
                    lemma_cell((width - 1 - r) as int, c as int, width as int, height as int);
                }
                out.push(self.data[c * width + (width - 1 - r)]);
                c = c + 1;
            }
            proof {
                assert forall|rr: int, cc: int|
                    0 <= rr < r + 1 && 0 <= cc < height implies #[trigger] out@[rr * height + cc]
                        == self.data@[cc * width + (width - 1 - rr)] by {
                    if rr < r {
                        lemma_cell(cc, rr, height as int, r as int);
                        assert(out@[rr * height + cc] == before[rr * height + cc]);
                    }
                }
                assert((r + 1) * height == r * height + height) by (nonlinear_arith);
            }
            r = r + 1;
        }
        proof {
            assert(width as int * height as int == height as int * width as int) by (nonlinear_arith);
        }
        Ok(
            Luma8LuminanceSource {
                dimensions: (self.dimensions.1, self.dimensions.0),
                data: out,
                inverted: self.inverted,
            },
        )
    }

    /// Turning by 45 degrees is not supported.
    pub fn rotate_counter_clockwise_45(&self) -> (res: Result<Self, Error>)
        ensures
            res == Err::<Self, Error>(Error::UnsupportedOperation),
    {
        Err(Error::UnsupportedOperation)
    }
}

/// Sum of `n` bytes of `src` from `base`.
/// Whether `dst` is the `w` by `h` image `src` turned a quarter turn
/// counter-clockwise: `h` wide and `w` high, its pixel at column `c`, row `r`
/// the pixel of `src` at column `w - 1 - r`, row `c`.
pub open spec fn is_rotation(src: Seq<u8>, w: int, h: int, dst: Seq<u8>) -> bool {
    &&& dst.len() == src.len()
    &&& forall|r: int, c: int| 0 <= r < w && 0 <= c < h ==> #[trigger] dst[r * h + c] == src[c * w + (w - 1 - r)]
}

/// Four quarter turns give back the image.
pub proof fn lemma_four_rotations(a: Seq<u8>, b: Seq<u8>, c: Seq<u8>, d: Seq<u8>, e: Seq<u8>, w: int, h: int)
    requires
        w > 0,
        h > 0,
        a.len() == w * h,
        is_rotation(a, w, h, b),
        is_rotation(b, h, w, c),
        is_rotation(c, w, h, d),
        is_rotation(d, h, w, e),
    ensures
        e == a,
{
    assert forall|y: int, x: int| 0 <= y < h && 0 <= x < w implies #[trigger] e[y * w + x] == a[y * w + x] by {
        assert(e[y * w + x] == d[x * h + (h - 1 - y)]);
        assert(d[x * h + (h - 1 - y)] == c[(h - 1 - y) * w + (w - 1 - x)]);
        assert(c[(h - 1 - y) * w + (w - 1 - x)] == b[(w - 1 - x) * h + (h - 1 - (h - 1 - y))]);
        assert(b[(w - 1 - x) * h + (h - 1 - (h - 1 - y))] == a[(h - 1 - (h - 1 - y)) * w + (w - 1 - (w - 1 - x))]);
    }
    assert forall|p: int| 0 <= p < a.len() implies e[p] == a[p] by {
        let y = p / w;
        let x = p % w;
        assert(p == y * w + x && 0 <= x < w && 0 <= y < h) by (nonlinear_arith)
            requires
                0 <= p < w * h,
                w > 0,
                y == p / w,
                x == p % w,
        ;
        assert(e[y * w + x] == a[y * w + x]);
    }
    assert(e =~= a);
}

pub open spec fn run_sum(src: Seq<u8>, base: int, n: nat) -> nat
    decreases n,
{
    if n == 0 {
        0
    } else {
        run_sum(src, base, (n - 1) as nat) + src[base + n - 1] as nat
    }
}

/// Sum of the `factor` by `factor` block of an image `width` wide whose top
/// left pixel is at column `x0`, row `y0`, over its first `rows` rows.
pub open spec fn block_sum(src: Seq<u8>, width: int, factor: nat, x0: int, y0: int, rows: nat) -> nat
    decreases rows,
{
    if rows == 0 {
        0
    } else {
        block_sum(src, width, factor, x0, y0, (rows - 1) as nat) + run_sum(
            src,
            (y0 + rows - 1) * width + x0,
            factor,
        )
    }
}

proof fn lemma_run_sum_bound(src: Seq<u8>, base: int, n: nat)
    ensures
        run_sum(src, base, n) <= 255 * n,
    decreases n,
{
    if n > 0 {
        lemma_run_sum_bound(src, base, (n - 1) as nat);
    }
}

proof fn lemma_block_sum_bound(src: Seq<u8>, width: int, factor: nat, x0: int, y0: int, rows: nat)
    ensures
        block_sum(src, width, factor, x0, y0, rows) <= 255 * factor * rows,
    decreases rows,
{
    if rows > 0 {
        lemma_block_sum_bound(src, width, factor, x0, y0, (rows - 1) as nat);
        lemma_run_sum_bound(src, (y0 + rows - 1) * width + x0, factor);
        assert(255 * factor * (rows - 1) + 255 * factor == 255 * factor * rows) by (nonlinear_arith);
    }
}

/// Shrinks an image `width` by `height` by `factor` in each direction: each
/// output pixel is the rounded mean of a `factor` by `factor` block. A zero
/// factor, or a buffer whose length is not `width * height`, is an invalid
/// argument. Returns the pixels and the new width and height.
pub fn downscale_luma_buffer(src: &[u8], width: u32, height: u32, factor: u32) -> (res: Result<(Vec<u8>, u32, u32), Error>)
    requires
        factor as int * factor as int * 512 <= usize::MAX,
    ensures
        (factor == 0 || src@.len() != width as int * height as int) ==> res == Err::<(Vec<u8>, u32, u32), Error>(
            Error::InvalidArgument,
        ),
        (factor != 0 && src@.len() == width as int * height as int) ==> (res matches Ok((out, w, h)) && w
            == width / factor && h == height / factor && out@.len() == w as int * h as int && forall|
            dy: int,
            dx: int,
        |
            0 <= dy < h && 0 <= dx < w ==> #[trigger] out@[dy * w + dx] == ((factor * factor / 2
                + block_sum(src@, width as int, factor as nat, dx * factor, dy * factor, factor as nat)) / (
            factor * factor)) as u8),
{
    if factor == 0 {
        return Err(Error::InvalidArgument);
    }
    let expected = match (width as usize).checked_mul(height as usize) {
        Some(v) => v,
        None => {
            let n = src.len();
            return Err(Error::InvalidArgument);
        },
    };
    if src.len() != expected {
        return Err(Error::InvalidArgument);
    }
    let new_w = width / factor;
    let new_h = height / factor;
    let f = factor as usize;
    let w = width as usize;
    let nw = new_w as usize;
    let nh = new_h as usize;
    let area: usize = f * f;
    let half_area: usize = area / 2;
    let src_len = src.len();
    assert(area >= 1) by (nonlinear_arith)
        requires
            area == f * f,
            f >= 1,
    ;
    assert(nw as int * nh as int <= width as int * height as int) by (nonlinear_arith)
        requires
            nw == width / factor,
            nh == height / factor,
            factor >= 1,
    ;
    let mut out: Vec<u8> = Vec::new();
    let mut dy: usize = 0;
    while dy < nh
        invariant
            dy <= nh,
            nw == width / factor,
            nh == height / factor,
            f == factor,
            f >= 1,
            w == width,
            area == f * f,
            half_area == area / 2,
            area * 512 <= usize::MAX,
            area >= 1,
            src_len == src@.len(),
            src@.len() == width as int * height as int,
            out@.len() == dy * nw,
            forall|yy: int, xx: int|
                0 <= yy < dy && 0 <= xx < nw ==> #[trigger] out@[yy * nw + xx] == ((half_area + block_sum(
                    src@,
                    w as int,
                    f as nat,
                    xx * f,
                    yy * f,
                    f as nat,
                )) / (area as int)) as u8,
        decreases nh - dy,
    {
        let ghost before = out@;
        let mut dx: usize = 0;
        while dx < nw
            invariant
                dx <= nw,
                dy < nh,
                nw == width / factor,
                nh == height / factor,
                f == factor,
                f >= 1,
                w == width,
                area == f * f,
                half_area == area / 2,
                area * 512 <= usize::MAX,
                area >= 1,
                src_len == src@.len(),
                src@.len() == width as int * height as int,
                out@.len() == dy * nw + dx,
                before.len() == dy * nw,
                forall|k: int| 0 <= k < before.len() ==> #[trigger] out@[k] == before[k],
                forall|xx: int|
                    0 <= xx < dx ==> #[trigger] out@[dy * nw + xx] == ((half_area + block_sum(
                        src@,
                        w as int,
                        f as nat,
                        xx * f,
                        dy * f,
                        f as nat,
                    )) / (area as int)) as u8,
            decreases nw - dx,
        {
            let mut sum: usize = half_area;
            let mut ty: usize = 0;
            while ty < f
                invariant
                    ty <= f,
                    dx < nw,
                    dy < nh,
                    nw == width / factor,
                    nh == height / factor,
                    f == factor,
                    f >= 1,
                    w == width,
                    area == f * f,
                    area * 512 <= usize::MAX,
                    area >= 1,
                    half_area == area / 2,
                    src_len == src@.len(),
                    src@.len() == width as int * height as int,
                    sum == half_area + block_sum(src@, w as int, f as nat, dx * f, dy * f, ty as nat),
                    block_sum(src@, w as int, f as nat, dx * f, dy * f, ty as nat) <= 255 * f * ty,
                decreases f - ty,
            {
                let mut tx: usize = 0;
                let ghost row_start = sum;
                while tx < f
                    invariant
                        tx <= f,
                        ty < f,
                        dx < nw,
                        dy < nh,
                        nw == width / factor,
                        nh == height / factor,
                        f == factor,
                        f >= 1,
                        w == width,
                        area == f * f,
                        area * 512 <= usize::MAX,
                        area >= 1,
                        half_area == area / 2,
                        src_len == src@.len(),
                        src@.len() == width as int * height as int,
                        sum == row_start + run_sum(src@, (dy * f + ty) * w + dx * f, tx as nat),
                        row_start == half_area + block_sum(src@, w as int, f as nat, dx * f, dy * f, ty as nat),
                        block_sum(src@, w as int, f as nat, dx * f, dy * f, ty as nat) <= 255 * f * ty,
                        run_sum(src@, (dy * f + ty) * w + dx * f, tx as nat) <= 255 * tx,
                    decreases f - tx,
                {
                    proof {
                        assert(dy * f + ty < height && dx * f + tx < width) by (nonlinear_arith)
                            requires
                                dy < nh,
                                nh == height / factor,
                                dx < nw,
                                nw == width / factor,
                                ty < f,
                                tx < f,
                                f == factor,
                                f >= 1,
                        ;
                        lemma_cell((dx * f + tx) as int, (dy * f + ty) as int, w as int, height as int);
                        assert(255 * f * ty + 255 * tx + 255 <= 255 * area) by (nonlinear_arith)
                            requires
                                ty < f,
                                tx < f,
                                area == f * f,
                        ;
                        assert((dy * f + ty) * w + dx * f + tx == (dy * f + ty) * w + (dx * f + tx));
                    }
                    let v = src[(dy * f + ty) * w + (dx * f + tx)];
                    proof {
                        assert(run_sum(src@, (dy * f + ty) * w + dx * f, (tx + 1) as nat) == run_sum(
                            src@,
                            (dy * f + ty) * w + dx * f,
                            tx as nat,
                        ) + v);
                    }
                    sum = sum + v as usize;
                    tx = tx + 1;
                }
                proof {
                    assert(255 * f * ty + 255 * f == 255 * f * (ty + 1)) by (nonlinear_arith);
                }
                ty = ty + 1;
            }
            out.push((sum / area) as u8);
            dx = dx + 1;
        }
        proof {
            assert forall|yy: int, xx: int|
                0 <= yy < dy + 1 && 0 <= xx < nw implies #[trigger] out@[yy * nw + xx] == ((half_area
                    + block_sum(src@, w as int, f as nat, xx * f, yy * f, f as nat)) / (area as int)) as u8 by {
                if yy < dy {
                    lemma_cell(xx, yy, nw as int, dy as int);
                    assert(nw as int * dy as int == dy * nw) by (nonlinear_arith);
                    assert(out@[yy * nw + xx] == before[yy * nw + xx]);
                }
            }
            assert((dy + 1) * nw == dy * nw + nw) by (nonlinear_arith);
        }
        dy = dy + 1;
    }
    assert(nh * nw == new_w as int * new_h as int) by (nonlinear_arith)
        requires
            nw == new_w,
            nh == new_h,
    ;
    Ok((out, new_w, new_h))
}

} // verus!
