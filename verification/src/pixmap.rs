//! CPU pixel buffers in straight RGBA8, row-major and tightly packed.

use vstd::prelude::*;
use vstd::arithmetic::div_mod::{lemma_fundamental_div_mod, lemma_fundamental_div_mod_converse};
use crate::color::Color;
use crate::geometry::PhysicalSize;

verus! {

/// Bytes per row of a tightly packed RGBA8 image `size` wide.
pub open spec fn stride_of(size: PhysicalSize) -> int {
    size.width * 4
}

/// The four bytes `[r, g, b, a]` of pixel `(x, y)` in the image `data` of
/// extent `size`, or `None` when `(x, y)` lies outside it.
pub open spec fn pixel_at(data: Seq<u8>, size: PhysicalSize, x: int, y: int) -> Option<Seq<u8>> {
    if 0 <= x < size.width && 0 <= y < size.height {
        let i = y * stride_of(size) + x * 4;
        Some(data.subrange(i, i + 4))
    } else {
        None
    }
}

/// Width in pixels of the part of a `src_w`-wide image placed at column `dx`
/// that lands inside a `dst_w`-wide one.
pub open spec fn copy_extent(src_w: int, dst_w: int, dx: int) -> int {
    let room = if dx < dst_w { dst_w - dx } else { 0 };
    if src_w < room { src_w } else { room }
}

/// Byte `i` of an image after copying rows: byte columns `[c0, c0 + w)` of
/// destination rows `[r0, r0 + rows)` (and of row `r0 + rows`, columns
/// `[c0, c0 + part)`) take the source bytes at the same offset; every other
/// byte keeps its old value. `ds` and `ss` are the two row strides.
pub open spec fn copied_byte(
    old: Seq<u8>,
    src: Seq<u8>,
    ds: int,
    ss: int,
    c0: int,
    r0: int,
    w: int,
    rows: int,
    part: int,
    i: int,
) -> u8 {
    let r = i / ds;
    let c = i % ds;
    if c0 <= c < c0 + w && r0 <= r && (r < r0 + rows || (r == r0 + rows && c < c0 + part)) {
        src[(r - r0) * ss + (c - c0)]
    } else {
        old[i]
    }
}

/// The bytes of the image `old` (extent `dsz`) after blitting the image `src`
/// (extent `ssz`) with its top-left corner at `(dx, dy)`, clipped to the
/// destination: a straight replace, no blending.
pub open spec fn blitted(old: Seq<u8>, dsz: PhysicalSize, src: Seq<u8>, ssz: PhysicalSize, dx: int, dy: int) -> Seq<u8> {
    let cw = copy_extent(ssz.width as int, dsz.width as int, dx);
    let ch = copy_extent(ssz.height as int, dsz.height as int, dy);
    Seq::new(
        old.len(),
        |i: int| copied_byte(old, src, stride_of(dsz), stride_of(ssz), dx * 4, dy, cw * 4, ch, 0, i),
    )
}

proof fn lemma_cell(r: int, c: int, d: int, rows: int)
    requires
        0 <= r < rows,
        0 <= c < d,
    ensures
        (r * d + c) / d == r,
        (r * d + c) % d == c,
        0 <= r * d + c < rows * d,
{
    lemma_fundamental_div_mod_converse(r * d + c, d, r, c);
    assert(r * d + c < rows * d) by (nonlinear_arith)
        requires
            0 <= r < rows,
            0 <= c < d,
    ;
    assert(0 <= r * d) by (nonlinear_arith)
        requires
            0 <= r,
            0 <= d,
    ;
}

/// A CPU pixel buffer in straight (non-premultiplied) RGBA8, row-major,
/// tightly packed (`stride == width * 4`).
#[derive(Debug)]
pub struct Pixmap {
    size: PhysicalSize,
    data: Vec<u8>,
}

/// Calls `Vec::as_mut_slice`. Believed, not proved: the slice shows the
/// vector's bytes, writes through it land in the vector, a slice keeps its
/// length (writes cannot resize it), and the call never panics (it only
/// reborrows the vector's buffer).
#[verifier::external_body]
fn bytes_mut(v: &mut Vec<u8>) -> (b: &mut [u8])
    ensures
        b@ == old(v)@,
        final(b)@.len() == b@.len(),
        final(v)@ == final(b)@,
    no_unwind
{
    v.as_mut_slice()
}

impl Clone for Pixmap {
    fn clone(&self) -> (p: Self)
        ensures
            p.dims() == self.dims(),
            p.bytes() == self.bytes(),
    {
        proof {
            use_type_invariant(self);
        }
        let data = self.data.clone();
        assert(data@ =~= self.data@);
        Pixmap { size: self.size, data }
    }
}

impl Pixmap {
    /// The pixmap's extent.
    pub closed spec fn dims(&self) -> PhysicalSize {
        self.size
    }

    /// The pixmap's bytes.
    pub closed spec fn bytes(&self) -> Seq<u8> {
        self.data@
    }

    /// Four bytes per pixel, and a row stride that fits in `usize`.
    pub open spec fn wf(&self) -> bool {
        &&& self.bytes().len() == self.dims().area() * 4
        &&& stride_of(self.dims()) <= usize::MAX
    }

    /// Every pixmap is well formed.
    #[verifier::type_invariant]
    spec fn inv(self) -> bool {
        self.wf()
    }

    /// Allocate a fully transparent pixmap of `size`.
    pub fn new(size: PhysicalSize) -> (p: Self)
        requires
            size.area() * 4 <= usize::MAX,
            stride_of(size) <= usize::MAX,
        ensures
            p.wf(),
            p.dims() == size,
            p.bytes() == Seq::new(size.area() * 4, |i: int| 0u8),
    {
        let n = size.pixel_count() as usize * 4;
        let mut data: Vec<u8> = Vec::new();
        while data.len() < n
            invariant
                data@.len() <= n,
                forall|i: int| 0 <= i < data@.len() ==> data@[i] == 0u8,
            decreases n - data@.len(),
        {
            data.push(0);
        }
        let p = Pixmap { size, data };
        assert(p.bytes() =~= Seq::new(size.area() * 4, |i: int| 0u8));
        p
    }

    /// Wrap existing RGBA8 bytes, which must hold exactly `width*height*4`.
    pub fn from_rgba8(size: PhysicalSize, data: Vec<u8>) -> (p: Self)
        requires
            data@.len() == size.area() * 4,
            stride_of(size) <= usize::MAX,
        ensures
            p.wf(),
            p.dims() == size,
            p.bytes() == data@,
    {
        Pixmap { size, data }
    }

    pub fn size(&self) -> (s: PhysicalSize)
        ensures
            self.wf(),
            s == self.dims(),
    {
        proof {
            use_type_invariant(self);
        }
        self.size
    }

    /// Bytes per row.
    pub fn stride(&self) -> (n: usize)
        ensures
            self.wf(),
            n == stride_of(self.dims()),
    {
        proof {
            use_type_invariant(self);
        }
        self.size.width as usize * 4
    }

    pub fn as_bytes(&self) -> (b: &[u8])
        ensures
            b@ == self.bytes(),
    {
        self.data.as_slice()
    }

    /// The bytes, writable in place; the extent stays as it is.
    pub fn as_bytes_mut(&mut self) -> (b: &mut [u8])
        ensures
            b@ == old(self).bytes(),
            final(self).bytes() == final(b)@,
            final(self).dims() == old(self).dims(),
        no_unwind
    {
        proof {
            use_type_invariant(&*self);
        }
        bytes_mut(&mut self.data)
    }

    /// The four bytes `[r, g, b, a]` at `(x, y)`, or `None` if out of bounds.
    pub fn pixel(&self, x: u32, y: u32) -> (r: Option<[u8; 4]>)
        ensures
            match r {
                Some(p) => pixel_at(self.bytes(), self.dims(), x as int, y as int) == Some(p@),
                None => pixel_at(self.bytes(), self.dims(), x as int, y as int) is None,
            },
    {
        proof {
            use_type_invariant(self);
        }
        if x >= self.size.width || y >= self.size.height {
            return None;
        }
        let ghost w = self.size.width as int;
        let _len = self.data.len();
        proof {
            lemma_cell(y as int, x as int * 4 + 3, w * 4, self.size.height as int);
            assert(self.size.height as int * (w * 4) == self.dims().area() * 4) by (nonlinear_arith)
                requires
                    self.dims().area() == w * self.size.height as int,
            ;
        }
        let i = y as usize * self.stride() + x as usize * 4;
        let p = [self.data[i], self.data[i + 1], self.data[i + 2], self.data[i + 3]];
        assert(p@ =~= self.bytes().subrange(i as int, i + 4));
        Some(p)
    }

    /// Copy `src` into this pixmap with its top-left at `(dst_x, dst_y)`,
    /// clipped to this pixmap's bounds: a straight row-by-row replace, no
    /// alpha blend.
    pub fn blit(&mut self, src: &Pixmap, dst_x: u32, dst_y: u32)
        ensures
            final(self).wf(),
            final(self).dims() == old(self).dims(),
            final(self).bytes() == blitted(
                old(self).bytes(),
                old(self).dims(),
                src.bytes(),
                src.dims(),
                dst_x as int,
                dst_y as int,
            ),
    {
        proof {
            use_type_invariant(&*self);
            use_type_invariant(src);
        }
        let mut taken = Pixmap { size: PhysicalSize { width: 0, height: 0 }, data: Vec::new() };
        std::mem::swap(self, &mut taken);
        let Pixmap { size: dsize, mut data } = taken;
        let ghost old_bytes = data@;
        let ghost ds = stride_of(dsize);
        let ghost ss = stride_of(src.size);
        let dst_w = dsize.width;
        let dst_h = dsize.height;
        let room_w = dst_w.saturating_sub(dst_x);
        let room_h = dst_h.saturating_sub(dst_y);
        let copy_w = if src.size.width < room_w { src.size.width } else { room_w };
        let copy_h = if src.size.height < room_h { src.size.height } else { room_h };
        let ghost cw = copy_w as int;
        let ghost ch = copy_h as int;
        if copy_w == 0 || copy_h == 0 {
            assert(data@ =~= blitted(old_bytes, dsize, src.data@, src.size, dst_x as int, dst_y as int));
            *self = Pixmap { size: dsize, data };
            return;
        }
        let src_stride = src.stride();
        let dst_stride = dsize.width as usize * 4;
        let _src_len = src.data.len();
        let _dst_len = data.len();
        let row_bytes = copy_w as usize * 4;
        let x0 = dst_x as usize * 4;
        proof {
            assert(old_bytes.len() == dsize.area() * 4);
            assert(dsize.height as int * ds == old_bytes.len()) by (nonlinear_arith)
                requires
                    old_bytes.len() == dsize.area() * 4,
                    dsize.area() == dsize.width as int * dsize.height as int,
                    ds == dsize.width as int * 4,
            ;
            assert(src.size.height as int * ss == src.data@.len()) by (nonlinear_arith)
                requires
                    src.data@.len() == src.dims().area() * 4,
                    src.dims().area() == src.size.width as int * src.size.height as int,
                    ss == src.size.width as int * 4,
            ;
        }
        let mut row: usize = 0;
        while row < copy_h as usize
            invariant
                dsize == old(self).size,
                data@.len() == old_bytes.len(),
                old_bytes == old(self).data@,
                ds == dst_stride,
                ss == src_stride,
                ds == stride_of(dsize),
                ss == stride_of(src.size),
                dsize.height as int * ds == old_bytes.len(),
                src.size.height as int * ss == src.data@.len(),
                row_bytes == cw * 4,
                x0 == dst_x * 4,
                0 < cw <= src.size.width,
                dst_x + cw <= dsize.width,
                0 < ch <= src.size.height,
                dst_y + ch <= dsize.height,
                copy_h == ch,
                old_bytes.len() <= usize::MAX,
                src.data@.len() <= usize::MAX,
                row <= ch,
                forall|i: int|
                    0 <= i < old_bytes.len() ==> #[trigger] data@[i] == copied_byte(
                        old_bytes,
                        src.data@,
                        ds,
                        ss,
                        x0 as int,
                        dst_y as int,
                        row_bytes as int,
                        row as int,
                        0,
                        i,
                    ),
            decreases ch - row,
        {
            let ghost r = row as int;
            proof {
                lemma_cell(r, 0, ss, src.size.height as int);
                lemma_cell(dst_y + r, x0 as int, ds, dsize.height as int);
            }
            let s = row * src_stride;
            let d = (dst_y as usize + row) * dst_stride + x0;
            let mut j: usize = 0;
            while j < row_bytes
                invariant
                    dsize == old(self).size,
                    data@.len() == old_bytes.len(),
                    ds == dst_stride,
                    ss == src_stride,
                    dsize.height as int * ds == old_bytes.len(),
                    src.size.height as int * ss == src.data@.len(),
                    row_bytes == cw * 4,
                    x0 == dst_x * 4,
                    0 < cw <= src.size.width,
                    dst_x + cw <= dsize.width,
                    ds == stride_of(dsize),
                    ss == stride_of(src.size),
                    dst_y + ch <= dsize.height,
                    0 < ch <= src.size.height,
                    old_bytes.len() <= usize::MAX,
                    src.data@.len() <= usize::MAX,
                    r < ch,
                    r == row,
                    s == r * ss,
                    d == (dst_y + r) * ds + x0,
                    j <= row_bytes,
                    forall|i: int|
                        0 <= i < old_bytes.len() ==> #[trigger] data@[i] == copied_byte(
                            old_bytes,
                            src.data@,
                            ds,
                            ss,
                            x0 as int,
                            dst_y as int,
                            row_bytes as int,
                            r,
                            j as int,
                            i,
                        ),
                decreases row_bytes - j,
            {
                proof {
                    lemma_cell(dst_y + r, x0 + j, ds, dsize.height as int);
                    lemma_cell(r, j as int, ss, src.size.height as int);
                }
                let v = src.data[s + j];
                let ghost k = d + j;
                data.set(d + j, v);
                proof {
                    assert forall|i: int| 0 <= i < old_bytes.len() implies #[trigger] data@[i]
                        == copied_byte(
                        old_bytes,
                        src.data@,
                        ds,
                        ss,
                        x0 as int,
                        dst_y as int,
                        row_bytes as int,
                        r,
                        j + 1,
                        i,
                    ) by {
                        lemma_fundamental_div_mod(i, ds);
                        if i != k {
                            if i / ds == dst_y + r && i % ds == x0 + j {
                                assert(i == ds * (dst_y + r) + (x0 + j));
                                assert(ds * (dst_y + r) == (dst_y + r) * ds) by (nonlinear_arith);
                            }
                        }
                    }
                }
                j = j + 1;
            }
            proof {
                assert forall|i: int| 0 <= i < old_bytes.len() implies #[trigger] data@[i]
                    == copied_byte(
                    old_bytes,
                    src.data@,
                    ds,
                    ss,
                    x0 as int,
                    dst_y as int,
                    row_bytes as int,
                    r + 1,
                    0,
                    i,
                ) by {}
            }
            row = row + 1;
        }
        assert(data@ =~= blitted(old_bytes, dsize, src.data@, src.size, dst_x as int, dst_y as int));
        *self = Pixmap { size: dsize, data };
    }
}

/// Byte `i` of the BGRA form of the RGBA bytes `s`: red and blue swapped in
/// every whole pixel; bytes past the last whole pixel are zero.
pub open spec fn bgra_byte(s: Seq<u8>, i: int) -> u8 {
    let p = i / 4 * 4;
    if i >= s.len() / 4 * 4 {
        0
    } else if i % 4 == 0 {
        s[p + 2]
    } else if i % 4 == 2 {
        s[p]
    } else {
        s[i]
    }
}

/// The RGBA bytes `src` as the BGRA a Win32 DIB holds, same length.
pub fn rgba_to_bgra(src: &[u8]) -> (r: Vec<u8>)
    ensures
        r@.len() == src@.len(),
        forall|i: int| 0 <= i < src@.len() ==> #[trigger] r@[i] == bgra_byte(src@, i),
{
    let n = src.len();
    let whole = n / 4;
    let mut out: Vec<u8> = Vec::new();
    let mut p: usize = 0;
    while p < whole
        invariant
            n == src@.len(),
            whole == n / 4,
            p <= whole,
            out@.len() == p * 4,
            forall|i: int| 0 <= i < p * 4 ==> #[trigger] out@[i] == bgra_byte(src@, i),
        decreases whole - p,
    {
        let q = p * 4;
        out.push(src[q + 2]);
        out.push(src[q + 1]);
        out.push(src[q]);
        out.push(src[q + 3]);
        p = p + 1;
    }
    while out.len() < n
        invariant
            n == src@.len(),
            whole == n / 4,
            whole * 4 <= out@.len() <= n,
            forall|i: int| 0 <= i < out@.len() ==> #[trigger] out@[i] == bgra_byte(src@, i),
        decreases n - out@.len(),
    {
        out.push(0);
    }
    out
}

/// The software rendering backend's settings: the canvas clear color.
#[derive(Debug, Default)]
pub struct SoftwareRenderer {
    pub background: Color,
}

impl SoftwareRenderer {
    /// A renderer clearing to transparent.
    pub fn new() -> (r: Self)
        ensures
            r.background == (Color { r: 0, g: 0, b: 0, a: 0 }),
    {
        SoftwareRenderer { background: Color { r: 0, g: 0, b: 0, a: 0 } }
    }

    /// Set the canvas clear color.
    pub fn with_background(self, color: Color) -> (r: Self)
        ensures
            r.background == color,
    {
        SoftwareRenderer { background: color }
    }
}

/// Byte `k` of pixel `(x, y)` sits at row `y`, byte column `x * 4 + k`.
proof fn lemma_pixel_byte(size: PhysicalSize, x: int, y: int, k: int)
    requires
        0 <= x < size.width,
        0 <= y < size.height,
        0 <= k < 4,
    ensures
        (y * stride_of(size) + x * 4 + k) / stride_of(size) == y,
        (y * stride_of(size) + x * 4 + k) % stride_of(size) == x * 4 + k,
        0 <= y * stride_of(size) + x * 4 + k < size.area() * 4,
{
    lemma_cell(y, x * 4 + k, stride_of(size), size.height as int);
    assert(size.height * stride_of(size) == size.area() * 4) by (nonlinear_arith)
        requires
            stride_of(size) == size.width * 4,
            size.area() == size.width as int * size.height as int,
    ;
}

/// After a blit, a destination pixel inside the clipped copy rectangle holds
/// the source pixel at the same offset from the blit origin, and every other
/// pixel keeps its old value.
pub proof fn law_blit_pixels(
    old: Seq<u8>,
    dsz: PhysicalSize,
    src: Seq<u8>,
    ssz: PhysicalSize,
    dx: u32,
    dy: u32,
    x: int,
    y: int,
)
    requires
        old.len() == dsz.area() * 4,
        src.len() == ssz.area() * 4,
        0 <= x < dsz.width,
        0 <= y < dsz.height,
    ensures
        ({
            let cw = copy_extent(ssz.width as int, dsz.width as int, dx as int);
            let ch = copy_extent(ssz.height as int, dsz.height as int, dy as int);
            pixel_at(blitted(old, dsz, src, ssz, dx as int, dy as int), dsz, x, y) == if dx <= x < dx
                + cw && dy <= y < dy + ch {
                pixel_at(src, ssz, x - dx, y - dy)
            } else {
                pixel_at(old, dsz, x, y)
            }
        }),
{
    let cw = copy_extent(ssz.width as int, dsz.width as int, dx as int);
    let ch = copy_extent(ssz.height as int, dsz.height as int, dy as int);
    let nb = blitted(old, dsz, src, ssz, dx as int, dy as int);
    let i0 = y * stride_of(dsz) + x * 4;
    lemma_pixel_byte(dsz, x, y, 3);
    lemma_pixel_byte(dsz, x, y, 0);
    let inside = dx <= x < dx + cw && dy <= y < dy + ch;
    if inside {
        let j0 = (y - dy) * stride_of(ssz) + (x - dx) * 4;
        lemma_pixel_byte(ssz, x - dx, y - dy, 3);
        lemma_pixel_byte(ssz, x - dx, y - dy, 0);
        assert forall|k: int| 0 <= k < 4 implies #[trigger] nb.subrange(i0, i0 + 4)[k] == src.subrange(
            j0,
            j0 + 4,
        )[k] by {
            lemma_pixel_byte(dsz, x, y, k);
            assert((y - dy) * stride_of(ssz) + (x * 4 + k - dx * 4) == j0 + k);
            assert(nb[i0 + k] == src[j0 + k]);
        }
        assert(nb.subrange(i0, i0 + 4) =~= src.subrange(j0, j0 + 4));
    } else {
        assert forall|k: int| 0 <= k < 4 implies #[trigger] nb.subrange(i0, i0 + 4)[k] == old.subrange(
            i0,
            i0 + 4,
        )[k] by {
            lemma_pixel_byte(dsz, x, y, k);
            assert(nb[i0 + k] == old[i0 + k]);
        }
        assert(nb.subrange(i0, i0 + 4) =~= old.subrange(i0, i0 + 4));
    }
}

/// A blit whose origin lies outside the destination changes nothing.
pub proof fn law_blit_outside_is_noop(
    old: Seq<u8>,
    dsz: PhysicalSize,
    src: Seq<u8>,
    ssz: PhysicalSize,
    dx: u32,
    dy: u32,
)
    requires
        dx >= dsz.width || dy >= dsz.height,
    ensures
        blitted(old, dsz, src, ssz, dx as int, dy as int) == old,
{
    assert(blitted(old, dsz, src, ssz, dx as int, dy as int) =~= old);
}

} // verus!
