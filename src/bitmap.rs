use vstd::prelude::*;

verus! {

/// Number of bytes a stored pixel row occupies according to the header: 24 bits per
/// pixel, rounded up to a whole number of 32-bit words.
pub open spec fn row_stride(width: nat) -> nat {
    ((width * 24 + 31) / 32) * 4
}

/// Number of zero bytes written after each row of pixels. This completes a row to
/// `row_stride(width)` bytes only for even widths: a width of one gets three bytes of
/// padding, and a width of three gets one.
pub open spec fn pad_len(width: nat) -> nat {
    (width * 3) % 4
}

/// Number of rows needed for `n` pixels at `width` pixels per row (the last one may
/// be short).
pub open spec fn row_count(n: nat, width: nat) -> nat
    recommends
        width > 0,
{
    if n % width == 0 {
        n / width
    } else {
        n / width + 1
    }
}

/// Size of the pixel array as recorded in the header.
pub open spec fn image_size(n: nat, width: nat) -> nat {
    row_count(n, width) * row_stride(width)
}

/// The four little-endian bytes of a 32-bit word.
pub open spec fn le32(u: nat) -> Seq<u8> {
    seq![
        (u % 256) as u8,
        ((u / 256) % 256) as u8,
        ((u / 65536) % 256) as u8,
        ((u / 16777216) % 256) as u8,
    ]
}

/// The height field: the number of complete rows, negated (rows are stored top-down),
/// as a 32-bit two's-complement word.
pub open spec fn height_word(n: nat, width: nat) -> nat {
    if n / width == 0 {
        0
    } else {
        (0x1_0000_0000 - n / width) as nat
    }
}

/// Whether `n` pixels at `width` pixels per row fit the 32-bit fields of the header.
pub open spec fn encodable(n: nat, width: nat) -> bool {
    &&& width > 0
    &&& width <= 0x7fff_ffff
    &&& image_size(n, width) + 54 <= 0x7fff_ffff
}

/// The fixed-layout header: a 14-byte file header followed by a 40-byte info header
/// for an uncompressed 24-bit image stored top-down.
pub open spec fn bmp_header(n: nat, width: nat) -> Seq<u8> {
    seq![0x42u8, 0x4Du8]
        + le32(image_size(n, width) + 54)
        + seq![0u8, 0u8, 0u8, 0u8, 0x36u8, 0u8, 0u8, 0u8, 0x28u8, 0u8, 0u8, 0u8]
        + le32(width)
        + le32(height_word(n, width))
        + seq![1u8, 0u8, 0x18u8, 0u8, 0u8, 0u8, 0u8, 0u8]
        + le32(image_size(n, width))
        + seq![
            0x13u8, 0x0Bu8, 0u8, 0u8, 0x13u8, 0x0Bu8, 0u8, 0u8,
            0u8, 0u8, 0u8, 0u8, 0u8, 0u8, 0u8, 0u8,
        ]
}

/// The stored bytes of one pixel: blue, green, red.
pub open spec fn bgr(p: [u8; 3]) -> Seq<u8> {
    seq![p[2], p[1], p[0]]
}

/// The stored bytes of a run of pixels.
pub open spec fn bgr_run(s: Seq<[u8; 3]>) -> Seq<u8>
    decreases s.len(),
{
    if s.len() == 0 {
        Seq::empty()
    } else {
        bgr_run(s.drop_last()) + bgr(s.last())
    }
}

/// The first `k` stored rows: each row's pixels followed by its padding.
pub open spec fn pixel_rows(data: Seq<[u8; 3]>, width: nat, k: nat) -> Seq<u8>
    decreases k,
{
    if k == 0 {
        Seq::empty()
    } else {
        let start = (k - 1) * width;
        let end = if k * width <= data.len() { k * width } else { data.len() };
        pixel_rows(data, width, (k - 1) as nat) + bgr_run(data.subrange(start as int, end as int))
            + Seq::new(pad_len(width), |i: int| 0u8)
    }
}

/// The complete file: header, then every row of pixels.
pub open spec fn bmp_file(data: Seq<[u8; 3]>, width: nat) -> Seq<u8> {
    bmp_header(data.len(), width) + pixel_rows(data, width, row_count(data.len(), width))
}

/// A raster of 24-bit RGB pixels, stored row-major, `width` pixels per row.
#[derive(Debug, Clone)]
pub struct Bitmap {
    data: Vec<[u8; 3]>,
    width: usize,
}

impl Bitmap {
    /// The pixels, in row-major order.
    pub closed spec fn pixels(&self) -> Seq<[u8; 3]> {
        self.data@
    }

    /// The number of pixels per row.
    pub closed spec fn width_spec(&self) -> nat {
        self.width as nat
    }

    /// A bitmap holding `data` with `width` pixels per row.
    pub fn new(data: Vec<[u8; 3]>, width: usize) -> (r: Self)
        ensures
            r.pixels() == data@,
            r.width_spec() == width,
    {
        Self { data, width }
    }

    /// The pixels, in row-major order.
    pub fn data(&self) -> (r: &[[u8; 3]])
        ensures
            r@ == self.pixels(),
    {
        self.data.as_slice()
    }

    /// The number of pixels per row.
    pub fn width(&self) -> (r: usize)
        ensures
            r == self.width_spec(),
    {
        self.width
    }

    /// Appends one pixel after the last.
    pub fn push_pixel(&mut self, rgb: [u8; 3])
        ensures
            final(self).pixels() == old(self).pixels().push(rgb),
            final(self).width_spec() == old(self).width_spec(),
    {
        self.data.push(rgb);
    }

    /// Appends a run of pixels after the last.
    pub fn push_slice(&mut self, rgb: &[[u8; 3]])
        ensures
            final(self).pixels() == old(self).pixels() + rgb@,
            final(self).width_spec() == old(self).width_spec(),
    {
        let mut i: usize = 0;
        while i < rgb.len()
            invariant
                i <= rgb@.len(),
                self.data@ == old(self).data@ + rgb@.subrange(0, i as int),
                self.width == old(self).width,
            decreases rgb@.len() - i,
        {
            self.data.push(rgb[i]);
            i = i + 1;
            assert(rgb@.subrange(0, i as int) =~= rgb@.subrange(0, i - 1).push(rgb@[i - 1]));
        }
        assert(rgb@.subrange(0, i as int) =~= rgb@);
    }

    /// The bitmap encoded as a BMP file: the header, then the rows top to bottom,
    /// each pixel stored as blue, green, red and each row followed by
    /// `(3 * width) % 4` zero bytes. A short last row is stored as it is. `None` where
    /// the width is zero or the image does not fit the header's 32-bit fields.
    pub fn output(&self) -> (r: Option<Vec<u8>>)
        ensures
            r is Some <==> encodable(self.pixels().len(), self.width_spec()),
            r is Some ==> r->0@ == bmp_file(self.pixels(), self.width_spec()),
    {
        if !self.fits_header() {
            return None;
        }
        let mut out = header_bytes(self.data.len(), self.width);
        let ghost hdr = out@;
        let ghost data = self.data@;
        let ghost wn = self.width as nat;
        let n = self.data.len();
        let w = self.width;
        let pad = ((w as u64) * 3 % 4) as usize;
        let mut r: usize = 0;
        let mut start: usize = 0;
        while start < n
            invariant
                n == data.len(),
                w == wn,
                wn > 0,
                data == self.data@,
                pad == pad_len(wn),
                start == (if r * wn <= n { r * wn } else { n as int }),
                start <= n,
                r > 0 ==> (r - 1) * wn < n,
                out@ == hdr + pixel_rows(data, wn, r as nat),
            decreases n - start,
        {
            assert(r <= r * wn) by (nonlinear_arith)
                requires
                    wn > 0,
            ;
            let end = if n - start < w { n } else { start + w };
            let mut i = start;
            while i < end
                invariant
                    start <= i <= end,
                    end <= n,
                    n == data.len(),
                    data == self.data@,
                    out@ == hdr + pixel_rows(data, wn, r as nat) + bgr_run(
                        data.subrange(start as int, i as int),
                    ),
                decreases end - i,
            {
                let p = self.data[i];
                out.push(p[2]);
                out.push(p[1]);
                out.push(p[0]);
                i = i + 1;
                assert(data.subrange(start as int, i as int).drop_last() =~= data.subrange(
                    start as int,
                    i - 1,
                ));
            }
            let ghost row = hdr + pixel_rows(data, wn, r as nat) + bgr_run(
                data.subrange(start as int, end as int),
            );
            let mut k: usize = 0;
            while k < pad
                invariant
                    k <= pad,
                    out@ == row + Seq::new(k as nat, |j: int| 0u8),
                decreases pad - k,
            {
                out.push(0);
                k = k + 1;
                assert(Seq::new(k as nat, |j: int| 0u8) =~= Seq::new((k - 1) as nat, |j: int| 0u8).push(0u8));
            }
            assert((r + 1) * wn == r * wn + wn) by (nonlinear_arith);
            assert(end == (if (r + 1) * wn <= n { (r + 1) * wn } else { n as int }));
            assert(out@ =~= hdr + pixel_rows(data, wn, (r + 1) as nat));
            r = r + 1;
            start = end;
        }
        proof {
            lemma_rows_done(n as nat, wn, r as nat);
        }
        Some(out)
    }

    /// Whether the bitmap can be encoded: a nonzero width, and sizes that fit the
    /// header's 32-bit fields.
    fn fits_header(&self) -> (r: bool)
        ensures
            r == encodable(self.pixels().len(), self.width_spec()),
    {
        let n = self.data.len() as u64;
        let w = self.width as u64;
        if w == 0 || w > 0x7fff_ffff {
            return false;
        }
        let stride: u64 = ((w * 24 + 31) / 32) * 4;
        let complete: u64 = n / w;
        assert(n % w != 0 ==> complete < n) by (nonlinear_arith)
            requires
                w > 0,
                complete == n / w,
        ;
        let rows: u64 = if n % w == 0 { complete } else { complete + 1 };
        let limit: u64 = 0x7fff_ffff - 54;
        if rows > limit / stride {
            assert(rows * stride > limit) by (nonlinear_arith)
                requires
                    rows > limit / stride,
                    stride > 0,
            ;
            false
        } else {
            assert(rows * stride <= limit) by (nonlinear_arith)
                requires
                    rows <= limit / stride,
                    stride > 0,
            ;
            true
        }
    }
}

/// A loop that takes `width` pixels per row and stops once it has covered `n` pixels
/// has taken `row_count(n, width)` rows.
proof fn lemma_rows_done(n: nat, width: nat, r: nat)
    requires
        width > 0,
        r * width >= n,
        r > 0 ==> (r - 1) * width < n,
    ensures
        r == row_count(n, width),
{
    let q = n / width;
    let m = n % width;
    assert(n == width * q + m && 0 <= m < width) by {
        vstd::arithmetic::div_mod::lemma_fundamental_div_mod(n as int, width as int);
    }
    assert(r == if m == 0 { q } else { q + 1 }) by (nonlinear_arith)
        requires
            n == width * q + m,
            0 <= m < width,
            r * width >= n,
            r > 0 ==> (r - 1) * width < n,
            q >= 0,
    ;
}

/// Appends the little-endian bytes of `u` to `out`.
fn push_le32(out: &mut Vec<u8>, u: u32)
    ensures
        final(out)@ == old(out)@ + le32(u as nat),
{
    out.push((u % 256) as u8);
    out.push(((u / 256) % 256) as u8);
    out.push(((u / 65536) % 256) as u8);
    out.push(((u / 16777216) % 256) as u8);
    assert(out@ =~= old(out)@ + le32(u as nat));
}

/// The size and height words of the header for `n` pixels at `width` pixels per row.
fn header_words(n: usize, width: usize) -> (r: (u32, u32))
    requires
        encodable(n as nat, width as nat),
    ensures
        r.0 == image_size(n as nat, width as nat),
        r.1 == height_word(n as nat, width as nat),
{
    let n = n as u64;
    let w = width as u64;
    let stride: u64 = ((w * 24 + 31) / 32) * 4;
    let complete: u64 = n / w;
    assert(n % w != 0 ==> complete < n) by (nonlinear_arith)
        requires
            w > 0,
            complete == n / w,
    ;
    let rows: u64 = if n % w == 0 { complete } else { complete + 1 };
    assert(rows * stride == image_size(n as nat, w as nat));
    assert(complete <= rows * stride) by (nonlinear_arith)
        requires
            complete <= rows,
            stride >= 4,
    ;
    let size: u64 = rows * stride;
    let h: u32 = if complete == 0 { 0 } else { (0x1_0000_0000u64 - complete) as u32 };
    (size as u32, h)
}

/// The header for `n` pixels at `width` pixels per row.
fn header_bytes(n: usize, width: usize) -> (out: Vec<u8>)
    requires
        encodable(n as nat, width as nat),
    ensures
        out@ == bmp_header(n as nat, width as nat),
{
    let (size, h) = header_words(n, width);
    let mut out: Vec<u8> = Vec::new();
    out.push(0x42);
    out.push(0x4D);
    push_le32(&mut out, size + 54);
    let fixed: [u8; 12] = [0, 0, 0, 0, 0x36, 0, 0, 0, 0x28, 0, 0, 0];
    push_all(&mut out, &fixed);
    push_le32(&mut out, width as u32);
    push_le32(&mut out, h);
    let info: [u8; 8] = [1, 0, 0x18, 0, 0, 0, 0, 0];
    push_all(&mut out, &info);
    push_le32(&mut out, size);
    let tail: [u8; 16] = [0x13, 0x0B, 0, 0, 0x13, 0x0B, 0, 0, 0, 0, 0, 0, 0, 0, 0, 0];
    push_all(&mut out, &tail);
    assert(fixed@ =~= seq![0u8, 0u8, 0u8, 0u8, 0x36u8, 0u8, 0u8, 0u8, 0x28u8, 0u8, 0u8, 0u8]);
    assert(info@ =~= seq![1u8, 0u8, 0x18u8, 0u8, 0u8, 0u8, 0u8, 0u8]);
    assert(tail@ =~= seq![
        0x13u8, 0x0Bu8, 0u8, 0u8, 0x13u8, 0x0Bu8, 0u8, 0u8,
        0u8, 0u8, 0u8, 0u8, 0u8, 0u8, 0u8, 0u8,
    ]);
    assert(out@ =~= bmp_header(n as nat, width as nat));
    out
}

/// Appends every byte of `b` to `out`.
fn push_all(out: &mut Vec<u8>, b: &[u8])
    ensures
        final(out)@ == old(out)@ + b@,
{
    let mut i: usize = 0;
    while i < b.len()
        invariant
            i <= b@.len(),
            out@ == old(out)@ + b@.subrange(0, i as int),
        decreases b@.len() - i,
    {
        out.push(b[i]);
        i = i + 1;
        assert(b@.subrange(0, i as int) =~= b@.subrange(0, i - 1).push(b@[i - 1]));
    }
    assert(b@.subrange(0, i as int) =~= b@);
}

} // verus!
