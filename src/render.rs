use vstd::prelude::*;

use crate::bitmap::Bitmap;

verus! {

/// The pixels of `rows`, one row after another.
pub open spec fn concat_rows(rows: Seq<Vec<[u8; 3]>>) -> Seq<[u8; 3]>
    decreases rows.len(),
{
    if rows.len() == 0 {
        Seq::empty()
    } else {
        concat_rows(rows.drop_last()) + rows.last()@
    }
}

/// `pixels` is the image assembled from `rows`, where `rows[k]`, the `k`-th row from
/// the top, is a result of `scanline` for scanline `height - 1 - k` (scanlines count
/// upwards from the bottom of the image).
pub open spec fn assembled_from<F: Fn(usize) -> Vec<[u8; 3]>>(
    pixels: Seq<[u8; 3]>,
    height: nat,
    scanline: F,
    rows: Seq<Vec<[u8; 3]>>,
) -> bool {
    &&& rows.len() == height
    &&& forall|k: int|
        0 <= k < height ==> scanline.ensures(((height - 1 - k) as usize,), #[trigger] rows[k])
    &&& pixels == concat_rows(rows)
}

/// When every row holds `width` pixels, the concatenation holds `rows.len() * width`
/// pixels, and pixel `i` of row `k` stands at `k * width + i`.
pub proof fn lemma_concat_uniform(rows: Seq<Vec<[u8; 3]>>, width: nat, k: int, i: int)
    requires
        forall|m: int| 0 <= m < rows.len() ==> (#[trigger] rows[m])@.len() == width,
        0 <= k < rows.len(),
        0 <= i < width,
    ensures
        concat_rows(rows).len() == rows.len() * width,
        concat_rows(rows)[k * width + i] == rows[k]@[i],
    decreases rows.len(),
{
    let last = rows.len() - 1;
    lemma_concat_len(rows.drop_last(), width);
    assert(concat_rows(rows.drop_last()).len() == last * width);
    assert(rows.len() * width == last * width + width) by (nonlinear_arith)
        requires
            last == rows.len() - 1,
    ;
    if k < last {
        lemma_concat_uniform(rows.drop_last(), width, k, i);
        assert(k * width + i < last * width) by (nonlinear_arith)
            requires
                k < last,
                i < width,
        ;
    } else {
        assert(k * width + i == last * width + i) by (nonlinear_arith)
            requires
                k == last,
        ;
    }
}

/// When every row holds `width` pixels, the concatenation holds `rows.len() * width`.
proof fn lemma_concat_len(rows: Seq<Vec<[u8; 3]>>, width: nat)
    requires
        forall|m: int| 0 <= m < rows.len() ==> (#[trigger] rows[m])@.len() == width,
    ensures
        concat_rows(rows).len() == rows.len() * width,
    decreases rows.len(),
{
    if rows.len() > 0 {
        lemma_concat_len(rows.drop_last(), width);
        assert(rows.len() * width == (rows.len() - 1) * width + width) by (nonlinear_arith);
    }
}

/// Where every scanline has `width` pixels, the pixel of column `i` on scanline `j`
/// stands at index `(height - 1 - j) * width + i` of the image: rows run from the top
/// of the image (the highest scanline) to the bottom, each from left to right.
pub proof fn lemma_pixel_position<F: Fn(usize) -> Vec<[u8; 3]>>(
    pixels: Seq<[u8; 3]>,
    width: nat,
    height: nat,
    scanline: F,
    rows: Seq<Vec<[u8; 3]>>,
    j: nat,
    i: nat,
)
    requires
        assembled_from(pixels, height, scanline, rows),
        forall|m: usize, row: Vec<[u8; 3]>|
            m < height && #[trigger] scanline.ensures((m,), row) ==> row@.len() == width,
        j < height,
        i < width,
    ensures
        pixels.len() == width * height,
        pixels[(height - 1 - j) * width + i] == rows[height - 1 - j]@[i as int],
{
    assert forall|m: int| 0 <= m < rows.len() implies (#[trigger] rows[m])@.len() == width by {
        assert(scanline.ensures(((height - 1 - m) as usize,), rows[m]));
    }
    lemma_concat_uniform(rows, width, height - 1 - j, i as int);
    assert(height * width == width * height) by (nonlinear_arith);
}

/// Rows that agree one by one give the same image.
proof fn lemma_concat_agree(rows1: Seq<Vec<[u8; 3]>>, rows2: Seq<Vec<[u8; 3]>>)
    requires
        rows1.len() == rows2.len(),
        forall|k: int| 0 <= k < rows1.len() ==> (#[trigger] rows1[k])@ == rows2[k]@,
    ensures
        concat_rows(rows1) == concat_rows(rows2),
    decreases rows1.len(),
{
    if rows1.len() > 0 {
        lemma_concat_agree(rows1.drop_last(), rows2.drop_last());
    }
}

/// Assembly adds no variation of its own: where `scanline` gives the same pixels
/// whenever it is called on the same scanline, any two images assembled from it are
/// identical.
pub proof fn lemma_render_deterministic<F: Fn(usize) -> Vec<[u8; 3]>>(
    height: nat,
    scanline: F,
    pixels1: Seq<[u8; 3]>,
    rows1: Seq<Vec<[u8; 3]>>,
    pixels2: Seq<[u8; 3]>,
    rows2: Seq<Vec<[u8; 3]>>,
)
    requires
        forall|j: usize, a: Vec<[u8; 3]>, b: Vec<[u8; 3]>|
            #[trigger] scanline.ensures((j,), a) && #[trigger] scanline.ensures((j,), b) ==> a@
                == b@,
        assembled_from(pixels1, height, scanline, rows1),
        assembled_from(pixels2, height, scanline, rows2),
    ensures
        pixels1 == pixels2,
{
    assert forall|k: int| 0 <= k < rows1.len() implies (#[trigger] rows1[k])@ == rows2[k]@ by {
        assert(scanline.ensures(((height - 1 - k) as usize,), rows1[k]));
        assert(scanline.ensures(((height - 1 - k) as usize,), rows2[k]));
    }
    lemma_concat_agree(rows1, rows2);
}

/// Renders an image of `height` rows, `width` pixels wide. `scanline(j)` computes the
/// row of pixels for scanline `j`; scanlines are visited from `height - 1` down to 0,
/// so that the first row of the result is the top of the image. Each row is appended
/// as soon as it is computed.
pub fn render_image<F: Fn(usize) -> Vec<[u8; 3]>>(width: usize, height: usize, scanline: F) -> (r:
    Bitmap)
    requires
        forall|j: usize| j < height ==> scanline.requires((j,)),
    ensures
        r.width_spec() == width,
        exists|rows: Seq<Vec<[u8; 3]>>| assembled_from(r.pixels(), height as nat, scanline, rows),
{
    let mut bmp = Bitmap::new(Vec::new(), width);
    let ghost mut rows: Seq<Vec<[u8; 3]>> = Seq::empty();
    let mut j: usize = height;
    while j > 0
        invariant
            j <= height,
            forall|i: usize| i < height ==> scanline.requires((i,)),
            bmp.width_spec() == width,
            rows.len() == height - j,
            forall|k: int|
                0 <= k < height - j ==> scanline.ensures(
                    ((height - 1 - k) as usize,),
                    #[trigger] rows[k],
                ),
            bmp.pixels() == concat_rows(rows),
        decreases j,
    {
        j = j - 1;
        let row = scanline(j);
        bmp.push_slice(row.as_slice());
        proof {
            let old_rows = rows;
            rows = rows.push(row);
            assert(rows.drop_last() =~= old_rows);
        }
    }
    assert(assembled_from(bmp.pixels(), height as nat, scanline, rows));
    bmp
}

} // verus!
