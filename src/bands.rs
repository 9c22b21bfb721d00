use vstd::prelude::*;

verus! {

/// One horizontal band of the output image, handed to one worker.
#[derive(Clone, Copy, Debug, PartialEq, Eq, Structural)]
pub struct Band {
    /// Index of the band's first row in the full image.
    pub top: usize,
    /// Number of rows in the band.
    pub rows: usize,
    /// Offset of the band's first byte in the full buffer.
    pub start: usize,
    /// Number of bytes in the band.
    pub len: usize,
}

/// At least one worker renders.
pub open spec fn effective_workers(workers: nat) -> nat {
    if workers == 0 { 1 } else { workers }
}

/// Rows per band: the height divided by the worker count, rounded up, and
/// at least one.
pub open spec fn rows_per_band_spec(height: nat, workers: nat) -> nat {
    let w = effective_workers(workers);
    let q = height / w;
    if height % w != 0 { q + 1 } else if q == 0 { 1 } else { q }
}

/// Number of non-empty bands: the height divided by the rows per band,
/// rounded up.
pub open spec fn band_count_spec(height: nat, workers: nat) -> nat {
    let r = rows_per_band_spec(height, workers);
    if height % r != 0 { height / r + 1 } else { height / r }
}

/// Band `k`: rows from `k * rows_per_band` up to the next band or the
/// bottom of the image, whichever comes first.
pub open spec fn band_spec(width: nat, height: nat, workers: nat, k: nat) -> Band {
    let r = rows_per_band_spec(height, workers);
    let top = k * r;
    let rows = if top + r <= height { r } else { (height - top) as nat };
    Band { top: top as usize, rows: rows as usize, start: (top * width) as usize, len: (rows * width) as usize }
}

/// Byte `p` of the full buffer lies in band `b`.
pub open spec fn covers(b: Band, p: int) -> bool {
    b.start <= p < b.start + b.len
}

/// Byte `p` lies in some band of `layout`.
pub open spec fn in_some_band(layout: Seq<Band>, p: int) -> bool {
    exists|k: int| 0 <= k < layout.len() && covers(#[trigger] layout[k], p)
}

/// The bands that split a `width` x `height` buffer among `workers` workers.
pub open spec fn layout_spec(width: nat, height: nat, workers: nat) -> Seq<Band> {
    Seq::new(band_count_spec(height, workers), |k: int| band_spec(width, height, workers, k as nat))
}

proof fn lemma_rows_per_band(height: nat, workers: nat)
    ensures
        rows_per_band_spec(height, workers) >= 1,
        rows_per_band_spec(height, workers) * effective_workers(workers) >= height,
        band_count_spec(height, workers) * rows_per_band_spec(height, workers) >= height,
        height > 0 ==> (band_count_spec(height, workers) - 1) * rows_per_band_spec(height, workers) < height,
        band_count_spec(height, workers) <= effective_workers(workers),
        height == 0 ==> band_count_spec(height, workers) == 0,
{
    let w = effective_workers(workers);
    let r = rows_per_band_spec(height, workers);
    let n = band_count_spec(height, workers);
    vstd::arithmetic::div_mod::lemma_fundamental_div_mod(height as int, w as int);
    vstd::arithmetic::div_mod::lemma_fundamental_div_mod(height as int, r as int);
    assert(r * w >= height) by (nonlinear_arith)
        requires
            height == w * (height / w) + height % w,
            0 <= height % w < w,
            r == (if height % w != 0 { height / w + 1 } else if height / w == 0 { 1 } else { height / w }),
            w >= 1,
    ;
    assert(n * r >= height) by (nonlinear_arith)
        requires
            height == r * (height / r) + height % r,
            0 <= height % r < r,
            n == (if height % r != 0 { height / r + 1 } else { height / r }),
    ;
    if height > 0 {
        assert((n - 1) * r < height) by (nonlinear_arith)
            requires
                height == r * (height / r) + height % r,
                0 <= height % r < r,
                n == (if height % r != 0 { height / r + 1 } else { height / r }),
                height > 0,
                r >= 1,
        ;
        assert(n <= w) by (nonlinear_arith)
            requires
                (n - 1) * r < height,
                r * w >= height,
                r >= 1,
                n >= 1,
                height == w * (height / w) + height % w,
                0 <= height % w < w,
                r == (if height % w != 0 { height / w + 1 } else if height / w == 0 { 1 } else { height / w }),
        ;
    } else {
        assert(n == 0) by (nonlinear_arith)
            requires height == 0, r >= 1, n == (if height % r != 0 { height / r + 1 } else { height / r });
    }
}


proof fn lemma_band_fits(width: nat, height: nat, workers: nat, k: nat)
    requires
        k < band_count_spec(height, workers),
        width * height <= usize::MAX,
        height <= usize::MAX,
    ensures
        ({
            let r = rows_per_band_spec(height, workers);
            let rows = if k * r + r <= height { r } else { (height - k * r) as nat };
            &&& k * r < height
            &&& k * r + rows <= height
            &&& rows >= 1
            &&& k * r * width + rows * width == (k * r + rows) * width
            &&& (k * r + rows) * width <= width * height
            &&& band_spec(width, height, workers, k).top == k * r
            &&& band_spec(width, height, workers, k).rows == rows
            &&& band_spec(width, height, workers, k).start == k * r * width
            &&& band_spec(width, height, workers, k).len == rows * width
        }),
{
    lemma_rows_per_band(height, workers);
    let r = rows_per_band_spec(height, workers);
    let n = band_count_spec(height, workers);
    let rows = if k * r + r <= height { r } else { (height - k * r) as nat };
    assert(k * r <= (n - 1) * r) by (nonlinear_arith)
        requires k < n, r >= 1;
    assert(k * r * width + rows * width == (k * r + rows) * width) by (nonlinear_arith);
    assert((k * r + rows) * width <= width * height) by (nonlinear_arith)
        requires k * r + rows <= height;
    assert(k * r * width <= width * height) by (nonlinear_arith)
        requires k * r <= height;
    assert(rows * width <= width * height) by (nonlinear_arith)
        requires rows <= height;
    assert(k * r * width == (k * r) * width);
    let b = band_spec(width, height, workers, k);
    assert(b.top == k * r);
    assert(b.rows == rows);
    assert(b.start == k * r * width);
    assert(b.len == rows * width);
}

/// The bands tile the buffer: every byte of a `width` x `height` buffer
/// lies in exactly one band, and no band reaches outside the buffer.
pub proof fn lemma_bands_tile(width: nat, height: nat, workers: nat)
    requires
        height <= usize::MAX,
        width * height <= usize::MAX,
    ensures
        forall|p: int|
            0 <= p < width * height ==> #[trigger] in_some_band(layout_spec(width, height, workers), p),
        forall|k1: int, k2: int, p: int|
            0 <= k1 < layout_spec(width, height, workers).len() && 0 <= k2 < layout_spec(
                width,
                height,
                workers,
            ).len() && #[trigger] covers(layout_spec(width, height, workers)[k1], p)
                && #[trigger] covers(layout_spec(width, height, workers)[k2], p) ==> k1 == k2,
        forall|k: int, p: int|
            0 <= k < layout_spec(width, height, workers).len() && #[trigger] covers(
                layout_spec(width, height, workers)[k],
                p,
            ) ==> 0 <= p < width * height,
{
    let layout = layout_spec(width, height, workers);
    let r = rows_per_band_spec(height, workers);
    let n = band_count_spec(height, workers);
    lemma_rows_per_band(height, workers);
    assert forall|p: int| 0 <= p < width * height implies #[trigger] in_some_band(layout, p) by {
        let row = p / (width as int);
        assert(width > 0) by (nonlinear_arith) requires 0 <= p < width * height;
        vstd::arithmetic::div_mod::lemma_fundamental_div_mod(p, width as int);
        assert(row < height) by (nonlinear_arith)
            requires p == width * row + p % (width as int), 0 <= p % (width as int), p < width * height, width > 0;
        assert(row >= 0) by (nonlinear_arith)
            requires p == width * row + p % (width as int), p % (width as int) < width, p >= 0, width > 0;
        let k = row / (r as int);
        vstd::arithmetic::div_mod::lemma_fundamental_div_mod(row, r as int);
        assert(0 <= k && k * r <= row && row < k * r + r) by (nonlinear_arith)
            requires row == r * k + row % (r as int), 0 <= row % (r as int) < r, row >= 0, r >= 1;
        assert(k < n) by (nonlinear_arith)
            requires k * r <= row, row < height, n * r >= height, r >= 1, k >= 0;
        lemma_band_fits(width, height, workers, k as nat);
        let rows = if k * r + r <= height { r } else { (height - k * r) as nat };
        assert(k * r * width <= p && p < (k * r + rows) * width) by (nonlinear_arith)
            requires
                p == width * row + p % (width as int),
                0 <= p % (width as int) < width,
                k * r <= row,
                row < k * r + rows,
        ;
        assert(covers(layout[k], p));
    }
    assert forall|k1: int, k2: int, p: int|
        0 <= k1 < layout.len() && 0 <= k2 < layout.len() && #[trigger] covers(layout[k1], p)
            && #[trigger] covers(layout[k2], p) implies k1 == k2 by {
        lemma_band_fits(width, height, workers, k1 as nat);
        lemma_band_fits(width, height, workers, k2 as nat);
        if k1 < k2 {
            assert((k1 * r + r) * width <= k2 * r * width) by (nonlinear_arith)
                requires k1 < k2, r >= 1;
            assert((k1 * r + r) * width >= (k1 * r + layout[k1].rows) * width) by (nonlinear_arith)
                requires layout[k1].rows <= r;
        } else if k2 < k1 {
            assert((k2 * r + r) * width <= k1 * r * width) by (nonlinear_arith)
                requires k2 < k1, r >= 1;
            assert((k2 * r + r) * width >= (k2 * r + layout[k2].rows) * width) by (nonlinear_arith)
                requires layout[k2].rows <= r;
        }
    }
    assert forall|k: int, p: int| 0 <= k < layout.len() && #[trigger] covers(layout[k], p) implies 0
        <= p < width * height by {
        lemma_band_fits(width, height, workers, k as nat);
    }
}

/// Splits the rows of a `width` x `height` buffer into contiguous bands of
/// `ceil(height / workers)` rows, the last one possibly shorter; trailing
/// bands that would be empty are left out. A worker count of zero is
/// treated as one.
pub fn band_layout(width: usize, height: usize, workers: usize) -> (r: Vec<Band>)
    requires
        width * height <= usize::MAX,
    ensures
        r@ == layout_spec(width as nat, height as nat, workers as nat),
        r@.len() <= effective_workers(workers as nat),
{
    proof {
        lemma_rows_per_band(height as nat, workers as nat);
    }
    let w: usize = if workers == 0 { 1 } else { workers };
    let q: usize = height / w;
    proof {
        vstd::arithmetic::div_mod::lemma_fundamental_div_mod(height as int, w as int);
        assert(height % w != 0 ==> q < height) by (nonlinear_arith)
            requires height == w * q + height % w, 0 <= height % w < w, w >= 1;
    }
    let rpb: usize = if height % w != 0 { q + 1 } else if q == 0 { 1 } else { q };
    let n: usize = if height % rpb != 0 { height / rpb + 1 } else { height / rpb };
    assert(rpb == rows_per_band_spec(height as nat, workers as nat));
    assert(n == band_count_spec(height as nat, workers as nat));
    let mut bands: Vec<Band> = Vec::new();
    let mut top: usize = 0;
    let mut k: usize = 0;
    while k < n
        invariant
            width * height <= usize::MAX,
            rpb == rows_per_band_spec(height as nat, workers as nat),
            n == band_count_spec(height as nat, workers as nat),
            k <= n,
            k < n ==> top == k * rpb,
            bands@.len() == k,
            forall|j: int| 0 <= j < k ==> bands@[j] == band_spec(width as nat, height as nat, workers as nat, j as nat),
        decreases n - k,
    {
        proof {
            lemma_band_fits(width as nat, height as nat, workers as nat, k as nat);
        }
        let rows: usize = if height - top >= rpb { rpb } else { height - top };
        let start: usize = top * width;
        let len: usize = rows * width;
        bands.push(Band { top, rows, start, len });
        if k + 1 < n {
            proof {
                lemma_rows_per_band(height as nat, workers as nat);
                assert(k * rpb + rpb == (k + 1) * rpb) by (nonlinear_arith);
                assert((k + 1) * rpb <= (n - 1) * rpb) by (nonlinear_arith)
                    requires k + 1 < n;
            }
            top = top + rpb;
        }
        k = k + 1;
    }
    assert(bands@ =~= layout_spec(width as nat, height as nat, workers as nat));
    bands
}

} // verus!
