use vstd::prelude::*;

verus! {

/// Number of iterations after which a point that has not escaped is
/// treated as a member of the set.
pub const ITERATION_LIMIT: u32 = 255;

/// Outcome of iterating `z <- z * z + c` from `z = 0` for one point.
#[derive(Clone, Copy, Debug, PartialEq, Eq, Structural)]
pub enum Escape {
    /// The squared modulus exceeded the threshold at this 0-based step.
    Escaped(u32),
    /// No escape was seen within the iteration limit: approximately a member.
    Bounded,
}

impl Escape {
    /// An escape step below the iteration limit, or no escape at all.
    pub open spec fn within_limit(self) -> bool {
        match self {
            Escape::Escaped(i) => i < ITERATION_LIMIT,
            Escape::Bounded => true,
        }
    }
}

/// Grayscale intensity of a pixel: points escaping early are bright,
/// points that never escape are black.
pub open spec fn shade_spec(e: Escape) -> u8 {
    match e {
        Escape::Escaped(i) => (ITERATION_LIMIT - i) as u8,
        Escape::Bounded => 0,
    }
}

pub fn shade(e: Escape) -> (r: u8)
    requires
        e.within_limit(),
    ensures
        r == shade_spec(e),
        e == Escape::Bounded ==> r == 0,
        e == Escape::Escaped(0) ==> r == 255,
{
    match e {
        Escape::Escaped(i) => (ITERATION_LIMIT - i) as u8,
        Escape::Bounded => 0,
    }
}

/// `value` is the shade of some outcome that `escape` may return for the
/// pixel at (`column`, `row`).
pub open spec fn pixel_matches<F: Fn(usize, usize) -> Escape>(
    escape: F,
    column: int,
    row: int,
    value: u8,
) -> bool {
    exists|e: Escape| escape.ensures((column as usize, row as usize), e) && shade_spec(e) == value
}

/// Byte `i` of a row-major buffer of the given width holds the shade of its pixel.
pub open spec fn pixel_rendered<F: Fn(usize, usize) -> Escape>(
    escape: F,
    width: nat,
    pixels: Seq<u8>,
    i: int,
) -> bool {
    pixel_matches(escape, i % (width as int), i / (width as int), pixels[i])
}

/// `pixels` is a fully rendered `width` x `height` band.
pub open spec fn band_rendered<F: Fn(usize, usize) -> Escape>(
    escape: F,
    width: nat,
    height: nat,
    pixels: Seq<u8>,
) -> bool {
    &&& pixels.len() == width * height
    &&& forall|i: int| 0 <= i < pixels.len() ==> #[trigger] pixel_rendered(escape, width, pixels, i)
}

/// Every call of `escape` on the same pixel has the same outcome.
pub open spec fn is_deterministic<F: Fn(usize, usize) -> Escape>(escape: F) -> bool {
    forall|column: usize, row: usize, a: Escape, b: Escape|
        #![trigger escape.ensures((column, row), a), escape.ensures((column, row), b)]
        escape.ensures((column, row), a) && escape.ensures((column, row), b) ==> a == b
}

/// Fills a `bounds.0` x `bounds.1` band in row-major order, each byte the
/// shade of the escape outcome of its (column, row) pixel.
///
/// A buffer whose length is not `bounds.0 * bounds.1` is a partitioning
/// error upstream, and is ruled out by the precondition.
pub fn render_band<F: Fn(usize, usize) -> Escape>(pixels: &mut [u8], bounds: (usize, usize), escape: F)
    requires
        old(pixels)@.len() == bounds.0 * bounds.1,
        forall|column: usize, row: usize|
            column < bounds.0 && row < bounds.1 ==> #[trigger] escape.requires((column, row)),
        forall|column: usize, row: usize, e: Escape|
            #[trigger] escape.ensures((column, row), e) ==> e.within_limit(),
    ensures
        band_rendered(escape, bounds.0 as nat, bounds.1 as nat, final(pixels)@),
{
    let (width, height) = bounds;
    let ghost total = pixels@.len();
    let mut idx: usize = 0;
    let mut row: usize = 0;
    while row < height
        invariant
            pixels@.len() == total,
            total == width * height,
            row <= height,
            idx == row * width,
            forall|column: usize, row: usize|
                column < width && row < height ==> #[trigger] escape.requires((column, row)),
            forall|column: usize, row: usize, e: Escape|
                #[trigger] escape.ensures((column, row), e) ==> e.within_limit(),
            forall|i: int| 0 <= i < idx ==> #[trigger] pixel_rendered(escape, width as nat, pixels@, i),
        decreases height - row,
    {
        proof {
            assert(idx + width <= total) by (nonlinear_arith)
                requires idx == row * width, row < height, total == width * height;
        }
        let mut column: usize = 0;
        while column < width
            invariant
                pixels@.len() == total,
                total == width * height,
                row < height,
                column <= width,
                idx == row * width + column,
                idx - column + width <= total,
                forall|column: usize, row: usize|
                    column < width && row < height ==> #[trigger] escape.requires((column, row)),
                forall|column: usize, row: usize, e: Escape|
                    #[trigger] escape.ensures((column, row), e) ==> e.within_limit(),
                forall|i: int| 0 <= i < idx ==> #[trigger] pixel_rendered(escape, width as nat, pixels@, i),
            decreases width - column,
        {
            let e = escape(column, row);
            let v = shade(e);
            let ghost before = pixels@;
            pixels[idx] = v;
            proof {
                vstd::arithmetic::div_mod::lemma_fundamental_div_mod_converse(
                    idx as int,
                    width as int,
                    row as int,
                    column as int,
                );
                assert(pixel_rendered(escape, width as nat, pixels@, idx as int));
                assert forall|i: int| 0 <= i < idx + 1 implies #[trigger] pixel_rendered(
                    escape,
                    width as nat,
                    pixels@,
                    i,
                ) by {
                    if i < idx {
                        assert(pixel_rendered(escape, width as nat, before, i));
                        assert(pixels@[i] == before[i]);
                    }
                }
            }
            idx = idx + 1;
            column = column + 1;
        }
        proof {
            assert((row + 1) * width == row * width + width) by (nonlinear_arith);
        }
        row = row + 1;
    }
    proof {
        assert(idx == total) by (nonlinear_arith)
            requires idx == row * width, row == height, total == width * height;
    }
}

/// Rendering is a function of the band and the escape function: two
/// buffers rendered with the same deterministic escape function over the
/// same bounds are identical, byte for byte.
pub proof fn lemma_render_deterministic<F: Fn(usize, usize) -> Escape>(
    escape: F,
    width: nat,
    height: nat,
    a: Seq<u8>,
    b: Seq<u8>,
)
    requires
        is_deterministic(escape),
        band_rendered(escape, width, height, a),
        band_rendered(escape, width, height, b),
    ensures
        a == b,
{
    assert forall|i: int| 0 <= i < a.len() implies a[i] == b[i] by {
        assert(pixel_rendered(escape, width, a, i));
        assert(pixel_rendered(escape, width, b, i));
        let ea = choose|e: Escape|
            escape.ensures(((i % (width as int)) as usize, (i / (width as int)) as usize), e)
                && shade_spec(e) == a[i];
        let eb = choose|e: Escape|
            escape.ensures(((i % (width as int)) as usize, (i / (width as int)) as usize), e)
                && shade_spec(e) == b[i];
        assert(ea == eb);
    }
    assert(a =~= b);
}

} // verus!
