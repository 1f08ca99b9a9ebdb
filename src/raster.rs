use vstd::arithmetic::div_mod::{lemma_div_is_ordered, lemma_div_by_multiple};
use vstd::prelude::*;

verus! {

/// First row of band `t` when `height` rows are shared among `workers`.
pub open spec fn band_start(t: int, height: int, workers: int) -> int {
    t * height / workers
}

/// Rows `[t * height / workers, (t + 1) * height / workers)`: the band of worker `t`.
pub fn row_band(t: usize, height: usize, workers: usize) -> (r: (usize, usize))
    requires
        t < workers,
        height * workers <= usize::MAX,
    ensures
        r.0 == band_start(t as int, height as int, workers as int),
        r.1 == band_start(t + 1, height as int, workers as int),
{
    assert(t * height <= (t + 1) * height <= workers * height) by (nonlinear_arith)
        requires
            t < workers,
    ;
    (t * height / workers, (t + 1) * height / workers)
}

/// The bands of workers `0..workers` tile the rows `[0, height)`: the first starts at
/// row 0, the last ends at `height`, each ends where the next starts, and no band
/// ends before it starts, so no row is left out or drawn twice.
pub proof fn lemma_bands_tile(height: nat, workers: nat)
    requires
        workers > 0,
    ensures
        band_start(0, height as int, workers as int) == 0,
        band_start(workers as int, height as int, workers as int) == height,
        forall|t1: int, t2: int|
            0 <= t1 <= t2 ==> #[trigger] band_start(t1, height as int, workers as int)
                <= #[trigger] band_start(t2, height as int, workers as int),
{
    lemma_div_by_multiple(height as int, workers as int);
    assert(workers * height == height * workers) by (nonlinear_arith);
    assert forall|t1: int, t2: int| 0 <= t1 <= t2 implies #[trigger] band_start(
        t1,
        height as int,
        workers as int,
    ) <= #[trigger] band_start(t2, height as int, workers as int) by {
        assert(t1 * height <= t2 * height) by (nonlinear_arith)
            requires
                0 <= t1 <= t2,
                height >= 0,
        ;
        lemma_div_is_ordered(t1 * height, t2 * height, workers as int);
    }
}

/// The image row of camera row `j`: camera rows count up from the bottom, image rows
/// down from the top.
pub fn image_row(j: usize, height: usize) -> (r: usize)
    requires
        j < height,
    ensures
        r == height - 1 - j,
        r < height,
{
    height - 1 - j
}

/// Offset of the first byte of pixel `(x, y)` in a row-major RGB raster `width` wide.
pub open spec fn pixel_offset(x: int, y: int, width: int) -> int {
    3 * (y * width + x)
}

/// A `width` by `height` RGB8 raster, row-major, row 0 at the top.
pub struct Raster {
    width: usize,
    height: usize,
    data: Vec<u8>,
}

impl Raster {
    /// The raster's bytes, three per pixel.
    pub closed spec fn bytes(&self) -> Seq<u8> {
        self.data@
    }

    /// Pixels per row.
    pub closed spec fn columns(&self) -> nat {
        self.width as nat
    }

    /// Rows.
    pub closed spec fn rows(&self) -> nat {
        self.height as nat
    }

    /// Exactly three bytes for each pixel.
    pub open spec fn wf(&self) -> bool {
        self.bytes().len() == 3 * self.columns() * self.rows()
    }

    /// An all-black raster.
    pub fn new(width: usize, height: usize) -> (r: Raster)
        requires
            3 * width * height <= usize::MAX,
        ensures
            r.wf(),
            r.columns() == width,
            r.rows() == height,
            forall|k: int| 0 <= k < r.bytes().len() ==> #[trigger] r.bytes()[k] == 0,
    {
        assert(width * height <= 3 * width * height) by (nonlinear_arith);
        assert(3 * width * height == width * height * 3) by (nonlinear_arith);
        let n = width * height * 3;
        let mut data: Vec<u8> = Vec::new();
        let mut k: usize = 0;
        while k < n
            invariant
                k <= n,
                data@.len() == k,
                forall|m: int| 0 <= m < k ==> #[trigger] data@[m] == 0,
            decreases n - k,
        {
            data.push(0);
            k = k + 1;
        }
        Raster { width, height, data }
    }

    pub fn width(&self) -> (r: usize)
        ensures
            r == self.columns(),
    {
        self.width
    }

    pub fn height(&self) -> (r: usize)
        ensures
            r == self.rows(),
    {
        self.height
    }

    /// Sets pixel `(x, y)` to `pixel_color`, leaving every other byte as it was.
    pub fn write_color(&mut self, pixel_color: [u8; 3], x: usize, y: usize)
        requires
            old(self).wf(),
            x < old(self).columns(),
            y < old(self).rows(),
        ensures
            final(self).wf(),
            final(self).columns() == old(self).columns(),
            final(self).rows() == old(self).rows(),
            final(self).bytes() == old(self).bytes().update(
                pixel_offset(x as int, y as int, old(self).columns() as int),
                pixel_color[0],
            ).update(
                pixel_offset(x as int, y as int, old(self).columns() as int) + 1,
                pixel_color[1],
            ).update(
                pixel_offset(x as int, y as int, old(self).columns() as int) + 2,
                pixel_color[2],
            ),
    {
        let ghost w = self.width as int;
        let ghost h = self.height as int;
        let len = self.data.len();
        proof {
            assert(len == 3 * w * h);
            assert(y * w + x < w * h && 3 * (y * w + x) + 2 < 3 * w * h) by (nonlinear_arith)
                requires
                    0 <= x < w,
                    0 <= y < h,
            ;
        }
        let o = 3 * (y * self.width + x);
        self.data.set(o, pixel_color[0]);
        self.data.set(o + 1, pixel_color[1]);
        self.data.set(o + 2, pixel_color[2]);
    }

    /// The bytes of the finished raster, ready for an image encoder.
    pub fn into_bytes(self) -> (r: Vec<u8>)
        ensures
            r@ == self.bytes(),
    {
        self.data
    }
}

} // verus!
