use vstd::prelude::*;

verus! {

/// A texture of one color everywhere. The color type is the caller's own.
pub struct SolidColor<C> {
    color_value: C,
}

impl<C: Copy> SolidColor<C> {
    /// The color this texture shows at every point.
    pub closed spec fn color(&self) -> C {
        self.color_value
    }

    pub fn new(c: C) -> (r: Self)
        ensures
            r.color() == c,
    {
        SolidColor { color_value: c }
    }

    /// The color at any surface coordinates: always the same one.
    pub fn value(&self) -> (r: C)
        ensures
            r == self.color(),
    {
        self.color_value
    }
}

/// Bytes per pixel of an RGB image.
pub const BYTES_PER_PIXEL: usize = 3;

/// The column or row that a texel lookup reads: `c`, clamped to the last one, `n - 1`.
pub open spec fn clamp_index(c: int, n: int) -> int {
    if c >= n {
        n - 1
    } else {
        c
    }
}

/// An RGB image, three bytes per pixel, row by row from the top.
pub struct ImageTexture {
    data: Vec<u8>,
    width: usize,
    height: usize,
    bytes_per_scanline: usize,
}

impl ImageTexture {
    /// The image's bytes.
    pub closed spec fn pixels(&self) -> Seq<u8> {
        self.data@
    }

    /// Pixels per row.
    pub closed spec fn columns(&self) -> nat {
        self.width as nat
    }

    /// Rows.
    pub closed spec fn rows(&self) -> nat {
        self.height as nat
    }

    /// The cached row stride matches the width.
    pub closed spec fn scanline_ok(&self) -> bool {
        self.bytes_per_scanline == BYTES_PER_PIXEL * self.width
    }

    /// Either no image at all, or at least `columns * rows` pixels of three bytes.
    pub open spec fn wf(&self) -> bool {
        &&& self.scanline_ok()
        &&& self.pixels().len() == 0 || {
            &&& self.columns() >= 1
            &&& self.rows() >= 1
            &&& self.pixels().len() >= BYTES_PER_PIXEL * self.columns() * self.rows()
        }
    }

    /// Offset of the first byte of the texel read at column `i`, row `j`.
    pub open spec fn texel_offset(&self, i: int, j: int) -> int {
        BYTES_PER_PIXEL * clamp_index(i, self.columns() as int) + BYTES_PER_PIXEL
            * self.columns() * clamp_index(j, self.rows() as int)
    }

    /// The red, green and blue bytes read at column `i`, row `j`.
    pub open spec fn texel_spec(&self, i: int, j: int) -> (u8, u8, u8) {
        let o = self.texel_offset(i, j);
        (self.pixels()[o], self.pixels()[o + 1], self.pixels()[o + 2])
    }

    pub fn new(data: Vec<u8>, width: usize, height: usize) -> (r: Self)
        requires
            BYTES_PER_PIXEL * width <= usize::MAX,
            data@.len() == 0 || (width >= 1 && height >= 1 && data@.len() >= BYTES_PER_PIXEL
                * width * height),
        ensures
            r.wf(),
            r.pixels() == data@,
            r.columns() == width,
            r.rows() == height,
    {
        ImageTexture { data, width, height, bytes_per_scanline: BYTES_PER_PIXEL * width }
    }

    pub fn width(&self) -> (r: usize)
        ensures
            r == self.columns(),
    {
        self.width
    }

    pub fn height(&self) -> (r: usize)
        ensures
            r == self.rows(),
    {
        self.height
    }

    /// The texel at column `i`, row `j`, each clamped to the last one; `None` for an
    /// empty image.
    pub fn texel(&self, i: usize, j: usize) -> (r: Option<(u8, u8, u8)>)
        requires
            self.wf(),
        ensures
            self.pixels().len() == 0 ==> r.is_none(),
            self.pixels().len() > 0 ==> r == Some(self.texel_spec(i as int, j as int)),
    {
        if self.data.len() == 0 {
            return None;
        }
        let ci = if i >= self.width {
            self.width - 1
        } else {
            i
        };
        let cj = if j >= self.height {
            self.height - 1
        } else {
            j
        };
        let ghost w = self.width as int;
        let ghost h = self.height as int;
        proof {
            assert(3 * w * cj <= 3 * w * (h - 1)) by (nonlinear_arith)
                requires
                    0 <= cj <= h - 1,
                    w >= 1,
            ;
            assert(3 * w * (h - 1) + 3 * (w - 1) + 2 < 3 * w * h) by (nonlinear_arith)
                requires
                    w >= 1,
                    h >= 1,
            ;
        }
        let idx = BYTES_PER_PIXEL * ci + self.bytes_per_scanline * cj;
        Some((self.data[idx], self.data[idx + 1], self.data[idx + 2]))
    }
}

} // verus!
