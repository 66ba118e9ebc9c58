//! The partition of an image into bands: contiguous strips of whole rows, one
//! for each worker, all of one height but the last, which may be shorter.

use crate::resolution::Resolution;
use vstd::prelude::*;

verus! {

/// The least height of a band, in rows. Shorter bands would cost more to hand
/// out than to render.
pub const MIN_BAND_ROWS: u32 = 50;

/// The number of workers to plan for where the machine does not tell.
pub const DEFAULT_WORKERS: usize = 4;

/// The number of workers to plan for, given what the machine reported of its
/// parallelism, if anything.
pub fn worker_count(detected: Option<usize>) -> (workers: usize)
    ensures
        workers > 0,
        workers == match detected {
            Some(n) => if n > 0 {
                n
            } else {
                DEFAULT_WORKERS
            },
            None => DEFAULT_WORKERS,
        },
{
    match detected {
        Some(n) => if n > 0 {
            n
        } else {
            DEFAULT_WORKERS
        },
        None => DEFAULT_WORKERS,
    }
}

/// The height of a band for an image of `height` rows and `workers` workers:
/// an equal share of the rows, but no less than `MIN_BAND_ROWS`.
pub open spec fn spec_band_rows(height: u32, workers: nat) -> u32 {
    let share = height as int / workers as int;
    if share > MIN_BAND_ROWS {
        share as u32
    } else {
        MIN_BAND_ROWS
    }
}

/// Computes the height of a band.
pub fn band_rows(height: u32, workers: usize) -> (rows: u32)
    requires
        workers > 0,
    ensures
        rows == spec_band_rows(height, workers as nat),
        rows >= MIN_BAND_ROWS,
{
    if workers > height as usize {
        proof {
            vstd::arithmetic::div_mod::lemma_basic_div(height as int, workers as int);
        }
        MIN_BAND_ROWS
    } else {
        let share: u32 = height / (workers as u32);
        if share > MIN_BAND_ROWS {
            share
        } else {
            MIN_BAND_ROWS
        }
    }
}

/// A partition of an image into bands of `band_rows` rows.
#[derive(Clone, Copy, Debug, PartialEq, Eq, Structural)]
pub struct BandPlan {
    /// Pixels in a row.
    pub width: u32,
    /// Rows of the image.
    pub height: u32,
    /// Rows of every band but the last.
    pub band_rows: u32,
}

impl BandPlan {
    /// The image is not empty, and neither is a band.
    pub open spec fn valid(&self) -> bool {
        self.width > 0 && self.height > 0 && self.band_rows > 0
    }

    /// The number of bands: as many as it takes to hold every row.
    pub open spec fn spec_band_count(&self) -> int {
        (self.height + self.band_rows - 1) / (self.band_rows as int)
    }

    /// The first row of band `band`.
    pub open spec fn spec_start_row(&self, band: int) -> int {
        band * self.band_rows
    }

    /// The number of rows of band `band`: a full band, or what is left of the
    /// image.
    pub open spec fn spec_rows_in(&self, band: int) -> int {
        if self.spec_start_row(band) + self.band_rows <= self.height {
            self.band_rows as int
        } else {
            self.height - self.spec_start_row(band)
        }
    }

    /// Whether row `row` of the image lies in band `band`.
    pub open spec fn spec_band_holds(&self, band: int, row: int) -> bool {
        self.spec_start_row(band) <= row < self.spec_start_row(band) + self.spec_rows_in(band)
    }

    /// The number of pixels of a full band, or of the whole image where one
    /// band holds it all.
    pub open spec fn spec_band_len(&self) -> int {
        if self.band_rows <= self.height {
            self.width as int * self.band_rows as int
        } else {
            self.width as int * self.height as int
        }
    }

    /// The plan for an image of `resolution` and `workers` workers.
    pub open spec fn spec_new(resolution: Resolution, workers: nat) -> BandPlan {
        BandPlan {
            width: resolution.width,
            height: resolution.height,
            band_rows: spec_band_rows(resolution.height, workers),
        }
    }

    /// Plans the bands of an image of `resolution` for `workers` workers.
    pub fn new(resolution: &Resolution, workers: usize) -> (plan: BandPlan)
        requires
            resolution.valid(),
            workers > 0,
        ensures
            plan.valid(),
            plan == BandPlan::spec_new(*resolution, workers as nat),
    {
        BandPlan {
            width: resolution.width,
            height: resolution.height,
            band_rows: band_rows(resolution.height, workers),
        }
    }

    /// The number of bands.
    pub fn band_count(&self) -> (count: u32)
        requires
            self.valid(),
        ensures
            count == self.spec_band_count(),
            count > 0,
    {
        proof {
            lemma_count_is_last_plus_one(self.height as int, self.band_rows as int);
        }
        (self.height - 1) / self.band_rows + 1
    }

    /// The first row of band `band`.
    pub fn start_row(&self, band: u32) -> (row: u32)
        requires
            self.valid(),
            band < self.spec_band_count(),
        ensures
            row == self.spec_start_row(band as int),
            row < self.height,
    {
        proof {
            self.lemma_band_in_image(band as int);
        }
        band * self.band_rows
    }

    /// The number of rows of band `band`.
    pub fn rows_in(&self, band: u32) -> (rows: u32)
        requires
            self.valid(),
            band < self.spec_band_count(),
        ensures
            rows == self.spec_rows_in(band as int),
            rows > 0,
    {
        let start: u32 = self.start_row(band);
        if self.height - start >= self.band_rows {
            self.band_rows
        } else {
            self.height - start
        }
    }

    /// The number of pixels to cut the buffer into bands by.
    pub fn band_len(&self) -> (len: usize)
        requires
            self.valid(),
            self.width as int * self.height as int <= usize::MAX,
        ensures
            len == self.spec_band_len(),
            len > 0,
    {
        let rows: u32 = if self.band_rows <= self.height {
            self.band_rows
        } else {
            self.height
        };
        proof {
            assert(0 < self.width as int * rows as int <= self.width as int * self.height as int)
                by (nonlinear_arith)
                requires
                    0 < rows <= self.height,
                    self.width > 0,
            ;
        }
        self.width as usize * rows as usize
    }

    /// Every band starts inside the image and ends inside it.
    pub proof fn lemma_band_in_image(&self, band: int)
        requires
            self.valid(),
            0 <= band < self.spec_band_count(),
        ensures
            0 <= self.spec_start_row(band) < self.height,
            0 < self.spec_rows_in(band) <= self.band_rows,
            self.spec_start_row(band) + self.spec_rows_in(band) <= self.height,
            self.spec_start_row(band + 1) == self.spec_start_row(band) + self.band_rows,
            band + 1 < self.spec_band_count() ==> self.spec_rows_in(band) == self.band_rows,
            band + 1 == self.spec_band_count() ==> self.spec_start_row(band) + self.spec_rows_in(band)
                == self.height,
    {
        let h = self.height as int;
        let b = self.band_rows as int;
        lemma_count_is_last_plus_one(h, b);
        vstd::arithmetic::div_mod::lemma_fundamental_div_mod(h - 1, b);
        assert(band * b <= ((h - 1) / b) * b && (band + 1) * b == band * b + b && 0 <= band * b
            && b * ((h - 1) / b) == ((h - 1) / b) * b) by (nonlinear_arith)
            requires
                0 <= band <= (h - 1) / b,
                b > 0,
        ;
        if band + 1 < self.spec_band_count() {
            assert((band + 1) * b <= ((h - 1) / b) * b) by (nonlinear_arith)
                requires
                    0 <= band + 1 <= (h - 1) / b,
                    b > 0,
            ;
        }
    }

    /// Every row of the image lies in exactly one band: the band whose number
    /// is the row's number divided by the band height.
    pub proof fn lemma_rows_covered_once(&self, row: int)
        requires
            self.valid(),
            0 <= row < self.height,
        ensures
            0 <= row / (self.band_rows as int) < self.spec_band_count(),
            forall|band: int|
                0 <= band < self.spec_band_count() ==> (#[trigger] self.spec_band_holds(band, row)
                    <==> band == row / (self.band_rows as int)),
    {
        let h = self.height as int;
        let b = self.band_rows as int;
        let home = row / b;
        lemma_count_is_last_plus_one(h, b);
        vstd::arithmetic::div_mod::lemma_fundamental_div_mod(row, b);
        vstd::arithmetic::div_mod::lemma_div_is_ordered(row, h - 1, b);
        vstd::arithmetic::div_mod::lemma_div_pos_is_pos(row, b);
        assert(b * home == home * b) by (nonlinear_arith);
        assert forall|band: int| 0 <= band < self.spec_band_count() implies (
        #[trigger] self.spec_band_holds(band, row) <==> band == home) by {
            self.lemma_band_in_image(band);
            if band < home {
                assert((band + 1) * b <= home * b) by (nonlinear_arith)
                    requires
                        band + 1 <= home,
                        b > 0,
                ;
                assert((band + 1) * b == band * b + b) by (nonlinear_arith);
            } else if band > home {
                assert((home + 1) * b <= band * b) by (nonlinear_arith)
                    requires
                        home + 1 <= band,
                        b > 0,
                ;
                assert((home + 1) * b == home * b + b) by (nonlinear_arith);
            }
        }
    }

    /// Cutting the pixel buffer every `spec_band_len` pixels cuts it into the
    /// bands: the piece with number `band` starts with the band's first row
    /// and holds the band's rows, and the last band ends the buffer.
    pub proof fn lemma_band_is_piece(&self, band: int)
        requires
            self.valid(),
            0 <= band < self.spec_band_count(),
        ensures
            band * self.spec_band_len() == self.spec_start_row(band) * self.width,
            self.spec_rows_in(band) * self.width <= self.spec_band_len(),
            band + 1 < self.spec_band_count() ==> self.spec_rows_in(band) * self.width
                == self.spec_band_len() && (band + 1) * self.spec_band_len() < self.height
                * self.width,
            band + 1 == self.spec_band_count() ==> band * self.spec_band_len() + self.spec_rows_in(
                band,
            ) * self.width == self.height * self.width,
    {
        let h = self.height as int;
        let b = self.band_rows as int;
        let w = self.width as int;
        let start = self.spec_start_row(band);
        let rows = self.spec_rows_in(band);
        let len = self.spec_band_len();
        self.lemma_band_in_image(band);
        if b <= h {
            assert(len == w * b);
            assert(band * len == start * w && len == b * w) by (nonlinear_arith)
                requires
                    len == w * b,
                    start == band * b,
            ;
            assert(rows * w <= b * w) by (nonlinear_arith)
                requires
                    rows <= b,
                    w > 0,
            ;
            if band + 1 < self.spec_band_count() {
                self.lemma_band_in_image(band + 1);
                let next = self.spec_start_row(band + 1);
                assert((band + 1) * len == next * w && next * w < h * w) by (nonlinear_arith)
                    requires
                        len == w * b,
                        next == (band + 1) * b,
                        next < h,
                        w > 0,
                ;
            } else {
                assert(start * w + rows * w == h * w) by (nonlinear_arith)
                    requires
                        start + rows == h,
                ;
            }
        } else {
            lemma_count_is_last_plus_one(h, b);
            vstd::arithmetic::div_mod::lemma_basic_div(h - 1, b);
            assert(band == 0);
            assert(start == 0) by (nonlinear_arith)
                requires
                    band == 0,
                    start == band * b,
            ;
            assert(rows == h);
            assert(len == w * h);
            assert(band * len == 0 && start * w == 0 && rows * w == len && len == h * w)
                by (nonlinear_arith)
                requires
                    band == 0,
                    start == 0,
                    rows == h,
                    len == w * h,
            ;
        }
    }
}

/// Rounding the quotient up is the same as stepping past the band that holds
/// the last row.
proof fn lemma_count_is_last_plus_one(height: int, band_rows: int)
    requires
        height > 0,
        band_rows > 0,
    ensures
        (height + band_rows - 1) / band_rows == (height - 1) / band_rows + 1,
        (height - 1) / band_rows >= 0,
{
    vstd::arithmetic::div_mod::lemma_div_plus_one(height - 1, band_rows);
    vstd::arithmetic::div_mod::lemma_div_pos_is_pos(height - 1, band_rows);
}

} // verus!
