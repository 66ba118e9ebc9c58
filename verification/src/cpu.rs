//! Rendering on the host: a band of rows, and a whole image band by band.

use crate::band::BandPlan;
use crate::escape::EscapeResult;
use crate::pixel::{pack_escape, spec_pack_escape};
use crate::resolution::Resolution;
use vstd::prelude::*;

verus! {

/// The place of the pixel in column `col` and row `row` of a row-major block
/// of rows `width` pixels wide.
pub open spec fn spec_pixel_index(width: u32, col: int, row: int) -> int {
    row * width + col
}

/// The number of whole rows of `width` pixels in a block of `len` pixels.
pub open spec fn spec_rows_of(len: nat, width: u32) -> int {
    len as int / width as int
}

/// `pixel` is the packed colour of a result that `shade` may return for the
/// pixel in column `col` and row `row` of the image.
pub open spec fn is_shade_of<F: Fn(u32, u32) -> EscapeResult>(
    shade: F,
    col: u32,
    row: u32,
    pixel: u32,
) -> bool {
    exists|result: EscapeResult| #[trigger]
        call_ensures(shade, (col, row), result) && pixel == spec_pack_escape(result)
}

/// `pixels` holds `rows` rows of the image, from row `first_row` on, each
/// pixel shaded by `shade` at its own column and row of the image.
pub open spec fn is_rendering<F: Fn(u32, u32) -> EscapeResult>(
    pixels: Seq<u32>,
    width: u32,
    first_row: int,
    rows: int,
    shade: F,
) -> bool {
    &&& pixels.len() == rows * width
    &&& forall|col: int, row: int|
        0 <= col < width && 0 <= row < rows ==> is_shade_of(
            shade,
            col as u32,
            (first_row + row) as u32,
            #[trigger] pixels[spec_pixel_index(width, col, row)],
        )
}

/// Renders one band: `band` holds whole rows of the image, the first of them
/// row `start_row`, and each pixel is written at its place within the band.
pub fn render_band<F: Fn(u32, u32) -> EscapeResult>(
    band: &mut [u32],
    start_row: u32,
    width: u32,
    shade: &F,
)
    requires
        width > 0,
        old(band)@.len() % (width as nat) == 0,
        start_row + spec_rows_of(old(band)@.len(), width) <= u32::MAX,
        forall|col: u32, row: u32|
            col < width && start_row <= row < start_row + spec_rows_of(old(band)@.len(), width)
                ==> call_requires(*shade, (col, row)),
    ensures
        is_rendering(
            final(band)@,
            width,
            start_row as int,
            spec_rows_of(old(band)@.len(), width),
            *shade,
        ),
{
    let len: usize = band.len();
    let rows: usize = len / (width as usize);
    proof {
        lemma_rows_times_width(len as int, width as int);
    }
    let mut row: usize = 0;
    while row < rows
        invariant
            width > 0,
            row <= rows,
            len == rows * width,
            band@.len() == len,
            start_row + rows <= u32::MAX,
            forall|col: u32, row: u32|
                col < width && start_row <= row < start_row + rows ==> call_requires(
                    *shade,
                    (col, row),
                ),
            forall|c: int, r: int|
                0 <= c < width && 0 <= r < row ==> is_shade_of(
                    *shade,
                    c as u32,
                    (start_row + r) as u32,
                    #[trigger] band@[spec_pixel_index(width, c, r)],
                ),
        decreases rows - row,
    {
        let mut col: u32 = 0;
        while col < width
            invariant
                width > 0,
                col <= width,
                row < rows,
                len == rows * width,
                band@.len() == len,
                start_row + rows <= u32::MAX,
                forall|col: u32, row: u32|
                    col < width && start_row <= row < start_row + rows ==> call_requires(
                        *shade,
                        (col, row),
                    ),
                forall|c: int, r: int|
                    0 <= c < width && 0 <= r < row ==> is_shade_of(
                        *shade,
                        c as u32,
                        (start_row + r) as u32,
                        #[trigger] band@[spec_pixel_index(width, c, r)],
                    ),
                forall|c: int|
                    0 <= c < col ==> is_shade_of(
                        *shade,
                        c as u32,
                        (start_row + row) as u32,
                        #[trigger] band@[spec_pixel_index(width, c, row as int)],
                    ),
            decreases width - col,
        {
            proof {
                lemma_index_in_block(width, col as int, row as int, rows as int);
            }
            let at: usize = row * (width as usize) + col as usize;
            let result = shade(col, start_row + row as u32);
            let ghost before = band@;
            band[at] = pack_escape(result);
            proof {
                assert forall|c: int, r: int| 0 <= c < width && 0 <= r < row implies is_shade_of(
                    *shade,
                    c as u32,
                    (start_row + r) as u32,
                    #[trigger] band@[spec_pixel_index(width, c, r)],
                ) by {
                    lemma_index_in_block(width, c, r, rows as int);
                    lemma_index_injective(width, c, r, col as int, row as int);
                    assert(band@[spec_pixel_index(width, c, r)] == before[spec_pixel_index(
                        width,
                        c,
                        r,
                    )]);
                }
                assert forall|c: int| 0 <= c < col + 1 implies is_shade_of(
                    *shade,
                    c as u32,
                    (start_row + row) as u32,
                    #[trigger] band@[spec_pixel_index(width, c, row as int)],
                ) by {
                    lemma_index_in_block(width, c, row as int, rows as int);
                    if c < col {
                        lemma_index_injective(width, c, row as int, col as int, row as int);
                        assert(band@[spec_pixel_index(width, c, row as int)] == before[spec_pixel_index(
                            width,
                            c,
                            row as int,
                        )]);
                    }
                }
            }
            col += 1;
        }
        row += 1;
    }
}

/// Renders the whole image band by band, in the order of the bands, as one
/// worker would that was given every band of a plan for `workers` workers.
pub fn render<F: Fn(u32, u32) -> EscapeResult>(
    pixels: &mut [u32],
    resolution: &Resolution,
    workers: usize,
    shade: &F,
)
    requires
        resolution.valid(),
        workers > 0,
        old(pixels)@.len() == resolution.spec_pixel_count(),
        forall|col: u32, row: u32|
            col < resolution.width && row < resolution.height ==> call_requires(
                *shade,
                (col, row),
            ),
    ensures
        is_rendering(final(pixels)@, resolution.width, 0, resolution.height as int, *shade),
{
    let plan = BandPlan::new(resolution, workers);
    let width: u32 = plan.width;
    assert(pixels@.len() == pixels.len() <= usize::MAX);
    let band_len: usize = plan.band_len();
    let count: u32 = plan.band_count();
    let ghost total: Seq<u32> = final(pixels)@;
    let mut rest: &mut [u32] = pixels;
    let ghost mut done: Seq<u32> = Seq::empty();
    let mut band: u32 = 0;
    proof {
        plan.lemma_band_in_image(0);
        assert(plan.spec_start_row(0) == 0 && (plan.height - 0) * width == plan.height as int
            * width as int && plan.width as int * plan.height as int == plan.height as int
            * width as int) by (nonlinear_arith)
            requires
                plan.spec_start_row(0) == 0 * plan.band_rows,
                width == plan.width,
        ;
        assert(total =~= done + final(rest)@);
    }
    while band + 1 < count
        invariant
            plan.valid(),
            width == plan.width,
            band_len == plan.spec_band_len(),
            count == plan.spec_band_count(),
            band < count,
            total == done + final(rest)@,
            rest@.len() == (plan.height - plan.spec_start_row(band as int)) * width,
            is_rendering(done, width, 0, plan.spec_start_row(band as int), *shade),
            forall|col: u32, row: u32|
                col < plan.width && row < plan.height ==> call_requires(*shade, (col, row)),
        decreases count - band,
    {
        let ghost start = plan.spec_start_row(band as int);
        let ghost before = done;
        let ghost whole = final(rest)@;
        proof {
            plan.lemma_band_in_image(band as int);
            plan.lemma_band_is_piece(band as int);
            assert((plan.height - start) * width == plan.height * width - start * width
                && (plan.height - start - plan.band_rows) * width == plan.height * width - start
                * width - plan.band_rows * width) by (nonlinear_arith);
            lemma_whole_rows(plan.band_rows as int, width as int);
        }
        let (head, tail) = rest.split_at_mut(band_len);
        render_band(head, plan.start_row(band), width, shade);
        proof {
            lemma_rendering_append(
                done,
                head@,
                width,
                0,
                start,
                plan.band_rows as int,
                *shade,
            );
            done = done + head@;
            assert(total =~= done + final(tail)@);
        }
        rest = tail;
        band += 1;
    }
    proof {
        let start = plan.spec_start_row(band as int);
        plan.lemma_band_in_image(band as int);
        lemma_whole_rows(plan.height - start, width as int);
    }
    render_band(rest, plan.start_row(band), width, shade);
    proof {
        let start = plan.spec_start_row(band as int);
        lemma_rendering_append(done, rest@, width, 0, start, plan.height - start, *shade);
    }
}

/// Rows laid end to end: a rendering of the rows from `first_row` on, followed
/// by a rendering of the rows that come next, is a rendering of them all.
pub proof fn lemma_rendering_append<F: Fn(u32, u32) -> EscapeResult>(
    upper: Seq<u32>,
    lower: Seq<u32>,
    width: u32,
    first_row: int,
    upper_rows: int,
    lower_rows: int,
    shade: F,
)
    requires
        width > 0,
        0 <= upper_rows,
        0 <= lower_rows,
        is_rendering(upper, width, first_row, upper_rows, shade),
        is_rendering(lower, width, first_row + upper_rows, lower_rows, shade),
    ensures
        is_rendering(upper + lower, width, first_row, upper_rows + lower_rows, shade),
{
    let all = upper + lower;
    assert((upper_rows + lower_rows) * width == upper_rows * width + lower_rows * width)
        by (nonlinear_arith);
    assert forall|col: int, row: int|
        0 <= col < width && 0 <= row < upper_rows + lower_rows implies is_shade_of(
        shade,
        col as u32,
        (first_row + row) as u32,
        #[trigger] all[spec_pixel_index(width, col, row)],
    ) by {
        if row < upper_rows {
            lemma_index_in_block(width, col, row, upper_rows);
            assert(all[spec_pixel_index(width, col, row)] == upper[spec_pixel_index(
                width,
                col,
                row,
            )]);
        } else {
            let below = row - upper_rows;
            lemma_index_in_block(width, col, below, lower_rows);
            assert(spec_pixel_index(width, col, row) == upper_rows * width + spec_pixel_index(
                width,
                col,
                below,
            )) by (nonlinear_arith)
                requires
                    below == row - upper_rows,
            ;
            assert(all[spec_pixel_index(width, col, row)] == lower[spec_pixel_index(
                width,
                col,
                below,
            )]);
        }
    }
}

/// `shade` is a function of the pixel: it has one result for each.
pub open spec fn is_function<F: Fn(u32, u32) -> EscapeResult>(shade: F) -> bool {
    forall|col: u32, row: u32, a: EscapeResult, b: EscapeResult|
        #![trigger call_ensures(shade, (col, row), a), call_ensures(shade, (col, row), b)]
        call_ensures(shade, (col, row), a) && call_ensures(shade, (col, row), b) ==> a == b
}

/// The piece of the pixel buffer that band `band` of `plan` is rendered into.
pub open spec fn spec_piece(pixels: Seq<u32>, plan: BandPlan, band: int) -> Seq<u32> {
    pixels.subrange(
        band * plan.spec_band_len(),
        band * plan.spec_band_len() + plan.spec_rows_in(band) * plan.width,
    )
}

/// `pixels` is what the workers of `plan` leave behind: each piece of the
/// buffer holds a rendering of its band.
pub open spec fn is_banded_rendering<F: Fn(u32, u32) -> EscapeResult>(
    pixels: Seq<u32>,
    plan: BandPlan,
    shade: F,
) -> bool {
    &&& pixels.len() == plan.height * plan.width
    &&& forall|band: int|
        0 <= band < plan.spec_band_count() ==> is_rendering(
            #[trigger] spec_piece(pixels, plan, band),
            plan.width,
            plan.spec_start_row(band),
            plan.spec_rows_in(band),
            shade,
        )
}

/// Bands rendered each in its own piece make up a rendering of the whole
/// image: every pixel of the image is written, at its place, by the one band
/// that holds its row.
pub proof fn lemma_bands_make_image<F: Fn(u32, u32) -> EscapeResult>(
    pixels: Seq<u32>,
    plan: BandPlan,
    shade: F,
)
    requires
        plan.valid(),
        is_banded_rendering(pixels, plan, shade),
    ensures
        is_rendering(pixels, plan.width, 0, plan.height as int, shade),
{
    let width = plan.width;
    assert forall|col: int, row: int| 0 <= col < width && 0 <= row < plan.height implies is_shade_of(
        shade,
        col as u32,
        (0 + row) as u32,
        #[trigger] pixels[spec_pixel_index(width, col, row)],
    ) by {
        let band = row / (plan.band_rows as int);
        plan.lemma_rows_covered_once(row);
        assert(plan.spec_band_holds(band, row));
        plan.lemma_band_in_image(band);
        plan.lemma_band_is_piece(band);
        let start = plan.spec_start_row(band);
        let rows = plan.spec_rows_in(band);
        let piece = spec_piece(pixels, plan, band);
        let offset = band * plan.spec_band_len();
        lemma_index_in_block(width, col, row - start, rows);
        assert(offset + spec_pixel_index(width, col, row - start) == spec_pixel_index(
            width,
            col,
            row,
        )) by (nonlinear_arith)
            requires
                offset == start * width,
        ;
        assert(offset + rows * width <= plan.height * width) by (nonlinear_arith)
            requires
                offset == start * width,
                start + rows <= plan.height,
                width > 0,
        ;
        assert(0 <= offset) by (nonlinear_arith)
            requires
                offset == start * width,
                start >= 0,
        ;
        assert(is_shade_of(
            shade,
            col as u32,
            (start + (row - start)) as u32,
            piece[spec_pixel_index(width, col, row - start)],
        ));
        assert(piece[spec_pixel_index(width, col, row - start)] == pixels[spec_pixel_index(
            width,
            col,
            row,
        )]);
    }
}

/// A rendering of the whole image is what the workers of any plan for that
/// image leave behind: cut into the pieces of the plan, each piece is a
/// rendering of its band.
pub proof fn lemma_image_is_banded<F: Fn(u32, u32) -> EscapeResult>(
    pixels: Seq<u32>,
    plan: BandPlan,
    shade: F,
)
    requires
        plan.valid(),
        is_rendering(pixels, plan.width, 0, plan.height as int, shade),
    ensures
        is_banded_rendering(pixels, plan, shade),
{
    let width = plan.width;
    assert forall|band: int| 0 <= band < plan.spec_band_count() implies is_rendering(
        #[trigger] spec_piece(pixels, plan, band),
        width,
        plan.spec_start_row(band),
        plan.spec_rows_in(band),
        shade,
    ) by {
        plan.lemma_band_in_image(band);
        plan.lemma_band_is_piece(band);
        let start = plan.spec_start_row(band);
        let rows = plan.spec_rows_in(band);
        let piece = spec_piece(pixels, plan, band);
        let offset = band * plan.spec_band_len();
        assert(0 <= offset && offset + rows * width <= plan.height * width) by (nonlinear_arith)
            requires
                offset == start * width,
                0 <= start,
                start + rows <= plan.height,
                width > 0,
        ;
        assert forall|col: int, row: int| 0 <= col < width && 0 <= row < rows implies is_shade_of(
            shade,
            col as u32,
            (start + row) as u32,
            #[trigger] piece[spec_pixel_index(width, col, row)],
        ) by {
            lemma_index_in_block(width, col, row, rows);
            assert(offset + spec_pixel_index(width, col, row) == spec_pixel_index(
                width,
                col,
                start + row,
            )) by (nonlinear_arith)
                requires
                    offset == start * width,
            ;
            assert(is_shade_of(
                shade,
                col as u32,
                (0 + (start + row)) as u32,
                pixels[spec_pixel_index(width, col, start + row)],
            ));
            assert(piece[spec_pixel_index(width, col, row)] == pixels[spec_pixel_index(
                width,
                col,
                start + row,
            )]);
        }
    }
}

/// A function has one rendering: two renderings of the same rows by the same
/// function are equal, pixel for pixel.
pub proof fn lemma_rendering_unique<F: Fn(u32, u32) -> EscapeResult>(
    a: Seq<u32>,
    b: Seq<u32>,
    width: u32,
    first_row: int,
    rows: int,
    shade: F,
)
    requires
        width > 0,
        rows >= 0,
        is_function(shade),
        is_rendering(a, width, first_row, rows, shade),
        is_rendering(b, width, first_row, rows, shade),
    ensures
        a == b,
{
    assert forall|at: int| 0 <= at < a.len() implies a[at] == b[at] by {
        let row = at / (width as int);
        let col = at % (width as int);
        vstd::arithmetic::div_mod::lemma_fundamental_div_mod(at, width as int);
        vstd::arithmetic::div_mod::lemma_mod_bound(at, width as int);
        vstd::arithmetic::div_mod::lemma_div_pos_is_pos(at, width as int);
        assert(spec_pixel_index(width, col, row) == at && row < rows) by (nonlinear_arith)
            requires
                at == width * row + col,
                0 <= col < width,
                at < rows * width,
                row >= 0,
        ;
        let ra = choose|result: EscapeResult| #[trigger]
            call_ensures(shade, (col as u32, (first_row + row) as u32), result) && a[at]
                == spec_pack_escape(result);
        let rb = choose|result: EscapeResult| #[trigger]
            call_ensures(shade, (col as u32, (first_row + row) as u32), result) && b[at]
                == spec_pack_escape(result);
        assert(is_shade_of(
            shade,
            col as u32,
            (first_row + row) as u32,
            a[spec_pixel_index(width, col, row)],
        ));
        assert(is_shade_of(
            shade,
            col as u32,
            (first_row + row) as u32,
            b[spec_pixel_index(width, col, row)],
        ));
        assert(ra == rb);
    }
    assert(a =~= b);
}

/// The image does not depend on the number of workers: whatever the two
/// numbers that the bands were planned for, the workers of both plans leave
/// the same buffer behind, given a shading that is a function.
pub proof fn lemma_workers_do_not_matter<F: Fn(u32, u32) -> EscapeResult>(
    resolution: Resolution,
    workers_a: nat,
    workers_b: nat,
    a: Seq<u32>,
    b: Seq<u32>,
    shade: F,
)
    requires
        resolution.valid(),
        workers_a > 0,
        workers_b > 0,
        is_function(shade),
        is_banded_rendering(a, BandPlan::spec_new(resolution, workers_a), shade),
        is_banded_rendering(b, BandPlan::spec_new(resolution, workers_b), shade),
    ensures
        a == b,
{
    lemma_bands_make_image(a, BandPlan::spec_new(resolution, workers_a), shade);
    lemma_bands_make_image(b, BandPlan::spec_new(resolution, workers_b), shade);
    lemma_rendering_unique(a, b, resolution.width, 0, resolution.height as int, shade);
}

/// A block of `rows` whole rows has a length that the width divides `rows`
/// times.
pub proof fn lemma_whole_rows(rows: int, width: int)
    requires
        rows >= 0,
        width > 0,
    ensures
        (rows * width) % width == 0,
        (rows * width) / width == rows,
        rows * width >= 0,
{
    vstd::arithmetic::div_mod::lemma_fundamental_div_mod_converse(rows * width, width, rows, 0);
    assert(rows * width == width * rows && rows * width >= 0) by (nonlinear_arith)
        requires
            rows >= 0,
            width > 0,
    ;
}

/// A pixel of a block of `rows` rows lies inside the block.
pub proof fn lemma_index_in_block(width: u32, col: int, row: int, rows: int)
    requires
        0 <= col < width,
        0 <= row < rows,
    ensures
        0 <= spec_pixel_index(width, col, row) < rows * width,
        row * width <= spec_pixel_index(width, col, row) < (row + 1) * width,
{
    assert(0 <= row * width && (row + 1) * width <= rows * width && (row + 1) * width == row
        * width + width) by (nonlinear_arith)
        requires
            0 <= row < rows,
            width > 0,
    ;
}

/// Two pixels of a block share a place only if they share column and row.
pub proof fn lemma_index_injective(width: u32, col1: int, row1: int, col2: int, row2: int)
    requires
        0 <= col1 < width,
        0 <= col2 < width,
        0 <= row1,
        0 <= row2,
    ensures
        spec_pixel_index(width, col1, row1) == spec_pixel_index(width, col2, row2) ==> col1 == col2
            && row1 == row2,
{
    assert(row1 * width + col1 == row2 * width + col2 ==> row1 == row2) by (nonlinear_arith)
        requires
            0 <= col1 < width,
            0 <= col2 < width,
            0 <= row1,
            0 <= row2,
    ;
}

/// A length that is a multiple of the width is its number of rows times the
/// width.
proof fn lemma_rows_times_width(len: int, width: int)
    requires
        width > 0,
        len >= 0,
        len % width == 0,
    ensures
        len == (len / width) * width,
{
    vstd::arithmetic::div_mod::lemma_fundamental_div_mod(len, width);
    assert(width * (len / width) == (len / width) * width) by (nonlinear_arith);
}

} // verus!
