//! The monochrome quantizer: brightness against a threshold becomes the dots
//! of Braille patterns.

use crate::bitmap::{
    binarized, grayscaled, lemma_binarized_two_valued, lemma_grayscaled_empty,
    lemma_offset_in_range, scaled, target_grid, Bitmap, Raster,
};
use crate::geometry::{bands_down, cells_across, row_width, RenderError};
use crate::utf8::from_utf32;
use vstd::prelude::*;
use vstd::string::*;

verus! {

/// Scalar value of the Braille pattern without dots, the first of the 256
/// patterns.
pub const FIRST_GLYPH: u32 = 10240;

/// Weight in a cell's mask of the dot in the left column of pixel row `sub`
/// of a band.
pub open spec fn left_weight(sub: int) -> int {
    if sub == 0 {
        1
    } else if sub == 1 {
        2
    } else if sub == 2 {
        4
    } else {
        64
    }
}

/// Weight in a cell's mask of the dot in the right column of pixel row `sub`
/// of a band.
pub open spec fn right_weight(sub: int) -> int {
    if sub == 0 {
        8
    } else if sub == 1 {
        16
    } else if sub == 2 {
        32
    } else {
        128
    }
}

/// What pixel row `y` of a two-valued grid adds to the mask of cell `cell` of
/// its band: the weights of the cell's two pixels in that row that are on. A
/// cell whose right column lies past the grid's last column gets nothing, nor
/// does any cell from a row below the grid.
pub open spec fn row_bits(grid: Raster, cell: int, y: int) -> int {
    if 2 * cell + 1 < grid.width && 0 <= y < grid.height {
        grid.sample(2 * cell, y, 0) * left_weight(y % 4) + grid.sample(2 * cell + 1, y, 0)
            * right_weight(y % 4)
    } else {
        0
    }
}

/// The mask of cell `cell` of band `band` as far as the first `rows` pixel
/// rows of the band make it up.
pub open spec fn partial_mask(grid: Raster, cell: int, band: int, rows: int) -> int {
    (if rows > 0 {
        row_bits(grid, cell, 4 * band)
    } else {
        0
    }) + (if rows > 1 {
        row_bits(grid, cell, 4 * band + 1)
    } else {
        0
    }) + (if rows > 2 {
        row_bits(grid, cell, 4 * band + 2)
    } else {
        0
    }) + (if rows > 3 {
        row_bits(grid, cell, 4 * band + 3)
    } else {
        0
    })
}

/// The dot mask of cell `cell` of band `band`: one bit for each of the eight
/// pixels of the cell that is on.
pub open spec fn cell_mask(grid: Raster, cell: int, band: int) -> int {
    partial_mask(grid, cell, band, 4)
}

/// The Braille pattern whose dots are those of `mask`.
pub open spec fn glyph(mask: int) -> char {
    (FIRST_GLYPH + mask) as char
}

/// The glyphs of band `band`, one for each cell from left to right.
pub open spec fn band_line(grid: Raster, band: int) -> Seq<char> {
    Seq::new(cells_across(grid.width), |cell: int| glyph(cell_mask(grid, cell, band)))
}

/// The lines of the first `bands` bands, joined by line feeds: nothing for
/// no band, the line alone for one, and a line feed before every further
/// line.
pub open spec fn bands_text(grid: Raster, bands: nat) -> Seq<char>
    decreases bands,
{
    if bands == 0 {
        Seq::empty()
    } else if bands == 1 {
        band_line(grid, 0)
    } else {
        bands_text(grid, (bands - 1) as nat) + seq!['\n'] + band_line(grid, bands - 1)
    }
}

/// The text that a two-valued grid is drawn as: one line of glyphs for every
/// band of four pixel rows, the lines joined by line feeds.
pub open spec fn dots_text(grid: Raster) -> Seq<char> {
    bands_text(grid, bands_down(grid.height))
}

/// The text that a grid already scaled is drawn as, once it is turned to
/// grayscale and its brightness held against the threshold.
pub open spec fn drawn(grid: Raster, invert: u8, threshold: u8) -> Seq<char> {
    dots_text(binarized(grayscaled(grid), threshold, invert))
}

/// As long as every pixel is 0 or 1, the weights of a cell add up to a byte.
pub proof fn lemma_partial_mask_bound(grid: Raster, cell: int, band: int, rows: int)
    requires
        grid.wf(),
        grid.two_valued(),
        0 <= cell,
        0 <= band,
    ensures
        0 <= partial_mask(grid, cell, band, rows) <= 255,
        rows <= 3 ==> partial_mask(grid, cell, band, rows) <= 63,
        rows <= 2 ==> partial_mask(grid, cell, band, rows) <= 27,
        rows <= 1 ==> partial_mask(grid, cell, band, rows) <= 9,
        rows <= 0 ==> partial_mask(grid, cell, band, rows) == 0,
{
    lemma_row_bits_bound(grid, cell, 4 * band);
    lemma_row_bits_bound(grid, cell, 4 * band + 1);
    lemma_row_bits_bound(grid, cell, 4 * band + 2);
    lemma_row_bits_bound(grid, cell, 4 * band + 3);
}

/// A pixel row adds at most its two weights to a mask.
proof fn lemma_row_bits_bound(grid: Raster, cell: int, y: int)
    requires
        grid.wf(),
        grid.two_valued(),
        0 <= cell,
    ensures
        0 <= row_bits(grid, cell, y) <= left_weight(y % 4) + right_weight(y % 4),
{
    if 2 * cell + 1 < grid.width && 0 <= y < grid.height {
        lemma_offset_in_range(grid, 2 * cell, y, 0);
        lemma_offset_in_range(grid, 2 * cell + 1, y, 0);
        let left = grid.samples[grid.offset(2 * cell, y, 0)];
        let right = grid.samples[grid.offset(2 * cell + 1, y, 0)];
        assert(left <= 1 && right <= 1);
    }
}

/// Clears the first `row_width` cells of a row.
pub fn initial_row(row: &mut Vec<u8>, row_width: u32)
    requires
        row_width <= old(row)@.len(),
    ensures
        final(row)@.len() == old(row)@.len(),
        forall|i: int| 0 <= i < row_width ==> final(row)@[i] == 0,
        forall|i: int| row_width <= i < old(row)@.len() ==> final(row)@[i] == old(row)@[i],
{
    let mut i: u32 = 0;
    while i < row_width
        invariant
            i <= row_width <= row@.len(),
            row@.len() == old(row)@.len(),
            forall|j: int| 0 <= j < i ==> row@[j] == 0,
            forall|j: int| row_width <= j < row@.len() ==> row@[j] == old(row)@[j],
        decreases row_width - i,
    {
        row.set(i as usize, 0);
        i += 1;
    }
}

/// A row of `cells` masks without dots.
fn empty_row(cells: u32) -> (row: Vec<u8>)
    ensures
        row@.len() == cells,
        forall|i: int| 0 <= i < cells ==> row@[i] == 0,
{
    let mut row: Vec<u8> = Vec::new();
    let mut n: u32 = 0;
    while n < cells
        invariant
            n <= cells,
            row@.len() == n,
            forall|i: int| 0 <= i < n ==> row@[i] == 0,
        decreases cells - n,
    {
        row.push(0);
        n += 1;
    }
    row
}

/// Adds the dots of pixel row `y` to the masks of its band.
fn add_row(row: &mut Vec<u8>, grid: &Bitmap, y: u32)
    requires
        grid.wf(),
        grid@.two_valued(),
        y < grid@.height,
        old(row)@.len() == cells_across(grid@.width),
        forall|cell: int|
            0 <= cell < old(row)@.len() ==> old(row)@[cell] == partial_mask(
                grid@,
                cell,
                y as int / 4,
                y as int % 4,
            ),
    ensures
        final(row)@.len() == old(row)@.len(),
        forall|cell: int|
            0 <= cell < final(row)@.len() ==> final(row)@[cell] == partial_mask(
                grid@,
                cell,
                y as int / 4,
                y as int % 4 + 1,
            ),
{
    let width = grid.width();
    let cells = row_width(width);
    let sub = y % 4;
    let (x0, x1): (u8, u8) = if sub == 0 {
        (1, 8)
    } else if sub == 1 {
        (2, 16)
    } else if sub == 2 {
        (4, 32)
    } else {
        (64, 128)
    };
    let mut cell: u32 = 0;
    while cell < cells
        invariant
            grid.wf(),
            grid@.two_valued(),
            y < grid@.height,
            width == grid@.width,
            sub == y % 4,
            x0 == left_weight(sub as int),
            x1 == right_weight(sub as int),
            cell <= cells,
            cells == cells_across(grid@.width),
            row@.len() == cells,
            forall|c: int|
                0 <= c < cell ==> row@[c] == partial_mask(
                    grid@,
                    c,
                    y as int / 4,
                    y as int % 4 + 1,
                ),
            forall|c: int|
                cell <= c < cells ==> row@[c] == partial_mask(grid@, c, y as int / 4, y as int % 4),
        decreases cells - cell,
    {
        let x: u32 = 2 * cell;
        if x + 1 < width {
            let left = grid.sample(x, y, 0);
            let right = grid.sample(x + 1, y, 0);
            proof {
                lemma_partial_mask_bound(grid@, cell as int, y as int / 4, y as int % 4 + 1);
                lemma_offset_in_range(grid@, x as int, y as int, 0);
                lemma_offset_in_range(grid@, x as int + 1, y as int, 0);
            }
            let bits: u8 = left * x0 + right * x1;
            let mask: u8 = row[cell as usize] + bits;
            row.set(cell as usize, mask);
        }
        cell += 1;
    }
}

/// The glyphs of a row of masks, from left to right.
fn glyph_line(row: &Vec<u8>) -> (line: String)
    ensures
        line@ == Seq::new(row@.len(), |cell: int| glyph(row@[cell] as int)),
{
    let mut line = String::new();
    let mut i: usize = 0;
    while i < row.len()
        invariant
            i <= row@.len(),
            line@ == Seq::new(i as nat, |cell: int| glyph(row@[cell] as int)),
        decreases row@.len() - i,
    {
        let icon = from_utf32(row[i] as u32 + FIRST_GLYPH);
        line.append(icon.as_str());
        i += 1;
        assert(line@ =~= Seq::new(i as nat, |cell: int| glyph(row@[cell] as int)));
    }
    line
}

/// Draws a two-valued grid: every cell of two by four pixels becomes the
/// Braille pattern with a dot for each pixel that is 1, and every band of four
/// pixel rows a line of text. The lines are joined by line feeds; none follows
/// the last. In a grid of odd width the last cell of a line has no second
/// column and stays without dots.
pub fn render_dots(grid: &Bitmap) -> (text: String)
    requires
        grid.wf(),
        grid@.two_valued(),
    ensures
        text@ == dots_text(grid@),
{
    let width = grid.width();
    let height = grid.height();
    let cells = row_width(width);
    let mut row = empty_row(cells);
    let mut text = String::new();
    let mut y: u32 = 0;
    while y < height
        invariant
            grid.wf(),
            grid@.two_valued(),
            width == grid@.width,
            height == grid@.height,
            cells == cells_across(grid@.width),
            row@.len() == cells,
            y <= height,
            text@ == bands_text(
                grid@,
                if y == height {
                    bands_down(height as nat)
                } else {
                    (y / 4) as nat
                },
            ),
            forall|cell: int|
                0 <= cell < cells && y % 4 != 0 ==> row@[cell] == partial_mask(
                    grid@,
                    cell,
                    y as int / 4,
                    y as int % 4,
                ),
        decreases height - y,
    {
        if y % 4 == 0 {
            initial_row(&mut row, cells);
        }
        add_row(&mut row, grid, y);
        if y % 4 == 3 || y == height - 1 {
            let icon_list = glyph_line(&row);
            let ghost band = y as int / 4;
            proof {
                assert(icon_list@ =~= band_line(grid@, band)) by {
                    assert forall|cell: int| 0 <= cell < cells implies row@[cell] == cell_mask(
                        grid@,
                        cell,
                        band,
                    ) by {
                        lemma_rows_below(grid@, cell, band, y as int % 4 + 1);
                    }
                }
            }
            if y >= 4 {
                text.append("\n");
            }
            text.append(icon_list.as_str());
            proof {
                reveal_strlit("\n");
                if band > 0 {
                    assert(text@ =~= bands_text(grid@, band as nat) + seq!['\n'] + band_line(
                        grid@,
                        band,
                    ));
                } else {
                    assert(text@ =~= band_line(grid@, 0));
                }
            }
        }
        y += 1;
    }
    text
}

/// Pixel rows below the grid add nothing to a mask: a band cut short by the
/// grid's last row is complete with the rows it has.
pub proof fn lemma_rows_below(grid: Raster, cell: int, band: int, rows: int)
    requires
        0 <= band,
        0 <= rows <= 4,
        rows == 4 || 4 * band + rows == grid.height,
    ensures
        partial_mask(grid, cell, band, rows) == cell_mask(grid, cell, band),
{
}

/// Eight bits that are each weighted by another power of two add up to the
/// byte that has exactly those bits set.
proof fn lemma_weights_do_not_carry(a0: u8, a1: u8, a2: u8, a3: u8, b0: u8, b1: u8, b2: u8, b3: u8)
    by (bit_vector)
    requires
        a0 <= 1,
        a1 <= 1,
        a2 <= 1,
        a3 <= 1,
        b0 <= 1,
        b1 <= 1,
        b2 <= 1,
        b3 <= 1,
    ensures
        ({
            let mask = (a0 * 1 + b0 * 8 + a1 * 2 + b1 * 16 + a2 * 4 + b2 * 32 + a3 * 64 + b3
                * 128) as u8;
            &&& (mask & 1 != 0) == (a0 == 1)
            &&& (mask & 2 != 0) == (a1 == 1)
            &&& (mask & 4 != 0) == (a2 == 1)
            &&& (mask & 64 != 0) == (a3 == 1)
            &&& (mask & 8 != 0) == (b0 == 1)
            &&& (mask & 16 != 0) == (b1 == 1)
            &&& (mask & 32 != 0) == (b2 == 1)
            &&& (mask & 128 != 0) == (b3 == 1)
        }),
{
}

/// The pixel of a two-valued grid in column `x` and pixel row `y`, and 0
/// outside the grid.
pub open spec fn dot(grid: Raster, x: int, y: int) -> u8 {
    if grid.contains(x, y) {
        grid.sample(x, y, 0)
    } else {
        0
    }
}

/// The weights of a cell add up to what setting a bit for every pixel gives:
/// in the mask of a cell that has both its columns, the bit of a dot is set
/// exactly if its pixel is on.
pub proof fn lemma_mask_bit(grid: Raster, cell: int, band: int, sub: int)
    requires
        grid.wf(),
        grid.two_valued(),
        0 <= cell,
        2 * cell + 1 < grid.width,
        0 <= band,
        0 <= sub < 4,
    ensures
        0 <= cell_mask(grid, cell, band) <= 255,
        ((cell_mask(grid, cell, band) as u8) & (left_weight(sub) as u8) != 0) == (dot(
            grid,
            2 * cell,
            4 * band + sub,
        ) == 1),
        ((cell_mask(grid, cell, band) as u8) & (right_weight(sub) as u8) != 0) == (dot(
            grid,
            2 * cell + 1,
            4 * band + sub,
        ) == 1),
{
    lemma_partial_mask_bound(grid, cell, band, 4);
    lemma_dot_is_bit(grid, 2 * cell, 4 * band);
    lemma_dot_is_bit(grid, 2 * cell, 4 * band + 1);
    lemma_dot_is_bit(grid, 2 * cell, 4 * band + 2);
    lemma_dot_is_bit(grid, 2 * cell, 4 * band + 3);
    lemma_dot_is_bit(grid, 2 * cell + 1, 4 * band);
    lemma_dot_is_bit(grid, 2 * cell + 1, 4 * band + 1);
    lemma_dot_is_bit(grid, 2 * cell + 1, 4 * band + 2);
    lemma_dot_is_bit(grid, 2 * cell + 1, 4 * band + 3);
    let a0 = dot(grid, 2 * cell, 4 * band);
    let a1 = dot(grid, 2 * cell, 4 * band + 1);
    let a2 = dot(grid, 2 * cell, 4 * band + 2);
    let a3 = dot(grid, 2 * cell, 4 * band + 3);
    let b0 = dot(grid, 2 * cell + 1, 4 * band);
    let b1 = dot(grid, 2 * cell + 1, 4 * band + 1);
    let b2 = dot(grid, 2 * cell + 1, 4 * band + 2);
    let b3 = dot(grid, 2 * cell + 1, 4 * band + 3);
    lemma_weights_do_not_carry(a0, a1, a2, a3, b0, b1, b2, b3);
    assert(cell_mask(grid, cell, band) == a0 * 1 + b0 * 8 + a1 * 2 + b1 * 16 + a2 * 4 + b2 * 32
        + a3 * 64 + b3 * 128);
}

/// A pixel of a two-valued grid is 0 or 1.
proof fn lemma_dot_is_bit(grid: Raster, x: int, y: int)
    requires
        grid.wf(),
        grid.two_valued(),
    ensures
        dot(grid, x, y) <= 1,
{
    if grid.contains(x, y) {
        lemma_offset_in_range(grid, x, y, 0);
    }
}

/// A cell whose eight pixels all have the value `v` has no dots if `v` is 0
/// and all of them if `v` is 1.
pub proof fn lemma_uniform_cell_mask(grid: Raster, cell: int, band: int, v: u8)
    requires
        grid.wf(),
        0 <= cell,
        2 * cell + 1 < grid.width,
        0 <= band,
        4 * band + 4 <= grid.height,
        forall|x: int, y: int|
            2 * cell <= x <= 2 * cell + 1 && 4 * band <= y < 4 * band + 4
                ==> #[trigger] grid.sample(x, y, 0) == v,
    ensures
        cell_mask(grid, cell, band) == 255 * v,
{
    assert(grid.sample(2 * cell, 4 * band, 0) == v);
    assert(grid.sample(2 * cell, 4 * band + 1, 0) == v);
    assert(grid.sample(2 * cell, 4 * band + 2, 0) == v);
    assert(grid.sample(2 * cell, 4 * band + 3, 0) == v);
    assert(grid.sample(2 * cell + 1, 4 * band, 0) == v);
    assert(grid.sample(2 * cell + 1, 4 * band + 1, 0) == v);
    assert(grid.sample(2 * cell + 1, 4 * band + 2, 0) == v);
    assert(grid.sample(2 * cell + 1, 4 * band + 3, 0) == v);
}

/// A cell in which the pixel in column `column` (0 left, 1 right) of pixel
/// row `sub` is 1 and every other pixel is 0 has that pixel's weight as its
/// mask.
pub proof fn lemma_single_dot_mask(grid: Raster, cell: int, band: int, column: int, sub: int)
    requires
        grid.wf(),
        0 <= cell,
        2 * cell + 1 < grid.width,
        0 <= band,
        4 * band + 4 <= grid.height,
        0 <= column <= 1,
        0 <= sub < 4,
        forall|x: int, y: int|
            2 * cell <= x <= 2 * cell + 1 && 4 * band <= y < 4 * band + 4
                ==> #[trigger] grid.sample(x, y, 0) == if x == 2 * cell + column && y == 4 * band
                + sub {
                1u8
            } else {
                0u8
            },
    ensures
        cell_mask(grid, cell, band) == if column == 0 {
            left_weight(sub)
        } else {
            right_weight(sub)
        },
{
    assert(grid.sample(2 * cell, 4 * band, 0) + grid.sample(2 * cell, 4 * band + 1, 0)
        + grid.sample(2 * cell, 4 * band + 2, 0) + grid.sample(2 * cell, 4 * band + 3, 0)
        + grid.sample(2 * cell + 1, 4 * band, 0) + grid.sample(2 * cell + 1, 4 * band + 1, 0)
        + grid.sample(2 * cell + 1, 4 * band + 2, 0) + grid.sample(2 * cell + 1, 4 * band + 3, 0)
        == 1);
}

/// Every glyph of a drawing is one of the 256 Braille patterns.
pub proof fn lemma_drawn_glyph_is_braille(
    grid: Raster,
    invert: u8,
    threshold: u8,
    cell: int,
    band: int,
)
    requires
        grid.wf(),
        invert <= 1,
        0 <= cell,
        0 <= band,
    ensures
        ({
            let bits = binarized(grayscaled(grid), threshold, invert);
            &&& 0 <= cell_mask(bits, cell, band) <= 255
            &&& glyph(cell_mask(bits, cell, band)) as u32 == 0x2800 + cell_mask(bits, cell, band)
        }),
{
    lemma_binarized_two_valued(grid, threshold, invert);
    lemma_partial_mask_bound(binarized(grayscaled(grid), threshold, invert), cell, band, 4);
}

/// The text of `bands` bands is their lines joined by line feeds: with
/// `cells` glyphs in a line, the glyph of cell `cell` of band `band` stands at
/// `band * (cells + 1) + cell`, a line feed stands behind every line but the
/// last, and nothing else is in the text.
pub proof fn lemma_bands_text_layout(grid: Raster, bands: nat, band: int, cell: int)
    requires
        0 <= band < bands,
        0 <= cell <= cells_across(grid.width),
    ensures
        bands_text(grid, bands).len() == bands * (cells_across(grid.width) + 1) - 1,
        cell < cells_across(grid.width) ==> bands_text(grid, bands)[band * (cells_across(
            grid.width,
        ) + 1) + cell] == glyph(cell_mask(grid, cell, band)),
        cell == cells_across(grid.width) && band + 1 < bands ==> bands_text(grid, bands)[band * (
        cells_across(grid.width) + 1) + cell] == '\n',
    decreases bands,
{
    let cells = cells_across(grid.width) as int;
    if bands == 1 {
        assert(bands_text(grid, 1).len() == 1 * (cells + 1) - 1);
    } else {
        let before = (bands - 1) as nat;
        let head = bands_text(grid, before);
        let last = bands - 1;
        lemma_bands_text_layout(grid, before, 0, 0);
        assert(head.len() == last * (cells + 1) - 1);
        assert(bands * (cells + 1) == last * (cells + 1) + (cells + 1)) by (nonlinear_arith)
            requires
                last == bands - 1,
        ;
        assert(bands_text(grid, bands).len() == bands * (cells + 1) - 1);
        if band < last {
            lemma_bands_text_layout(grid, before, band, cell);
            assert((band + 1) * (cells + 1) <= last * (cells + 1)) by (nonlinear_arith)
                requires
                    band + 1 <= last,
                    cells >= 0,
            ;
            assert((band + 1) * (cells + 1) == band * (cells + 1) + cells + 1)
                by (nonlinear_arith);
            if cell == cells && band + 1 == last {
                assert(band * (cells + 1) + cell == head.len());
            }
        } else {
            assert(band * (cells + 1) + cell == head.len() + 1 + cell);
        }
    }
}

/// Draws a grid of the size wanted: turns it to grayscale, sets every pixel
/// to on or off by its brightness, and draws the dots.
///
/// A pixel darker than `threshold` is on if `invert` is 1 and off if it is 0;
/// any other pixel is the opposite.
pub fn draw_scaled(grid: Bitmap, invert: u8, threshold: u8) -> (text: String)
    requires
        grid.wf(),
        invert <= 1,
    ensures
        text@ == drawn(grid@, invert, threshold),
{
    let mut gray = if grid.width() == 0 || grid.height() == 0 {
        proof {
            lemma_grayscaled_empty(grid@);
        }
        grid
    } else {
        grid.grayscale()
    };
    gray.binarize(threshold, invert);
    render_dots(&gray)
}

/// Draws a picture as lines of Braille patterns.
///
/// The picture is scaled to `width` by `height` pixels, where zero for one of
/// them asks for the side that keeps the picture's proportions, and the
/// scaled grid is drawn as [`draw_scaled`] does.
pub fn draw(image: Bitmap, width: u32, height: u32, invert: u8, threshold: u8) -> (text: Result<
    String,
    RenderError,
>)
    requires
        image.wf(),
        invert <= 1,
    ensures
        match target_grid(width, height, image@) {
            Ok((w, h)) => text matches Ok(t) && t@ == drawn(
                scaled(image@, w, h),
                invert,
                threshold,
            ) && scaled(image@, w, h).wf() && w > 0 && h > 0,
            Err(e) => text matches Err(f) && f == e,
        },
{
    match image.scale_to(width, height) {
        Ok(grid) => Ok(draw_scaled(grid, invert, threshold)),
        Err(e) => Err(e),
    }
}

} // verus!
