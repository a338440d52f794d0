//! The colour quantizer: every cell becomes a fully dotted Braille pattern in
//! the average colour of its pixels.

use crate::bitmap::{lemma_offset_in_range, scaled, target_grid, Bitmap, Raster};
use crate::geometry::{bands_down, cells_across, row_width, rows_in_band, RenderError};
use crate::utf8::from_utf32;
use vstd::prelude::*;
use vstd::string::*;

verus! {

/// Scalar value of the Braille pattern with all eight dots.
pub const FULL_GLYPH: u32 = 10495;

/// What pixel row `y` adds to the sum of channel `channel` of cell `cell` of
/// its band: the samples of the cell's two pixels in that row. A cell whose
/// right column lies past the grid's last column gets nothing, nor does any
/// cell from a row below the grid.
pub open spec fn row_sum(grid: Raster, cell: int, y: int, channel: int) -> int {
    if 2 * cell + 1 < grid.width && 0 <= y < grid.height {
        grid.sample(2 * cell, y, channel) + grid.sample(2 * cell + 1, y, channel)
    } else {
        0
    }
}

/// The sum of channel `channel` over cell `cell` of band `band` as far as the
/// first `rows` pixel rows of the band make it up.
pub open spec fn partial_sum(grid: Raster, cell: int, band: int, channel: int, rows: int) -> int {
    (if rows > 0 {
        row_sum(grid, cell, 4 * band, channel)
    } else {
        0
    }) + (if rows > 1 {
        row_sum(grid, cell, 4 * band + 1, channel)
    } else {
        0
    }) + (if rows > 2 {
        row_sum(grid, cell, 4 * band + 2, channel)
    } else {
        0
    }) + (if rows > 3 {
        row_sum(grid, cell, 4 * band + 3, channel)
    } else {
        0
    })
}

/// The sum of channel `channel` over all pixels of cell `cell` of band `band`.
pub open spec fn cell_sum(grid: Raster, cell: int, band: int, channel: int) -> int {
    partial_sum(grid, cell, band, channel, 4)
}

/// The average of channel `channel` over cell `cell` of band `band`, rounded
/// down: the sum over its pixels divided by their number, which is two for
/// every pixel row that the band has.
pub open spec fn cell_average(grid: Raster, cell: int, band: int, channel: int) -> int {
    cell_sum(grid, cell, band, channel) / (2 * rows_in_band(grid.height, band))
}

/// The character for the digit `d`.
pub open spec fn digit(d: int) -> char {
    (48 + d) as char
}

/// The decimal digits of `n`, without leading zeros.
pub open spec fn decimal(n: nat) -> Seq<char>
    decreases n,
{
    if n < 10 {
        seq![digit(n as int)]
    } else {
        decimal(n / 10).push(digit((n % 10) as int))
    }
}

/// The escape sequence that sets a terminal's foreground to a colour given by
/// its red, green and blue value: ESC, `[38;2;`, the three values in decimal
/// separated by semicolons, and `m`.
pub open spec fn escape_text(red: int, green: int, blue: int) -> Seq<char> {
    seq!['\x1B', '[', '3', '8', ';', '2', ';'] + decimal(red as nat) + seq![';'] + decimal(
        green as nat,
    ) + seq![';'] + decimal(blue as nat) + seq!['m']
}

/// The text of one cell: the escape sequence for its average colour and the
/// fully dotted pattern.
pub open spec fn cell_text(grid: Raster, cell: int, band: int) -> Seq<char> {
    escape_text(
        cell_average(grid, cell, band, 0),
        cell_average(grid, cell, band, 1),
        cell_average(grid, cell, band, 2),
    ) + seq![FULL_GLYPH as char]
}

/// The text of the first `cells` cells of band `band`.
pub open spec fn cells_text(grid: Raster, band: int, cells: nat) -> Seq<char>
    decreases cells,
{
    if cells == 0 {
        Seq::empty()
    } else {
        cells_text(grid, band, (cells - 1) as nat) + cell_text(grid, cells - 1, band)
    }
}

/// The lines of the first `bands` bands, joined by line feeds: nothing for
/// no band, the line alone for one, and a line feed before every further
/// line.
pub open spec fn color_bands_text(grid: Raster, bands: nat) -> Seq<char>
    decreases bands,
{
    if bands == 0 {
        Seq::empty()
    } else if bands == 1 {
        cells_text(grid, 0, cells_across(grid.width))
    } else {
        color_bands_text(grid, (bands - 1) as nat) + seq!['\n'] + cells_text(
            grid,
            bands - 1,
            cells_across(grid.width),
        )
    }
}

/// The text that a grid is drawn as in colour: one line of coloured glyphs
/// for every band of four pixel rows, the lines joined by line feeds.
pub open spec fn color_text(grid: Raster) -> Seq<char> {
    color_bands_text(grid, bands_down(grid.height))
}

/// A pixel row adds at most two full samples to a sum.
proof fn lemma_row_sum_bound(grid: Raster, cell: int, y: int, channel: int)
    requires
        grid.wf(),
        0 <= cell,
        0 <= channel < 3,
    ensures
        0 <= row_sum(grid, cell, y, channel) <= 510,
        !(0 <= y < grid.height) ==> row_sum(grid, cell, y, channel) == 0,
{
}

/// The sum over a cell is at most 255 for each of its pixels.
pub proof fn lemma_partial_sum_bound(grid: Raster, cell: int, band: int, channel: int, rows: int)
    requires
        grid.wf(),
        0 <= cell,
        0 <= band,
        0 <= channel < 3,
        0 <= rows <= 4,
    ensures
        0 <= partial_sum(grid, cell, band, channel, rows) <= 510 * rows,
{
    lemma_row_sum_bound(grid, cell, 4 * band, channel);
    lemma_row_sum_bound(grid, cell, 4 * band + 1, channel);
    lemma_row_sum_bound(grid, cell, 4 * band + 2, channel);
    lemma_row_sum_bound(grid, cell, 4 * band + 3, channel);
}

/// The average over a cell is a sample value again.
pub proof fn lemma_cell_average_bound(grid: Raster, cell: int, band: int, channel: int)
    requires
        grid.wf(),
        0 <= cell,
        0 <= band,
        4 * band < grid.height,
        0 <= channel < 3,
    ensures
        0 <= cell_average(grid, cell, band, channel) <= 255,
{
    let rows = rows_in_band(grid.height, band);
    lemma_partial_sum_bound(grid, cell, band, channel, rows);
    lemma_row_sum_bound(grid, cell, 4 * band, channel);
    lemma_row_sum_bound(grid, cell, 4 * band + 1, channel);
    lemma_row_sum_bound(grid, cell, 4 * band + 2, channel);
    lemma_row_sum_bound(grid, cell, 4 * band + 3, channel);
    let sum = cell_sum(grid, cell, band, channel);
    assert(partial_sum(grid, cell, band, channel, rows) == sum);
    if rows == 1 {
        assert(0 <= sum / 2 <= 255);
    } else if rows == 2 {
        assert(0 <= sum / 4 <= 255);
    } else if rows == 3 {
        assert(0 <= sum / 6 <= 255);
    } else {
        assert(0 <= sum / 8 <= 255);
    }
}

/// A cell whose pixels all have the value `v` in a channel has the average
/// `v` in that channel, however many pixel rows its band has.
pub proof fn lemma_uniform_cell_average(grid: Raster, cell: int, band: int, channel: int, v: u8)
    requires
        grid.wf(),
        0 <= cell,
        2 * cell + 1 < grid.width,
        0 <= band,
        4 * band < grid.height,
        0 <= channel < 3,
        forall|x: int, y: int|
            2 * cell <= x <= 2 * cell + 1 && 4 * band <= y < 4 * band + 4 && y < grid.height
                ==> #[trigger] grid.sample(x, y, channel) == v,
    ensures
        cell_average(grid, cell, band, channel) == v,
{
    let rows = rows_in_band(grid.height, band);
    assert(forall|y: int|
        4 * band <= y < 4 * band + rows ==> #[trigger] row_sum(grid, cell, y, channel) == 2 * v) by {
        assert forall|y: int| 4 * band <= y < 4 * band + rows implies #[trigger] row_sum(
            grid,
            cell,
            y,
            channel,
        ) == 2 * v by {
            assert(grid.sample(2 * cell, y, channel) == v);
            assert(grid.sample(2 * cell + 1, y, channel) == v);
        }
    }
    assert(cell_sum(grid, cell, band, channel) == 2 * rows * v) by {
        if rows > 0 {
            assert(row_sum(grid, cell, 4 * band, channel) == 2 * v);
        }
        if rows > 1 {
            assert(row_sum(grid, cell, 4 * band + 1, channel) == 2 * v);
        }
        if rows > 2 {
            assert(row_sum(grid, cell, 4 * band + 2, channel) == 2 * v);
        }
        if rows > 3 {
            assert(row_sum(grid, cell, 4 * band + 3, channel) == 2 * v);
        }
        assert(2 * rows * v == (if rows > 0 {
            2 * v
        } else {
            0
        }) + (if rows > 1 {
            2 * v
        } else {
            0
        }) + (if rows > 2 {
            2 * v
        } else {
            0
        }) + (if rows > 3 {
            2 * v
        } else {
            0
        })) by (nonlinear_arith)
            requires
                1 <= rows <= 4,
        ;
    }
    assert((2 * rows * v) / (2 * rows) == v) by (nonlinear_arith)
        requires
            1 <= rows <= 4,
            0 <= v,
    ;
}

/// Clears the first `row_width` sums of a row.
pub fn initial_row_32(row: &mut Vec<u32>, row_width: u32)
    requires
        row_width <= old(row)@.len(),
    ensures
        final(row)@.len() == old(row)@.len(),
        forall|i: int| 0 <= i < row_width ==> final(row)@[i] == 0,
        forall|i: int| row_width <= i < old(row)@.len() ==> final(row)@[i] == old(row)@[i],
{
    let mut i: u32 = 0;
    while i < row_width
        invariant
            i <= row_width <= row@.len(),
            row@.len() == old(row)@.len(),
            forall|j: int| 0 <= j < i ==> row@[j] == 0,
            forall|j: int| row_width <= j < row@.len() ==> row@[j] == old(row)@[j],
        decreases row_width - i,
    {
        row.set(i as usize, 0);
        i += 1;
    }
}

/// A row of `cells` sums, all zero.
fn zero_row(cells: u32) -> (row: Vec<u32>)
    ensures
        row@.len() == cells,
        forall|i: int| 0 <= i < cells ==> row@[i] == 0,
{
    let mut row: Vec<u32> = Vec::new();
    let mut n: u32 = 0;
    while n < cells
        invariant
            n <= cells,
            row@.len() == n,
            forall|i: int| 0 <= i < n ==> row@[i] == 0,
        decreases cells - n,
    {
        row.push(0);
        n += 1;
    }
    row
}

/// Adds the samples of channel `channel` in pixel row `y` to the sums of its
/// band.
fn add_row(sums: &mut Vec<u32>, grid: &Bitmap, y: u32, channel: u8)
    requires
        grid.wf(),
        y < grid@.height,
        channel < 3,
        old(sums)@.len() == cells_across(grid@.width),
        forall|cell: int|
            0 <= cell < old(sums)@.len() ==> old(sums)@[cell] == partial_sum(
                grid@,
                cell,
                y as int / 4,
                channel as int,
                y as int % 4,
            ),
    ensures
        final(sums)@.len() == old(sums)@.len(),
        forall|cell: int|
            0 <= cell < final(sums)@.len() ==> final(sums)@[cell] == partial_sum(
                grid@,
                cell,
                y as int / 4,
                channel as int,
                y as int % 4 + 1,
            ),
{
    let width = grid.width();
    let cells = row_width(width);
    let mut cell: u32 = 0;
    while cell < cells
        invariant
            grid.wf(),
            y < grid@.height,
            channel < 3,
            width == grid@.width,
            cell <= cells,
            cells == cells_across(grid@.width),
            sums@.len() == cells,
            forall|c: int|
                0 <= c < cell ==> sums@[c] == partial_sum(
                    grid@,
                    c,
                    y as int / 4,
                    channel as int,
                    y as int % 4 + 1,
                ),
            forall|c: int|
                cell <= c < cells ==> sums@[c] == partial_sum(
                    grid@,
                    c,
                    y as int / 4,
                    channel as int,
                    y as int % 4,
                ),
        decreases cells - cell,
    {
        let x: u32 = 2 * cell;
        if x + 1 < width {
            let left = grid.sample(x, y, channel);
            let right = grid.sample(x + 1, y, channel);
            proof {
                lemma_partial_sum_bound(
                    grid@,
                    cell as int,
                    y as int / 4,
                    channel as int,
                    y as int % 4,
                );
            }
            let sum: u32 = sums[cell as usize] + (left as u32 + right as u32);
            sums.set(cell as usize, sum);
        }
        cell += 1;
    }
}

/// Appends the decimal digits of `n`.
fn push_decimal(text: &mut String, n: u8)
    ensures
        final(text)@ == old(text)@ + decimal(n as nat),
{
    reveal_with_fuel(decimal, 3);
    if n >= 100 {
        let hundreds = from_utf32(48 + (n / 100) as u32);
        text.append(hundreds.as_str());
    }
    if n >= 10 {
        let tens = from_utf32(48 + ((n / 10) % 10) as u32);
        text.append(tens.as_str());
    }
    let ones = from_utf32(48 + (n % 10) as u32);
    text.append(ones.as_str());
    assert(text@ =~= old(text)@ + decimal(n as nat));
}

/// The escape sequence that sets a terminal's foreground colour.
pub fn color_escape(red: u8, green: u8, blue: u8) -> (text: String)
    ensures
        text@ == escape_text(red as int, green as int, blue as int),
{
    let mut text = String::new();
    text.append("\x1B[38;2;");
    push_decimal(&mut text, red);
    text.append(";");
    push_decimal(&mut text, green);
    text.append(";");
    push_decimal(&mut text, blue);
    text.append("m");
    proof {
        reveal_strlit("\x1B[38;2;");
        reveal_strlit(";");
        reveal_strlit("m");
        assert("\x1B[38;2;"@ =~= seq!['\x1B', '[', '3', '8', ';', '2', ';']);
        assert(";"@ =~= seq![';']);
        assert("m"@ =~= seq!['m']);
        assert(text@ =~= escape_text(red as int, green as int, blue as int));
    }
    text
}

/// The coloured glyphs of a band whose sums are complete.
fn color_line(red: &Vec<u32>, green: &Vec<u32>, blue: &Vec<u32>, grid: &Bitmap, y: u32) -> (line:
    String)
    requires
        grid.wf(),
        y < grid@.height,
        y % 4 == 3 || y == grid@.height - 1,
        red@.len() == cells_across(grid@.width),
        green@.len() == red@.len(),
        blue@.len() == red@.len(),
        forall|cell: int|
            0 <= cell < red@.len() ==> red@[cell] == cell_sum(grid@, cell, y as int / 4, 0),
        forall|cell: int|
            0 <= cell < red@.len() ==> green@[cell] == cell_sum(grid@, cell, y as int / 4, 1),
        forall|cell: int|
            0 <= cell < red@.len() ==> blue@[cell] == cell_sum(grid@, cell, y as int / 4, 2),
    ensures
        line@ == cells_text(grid@, y as int / 4, cells_across(grid@.width)),
{
    let t: u32 = 2 * (y % 4 + 1);
    let mut line = String::new();
    let mut i: usize = 0;
    while i < red.len()
        invariant
            grid.wf(),
            y < grid@.height,
            t == 2 * rows_in_band(grid@.height, y as int / 4),
            t > 0,
            i <= red@.len(),
            red@.len() == cells_across(grid@.width),
            green@.len() == red@.len(),
            blue@.len() == red@.len(),
            forall|cell: int|
                0 <= cell < red@.len() ==> red@[cell] == cell_sum(grid@, cell, y as int / 4, 0),
            forall|cell: int|
                0 <= cell < red@.len() ==> green@[cell] == cell_sum(grid@, cell, y as int / 4, 1),
            forall|cell: int|
                0 <= cell < red@.len() ==> blue@[cell] == cell_sum(grid@, cell, y as int / 4, 2),
            line@ == cells_text(grid@, y as int / 4, i as nat),
        decreases red@.len() - i,
    {
        proof {
            lemma_cell_average_bound(grid@, i as int, y as int / 4, 0);
            lemma_cell_average_bound(grid@, i as int, y as int / 4, 1);
            lemma_cell_average_bound(grid@, i as int, y as int / 4, 2);
        }
        let color_term = color_escape((red[i] / t) as u8, (green[i] / t) as u8, (blue[i] / t) as u8);
        line.append(color_term.as_str());
        let icon = from_utf32(FULL_GLYPH);
        line.append(icon.as_str());
        assert(line@ =~= cells_text(grid@, y as int / 4, i as nat) + cell_text(
            grid@,
            i as int,
            y as int / 4,
        ));
        i += 1;
    }
    line
}

/// Draws a grid in colour: every cell of two by four pixels becomes the fully
/// dotted Braille pattern, preceded by the escape sequence for the average
/// colour of the cell's pixels, and every band of four pixel rows a line of
/// text. The lines are joined by line feeds; none follows the last. In a grid
/// of odd width the last cell of a line has no second column and is black.
pub fn render_color(grid: &Bitmap) -> (text: String)
    requires
        grid.wf(),
    ensures
        text@ == color_text(grid@),
{
    let width = grid.width();
    let height = grid.height();
    let cells = row_width(width);
    let mut red = zero_row(cells);
    let mut green = zero_row(cells);
    let mut blue = zero_row(cells);
    let mut text = String::new();
    let mut y: u32 = 0;
    while y < height
        invariant
            grid.wf(),
            width == grid@.width,
            height == grid@.height,
            cells == cells_across(grid@.width),
            red@.len() == cells,
            green@.len() == cells,
            blue@.len() == cells,
            y <= height,
            text@ == color_bands_text(
                grid@,
                if y == height {
                    bands_down(height as nat)
                } else {
                    (y / 4) as nat
                },
            ),
            forall|cell: int|
                0 <= cell < cells && y % 4 != 0 ==> red@[cell] == partial_sum(
                    grid@,
                    cell,
                    y as int / 4,
                    0,
                    y as int % 4,
                ),
            forall|cell: int|
                0 <= cell < cells && y % 4 != 0 ==> green@[cell] == partial_sum(
                    grid@,
                    cell,
                    y as int / 4,
                    1,
                    y as int % 4,
                ),
            forall|cell: int|
                0 <= cell < cells && y % 4 != 0 ==> blue@[cell] == partial_sum(
                    grid@,
                    cell,
                    y as int / 4,
                    2,
                    y as int % 4,
                ),
        decreases height - y,
    {
        if y % 4 == 0 {
            initial_row_32(&mut red, cells);
            initial_row_32(&mut green, cells);
            initial_row_32(&mut blue, cells);
        }
        add_row(&mut red, grid, y, 0);
        add_row(&mut green, grid, y, 1);
        add_row(&mut blue, grid, y, 2);
        if y % 4 == 3 || y == height - 1 {
            let ghost band = y as int / 4;
            let icon_list = color_line(&red, &green, &blue, grid, y);
            if y >= 4 {
                text.append("\n");
            }
            text.append(icon_list.as_str());
            proof {
                reveal_strlit("\n");
                if band > 0 {
                    assert(text@ =~= color_bands_text(grid@, band as nat) + seq!['\n']
                        + cells_text(grid@, band, cells_across(grid@.width)));
                } else {
                    assert(text@ =~= cells_text(grid@, 0, cells_across(grid@.width)));
                }
            }
        }
        y += 1;
    }
    text
}

/// Draws a picture as lines of coloured Braille patterns.
///
/// The picture is scaled to `width` by `height` pixels, where zero for one of
/// them asks for the side that keeps the picture's proportions, and the
/// scaled grid is drawn as [`render_color`] does.
pub fn print_color_dot(image: Bitmap, width: u32, height: u32) -> (text: Result<
    String,
    RenderError,
>)
    requires
        image.wf(),
    ensures
        match target_grid(width, height, image@) {
            Ok((w, h)) => text matches Ok(t) && t@ == color_text(scaled(image@, w, h)) && scaled(
                image@,
                w,
                h,
            ).wf() && w > 0 && h > 0,
            Err(e) => text matches Err(f) && f == e,
        },
{
    match image.scale_to(width, height) {
        Ok(grid) => Ok(render_color(&grid)),
        Err(e) => Err(e),
    }
}

} // verus!
