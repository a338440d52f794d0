//! Dimensions of the pixel grid that a picture is scaled to before it is cut
//! into cells.

use vstd::prelude::*;

verus! {

/// Why no grid could be laid out for a picture.
#[derive(Clone, Copy, Debug, PartialEq, Eq, Structural)]
pub enum RenderError {
    /// Neither the width nor the height of the grid was given.
    NoDimensions,
    /// A side has to be derived from the picture's proportions, and the
    /// picture has a side of zero pixels.
    EmptySource,
    /// The derived side comes out as zero pixels.
    Collapsed,
    /// The derived side does not fit in 32 bits, or the picture cannot be
    /// scaled to the grid: a side is too long, or a buffer would be.
    TooLarge,
}

/// The side that keeps the picture's proportions: `given` scaled by the ratio
/// of the picture's matching side `along` to its other side `across`, rounded
/// down.
pub open spec fn derived_side(given: u32, along: u32, across: u32) -> int {
    (given * along) / (across as int)
}

/// Settles one side from the other.
pub open spec fn derive(given: u32, along: u32, across: u32) -> Result<u32, RenderError> {
    if along == 0 || across == 0 {
        Err(RenderError::EmptySource)
    } else if derived_side(given, along, across) == 0 {
        Err(RenderError::Collapsed)
    } else if derived_side(given, along, across) > u32::MAX {
        Err(RenderError::TooLarge)
    } else {
        Ok(derived_side(given, along, across) as u32)
    }
}

/// The grid for a request of `width` by `height` pixels, in which zero asks
/// for the side that keeps the proportions of a source of `source_width` by
/// `source_height` pixels. Both sides of a grid are positive.
pub open spec fn resolved(width: u32, height: u32, source_width: u32, source_height: u32) -> Result<
    (u32, u32),
    RenderError,
> {
    if width == 0 && height == 0 {
        Err(RenderError::NoDimensions)
    } else if height == 0 {
        match derive(width, source_height, source_width) {
            Ok(h) => Ok((width, h)),
            Err(e) => Err(e),
        }
    } else if width == 0 {
        match derive(height, source_width, source_height) {
            Ok(w) => Ok((w, height)),
            Err(e) => Err(e),
        }
    } else {
        Ok((width, height))
    }
}

/// Number of cells in a row of glyphs: one for every two columns, rounded up.
pub open spec fn cells_across(width: nat) -> nat {
    (width + 1) / 2
}

/// Number of rows of glyphs: one for every band of four pixel rows, the last
/// of which may be short.
pub open spec fn bands_down(height: nat) -> nat {
    (height + 3) / 4
}

/// Number of pixel rows in band `band` of a grid `height` rows tall.
pub open spec fn rows_in_band(height: nat, band: int) -> int {
    if 4 * band + 4 <= height {
        4
    } else if 4 * band < height {
        height - 4 * band
    } else {
        0
    }
}

/// A side derived from a source whose long side is `ratio` times its short
/// side is `ratio` times the side given where it runs along the long side, and
/// the side given divided by `ratio`, rounded down, where it runs along the
/// short one: a missing width for a height of 40 and a source twice as wide as
/// tall is 80.
pub proof fn lemma_proportions_kept(given: u32, ratio: u32, short_side: u32)
    requires
        given > 0,
        ratio > 0,
        short_side > 0,
        ratio * short_side <= u32::MAX,
        ratio * given <= u32::MAX,
    ensures
        resolved(0, given, (ratio * short_side) as u32, short_side) == Ok::<
            (u32, u32),
            RenderError,
        >(((ratio * given) as u32, given)),
        resolved(given, 0, short_side, (ratio * short_side) as u32) == Ok::<
            (u32, u32),
            RenderError,
        >((given, (ratio * given) as u32)),
        given >= ratio ==> resolved(0, given, short_side, (ratio * short_side) as u32) == Ok::<
            (u32, u32),
            RenderError,
        >((((given as int) / (ratio as int)) as u32, given)),
        given >= ratio ==> resolved(given, 0, (ratio * short_side) as u32, short_side) == Ok::<
            (u32, u32),
            RenderError,
        >((given, ((given as int) / (ratio as int)) as u32)),
{
    let g = given as int;
    let r = ratio as int;
    let s = short_side as int;
    let l = r * s;
    assert(l >= 1 && r * g >= 1) by (nonlinear_arith)
        requires
            l == r * s,
            r >= 1,
            s >= 1,
            g >= 1,
    ;
    assert((g * l) / s == r * g) by {
        assert(g * l == (r * g) * s) by (nonlinear_arith)
            requires
                l == r * s,
        ;
        vstd::arithmetic::div_mod::lemma_div_by_multiple(r * g, s);
    }
    assert((g * s) / l == g / r) by {
        assert(0 <= g * s) by (nonlinear_arith)
            requires
                0 <= g,
                0 <= s,
        ;
        vstd::arithmetic::div_mod::lemma_div_denominator(g * s, s, r);
        vstd::arithmetic::div_mod::lemma_div_by_multiple(g, s);
        assert(s * r == l) by (nonlinear_arith)
            requires
                l == r * s,
        ;
    }
    assert(0 <= g / r <= g && (g >= r ==> g / r >= 1)) by (nonlinear_arith)
        requires
            g >= 0,
            r >= 1,
    ;
    assert(derived_side(given, (ratio * short_side) as u32, short_side) == r * g);
    assert(derived_side(given, short_side, (ratio * short_side) as u32) == g / r);
}

fn derive_side(given: u32, along: u32, across: u32) -> (side: Result<u32, RenderError>)
    ensures
        side == derive(given, along, across),
{
    if along == 0 || across == 0 {
        return Err(RenderError::EmptySource);
    }
    assert(given * along <= u64::MAX) by (nonlinear_arith)
        requires
            given <= u32::MAX,
            along <= u32::MAX,
    ;
    let side: u64 = (given as u64) * (along as u64) / (across as u64);
    if side == 0 {
        Err(RenderError::Collapsed)
    } else if side > u32::MAX as u64 {
        Err(RenderError::TooLarge)
    } else {
        Ok(side as u32)
    }
}

/// Resolves the requested grid against the picture's own dimensions.
///
/// A side given as zero is derived from the other one so that the picture
/// keeps its proportions; asking for both sides to be derived is an error.
pub fn resolve_dimensions(width: u32, height: u32, source_width: u32, source_height: u32) -> (grid:
    Result<(u32, u32), RenderError>)
    ensures
        grid == resolved(width, height, source_width, source_height),
        grid matches Ok((w, h)) ==> w > 0 && h > 0,
{
    if width == 0 && height == 0 {
        Err(RenderError::NoDimensions)
    } else if height == 0 {
        match derive_side(width, source_height, source_width) {
            Ok(h) => Ok((width, h)),
            Err(e) => Err(e),
        }
    } else if width == 0 {
        match derive_side(height, source_width, source_height) {
            Ok(w) => Ok((w, height)),
            Err(e) => Err(e),
        }
    } else {
        Ok((width, height))
    }
}

/// Number of cells in a row of glyphs for a grid `width` pixels wide.
pub fn row_width(width: u32) -> (cells: u32)
    ensures
        cells == cells_across(width as nat),
{
    width / 2 + width % 2
}

} // verus!
