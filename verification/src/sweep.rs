//! The sweep: one putt at every point of a square grid of aim targets, the
//! rows of the grid dealt out to bands so that each band can be played on
//! its own, and the bands joined again in order.

use vstd::prelude::*;
use vstd::arithmetic::div_mod::{lemma_fundamental_div_mod, lemma_fundamental_div_mod_converse};
use crate::constants::{BAND_UNIT, FIELD_MAX};
use crate::fixed::Point;
use crate::hole::{Hole, HoleModel};
use crate::sim::{outcome, putt_outcome};

verus! {

/// Number of bands that a surface of side `size` is cut into: one for each
/// whole `BAND_UNIT` of its height, and one at least.
pub open spec fn bands_of(size: int) -> int {
    if size / (BAND_UNIT as int) < 1 {
        1
    } else {
        size / (BAND_UNIT as int)
    }
}

/// Height of each band: the side divided by the number of bands, rounded
/// down.
pub open spec fn band_height_of(size: int) -> int {
    size / bands_of(size)
}

/// Where band `band` begins.
pub open spec fn band_top(size: int, band: int) -> int {
    band * band_height_of(size)
}

/// Where band `band` ends: where the next band begins, and for the last
/// band the end of the surface.
pub open spec fn band_end(size: int, band: int) -> int {
    if band == bands_of(size) - 1 {
        size
    } else {
        (band + 1) * band_height_of(size)
    }
}

/// Number of grid lines `0, step, 2 * step, ..` below `extent`.
pub open spec fn steps_in(extent: int, step: int) -> int {
    if extent <= 0 {
        0
    } else {
        (extent - 1) / step + 1
    }
}

/// Number of aim targets in one row, and of rows in the grid.
pub open spec fn cols_of(size: int, step: int) -> int {
    steps_in(size, step)
}

/// The first row of the grid that lies in band `band`.
pub open spec fn first_row(size: int, step: int, band: int) -> int {
    steps_in(band_top(size, band), step)
}

/// The first row of the grid that lies behind band `band`.
pub open spec fn end_row(size: int, step: int, band: int) -> int {
    steps_in(band_end(size, band), step)
}

/// Aim target number `index` of a grid with `n` targets to the row, counting
/// along the rows from the top: column `index % n` of row `index / n`.
pub open spec fn grid_aim(step: int, n: int, index: int) -> Point {
    Point { x: (index % n) * step, y: (index / n) * step }
}

/// The outcomes of the putts at the aim targets `from` up to `to` of the
/// grid, in order.
pub open spec fn grid_outcomes(h: HoleModel, size: int, step: int, from: int, to: int) -> Seq<
    i64,
> {
    Seq::new(
        (to - from) as nat,
        |i: int| outcome(h, grid_aim(step, cols_of(size, step), from + i)) as i64,
    )
}

/// The outcomes of band `band`: those of the rows of the grid that lie in
/// the band, row by row.
pub open spec fn band_outcomes(h: HoleModel, size: int, step: int, band: int) -> Seq<i64> {
    grid_outcomes(
        h,
        size,
        step,
        first_row(size, step, band) * cols_of(size, step),
        end_row(size, step, band) * cols_of(size, step),
    )
}

/// The outcomes of the first `n` bands, band after band.
pub open spec fn sweep_prefix(h: HoleModel, size: int, step: int, n: nat) -> Seq<i64>
    decreases n,
{
    if n == 0 {
        Seq::empty()
    } else {
        sweep_prefix(h, size, step, (n - 1) as nat) + band_outcomes(h, size, step, n - 1)
    }
}

/// The outcomes of the whole sweep.
pub open spec fn sweep_outcomes(h: HoleModel, size: int, step: int) -> Seq<i64> {
    sweep_prefix(h, size, step, bands_of(size) as nat)
}

/// The parts one after another.
pub open spec fn joined(parts: Seq<Vec<i64>>) -> Seq<i64>
    decreases parts.len(),
{
    if parts.len() == 0 {
        Seq::empty()
    } else {
        joined(parts.drop_last()) + parts.last()@
    }
}

/// Number of bands for a surface of side `size`.
pub fn band_count(size: i64) -> (n: i64)
    requires
        0 < size,
    ensures
        n == bands_of(size as int),
        1 <= n <= size,
{
    let n = size / BAND_UNIT;
    if n < 1 {
        1
    } else {
        n
    }
}

/// Height of each band of a surface of side `size`.
pub fn band_height(size: i64) -> (bh: i64)
    requires
        0 < size,
    ensures
        bh == band_height_of(size as int),
        1 <= bh <= size,
        bands_of(size as int) * bh <= size,
{
    let n = band_count(size);
    proof {
        lemma_quotient_bounds(size as int, n as int);
    }
    size / n
}

/// For `1 <= d <= x` the quotient `x / d` is at least 1 and at most `x`, and
/// `d` times it is at most `x`.
proof fn lemma_quotient_bounds(x: int, d: int)
    requires
        1 <= d <= x,
    ensures
        1 <= x / d <= x,
        d * (x / d) <= x,
{
    lemma_fundamental_div_mod(x, d);
    assert(1 <= x / d <= x && d * (x / d) <= x) by (nonlinear_arith)
        requires
            1 <= d <= x,
            x == d * (x / d) + (x % d),
            0 <= x % d < d,
    ;
}

/// Grid line `k` lies below `extent` exactly when `k` is under the number
/// of grid lines, of which there are no more than units of `extent`.
pub proof fn lemma_steps_in(extent: int, step: int, k: int)
    requires
        0 < step,
        0 <= k,
    ensures
        0 <= steps_in(extent, step),
        extent > 0 ==> 1 <= steps_in(extent, step) <= extent,
        k < steps_in(extent, step) <==> k * step < extent,
{
    if extent > 0 {
        let q = (extent - 1) / step;
        lemma_fundamental_div_mod(extent - 1, step);
        assert(0 <= q <= extent - 1 && (k <= q <==> k * step <= extent - 1)) by (nonlinear_arith)
            requires
                extent - 1 == step * q + (extent - 1) % step,
                0 <= (extent - 1) % step < step,
                0 < step,
                0 <= k,
                extent - 1 >= 0,
        ;
    } else {
        assert(k * step >= 0) by (nonlinear_arith)
            requires
                0 <= k,
                0 < step,
        ;
    }
}

/// A longer extent holds no fewer grid lines.
pub proof fn lemma_steps_monotone(a: int, b: int, step: int)
    requires
        0 < step,
        a <= b,
    ensures
        steps_in(a, step) <= steps_in(b, step),
{
    let k = steps_in(a, step);
    lemma_steps_in(a, step, 0);
    lemma_steps_in(b, step, 0);
    if k > 0 {
        lemma_steps_in(a, step, k - 1);
        lemma_steps_in(b, step, k - 1);
    }
}

/// Number of grid lines below `extent`.
pub fn grid_lines(extent: i64, step: i64) -> (lines: i64)
    requires
        0 <= extent,
        0 < step,
    ensures
        lines == steps_in(extent as int, step as int),
        0 <= lines <= extent,
{
    proof {
        lemma_steps_in(extent as int, step as int, 0);
    }
    if extent == 0 {
        0
    } else {
        (extent - 1) / step + 1
    }
}

/// Number of aim targets in one row of the grid.
pub fn grid_cols(size: i64, step: i64) -> (cols: i64)
    requires
        0 < size,
        0 < step,
    ensures
        cols == cols_of(size as int, step as int),
        1 <= cols <= size,
{
    proof {
        lemma_steps_in(size as int, step as int, 0);
    }
    grid_lines(size, step)
}

/// The bands lie one behind the other within the surface: each begins
/// where the one before ends, the first at 0, and the last ends at `size`.
pub proof fn lemma_bands_tile(size: int, band: int)
    requires
        0 < size,
        0 <= band < bands_of(size),
    ensures
        0 <= band_top(size, band) <= band_end(size, band) <= size,
        0 < band_end(size, band),
        band > 0 ==> band_top(size, band) == band_end(size, band - 1),
        band_top(size, 0) == 0,
        band_end(size, bands_of(size) - 1) == size,
{
    let n = bands_of(size);
    let bh = band_height_of(size);
    lemma_quotient_bounds(size, n);
    assert(0 <= band * bh && band * bh + bh <= n * bh && (band + 1) * bh == band * bh + bh && (
    band + 1) * bh >= 1) by (nonlinear_arith)
        requires
            0 <= band < n,
            bh >= 1,
    ;
}

/// Plays band `band` of the sweep over a surface of side `size` with grid
/// spacing `step`: one putt for each aim target in the rows of the grid
/// that lie in the band, row by row.
pub fn sweep_band(hole: &Hole, size: i64, step: i64, band: i64) -> (out: Vec<i64>)
    requires
        hole@.wf(),
        0 < size <= FIELD_MAX,
        0 < step,
        0 <= band < bands_of(size as int),
    ensures
        out@ == band_outcomes(hole@, size as int, step as int, band as int),
{
    let bands = band_count(size);
    let bh = band_height(size);
    proof {
        lemma_bands_tile(size as int, band as int);
    }
    let top = band * bh;
    let end = if band == bands - 1 {
        size
    } else {
        (band + 1) * bh
    };
    let first = grid_lines(top, step);
    let last = grid_lines(end, step);
    let cols = grid_cols(size, step);
    proof {
        lemma_steps_monotone(top as int, end as int, step as int);
    }
    let ghost base = first * cols;
    let mut out: Vec<i64> = Vec::new();
    let mut r: i64 = first;
    assert(out@ =~= grid_outcomes(hole@, size as int, step as int, base, first * cols));
    while r < last
        invariant
            hole@.wf(),
            0 < size <= FIELD_MAX,
            0 < step,
            cols == cols_of(size as int, step as int),
            1 <= cols <= size,
            last == steps_in(end as int, step as int),
            0 < end <= size,
            base == first * cols,
            0 <= first <= r <= last,
            out@ == grid_outcomes(hole@, size as int, step as int, base, r * cols),
        decreases last - r,
    {
        proof {
            lemma_steps_in(end as int, step as int, r as int);
            assert(0 <= r * step) by (nonlinear_arith)
                requires
                    0 <= r,
                    0 < step,
            ;
            assert(first * cols <= r * cols) by (nonlinear_arith)
                requires
                    0 <= first <= r,
                    1 <= cols,
            ;
        }
        let y = r * step;
        let mut c: i64 = 0;
        while c < cols
            invariant
                hole@.wf(),
                0 < size <= FIELD_MAX,
                0 < step,
                cols == cols_of(size as int, step as int),
                cols >= 1,
                base == first * cols,
                0 <= first <= r,
                base <= r * cols,
                y == r * step,
                0 <= y <= size,
                0 <= c <= cols,
                out@ == grid_outcomes(hole@, size as int, step as int, base, r * cols + c),
            decreases cols - c,
        {
            proof {
                lemma_steps_in(size as int, step as int, c as int);
                assert(0 <= c * step) by (nonlinear_arith)
                    requires
                        0 <= c,
                        0 < step,
                ;
                lemma_fundamental_div_mod_converse(
                    r * cols + c,
                    cols as int,
                    r as int,
                    c as int,
                );
            }
            let x = c * step;
            let d = putt_outcome(hole, x, y);
            out.push(d);
            assert(out@ =~= grid_outcomes(
                hole@,
                size as int,
                step as int,
                base,
                r * cols + c + 1,
            ));
            c += 1;
        }
        assert((r + 1) * cols == r * cols + cols) by (nonlinear_arith);
        r += 1;
    }
    out
}

/// Joins the outcomes of the bands, in the order of the bands.
pub fn merge_bands(parts: &Vec<Vec<i64>>) -> (out: Vec<i64>)
    ensures
        out@ == joined(parts@),
{
    let mut out: Vec<i64> = Vec::new();
    let mut k: usize = 0;
    assert(parts@.take(0) =~= Seq::<Vec<i64>>::empty());
    while k < parts.len()
        invariant
            k <= parts.len(),
            out@ == joined(parts@.take(k as int)),
        decreases parts.len() - k,
    {
        let part = &parts[k];
        let ghost base = out@;
        let mut i: usize = 0;
        while i < part.len()
            invariant
                i <= part.len(),
                out@ == base + part@.take(i as int),
            decreases part.len() - i,
        {
            out.push(part[i]);
            assert(out@ =~= base + part@.take(i + 1));
            i += 1;
        }
        proof {
            assert(part@.take(part.len() as int) =~= part@);
            assert(parts@.take(k + 1).drop_last() =~= parts@.take(k as int));
            assert(parts@.take(k + 1).last() == parts@[k as int]);
        }
        k += 1;
    }
    assert(parts@.take(parts.len() as int) =~= parts@);
    out
}

/// Plays the whole sweep, band after band: one putt at every aim target of
/// the grid over a surface of side `size` with spacing `step`.
pub fn sweep(hole: &Hole, size: i64, step: i64) -> (out: Vec<i64>)
    requires
        hole@.wf(),
        0 < size <= FIELD_MAX,
        0 < step,
    ensures
        out@ == sweep_outcomes(hole@, size as int, step as int),
{
    let n = band_count(size);
    let mut parts: Vec<Vec<i64>> = Vec::new();
    let mut k: i64 = 0;
    while k < n
        invariant
            hole@.wf(),
            0 < size <= FIELD_MAX,
            0 < step,
            n == bands_of(size as int),
            0 <= k <= n,
            parts@.len() == k,
            forall|j: int|
                0 <= j < k ==> (#[trigger] parts@[j])@ == band_outcomes(
                    hole@,
                    size as int,
                    step as int,
                    j,
                ),
        decreases n - k,
    {
        let part = sweep_band(hole, size, step, k);
        parts.push(part);
        k += 1;
    }
    proof {
        lemma_join_is_sweep(hole@, size as int, step as int, parts@);
    }
    merge_bands(&parts)
}

/// Bands played apart and joined in order are the sweep's first bands:
/// which worker ends first changes nothing.
pub proof fn lemma_join_is_sweep(h: HoleModel, size: int, step: int, parts: Seq<Vec<i64>>)
    requires
        forall|j: int|
            0 <= j < parts.len() ==> (#[trigger] parts[j])@ == band_outcomes(h, size, step, j),
    ensures
        joined(parts) == sweep_prefix(h, size, step, parts.len()),
    decreases parts.len(),
{
    if parts.len() > 0 {
        lemma_join_is_sweep(h, size, step, parts.drop_last());
    }
}

/// The first `k` bands of the sweep are the rows of the grid before the
/// end of band `k - 1`.
proof fn lemma_sweep_prefix_rows(h: HoleModel, size: int, step: int, k: nat)
    requires
        0 < size,
        0 < step,
        1 <= k <= bands_of(size),
    ensures
        end_row(size, step, k - 1) >= 0,
        sweep_prefix(h, size, step, k) == grid_outcomes(
            h,
            size,
            step,
            0,
            end_row(size, step, k - 1) * cols_of(size, step),
        ),
    decreases k,
{
    let cols = cols_of(size, step);
    let first = first_row(size, step, k - 1);
    let last = end_row(size, step, k - 1);
    lemma_bands_tile(size, k - 1);
    lemma_steps_in(size, step, 0);
    lemma_steps_in(band_top(size, k - 1), step, 0);
    lemma_steps_monotone(band_top(size, k - 1), band_end(size, k - 1), step);
    assert(0 <= first * cols <= last * cols) by (nonlinear_arith)
        requires
            0 <= first <= last,
            1 <= cols,
    ;
    let before = sweep_prefix(h, size, step, (k - 1) as nat);
    if k == 1 {
        assert(before =~= Seq::<i64>::empty());
        assert(first == 0);
    } else {
        lemma_sweep_prefix_rows(h, size, step, (k - 1) as nat);
        assert(first == end_row(size, step, k - 2));
    }
    assert(before =~= grid_outcomes(h, size, step, 0, first * cols));
    assert(before + band_outcomes(h, size, step, k - 1) =~= grid_outcomes(
        h,
        size,
        step,
        0,
        last * cols,
    ));
}

/// The sweep is the grid, row by row: with `n` grid lines below `size` it
/// returns `n * n` outcomes, and outcome number `index` is that of the putt
/// aimed at column `index % n` of row `index / n`, the point
/// `(index % n * step, index / n * step)`, whatever the size and the step.
pub proof fn lemma_sweep_row_major(h: HoleModel, size: int, step: int)
    requires
        0 < size,
        0 < step,
    ensures
        sweep_outcomes(h, size, step).len() == steps_in(size, step) * steps_in(size, step),
        forall|index: int|
            0 <= index < steps_in(size, step) * steps_in(size, step) ==> #[trigger] sweep_outcomes(
                h,
                size,
                step,
            )[index] == outcome(h, grid_aim(step, steps_in(size, step), index)) as i64,
{
    let n = steps_in(size, step);
    lemma_steps_in(size, step, 0);
    lemma_quotient_bounds(size, bands_of(size));
    lemma_bands_tile(size, bands_of(size) - 1);
    lemma_sweep_prefix_rows(h, size, step, bands_of(size) as nat);
    assert(n * n >= 0) by (nonlinear_arith)
        requires
            n >= 1,
    ;
}

/// Where `step` divides `size`, the sweep returns `(size / step)` squared
/// outcomes.
pub proof fn lemma_sweep_len_even(h: HoleModel, size: int, step: int)
    requires
        0 < size,
        0 < step,
        size % step == 0,
    ensures
        sweep_outcomes(h, size, step).len() == (size / step) * (size / step),
{
    lemma_sweep_row_major(h, size, step);
    let q = size / step;
    lemma_fundamental_div_mod(size, step);
    assert(q * step == size && q >= 1) by (nonlinear_arith)
        requires
            size == step * q + size % step,
            size % step == 0,
            0 < size,
            0 < step,
    ;
    assert(size - 1 == (q - 1) * step + (step - 1)) by (nonlinear_arith)
        requires
            q * step == size,
    ;
    lemma_fundamental_div_mod_converse(size - 1, step, q - 1, step - 1);
}

} // verus!
