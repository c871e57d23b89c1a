//! Flat cell indices: how a point of space is hashed to a bucket of the grid.

use vstd::prelude::*;
use vstd::arithmetic::div_mod::lemma_fundamental_div_mod_converse;
use crate::aabb::AABB;
use crate::fixed::Fixed;
use crate::vec3::Vec3;

verus! {

/// `x + y * width + z * length * width`, scaled by `2^48`.
pub open spec fn weighted_sum(p: Vec3, length: Fixed, width: Fixed) -> int {
    p.x.raw * 4294967296 + p.y.raw * width.raw * 65536 + p.z.raw * length.raw * width.raw
}

/// The flat cell index of a point: `conv_factor * (x + y * width + z * length
/// * width)`, computed without rounding, then cut off toward zero.  A
/// negative product gives index 0.
pub open spec fn spec_cell_index(p: Vec3, length: Fixed, width: Fixed, conv_factor: Fixed) -> u64 {
    let scaled = conv_factor.raw * weighted_sum(p, length, width);
    if scaled <= 0 {
        0
    } else {
        (scaled / 18446744073709551616) as u64
    }
}

/// The indices reported for a box: the index of its first corner eight times
/// over where the first two corners share a cell, else the index of each of
/// its eight corners, in the order of the corners.
pub open spec fn spec_grid_cells(b: AABB, length: Fixed, width: Fixed, conv_factor: Fixed) -> Seq<
    u64,
> {
    let first = spec_cell_index(b.min, length, width, conv_factor);
    let second = spec_cell_index(b.max, length, width, conv_factor);
    if first == second {
        Seq::new(8, |i: int| first)
    } else {
        Seq::new(8, |i: int| spec_cell_index(b.corners()[i], length, width, conv_factor))
    }
}

/// `s` without the later occurrences of each value.
pub open spec fn first_occurrences(s: Seq<u64>) -> Seq<u64>
    decreases s.len(),
{
    if s.len() == 0 {
        s
    } else {
        let front = first_occurrences(s.drop_last());
        if front.contains(s.last()) {
            front
        } else {
            front.push(s.last())
        }
    }
}

/// Nothing occurs twice among the first occurrences, and they hold exactly
/// the values of the sequence.
pub proof fn lemma_first_occurrences_distinct(s: Seq<u64>)
    ensures
        first_occurrences(s).no_duplicates(),
        forall|v: u64| #[trigger] first_occurrences(s).contains(v) <==> s.contains(v),
    decreases s.len(),
{
    let out = first_occurrences(s);
    if s.len() > 0 {
        let front = first_occurrences(s.drop_last());
        lemma_first_occurrences_distinct(s.drop_last());
        assert forall|v: u64| #[trigger] out.contains(v) <==> s.contains(v) by {
            if out.contains(v) {
                let i = out.index_of(v);
                assert(out[i] == v);
                if i < front.len() {
                    assert(front[i] == v);
                    assert(front.contains(v));
                    let m = s.drop_last().index_of(v);
                    assert(s.drop_last()[m] == v);
                    assert(s[m] == v);
                } else {
                    assert(s[s.len() - 1] == v);
                }
            }
            if s.contains(v) {
                let m = s.index_of(v);
                assert(s[m] == v);
                if m < s.len() - 1 {
                    assert(s.drop_last()[m] == v);
                    assert(front.contains(v));
                    let i = front.index_of(v);
                    assert(front[i] == v);
                    assert(out[i] == v);
                } else if front.contains(v) {
                } else {
                    assert(out[front.len() as int] == v);
                }
            }
        }
        if !front.contains(s.last()) {
            assert forall|i: int, j: int| 0 <= i < j < out.len() implies out[i] != out[j] by {
                if j == front.len() {
                    assert(front[i] == out[i]);
                    assert(front.contains(out[i]));
                }
            }
        }
    }
}

proof fn lemma_product_bound(a: int, b: int, m: int, n: int)
    requires
        -m <= a <= m,
        -n <= b <= n,
    ensures
        -(m * n) <= a * b <= m * n,
{
    assert(-(m * n) <= a * b <= m * n) by (nonlinear_arith)
        requires
            -m <= a <= m,
            -n <= b <= n,
    ;
}

proof fn lemma_scaled_bound(p: Vec3, length: Fixed, width: Fixed, conv_factor: Fixed)
    ensures
        -0x4000_0000_0000_0000 <= p.y.raw * width.raw <= 0x4000_0000_0000_0000,
        -0x4000_0000_0000_0000 <= p.z.raw * length.raw <= 0x4000_0000_0000_0000,
        -0x2000_0000_0000_0000_0000_0000 <= p.z.raw * length.raw * width.raw
            <= 0x2000_0000_0000_0000_0000_0000,
        -0x4000_0000_0000_0000_0000_0000 <= weighted_sum(p, length, width)
            <= 0x4000_0000_0000_0000_0000_0000,
        -0x2000_0000_0000_0000_0000_0000_0000_0000 <= conv_factor.raw * weighted_sum(
            p,
            length,
            width,
        ) <= 0x2000_0000_0000_0000_0000_0000_0000_0000,
{
    lemma_product_bound(p.y.raw as int, width.raw as int, 0x8000_0000, 0x8000_0000);
    lemma_product_bound(p.z.raw as int, length.raw as int, 0x8000_0000, 0x8000_0000);
    lemma_product_bound(p.z.raw * length.raw, width.raw as int, 0x4000_0000_0000_0000, 0x8000_0000);
    lemma_product_bound(
        conv_factor.raw as int,
        weighted_sum(p, length, width),
        0x8000_0000,
        0x4000_0000_0000_0000_0000_0000,
    );
}

/// The flat cell index of point `p` in a grid of the given `length` and
/// `width`, where `conv_factor` scales a coordinate down to a cell
/// coordinate.
pub fn cell_index(p: Vec3, length: Fixed, width: Fixed, conv_factor: Fixed) -> (r: u64)
    ensures
        r == spec_cell_index(p, length, width, conv_factor),
{
    let x: i128 = p.x.raw as i128;
    let y: i128 = p.y.raw as i128;
    let z: i128 = p.z.raw as i128;
    let l: i128 = length.raw as i128;
    let w: i128 = width.raw as i128;
    let c: i128 = conv_factor.raw as i128;
    proof {
        lemma_scaled_bound(p, length, width, conv_factor);
    }
    let yw: i128 = y * w;
    let zl: i128 = z * l;
    let zlw: i128 = zl * w;
    let sum: i128 = x * 4294967296 + yw * 65536 + zlw;
    let scaled: i128 = c * sum;
    if scaled <= 0 {
        0
    } else {
        let m: u128 = scaled as u128;
        let q: u128 = m / 18446744073709551616u128;
        q as u64
    }
}

/// Whether `p` lies in the grid cell with whole coordinates `(i, j, k)`, on
/// the edge of that cell that runs along the x axis from its least corner.
/// `cell_size` is the edge length of a cell.
pub open spec fn on_cell_edge(p: Vec3, cell_size: Fixed, i: int, j: int, k: int) -> bool {
    &&& i * cell_size.raw <= p.x.raw < (i + 1) * cell_size.raw
    &&& p.y.raw == j * cell_size.raw
    &&& p.z.raw == k * cell_size.raw
}

/// The row-major position of cell `(i, j, k)` in a grid that is `w` wide and
/// `l` long: x runs fastest, then y, then z.
pub open spec fn row_major(i: int, j: int, k: int, l: int, w: int) -> int {
    i + j * w + k * l * w
}

/// Whether `conv_factor` is exactly the reciprocal of `cell_size`.
pub open spec fn exact_reciprocal(conv_factor: Fixed, cell_size: Fixed) -> bool {
    cell_size.raw > 0 && conv_factor.raw * cell_size.raw == 4294967296
}

/// A box that is a single point occupies one cell: the eight reported
/// indices all equal the index of that point.
pub proof fn lemma_point_box_single_cell(b: AABB, length: Fixed, width: Fixed, conv_factor: Fixed)
    requires
        b.min == b.max,
    ensures
        spec_grid_cells(b, length, width, conv_factor) == Seq::new(
            8,
            |i: int| spec_cell_index(b.min, length, width, conv_factor),
        ),
{
}

/// A conversion factor of zero sends every point to cell 0.
pub proof fn lemma_zero_factor_collapses(p: Vec3, length: Fixed, width: Fixed)
    ensures
        spec_cell_index(p, length, width, Fixed { raw: 0 }) == 0,
{
    assert(0 * weighted_sum(p, length, width) == 0);
}

/// Whether the conversion factor defeats the grid: with a factor of zero
/// every point falls into cell 0.
pub fn degenerate(conv_factor: Fixed) -> (r: bool)
    ensures
        r == (conv_factor.raw == 0),
        r ==> forall|p: Vec3, length: Fixed, width: Fixed| #[trigger]
            spec_cell_index(p, length, width, conv_factor) == 0,
{
    proof {
        if conv_factor.raw == 0 {
            assert forall|p: Vec3, length: Fixed, width: Fixed| #[trigger]
                spec_cell_index(p, length, width, conv_factor) == 0 by {
                lemma_zero_factor_collapses(p, length, width);
            }
        }
    }
    conv_factor.raw == 0
}

/// On a grid of whole width `w` and whole length `l`, with a conversion
/// factor that is exactly the reciprocal of the cell size, a point on the
/// x-edge of cell `(i, j, k)` hashes to the row-major position of that cell
/// (to 0 where that position is negative).
pub proof fn lemma_index_is_row_major(
    p: Vec3,
    length: Fixed,
    width: Fixed,
    conv_factor: Fixed,
    cell_size: Fixed,
    i: int,
    j: int,
    k: int,
    l: int,
    w: int,
)
    requires
        exact_reciprocal(conv_factor, cell_size),
        length.raw == l * 65536,
        width.raw == w * 65536,
        on_cell_edge(p, cell_size, i, j, k),
    ensures
        row_major(i, j, k, l, w) >= 0 ==> spec_cell_index(p, length, width, conv_factor)
            == row_major(i, j, k, l, w),
        row_major(i, j, k, l, w) < 0 ==> spec_cell_index(p, length, width, conv_factor) == 0,
{
    let c = conv_factor.raw as int;
    let s = cell_size.raw as int;
    let x = p.x.raw as int;
    let n = row_major(i, j, k, l, w);
    let f = x - i * s;
    let t = j * w + k * l * w;
    let unit: int = 4294967296;
    let scaled = c * weighted_sum(p, length, width);
    assert(c > 0) by (nonlinear_arith)
        requires
            s > 0,
            c * s == 4294967296,
    ;
    assert(0 <= f < s) by (nonlinear_arith)
        requires
            i * s <= x < (i + 1) * s,
            f == x - i * s,
    ;
    let sjw = s * (j * w);
    let sklw = s * (k * l * w);
    assert((j * s) * (w * 65536) == 65536 * sjw) by (nonlinear_arith)
        requires
            sjw == s * (j * w),
    ;
    assert((k * s) * (l * 65536) == 65536 * (s * (k * l))) by (nonlinear_arith);
    assert((65536 * (s * (k * l))) * (w * 65536) == 4294967296 * sklw) by (nonlinear_arith)
        requires
            sklw == s * (k * l * w),
    ;
    assert(s * t == sjw + sklw) by (nonlinear_arith)
        requires
            t == j * w + k * l * w,
            sjw == s * (j * w),
            sklw == s * (k * l * w),
    ;
    let inner = x + s * t;
    assert(weighted_sum(p, length, width) == 4294967296 * inner);
    assert(c * x == i * 4294967296 + c * f) by (nonlinear_arith)
        requires
            x == i * s + f,
            c * s == 4294967296,
    ;
    assert(c * (s * t) == 4294967296 * t) by (nonlinear_arith)
        requires
            c * s == 4294967296,
    ;
    assert(c * inner == c * x + c * (s * t)) by (nonlinear_arith)
        requires
            inner == x + s * t,
    ;
    assert(c * (4294967296 * inner) == 4294967296 * (c * inner)) by (nonlinear_arith);
    assert(scaled == n * 18446744073709551616 + 4294967296 * (c * f));
    assert(0 <= c * f < unit) by (nonlinear_arith)
        requires
            0 <= f < s,
            c > 0,
            c * s == unit,
    ;
    if n >= 0 {
        lemma_fundamental_div_mod_converse(scaled, 18446744073709551616, n, unit * (c * f));
        lemma_scaled_bound(p, length, width, conv_factor);
    } else {
        assert(scaled < 0);
    }
}

/// Two points on the x-edge of one cell hash to the same index.
pub proof fn lemma_same_cell_same_index(
    p: Vec3,
    q: Vec3,
    length: Fixed,
    width: Fixed,
    conv_factor: Fixed,
    cell_size: Fixed,
    i: int,
    j: int,
    k: int,
    l: int,
    w: int,
)
    requires
        exact_reciprocal(conv_factor, cell_size),
        length.raw == l * 65536,
        width.raw == w * 65536,
        on_cell_edge(p, cell_size, i, j, k),
        on_cell_edge(q, cell_size, i, j, k),
    ensures
        spec_cell_index(p, length, width, conv_factor) == spec_cell_index(
            q,
            length,
            width,
            conv_factor,
        ),
{
    lemma_index_is_row_major(p, length, width, conv_factor, cell_size, i, j, k, l, w);
    lemma_index_is_row_major(q, length, width, conv_factor, cell_size, i, j, k, l, w);
}

/// Row-major positions tell the cells of the grid apart: within the width
/// and the length of the grid, two cells with one position are one cell.
pub proof fn lemma_row_major_injective(
    i1: int,
    j1: int,
    k1: int,
    i2: int,
    j2: int,
    k2: int,
    l: int,
    w: int,
)
    requires
        0 <= i1 < w,
        0 <= i2 < w,
        0 <= j1 < l,
        0 <= j2 < l,
        row_major(i1, j1, k1, l, w) == row_major(i2, j2, k2, l, w),
    ensures
        i1 == i2,
        j1 == j2,
        k1 == k2,
{
    let n = row_major(i1, j1, k1, l, w);
    let r1 = j1 + k1 * l;
    let r2 = j2 + k2 * l;
    assert(n == r1 * w + i1) by (nonlinear_arith)
        requires
            n == i1 + j1 * w + k1 * l * w,
            r1 == j1 + k1 * l,
    ;
    assert(n == r2 * w + i2) by (nonlinear_arith)
        requires
            n == i2 + j2 * w + k2 * l * w,
            r2 == j2 + k2 * l,
    ;
    lemma_fundamental_div_mod_converse(n, w, r1, i1);
    lemma_fundamental_div_mod_converse(n, w, r2, i2);
    lemma_fundamental_div_mod_converse(r1, l, k1, j1);
    lemma_fundamental_div_mod_converse(r1, l, k2, j2);
}

/// Two points on the x-edges of two different cells of the grid hash to
/// different indices.
pub proof fn lemma_distinct_cells_distinct_indices(
    p: Vec3,
    q: Vec3,
    length: Fixed,
    width: Fixed,
    conv_factor: Fixed,
    cell_size: Fixed,
    cell_p: (int, int, int),
    cell_q: (int, int, int),
    l: int,
    w: int,
)
    requires
        exact_reciprocal(conv_factor, cell_size),
        length.raw == l * 65536,
        width.raw == w * 65536,
        on_cell_edge(p, cell_size, cell_p.0, cell_p.1, cell_p.2),
        on_cell_edge(q, cell_size, cell_q.0, cell_q.1, cell_q.2),
        0 <= cell_p.0 < w,
        0 <= cell_q.0 < w,
        0 <= cell_p.1 < l,
        0 <= cell_q.1 < l,
        0 <= cell_p.2,
        0 <= cell_q.2,
        cell_p != cell_q,
    ensures
        spec_cell_index(p, length, width, conv_factor) != spec_cell_index(
            q,
            length,
            width,
            conv_factor,
        ),
{
    lemma_index_is_row_major(
        p,
        length,
        width,
        conv_factor,
        cell_size,
        cell_p.0,
        cell_p.1,
        cell_p.2,
        l,
        w,
    );
    lemma_index_is_row_major(
        q,
        length,
        width,
        conv_factor,
        cell_size,
        cell_q.0,
        cell_q.1,
        cell_q.2,
        l,
        w,
    );
    let np = row_major(cell_p.0, cell_p.1, cell_p.2, l, w);
    let nq = row_major(cell_q.0, cell_q.1, cell_q.2, l, w);
    assert(np >= 0 && nq >= 0) by (nonlinear_arith)
        requires
            np == cell_p.0 + cell_p.1 * w + cell_p.2 * l * w,
            nq == cell_q.0 + cell_q.1 * w + cell_q.2 * l * w,
            0 <= cell_p.0,
            0 <= cell_q.0,
            0 <= cell_p.1,
            0 <= cell_q.1,
            0 <= cell_p.2,
            0 <= cell_q.2,
            0 < l,
            0 < w,
    ;
    if np == nq {
        lemma_row_major_injective(
            cell_p.0,
            cell_p.1,
            cell_p.2,
            cell_q.0,
            cell_q.1,
            cell_q.2,
            l,
            w,
        );
    }
}

} // verus!
