//! Grid mapping: from a recursion level and a within-level offset to the two
//! endpoints of a segment, as exact grid data.
//!
//! Level `l` partitions the unit square into `v_count(l)` vertical and
//! `h_count(l)` horizontal strips. A segment occupies two adjacent cells of
//! that grid, walked column-major on odd levels (vertical bars) and row-major
//! on even levels (horizontal bars). A grid coordinate `c` out of a partition
//! count `N` stands for the normalized coordinate `(c + 1/2) / N`; the
//! y-coordinate is further compressed by the aspect factor `1/sqrt(2)`, which
//! consumers apply in floating point.

use vstd::prelude::*;
use vstd::arithmetic::power2::*;
use vstd::arithmetic::div_mod::*;
use crate::level::level_of;
use crate::level::offset_of;
use crate::level::produces;
use crate::level::total_segments;
use crate::level::lemma_level_bounds;

verus! {

/// One line of the H-tree, as exact grid data. The normalized endpoints are
/// `((x + 1/2) / h, (y + 1/2) / v * 1/sqrt(2))` for each of the two grid
/// points `(x_start, y_start)` and `(x_end, y_end)`.
#[derive(Clone, Copy, Debug, PartialEq, Eq, Structural)]
pub struct Segment {
    /// Grid x-coordinate of the first endpoint.
    pub x_start: u64,
    /// Grid y-coordinate of the first endpoint.
    pub y_start: u64,
    /// Grid x-coordinate of the second endpoint.
    pub x_end: u64,
    /// Grid y-coordinate of the second endpoint.
    pub y_end: u64,
    /// Number of vertical partitions of the segment's level.
    pub v: u64,
    /// Number of horizontal partitions of the segment's level.
    pub h: u64,
}

impl View for Segment {
    type V = ((nat, nat), (nat, nat), (nat, nat));

    open spec fn view(&self) -> ((nat, nat), (nat, nat), (nat, nat)) {
        (
            (self.x_start as nat, self.y_start as nat),
            (self.x_end as nat, self.y_end as nat),
            (self.v as nat, self.h as nat),
        )
    }
}

/// Number of vertical grid partitions active at level `l`.
pub open spec fn v_count(l: nat) -> nat {
    pow2((l + 1) / 2)
}

/// Number of horizontal grid partitions active at level `l`.
pub open spec fn h_count(l: nat) -> nat {
    pow2(l / 2 + 1)
}

/// The grid point `(x, y)` standing at cell boundary `c` of level `l`: odd
/// levels are walked column-major, even levels row-major.
pub open spec fn point_at(l: nat, c: nat) -> (nat, nat) {
    if l % 2 == 1 {
        (c / v_count(l), c % v_count(l))
    } else {
        (c % h_count(l), c / h_count(l))
    }
}

/// The segment decoded from position `pos`, as
/// `(start point, end point, (v, h) partition counts)`: the two endpoints sit
/// at cell boundaries `2 * offset` and `2 * offset + 1` of the position's
/// level.
pub open spec fn segment_spec(pos: nat) -> ((nat, nat), (nat, nat), (nat, nat))
    recommends
        pos >= 1,
{
    let l = level_of(pos);
    let c = 2 * offset_of(pos);
    (point_at(l, c), point_at(l, c + 1), (v_count(l), h_count(l)))
}

/// The `n`-th advance (0-based) of a cursor over an H-tree of order `order`:
/// a segment for the first `total_segments(order)` advances, then nothing.
pub open spec fn nth_segment(order: nat, n: nat) -> Option<((nat, nat), (nat, nat), (nat, nat))> {
    if n < total_segments(order) {
        Some(segment_spec(n + 1))
    } else {
        None
    }
}

/// The whole output of an H-tree of order `order`, as a sequence.
pub open spec fn segments_of(order: nat) -> Seq<((nat, nat), (nat, nat), (nat, nat))> {
    Seq::new(total_segments(order), |i: int| segment_spec((i + 1) as nat))
}

/// Count law, sequence form: a cursor over an H-tree of order `order` yields
/// the `2^(order+1) - 1` segments of `segments_of(order)`, in order, and
/// signals the end of the sequence on every advance after them.
pub proof fn lemma_cursor_yields_sequence(order: nat)
    ensures
        segments_of(order).len() == pow2(order + 1) - 1,
        forall|n: nat|
            n < segments_of(order).len() ==> #[trigger] nth_segment(order, n) == Some(
                segments_of(order)[n as int],
            ),
        forall|n: nat| n >= segments_of(order).len() ==> #[trigger] nth_segment(order, n) is None,
{
    lemma_pow2_pos(order + 1);
}

/// The grid of level `l` has exactly `2^(l+1)` cells.
pub proof fn lemma_grid_cells(l: nat)
    ensures
        v_count(l) * h_count(l) == pow2(l + 1),
{
    let q = l / 2;
    let r = l % 2;
    lemma_fundamental_div_mod(l as int, 2);
    lemma_mod_division_less_than_divisor(l as int, 2);
    assert(l == 2 * q + r);
    if r == 0 {
        lemma_fundamental_div_mod_converse(l as int + 1, 2, q as int, 1);
        assert((l + 1) / 2 == q);
    } else {
        lemma_fundamental_div_mod_converse(l as int + 1, 2, q as int + 1, 0);
        assert((l + 1) / 2 == q + 1);
    }
    assert((l + 1) / 2 + (l / 2 + 1) == l + 1);
    lemma_pow2_adds((l + 1) / 2, l / 2 + 1);
}

/// A cell boundary inside the grid maps to a point strictly inside the grid.
pub proof fn lemma_point_in_grid(l: nat, c: nat)
    requires
        c < v_count(l) * h_count(l),
    ensures
        point_at(l, c).0 < h_count(l),
        point_at(l, c).1 < v_count(l),
{
    lemma_pow2_pos((l + 1) / 2);
    lemma_pow2_pos(l / 2 + 1);
    if l % 2 == 1 {
        lemma_mod_division_less_than_divisor(c as int, v_count(l) as int);
        lemma_multiply_divide_lt(c as int, v_count(l) as int, h_count(l) as int);
    } else {
        lemma_mod_division_less_than_divisor(c as int, h_count(l) as int);
        assert(c < h_count(l) * v_count(l)) by {
            vstd::arithmetic::mul::lemma_mul_is_commutative(v_count(l) as int, h_count(l) as int);
        };
        lemma_multiply_divide_lt(c as int, h_count(l) as int, v_count(l) as int);
    }
}

/// Bounding-box law: every produced segment's grid coordinates lie strictly
/// inside their level's grid, so each normalized coordinate `(c + 1/2) / N`
/// lies strictly between 0 and 1; after the `1/sqrt(2)` vertical scale the
/// segment lies inside the rectangle [0, 1] x [0, 1/sqrt(2)].
pub proof fn lemma_bounding_box(o: nat, p: nat)
    requires
        produces(o, p),
    ensures
        point_at(level_of(p), 2 * offset_of(p)).0 < h_count(level_of(p)),
        point_at(level_of(p), 2 * offset_of(p)).1 < v_count(level_of(p)),
        point_at(level_of(p), 2 * offset_of(p) + 1).0 < h_count(level_of(p)),
        point_at(level_of(p), 2 * offset_of(p) + 1).1 < v_count(level_of(p)),
{
    let l = level_of(p);
    lemma_level_bounds(p);
    lemma_pow2_adds(l, 1);
    lemma2_to64();
    assert(pow2(l + 1) == 2 * pow2(l));
    assert(offset_of(p) < pow2(l));
    lemma_grid_cells(l);
    assert(2 * offset_of(p) + 1 < v_count(l) * h_count(l));
    lemma_point_in_grid(l, 2 * offset_of(p));
    lemma_point_in_grid(l, 2 * offset_of(p) + 1);
}

} // verus!
