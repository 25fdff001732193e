//! The H-tree parameter holder and the cursor that yields its segments.
//!
//! `HTree` holds the maximum recursion order; `HTreeIterator` advances a
//! linear position counter and decodes each position independently into a
//! `Segment`. Every advance is a pure function of the order and the counter
//! alone, so any number of cursors over equal orders produce identical,
//! order-stable output.

use vstd::prelude::*;
use vstd::arithmetic::power2::*;
use vstd::arithmetic::div_mod::*;
use crate::grid::Segment;
use crate::grid::nth_segment;
use crate::grid::point_at;
use crate::grid::segment_spec;
use crate::grid::lemma_grid_cells;
use crate::grid::lemma_point_in_grid;
use crate::level::offset_of;
use crate::level::produces;
use crate::level::total_segments;
use crate::level::lemma_count_law;
use crate::level::pow2_u64;
use crate::level::position_level;

verus! {

/// The largest accepted recursion order: the position counter of an order-62
/// tree already runs up to `2^63 - 1`, the edge of its 64-bit width.
pub const MAX_ORDER: u64 = 62;

/// An H-tree fractal of a fixed maximum recursion order.
#[derive(Clone, Copy, Debug)]
pub struct HTree {
    order: u64,
}

/// A cursor over the segments of an `HTree`, advanced with [`HTreeIterator::next`].
pub struct HTreeIterator {
    h_tree: HTree,
    index: u64,
}

impl HTree {
    /// The maximum recursion order of this tree.
    pub closed spec fn order(self) -> u64 {
        self.order
    }

    #[verifier::type_invariant]
    spec fn wf(self) -> bool {
        self.order <= MAX_ORDER
    }

    /// Returns an H-tree of the given order.
    pub fn new(order: usize) -> (t: HTree)
        requires
            order <= MAX_ORDER,
        ensures
            t.order() == order,
    {
        HTree { order: order as u64 }
    }

    /// Returns an H-tree of the given order, or `None` where the order is too
    /// large for the 64-bit position counter.
    pub fn try_new(order: usize) -> (r: Option<HTree>)
        ensures
            order <= MAX_ORDER ==> (r matches Some(t) && t.order() == order),
            order > MAX_ORDER ==> r is None,
    {
        if order <= MAX_ORDER as usize {
            Some(HTree::new(order))
        } else {
            None
        }
    }

    /// Returns a fresh cursor over the segments of this tree, starting at the
    /// first position.
    pub fn into_iter(self) -> (it: HTreeIterator)
        ensures
            it.order() == self.order(),
            it.index() == 0,
    {
        proof {
            use_type_invariant(&self);
        }
        HTreeIterator { h_tree: self, index: 0 }
    }
}

impl HTreeIterator {
    /// The maximum recursion order of the tree walked by this cursor.
    pub closed spec fn order(self) -> u64 {
        self.h_tree.order
    }

    /// How many segments this cursor has yielded so far.
    pub closed spec fn index(self) -> u64 {
        self.index
    }

    /// Advances the position counter by one — on every call — and yields the
    /// segment at the new position, or `None` once the position has run past
    /// all `2^(order+1) - 1` segments. The end of the sequence is a signal,
    /// not an error: an exhausted cursor keeps counting and keeps returning
    /// `None`.
    pub fn next(&mut self) -> (r: Option<Segment>)
        requires
            old(self).index() < u64::MAX,
        ensures
            final(self).order() == old(self).order(),
            final(self).index() == old(self).index() + 1,
            (r is Some) <==> (old(self).index() as nat) < total_segments(old(self).order() as nat),
            (match r {
                Some(s) => Some(s@) == nth_segment(old(self).order() as nat, old(self).index() as nat),
                None => nth_segment(old(self).order() as nat, old(self).index() as nat) is None,
            }),
            (match r {
                Some(s) => s.x_start < s.h && s.y_start < s.v && s.x_end < s.h && s.y_end < s.v,
                None => true,
            }),
    {
        proof {
            use_type_invariant(&self.h_tree);
        }
        let ghost o = self.h_tree.order as nat;
        self.index = self.index + 1;
        let position = self.index;
        let level = position_level(position);
        let ghost p = position as nat;
        let ghost l = level as nat;
        proof {
            // The level exceeds the order exactly when the position has run
            // past the last of the tree's 2^(order+1) - 1 segments.
            lemma_count_law(o);
            assert(produces(o, p) <==> p <= total_segments(o));
        }
        if level > self.h_tree.order {
            return None;
        }
        proof {
            lemma_pow2_adds(l, 1);
            lemma2_to64();
            lemma2_to64_rest();
            assert(pow2(l + 1) == 2 * pow2(l));
            if l + 1 < 64 {
                lemma_pow2_strictly_increases(l + 1, 64);
            }
        }
        let offset = position - pow2_u64(level);
        assert(offset == offset_of(p));
        assert(offset < pow2(l));
        let num_vertical = pow2_u64((level + 1) / 2);
        let num_horizontal = pow2_u64(level / 2 + 1);
        proof {
            lemma_grid_cells(l);
            lemma_pow2_pos((l + 1) / 2);
            lemma_pow2_pos(l / 2 + 1);
        }
        let num_cells = num_vertical * num_horizontal;
        // Self-consistency guard on the index arithmetic: a segment's two
        // cells always fit inside its level's grid.
        assert(num_cells >= 2 * offset);
        let cell = 2 * offset;
        let ghost c = cell as nat;
        proof {
            lemma_point_in_grid(l, c);
            lemma_point_in_grid(l, c + 1);
        }
        let num_x_start: u64;
        let num_y_start: u64;
        let num_x_end: u64;
        let num_y_end: u64;
        if level % 2 == 1 {
            // Odd level: vertical bars, the grid is walked column-major.
            proof {
                lemma_quotient_of_remainderless(c, num_vertical as nat);
                lemma_quotient_of_remainderless(c + 1, num_vertical as nat);
            }
            num_y_start = cell % num_vertical;
            num_x_start = (cell - num_y_start) / num_vertical;
            num_y_end = (cell + 1) % num_vertical;
            num_x_end = ((cell + 1) - num_y_end) / num_vertical;
        } else {
            // Even level: horizontal bars, the grid is walked row-major.
            proof {
                lemma_quotient_of_remainderless(c, num_horizontal as nat);
                lemma_quotient_of_remainderless(c + 1, num_horizontal as nat);
            }
            num_x_start = cell % num_horizontal;
            num_y_start = (cell - num_x_start) / num_horizontal;
            num_x_end = (cell + 1) % num_horizontal;
            num_y_end = ((cell + 1) - num_x_end) / num_horizontal;
        }
        let s = Segment {
            x_start: num_x_start,
            y_start: num_y_start,
            x_end: num_x_end,
            y_end: num_y_end,
            v: num_vertical,
            h: num_horizontal,
        };
        proof {
            assert((s.x_start as nat, s.y_start as nat) == point_at(l, c));
            assert((s.x_end as nat, s.y_end as nat) == point_at(l, c + 1));
            assert(s@ == segment_spec(p));
        }
        Some(s)
    }
}

/// Subtracting from `x` its remainder by `n` and dividing by `n` is plain
/// division: `(x - x % n) / n == x / n`.
proof fn lemma_quotient_of_remainderless(x: nat, n: nat)
    requires
        n > 0,
    ensures
        x % n <= x,
        ((x - x % n) as nat) / n == x / n,
{
    lemma_fundamental_div_mod(x as int, n as int);
    lemma_mod_division_less_than_divisor(x as int, n as int);
    vstd::arithmetic::mul::lemma_mul_is_commutative(n as int, x as int / n as int);
    assert(x - x % n == n * (x / n));
    lemma_div_multiples_vanish(x as int / n as int, n as int);
}

/// Determinism / restartability law: what a cursor is about to yield depends
/// on its order and its position alone, never on how the cursor was obtained,
/// so independently constructed cursors over equal orders produce
/// element-wise identical sequences.
pub proof fn lemma_deterministic(a: HTreeIterator, b: HTreeIterator)
    requires
        a.order() == b.order(),
        a.index() == b.index(),
    ensures
        nth_segment(a.order() as nat, a.index() as nat) == nth_segment(
            b.order() as nat,
            b.index() as nat,
        ),
{
}

} // verus!
