//! Level decoding: from the linear position counter to a recursion level and
//! a within-level offset.
//!
//! Position `p >= 1` belongs to recursion level `floor(log2(p))`; the offset
//! of the position inside its level is `p - 2^level`. An H-tree of order `o`
//! uses exactly the positions `1 ..= 2^(o+1) - 1`.

use vstd::prelude::*;
use vstd::arithmetic::power2::*;
use vstd::arithmetic::div_mod::*;

verus! {

/// The recursion level of position `pos`: the exponent of the highest power
/// of two not exceeding `pos`, i.e. `floor(log2(pos))`.
pub open spec fn level_of(pos: nat) -> nat
    recommends
        pos >= 1,
    decreases pos,
{
    if pos <= 1 {
        0
    } else {
        level_of(pos / 2) + 1
    }
}

/// The 0-based index of position `pos` within its recursion level.
pub open spec fn offset_of(pos: nat) -> nat
    recommends
        pos >= 1,
{
    (pos - pow2(level_of(pos))) as nat
}

/// How many segments an H-tree of order `order` consists of.
pub open spec fn total_segments(order: nat) -> nat {
    (pow2(order + 1) - 1) as nat
}

/// Whether position `pos` carries a segment of an H-tree of order `order`:
/// decoding starts at position 1 and stops once the level exceeds the order.
pub open spec fn produces(order: nat, pos: nat) -> bool {
    1 <= pos && level_of(pos) <= order
}

/// The defining property of `level_of`: position `pos` lies between
/// consecutive powers of two with exponent `level_of(pos)`.
pub proof fn lemma_level_bounds(pos: nat)
    requires
        pos >= 1,
    ensures
        pow2(level_of(pos)) <= pos < pow2(level_of(pos) + 1),
    decreases pos,
{
    lemma2_to64();
    if pos <= 1 {
        assert(level_of(pos) == 0);
    } else {
        let half = pos / 2;
        lemma_level_bounds(half);
        let l = level_of(half);
        assert(level_of(pos) == l + 1);
        lemma_fundamental_div_mod(pos as int, 2);
        lemma_mod_division_less_than_divisor(pos as int, 2);
        lemma_pow2_adds(l, 1);
        lemma_pow2_adds(l + 1, 1);
        assert(pow2(l + 1) == 2 * pow2(l));
        assert(pow2(l + 2) == 2 * pow2(l + 1));
    }
}

/// `level_of` is the only exponent whose powers of two bracket `pos`.
pub proof fn lemma_level_of_range(k: nat, pos: nat)
    requires
        pow2(k) <= pos < pow2(k + 1),
    ensures
        level_of(pos) == k,
{
    lemma_pow2_pos(k);
    lemma_level_bounds(pos);
    let l = level_of(pos);
    if l < k {
        if l + 1 < k {
            lemma_pow2_strictly_increases(l + 1, k);
        }
        assert(pos < pow2(l + 1) && pow2(l + 1) <= pow2(k));
        assert(false);
    }
    if l > k {
        if k + 1 < l {
            lemma_pow2_strictly_increases(k + 1, l);
        }
        assert(pos < pow2(k + 1) && pow2(k + 1) <= pow2(l));
        assert(false);
    }
}

/// Count law: an H-tree of order `o` assigns a segment to exactly the
/// positions `1 ..= 2^(o+1) - 1`, so its sequence has `2^(o+1) - 1` elements
/// and then ends.
pub proof fn lemma_count_law(o: nat)
    ensures
        total_segments(o) == pow2(o + 1) - 1,
        forall|p: nat| #[trigger] produces(o, p) <==> 1 <= p <= total_segments(o),
{
    lemma_pow2_pos(o + 1);
    assert forall|p: nat| #[trigger] produces(o, p) <==> 1 <= p <= total_segments(o) by {
        if p >= 1 {
            lemma_level_bounds(p);
            let l = level_of(p);
            if l <= o {
                if l + 1 < o + 1 {
                    lemma_pow2_strictly_increases(l + 1, o + 1);
                }
                assert(p < pow2(o + 1));
            }
            if p <= total_segments(o) {
                if l > o {
                    lemma_pow2_strictly_increases(o + 1, l);
                    assert(pow2(o + 1) <= pow2(l) <= p);
                    assert(false);
                }
            }
        }
    };
}

/// Level-size law: for every level `k <= o`, the segments of level `k` are
/// exactly those at the `2^k` consecutive positions `2^k ..= 2^(k+1) - 1`.
pub proof fn lemma_level_size_law(o: nat, k: nat)
    requires
        k <= o,
    ensures
        pow2(k + 1) - pow2(k) == pow2(k),
        forall|p: nat|
            (#[trigger] produces(o, p) && level_of(p) == k) <==> (pow2(k) <= p < pow2(k + 1)),
{
    lemma_pow2_adds(k, 1);
    lemma2_to64();
    assert(pow2(k + 1) == 2 * pow2(k));
    assert forall|p: nat|
        (#[trigger] produces(o, p) && level_of(p) == k) <==> (pow2(k) <= p < pow2(k + 1)) by {
        if pow2(k) <= p < pow2(k + 1) {
            lemma_pow2_pos(k);
            lemma_level_of_range(k, p);
        }
        if p >= 1 && level_of(p) == k {
            lemma_level_bounds(p);
        }
    };
}

/// Computes `2^e` for exponents that fit a 64-bit result.
pub fn pow2_u64(e: u64) -> (r: u64)
    requires
        e <= 63,
    ensures
        r == pow2(e as nat),
{
    proof {
        lemma2_to64();
        lemma2_to64_rest();
    }
    let mut r: u64 = 1;
    let mut i: u64 = 0;
    while i < e
        invariant
            i <= e <= 63,
            r == pow2(i as nat),
        decreases e - i,
    {
        proof {
            lemma_pow2_adds(i as nat, 1);
            lemma2_to64();
            if i as nat + 1 < 64 {
                lemma_pow2_strictly_increases(i as nat + 1, 64);
            }
            lemma2_to64_rest();
        }
        r = r * 2;
        i = i + 1;
    }
    r
}

/// Computes the recursion level of a position: `floor(log2(pos))`.
pub fn position_level(pos: u64) -> (lvl: u64)
    requires
        pos >= 1,
    ensures
        lvl == level_of(pos as nat),
        lvl <= 63,
        pow2(lvl as nat) <= pos < pow2(lvl as nat + 1),
{
    proof {
        lemma_level_bounds(pos as nat);
        lemma2_to64();
        lemma2_to64_rest();
        if level_of(pos as nat) >= 64 {
            if level_of(pos as nat) > 64 {
                lemma_pow2_strictly_increases(64, level_of(pos as nat));
            }
            assert(pow2(64) <= pow2(level_of(pos as nat)) <= pos as nat);
            assert(false);
        }
    }
    let mut p = pos;
    let mut lvl: u64 = 0;
    while p >= 2
        invariant
            p >= 1,
            level_of(pos as nat) == lvl + level_of(p as nat),
            lvl + level_of(p as nat) <= 63,
        decreases p,
    {
        p = p / 2;
        lvl = lvl + 1;
    }
    proof {
        lemma_level_bounds(pos as nat);
    }
    lvl
}

} // verus!
