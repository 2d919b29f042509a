//! Field positions and the distance between two of them, in whole numbers.
//!
//! A coordinate counts millionths of the field's extent, so the field itself
//! spans `0 ..= FIELD_ONE` on both axes. Distances are in the same unit and
//! are rounded down to a whole number of units.

use vstd::prelude::*;

verus! {

/// A position on the field: `(x, y)`, each in millionths of the field's extent.
pub type Pos = (i32, i32);

/// The coordinate that stands for the full extent of the field.
pub const FIELD_ONE: i32 = 1_000_000;

/// Both coordinates of the position that means "not observed yet".
pub const POS_UNSEEN: i32 = 99_000_000;

/// The position that means "not observed yet".
pub open spec fn spec_unseen() -> Pos {
    (POS_UNSEEN, POS_UNSEEN)
}

/// Whether `pos` is the position that means "not observed yet".
pub open spec fn spec_is_unseen(pos: Pos) -> bool {
    pos == spec_unseen()
}

/// `r` is the integer square root of `n`: the largest number whose square is at most `n`.
pub open spec fn is_sqrt_floor(n: nat, r: nat) -> bool {
    r * r <= n < (r + 1) * (r + 1)
}

/// The integer square root of `n`.
pub open spec fn sqrt_floor(n: nat) -> nat {
    choose|r: nat| is_sqrt_floor(n, r)
}

/// The squared Euclidean distance between two positions.
pub open spec fn spec_distance_squared(from: Pos, to: Pos) -> nat {
    let dx = to.0 - from.0;
    let dy = to.1 - from.1;
    (dx * dx + dy * dy) as nat
}

/// The Euclidean distance between two positions, rounded down.
pub open spec fn spec_distance(from: Pos, to: Pos) -> nat {
    sqrt_floor(spec_distance_squared(from, to))
}

/// Squaring keeps the order of natural numbers.
pub proof fn lemma_square_monotonic(a: nat, b: nat)
    requires
        a <= b,
    ensures
        a * a <= b * b,
{
    assert(a * a <= b * b) by (nonlinear_arith)
        requires
            a <= b,
    ;
}

/// A number has only one integer square root.
pub proof fn lemma_sqrt_floor_unique(n: nat, r: nat)
    requires
        is_sqrt_floor(n, r),
    ensures
        sqrt_floor(n) == r,
{
    let c = sqrt_floor(n);
    assert(is_sqrt_floor(n, c));
    if c < r {
        lemma_square_monotonic(c + 1, r);
    } else if r < c {
        lemma_square_monotonic(r + 1, c);
    }
}

/// The integer square root of zero is zero.
pub proof fn lemma_sqrt_floor_of_zero()
    ensures
        sqrt_floor(0) == 0,
        is_sqrt_floor(0, 0),
{
    assert(0nat * 0nat <= 0nat < (0nat + 1) * (0nat + 1)) by (nonlinear_arith);
    lemma_sqrt_floor_unique(0, 0);
}

/// The distance between two positions fits in 34 bits.
pub proof fn law_distance_bound(from: Pos, to: Pos)
    ensures
        spec_distance(from, to) < 0x2_0000_0000,
{
    let n = spec_distance_squared(from, to);
    let dx = to.0 - from.0;
    let dy = to.1 - from.1;
    assert(dx * dx <= 0xffff_ffff * 0xffff_ffff) by (nonlinear_arith)
        requires
            -0xffff_ffff <= dx <= 0xffff_ffff,
    ;
    assert(dy * dy <= 0xffff_ffff * 0xffff_ffff) by (nonlinear_arith)
        requires
            -0xffff_ffff <= dy <= 0xffff_ffff,
    ;
    assert(0 <= dx * dx) by (nonlinear_arith);
    assert(0 <= dy * dy) by (nonlinear_arith);
    law_sqrt_floor_exists(n);
    let r = sqrt_floor(n);
    if r >= 0x2_0000_0000 {
        lemma_square_monotonic(0x2_0000_0000, r);
    }
}

/// Every number has an integer square root.
pub proof fn law_sqrt_floor_exists(n: nat)
    ensures
        is_sqrt_floor(n, sqrt_floor(n)),
    decreases n,
{
    if n == 0 {
        lemma_sqrt_floor_of_zero();
    } else {
        law_sqrt_floor_exists((n - 1) as nat);
        let r = sqrt_floor((n - 1) as nat);
        if (r + 1) * (r + 1) <= n {
            assert((r + 2) * (r + 2) > (r + 1) * (r + 1)) by (nonlinear_arith);
            assert(n <= (r + 1) * (r + 1));
            assert(is_sqrt_floor(n, r + 1));
        } else {
            assert(is_sqrt_floor(n, r));
        }
    }
}

/// Whether `pos` is the position that means "not observed yet".
pub fn is_unseen(pos: Pos) -> (b: bool)
    ensures
        b == spec_is_unseen(pos),
{
    pos.0 == POS_UNSEEN && pos.1 == POS_UNSEEN
}

/// The integer square root of `n`.
pub fn isqrt(n: u128) -> (r: u64)
    ensures
        r == sqrt_floor(n as nat),
{
    let mut lo: u128 = 0;
    let mut hi: u128 = 0x1_0000_0000_0000_0000;
    assert(hi * hi > n) by (nonlinear_arith)
        requires
            hi == 0x1_0000_0000_0000_0000,
            n <= u128::MAX,
    ;
    while hi - lo > 1
        invariant
            lo < hi <= 0x1_0000_0000_0000_0000,
            lo * lo <= n < hi * hi,
        decreases hi - lo,
    {
        let mid: u128 = lo + (hi - lo) / 2;
        assert(mid * mid <= 0xffff_ffff_ffff_ffff * 0xffff_ffff_ffff_ffff) by (nonlinear_arith)
            requires
                0 <= mid <= 0xffff_ffff_ffff_ffff,
        ;
        if mid * mid <= n {
            lo = mid;
        } else {
            hi = mid;
        }
    }
    proof {
        assert(hi == lo + 1);
        assert(is_sqrt_floor(n as nat, lo as nat));
        lemma_sqrt_floor_unique(n as nat, lo as nat);
    }
    lo as u64
}

/// The Euclidean distance between two positions, rounded down.
pub fn distance(from: Pos, to: Pos) -> (d: u64)
    ensures
        d == spec_distance(from, to),
{
    let dx: i64 = to.0 as i64 - from.0 as i64;
    let dy: i64 = to.1 as i64 - from.1 as i64;
    let ax: u128 = if dx < 0 { (-dx) as u128 } else { dx as u128 };
    let ay: u128 = if dy < 0 { (-dy) as u128 } else { dy as u128 };
    assert(ax * ax <= 0xffff_ffff * 0xffff_ffff) by (nonlinear_arith)
        requires
            0 <= ax <= 0xffff_ffff,
    ;
    assert(ay * ay <= 0xffff_ffff * 0xffff_ffff) by (nonlinear_arith)
        requires
            0 <= ay <= 0xffff_ffff,
    ;
    assert(ax * ax == dx * dx) by (nonlinear_arith)
        requires
            ax == dx || ax == -dx,
    ;
    assert(ay * ay == dy * dy) by (nonlinear_arith)
        requires
            ay == dy || ay == -dy,
    ;
    isqrt(ax * ax + ay * ay)
}

} // verus!
