//! Fixed-point plane geometry. Lengths are in thousandths of a world unit,
//! speeds in thousandths of a unit per second, durations in milliseconds.

use vstd::prelude::*;

verus! {

/// Thousandths in one world unit.
pub const UNIT: i64 = 1000;

/// Largest magnitude of a coordinate: about a billion units.
pub const MAX_POS: i64 = 0x100_0000_0000;

/// A point, or a vector, of the ground plane.
#[derive(Debug, Clone, Copy, PartialEq, Eq, Structural)]
pub struct Point {
    pub x: i64,
    pub y: i64,
}

impl Point {
    /// Whether both coordinates are within `MAX_POS` of zero.
    pub open spec fn bounded(self) -> bool {
        -MAX_POS <= self.x <= MAX_POS && -MAX_POS <= self.y <= MAX_POS
    }

    /// The squared length of this vector.
    pub open spec fn norm2(self) -> int {
        self.x * self.x + self.y * self.y
    }
}

/// Whether `r` is the square root of `n`, rounded down.
pub open spec fn is_root(n: nat, r: nat) -> bool {
    r * r <= n < (r + 1) * (r + 1)
}

/// The square root of `n`, rounded down.
pub open spec fn root(n: nat) -> nat {
    choose|r: nat| is_root(n, r)
}

/// A number has one rounded-down square root.
pub proof fn lemma_root_unique(n: nat, a: nat, b: nat)
    requires
        is_root(n, a),
        is_root(n, b),
    ensures
        a == b,
{
    if a < b {
        assert((a + 1) * (a + 1) <= b * b) by (nonlinear_arith)
            requires
                a + 1 <= b,
        ;
    } else if b < a {
        assert((b + 1) * (b + 1) <= a * a) by (nonlinear_arith)
            requires
                b + 1 <= a,
        ;
    }
}

/// The square root of `n`, rounded down.
pub fn isqrt(n: u128) -> (r: u64)
    ensures
        r as nat == root(n as nat),
        is_root(n as nat, r as nat),
{
    let mut lo: u128 = 0;
    let mut hi: u128 = 0x1_0000_0000_0000_0000;
    assert(hi * hi > n) by (nonlinear_arith)
        requires
            hi == 0x1_0000_0000_0000_0000u128,
            n <= 0xffff_ffff_ffff_ffff_ffff_ffff_ffff_ffffu128,
    ;
    while hi - lo > 1
        invariant
            lo < hi <= 0x1_0000_0000_0000_0000,
            lo * lo <= n,
            n < hi * hi,
        decreases hi - lo,
    {
        let mid = lo + (hi - lo) / 2;
        assert(mid * mid <= 0xffff_ffff_ffff_ffff_ffff_ffff_ffff_ffffu128) by (nonlinear_arith)
            requires
                mid < 0x1_0000_0000_0000_0000u128,
        ;
        if mid * mid <= n {
            lo = mid;
        } else {
            hi = mid;
        }
    }
    proof {
        assert(is_root(n as nat, lo as nat));
        lemma_root_unique(n as nat, lo as nat, root(n as nat));
    }
    lo as u64
}

/// `a / b` rounded toward zero.
pub open spec fn trunc_div(a: int, b: int) -> int {
    if a >= 0 {
        a / b
    } else {
        -((-a) / b)
    }
}

/// `a / b` rounded toward zero, for a positive `b`.
pub fn div_trunc(a: i128, b: i128) -> (r: i128)
    requires
        b > 0,
        a > i128::MIN,
    ensures
        r == trunc_div(a as int, b as int),
{
    if a >= 0 {
        a / b
    } else {
        -((-a) / b)
    }
}

/// A component times `num`, divided by `den` rounding toward zero, is at
/// most `num` in magnitude when the component is at most `den`.
pub proof fn lemma_scaled_bound(a: int, num: int, den: int)
    requires
        den > 0,
        num >= 0,
        -den <= a <= den,
    ensures
        -num <= trunc_div(a * num, den) <= num,
{
    if a >= 0 {
        assert(a * num <= den * num) by (nonlinear_arith)
            requires
                0 <= a <= den,
                num >= 0,
        ;
        assert(a * num >= 0) by (nonlinear_arith)
            requires
                a >= 0,
                num >= 0,
        ;
        vstd::arithmetic::div_mod::lemma_div_is_ordered(a * num, den * num, den);
        vstd::arithmetic::div_mod::lemma_div_multiples_vanish(num, den);
        assert(den * num == num * den) by (nonlinear_arith);
        vstd::arithmetic::div_mod::lemma_div_pos_is_pos(a * num, den);
    } else {
        assert(-(a * num) <= den * num) by (nonlinear_arith)
            requires
                -den <= a < 0,
                num >= 0,
        ;
        assert(-(a * num) >= 0) by (nonlinear_arith)
            requires
                a < 0,
                num >= 0,
        ;
        vstd::arithmetic::div_mod::lemma_div_is_ordered(-(a * num), den * num, den);
        vstd::arithmetic::div_mod::lemma_div_multiples_vanish(num, den);
        assert(den * num == num * den) by (nonlinear_arith);
        vstd::arithmetic::div_mod::lemma_div_pos_is_pos(-(a * num), den);
    }
}

/// Each component of a vector is at most the rounded-down length.
pub proof fn lemma_component_below_length(a: int, b: int, s: nat)
    requires
        is_root((a * a + b * b) as nat, s),
    ensures
        -s <= a <= s,
{
    assert(b * b >= 0) by (nonlinear_arith);
    if a > s {
        assert(a * a >= (s + 1) * (s + 1)) by (nonlinear_arith)
            requires
                a >= s + 1,
                s >= 0,
        ;
    } else if a < -s {
        assert(a * a >= (s + 1) * (s + 1)) by (nonlinear_arith)
            requires
                -a >= s + 1,
                s >= 0,
        ;
    }
}

} // verus!
