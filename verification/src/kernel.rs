//! Diffusion kernels as declarative tables of weighted offsets.
//!
//! A kernel is a list of taps, each `(dx, dy, num)`, together with a common
//! denominator `den`: processing a pixel deposits `error * num / den` at
//! offset `(dx, dy)` for each tap in order. The two kernels provided are
//! Floyd-Steinberg and the aliased Atkinson variant (see `atkinson_taps`).

use vstd::prelude::*;
use vstd::arithmetic::div_mod::lemma_fundamental_div_mod;

verus! {

/// One diffusion tap: deposit `error * num / den` at offset `(dx, dy)` from
/// the pixel being processed.
#[derive(Clone, Copy, PartialEq, Eq, Structural, Debug)]
pub struct Tap {
    pub dx: i32,
    pub dy: i32,
    pub num: i64,
}

/// A diffusion kernel: a tap table over a common denominator.
pub struct Kernel {
    pub den: i64,
    pub taps: Vec<Tap>,
}

impl Kernel {
    /// Every tap weight is a proper positive fraction of the denominator,
    /// the offsets are small, and the denominator is at most 16. Keeps all
    /// share arithmetic exact and representable.
    pub open spec fn wf(self) -> bool {
        &&& 1 <= self.den <= 16
        &&& forall|i: int|
            0 <= i < self.taps@.len() ==> {
                &&& 1 <= #[trigger] self.taps@[i].num < self.den
                &&& -2 <= self.taps@[i].dx <= 2
                &&& 0 <= self.taps@[i].dy <= 2
            }
    }
}

/// The error share a tap deposits: `e * num / den` rounded toward zero.
pub open spec fn share_spec(e: int, num: int, den: int) -> int
    recommends
        den >= 1,
{
    if e >= 0 {
        (e * num) / den
    } else {
        -(((-e) * num) / den)
    }
}

/// Smallest error value the share computation accepts: one full luminance
/// unit below the smallest buffer cell value.
pub open spec fn min_share_err() -> int {
    i64::MIN - crate::LUMA_ONE
}

/// For `0 <= p < bound * den`, the quotient `p / den` stays below `bound`.
proof fn lemma_div_below(p: int, den: int, bound: int)
    requires
        0 <= p,
        1 <= den,
        p < bound * den,
    ensures
        p / den < bound,
{
    lemma_fundamental_div_mod(p, den);
    assert(p == den * (p / den) + p % den);
    assert(0 <= p % den < den);
    assert(p / den >= 0) by (nonlinear_arith)
        requires
            0 <= p,
            1 <= den,
            p == den * (p / den) + p % den,
            0 <= p % den < den,
    ;
    assert(p / den < bound) by (nonlinear_arith)
        requires
            1 <= den,
            p == den * (p / den) + p % den,
            0 <= p % den < den,
            p < bound * den,
            p / den >= 0,
    ;
}

/// Computes `e * num / den` rounded toward zero. The error `e` is exact
/// (one cell value minus the quantized value, computed in `i128`); the
/// result always fits an `i64` because `num < den`.
pub fn share(e: i128, num: i64, den: i64) -> (s: i64)
    requires
        1 <= num < den <= 16,
        min_share_err() <= e <= i64::MAX,
    ensures
        s == share_spec(e as int, num as int, den as int),
{
    let neg = e < 0;
    let m: u128 = if neg {
        (-e) as u128
    } else {
        e as u128
    };
    proof {
        assert(m <= 0x8000_0000_0000_0000u128 + 2_550_000);
        assert((m as int) * (num as int) < (0x8000_0000_0000_0000 + 2_550_001) * 16)
            by (nonlinear_arith)
            requires
                1 <= (num as int) <= 16,
                (m as int) <= 0x8000_0000_0000_0000 + 2_550_000,
        ;
    }
    let p: u128 = m * (num as u128);
    let q: u128 = p / (den as u128);
    proof {
        assert((p as int) < 0x8000_0000_0000_0000 * (den as int)) by (nonlinear_arith)
            requires
                (p as int) == (m as int) * (num as int),
                1 <= (num as int),
                (num as int) < (den as int),
                (den as int) <= 16,
                (m as int) <= 0x8000_0000_0000_0000 + 2_550_000,
        ;
        lemma_div_below(p as int, den as int, 0x8000_0000_0000_0000);
        assert(q < 0x8000_0000_0000_0000u128);
    }
    if neg {
        (-(q as i128)) as i64
    } else {
        q as i64
    }
}

} // verus!
