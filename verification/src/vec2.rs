//! Plane vectors in fixed-point coordinates.

use vstd::prelude::*;
use crate::num::{
    absi, clampc, div_tz, is_sqrt, isqrt, lemma_abs_mul, lemma_div_tz_bound, lemma_sqrt_dominates,
    sqrt_of, MAX_COORD, MAX_NORM_SQ, SCALE,
};

verus! {

/// The componentwise difference `a - b`, as a spec value; exact whenever both
/// inputs are in the admissible range.
pub open spec fn diff(a: V2, b: V2) -> V2 {
    V2 { x: (a.x - b.x) as i64, y: (a.y - b.y) as i64 }
}

/// The unit vector along `d`, in milli-units (so a true unit vector has norm
/// `SCALE`), rounded toward zero; `(SCALE, 0)` when `d` has no direction.
pub open spec fn unit_toward_spec(d: V2, dist: int) -> V2 {
    if dist <= 0 {
        V2 { x: SCALE, y: 0i64 }
    } else {
        V2 {
            x: div_tz(d.x as int * SCALE as int, dist) as i64,
            y: div_tz(d.y as int * SCALE as int, dist) as i64,
        }
    }
}

/// A 2D vector; each component is a count of milli-units.
#[derive(Clone, Copy, PartialEq, Eq, Structural, Debug)]
pub struct V2 {
    pub x: i64,
    pub y: i64,
}

impl V2 {
    /// Both components lie in the world's admissible coordinate range.
    pub open spec fn in_range(self) -> bool {
        &&& absi(self.x as int) <= MAX_COORD as int
        &&& absi(self.y as int) <= MAX_COORD as int
    }

    /// Both components are at most a difference of two admissible coordinates.
    pub open spec fn in_diff_range(self) -> bool {
        &&& absi(self.x as int) <= 2 * MAX_COORD as int
        &&& absi(self.y as int) <= 2 * MAX_COORD as int
    }

    /// The squared Euclidean norm.
    pub open spec fn norm_sq_spec(self) -> int {
        self.x as int * self.x as int + self.y as int * self.y as int
    }

    pub fn zero() -> (r: V2)
        ensures
            r == (V2 { x: 0i64, y: 0i64 }),
    {
        V2 { x: 0, y: 0 }
    }

    pub fn new(x: i64, y: i64) -> (r: V2)
        ensures
            r == (V2 { x, y }),
    {
        V2 { x, y }
    }

    /// Componentwise difference, exact.
    pub fn sub(self, o: V2) -> (r: V2)
        requires
            self.in_range(),
            o.in_range(),
        ensures
            r.x as int == self.x as int - o.x as int,
            r.y as int == self.y as int - o.y as int,
            r.in_diff_range(),
    {
        V2 { x: self.x - o.x, y: self.y - o.y }
    }

    /// Componentwise sum, each component clamped into the admissible range.
    pub fn add_clamped(self, o: V2) -> (r: V2)
        requires
            self.in_range(),
            absi(o.x as int) <= 8_000_000_000_000_000_000,
            absi(o.y as int) <= 8_000_000_000_000_000_000,
        ensures
            r.x as int == clampc(self.x as int + o.x as int),
            r.y as int == clampc(self.y as int + o.y as int),
            r.in_range(),
    {
        V2 {
            x: crate::num::clamp_coord(self.x + o.x),
            y: crate::num::clamp_coord(self.y + o.y),
        }
    }

    /// The squared norm, exact; callers keep components within twice the
    /// coordinate range, so the result fits.
    pub fn norm_sq(self) -> (r: u64)
        requires
            self.in_diff_range(),
        ensures
            r as int == self.norm_sq_spec(),
            r <= MAX_NORM_SQ,
    {
        proof {
            lemma_abs_mul(self.x as int, self.x as int);
            lemma_abs_mul(self.y as int, self.y as int);
            assert(absi(self.x as int) * absi(self.x as int)
                <= 2 * MAX_COORD as int * (2 * MAX_COORD as int)) by (nonlinear_arith)
                requires 0 <= absi(self.x as int) <= 2 * MAX_COORD as int;
            assert(absi(self.y as int) * absi(self.y as int)
                <= 2 * MAX_COORD as int * (2 * MAX_COORD as int)) by (nonlinear_arith)
                requires 0 <= absi(self.y as int) <= 2 * MAX_COORD as int;
        }
        proof {
            assert(self.x as int * self.x as int >= 0) by (nonlinear_arith);
            assert(self.y as int * self.y as int >= 0) by (nonlinear_arith);
        }
        let xx: i64 = self.x * self.x;
        let yy: i64 = self.y * self.y;
        (xx + yy) as u64
    }

    /// The unit vector along `self` scaled by `SCALE`, given the integer
    /// square root of the squared norm; each component stays within `SCALE`.
    pub fn unit_toward(self, dist: i64) -> (n: V2)
        requires
            self.in_diff_range(),
            is_sqrt(self.norm_sq_spec(), dist as int),
        ensures
            n == unit_toward_spec(self, dist as int),
            absi(n.x as int) <= SCALE as int,
            absi(n.y as int) <= SCALE as int,
    {
        if dist <= 0 {
            V2 { x: SCALE, y: 0 }
        } else {
            proof {
                let nsq = self.norm_sq_spec();
                let xx = self.x as int;
                let yy = self.y as int;
                assert(xx * xx >= 0 && yy * yy >= 0) by (nonlinear_arith);
                assert(xx * xx <= nsq && yy * yy <= nsq);
                lemma_sqrt_dominates(nsq, dist as int, xx);
                lemma_sqrt_dominates(nsq, dist as int, yy);
                lemma_abs_mul(xx, SCALE as int);
                lemma_abs_mul(yy, SCALE as int);
                lemma_div_tz_bound(xx * SCALE as int, dist as int);
                lemma_div_tz_bound(yy * SCALE as int, dist as int);
                assert(absi(xx) * (SCALE as int) <= dist as int * SCALE as int
                    && absi(yy) * (SCALE as int) <= dist as int * SCALE as int)
                    by (nonlinear_arith)
                    requires
                        absi(xx) <= dist as int && absi(yy) <= dist as int && 0 < dist as int,
                ;
                assert(absi(div_tz(xx * SCALE as int, dist as int)) <= SCALE as int)
                    by (nonlinear_arith)
                    requires
                        absi(div_tz(xx * SCALE as int, dist as int)) * (dist as int)
                            <= dist as int * SCALE as int,
                        dist as int >= 1,
                ;
                assert(absi(div_tz(yy * SCALE as int, dist as int)) <= SCALE as int)
                    by (nonlinear_arith)
                    requires
                        absi(div_tz(yy * SCALE as int, dist as int)) * (dist as int)
                            <= dist as int * SCALE as int,
                        dist as int >= 1,
                ;
            }
            let nx = crate::num::mul_div_trunc(self.x, SCALE, dist);
            let ny = crate::num::mul_div_trunc(self.y, SCALE, dist);
            V2 { x: nx, y: ny }
        }
    }

    /// The Euclidean norm, rounded down to an integer.
    pub fn norm(self) -> (r: i64)
        requires
            self.in_diff_range(),
        ensures
            is_sqrt(self.norm_sq_spec(), r as int),
            r as int == sqrt_of(self.norm_sq_spec()),
            0 <= r <= 3_000_000_000,
    {
        let n = self.norm_sq();
        isqrt(n) as i64
    }
}

} // verus!
