//! A validated quarter-degree sine table in Q16 fixed point.
//!
//! Sines and cosines cannot be computed in verified code here; instead the
//! host supplies one table of 360 sine values, one per degree, and the
//! constructor checks every structural property the caster relies on:
//! range, exact values on the grid axes, and a definite sign inside each
//! half turn. Every trigonometric fact proved in this crate holds for any
//! table that passes this validation.

use vstd::prelude::*;

use crate::angle::{ANG_FULL, ANG_HALF, ANG_QUARTER, ANG_THREE_QUARTER};
use crate::fixed::FP_SCALE;

verus! {

/// Conditions a sine table must meet: full range coverage, values within
/// [-FP_SCALE, FP_SCALE], exact zeros and extrema on the axes, strictly
/// positive sines on the first half turn and strictly negative on the
/// second.
pub open spec fn valid_sines(s: Seq<i64>) -> bool {
    &&& s.len() == ANG_FULL
    &&& forall|i: int| 0 <= i < ANG_FULL ==> -FP_SCALE <= #[trigger] s[i] <= FP_SCALE
    &&& s[0] == 0
    &&& s[ANG_QUARTER as int] == FP_SCALE
    &&& s[ANG_HALF as int] == 0
    &&& s[ANG_THREE_QUARTER as int] == -FP_SCALE
    &&& forall|i: int| 0 < i < ANG_HALF ==> #[trigger] s[i] >= 1
    &&& forall|i: int| ANG_HALF < i < ANG_FULL ==> #[trigger] s[i] <= -1
}

/// One sine value per degree, valid by construction.
pub struct TrigTable {
    pub sines: Vec<i64>,
}

impl TrigTable {
    pub open spec fn wf(&self) -> bool {
        valid_sines(self.sines@)
    }

    /// Accepts a table exactly when it meets `valid_sines`; the grid axes
    /// must carry exact values so that axis-aligned rays and the fisheye
    /// factor at a centred ray stay exact.
    pub fn new(sines: Vec<i64>) -> (r: Option<TrigTable>)
        ensures
            match r {
                Some(t) => t.wf() && t.sines@ == sines@,
                None => !valid_sines(sines@),
            },
    {
        if sines.len() != 360 {
            return None;
        }
        if !(sines[0] == 0 && sines[90] == FP_SCALE && sines[180] == 0 && sines[270]
            == -FP_SCALE) {
            return None;
        }
        let mut i: usize = 0;
        while i < 360
            invariant
                sines@.len() == 360,
                i <= 360,
                forall|j: int| 0 <= j < i ==> -FP_SCALE <= #[trigger] sines@[j] <= FP_SCALE,
                forall|j: int| 0 < j < ANG_HALF && j < i ==> #[trigger] sines@[j] >= 1,
                forall|j: int| ANG_HALF < j < ANG_FULL && j < i ==> #[trigger] sines@[j] <= -1,
            decreases 360 - i,
        {
            let v: i64 = sines[i];
            if v < -FP_SCALE || v > FP_SCALE {
                return None;
            }
            if 0 < i && i < 180 && v < 1 {
                return None;
            }
            if 180 < i && v > -1 {
                return None;
            }
            i += 1;
        }
        Some(TrigTable { sines })
    }
}

/// Sine of an angle in degrees, defined on all integers through the
/// Euclidean remainder, hence periodic in a full turn by construction.
pub open spec fn sin_of(t: TrigTable, a: int) -> int {
    t.sines@[a % (ANG_FULL as int)] as int
}

/// Cosine as the sine shifted a quarter turn forward.
pub open spec fn cos_of(t: TrigTable, a: int) -> int {
    sin_of(t, a + ANG_QUARTER)
}

/// Table lookup realising `sin_of` on the wrapped domain.
pub fn sin_fixed(t: &TrigTable, a: i64) -> (r: i64)
    requires
        t.wf(),
        0 <= a <= ANG_FULL,
    ensures
        r == sin_of(*t, a as int),
        -FP_SCALE <= r <= FP_SCALE,
{
    let idx: usize = if a == ANG_FULL { 0 } else { a as usize };
    proof {
        if a < ANG_FULL {
            vstd::arithmetic::div_mod::lemma_small_mod(a as nat, ANG_FULL as nat);
        } else {
            vstd::arithmetic::div_mod::lemma_mod_self_0(ANG_FULL as int);
        }
    }
    t.sines[idx]
}

/// Table lookup realising `cos_of` on the wrapped domain.
pub fn cos_fixed(t: &TrigTable, a: i64) -> (r: i64)
    requires
        t.wf(),
        0 <= a <= ANG_FULL,
    ensures
        r == cos_of(*t, a as int),
        -FP_SCALE <= r <= FP_SCALE,
{
    let b: i64 = a + ANG_QUARTER;
    let b = if b > ANG_FULL { b - ANG_FULL } else { b };
    proof {
        lemma_sin_period(*t, b as int);
        assert((b as int + ANG_FULL) % (ANG_FULL as int) == (b as int) % (ANG_FULL as int)) by {
            vstd::arithmetic::div_mod::lemma_mod_add_multiples_vanish(b as int, ANG_FULL as int);
        }
    }
    sin_fixed(t, b)
}

/// The sine model is periodic in one full turn.
pub proof fn lemma_sin_period(t: TrigTable, a: int)
    ensures
        sin_of(t, a + ANG_FULL) == sin_of(t, a),
{
    vstd::arithmetic::div_mod::lemma_mod_add_multiples_vanish(a, ANG_FULL as int);
}

/// The sine model is in range and has a definite sign inside each half
/// turn, for any valid table.
pub proof fn lemma_sin_shape(t: TrigTable, a: int)
    requires
        t.wf(),
        0 <= a <= ANG_FULL,
    ensures
        -FP_SCALE <= sin_of(t, a) <= FP_SCALE,
        (a == 0 || a == ANG_HALF || a == ANG_FULL) ==> sin_of(t, a) == 0,
        a == ANG_QUARTER ==> sin_of(t, a) == FP_SCALE,
        a == ANG_THREE_QUARTER ==> sin_of(t, a) == -FP_SCALE,
        0 < a < ANG_HALF ==> sin_of(t, a) >= 1,
        ANG_HALF < a < ANG_FULL ==> sin_of(t, a) <= -1,
{
    if a < ANG_FULL {
        vstd::arithmetic::div_mod::lemma_small_mod(a as nat, ANG_FULL as nat);
    } else {
        vstd::arithmetic::div_mod::lemma_mod_self_0(ANG_FULL as int);
    }
}

/// The cosine model is in range, has exact values on the axes, and a
/// definite sign on each side of the vertical, for any valid table.
pub proof fn lemma_cos_shape(t: TrigTable, a: int)
    requires
        t.wf(),
        0 <= a <= ANG_FULL,
    ensures
        -FP_SCALE <= cos_of(t, a) <= FP_SCALE,
        (a == 0 || a == ANG_FULL) ==> cos_of(t, a) == FP_SCALE,
        a == ANG_HALF ==> cos_of(t, a) == -FP_SCALE,
        (a == ANG_QUARTER || a == ANG_THREE_QUARTER) ==> cos_of(t, a) == 0,
        (0 <= a < ANG_QUARTER || ANG_THREE_QUARTER < a <= ANG_FULL) ==> cos_of(t, a) >= 1,
        ANG_QUARTER < a < ANG_THREE_QUARTER ==> cos_of(t, a) <= -1,
{
    let b = a + ANG_QUARTER;
    if b <= ANG_FULL {
        lemma_sin_shape(t, b);
    } else {
        lemma_sin_period(t, b - ANG_FULL);
        lemma_sin_shape(t, b - ANG_FULL);
    }
    if a == ANG_FULL {
        assert(sin_of(t, ANG_QUARTER as int) == FP_SCALE) by {
            vstd::arithmetic::div_mod::lemma_small_mod(ANG_QUARTER as nat, ANG_FULL as nat);
        }
    }
}

} // verus!
