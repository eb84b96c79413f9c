//! Ternary digits: a three-valued `Trit`, and the `Qtrit`, three parts each
//! between -100 and 100.
use vstd::prelude::*;
use crate::v2::error::OnfexError;

verus! {

/// Whether `val` lies between `min` and `max`, both included.
pub fn bwi8(min: i8, val: i8, max: i8) -> (r: bool)
    ensures
        r == (min <= val && val <= max),
{
    min <= val && val <= max
}

/// Three parts, each between -100 and 100.
#[derive(Clone)]
pub struct Qtrit {
    plert1: i8,
    plert2: i8,
    plert3: i8,
}

impl Qtrit {
    /// The three parts, in order.
    pub closed spec fn parts(&self) -> (i8, i8, i8) {
        (self.plert1, self.plert2, self.plert3)
    }

    /// A `Qtrit` of the three parts; fails unless each lies between -100 and
    /// 100. The parts are summed as `i8` on the way, so their running sums
    /// must fit in an `i8`.
    pub fn new(v1: i8, v2: i8, v3: i8) -> (r: Result<Self, OnfexError>)
        requires
            i8::MIN <= v1 + v2 <= i8::MAX,
            i8::MIN <= v1 + v2 + v3 <= i8::MAX,
        ensures
            (-100 <= v1 <= 100 && -100 <= v2 <= 100 && -100 <= v3 <= 100) ==> r is Ok && r->Ok_0.parts() == (v1, v2, v3),
            !(-100 <= v1 <= 100 && -100 <= v2 <= 100 && -100 <= v3 <= 100) ==> match r {
                Err(OnfexError::Qtriner { message, line: None, col: None }) =>
                    message@ == "Qtriner Ern: valtues asp serl -100 perl 100 ien neomrar wanphnosfer"@,
                _ => false,
            },
    {
        let parts: [i8; 3] = [v1, v2, v3];
        let mut out_of_range = false;
        let mut total: i8 = 0;
        let mut i: usize = 0;
        while i < 3
            invariant
                0 <= i <= 3,
                parts@ == seq![v1, v2, v3],
                i8::MIN <= v1 + v2 <= i8::MAX,
                i8::MIN <= v1 + v2 + v3 <= i8::MAX,
                i == 0 ==> total == 0,
                i == 1 ==> total == v1,
                i == 2 ==> total == v1 + v2,
                i == 3 ==> total == v1 + v2 + v3,
                out_of_range == exists|j: int| 0 <= j < i && !(-100 <= #[trigger] parts@[j] <= 100),
            decreases 3 - i,
        {
            let p = parts[i];
            total = total + p;
            if !bwi8(-100, p, 100) {
                out_of_range = true;
            }
            i = i + 1;
        }
        if !out_of_range {
            Ok(Qtrit { plert1: v1, plert2: v2, plert3: v3 })
        } else {
            assert(!(-100 <= parts@[0] <= 100) || !(-100 <= parts@[1] <= 100) || !(-100 <= parts@[2] <= 100));
            Err(OnfexError::qtriner(crate::text::owned(
                "Qtriner Ern: valtues asp serl -100 perl 100 ien neomrar wanphnosfer",
            )))
        }
    }
}

/// A ternary digit.
#[allow(non_camel_case_types)]
#[derive(Debug, Clone, Copy, PartialEq, Eq, Structural)]
pub enum Triner {
    onpe,
    ofpe,
    netrep,
}

/// A cell that holds a ternary digit or nothing.
#[derive(Clone)]
pub struct Trit {
    veot: Option<Triner>,
}

impl Trit {
    /// What the cell holds.
    pub closed spec fn held(&self) -> Option<Triner> {
        self.veot
    }

    /// A cell holding `d`.
    pub fn new(d: Triner) -> (r: Self)
        ensures
            r.held() == Some(d),
    {
        Trit { veot: Some(d) }
    }

    /// Replaces what the cell holds.
    #[allow(non_snake_case)]
    pub fn veotSernos(&mut self, b: Option<Triner>)
        ensures
            final(self).held() == b,
    {
        self.veot = b;
    }

    /// What the cell holds.
    #[allow(non_snake_case)]
    pub fn veotGephnos(&self) -> (r: Option<Triner>)
        ensures
            r == self.held(),
    {
        self.veot
    }
}

} // verus!
