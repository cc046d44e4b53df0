//! Pixels of a Bayer-filtered image.
use vstd::prelude::*;
use vstd::std_specs::ops::MulSpec;

verus! {

/// A pixel behind a Bayer filter: the red, green and blue light it saw, and
/// for each colour how many sensor sites saw it.
#[derive(Clone, Copy, PartialEq, Default)]
pub struct RgbBayer<P> {
    pub r: P,
    pub g: P,
    pub b: P,
    pub rc: P,
    pub gc: P,
    pub bc: P,
}

/// Every component and every count times `rhs`.
impl<P: Copy + core::ops::Mul<P, Output = P>> core::ops::Mul<P> for RgbBayer<P> {
    type Output = Self;

    fn mul(self, rhs: P) -> (res: Self) {
        RgbBayer {
            r: self.r * rhs,
            g: self.g * rhs,
            b: self.b * rhs,
            rc: self.rc * rhs,
            gc: self.gc * rhs,
            bc: self.bc * rhs,
        }
    }
}

impl<P: Copy + core::ops::Mul<P, Output = P>> vstd::std_specs::ops::MulSpecImpl<P> for RgbBayer<P> {
    open spec fn obeys_mul_spec() -> bool {
        P::obeys_mul_spec()
    }

    open spec fn mul_req(self, rhs: P) -> bool {
        &&& self.r.mul_req(rhs)
        &&& self.g.mul_req(rhs)
        &&& self.b.mul_req(rhs)
        &&& self.rc.mul_req(rhs)
        &&& self.gc.mul_req(rhs)
        &&& self.bc.mul_req(rhs)
    }

    open spec fn mul_spec(self, rhs: P) -> Self {
        RgbBayer {
            r: self.r.mul_spec(rhs),
            g: self.g.mul_spec(rhs),
            b: self.b.mul_spec(rhs),
            rc: self.rc.mul_spec(rhs),
            gc: self.gc.mul_spec(rhs),
            bc: self.bc.mul_spec(rhs),
        }
    }
}

} // verus!
