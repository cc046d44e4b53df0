use vstd::prelude::*;
use vstd::std_specs::ops::{MulSpec, SubSpec};

verus! {

/// A pixel with a red, a green and a blue component.
#[derive(Clone, Copy, Debug, PartialEq, Default)]
pub struct Rgb<T> {
    pub r: T,
    pub g: T,
    pub b: T,
}

/// Component by component difference.
impl<T: core::ops::Sub<Output = T>> core::ops::Sub for Rgb<T> {
    type Output = Self;

    fn sub(self, rhs: Self) -> (res: Self) {
        Rgb { r: self.r - rhs.r, g: self.g - rhs.g, b: self.b - rhs.b }
    }
}

impl<T: core::ops::Sub<Output = T>> vstd::std_specs::ops::SubSpecImpl for Rgb<T> {
    open spec fn obeys_sub_spec() -> bool {
        T::obeys_sub_spec()
    }

    open spec fn sub_req(self, rhs: Self) -> bool {
        self.r.sub_req(rhs.r) && self.g.sub_req(rhs.g) && self.b.sub_req(rhs.b)
    }

    open spec fn sub_spec(self, rhs: Self) -> Self {
        Rgb { r: self.r.sub_spec(rhs.r), g: self.g.sub_spec(rhs.g), b: self.b.sub_spec(rhs.b) }
    }
}

/// Component by component product.
impl<T: core::ops::Mul<Output = T>> core::ops::Mul for Rgb<T> {
    type Output = Self;

    fn mul(self, rhs: Self) -> (res: Self) {
        Rgb { r: self.r * rhs.r, g: self.g * rhs.g, b: self.b * rhs.b }
    }
}

impl<T: core::ops::Mul<Output = T>> vstd::std_specs::ops::MulSpecImpl for Rgb<T> {
    open spec fn obeys_mul_spec() -> bool {
        T::obeys_mul_spec()
    }

    open spec fn mul_req(self, rhs: Self) -> bool {
        self.r.mul_req(rhs.r) && self.g.mul_req(rhs.g) && self.b.mul_req(rhs.b)
    }

    open spec fn mul_spec(self, rhs: Self) -> Self {
        Rgb { r: self.r.mul_spec(rhs.r), g: self.g.mul_spec(rhs.g), b: self.b.mul_spec(rhs.b) }
    }
}

/// Every component times `rhs`.
impl<T: Copy + core::ops::Mul<T, Output = T>> core::ops::Mul<T> for Rgb<T> {
    type Output = Self;

    fn mul(self, rhs: T) -> (res: Self) {
        Rgb { r: self.r * rhs, g: self.g * rhs, b: self.b * rhs }
    }
}

impl<T: Copy + core::ops::Mul<T, Output = T>> vstd::std_specs::ops::MulSpecImpl<T> for Rgb<T> {
    open spec fn obeys_mul_spec() -> bool {
        T::obeys_mul_spec()
    }

    open spec fn mul_req(self, rhs: T) -> bool {
        self.r.mul_req(rhs) && self.g.mul_req(rhs) && self.b.mul_req(rhs)
    }

    open spec fn mul_spec(self, rhs: T) -> Self {
        Rgb { r: self.r.mul_spec(rhs), g: self.g.mul_spec(rhs), b: self.b.mul_spec(rhs) }
    }
}

} // verus!
