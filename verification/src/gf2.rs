//! The two-element field: the smallest scalar type satisfying the
//! [`MatrixEntry`](crate::MatrixEntry) capability, with addition as exclusive
//! or and multiplication as conjunction.
use vstd::prelude::*;

use crate::MatrixEntry;

verus! {

/// An element of the field with two elements, represented by whether it is
/// the multiplicative identity.
#[derive(Clone, Copy, Debug, PartialEq, Eq, Structural)]
pub struct Gf2 {
    /// True exactly for the multiplicative identity.
    pub v: bool,
}

impl MatrixEntry for Gf2 {
    open spec fn spec_zero() -> Gf2 {
        Gf2 { v: false }
    }

    open spec fn spec_one() -> Gf2 {
        Gf2 { v: true }
    }

    open spec fn spec_add(self, rhs: Gf2) -> Gf2 {
        Gf2 { v: self.v != rhs.v }
    }

    open spec fn spec_sub(self, rhs: Gf2) -> Gf2 {
        Gf2 { v: self.v != rhs.v }
    }

    open spec fn spec_mul(self, rhs: Gf2) -> Gf2 {
        Gf2 { v: self.v && rhs.v }
    }

    open spec fn spec_div(self, rhs: Gf2) -> Gf2 {
        Gf2 { v: self.v && rhs.v }
    }

    fn zero() -> (r: Gf2) {
        Gf2 { v: false }
    }

    fn one() -> (r: Gf2) {
        Gf2 { v: true }
    }

    fn plus(self, rhs: Gf2) -> (r: Gf2) {
        Gf2 { v: self.v != rhs.v }
    }

    fn minus(self, rhs: Gf2) -> (r: Gf2) {
        Gf2 { v: self.v != rhs.v }
    }

    fn times(self, rhs: Gf2) -> (r: Gf2) {
        Gf2 { v: self.v && rhs.v }
    }

    fn divide(self, rhs: Gf2) -> (r: Gf2) {
        Gf2 { v: self.v && rhs.v }
    }

    fn is_zero(&self) -> (r: bool) {
        !self.v
    }

    proof fn lemma_add_zero(a: Gf2) {
    }

    proof fn lemma_mul_one(a: Gf2) {
    }

    proof fn lemma_mul_zero(a: Gf2) {
    }

    proof fn lemma_add_neg(a: Gf2) {
    }

    proof fn lemma_div_inverse(a: Gf2) {
    }

    proof fn lemma_one_nonzero() {
    }
}

} // verus!
