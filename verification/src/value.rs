//! Signed integers with absolute value in the 64-bit range.

use vstd::prelude::*;

verus! {

/// A signed integer whose absolute value stays within `u64` range.
///
/// Arithmetic returns `None` instead of leaving that range, so quantities
/// built from `u64` amounts can be combined without silent wrap-around.
#[derive(Clone, Copy, Debug, PartialEq, Eq, Structural)]
pub struct SignedInteger(pub i128);

impl SignedInteger {
    /// The mathematical value of the integer.
    pub open spec fn value(self) -> int {
        self.0 as int
    }

    /// The absolute value stays within the 64-bit range.
    pub open spec fn wf(self) -> bool {
        -(u64::MAX as int) <= self.value() <= u64::MAX as int
    }

    /// Returns `Some(x)` if self is non-negative, otherwise `None`.
    pub fn to_u64(&self) -> (r: Option<u64>)
        requires
            self.wf(),
        ensures
            self.value() < 0 ==> r is None,
            self.value() >= 0 ==> (r matches Some(x) && x == self.value()),
    {
        if self.0 < 0 {
            None
        } else {
            Some(self.0 as u64)
        }
    }

    /// Wraps a `u64` quantity.
    pub fn from_u64(u: u64) -> (r: SignedInteger)
        ensures
            r.value() == u,
            r.wf(),
    {
        SignedInteger(u as i128)
    }

    /// Adds two integers; `None` if the sum leaves the 64-bit range.
    pub fn add(self, rhs: SignedInteger) -> (r: Option<SignedInteger>)
        requires
            self.wf(),
            rhs.wf(),
        ensures
            -(u64::MAX as int) <= self.value() + rhs.value() <= u64::MAX as int ==> (
            r matches Some(s) && s.value() == self.value() + rhs.value() && s.wf()),
            !(-(u64::MAX as int) <= self.value() + rhs.value() <= u64::MAX as int) ==> r is None,
    {
        let max = u64::MAX as i128;
        let s = self.0 + rhs.0;
        if s <= max && s >= -max {
            Some(SignedInteger(s))
        } else {
            None
        }
    }

    /// Multiplies two integers; `None` if the product leaves the 64-bit range.
    pub fn mul(self, rhs: SignedInteger) -> (r: Option<SignedInteger>)
        requires
            self.wf(),
            rhs.wf(),
        ensures
            -(u64::MAX as int) <= self.value() * rhs.value() <= u64::MAX as int ==> (
            r matches Some(p) && p.value() == self.value() * rhs.value() && p.wf()),
            !(-(u64::MAX as int) <= self.value() * rhs.value() <= u64::MAX as int) ==> r is None,
    {
        let max = u64::MAX as i128;
        match self.0.checked_mul(rhs.0) {
            Some(p) if p <= max && p >= -max => Some(SignedInteger(p)),
            _ => None,
        }
    }

    /// Negates the integer.
    pub fn neg(self) -> (r: SignedInteger)
        requires
            self.wf(),
        ensures
            r.value() == -self.value(),
            r.wf(),
    {
        SignedInteger(-self.0)
    }
}

} // verus!
