//! An exact fixed-point money type.

use vstd::prelude::*;

verus! {

/// The scale between an amount and the integer that stores it: one unit of
/// money is this many steps.
pub const AMOUNT_SCALE: i64 = 10000;

/// A fixed-point amount of money. The field is the integer count of
/// ten-thousandths; every `i64` is a valid amount.
#[derive(Clone, Copy, Debug, PartialEq, Eq, Structural, Ord)]
pub struct Amount(pub i64);

/// Whether an integer count of ten-thousandths can be stored in an [`Amount`].
pub open spec fn in_range(v: int) -> bool {
    i64::MIN <= v <= i64::MAX
}

impl Amount {
    /// The exact value of the amount, in ten-thousandths.
    pub open spec fn value(self) -> int {
        self.0 as int
    }
}

impl core::ops::Add for Amount {
    type Output = Amount;

    fn add(self, rhs: Amount) -> (r: Amount) {
        Amount(self.0 + rhs.0)
    }
}

impl vstd::std_specs::ops::AddSpecImpl for Amount {
    open spec fn obeys_add_spec() -> bool {
        true
    }

    open spec fn add_req(self, rhs: Amount) -> bool {
        in_range(self.value() + rhs.value())
    }

    open spec fn add_spec(self, rhs: Amount) -> Amount {
        Amount((self.value() + rhs.value()) as i64)
    }
}

impl core::ops::Sub for Amount {
    type Output = Amount;

    fn sub(self, rhs: Amount) -> (r: Amount) {
        Amount(self.0 - rhs.0)
    }
}

impl vstd::std_specs::ops::SubSpecImpl for Amount {
    open spec fn obeys_sub_spec() -> bool {
        true
    }

    open spec fn sub_req(self, rhs: Amount) -> bool {
        in_range(self.value() - rhs.value())
    }

    open spec fn sub_spec(self, rhs: Amount) -> Amount {
        Amount((self.value() - rhs.value()) as i64)
    }
}

impl core::ops::Neg for Amount {
    type Output = Amount;

    fn neg(self) -> (r: Amount) {
        Amount(-self.0)
    }
}

impl vstd::std_specs::ops::NegSpecImpl for Amount {
    open spec fn obeys_neg_spec() -> bool {
        true
    }

    open spec fn neg_req(self) -> bool {
        in_range(-self.value())
    }

    open spec fn neg_spec(self) -> Amount {
        Amount((-self.value()) as i64)
    }
}

impl PartialOrd for Amount {
    fn partial_cmp(&self, other: &Amount) -> (r: Option<core::cmp::Ordering>) {
        if self.0 < other.0 {
            Some(core::cmp::Ordering::Less)
        } else if self.0 == other.0 {
            Some(core::cmp::Ordering::Equal)
        } else {
            Some(core::cmp::Ordering::Greater)
        }
    }
}

impl vstd::std_specs::cmp::PartialOrdSpecImpl for Amount {
    open spec fn obeys_partial_cmp_spec() -> bool {
        true
    }

    open spec fn partial_cmp_spec(&self, other: &Amount) -> Option<core::cmp::Ordering> {
        if self.0 < other.0 {
            Some(core::cmp::Ordering::Less)
        } else if self.0 == other.0 {
            Some(core::cmp::Ordering::Equal)
        } else {
            Some(core::cmp::Ordering::Greater)
        }
    }
}

impl Default for Amount {
    fn default() -> (r: Amount)
        ensures
            r.value() == 0,
    {
        Amount(0)
    }
}

} // verus!
