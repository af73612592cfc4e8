//! Block heights.

use vstd::prelude::*;
use vstd::std_specs::ops::AddSpecImpl;
use vstd::std_specs::ops::SubSpecImpl;
use vstd::std_specs::cmp::PartialEqSpecImpl;

verus! {

/// The number of blocks between two adjustments of the proof-of-work difficulty.
pub const DIFFCHANGE_INTERVAL: u32 = 2016;

/// A block height.
#[derive(Copy, Clone, Debug, PartialOrd, Ord, Eq)]
pub struct Height(pub u32);

impl Height {
    /// The height as a number.
    pub fn n(self) -> (r: u32)
        ensures
            r == self.0,
    {
        self.0
    }

    /// The position of this height inside its difficulty period.
    pub fn period_offset(self) -> (r: u32)
        ensures
            r == self.0 % DIFFCHANGE_INTERVAL,
    {
        self.0 % DIFFCHANGE_INTERVAL
    }
}

impl core::ops::Add<u32> for Height {
    type Output = Height;

    fn add(self, other: u32) -> (r: Height) {
        Height(self.0 + other)
    }
}

impl AddSpecImpl<u32> for Height {
    open spec fn obeys_add_spec() -> bool {
        true
    }

    open spec fn add_req(self, other: u32) -> bool {
        self.0 + other <= u32::MAX
    }

    open spec fn add_spec(self, other: u32) -> Height {
        Height((self.0 + other) as u32)
    }
}

impl core::ops::Sub<u32> for Height {
    type Output = Height;

    fn sub(self, other: u32) -> (r: Height) {
        Height(self.0 - other)
    }
}

impl SubSpecImpl<u32> for Height {
    open spec fn obeys_sub_spec() -> bool {
        true
    }

    open spec fn sub_req(self, other: u32) -> bool {
        other <= self.0
    }

    open spec fn sub_spec(self, other: u32) -> Height {
        Height((self.0 - other) as u32)
    }
}

impl PartialEq<u32> for Height {
    fn eq(&self, other: &u32) -> (r: bool) {
        self.0 == *other
    }
}

impl PartialEqSpecImpl<u32> for Height {
    open spec fn obeys_eq_spec() -> bool {
        true
    }

    open spec fn eq_spec(&self, other: &u32) -> bool {
        self.0 == *other
    }
}

impl PartialEq for Height {
    fn eq(&self, other: &Height) -> (r: bool) {
        self.0 == other.0
    }
}

impl PartialEqSpecImpl for Height {
    open spec fn obeys_eq_spec() -> bool {
        true
    }

    open spec fn eq_spec(&self, other: &Height) -> bool {
        self.0 == other.0
    }
}

} // verus!
