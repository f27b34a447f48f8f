//! The registry key: a contiguous address interval `[base, base + size)`.

use vstd::prelude::*;

verus! {

/// An address-space interval `[base_address, base_address + size)`.
///
/// Equality and ordering are defined solely by `base_address`: two ranges
/// with the same base but different sizes compare equal. The registry is
/// keyed this way on purpose, so re-registering at an existing base
/// replaces the old entry whatever its size was.
#[derive(Clone, Copy, Debug)]
pub struct MemoryRange {
    pub base_address: u64,
    pub size: u64,
}

impl MemoryRange {
    /// Whether `addr` lies in `[base_address, base_address + size)`.
    pub open spec fn spec_contains(self, addr: u64) -> bool {
        self.base_address <= addr && (addr as int) < self.base_address + self.size
    }

    pub fn contains(&self, addr: u64) -> (r: bool)
        ensures
            r == self.spec_contains(addr),
    {
        addr >= self.base_address && addr - self.base_address < self.size
    }
}

impl PartialEq for MemoryRange {
    fn eq(&self, other: &Self) -> (r: bool)
    {
        self.base_address == other.base_address
    }
}

impl Eq for MemoryRange {}

impl vstd::std_specs::cmp::PartialEqSpecImpl for MemoryRange {
    open spec fn obeys_eq_spec() -> bool {
        true
    }

    open spec fn eq_spec(&self, other: &Self) -> bool {
        self.base_address == other.base_address
    }
}

impl PartialOrd for MemoryRange {
    fn partial_cmp(&self, other: &Self) -> (r: Option<core::cmp::Ordering>)
    {
        if self.base_address < other.base_address {
            Some(core::cmp::Ordering::Less)
        } else if self.base_address == other.base_address {
            Some(core::cmp::Ordering::Equal)
        } else {
            Some(core::cmp::Ordering::Greater)
        }
    }
}

impl vstd::std_specs::cmp::PartialOrdSpecImpl for MemoryRange {
    open spec fn obeys_partial_cmp_spec() -> bool {
        true
    }

    open spec fn partial_cmp_spec(&self, other: &Self) -> Option<core::cmp::Ordering> {
        if self.base_address < other.base_address {
            Some(core::cmp::Ordering::Less)
        } else if self.base_address == other.base_address {
            Some(core::cmp::Ordering::Equal)
        } else {
            Some(core::cmp::Ordering::Greater)
        }
    }
}

} // verus!
