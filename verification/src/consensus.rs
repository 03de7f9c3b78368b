//! The epochs of the consensus rules.

use vstd::prelude::*;

pub mod extensions;

verus! {

/// An epoch of the consensus rules, which transactions name by its
/// identifier so that a signature for one epoch is none for another.
#[derive(Clone, Copy, Debug, PartialEq, Eq)]
pub enum BranchId {
    Sprout,
    Overwinter,
    Sapling,
    Blossom,
    Heartwood,
    Canopy,
}

impl BranchId {
    /// The identifier of the epoch, in contracts.
    pub open spec fn spec_id(self) -> u32 {
        match self {
            BranchId::Sprout => 0,
            BranchId::Overwinter => 0x5ba8_1b19,
            BranchId::Sapling => 0x76b8_09bb,
            BranchId::Blossom => 0x2bb4_0e60,
            BranchId::Heartwood => 0xf5b9_230b,
            BranchId::Canopy => 0xe9ff_75a6,
        }
    }

    /// The identifier of the epoch.
    pub fn id(self) -> (id: u32)
        ensures
            id == self.spec_id(),
    {
        match self {
            BranchId::Sprout => 0,
            BranchId::Overwinter => 0x5ba8_1b19,
            BranchId::Sapling => 0x76b8_09bb,
            BranchId::Blossom => 0x2bb4_0e60,
            BranchId::Heartwood => 0xf5b9_230b,
            BranchId::Canopy => 0xe9ff_75a6,
        }
    }
}

} // verus!
