//! Page tables.

use vstd::prelude::*;

pub mod address;
pub mod driver;
pub mod laws;
pub mod setup;

verus! {

/// An address that is translated.
#[derive(Clone, Copy, Debug, PartialEq, Eq, Structural)]
pub struct VirtualAddress {
    pub bits: u64,
}

impl VirtualAddress {
    pub fn from_u64(bits: u64) -> (r: Self)
        ensures
            r.bits == bits,
    {
        VirtualAddress { bits }
    }

    pub fn bits(self) -> (r: u64)
        ensures
            r == self.bits,
    {
        self.bits
    }
}

/// The numbers of a machine's configuration that page tables depend on.
#[derive(Clone, Copy, Debug, PartialEq, Eq, Structural)]
pub struct IsaConfig {
    pub page_table_base: u64,
    pub page_size: u64,
    pub s2_page_table_base: u64,
    pub s2_page_size: u64,
    pub thread_base: u64,
    pub symbolic_addr_base: u64,
    pub symbolic_addr_top: u64,
    pub symbolic_addr_stride: u64,
}

} // verus!
