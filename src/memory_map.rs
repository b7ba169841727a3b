//! The firmware's memory map, as plain values.
use vstd::prelude::*;

verus! {

/// Memory types of the firmware's memory map, by their numbers.
pub const BOOT_SERVICES_CODE: u32 = 3;
pub const BOOT_SERVICES_DATA: u32 = 4;
pub const CONVENTIONAL: u32 = 7;

/// One region of the firmware's memory map.
#[derive(Debug, Clone, Copy, PartialEq, Eq, Structural)]
pub struct MemoryMapDescriptor {
    pub memory_type: u32,
    pub physical_start: u64,
    pub virtual_start: u64,
    pub number_of_pages: u64,
    pub attribute: u64,
}

/// Memory that the kernel may use once boot services are gone: what the
/// boot services held, and conventional memory.
pub open spec fn available(ty: u32) -> bool {
    ty == BOOT_SERVICES_CODE || ty == BOOT_SERVICES_DATA || ty == CONVENTIONAL
}

pub fn is_available(ty: u32) -> (r: bool)
    ensures
        r == available(ty),
{
    ty == BOOT_SERVICES_CODE || ty == BOOT_SERVICES_DATA || ty == CONVENTIONAL
}

} // verus!
