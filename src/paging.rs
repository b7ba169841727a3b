//! A one-time identity map of the first 64 GiB of physical memory with
//! 2 MiB pages: one top-level table, one pointer table and 64 directories.
use vstd::prelude::*;

verus! {

pub const PAGE_SIZE_4K: u64 = 4096;
pub const PAGE_SIZE_2M: u64 = 0x20_0000;
pub const PAGE_SIZE_1G: u64 = 0x4000_0000;
pub const ENTRIES_PER_TABLE: usize = 512;
pub const DIRECTORY_COUNT: usize = 64;
/// The end of the mapped range: 64 GiB.
pub const MAPPED_END: u64 = 0x10_0000_0000;
/// Present and writable.
pub const TABLE_FLAGS: u64 = 0x3;
/// Present, writable, and a 2 MiB page.
pub const PAGE_FLAGS: u64 = 0x83;
/// The address bits of an entry that refers to a table.
pub const TABLE_ADDRESS_MASK: u64 = 0x000f_ffff_ffff_f000;
/// The address bits of an entry that maps a 2 MiB page.
pub const PAGE_ADDRESS_MASK: u64 = 0x000f_ffff_ffe0_0000;
/// Linear addresses of four-level paging have 48 bits.
pub const ADDRESS_SPACE_END: u64 = 0x1_0000_0000_0000;

/// The tables of the hierarchy, and the physical addresses where the pointer
/// table and the directories are placed (directory `i` at
/// `directory_addr + i * 4096`). Directory `i`'s entries are
/// `directories[i * 512 ..][.. 512]`.
pub struct IdentityPageTable {
    pub pml4: Vec<u64>,
    pub pdpt: Vec<u64>,
    pub directories: Vec<u64>,
    pub pdpt_addr: u64,
    pub directory_addr: u64,
}

/// The 9-bit table index of `a` at the level that starts at bit `s`.
pub open spec fn index_at(a: u64, s: u64) -> int {
    ((a >> s) & 0x1ff) as int
}

/// The address that the hierarchy maps `a` to, if any: the walk that the
/// processor makes through the top-level table, the pointer table and a
/// directory. A table address that is not one of the hierarchy's own tables
/// maps nothing.
pub open spec fn resolve(t: IdentityPageTable, a: u64) -> Option<u64> {
    let e4 = t.pml4@[index_at(a, 39)];
    if e4 & 1 == 0 || e4 & TABLE_ADDRESS_MASK != t.pdpt_addr {
        None
    } else {
        let e3 = t.pdpt@[index_at(a, 30)];
        let dir = e3 & TABLE_ADDRESS_MASK;
        let k = (dir - t.directory_addr) / (PAGE_SIZE_4K as int);
        if e3 & 1 == 0 || dir < t.directory_addr || (dir - t.directory_addr) % (PAGE_SIZE_4K as int) != 0
            || k >= DIRECTORY_COUNT {
            None
        } else {
            let e2 = t.directories@[k * 512 + index_at(a, 21)];
            if e2 & 1 == 0 || e2 & 0x80 == 0 {
                None
            } else {
                Some((e2 & PAGE_ADDRESS_MASK) | (a & 0x1f_ffff))
            }
        }
    }
}

/// Entry `k` of the directories taken together: the 2 MiB page at `k * 2 MiB`.
pub open spec fn directory_entry(k: int) -> u64 {
    ((k * PAGE_SIZE_2M) as u64) | PAGE_FLAGS
}

/// The hierarchy holds exactly the identity map's entries.
pub open spec fn is_identity_table(t: IdentityPageTable) -> bool {
    &&& t.pml4@.len() == 512
    &&& t.pdpt@.len() == 512
    &&& t.directories@.len() == 512 * DIRECTORY_COUNT
    &&& t.pml4@[0] == t.pdpt_addr | TABLE_FLAGS
    &&& forall|i: int| 1 <= i < 512 ==> t.pml4@[i] == 0
    &&& forall|i: int|
        0 <= i < DIRECTORY_COUNT ==> #[trigger] t.pdpt@[i] == (t.directory_addr + i * PAGE_SIZE_4K) as u64
            | TABLE_FLAGS
    &&& forall|i: int| DIRECTORY_COUNT <= i < 512 ==> t.pdpt@[i] == 0
    &&& forall|k: int| 0 <= k < 512 * DIRECTORY_COUNT ==> #[trigger] t.directories@[k] == directory_entry(k)
}

/// Where the tables may be placed: 4 KiB aligned, within physical addresses
/// that an entry can hold.
pub open spec fn valid_placement(pdpt_addr: u64, directory_addr: u64) -> bool {
    &&& pdpt_addr % PAGE_SIZE_4K == 0
    &&& directory_addr % PAGE_SIZE_4K == 0
    &&& pdpt_addr < 0x10_0000_0000_0000
    &&& directory_addr + DIRECTORY_COUNT * PAGE_SIZE_4K <= 0x10_0000_0000_0000
}

/// Builds the identity map of `[0, 64 GiB)`, for a pointer table placed at
/// `pdpt_addr` and 64 consecutive directories placed from `directory_addr`.
pub fn setup_identity_page_table(pdpt_addr: u64, directory_addr: u64) -> (t: IdentityPageTable)
    requires
        valid_placement(pdpt_addr, directory_addr),
    ensures
        is_identity_table(t),
        t.pdpt_addr == pdpt_addr,
        t.directory_addr == directory_addr,
{
    let mut pml4: Vec<u64> = Vec::new();
    pml4.push(pdpt_addr | TABLE_FLAGS);
    let mut i: usize = 1;
    while i < ENTRIES_PER_TABLE
        invariant
            1 <= i <= 512,
            pml4@.len() == i,
            pml4@[0] == pdpt_addr | TABLE_FLAGS,
            forall|j: int| 1 <= j < i ==> pml4@[j] == 0,
        decreases 512 - i,
    {
        pml4.push(0);
        i = i + 1;
    }
    let mut pdpt: Vec<u64> = Vec::new();
    let mut i: usize = 0;
    while i < ENTRIES_PER_TABLE
        invariant
            i <= 512,
            pdpt@.len() == i,
            directory_addr + DIRECTORY_COUNT * PAGE_SIZE_4K <= 0x10_0000_0000_0000,
            forall|j: int|
                0 <= j < i && j < DIRECTORY_COUNT ==> #[trigger] pdpt@[j] == (directory_addr + j
                    * PAGE_SIZE_4K) as u64 | TABLE_FLAGS,
            forall|j: int| DIRECTORY_COUNT <= j < i ==> pdpt@[j] == 0,
        decreases 512 - i,
    {
        if i < DIRECTORY_COUNT {
            pdpt.push((directory_addr + i as u64 * PAGE_SIZE_4K) | TABLE_FLAGS);
        } else {
            pdpt.push(0);
        }
        i = i + 1;
    }
    let mut directories: Vec<u64> = Vec::new();
    let mut k: usize = 0;
    while k < ENTRIES_PER_TABLE * DIRECTORY_COUNT
        invariant
            k <= 512 * DIRECTORY_COUNT,
            directories@.len() == k,
            forall|j: int| 0 <= j < k ==> #[trigger] directories@[j] == directory_entry(j),
        decreases 512 * DIRECTORY_COUNT - k,
    {
        directories.push((k as u64 * PAGE_SIZE_2M) | PAGE_FLAGS);
        k = k + 1;
    }
    IdentityPageTable { pml4, pdpt, directories, pdpt_addr, directory_addr }
}

} // verus!

verus! {

proof fn lemma_low_address_bits(a: u64)
    by (bit_vector)
    requires
        a < 0x10_0000_0000,
    ensures
        (a >> 39u64) & 0x1ff == 0,
        (a >> 30u64) & 0x1ff < 64,
        a >> 21u64 < 0x8000,
        ((a >> 30u64) & 0x1ff) * 512 + ((a >> 21u64) & 0x1ff) == a >> 21u64,
        (((a >> 21u64) * 0x20_0000) as u64 | 0x83) & 1 == 1,
        (((a >> 21u64) * 0x20_0000) as u64 | 0x83) & 0x80 != 0,
        ((((a >> 21u64) * 0x20_0000) as u64 | 0x83) & 0x000f_ffff_ffe0_0000) | (a & 0x1f_ffff) == a,
{
}

proof fn lemma_high_address_bits(a: u64)
    by (bit_vector)
    requires
        0x10_0000_0000 <= a < 0x1_0000_0000_0000,
    ensures
        (a >> 39u64) & 0x1ff != 0 || (a >> 30u64) & 0x1ff >= 64,
        (a >> 39u64) & 0x1ff < 512,
        (a >> 30u64) & 0x1ff < 512,
{
}

proof fn lemma_table_entry(x: u64)
    by (bit_vector)
    requires
        x & 0xfff == 0,
        x < 0x10_0000_0000_0000,
    ensures
        (x | 3) & 1 == 1,
        (x | 3) & 0x000f_ffff_ffff_f000 == x,
{
}

proof fn lemma_aligned(x: u64)
    by (bit_vector)
    requires
        x % 4096 == 0,
    ensures
        x & 0xfff == 0,
{
}

/// Every address below 64 GiB maps to itself, and no address from 64 GiB to
/// the end of the 48-bit address space maps to anything.
pub proof fn lemma_identity_map_coverage(t: IdentityPageTable, a: u64)
    requires
        is_identity_table(t),
        valid_placement(t.pdpt_addr, t.directory_addr),
    ensures
        a < MAPPED_END ==> resolve(t, a) == Some(a),
        MAPPED_END <= a < ADDRESS_SPACE_END ==> resolve(t, a) is None,
{
    lemma_aligned(t.pdpt_addr);
    lemma_table_entry(t.pdpt_addr);
    if a < MAPPED_END {
        lemma_low_address_bits(a);
        let i3 = index_at(a, 30);
        let d = (t.directory_addr + i3 * PAGE_SIZE_4K) as u64;
        assert(d % 4096 == 0) by {
            assert((t.directory_addr + i3 * 4096) % 4096 == t.directory_addr % 4096) by (nonlinear_arith)
                requires
                    0 <= i3,
            ;
        }
        lemma_aligned(d);
        lemma_table_entry(d);
        assert(t.pdpt@[i3] == d | TABLE_FLAGS);
        assert((d - t.directory_addr) / 4096 == i3);
        let k = i3 * 512 + index_at(a, 21);
        assert(k == (a >> 21u64) as int);
        assert(t.directories@[k] == directory_entry(k));
    } else if a < ADDRESS_SPACE_END {
        lemma_high_address_bits(a);
        if index_at(a, 39) != 0 {
            assert(t.pml4@[index_at(a, 39)] == 0);
            assert(0u64 & 1 == 0) by (bit_vector);
        } else {
            assert(t.pdpt@[index_at(a, 30)] == 0);
            assert(0u64 & 1 == 0) by (bit_vector);
        }
    }
}

} // verus!

verus! {

/// Whether the pointer table and the directories can be placed at these
/// addresses.
pub fn is_valid_placement(pdpt_addr: u64, directory_addr: u64) -> (r: bool)
    ensures
        r == valid_placement(pdpt_addr, directory_addr),
{
    pdpt_addr % PAGE_SIZE_4K == 0 && directory_addr % PAGE_SIZE_4K == 0 && pdpt_addr < 0x10_0000_0000_0000
        && directory_addr <= 0x10_0000_0000_0000 - (DIRECTORY_COUNT as u64) * PAGE_SIZE_4K
}

} // verus!
