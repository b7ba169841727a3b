use kernel::paging::setup_identity_page_table;

fn walk(t: &kernel::paging::IdentityPageTable, a: u64) -> Option<u64> {
    let e4 = t.pml4[((a >> 39) & 0x1ff) as usize];
    if e4 & 1 == 0 || e4 & 0x000f_ffff_ffff_f000 != t.pdpt_addr {
        return None;
    }
    let e3 = t.pdpt[((a >> 30) & 0x1ff) as usize];
    if e3 & 1 == 0 {
        return None;
    }
    let k = ((e3 & 0x000f_ffff_ffff_f000) - t.directory_addr) / 4096;
    let e2 = t.directories[(k * 512 + ((a >> 21) & 0x1ff)) as usize];
    if e2 & 1 == 0 || e2 & 0x80 == 0 {
        return None;
    }
    Some((e2 & 0x000f_ffff_ffe0_0000) | (a & 0x1f_ffff))
}

#[test]
fn identity_table_entries() {
    let t = setup_identity_page_table(0x1000, 0x10_0000);
    assert_eq!(t.pml4.len(), 512);
    assert_eq!(t.pml4[0], 0x1003);
    assert!(t.pml4[1..].iter().all(|&e| e == 0));
    assert_eq!(t.pdpt[0], 0x10_0003);
    assert_eq!(t.pdpt[63], 0x10_0000 + 63 * 4096 + 3);
    assert_eq!(t.pdpt[64], 0);
    assert_eq!(t.directories.len(), 64 * 512);
    assert_eq!(t.directories[0], 0x83);
    assert_eq!(t.directories[1], 0x20_0083);
    assert_eq!(t.directories[512], 0x4000_0083);
    assert_eq!(t.directories[64 * 512 - 1], 0xf_ffe0_0083);
}

#[test]
fn identity_map_resolves_sample_addresses() {
    let t = setup_identity_page_table(0x1000, 0x10_0000);
    for &a in &[0u64, 0x1234, 0x20_0000, 0x3fff_ffff, 0x4000_0000, 0xf_ffff_ffff, 0x7_1234_5678] {
        assert_eq!(walk(&t, a), Some(a));
    }
    for &a in &[0x10_0000_0000u64, 0x80_0000_0000, 0xffff_ffff_ffff] {
        assert_eq!(walk(&t, a), None);
    }
}
