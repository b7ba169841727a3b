use kernel::loader::{elf_class, ElfClass, 
    load_segments, plan_kernel_load, plan_segments, ElfError, LoadError, ProgramHeader,
};

struct Seg {
    p_type: u32,
    offset: u64,
    vaddr: u64,
    filesz: u64,
    memsz: u64,
}

fn put(buf: &mut Vec<u8>, at: usize, bytes: &[u8]) {
    buf[at..at + bytes.len()].copy_from_slice(bytes);
}

fn elf64(entry: u64, segs: &[Seg], total: usize) -> Vec<u8> {
    elf64_at(entry, 64, segs, total)
}

fn elf64_at(entry: u64, phoff: usize, segs: &[Seg], total: usize) -> Vec<u8> {
    let mut b = vec![0u8; total];
    put(&mut b, 0, &[0x7f, b'E', b'L', b'F', 2, 1, 1]);
    put(&mut b, 16, &2u16.to_le_bytes());
    put(&mut b, 18, &0x3eu16.to_le_bytes());
    put(&mut b, 20, &1u32.to_le_bytes());
    put(&mut b, 24, &entry.to_le_bytes());
    put(&mut b, 32, &(phoff as u64).to_le_bytes());
    put(&mut b, 52, &64u16.to_le_bytes());
    put(&mut b, 54, &56u16.to_le_bytes());
    put(&mut b, 56, &(segs.len() as u16).to_le_bytes());
    put(&mut b, 58, &64u16.to_le_bytes());
    for (i, s) in segs.iter().enumerate() {
        let at = phoff + 56 * i;
        put(&mut b, at, &s.p_type.to_le_bytes());
        put(&mut b, at + 8, &s.offset.to_le_bytes());
        put(&mut b, at + 16, &s.vaddr.to_le_bytes());
        put(&mut b, at + 24, &s.vaddr.to_le_bytes());
        put(&mut b, at + 32, &s.filesz.to_le_bytes());
        put(&mut b, at + 40, &s.memsz.to_le_bytes());
    }
    b
}

fn header(vaddr: u64, offset: u64, filesz: u64, memsz: u64) -> ProgramHeader {
    ProgramHeader { is_load: true, offset, vaddr, filesz, memsz }
}

#[test]
fn plan_from_synthetic_elf() {
    let segs = [
        Seg { p_type: 1, offset: 0x200, vaddr: 0x10_1120, filesz: 0x10, memsz: 0x10 },
        Seg { p_type: 6, offset: 0, vaddr: 0x5, filesz: 0, memsz: 0x1000_0000 },
        Seg { p_type: 1, offset: 0x210, vaddr: 0x10_3000, filesz: 0x8, memsz: 0x2100 },
    ];
    let image = elf64(0x10_1120, &segs, 0x300);
    let plan = plan_kernel_load(&image).unwrap();
    assert_eq!(plan.entry_point, 0x10_1120);
    assert_eq!(plan.first, 0x10_1000);
    assert_eq!(plan.last, 0x10_5100);
    assert_eq!(plan.num_pages, 5);
    assert_eq!(plan.first % 0x1000, 0);
    assert_eq!(plan.segments.len(), 2);
    assert_eq!(plan.segments[1].vaddr, 0x10_3000);
}

#[test]
fn page_count_of_exact_span() {
    let hs = vec![header(0x20_0000, 0, 0, 0x2000)];
    let plan = plan_segments(&hs, 0, 9).unwrap();
    assert_eq!(plan.first, 0x20_0000);
    assert_eq!(plan.last, 0x20_2000);
    assert_eq!(plan.num_pages, 2);
    assert_eq!(plan.entry_point, 9);
}

#[test]
fn thirty_two_bit_image_is_refused() {
    let mut image = elf64(0, &[], 0x80);
    image[4] = 1;
    assert_eq!(plan_kernel_load(&image).err(), Some(LoadError::Elf32));
}

#[test]
fn non_elf_images_are_refused() {
    assert_eq!(
        plan_kernel_load(&[0x7f, b'E', b'L']).err(),
        Some(LoadError::Parse(ElfError::BufferTooShort))
    );
    let mut image = elf64(0, &[], 0x80);
    image[1] = b'X';
    assert_eq!(plan_kernel_load(&image).err(), Some(LoadError::Parse(ElfError::InvalidMagic)));
    let mut image = elf64(0, &[], 0x80);
    image[4] = 9;
    assert_eq!(plan_kernel_load(&image).err(), Some(LoadError::Parse(ElfError::InvalidClass)));
}

#[test]
fn image_without_load_segment_is_refused() {
    let image = elf64(0, &[Seg { p_type: 4, offset: 0, vaddr: 0, filesz: 0, memsz: 0 }], 0x100);
    assert_eq!(plan_kernel_load(&image).err(), Some(LoadError::NoLoadSegment));
}

#[test]
fn malformed_segments_are_refused() {
    let more_file_than_memory = vec![header(0x1000, 0, 0x20, 0x10)];
    assert_eq!(plan_segments(&more_file_than_memory, 0x100, 0).err(), Some(LoadError::MalformedSegment));
    let past_image = vec![header(0x1000, 0xf8, 0x10, 0x10)];
    assert_eq!(plan_segments(&past_image, 0x100, 0).err(), Some(LoadError::MalformedSegment));
    let past_address_space = vec![header(u64::MAX - 4, 0, 0, 0x10)];
    assert_eq!(plan_segments(&past_address_space, 0x100, 0).err(), Some(LoadError::MalformedSegment));
}

#[test]
fn overlapping_segments_are_refused() {
    let hs = vec![header(0x1000, 0, 0, 0x100), header(0x10ff, 0, 0, 0x10)];
    assert_eq!(plan_segments(&hs, 0x100, 0).err(), Some(LoadError::OverlappingSegments));
    let touching = vec![header(0x1000, 0, 0, 0x100), header(0x1100, 0, 0, 0x10)];
    assert!(plan_segments(&touching, 0x100, 0).is_ok());
}

#[test]
fn segments_are_copied_and_zero_filled() {
    let image: Vec<u8> = (0..64u8).collect();
    let hs = vec![
        header(0x1004, 8, 4, 10),
        header(0x1020, 0, 0, 6),
        header(0x1030, 60, 4, 4),
    ];
    let plan = plan_segments(&hs, image.len(), 0x1004).unwrap();
    assert_eq!(plan.first, 0x1000);
    assert_eq!(plan.num_pages, 1);
    let mut memory = vec![0xaau8; 4096];
    load_segments(&image, &plan.segments, plan.first, &mut memory);
    assert_eq!(&memory[0..4], &[0xaa; 4]);
    assert_eq!(&memory[4..8], &[8, 9, 10, 11]);
    assert_eq!(&memory[8..14], &[0; 6]);
    assert_eq!(memory[14], 0xaa);
    assert_eq!(&memory[0x20..0x26], &[0; 6]);
    assert_eq!(memory[0x26], 0xaa);
    assert_eq!(&memory[0x30..0x34], &[60, 61, 62, 63]);
    assert!(memory[0x34..].iter().all(|&b| b == 0xaa));
}

#[test]
fn unaligned_header_table_is_read() {
    let segs = [Seg { p_type: 1, offset: 0x100, vaddr: 0x20_0010, filesz: 4, memsz: 8 }];
    let image = elf64_at(0x20_0010, 0x41, &segs, 0x200);
    let plan = plan_kernel_load(&image).unwrap();
    assert_eq!(plan.first, 0x20_0000);
    assert_eq!(plan.last, 0x20_0018);
    assert_eq!(plan.segments.len(), 1);
    assert_eq!(plan.segments[0].offset, 0x100);
}

#[test]
fn header_table_past_the_image_has_no_segments() {
    let segs = [Seg { p_type: 1, offset: 0, vaddr: 0x1000, filesz: 0, memsz: 8 }];
    let mut image = elf64(0, &segs, 0x100);
    image.truncate(0x70);
    assert_eq!(plan_kernel_load(&image).err(), Some(LoadError::NoLoadSegment));
}

#[test]
fn class_check_on_unaligned_slice() {
    let image = elf64(0, &[], 0x81);
    let mut shifted = vec![0u8];
    shifted.extend_from_slice(&image);
    assert_eq!(elf_class(&shifted[1..]), Ok(ElfClass::Elf64));
    assert_eq!(plan_kernel_load(&shifted[1..]).err(), Some(LoadError::NoLoadSegment));
}

#[test]
fn class_check_cases() {
    assert_eq!(elf_class(&[0x7f; 51]), Err(ElfError::BufferTooShort));
    let mut image = elf64(0, &[], 0x80);
    assert_eq!(elf_class(&image), Ok(ElfClass::Elf64));
    image[52] = 0x81;
    assert_eq!(elf_class(&image), Err(ElfError::BufferTooShort));
    let mut small = elf64(0, &[], 60);
    assert_eq!(elf_class(&small), Err(ElfError::BufferTooShort));
    small[4] = 1;
    small[40] = 52;
    assert_eq!(elf_class(&small), Ok(ElfClass::Elf32));
    small[40] = 61;
    assert_eq!(elf_class(&small), Err(ElfError::BufferTooShort));
    small[4] = 3;
    assert_eq!(elf_class(&small), Err(ElfError::InvalidClass));
    small[0] = 0;
    assert_eq!(elf_class(&small), Err(ElfError::InvalidMagic));
}
