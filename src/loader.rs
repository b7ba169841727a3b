//! Placement of a 64-bit ELF kernel image: the image's class, entry point
//! and program header table are read from its bytes, and so are which
//! segments are loaded, the span of physical pages they need and the bytes
//! that end up in that span.
use vstd::prelude::*;

verus! {

pub const PAGE_SIZE: u64 = 0x1000;

/// The word size that an ELF image declares.
#[derive(Debug, Clone, Copy, PartialEq, Eq, Structural)]
pub enum ElfClass {
    Elf32,
    Elf64,
}

/// Why an image could not be read as ELF at all.
#[derive(Debug, Clone, Copy, PartialEq, Eq, Structural)]
pub enum ElfError {
    BufferTooShort,
    InvalidMagic,
    InvalidClass,
}

/// One program header, as plain numbers.
#[derive(Debug, Clone, Copy, PartialEq, Eq, Structural)]
pub struct ProgramHeader {
    /// Whether the header describes a loadable segment (PT_LOAD).
    pub is_load: bool,
    pub offset: u64,
    pub vaddr: u64,
    pub filesz: u64,
    pub memsz: u64,
}

/// Why a kernel image cannot be placed.
#[derive(Debug, Clone, Copy, PartialEq, Eq, Structural)]
pub enum LoadError {
    /// The image is not ELF.
    Parse(ElfError),
    /// The image is 32-bit ELF, which is not supported.
    Elf32,
    /// A loadable segment holds more file bytes than memory bytes, ends past
    /// the end of the address space, or takes bytes from past the image's end.
    MalformedSegment,
    /// Two loadable segments share an address.
    OverlappingSegments,
    /// The image has no loadable segment.
    NoLoadSegment,
}

/// The size of the header of a 64-bit image.
pub const ELF64_HEADER_SIZE: usize = 64;
/// The size of one program header of a 64-bit image.
pub const PROGRAM_HEADER_SIZE: usize = 56;

/// The size of the header of a 32-bit image.
pub const ELF32_HEADER_SIZE: usize = 52;

/// The class of an image, or why it is not ELF: too short for a 32-bit
/// header, no ELF magic, a class byte other than 1 (32-bit) or 2 (64-bit),
/// or shorter than its class's header or than the header size it records
/// (bytes 40..42 for 32-bit, 52..54 for 64-bit).
pub open spec fn elf_class_of(b: Seq<u8>) -> Result<ElfClass, ElfError> {
    if b.len() < ELF32_HEADER_SIZE {
        Err(ElfError::BufferTooShort)
    } else if !(b[0] == 0x7f && b[1] == 0x45 && b[2] == 0x4c && b[3] == 0x46) {
        Err(ElfError::InvalidMagic)
    } else if b[4] == 1 {
        if b.len() < le_u16(b, 40) {
            Err(ElfError::BufferTooShort)
        } else {
            Ok(ElfClass::Elf32)
        }
    } else if b[4] == 2 {
        if b.len() < ELF64_HEADER_SIZE || b.len() < le_u16(b, 52) {
            Err(ElfError::BufferTooShort)
        } else {
            Ok(ElfClass::Elf64)
        }
    } else {
        Err(ElfError::InvalidClass)
    }
}

/// Checks the size, magic and class of an image.
pub fn elf_class(image: &[u8]) -> (r: Result<ElfClass, ElfError>)
    ensures
        r == elf_class_of(image@),
{
    let len = image.len();
    if len < ELF32_HEADER_SIZE {
        return Err(ElfError::BufferTooShort);
    }
    if !(image[0] == 0x7f && image[1] == 0x45 && image[2] == 0x4c && image[3] == 0x46) {
        return Err(ElfError::InvalidMagic);
    }
    if image[4] == 1 {
        if len < read_u16(image, 40) as usize {
            Err(ElfError::BufferTooShort)
        } else {
            Ok(ElfClass::Elf32)
        }
    } else if image[4] == 2 {
        if len < ELF64_HEADER_SIZE || len < read_u16(image, 52) as usize {
            Err(ElfError::BufferTooShort)
        } else {
            Ok(ElfClass::Elf64)
        }
    } else {
        Err(ElfError::InvalidClass)
    }
}

/// The little-endian 16-bit value at `at`.
pub open spec fn le_u16(b: Seq<u8>, at: int) -> u16 {
    (b[at] + b[at + 1] * 0x100) as u16
}

/// The little-endian 32-bit value at `at`.
pub open spec fn le_u32(b: Seq<u8>, at: int) -> u32 {
    (b[at] + b[at + 1] * 0x100 + b[at + 2] * 0x1_0000 + b[at + 3] * 0x100_0000) as u32
}

/// The little-endian 64-bit value at `at`.
pub open spec fn le_u64(b: Seq<u8>, at: int) -> u64 {
    (b[at] + b[at + 1] * 0x100 + b[at + 2] * 0x1_0000 + b[at + 3] * 0x100_0000 + b[at + 4] * 0x1_0000_0000 + b[at
        + 5] * 0x100_0000_0000 + b[at + 6] * 0x1_0000_0000_0000 + b[at + 7] * 0x100_0000_0000_0000) as u64
}

/// The program header whose 56-byte record starts at `at`: type (1 for a
/// loadable segment), file offset, virtual address, file size, memory size.
pub open spec fn header_at(b: Seq<u8>, at: int) -> ProgramHeader {
    ProgramHeader {
        is_load: le_u32(b, at) == 1,
        offset: le_u64(b, at + 8),
        vaddr: le_u64(b, at + 16),
        filesz: le_u64(b, at + 32),
        memsz: le_u64(b, at + 40),
    }
}

/// The entry point recorded in the header of a 64-bit image, bytes 24..32.
pub open spec fn elf64_entry_point(b: Seq<u8>) -> u64 {
    le_u64(b, 24)
}

/// The program headers of a 64-bit image: the table at the offset in bytes
/// 32..40, with the count in bytes 56..58; none when the table runs past the
/// end of the image.
pub open spec fn elf64_program_headers(b: Seq<u8>) -> Seq<ProgramHeader> {
    let off = le_u64(b, 32) as int;
    let n = le_u16(b, 56) as int;
    if off + n * PROGRAM_HEADER_SIZE <= b.len() {
        Seq::new(n as nat, |i: int| header_at(b, off + i * PROGRAM_HEADER_SIZE))
    } else {
        Seq::empty()
    }
}

fn read_u16(b: &[u8], at: usize) -> (r: u16)
    requires
        at + 2 <= b@.len(),
    ensures
        r == le_u16(b@, at as int),
{
    b[at] as u16 + b[at + 1] as u16 * 0x100
}

fn read_u32(b: &[u8], at: usize) -> (r: u32)
    requires
        at + 4 <= b@.len(),
    ensures
        r == le_u32(b@, at as int),
{
    b[at] as u32 + b[at + 1] as u32 * 0x100 + b[at + 2] as u32 * 0x1_0000 + b[at + 3] as u32 * 0x100_0000
}

fn read_u64(b: &[u8], at: usize) -> (r: u64)
    requires
        at + 8 <= b@.len(),
    ensures
        r == le_u64(b@, at as int),
{
    b[at] as u64 + b[at + 1] as u64 * 0x100 + b[at + 2] as u64 * 0x1_0000 + b[at + 3] as u64 * 0x100_0000 + b[at
        + 4] as u64 * 0x1_0000_0000 + b[at + 5] as u64 * 0x100_0000_0000 + b[at + 6] as u64 * 0x1_0000_0000_0000
        + b[at + 7] as u64 * 0x100_0000_0000_0000
}

/// Reads the program header table of a 64-bit image.
pub fn read_program_headers(image: &[u8]) -> (r: Vec<ProgramHeader>)
    requires
        image@.len() >= ELF64_HEADER_SIZE,
    ensures
        r@ == elf64_program_headers(image@),
{
    let len = image.len();
    let off = read_u64(image, 32);
    let n = read_u16(image, 56) as usize;
    let mut headers: Vec<ProgramHeader> = Vec::new();
    if off > len as u64 || n * PROGRAM_HEADER_SIZE > len - off as usize {
        proof {
            assert(headers@ =~= elf64_program_headers(image@));
        }
        return headers;
    }
    let off = off as usize;
    let ghost b = image@;
    let mut i: usize = 0;
    while i < n
        invariant
            i <= n,
            len == b.len(),
            b == image@,
            n == le_u16(b, 56),
            off == le_u64(b, 32),
            off + n * PROGRAM_HEADER_SIZE <= len,
            headers@.len() == i,
            forall|k: int| 0 <= k < i ==> #[trigger] headers@[k] == header_at(b, off + k * PROGRAM_HEADER_SIZE),
        decreases n - i,
    {
        proof {
            assert(off + i * PROGRAM_HEADER_SIZE + PROGRAM_HEADER_SIZE <= len) by (nonlinear_arith)
                requires
                    i < n,
                    off + n * PROGRAM_HEADER_SIZE <= len,
            ;
        }
        let at = off + i * PROGRAM_HEADER_SIZE;
        headers.push(ProgramHeader {
            is_load: read_u32(image, at) == 1,
            offset: read_u64(image, at + 8),
            vaddr: read_u64(image, at + 16),
            filesz: read_u64(image, at + 32),
            memsz: read_u64(image, at + 40),
        });
        i = i + 1;
    }
    proof {
        assert(headers@ =~= elf64_program_headers(image@));
    }
    headers
}

} // verus!

verus! {

/// The loadable headers of `hs`, in order.
pub open spec fn load_headers(hs: Seq<ProgramHeader>) -> Seq<ProgramHeader>
    decreases hs.len(),
{
    if hs.len() == 0 {
        Seq::empty()
    } else {
        load_headers(hs.drop_last()) + if hs.last().is_load {
            seq![hs.last()]
        } else {
            Seq::empty()
        }
    }
}

/// A segment that can be placed: no more file bytes than memory bytes, an
/// end within the address space, file bytes within an image of `image_len`
/// bytes.
pub open spec fn segment_ok(h: ProgramHeader, image_len: int) -> bool {
    &&& h.filesz <= h.memsz
    &&& h.vaddr + h.memsz <= u64::MAX
    &&& h.offset + h.filesz <= image_len
}

/// The memory ranges of two segments share an address.
pub open spec fn overlap(a: ProgramHeader, b: ProgramHeader) -> bool {
    a.vaddr < b.vaddr + b.memsz && b.vaddr < a.vaddr + a.memsz
}

/// The lowest start address of the segments (the largest address when there
/// are none).
pub open spec fn span_start(ls: Seq<ProgramHeader>) -> int
    decreases ls.len(),
{
    if ls.len() == 0 {
        u64::MAX as int
    } else {
        let m = span_start(ls.drop_last());
        if ls.last().vaddr < m {
            ls.last().vaddr as int
        } else {
            m
        }
    }
}

/// The highest end address of the segments (0 when there are none).
pub open spec fn span_end(ls: Seq<ProgramHeader>) -> int
    decreases ls.len(),
{
    if ls.len() == 0 {
        0
    } else {
        let m = span_end(ls.drop_last());
        if ls.last().vaddr + ls.last().memsz > m {
            ls.last().vaddr + ls.last().memsz
        } else {
            m
        }
    }
}

/// Where and how a kernel image is placed: its entry point, the first page
/// of its span, the end of its span, the number of pages from `first` to
/// `last`, and its loadable segments.
pub struct LoadPlan {
    pub entry_point: u64,
    pub first: u64,
    pub last: u64,
    pub num_pages: u64,
    pub segments: Vec<ProgramHeader>,
}

/// What placing an image with headers `hs`, `image_len` bytes long and with
/// entry point `entry`, gives: the first failed check, else the plan.
pub open spec fn plan_outcome(hs: Seq<ProgramHeader>, image_len: int, entry: u64, r: Result<LoadPlan, LoadError>) -> bool {
    let ls = load_headers(hs);
    if exists|i: int| 0 <= i < ls.len() && !segment_ok(#[trigger] ls[i], image_len) {
        r == Err::<LoadPlan, LoadError>(LoadError::MalformedSegment)
    } else if exists|i: int, j: int| 0 <= i < j < ls.len() && overlap(#[trigger] ls[i], #[trigger] ls[j]) {
        r == Err::<LoadPlan, LoadError>(LoadError::OverlappingSegments)
    } else if ls.len() == 0 {
        r == Err::<LoadPlan, LoadError>(LoadError::NoLoadSegment)
    } else {
        match r {
            Ok(p) => {
                &&& p.entry_point == entry
                &&& p.first == span_start(ls) / (PAGE_SIZE as int) * (PAGE_SIZE as int)
                &&& p.last == span_end(ls)
                &&& p.num_pages == (p.last - p.first + PAGE_SIZE - 1) / (PAGE_SIZE as int)
                &&& p.segments@ == ls
            },
            Err(_) => false,
        }
    }
}

proof fn lemma_load_headers_take(hs: Seq<ProgramHeader>, i: int)
    requires
        0 <= i < hs.len(),
    ensures
        load_headers(hs.take(i + 1)) == load_headers(hs.take(i)) + if hs[i].is_load {
            seq![hs[i]]
        } else {
            Seq::empty()
        },
{
    assert(hs.take(i + 1).drop_last() =~= hs.take(i));
}

proof fn lemma_span_take(ls: Seq<ProgramHeader>, i: int)
    requires
        0 <= i < ls.len(),
    ensures
        span_start(ls.take(i + 1)) == if ls[i].vaddr < span_start(ls.take(i)) {
            ls[i].vaddr as int
        } else {
            span_start(ls.take(i))
        },
        span_end(ls.take(i + 1)) == if ls[i].vaddr + ls[i].memsz > span_end(ls.take(i)) {
            ls[i].vaddr + ls[i].memsz
        } else {
            span_end(ls.take(i))
        },
{
    assert(ls.take(i + 1).drop_last() =~= ls.take(i));
}

/// Checks the loadable segments of `headers` and computes where they go.
pub fn plan_segments(headers: &Vec<ProgramHeader>, image_len: usize, entry_point: u64) -> (r: Result<LoadPlan, LoadError>)
    ensures
        plan_outcome(headers@, image_len as int, entry_point, r),
{
    let ghost hs = headers@;
    let mut segments: Vec<ProgramHeader> = Vec::new();
    let mut i: usize = 0;
    while i < headers.len()
        invariant
            i <= hs.len(),
            hs == headers@,
            segments@ == load_headers(hs.take(i as int)),
        decreases hs.len() - i,
    {
        proof {
            lemma_load_headers_take(hs, i as int);
        }
        if headers[i].is_load {
            segments.push(headers[i]);
        }
        i = i + 1;
    }
    proof {
        assert(hs.take(hs.len() as int) =~= hs);
    }
    let ghost ls = segments@;
    let mut i: usize = 0;
    while i < segments.len()
        invariant
            i <= ls.len(),
            ls == segments@,
            ls == load_headers(headers@),
            forall|k: int| 0 <= k < i ==> segment_ok(#[trigger] ls[k], image_len as int),
        decreases ls.len() - i,
    {
        let h = segments[i];
        if !(h.filesz <= h.memsz && h.memsz <= u64::MAX - h.vaddr && h.filesz <= image_len as u64 && h.offset
            <= image_len as u64 - h.filesz) {
            proof {
                assert(!segment_ok(ls[i as int], image_len as int));
                assert(load_headers(headers@) == ls);
            }
            return Err(LoadError::MalformedSegment);
        }
        i = i + 1;
    }
    let mut i: usize = 0;
    while i < segments.len()
        invariant
            i <= ls.len(),
            ls == segments@,
            ls == load_headers(headers@),
            forall|k: int| 0 <= k < ls.len() ==> segment_ok(#[trigger] ls[k], image_len as int),
            forall|a: int, b: int| 0 <= a < i && a < b < ls.len() ==> !overlap(#[trigger] ls[a], #[trigger] ls[b]),
        decreases ls.len() - i,
    {
        let mut j: usize = i + 1;
        while j < segments.len()
            invariant
                i < ls.len(),
                i + 1 <= j <= ls.len(),
                ls == segments@,
                ls == load_headers(headers@),
                forall|k: int| 0 <= k < ls.len() ==> segment_ok(#[trigger] ls[k], image_len as int),
                forall|a: int, b: int| 0 <= a < i && a < b < ls.len() ==> !overlap(#[trigger] ls[a], #[trigger] ls[b]),
                forall|b: int| i < b < j ==> !overlap(ls[i as int], #[trigger] ls[b]),
            decreases ls.len() - j,
        {
            let a = segments[i];
            let b = segments[j];
            if a.vaddr < b.vaddr + b.memsz && b.vaddr < a.vaddr + a.memsz {
                proof {
                    assert(overlap(ls[i as int], ls[j as int]));
                    assert(load_headers(headers@) == ls);
                }
                return Err(LoadError::OverlappingSegments);
            }
            j = j + 1;
        }
        i = i + 1;
    }
    if segments.len() == 0 {
        return Err(LoadError::NoLoadSegment);
    }
    let mut first: u64 = u64::MAX;
    let mut last: u64 = 0;
    let mut i: usize = 0;
    while i < segments.len()
        invariant
            i <= ls.len(),
            ls.len() > 0,
            ls == segments@,
            ls == load_headers(headers@),
            forall|k: int| 0 <= k < ls.len() ==> segment_ok(#[trigger] ls[k], image_len as int),
            first == span_start(ls.take(i as int)),
            last == span_end(ls.take(i as int)),
            i > 0 ==> first <= last,
        decreases ls.len() - i,
    {
        proof {
            lemma_span_take(ls, i as int);
        }
        let start = segments[i].vaddr;
        let end = start + segments[i].memsz;
        if start < first {
            first = start;
        }
        if end > last {
            last = end;
        }
        i = i + 1;
    }
    proof {
        assert(ls.take(ls.len() as int) =~= ls);
    }
    let first_page = first / PAGE_SIZE * PAGE_SIZE;
    let span = last - first_page;
    let num_pages = span / PAGE_SIZE + if span % PAGE_SIZE != 0 {
        1
    } else {
        0
    };
    proof {
        assert(num_pages == (span + PAGE_SIZE - 1) / (PAGE_SIZE as int)) by (nonlinear_arith)
            requires
                num_pages == span / 4096 + if span % 4096 != 0 {
                    1int
                } else {
                    0int
                },
                PAGE_SIZE == 4096,
        ;
    }
    Ok(LoadPlan { entry_point, first: first_page, last, num_pages, segments })
}

} // verus!

verus! {

/// Reads the image as ELF and plans its placement: a non-ELF image gives
/// `Parse`, a 32-bit one `Elf32`; a 64-bit one is planned from its program
/// header table, read here, with the entry point that its header records.
pub fn plan_kernel_load(image: &[u8]) -> (r: Result<LoadPlan, LoadError>)
    ensures
        match elf_class_of(image@) {
            Err(e) => r == Err::<LoadPlan, LoadError>(LoadError::Parse(e)),
            Ok(ElfClass::Elf32) => r == Err::<LoadPlan, LoadError>(LoadError::Elf32),
            Ok(ElfClass::Elf64) => plan_outcome(
                elf64_program_headers(image@),
                image@.len() as int,
                elf64_entry_point(image@),
                r,
            ),
        },
{
    match elf_class(image) {
        Err(e) => Err(LoadError::Parse(e)),
        Ok(ElfClass::Elf32) => Err(LoadError::Elf32),
        Ok(ElfClass::Elf64) => {
            let headers = read_program_headers(image);
            let entry_point = read_u64(image, 24);
            plan_segments(&headers, image.len(), entry_point)
        },
    }
}

/// Offset `p` of a span that starts at address `first` lies in the memory
/// of segment `h`.
pub open spec fn in_segment(h: ProgramHeader, first: u64, p: int) -> bool {
    h.vaddr - first <= p < h.vaddr - first + h.memsz
}

/// The byte that belongs at offset `p` of the span for segment `h`: its file
/// bytes, then zeros up to its memory size.
pub open spec fn segment_byte(image: Seq<u8>, h: ProgramHeader, first: u64, p: int) -> u8 {
    let k = p - (h.vaddr - first);
    if k < h.filesz {
        image[h.offset + k]
    } else {
        0
    }
}

/// Some segment among the first `n` covers offset `p`.
pub open spec fn covered(segs: Seq<ProgramHeader>, first: u64, n: int, p: int) -> bool {
    exists|k: int| 0 <= k < n && #[trigger] in_segment(segs[k], first, p)
}

/// Segments that can be written into a span of `span_len` bytes starting at
/// address `first`, taking their bytes from an image of `image_len` bytes.
pub open spec fn placeable(segs: Seq<ProgramHeader>, first: u64, image_len: int, span_len: int) -> bool {
    &&& forall|k: int| 0 <= k < segs.len() ==> segment_ok(#[trigger] segs[k], image_len)
    &&& forall|k: int|
        0 <= k < segs.len() ==> first <= (#[trigger] segs[k]).vaddr && segs[k].vaddr + segs[k].memsz - first
            <= span_len
    &&& forall|a: int, b: int| 0 <= a < b < segs.len() ==> !overlap(#[trigger] segs[a], #[trigger] segs[b])
}

/// Writes each segment into `dest`, the span that starts at address `first`:
/// its file bytes copied from the image, the rest of its memory zeroed. Bytes
/// that no segment covers are left as they were.
pub fn load_segments(image: &[u8], segments: &Vec<ProgramHeader>, first: u64, dest: &mut [u8])
    requires
        placeable(segments@, first, image@.len() as int, old(dest)@.len() as int),
    ensures
        final(dest)@.len() == old(dest)@.len(),
        forall|k: int, p: int|
            0 <= k < segments@.len() && #[trigger] in_segment(segments@[k], first, p) ==> final(dest)@[p]
                == segment_byte(image@, segments@[k], first, p),
        forall|p: int|
            0 <= p < old(dest)@.len() && !covered(segments@, first, segments@.len() as int, p) ==> final(dest)@[p]
                == old(dest)@[p],
{
    let ghost segs = segments@;
    let ghost orig = dest@;
    let mut i: usize = 0;
    while i < segments.len()
        invariant
            i <= segs.len(),
            segs == segments@,
            placeable(segs, first, image@.len() as int, orig.len() as int),
            dest@.len() == orig.len(),
            forall|k: int, p: int|
                0 <= k < i && #[trigger] in_segment(segs[k], first, p) ==> dest@[p] == segment_byte(
                    image@,
                    segs[k],
                    first,
                    p,
                ),
            forall|p: int| 0 <= p < orig.len() && !covered(segs, first, i as int, p) ==> dest@[p] == orig[p],
        decreases segs.len() - i,
    {
        let h = segments[i];
        let dest_len = dest.len();
        let image_len = image.len();
        assert(segment_ok(segs[i as int], image@.len() as int));
        assert(first <= segs[i as int].vaddr && segs[i as int].vaddr + segs[i as int].memsz - first <= orig.len());
        let base = (h.vaddr - first) as usize;
        let filesz = h.filesz as usize;
        let memsz = h.memsz as usize;
        let offset = h.offset as usize;
        let ghost d0 = dest@;
        assert(base == h.vaddr - first && filesz == h.filesz && memsz == h.memsz && offset == h.offset);
        let mut k: usize = 0;
        while k < filesz
            invariant
                k <= filesz <= memsz,
                base + memsz <= d0.len(),
                d0.len() == dest_len,
                image@.len() == image_len,
                offset + filesz <= image@.len(),
                dest@.len() == d0.len(),
                forall|q: int| base <= q < base + k ==> dest@[q] == image@[offset + q - base],
                forall|q: int| 0 <= q < d0.len() && !(base <= q < base + k) ==> dest@[q] == d0[q],
            decreases filesz - k,
        {
            dest[base + k] = image[offset + k];
            k = k + 1;
        }
        while k < memsz
            invariant
                filesz <= k <= memsz,
                base + memsz <= d0.len(),
                d0.len() == dest_len,
                image@.len() == image_len,
                offset + filesz <= image@.len(),
                dest@.len() == d0.len(),
                forall|q: int| base <= q < base + filesz ==> dest@[q] == image@[offset + q - base],
                forall|q: int| base + filesz <= q < base + k ==> dest@[q] == 0,
                forall|q: int| 0 <= q < d0.len() && !(base <= q < base + k) ==> dest@[q] == d0[q],
            decreases memsz - k,
        {
            dest[base + k] = 0;
            k = k + 1;
        }
        proof {
            assert forall|j: int, p: int|
                0 <= j < i + 1 && #[trigger] in_segment(segs[j], first, p) implies dest@[p] == segment_byte(
                image@,
                segs[j],
                first,
                p,
            ) by {
                if j < i {
                    assert(!overlap(segs[j], segs[i as int]));
                }
            }
            assert forall|p: int| 0 <= p < orig.len() && !covered(segs, first, i + 1, p) implies dest@[p]
                == orig[p] by {
                if in_segment(segs[i as int], first, p) {
                    assert(covered(segs, first, i + 1, p));
                }
                if covered(segs, first, i as int, p) {
                    let j = choose|j: int| 0 <= j < i && #[trigger] in_segment(segs[j], first, p);
                    assert(covered(segs, first, i + 1, p));
                }
            }
        }
        i = i + 1;
    }
}

} // verus!

verus! {

proof fn lemma_span_bounds(ls: Seq<ProgramHeader>)
    ensures
        forall|i: int|
            0 <= i < ls.len() ==> span_start(ls) <= (#[trigger] ls[i]).vaddr && ls[i].vaddr + ls[i].memsz
                <= span_end(ls),
        ls.len() > 0 ==> exists|i: int| 0 <= i < ls.len() && (#[trigger] ls[i]).vaddr == span_start(ls),
        ls.len() > 0 ==> exists|i: int| 0 <= i < ls.len() && (#[trigger] ls[i]).vaddr + ls[i].memsz == span_end(ls),
    decreases ls.len(),
{
    if ls.len() > 0 {
        let init = ls.drop_last();
        lemma_span_bounds(init);
        let n = ls.len() - 1;
        assert forall|i: int| 0 <= i < ls.len() implies span_start(ls) <= (#[trigger] ls[i]).vaddr && ls[i].vaddr
            + ls[i].memsz <= span_end(ls) by {
            if i < n {
                assert(ls[i] == init[i]);
            }
        }
        if init.len() > 0 {
            let a = choose|i: int| 0 <= i < init.len() && (#[trigger] init[i]).vaddr == span_start(init);
            let b = choose|i: int| 0 <= i < init.len() && (#[trigger] init[i]).vaddr + init[i].memsz == span_end(init);
            assert(ls[a] == init[a] && ls[b] == init[b]);
            assert(ls[n] == ls.last());
            if ls[n].vaddr + ls[n].memsz > span_end(init) {
                assert(ls[n].vaddr + ls[n].memsz == span_end(ls));
            } else {
                assert(ls[b].vaddr + ls[b].memsz == span_end(ls));
            }
            if ls[n].vaddr < span_start(init) {
                assert(ls[n].vaddr == span_start(ls));
            } else {
                assert(ls[a].vaddr == span_start(ls));
            }
        } else {
            assert(ls[n] == ls.last());
            assert(ls[n].vaddr <= u64::MAX);
            assert(ls[n].vaddr + ls[n].memsz == span_end(ls));
            assert(ls[n].vaddr == span_start(ls));
        }
    }
}

/// The plan of an image that can be placed: its first address is the lowest
/// segment start rounded down to a page, its end is the highest segment end,
/// both reached by some segment; its pages cover every segment, and its
/// segments can be written into those pages.
pub proof fn lemma_plan_layout(hs: Seq<ProgramHeader>, image_len: int, entry: u64, p: LoadPlan)
    requires
        plan_outcome(hs, image_len, entry, Ok(p)),
    ensures
        p.first % PAGE_SIZE == 0,
        p.first <= span_start(load_headers(hs)) < p.first + PAGE_SIZE,
        p.last == span_end(load_headers(hs)),
        forall|i: int|
            0 <= i < p.segments@.len() ==> p.first <= (#[trigger] p.segments@[i]).vaddr && p.segments@[i].vaddr
                + p.segments@[i].memsz <= p.last,
        exists|i: int| 0 <= i < p.segments@.len() && (#[trigger] p.segments@[i]).vaddr == span_start(load_headers(hs)),
        exists|i: int|
            0 <= i < p.segments@.len() && (#[trigger] p.segments@[i]).vaddr + p.segments@[i].memsz == p.last,
        p.last - p.first <= p.num_pages * PAGE_SIZE,
        placeable(p.segments@, p.first, image_len, p.num_pages * PAGE_SIZE),
{
    let ls = load_headers(hs);
    lemma_span_bounds(ls);
    let s = span_start(ls);
    assert(p.first == s / 4096 * 4096);
    assert(p.first % 4096 == 0 && p.first <= s < p.first + 4096) by (nonlinear_arith)
        requires
            p.first == s / 4096 * 4096,
            s >= 0,
    ;
    let span = p.last - p.first;
    assert(span <= p.num_pages * 4096) by (nonlinear_arith)
        requires
            span >= 0,
            p.num_pages == (span + 4096 - 1) / 4096,
    ;
    assert forall|k: int| 0 <= k < p.segments@.len() implies segment_ok(#[trigger] p.segments@[k], image_len) by {
        assert(segment_ok(ls[k], image_len));
    }
}

} // verus!
