//! Segment descriptors packed into 64-bit records, and the flat segment table
//! used in 64-bit mode.
//!
//! Layout of a descriptor (bit ranges, inclusive):
//!   0..=15 limit low, 16..=39 base low and middle, 40..=43 type,
//!   44 system segment, 45..=46 privilege level, 47 present,
//!   48..=51 limit high, 52 available, 53 long mode,
//!   54 default operation size, 55 granularity, 56..=63 base high.
use vstd::prelude::*;

verus! {

/// The descriptor types that segment and gate descriptors use.
#[derive(Debug, Clone, Copy, PartialEq, Eq, Structural)]
pub enum DescriptorType {
    Upper8Bytes,
    Ldt,
    TssAvailable,
    TssBusy,
    CallGate,
    InterruptGate,
    TrapGate,
    ReadWrite,
    ExecuteRead,
    Undefined,
}

pub open spec fn descriptor_type_code(t: DescriptorType) -> u64 {
    match t {
        DescriptorType::Upper8Bytes => 0,
        DescriptorType::Ldt => 2,
        DescriptorType::TssAvailable => 9,
        DescriptorType::TssBusy => 11,
        DescriptorType::CallGate => 12,
        DescriptorType::InterruptGate => 14,
        DescriptorType::TrapGate => 15,
        DescriptorType::ReadWrite => 2,
        DescriptorType::ExecuteRead => 10,
        DescriptorType::Undefined => 4,
    }
}

impl DescriptorType {
    /// The 4-bit type code of this descriptor type.
    pub fn code(self) -> (r: u64)
        ensures
            r == descriptor_type_code(self),
            r < 16,
    {
        match self {
            DescriptorType::Upper8Bytes => 0,
            DescriptorType::Ldt => 2,
            DescriptorType::TssAvailable => 9,
            DescriptorType::TssBusy => 11,
            DescriptorType::CallGate => 12,
            DescriptorType::InterruptGate => 14,
            DescriptorType::TrapGate => 15,
            DescriptorType::ReadWrite => 2,
            DescriptorType::ExecuteRead => 10,
            DescriptorType::Undefined => 4,
        }
    }
}

/// The fields of a descriptor, each as a plain number.
#[derive(Debug, Clone, Copy, PartialEq, Eq, Structural)]
pub struct SegmentDescriptorBits {
    pub limit_low: u64,
    pub base_low: u64,
    pub base_middle: u64,
    pub descriptor_type: u64,
    pub system_segment: u64,
    pub descriptor_privilege_level: u64,
    pub present: u64,
    pub limit_high: u64,
    pub available: u64,
    pub long_mode: u64,
    pub default_operation_size: u64,
    pub granularity: u64,
    pub base_high: u64,
}

/// The `w`-bit field of `d` that starts at bit `s`.
pub open spec fn field(d: u64, s: u64, w: u64) -> u64 {
    (d >> s) & (((1u64 << w) - 1u64) as u64)
}

/// `d` with its `w`-bit field at bit `s` replaced by the low `w` bits of `v`.
pub open spec fn put(d: u64, s: u64, w: u64, v: u64) -> u64 {
    let m = ((1u64 << w) - 1u64) as u64;
    (d & !(m << s)) | ((v & m) << s)
}

/// The fields held by a packed descriptor.
pub open spec fn decode(d: u64) -> SegmentDescriptorBits {
    SegmentDescriptorBits {
        limit_low: field(d, 0, 16),
        base_low: field(d, 16, 16),
        base_middle: field(d, 32, 8),
        descriptor_type: field(d, 40, 4),
        system_segment: field(d, 44, 1),
        descriptor_privilege_level: field(d, 45, 2),
        present: field(d, 47, 1),
        limit_high: field(d, 48, 4),
        available: field(d, 52, 1),
        long_mode: field(d, 53, 1),
        default_operation_size: field(d, 54, 1),
        granularity: field(d, 55, 1),
        base_high: field(d, 56, 8),
    }
}

proof fn lemma_put_same(d: u64, s: u64, w: u64, v: u64)
    by (bit_vector)
    requires
        0 < w <= 16,
        s + w <= 64,
    ensures
        field(put(d, s, w, v), s, w) == field(v, 0, w),
{
}

proof fn lemma_put_other(d: u64, s: u64, w: u64, v: u64, s2: u64, w2: u64)
    by (bit_vector)
    requires
        0 < w <= 16,
        s + w <= 64,
        0 < w2 <= 16,
        s2 + w2 <= 64,
        s + w <= s2 || s2 + w2 <= s,
    ensures
        field(put(d, s, w, v), s2, w2) == field(d, s2, w2),
{
}

/// The bit ranges `(start, width)` of the descriptor's fields.
pub open spec fn is_field(s: u64, w: u64) -> bool {
    ||| (s == 0 && w == 16)
    ||| (s == 16 && w == 16)
    ||| (s == 32 && w == 8)
    ||| (s == 40 && w == 4)
    ||| (s == 44 && w == 1)
    ||| (s == 45 && w == 2)
    ||| (s == 47 && w == 1)
    ||| (s == 48 && w == 4)
    ||| (s == 52 && w == 1)
    ||| (s == 53 && w == 1)
    ||| (s == 54 && w == 1)
    ||| (s == 55 && w == 1)
    ||| (s == 56 && w == 8)
}

/// Replacing one field leaves every other field as it was.
proof fn lemma_put_fields(d: u64, s: u64, w: u64, v: u64)
    requires
        is_field(s, w),
    ensures
        forall|s2: u64, w2: u64|
            is_field(s2, w2) ==> #[trigger] field(put(d, s, w, v), s2, w2) == if s2 == s {
                field(v, 0, w)
            } else {
                field(d, s2, w2)
            },
{
    assert forall|s2: u64, w2: u64| is_field(s2, w2) implies #[trigger] field(put(d, s, w, v), s2, w2)
        == if s2 == s {
        field(v, 0, w)
    } else {
        field(d, s2, w2)
    } by {
        if s2 == s {
            lemma_put_same(d, s, w, v);
        } else {
            lemma_put_other(d, s, w, v, s2, w2);
        }
    }
}

/// The `w`-bit field of `d` that starts at bit `s`.
fn get_bits(d: u64, s: u64, w: u64) -> (r: u64)
    requires
        is_field(s, w),
    ensures
        r == field(d, s, w),
{
    proof {
        assert(1u64 << w >= 1) by (bit_vector)
            requires
                w <= 16,
        ;
    }
    (d >> s) & ((1u64 << w) - 1)
}

/// Replaces the `w`-bit field of `d` at bit `s` by the low `w` bits of `v`.
fn put_bits(d: u64, s: u64, w: u64, v: u64) -> (r: u64)
    requires
        is_field(s, w),
    ensures
        r == put(d, s, w, v),
{
    proof {
        assert(1u64 << w >= 1) by (bit_vector)
            requires
                w <= 16,
        ;
    }
    let m: u64 = (1u64 << w) - 1;
    (d & !(m << s)) | ((v & m) << s)
}

pub open spec fn flag(b: bool) -> u64 {
    if b { 1 } else { 0 }
}

/// A segment descriptor, packed as the processor reads it.
#[derive(Debug, Clone, Copy, PartialEq, Eq, Structural)]
pub struct SegmentDescriptor {
    pub data: u64,
}

impl SegmentDescriptor {
    /// The fields of this descriptor.
    pub open spec fn view_bits(self) -> SegmentDescriptorBits {
        decode(self.data)
    }

    /// The null descriptor: every bit clear.
    pub fn new() -> (r: SegmentDescriptor)
        ensures
            r.data == 0,
    {
        SegmentDescriptor { data: 0 }
    }

    /// The fields of this descriptor, each as a plain number.
    pub fn bits(&self) -> (r: SegmentDescriptorBits)
        ensures
            r == self.view_bits(),
    {
        let d = self.data;
        SegmentDescriptorBits {
            limit_low: get_bits(d, 0, 16),
            base_low: get_bits(d, 16, 16),
            base_middle: get_bits(d, 32, 8),
            descriptor_type: get_bits(d, 40, 4),
            system_segment: get_bits(d, 44, 1),
            descriptor_privilege_level: get_bits(d, 45, 2),
            present: get_bits(d, 47, 1),
            limit_high: get_bits(d, 48, 4),
            available: get_bits(d, 52, 1),
            long_mode: get_bits(d, 53, 1),
            default_operation_size: get_bits(d, 54, 1),
            granularity: get_bits(d, 55, 1),
            base_high: get_bits(d, 56, 8),
        }
    }

    /// Replaces the whole packed record.
    pub fn set_data(&mut self, data: u64)
        ensures
            final(self).data == data,
    {
        self.data = data;
    }

    fn set_field(&mut self, s: u64, w: u64, v: u64)
        requires
            is_field(s, w),
        ensures
            final(self).data == put(old(self).data, s, w, v),
            forall|s2: u64, w2: u64|
                is_field(s2, w2) ==> #[trigger] field(final(self).data, s2, w2) == if s2 == s {
                    field(v, 0, w)
                } else {
                    field(old(self).data, s2, w2)
                },
    {
        proof {
            lemma_put_fields(self.data, s, w, v);
        }
        self.data = put_bits(self.data, s, w, v);
    }

    /// Stores the low 32 bits of `base`, split over the three base fields.
    pub fn set_base(&mut self, base: u64)
        ensures
            final(self).view_bits() == (SegmentDescriptorBits {
                base_low: field(base, 0, 16),
                base_middle: field(base, 16, 8),
                base_high: field(base, 24, 8),
                ..old(self).view_bits()
            }),
    {
        proof {
            assert(field(base >> 16u64, 0, 8) == field(base, 16, 8)) by (bit_vector);
            assert(field(base >> 24u64, 0, 8) == field(base, 24, 8)) by (bit_vector);
        }
        self.set_field(16, 16, base);
        self.set_field(32, 8, base >> 16u64);
        self.set_field(56, 8, base >> 24u64);
    }

    /// Stores the low 20 bits of `limit`, split over the two limit fields.
    pub fn set_limit(&mut self, limit: u64)
        ensures
            final(self).view_bits() == (SegmentDescriptorBits {
                limit_low: field(limit, 0, 16),
                limit_high: field(limit, 16, 4),
                ..old(self).view_bits()
            }),
    {
        proof {
            assert(field(limit >> 16u64, 0, 4) == field(limit, 16, 4)) by (bit_vector);
        }
        self.set_field(0, 16, limit);
        self.set_field(48, 4, limit >> 16u64);
    }

    pub fn set_type(&mut self, ty: DescriptorType)
        ensures
            final(self).view_bits() == (SegmentDescriptorBits {
                descriptor_type: descriptor_type_code(ty),
                ..old(self).view_bits()
            }),
    {
        let c = ty.code();
        proof {
            assert(c < 16 ==> field(c, 0, 4) == c) by (bit_vector);
        }
        self.set_field(40, 4, c);
    }

    pub fn set_present(&mut self, present: bool)
        ensures
            final(self).view_bits() == (SegmentDescriptorBits {
                present: flag(present),
                ..old(self).view_bits()
            }),
    {
        proof {
            lemma_flag_field();
        }
        self.set_field(47, 1, if present { 1 } else { 0 });
    }

    /// Stores the low 2 bits of `dpl`.
    pub fn set_privilege_level(&mut self, dpl: u64)
        ensures
            final(self).view_bits() == (SegmentDescriptorBits {
                descriptor_privilege_level: field(dpl, 0, 2),
                ..old(self).view_bits()
            }),
    {
        self.set_field(45, 2, dpl);
    }

    pub fn set_long_mode(&mut self, long_mode: bool)
        ensures
            final(self).view_bits() == (SegmentDescriptorBits {
                long_mode: flag(long_mode),
                ..old(self).view_bits()
            }),
    {
        proof {
            lemma_flag_field();
        }
        self.set_field(53, 1, if long_mode { 1 } else { 0 });
    }

    pub fn set_default_operation_size(&mut self, default_operation_size: bool)
        ensures
            final(self).view_bits() == (SegmentDescriptorBits {
                default_operation_size: flag(default_operation_size),
                ..old(self).view_bits()
            }),
    {
        proof {
            lemma_flag_field();
        }
        self.set_field(54, 1, if default_operation_size { 1 } else { 0 });
    }

    pub fn set_granularity(&mut self, granularity: bool)
        ensures
            final(self).view_bits() == (SegmentDescriptorBits {
                granularity: flag(granularity),
                ..old(self).view_bits()
            }),
    {
        proof {
            lemma_flag_field();
        }
        self.set_field(55, 1, if granularity { 1 } else { 0 });
    }

    pub fn set_system_segment(&mut self, system_segment: bool)
        ensures
            final(self).view_bits() == (SegmentDescriptorBits {
                system_segment: flag(system_segment),
                ..old(self).view_bits()
            }),
    {
        proof {
            lemma_flag_field();
        }
        self.set_field(44, 1, if system_segment { 1 } else { 0 });
    }

    pub fn set_available(&mut self, available: bool)
        ensures
            final(self).view_bits() == (SegmentDescriptorBits {
                available: flag(available),
                ..old(self).view_bits()
            }),
    {
        proof {
            lemma_flag_field();
        }
        self.set_field(52, 1, if available { 1 } else { 0 });
    }
}

proof fn lemma_flag_field()
    ensures
        field(0, 0, 1) == 0,
        field(1, 0, 1) == 1,
{
    assert(field(0, 0, 1) == 0) by (bit_vector);
    assert(field(1, 0, 1) == 1) by (bit_vector);
}

impl SegmentDescriptorBits {
    /// The fields of the all-zero (null) descriptor.
    pub fn new() -> (r: SegmentDescriptorBits)
        ensures
            r == decode(0),
    {
        proof {
            assert forall|s: u64, w: u64| 0 < w <= 16 && s + w <= 64 implies #[trigger] field(0, s, w) == 0 by {
                assert(field(0, s, w) == 0) by (bit_vector);
            }
            assert(decode(0) == SegmentDescriptorBits {
                limit_low: 0,
                base_low: 0,
                base_middle: 0,
                descriptor_type: 0,
                system_segment: 0,
                descriptor_privilege_level: 0,
                present: 0,
                limit_high: 0,
                available: 0,
                long_mode: 0,
                default_operation_size: 0,
                granularity: 0,
                base_high: 0,
            });
        }
        SegmentDescriptorBits {
            limit_low: 0,
            base_low: 0,
            base_middle: 0,
            descriptor_type: 0,
            system_segment: 0,
            descriptor_privilege_level: 0,
            present: 0,
            limit_high: 0,
            available: 0,
            long_mode: 0,
            default_operation_size: 0,
            granularity: 0,
            base_high: 0,
        }
    }
}

} // verus!

verus! {

/// The fields of a flat 64-bit code segment with the given type, privilege
/// level, base and limit (limit counted in 4 KiB units).
pub open spec fn code_segment_fields(ty: DescriptorType, dpl: u64, base: u64, limit: u64) -> SegmentDescriptorBits {
    SegmentDescriptorBits {
        limit_low: field(limit, 0, 16),
        base_low: field(base, 0, 16),
        base_middle: field(base, 16, 8),
        descriptor_type: descriptor_type_code(ty),
        system_segment: 1,
        descriptor_privilege_level: field(dpl, 0, 2),
        present: 1,
        limit_high: field(limit, 16, 4),
        available: 0,
        long_mode: 1,
        default_operation_size: 0,
        granularity: 1,
        base_high: field(base, 24, 8),
    }
}

/// The fields of a data segment: as a code segment, but without the long-mode
/// flag and with 32-bit default operation size.
pub open spec fn data_segment_fields(ty: DescriptorType, dpl: u64, base: u64, limit: u64) -> SegmentDescriptorBits {
    SegmentDescriptorBits {
        long_mode: 0,
        default_operation_size: 1,
        ..code_segment_fields(ty, dpl, base, limit)
    }
}

pub fn set_code_segment(desc: &mut SegmentDescriptor, desc_type: DescriptorType, dpl: u64, base: u64, limit: u64)
    ensures
        final(desc).view_bits() == code_segment_fields(desc_type, dpl, base, limit),
{
    desc.set_base(base);
    desc.set_limit(limit);
    desc.set_type(desc_type);
    desc.set_present(true);
    desc.set_privilege_level(dpl);
    desc.set_long_mode(true);
    desc.set_default_operation_size(false);
    desc.set_granularity(true);
    desc.set_system_segment(true);
    desc.set_available(false);
}

pub fn set_data_segment(desc: &mut SegmentDescriptor, desc_type: DescriptorType, dpl: u64, base: u64, limit: u64)
    ensures
        final(desc).view_bits() == data_segment_fields(desc_type, dpl, base, limit),
{
    set_code_segment(desc, desc_type, dpl, base, limit);
    desc.set_long_mode(false);
    desc.set_default_operation_size(true);
}

/// The largest segment limit: with 4 KiB granularity it spans 4 GiB.
pub const FLAT_LIMIT: u64 = 0xfffff;

/// The segment table for 64-bit mode: the null descriptor, then a flat code
/// segment and a flat data segment, both at privilege level 0.
pub fn segment_table() -> (r: Vec<SegmentDescriptor>)
    ensures
        r@.len() == 3,
        r@[0].data == 0,
        r@[1].view_bits() == code_segment_fields(DescriptorType::ExecuteRead, 0, 0, FLAT_LIMIT),
        r@[2].view_bits() == data_segment_fields(DescriptorType::ReadWrite, 0, 0, FLAT_LIMIT),
{
    let mut null = SegmentDescriptor::new();
    null.set_data(0);
    let mut code = SegmentDescriptor::new();
    set_code_segment(&mut code, DescriptorType::ExecuteRead, 0, 0, FLAT_LIMIT);
    let mut data = SegmentDescriptor::new();
    set_data_segment(&mut data, DescriptorType::ReadWrite, 0, 0, FLAT_LIMIT);
    let mut table: Vec<SegmentDescriptor> = Vec::new();
    table.push(null);
    table.push(code);
    table.push(data);
    table
}

/// The value for the descriptor-table register's limit: the table's size in
/// bytes, minus one.
pub fn table_limit(table: &Vec<SegmentDescriptor>) -> (r: u16)
    requires
        1 <= table@.len() <= 8192,
    ensures
        r == table@.len() * 8 - 1,
{
    (table.len() * 8 - 1) as u16
}

/// The selector of the descriptor at `index` of the table, with requested
/// privilege level 0.
pub fn selector(index: u16) -> (r: u16)
    requires
        index < 8192,
    ensures
        r == index * 8,
{
    index * 8
}

} // verus!
