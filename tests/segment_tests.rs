use kernel::segment::{
    segment_table, selector, set_code_segment, set_data_segment, table_limit, DescriptorType,
    SegmentDescriptor, SegmentDescriptorBits,
};

#[test]
fn null_descriptor_is_zero() {
    let d = SegmentDescriptor::new();
    assert_eq!(d.data, 0);
    assert_eq!(d.bits(), SegmentDescriptorBits::new());
    assert_eq!(SegmentDescriptorBits::new().present, 0);
}

#[test]
fn flat_code_segment_encoding() {
    let mut d = SegmentDescriptor::new();
    set_code_segment(&mut d, DescriptorType::ExecuteRead, 0, 0, 0xfffff);
    assert_eq!(d.data, 0x00af_9a00_0000_ffff);
}

#[test]
fn flat_data_segment_encoding() {
    let mut d = SegmentDescriptor::new();
    set_data_segment(&mut d, DescriptorType::ReadWrite, 0, 0, 0xfffff);
    assert_eq!(d.data, 0x00cf_9200_0000_ffff);
}

#[test]
fn segment_table_layout() {
    let t = segment_table();
    assert_eq!(t.len(), 3);
    assert_eq!(t[0].data, 0);
    assert_eq!(t[1].data, 0x00af_9a00_0000_ffff);
    assert_eq!(t[2].data, 0x00cf_9200_0000_ffff);
    assert_eq!(table_limit(&t), 23);
    assert_eq!(selector(1), 8);
    assert_eq!(selector(2), 16);
}

#[test]
fn base_round_trip() {
    let mut d = SegmentDescriptor::new();
    d.set_data(0xffff_ffff_ffff_ffff);
    d.set_base(0x1234_5678);
    let b = d.bits();
    assert_eq!(b.base_low, 0x5678);
    assert_eq!(b.base_middle, 0x34);
    assert_eq!(b.base_high, 0x12);
    assert_eq!(b.limit_low, 0xffff);
    assert_eq!(b.present, 1);
    assert_eq!(b.descriptor_type, 0xf);
}

#[test]
fn limit_and_flags_round_trip() {
    let mut d = SegmentDescriptor::new();
    d.set_limit(0xabcde);
    d.set_privilege_level(7);
    d.set_type(DescriptorType::TssBusy);
    d.set_granularity(true);
    d.set_available(true);
    d.set_long_mode(false);
    d.set_default_operation_size(true);
    d.set_system_segment(false);
    d.set_present(true);
    let b = d.bits();
    assert_eq!(b.limit_low, 0xbcde);
    assert_eq!(b.limit_high, 0xa);
    assert_eq!(b.descriptor_privilege_level, 3);
    assert_eq!(b.descriptor_type, 11);
    assert_eq!(b.granularity, 1);
    assert_eq!(b.available, 1);
    assert_eq!(b.long_mode, 0);
    assert_eq!(b.default_operation_size, 1);
    assert_eq!(b.system_segment, 0);
    assert_eq!(b.present, 1);
    assert_eq!(b.base_low, 0);
    d.set_present(false);
    assert_eq!(d.bits().present, 0);
    assert_eq!(d.bits().limit_high, 0xa);
}

#[test]
fn descriptor_type_codes() {
    assert_eq!(DescriptorType::Upper8Bytes.code(), 0);
    assert_eq!(DescriptorType::Ldt.code(), 2);
    assert_eq!(DescriptorType::TssAvailable.code(), 9);
    assert_eq!(DescriptorType::CallGate.code(), 12);
    assert_eq!(DescriptorType::InterruptGate.code(), 14);
    assert_eq!(DescriptorType::TrapGate.code(), 15);
    assert_eq!(DescriptorType::ExecuteRead.code(), 10);
    assert_eq!(DescriptorType::Undefined.code(), 4);
}
