use kernel::error::{Code, Error};
use kernel::pci::{make_address, ConfigSpace, Device, DeviceRegistry};

fn add_function(cs: &mut ConfigSpace, bus: u8, dev: u8, func: u8, vendor: u16, class_code: u32, header_type: u8, secondary: u8) {
    cs.record(make_address(bus, dev, func, 0), 0x1234_0000 | vendor as u32);
    cs.record(make_address(bus, dev, func, 0x8), class_code);
    cs.record(make_address(bus, dev, func, 0xc), (header_type as u32) << 16);
    cs.record(make_address(bus, dev, func, 0x18), (secondary as u32) << 8);
}

fn triple(d: &Device) -> (u8, u8, u8) {
    (d.bus, d.device, d.function)
}

fn nested_topology() -> ConfigSpace {
    let mut cs = ConfigSpace::new();
    add_function(&mut cs, 0, 0, 0, 0x8086, 0x0600_0000, 0x00, 0);
    add_function(&mut cs, 0, 1, 0, 0x8086, 0x0604_0000, 0x01, 1);
    add_function(&mut cs, 0, 2, 0, 0x1af4, 0x0200_0000, 0x80, 0);
    add_function(&mut cs, 0, 2, 3, 0x1af4, 0x0200_0000, 0x00, 0);
    add_function(&mut cs, 1, 0, 0, 0x8086, 0x0604_0000, 0x01, 2);
    add_function(&mut cs, 1, 5, 0, 0x10ec, 0x0100_0000, 0x00, 0);
    add_function(&mut cs, 2, 7, 0, 0x1b36, 0x0c03_3000, 0x00, 0);
    cs
}

#[test]
fn make_address_packs_fields() {
    assert_eq!(make_address(0, 0, 0, 0), 0x8000_0000);
    assert_eq!(make_address(1, 2, 3, 0x10), 0x8001_1310);
    assert_eq!(make_address(0xff, 31, 7, 0xff), 0x80ff_fffc);
}

#[test]
fn scan_nested_bridges_visits_each_function_once() {
    let cs = nested_topology();
    let mut reg = DeviceRegistry::new();
    let e = Device::initialize(&mut reg, &cs);
    assert_eq!(e, Error::new(Code::Success));
    let found: Vec<(u8, u8, u8)> = reg.devices.iter().map(triple).collect();
    assert_eq!(
        found,
        vec![(0, 0, 0), (0, 1, 0), (1, 0, 0), (2, 7, 0), (1, 5, 0), (0, 2, 0), (0, 2, 3)]
    );
    assert_eq!(Device::num_devices(&reg), 7);
    assert_eq!(Device::get_device(&reg, 3).map(|d| triple(&d)), Some((2, 7, 0)));
    assert_eq!(Device::get_device(&reg, 2).map(|d| d.header_type), Some(0x01));
    assert!(Device::get_device(&reg, 7).is_none());
}

#[test]
fn second_initialize_is_refused() {
    let cs = nested_topology();
    let mut reg = DeviceRegistry::new();
    Device::initialize(&mut reg, &cs);
    let e = Device::initialize(&mut reg, &cs);
    assert_eq!(e, Error::new(Code::AlreadyAllocated));
    assert_eq!(Device::num_devices(&reg), 7);
}

#[test]
fn registry_reports_full_past_capacity() {
    let mut cs = ConfigSpace::new();
    for dev in 0..5u8 {
        for func in 0..8u8 {
            add_function(&mut cs, 0, dev, func, 0x1af4, 0x0200_0000, 0x80, 0);
        }
    }
    let mut reg = DeviceRegistry::new();
    let e = Device::initialize(&mut reg, &cs);
    assert_eq!(e, Error::new(Code::Full));
    assert_eq!(Device::num_devices(&reg), 32);
    assert_eq!(triple(&reg.devices[31]), (0, 3, 7));
}

#[test]
fn exactly_capacity_fits() {
    let mut cs = ConfigSpace::new();
    for dev in 0..4u8 {
        for func in 0..8u8 {
            add_function(&mut cs, 0, dev, func, 0x1af4, 0x0200_0000, 0x80, 0);
        }
    }
    let mut reg = DeviceRegistry::new();
    assert_eq!(Device::initialize(&mut reg, &cs), Error::new(Code::Success));
    assert_eq!(Device::num_devices(&reg), 32);
}

#[test]
fn multi_function_host_bridge_scans_each_function_bus() {
    let mut cs = ConfigSpace::new();
    add_function(&mut cs, 0, 0, 0, 0x8086, 0x0600_0000, 0x80, 0);
    add_function(&mut cs, 0, 0, 1, 0x8086, 0x0600_0000, 0x00, 0);
    add_function(&mut cs, 1, 0, 0, 0x8086, 0x0600_0000, 0x00, 0);
    add_function(&mut cs, 1, 3, 0, 0x10ec, 0x0200_0000, 0x00, 0);
    let mut reg = DeviceRegistry::new();
    assert_eq!(Device::initialize(&mut reg, &cs), Error::new(Code::Success));
    let found: Vec<(u8, u8, u8)> = reg.devices.iter().map(triple).collect();
    assert_eq!(found, vec![(0, 0, 0), (0, 0, 1), (1, 0, 0), (1, 3, 0)]);
}

#[test]
fn xhc_is_found_by_class() {
    let cs = nested_topology();
    let mut reg = DeviceRegistry::new();
    assert!(Device::find_xhc_device(&reg, &cs).is_none());
    Device::initialize(&mut reg, &cs);
    let d = Device::find_xhc_device(&reg, &cs).unwrap();
    assert_eq!(triple(&d), (2, 7, 0));
}

#[test]
fn no_xhc_reports_none() {
    let mut cs = ConfigSpace::new();
    add_function(&mut cs, 0, 0, 0, 0x8086, 0x0600_0000, 0x00, 0);
    add_function(&mut cs, 0, 4, 0, 0x8086, 0x0c03_2000, 0x00, 0);
    let mut reg = DeviceRegistry::new();
    Device::initialize(&mut reg, &cs);
    assert!(Device::find_xhc_device(&reg, &cs).is_none());
}

#[test]
fn intel_ehci_hands_ports_over_once() {
    let mut cs = ConfigSpace::new();
    add_function(&mut cs, 0, 0x1d, 0, 0x8086, 0x0c03_2000, 0x00, 0);
    cs.record(make_address(0, 0x1d, 0, 0xdc), 0xf);
    cs.record(make_address(0, 0x1d, 0, 0xd4), 0x3f);
    let d = Device { bus: 0, device: 0x1d, function: 0, header_type: 0 };
    assert_eq!(d.switch_ehci2xhci(&mut cs), Ok(()));
    assert_eq!(
        cs.writes,
        vec![(make_address(0, 0x1d, 0, 0xd8), 0xf), (make_address(0, 0x1d, 0, 0xd0), 0x3f)]
    );
    assert_eq!(cs.read(make_address(0, 0x1d, 0, 0xd8)), 0xf);
}

#[test]
fn other_vendor_ehci_is_unknown_device() {
    let mut cs = ConfigSpace::new();
    add_function(&mut cs, 0, 0x1d, 0, 0x1022, 0x0c03_2000, 0x00, 0);
    let d = Device { bus: 0, device: 0x1d, function: 0, header_type: 0 };
    assert_eq!(d.switch_ehci2xhci(&mut cs), Err(Error::new(Code::UnknownDevice)));
    assert!(cs.writes.is_empty());
}

#[test]
fn device_register_reads() {
    let mut cs = ConfigSpace::new();
    add_function(&mut cs, 3, 4, 5, 0x8086, 0x0c03_3010, 0x80, 9);
    let d = Device { bus: 3, device: 4, function: 5, header_type: 0x80 };
    assert_eq!(d.read_vendor_id(&cs), 0x8086);
    assert_eq!(d.read_device_id(&cs), 0x1234);
    assert_eq!(d.read_header_type(&cs), 0x80);
    assert_eq!(d.read_class_code(&cs), 0x0c03_3010);
    assert_eq!(d.read_bus_numbers(&cs), 0x900);
    let absent = Device { bus: 3, device: 5, function: 0, header_type: 0 };
    assert_eq!(absent.read_vendor_id(&cs), 0xffff);
}

#[test]
fn bar_reads() {
    let mut cs = ConfigSpace::new();
    cs.record(make_address(0, 2, 0, 0x10), 0xfebf_0004);
    cs.record(make_address(0, 2, 0, 0x14), 0x0000_0001);
    let d = Device { bus: 0, device: 2, function: 0, header_type: 0 };
    assert_eq!(d.read_bar(&cs, 0), Ok(0x1_febf_0004));
    assert_eq!(d.read_bar(&cs, 2), Err(Error::new(Code::IndexOutOfRange)));
    assert_eq!(d.read_bar(&cs, 5), Err(Error::new(Code::IndexOutOfRange)));
    assert_eq!(d.read_bar(&cs, 4), Ok(0xffff_ffff_ffff_ffff));
}

#[test]
fn later_record_overrides_earlier() {
    let mut cs = ConfigSpace::new();
    cs.record(0x8000_0000, 1);
    cs.record(0x8000_0000, 2);
    assert_eq!(cs.read(0x8000_0000), 2);
    assert_eq!(cs.read(0x8000_0004), 0xffff_ffff);
}

#[test]
fn bridges_sharing_a_bus_record_it_twice() {
    let mut cs = ConfigSpace::new();
    add_function(&mut cs, 0, 0, 0, 0x8086, 0x0600_0000, 0x00, 0);
    add_function(&mut cs, 0, 1, 0, 0x8086, 0x0604_0000, 0x01, 1);
    add_function(&mut cs, 0, 2, 0, 0x8086, 0x0604_0000, 0x01, 1);
    add_function(&mut cs, 1, 0, 0, 0x10ec, 0x0200_0000, 0x00, 0);
    let mut reg = DeviceRegistry::new();
    assert_eq!(Device::initialize(&mut reg, &cs), Error::new(Code::Success));
    let found: Vec<(u8, u8, u8)> = reg.devices.iter().map(triple).collect();
    assert_eq!(found, vec![(0, 0, 0), (0, 1, 0), (1, 0, 0), (0, 2, 0), (1, 0, 0)]);
}

#[test]
fn bridge_loop_ends_full() {
    let mut cs = ConfigSpace::new();
    add_function(&mut cs, 0, 0, 0, 0x8086, 0x0600_0000, 0x00, 0);
    add_function(&mut cs, 0, 1, 0, 0x8086, 0x0604_0000, 0x01, 0);
    let mut reg = DeviceRegistry::new();
    assert_eq!(Device::initialize(&mut reg, &cs), Error::new(Code::Full));
    assert_eq!(Device::num_devices(&reg), 32);
}

#[test]
fn bridge_to_a_lower_bus_is_followed() {
    let mut cs = ConfigSpace::new();
    add_function(&mut cs, 0, 0, 0, 0x8086, 0x0600_0000, 0x00, 0);
    add_function(&mut cs, 0, 1, 0, 0x8086, 0x0604_0000, 0x01, 5);
    add_function(&mut cs, 5, 0, 0, 0x8086, 0x0604_0000, 0x01, 2);
    add_function(&mut cs, 2, 3, 0, 0x10ec, 0x0200_0000, 0x00, 0);
    let mut reg = DeviceRegistry::new();
    assert_eq!(Device::initialize(&mut reg, &cs), Error::new(Code::Success));
    let found: Vec<(u8, u8, u8)> = reg.devices.iter().map(triple).collect();
    assert_eq!(found, vec![(0, 0, 0), (0, 1, 0), (5, 0, 0), (2, 3, 0)]);
}
