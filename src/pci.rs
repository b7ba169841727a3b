//! PCI configuration space: register addresses, a register file, the
//! recursive bus scan that fills the device registry, and the lookups made on
//! it.
use vstd::prelude::*;
use crate::error::{error_of, Code, Error, Result};

verus! {

/// The configuration address of register `reg_addr` of a function: enable
/// bit, bus, device, function and the dword-aligned register offset.
pub open spec fn config_address(bus: u8, device: u8, function: u8, reg_addr: u8) -> u32 {
    0x8000_0000u32 | ((bus as u32) << 16u32) | ((device as u32) << 11u32) | ((function as u32) << 8u32)
        | ((reg_addr & 0xfc) as u32)
}

pub fn make_address(bus: u8, device: u8, function: u8, reg_addr: u8) -> (r: u32)
    ensures
        r == config_address(bus, device, function, reg_addr),
{
    0x8000_0000u32 | ((bus as u32) << 16u32) | ((device as u32) << 11u32) | ((function as u32) << 8u32)
        | ((reg_addr & 0xfc) as u32)
}

/// What reading `address` gives after the writes `regs`, the latest first:
/// the value last written there, or all ones where nothing answers.
pub open spec fn read_value(regs: Seq<(u32, u32)>, address: u32) -> u32
    decreases regs.len(),
{
    if regs.len() == 0 {
        0xffff_ffff
    } else if regs.last().0 == address {
        regs.last().1
    } else {
        read_value(regs.drop_last(), address)
    }
}

/// A model of configuration space: the registers known to hold a value, in
/// the order they were set (a later entry overrides an earlier one), and the
/// writes made through `write` that are still to be sent to the hardware.
pub struct ConfigSpace {
    pub regs: Vec<(u32, u32)>,
    pub writes: Vec<(u32, u32)>,
}

impl ConfigSpace {
    /// A configuration space where nothing answers.
    pub fn new() -> (r: ConfigSpace)
        ensures
            r.regs@.len() == 0,
            r.writes@.len() == 0,
    {
        ConfigSpace { regs: Vec::new(), writes: Vec::new() }
    }

    /// Records the value that the hardware holds at `address`.
    pub fn record(&mut self, address: u32, value: u32)
        ensures
            final(self).regs@ == old(self).regs@.push((address, value)),
            final(self).writes@ == old(self).writes@,
    {
        self.regs.push((address, value));
    }

    pub fn read(&self, address: u32) -> (r: u32)
        ensures
            r == read_value(self.regs@, address),
    {
        let mut i: usize = self.regs.len();
        proof {
            assert(self.regs@.take(i as int) =~= self.regs@);
        }
        while i > 0
            invariant
                i <= self.regs@.len(),
                read_value(self.regs@, address) == read_value(self.regs@.take(i as int), address),
            decreases i,
        {
            i = i - 1;
            let (a, v) = self.regs[i];
            proof {
                assert(self.regs@.take(i + 1).drop_last() =~= self.regs@.take(i as int));
            }
            if a == address {
                return v;
            }
        }
        proof {
            assert(self.regs@.take(0).len() == 0);
        }
        0xffff_ffff
    }

    /// Writes `value` at `address`: later reads see it, and it is queued for
    /// the hardware.
    pub fn write(&mut self, address: u32, value: u32)
        ensures
            final(self).regs@ == old(self).regs@.push((address, value)),
            final(self).writes@ == old(self).writes@.push((address, value)),
    {
        self.regs.push((address, value));
        self.writes.push((address, value));
    }
}

pub open spec fn reg_value(s: Seq<(u32, u32)>, bus: u8, device: u8, function: u8, reg_addr: u8) -> u32 {
    read_value(s, config_address(bus, device, function, reg_addr))
}

pub open spec fn vendor_id_of(s: Seq<(u32, u32)>, bus: u8, device: u8, function: u8) -> u16 {
    reg_value(s, bus, device, function, 0) as u16
}

pub open spec fn device_id_of(s: Seq<(u32, u32)>, bus: u8, device: u8, function: u8) -> u16 {
    (reg_value(s, bus, device, function, 0) >> 16u32) as u16
}

pub open spec fn header_type_of(s: Seq<(u32, u32)>, bus: u8, device: u8, function: u8) -> u8 {
    ((reg_value(s, bus, device, function, 0xc) >> 16u32) & 0xff) as u8
}

pub open spec fn class_code_of(s: Seq<(u32, u32)>, bus: u8, device: u8, function: u8) -> u32 {
    reg_value(s, bus, device, function, 0x8)
}

pub open spec fn bus_numbers_of(s: Seq<(u32, u32)>, bus: u8, device: u8, function: u8) -> u32 {
    reg_value(s, bus, device, function, 0x18)
}

fn read_vendor_id(cs: &ConfigSpace, bus: u8, device: u8, function: u8) -> (r: u16)
    ensures
        r == vendor_id_of(cs.regs@, bus, device, function),
{
    cs.read(make_address(bus, device, function, 0)) as u16
}

fn read_device_id(cs: &ConfigSpace, bus: u8, device: u8, function: u8) -> (r: u16)
    ensures
        r == device_id_of(cs.regs@, bus, device, function),
{
    (cs.read(make_address(bus, device, function, 0)) >> 16u32) as u16
}

fn read_header_type(cs: &ConfigSpace, bus: u8, device: u8, function: u8) -> (r: u8)
    ensures
        r == header_type_of(cs.regs@, bus, device, function),
{
    ((cs.read(make_address(bus, device, function, 0xc)) >> 16u32) & 0xff) as u8
}

fn read_class_code(cs: &ConfigSpace, bus: u8, device: u8, function: u8) -> (r: u32)
    ensures
        r == class_code_of(cs.regs@, bus, device, function),
{
    cs.read(make_address(bus, device, function, 0x8))
}

fn read_bus_numbers(cs: &ConfigSpace, bus: u8, device: u8, function: u8) -> (r: u32)
    ensures
        r == bus_numbers_of(cs.regs@, bus, device, function),
{
    cs.read(make_address(bus, device, function, 0x18))
}

/// Bit 7 of the header type marks a multi-function device.
pub open spec fn single_function(header_type: u8) -> bool {
    header_type & 0x80 == 0
}

fn is_single_function_device(header_type: u8) -> (r: bool)
    ensures
        r == single_function(header_type),
{
    (header_type & 0x80) == 0
}

} // verus!

verus! {

/// A function found on the bus.
#[derive(Debug, Clone, Copy, PartialEq, Eq, Structural)]
pub struct Device {
    pub bus: u8,
    pub device: u8,
    pub function: u8,
    pub header_type: u8,
}

/// The number of devices the registry can hold.
pub const MAX_DEVICES: usize = 32;

/// The devices found so far, in the order they were found, and whether the
/// bus scan has been started.
pub struct DeviceRegistry {
    pub devices: Vec<Device>,
    pub initialized: bool,
}

impl DeviceRegistry {
    /// An empty registry, before any scan.
    pub fn new() -> (r: DeviceRegistry)
        ensures
            r.devices@.len() == 0,
            !r.initialized,
    {
        DeviceRegistry { devices: Vec::new(), initialized: false }
    }

    /// Records a device, or reports `Full` when the registry already holds
    /// `MAX_DEVICES` of them.
    pub fn add_device(&mut self, device: Device) -> (r: Error)
        requires
            old(self).devices@.len() <= MAX_DEVICES,
        ensures
            final(self).initialized == old(self).initialized,
            old(self).devices@.len() < MAX_DEVICES ==> r == error_of(Code::Success)
                && final(self).devices@ == old(self).devices@.push(device),
            old(self).devices@.len() >= MAX_DEVICES ==> r == error_of(Code::Full)
                && final(self).devices@ == old(self).devices@,
    {
        if self.devices.len() >= MAX_DEVICES {
            return Error::new(Code::Full);
        }
        self.devices.push(device);
        Error::new(Code::Success)
    }
}

pub open spec fn present(s: Seq<(u32, u32)>, bus: u8, device: u8, function: u8) -> bool {
    vendor_id_of(s, bus, device, function) != 0xffff
}

/// Base class 0x06, subclass 0x04: a PCI-to-PCI bridge.
pub open spec fn is_bridge(s: Seq<(u32, u32)>, bus: u8, device: u8, function: u8) -> bool {
    let c = class_code_of(s, bus, device, function);
    (c >> 24u32) & 0xff == 0x06 && (c >> 16u32) & 0xff == 0x04
}

/// The bus behind a bridge.
pub open spec fn secondary_bus_of(s: Seq<(u32, u32)>, bus: u8, device: u8, function: u8) -> u8 {
    ((bus_numbers_of(s, bus, device, function) >> 8u32) & 0xff) as u8
}

pub open spec fn found(s: Seq<(u32, u32)>, bus: u8, device: u8, function: u8) -> Device {
    Device { bus, device, function, header_type: header_type_of(s, bus, device, function) }
}

/// The devices that scanning a function records, in order, following at
/// most `k` bridges: the function itself, then, for a bridge, what lies on
/// the bus behind it.
///
/// A scan records at most `MAX_DEVICES` devices and records the bridge
/// before what lies behind it, so with `k` at least the room left in the
/// registry the bound on bridges changes nothing that is recorded.
pub open spec fn function_list(s: Seq<(u32, u32)>, bus: u8, device: u8, function: u8, k: nat) -> Seq<Device>
    decreases k, 0int, 0int,
{
    let sec = secondary_bus_of(s, bus, device, function);
    seq![found(s, bus, device, function)] + if is_bridge(s, bus, device, function) && k > 0 {
        bus_list(s, sec, (k - 1) as nat)
    } else {
        Seq::empty()
    }
}

/// The devices recorded for the present functions `function..8` of a device.
pub open spec fn functions_from(s: Seq<(u32, u32)>, bus: u8, device: u8, function: int, k: nat) -> Seq<Device>
    decreases k, 1int, 8 - function,
{
    if function < 1 || function >= 8 {
        Seq::empty()
    } else {
        (if present(s, bus, device, function as u8) {
            function_list(s, bus, device, function as u8, k)
        } else {
            Seq::empty()
        }) + functions_from(s, bus, device, function + 1, k)
    }
}

/// The devices recorded for a present device: function 0, then, on a
/// multi-function device, the other present functions.
pub open spec fn device_list(s: Seq<(u32, u32)>, bus: u8, device: u8, k: nat) -> Seq<Device>
    decreases k, 2int, 0int,
{
    function_list(s, bus, device, 0, k) + if single_function(header_type_of(s, bus, device, 0)) {
        Seq::empty()
    } else {
        functions_from(s, bus, device, 1, k)
    }
}

/// The devices recorded for the present devices `device..32` of a bus.
pub open spec fn devices_from(s: Seq<(u32, u32)>, bus: u8, device: int, k: nat) -> Seq<Device>
    decreases k, 3int, 32 - device,
{
    if device < 0 || device >= 32 {
        Seq::empty()
    } else {
        (if present(s, bus, device as u8, 0) {
            device_list(s, bus, device as u8, k)
        } else {
            Seq::empty()
        }) + devices_from(s, bus, device + 1, k)
    }
}

/// The devices that scanning a bus records, depth first.
pub open spec fn bus_list(s: Seq<(u32, u32)>, bus: u8, k: nat) -> Seq<Device>
    decreases k, 4int, 0int,
{
    devices_from(s, bus, 0, k)
}

/// The buses scanned from the host bridge: bus 0 for a single-function host
/// bridge, else bus `f` for each present function `f` of it.
pub open spec fn root_buses_from(s: Seq<(u32, u32)>, function: int, k: nat) -> Seq<Device>
    decreases 8 - function,
{
    if function < 0 || function >= 8 {
        Seq::empty()
    } else {
        (if present(s, 0, 0, function as u8) {
            bus_list(s, function as u8, k)
        } else {
            Seq::empty()
        }) + root_buses_from(s, function + 1, k)
    }
}

/// The devices that a scan from the host bridge records, depth first.
pub open spec fn all_devices(s: Seq<(u32, u32)>, k: nat) -> Seq<Device> {
    if single_function(header_type_of(s, 0, 0, 0)) {
        bus_list(s, 0, k)
    } else {
        root_buses_from(s, 0, k)
    }
}

/// The number of devices that still fit in a registry holding `l`.
pub open spec fn room(l: Seq<Device>) -> nat {
    if l.len() >= MAX_DEVICES {
        0
    } else {
        (MAX_DEVICES - l.len()) as nat
    }
}

/// The first `n` devices of `l`, or all of them when there are fewer.
pub open spec fn upto(l: Seq<Device>, n: nat) -> Seq<Device> {
    if l.len() <= n {
        l
    } else {
        l.take(n as int)
    }
}

/// What a scan that should record `list` leaves, starting from `before`: all
/// of it and `Success` when it fits, else as much as fits and `Full`.
pub open spec fn scan_outcome(before: Seq<Device>, list: Seq<Device>, after: Seq<Device>, r: Error) -> bool {
    if before.len() + list.len() <= MAX_DEVICES {
        after == before + list && r == error_of(Code::Success)
    } else {
        after == before + list.take(MAX_DEVICES - before.len()) && r == error_of(Code::Full)
    }
}

/// A scan from an empty registry of a topology with `list` to record ends
/// with all of it and `Success` when it has at most `MAX_DEVICES` entries,
/// and with exactly `MAX_DEVICES` of them and `Full` otherwise.
pub proof fn lemma_scan_counts(list: Seq<Device>, after: Seq<Device>, r: Error)
    requires
        scan_outcome(Seq::empty(), list, after, r),
    ensures
        list.len() <= MAX_DEVICES ==> after == list && r == error_of(Code::Success),
        list.len() > MAX_DEVICES ==> after.len() == MAX_DEVICES && after == list.take(MAX_DEVICES as int) && r
            == error_of(Code::Full),
{
    assert(Seq::<Device>::empty() + list =~= list);
    assert(Seq::<Device>::empty() + list.take(MAX_DEVICES as int) =~= list.take(MAX_DEVICES as int));
}

/// `after` keeps `before` and adds only present functions, each recorded
/// with its header type.
pub open spec fn records_present(s: Seq<(u32, u32)>, before: Seq<Device>, after: Seq<Device>) -> bool {
    &&& before.len() <= after.len()
    &&& after.take(before.len() as int) == before
    &&& forall|k: int|
        before.len() <= k < after.len() ==> present(s, (#[trigger] after[k]).bus, after[k].device, after[k].function)
            && after[k] == found(s, after[k].bus, after[k].device, after[k].function)
}

proof fn lemma_records_trans(s: Seq<(u32, u32)>, a: Seq<Device>, b: Seq<Device>, c: Seq<Device>)
    requires
        records_present(s, a, b),
        records_present(s, b, c),
    ensures
        records_present(s, a, c),
{
    assert(c.take(a.len() as int) =~= c.take(b.len() as int).take(a.len() as int));
    assert forall|k: int| a.len() <= k < c.len() implies present(s, (#[trigger] c[k]).bus, c[k].device, c[k].function)
        && c[k] == found(s, c[k].bus, c[k].device, c[k].function) by {
        if k < b.len() {
            assert(c[k] == c.take(b.len() as int)[k]);
            assert(b[k] == c[k]);
        }
    }
}

proof fn lemma_records_push(s: Seq<(u32, u32)>, a: Seq<Device>, d: Device)
    requires
        present(s, d.bus, d.device, d.function),
        d == found(s, d.bus, d.device, d.function),
    ensures
        records_present(s, a, a.push(d)),
{
    assert(a.push(d).take(a.len() as int) =~= a);
}

proof fn lemma_records_refl(s: Seq<(u32, u32)>, a: Seq<Device>)
    ensures
        records_present(s, a, a),
{
    assert(a.take(a.len() as int) =~= a);
}

proof fn lemma_upto_concat(a1: Seq<Device>, b1: Seq<Device>, a2: Seq<Device>, b2: Seq<Device>, n: nat)
    requires
        upto(a1, n) == upto(a2, n),
        a1.len() < n ==> upto(b1, (n - a1.len()) as nat) == upto(b2, (n - a1.len()) as nat),
    ensures
        upto(a1 + b1, n) == upto(a2 + b2, n),
{
    if a1.len() >= n {
        assert(upto(a1, n).len() == n);
        assert(a2.len() >= n);
        assert(upto(a1 + b1, n) =~= a1.take(n as int));
        assert(upto(a2 + b2, n) =~= a2.take(n as int));
        assert(a1.take(n as int) =~= upto(a1, n));
        assert(a2.take(n as int) =~= upto(a2, n));
    } else {
        assert(a2.len() <= n);
        assert(a1 == a2);
        let c = (n - a1.len()) as nat;
        if b1.len() <= c {
            assert(upto(a1 + b1, n) =~= a1 + upto(b1, c));
        } else {
            assert(upto(a1 + b1, n) =~= a1 + upto(b1, c));
        }
        if b2.len() <= c {
            assert(upto(a2 + b2, n) =~= a2 + upto(b2, c));
        } else {
            assert(upto(a2 + b2, n) =~= a2 + upto(b2, c));
        }
    }
}

/// The outcome of a scan depends only on the first `room + 1` devices of the
/// list it should record.
proof fn lemma_outcome_upto(before: Seq<Device>, l1: Seq<Device>, l2: Seq<Device>, after: Seq<Device>, r: Error)
    requires
        before.len() <= MAX_DEVICES,
        upto(l1, room(before) + 1) == upto(l2, room(before) + 1),
        scan_outcome(before, l1, after, r),
    ensures
        scan_outcome(before, l2, after, r),
{
    let m = room(before);
    if l1.len() <= m {
        assert(l2.len() <= m);
        assert(l1 == l2);
    } else {
        assert(upto(l1, m + 1).len() == m + 1);
        assert(l2.len() >= m + 1);
        assert(l1.take(m as int) =~= upto(l1, m + 1).take(m as int));
        assert(l2.take(m as int) =~= upto(l2, m + 1).take(m as int));
    }
}

proof fn lemma_fuel_function(s: Seq<(u32, u32)>, b: u8, d: u8, f: u8, k1: nat, k2: nat, m: nat)
    requires
        m <= k1,
        m <= k2,
    ensures
        upto(function_list(s, b, d, f, k1), m + 1) == upto(function_list(s, b, d, f, k2), m + 1),
    decreases k1, 0int, 0int,
{
    let head = seq![found(s, b, d, f)];
    let sec = secondary_bus_of(s, b, d, f);
    let r1 = if is_bridge(s, b, d, f) && k1 > 0 { bus_list(s, sec, (k1 - 1) as nat) } else { Seq::empty() };
    let r2 = if is_bridge(s, b, d, f) && k2 > 0 { bus_list(s, sec, (k2 - 1) as nat) } else { Seq::empty() };
    assert(function_list(s, b, d, f, k1) == head + r1);
    assert(function_list(s, b, d, f, k2) == head + r2);
    if m > 0 && is_bridge(s, b, d, f) {
        lemma_fuel_bus(s, sec, (k1 - 1) as nat, (k2 - 1) as nat, (m - 1) as nat);
    }
    if m == 0 {
        assert(upto(head + r1, 1) =~= head);
        assert(upto(head + r2, 1) =~= head);
    } else {
        lemma_upto_concat(head, r1, head, r2, m + 1);
    }
}

proof fn lemma_fuel_functions(s: Seq<(u32, u32)>, b: u8, d: u8, f: int, k1: nat, k2: nat, m: nat)
    requires
        m <= k1,
        m <= k2,
    ensures
        upto(functions_from(s, b, d, f, k1), m + 1) == upto(functions_from(s, b, d, f, k2), m + 1),
    decreases k1, 1int, 8 - f,
{
    if 1 <= f < 8 {
        let i1 = if present(s, b, d, f as u8) { function_list(s, b, d, f as u8, k1) } else { Seq::empty() };
        let i2 = if present(s, b, d, f as u8) { function_list(s, b, d, f as u8, k2) } else { Seq::empty() };
        if present(s, b, d, f as u8) {
            lemma_fuel_function(s, b, d, f as u8, k1, k2, m);
        }
        if i1.len() < m + 1 {
            lemma_fuel_functions(s, b, d, f + 1, k1, k2, (m - i1.len()) as nat);
        }
        lemma_upto_concat(i1, functions_from(s, b, d, f + 1, k1), i2, functions_from(s, b, d, f + 1, k2), m + 1);
    }
}

proof fn lemma_fuel_device(s: Seq<(u32, u32)>, b: u8, d: u8, k1: nat, k2: nat, m: nat)
    requires
        m <= k1,
        m <= k2,
    ensures
        upto(device_list(s, b, d, k1), m + 1) == upto(device_list(s, b, d, k2), m + 1),
    decreases k1, 2int, 0int,
{
    let single = single_function(header_type_of(s, b, d, 0));
    let o1 = if single { Seq::empty() } else { functions_from(s, b, d, 1, k1) };
    let o2 = if single { Seq::empty() } else { functions_from(s, b, d, 1, k2) };
    let f1 = function_list(s, b, d, 0, k1);
    lemma_fuel_function(s, b, d, 0, k1, k2, m);
    if f1.len() < m + 1 {
        lemma_fuel_functions(s, b, d, 1, k1, k2, (m - f1.len()) as nat);
    }
    lemma_upto_concat(f1, o1, function_list(s, b, d, 0, k2), o2, m + 1);
}

proof fn lemma_fuel_devices(s: Seq<(u32, u32)>, b: u8, d: int, k1: nat, k2: nat, m: nat)
    requires
        m <= k1,
        m <= k2,
    ensures
        upto(devices_from(s, b, d, k1), m + 1) == upto(devices_from(s, b, d, k2), m + 1),
    decreases k1, 3int, 32 - d,
{
    if 0 <= d < 32 {
        let i1 = if present(s, b, d as u8, 0) { device_list(s, b, d as u8, k1) } else { Seq::empty() };
        let i2 = if present(s, b, d as u8, 0) { device_list(s, b, d as u8, k2) } else { Seq::empty() };
        if present(s, b, d as u8, 0) {
            lemma_fuel_device(s, b, d as u8, k1, k2, m);
        }
        if i1.len() < m + 1 {
            lemma_fuel_devices(s, b, d + 1, k1, k2, (m - i1.len()) as nat);
        }
        lemma_upto_concat(i1, devices_from(s, b, d + 1, k1), i2, devices_from(s, b, d + 1, k2), m + 1);
    }
}

proof fn lemma_fuel_bus(s: Seq<(u32, u32)>, b: u8, k1: nat, k2: nat, m: nat)
    requires
        m <= k1,
        m <= k2,
    ensures
        upto(bus_list(s, b, k1), m + 1) == upto(bus_list(s, b, k2), m + 1),
    decreases k1, 4int, 0int,
{
    lemma_fuel_devices(s, b, 0, k1, k2, m);
}

proof fn lemma_outcome_then(before: Seq<Device>, l1: Seq<Device>, mid: Seq<Device>, l2: Seq<Device>, after: Seq<Device>, r: Error)
    requires
        before.len() <= MAX_DEVICES,
        scan_outcome(before, l1, mid, error_of(Code::Success)),
        scan_outcome(mid, l2, after, r),
    ensures
        scan_outcome(before, l1 + l2, after, r),
{
    assert(before.len() + l1.len() <= MAX_DEVICES);
    assert(mid == before + l1);
    if mid.len() + l2.len() <= MAX_DEVICES {
        assert(before + (l1 + l2) =~= mid + l2);
    } else {
        assert(before + (l1 + l2).take(MAX_DEVICES - before.len()) =~= mid + l2.take(MAX_DEVICES - mid.len()));
    }
}

proof fn lemma_outcome_full(before: Seq<Device>, l1: Seq<Device>, after: Seq<Device>, l2: Seq<Device>)
    requires
        before.len() <= MAX_DEVICES,
        scan_outcome(before, l1, after, error_of(Code::Full)),
    ensures
        scan_outcome(before, l1 + l2, after, error_of(Code::Full)),
{
    assert(before.len() + l1.len() > MAX_DEVICES);
    assert((l1 + l2).take(MAX_DEVICES - before.len()) =~= l1.take(MAX_DEVICES - before.len()));
}

proof fn lemma_outcome_empty(before: Seq<Device>)
    requires
        before.len() <= MAX_DEVICES,
    ensures
        scan_outcome(before, Seq::empty(), before, error_of(Code::Success)),
{
    assert(before + Seq::<Device>::empty() =~= before);
}

} // verus!

verus! {

fn scan_function(cs: &ConfigSpace, reg: &mut DeviceRegistry, bus: u8, device: u8, function: u8) -> (r: Error)
    requires
        old(reg).devices@.len() <= MAX_DEVICES,
        present(cs.regs@, bus, device, function),
    ensures
        old(reg).devices@.len() <= final(reg).devices@.len() <= MAX_DEVICES,
        final(reg).initialized == old(reg).initialized,
        records_present(cs.regs@, old(reg).devices@, final(reg).devices@),
        r == error_of(Code::Success) || r == error_of(Code::Full),
        scan_outcome(
            old(reg).devices@,
            function_list(cs.regs@, bus, device, function, room(old(reg).devices@)),
            final(reg).devices@,
            r,
        ),
    decreases MAX_DEVICES + 1 - old(reg).devices@.len(), 0int,
{
    let ghost s = cs.regs@;
    let ghost before = reg.devices@;
    let ghost k = room(before);
    let ghost sec = secondary_bus_of(s, bus, device, function);
    let ghost rest = if is_bridge(s, bus, device, function) && k > 0 {
        bus_list(s, sec, (k - 1) as nat)
    } else {
        Seq::empty()
    };
    let header_type = read_header_type(cs, bus, device, function);
    let dev = Device { bus, device, function, header_type };
    let e = reg.add_device(dev);
    proof {
        assert(function_list(s, bus, device, function, k) == seq![dev] + rest);
    }
    if e != Error::new(Code::Success) {
        proof {
            assert(before + seq![dev].take(MAX_DEVICES - before.len()) =~= before);
            lemma_outcome_full(before, seq![dev], reg.devices@, rest);
            lemma_records_refl(s, before);
        }
        return e;
    }
    proof {
        assert(before + seq![dev] =~= reg.devices@);
        lemma_records_push(s, before, dev);
    }
    let class_code = read_class_code(cs, bus, device, function);
    let base = (class_code >> 24u32) & 0xff;
    let sub = (class_code >> 16u32) & 0xff;
    if base == 0x06 && sub == 0x04 {
        let bus_numbers = read_bus_numbers(cs, bus, device, function);
        let secondary_bus = ((bus_numbers >> 8u32) & 0xff) as u8;
        let ghost mid = reg.devices@;
        let r = scan_bus(cs, reg, secondary_bus);
        proof {
            lemma_records_trans(s, before, mid, reg.devices@);
            assert(is_bridge(s, bus, device, function));
            assert(room(mid) == k - 1);
            lemma_outcome_then(before, seq![dev], mid, rest, reg.devices@, r);
        }
        return r;
    }
    proof {
        assert(!is_bridge(s, bus, device, function));
        assert(seq![dev] + rest =~= seq![dev]);
        assert(before + (seq![dev] + rest) =~= reg.devices@);
    }
    Error::new(Code::Success)
}

fn scan_device(cs: &ConfigSpace, reg: &mut DeviceRegistry, bus: u8, device: u8) -> (r: Error)
    requires
        old(reg).devices@.len() <= MAX_DEVICES,
        present(cs.regs@, bus, device, 0),
    ensures
        old(reg).devices@.len() <= final(reg).devices@.len() <= MAX_DEVICES,
        final(reg).initialized == old(reg).initialized,
        records_present(cs.regs@, old(reg).devices@, final(reg).devices@),
        r == error_of(Code::Success) || r == error_of(Code::Full),
        scan_outcome(
            old(reg).devices@,
            device_list(cs.regs@, bus, device, room(old(reg).devices@)),
            final(reg).devices@,
            r,
        ),
    decreases MAX_DEVICES + 1 - old(reg).devices@.len(), 1int,
{
    let ghost s = cs.regs@;
    let ghost before = reg.devices@;
    let ghost k = room(before);
    let ghost first = function_list(s, bus, device, 0, k);
    let ghost others = if single_function(header_type_of(s, bus, device, 0)) {
        Seq::empty()
    } else {
        functions_from(s, bus, device, 1, k)
    };
    let e = scan_function(cs, reg, bus, device, 0);
    if e != Error::new(Code::Success) {
        proof {
            lemma_outcome_full(before, first, reg.devices@, others);
        }
        return e;
    }
    if is_single_function_device(read_header_type(cs, bus, device, 0)) {
        proof {
            assert(first + others =~= first);
        }
        return Error::new(Code::Success);
    }
    let ghost mut p = first;
    let mut function: u8 = 1;
    while function < 8
        invariant
            1 <= function <= 8,
            before.len() <= reg.devices@.len() <= MAX_DEVICES,
            before.len() <= MAX_DEVICES,
            reg.initialized == old(reg).initialized,
            before == old(reg).devices@,
            s == cs.regs@,
            k == room(before),
            others == functions_from(s, bus, device, 1, k),
            scan_outcome(before, p, reg.devices@, error_of(Code::Success)),
            p + functions_from(s, bus, device, function as int, k) == first + others,
            records_present(s, before, reg.devices@),
            first == function_list(s, bus, device, 0, k),
            device_list(s, bus, device, k) == first + others,
        decreases 8 - function,
    {
        let ghost cur = reg.devices@;
        let ghost item = if present(s, bus, device, function) {
            function_list(s, bus, device, function, k)
        } else {
            Seq::empty()
        };
        let ghost tail = functions_from(s, bus, device, function + 1, k);
        proof {
            assert(functions_from(s, bus, device, function as int, k) == item + tail);
            assert(p + (item + tail) =~= (p + item) + tail);
        }
        if read_vendor_id(cs, bus, device, function) != 0xffff {
            let e = scan_function(cs, reg, bus, device, function);
            proof {
                lemma_records_trans(s, before, cur, reg.devices@);
                lemma_fuel_function(s, bus, device, function, room(cur), k, room(cur));
                lemma_outcome_upto(cur, function_list(s, bus, device, function, room(cur)), item, reg.devices@, e);
            }
            if e != Error::new(Code::Success) {
                proof {
                    lemma_outcome_then(before, p, cur, item, reg.devices@, e);
                    lemma_outcome_full(before, p + item, reg.devices@, tail);
                }
                return e;
            }
            proof {
                lemma_outcome_then(before, p, cur, item, reg.devices@, e);
            }
        } else {
            proof {
                assert(p + item =~= p);
            }
        }
        proof {
            p = p + item;
        }
        function = function + 1;
    }
    proof {
        assert(p + functions_from(s, bus, device, 8, k) =~= p);
    }
    Error::new(Code::Success)
}

fn scan_bus(cs: &ConfigSpace, reg: &mut DeviceRegistry, bus: u8) -> (r: Error)
    requires
        old(reg).devices@.len() <= MAX_DEVICES,
    ensures
        old(reg).devices@.len() <= final(reg).devices@.len() <= MAX_DEVICES,
        final(reg).initialized == old(reg).initialized,
        records_present(cs.regs@, old(reg).devices@, final(reg).devices@),
        r == error_of(Code::Success) || r == error_of(Code::Full),
        scan_outcome(
            old(reg).devices@,
            bus_list(cs.regs@, bus, room(old(reg).devices@)),
            final(reg).devices@,
            r,
        ),
    decreases MAX_DEVICES + 1 - old(reg).devices@.len(), 2int,
{
    let ghost s = cs.regs@;
    let ghost before = reg.devices@;
    let ghost mut p: Seq<Device> = Seq::empty();
    proof {
        lemma_outcome_empty(before);
        lemma_records_refl(s, before);
        assert(p + devices_from(s, bus, 0, room(before)) =~= bus_list(s, bus, room(before)));
    }
    let mut device: u8 = 0;
    while device < 32
        invariant
            device <= 32,
            before.len() <= reg.devices@.len() <= MAX_DEVICES,
            before.len() <= MAX_DEVICES,
            reg.initialized == old(reg).initialized,
            before == old(reg).devices@,
            s == cs.regs@,
            scan_outcome(before, p, reg.devices@, error_of(Code::Success)),
            p + devices_from(s, bus, device as int, room(before)) == bus_list(s, bus, room(before)),
            records_present(s, before, reg.devices@),
        decreases 32 - device,
    {
        let ghost cur = reg.devices@;
        let ghost k = room(before);
        let ghost item = if present(s, bus, device, 0) {
            device_list(s, bus, device, k)
        } else {
            Seq::empty()
        };
        let ghost tail = devices_from(s, bus, device + 1, k);
        proof {
            assert(devices_from(s, bus, device as int, k) == item + tail);
            assert(p + (item + tail) =~= (p + item) + tail);
        }
        if read_vendor_id(cs, bus, device, 0) != 0xffff {
            let e = scan_device(cs, reg, bus, device);
            proof {
                lemma_records_trans(s, before, cur, reg.devices@);
                lemma_fuel_device(s, bus, device, room(cur), k, room(cur));
                lemma_outcome_upto(cur, device_list(s, bus, device, room(cur)), item, reg.devices@, e);
            }
            if e != Error::new(Code::Success) {
                proof {
                    lemma_outcome_then(before, p, cur, item, reg.devices@, e);
                    lemma_outcome_full(before, p + item, reg.devices@, tail);
                }
                return e;
            }
            proof {
                lemma_outcome_then(before, p, cur, item, reg.devices@, e);
            }
        } else {
            proof {
                assert(p + item =~= p);
            }
        }
        proof {
            p = p + item;
        }
        device = device + 1;
    }
    proof {
        assert(p + devices_from(s, bus, 32, room(before)) =~= p);
    }
    Error::new(Code::Success)
}

} // verus!

verus! {

/// Base class 0x0c (serial bus), subclass 0x03 (USB) and the given
/// programming interface.
pub open spec fn is_usb_controller(class_code: u32, interface: u32) -> bool {
    (class_code >> 24u32) & 0xff == 0x0c && (class_code >> 16u32) & 0xff == 0x03 && (class_code >> 8u32)
        & 0xff == interface
}

/// An xHCI host controller (interface 0x30).
pub open spec fn is_xhc(s: Seq<(u32, u32)>, d: Device) -> bool {
    is_usb_controller(class_code_of(s, d.bus, d.device, d.function), 0x30)
}

/// The vendor id of Intel.
pub const INTEL_VENDOR_ID: u16 = 0x8086;

/// An Intel EHCI controller (interface 0x20), whose ports can be handed to
/// the xHCI controller.
pub open spec fn is_intel_ehci(s: Seq<(u32, u32)>, d: Device) -> bool {
    &&& is_usb_controller(class_code_of(s, d.bus, d.device, d.function), 0x20)
    &&& vendor_id_of(s, d.bus, d.device, d.function) == INTEL_VENDOR_ID
}

/// The writes that hand the ports of an Intel EHCI controller to xHCI: the
/// superspeed ports (register 0xdc) to the superspeed enable register (0xd8),
/// then the USB 2 ports (0xd4) to the port routing register (0xd0).
pub open spec fn handoff_writes(s: Seq<(u32, u32)>, d: Device) -> Seq<(u32, u32)> {
    seq![
        (config_address(d.bus, d.device, d.function, 0xd8), reg_value(s, d.bus, d.device, d.function, 0xdc)),
        (config_address(d.bus, d.device, d.function, 0xd0), reg_value(s, d.bus, d.device, d.function, 0xd4)),
    ]
}

/// The 64-bit value of the base address register pair at `bar`.
pub open spec fn bar_value(s: Seq<(u32, u32)>, d: Device, bar: u8) -> u64 {
    let low = reg_value(s, d.bus, d.device, d.function, (0x10 + bar * 4) as u8);
    let high = reg_value(s, d.bus, d.device, d.function, (0x14 + bar * 4) as u8);
    ((high as u64) << 32u64) | (low as u64)
}

proof fn lemma_handoff_addresses_differ(bus: u8, device: u8, function: u8)
    ensures
        config_address(bus, device, function, 0xd8) != config_address(bus, device, function, 0xd4),
{
    assert(0x8000_0000u32 | ((bus as u32) << 16u32) | ((device as u32) << 11u32) | ((function as u32) << 8u32)
        | ((0xd8u8 & 0xfc) as u32) != 0x8000_0000u32 | ((bus as u32) << 16u32) | ((device as u32) << 11u32)
        | ((function as u32) << 8u32) | ((0xd4u8 & 0xfc) as u32)) by (bit_vector);
}

impl Device {
    /// Scans the buses once. A second call is refused with
    /// `AlreadyAllocated` and leaves the registry as it was.
    pub fn initialize(reg: &mut DeviceRegistry, cs: &ConfigSpace) -> (r: Error)
        requires
            old(reg).devices@.len() <= MAX_DEVICES,
        ensures
            final(reg).devices@.len() <= MAX_DEVICES,
            final(reg).initialized,
            old(reg).initialized ==> r == error_of(Code::AlreadyAllocated) && final(reg).devices@
                == old(reg).devices@,
            !old(reg).initialized ==> (r == error_of(Code::Success) || r == error_of(Code::Full)),
            records_present(cs.regs@, old(reg).devices@, final(reg).devices@),
            !old(reg).initialized ==> scan_outcome(
                old(reg).devices@,
                all_devices(cs.regs@, room(old(reg).devices@)),
                final(reg).devices@,
                r,
            ),
    {
        if reg.initialized {
            proof {
                lemma_records_refl(cs.regs@, reg.devices@);
            }
            return Error::new(Code::AlreadyAllocated);
        }
        reg.initialized = true;
        Device::scan_all_bus(cs, reg)
    }

    /// The `n`-th device found, if there is one.
    pub fn get_device(reg: &DeviceRegistry, n: usize) -> (r: Option<Device>)
        ensures
            n < reg.devices@.len() ==> r == Some(reg.devices@[n as int]),
            n >= reg.devices@.len() ==> r is None,
    {
        if n < reg.devices.len() {
            Some(reg.devices[n])
        } else {
            None
        }
    }

    pub fn num_devices(reg: &DeviceRegistry) -> (r: usize)
        ensures
            r == reg.devices@.len(),
    {
        reg.devices.len()
    }

    /// The first registered xHCI host controller; nothing before the scan.
    pub fn find_xhc_device(reg: &DeviceRegistry, cs: &ConfigSpace) -> (r: Option<Device>)
        ensures
            !reg.initialized ==> r is None,
            reg.initialized ==> match r {
                Some(d) => exists|i: int|
                    0 <= i < reg.devices@.len() && reg.devices@[i] == d && is_xhc(cs.regs@, d) && forall|j: int|
                        0 <= j < i ==> !is_xhc(cs.regs@, #[trigger] reg.devices@[j]),
                None => forall|j: int| 0 <= j < reg.devices@.len() ==> !is_xhc(cs.regs@, #[trigger] reg.devices@[j]),
            },
    {
        if !reg.initialized {
            return None;
        }
        let mut i: usize = 0;
        while i < reg.devices.len()
            invariant
                i <= reg.devices@.len(),
                reg.initialized,
                forall|j: int| 0 <= j < i ==> !is_xhc(cs.regs@, #[trigger] reg.devices@[j]),
            decreases reg.devices@.len() - i,
        {
            let device = reg.devices[i];
            let class_code = device.read_class_code(cs);
            let base = (class_code >> 24u32) & 0xff;
            let sub = (class_code >> 16u32) & 0xff;
            let interface = (class_code >> 8u32) & 0xff;
            if base == 0x0c && sub == 0x03 && interface == 0x30 {
                return Some(device);
            }
            i = i + 1;
        }
        None
    }

    /// Hands the ports of an Intel EHCI controller over to xHCI; any other
    /// device is refused with `UnknownDevice` and nothing is written.
    pub fn switch_ehci2xhci(&self, cs: &mut ConfigSpace) -> (r: Result<()>)
        ensures
            is_intel_ehci(old(cs).regs@, *self) ==> r is Ok && final(cs).writes@ == old(cs).writes@ + handoff_writes(
                old(cs).regs@,
                *self,
            ),
            !is_intel_ehci(old(cs).regs@, *self) ==> r == Err::<(), Error>(error_of(Code::UnknownDevice))
                && final(cs).writes@ == old(cs).writes@ && final(cs).regs@ == old(cs).regs@,
    {
        let class_code = self.read_class_code(cs);
        let base = (class_code >> 24u32) & 0xff;
        let sub = (class_code >> 16u32) & 0xff;
        let interface = (class_code >> 8u32) & 0xff;
        if base == 0x0c && sub == 0x03 && interface == 0x20 && self.read_vendor_id(cs) == INTEL_VENDOR_ID {
            let ghost s = cs.regs@;
            let ghost w = cs.writes@;
            let superspeed_ports = self.read_reg(cs, 0xdc);
            self.write_reg(cs, 0xd8, superspeed_ports);
            let ehci2xhci_ports = self.read_reg(cs, 0xd4);
            proof {
                lemma_handoff_addresses_differ(self.bus, self.device, self.function);
                assert(cs.regs@.drop_last() == s);
            }
            self.write_reg(cs, 0xd0, ehci2xhci_ports);
            proof {
                assert(cs.writes@ =~= w + handoff_writes(s, *self));
            }
            Ok(())
        } else {
            Err(Error::new(Code::UnknownDevice))
        }
    }

    /// Scans from the host bridge: bus 0 when it is a single-function device,
    /// else the bus of each of its present functions.
    pub fn scan_all_bus(cs: &ConfigSpace, reg: &mut DeviceRegistry) -> (r: Error)
        requires
            old(reg).devices@.len() <= MAX_DEVICES,
        ensures
            old(reg).devices@.len() <= final(reg).devices@.len() <= MAX_DEVICES,
            final(reg).initialized == old(reg).initialized,
            records_present(cs.regs@, old(reg).devices@, final(reg).devices@),
        r == error_of(Code::Success) || r == error_of(Code::Full),
            scan_outcome(
                old(reg).devices@,
                all_devices(cs.regs@, room(old(reg).devices@)),
                final(reg).devices@,
                r,
            ),
    {
        let ghost s = cs.regs@;
        let ghost before = reg.devices@;
        let header_type = read_header_type(cs, 0, 0, 0);
        if is_single_function_device(header_type) {
            return scan_bus(cs, reg, 0);
        }
        let ghost mut p: Seq<Device> = Seq::empty();
        proof {
            lemma_outcome_empty(before);
            lemma_records_refl(s, before);
            assert(p + root_buses_from(s, 0, room(before)) =~= all_devices(s, room(before)));
        }
        let mut function: u8 = 0;
        while function < 8
            invariant
                function <= 8,
                before.len() <= reg.devices@.len() <= MAX_DEVICES,
                before.len() <= MAX_DEVICES,
                reg.initialized == old(reg).initialized,
                before == old(reg).devices@,
                s == cs.regs@,
                scan_outcome(before, p, reg.devices@, error_of(Code::Success)),
                p + root_buses_from(s, function as int, room(before)) == all_devices(s, room(before)),
                records_present(s, before, reg.devices@),
            decreases 8 - function,
        {
            let ghost cur = reg.devices@;
            let ghost k = room(before);
            let ghost item = if present(s, 0, 0, function) {
                bus_list(s, function, k)
            } else {
                Seq::empty()
            };
            let ghost tail = root_buses_from(s, function + 1, k);
            proof {
                assert(root_buses_from(s, function as int, k) == item + tail);
                assert(p + (item + tail) =~= (p + item) + tail);
            }
            if read_vendor_id(cs, 0, 0, function) != 0xffff {
                let e = scan_bus(cs, reg, function);
                proof {
                    lemma_records_trans(s, before, cur, reg.devices@);
                    lemma_fuel_bus(s, function, room(cur), k, room(cur));
                    lemma_outcome_upto(cur, bus_list(s, function, room(cur)), item, reg.devices@, e);
                }
                if e != Error::new(Code::Success) {
                    proof {
                        lemma_outcome_then(before, p, cur, item, reg.devices@, e);
                        lemma_outcome_full(before, p + item, reg.devices@, tail);
                    }
                    return e;
                }
                proof {
                    lemma_outcome_then(before, p, cur, item, reg.devices@, e);
                }
            } else {
                proof {
                    assert(p + item =~= p);
                }
            }
            proof {
                p = p + item;
            }
            function = function + 1;
        }
        proof {
            assert(p + root_buses_from(s, 8, room(before)) =~= p);
        }
        Error::new(Code::Success)
    }

    pub fn read_vendor_id(&self, cs: &ConfigSpace) -> (r: u16)
        ensures
            r == vendor_id_of(cs.regs@, self.bus, self.device, self.function),
    {
        read_vendor_id(cs, self.bus, self.device, self.function)
    }

    pub fn read_device_id(&self, cs: &ConfigSpace) -> (r: u16)
        ensures
            r == device_id_of(cs.regs@, self.bus, self.device, self.function),
    {
        read_device_id(cs, self.bus, self.device, self.function)
    }

    pub fn read_header_type(&self, cs: &ConfigSpace) -> (r: u8)
        ensures
            r == header_type_of(cs.regs@, self.bus, self.device, self.function),
    {
        read_header_type(cs, self.bus, self.device, self.function)
    }

    pub fn read_class_code(&self, cs: &ConfigSpace) -> (r: u32)
        ensures
            r == class_code_of(cs.regs@, self.bus, self.device, self.function),
    {
        read_class_code(cs, self.bus, self.device, self.function)
    }

    pub fn read_bus_numbers(&self, cs: &ConfigSpace) -> (r: u32)
        ensures
            r == bus_numbers_of(cs.regs@, self.bus, self.device, self.function),
    {
        read_bus_numbers(cs, self.bus, self.device, self.function)
    }

    fn read_reg(&self, cs: &ConfigSpace, reg_addr: u8) -> (r: u32)
        ensures
            r == reg_value(cs.regs@, self.bus, self.device, self.function, reg_addr),
    {
        cs.read(make_address(self.bus, self.device, self.function, reg_addr))
    }

    fn write_reg(&self, cs: &mut ConfigSpace, reg_addr: u8, value: u32)
        ensures
            final(cs).regs@ == old(cs).regs@.push(
                (config_address(self.bus, self.device, self.function, reg_addr), value),
            ),
            final(cs).writes@ == old(cs).writes@.push(
                (config_address(self.bus, self.device, self.function, reg_addr), value),
            ),
    {
        cs.write(make_address(self.bus, self.device, self.function, reg_addr), value);
    }

    /// The 64-bit base address held by the register pair at `bar`; only 0
    /// and 4 name a pair, any other `bar` gives `IndexOutOfRange`.
    pub fn read_bar(&self, cs: &ConfigSpace, bar: u8) -> (r: Result<u64>)
        ensures
            (bar == 0 || bar == 4) ==> r == Ok::<u64, Error>(bar_value(cs.regs@, *self, bar)),
            !(bar == 0 || bar == 4) ==> r == Err::<u64, Error>(error_of(Code::IndexOutOfRange)),
    {
        if bar >= 5 {
            return Err(Error::new(Code::IndexOutOfRange));
        } else if bar % 4 != 0 {
            return Err(Error::new(Code::IndexOutOfRange));
        }
        let offset1 = 0x10 + bar * 4;
        let bar1 = self.read_reg(cs, offset1) as u64;
        let offset2 = offset1 + 4;
        let bar2 = self.read_reg(cs, offset2) as u64;
        Ok((bar2 << 32u64) | bar1)
    }
}

} // verus!

verus! {

/// Whether a function answers: the vendor id, the low half of register 0, is
/// not all ones.
pub fn function_present(id_register: u32) -> (r: bool)
    ensures
        r == (id_register as u16 != 0xffff),
{
    id_register as u16 != 0xffff
}

/// The address held by a memory base address register: its low four bits
/// are flags, not address.
pub fn bar_address(bar: u64) -> (r: u64)
    ensures
        r == bar & !0xfu64,
{
    bar & !0xfu64
}

} // verus!


verus! {

/// The last bus behind a bridge.
pub open spec fn subordinate_bus_of(s: Seq<(u32, u32)>, bus: u8, device: u8, function: u8) -> u8 {
    ((bus_numbers_of(s, bus, device, function) >> 16u32) & 0xff) as u8
}

/// Bus `x` lies in the range of buses behind bridge `(b, d, f)`.
pub open spec fn behind(s: Seq<(u32, u32)>, b: u8, d: u8, f: u8, x: int) -> bool {
    secondary_bus_of(s, b, d, f) <= x <= subordinate_bus_of(s, b, d, f)
}

/// Bridges numbered as PCI firmware numbers them: each bridge's range of
/// buses lies above its own bus, a bridge on a bus behind another bridge has
/// its range inside that bridge's range, and the ranges of two bridges
/// overlap only when one bridge lies behind the other.
pub open spec fn well_numbered(s: Seq<(u32, u32)>) -> bool {
    &&& forall|b: u8, d: u8, f: u8|
        #[trigger] is_bridge(s, b, d, f) ==> b < secondary_bus_of(s, b, d, f) <= subordinate_bus_of(s, b, d, f)
    &&& forall|b1: u8, d1: u8, f1: u8, b2: u8, d2: u8, f2: u8|
        #[trigger] is_bridge(s, b1, d1, f1) && #[trigger] is_bridge(s, b2, d2, f2) && behind(s, b2, d2, f2, b1 as int)
            ==> secondary_bus_of(s, b2, d2, f2) <= secondary_bus_of(s, b1, d1, f1) && subordinate_bus_of(
            s,
            b1,
            d1,
            f1,
        ) <= subordinate_bus_of(s, b2, d2, f2)
    &&& forall|b1: u8, d1: u8, f1: u8, b2: u8, d2: u8, f2: u8|
        #[trigger] is_bridge(s, b1, d1, f1) && #[trigger] is_bridge(s, b2, d2, f2) && (b1 != b2 || d1 != d2 || f1
            != f2) ==> subordinate_bus_of(s, b1, d1, f1) < secondary_bus_of(s, b2, d2, f2) || subordinate_bus_of(
            s,
            b2,
            d2,
            f2,
        ) < secondary_bus_of(s, b1, d1, f1) || behind(s, b2, d2, f2, b1 as int) || behind(s, b1, d1, f1, b2 as int)
}

/// Every device of `list` lies on a bus in `[lo, hi]`.
pub open spec fn buses_within(list: Seq<Device>, lo: int, hi: int) -> bool {
    forall|i: int| 0 <= i < list.len() ==> lo <= (#[trigger] list[i]).bus <= hi
}

proof fn lemma_within_concat(a: Seq<Device>, b: Seq<Device>, lo: int, hi: int)
    requires
        buses_within(a, lo, hi),
        buses_within(b, lo, hi),
    ensures
        buses_within(a + b, lo, hi),
{
    assert forall|i: int| 0 <= i < (a + b).len() implies lo <= (#[trigger] (a + b)[i]).bus <= hi by {
        if i >= a.len() {
            assert((a + b)[i] == b[i - a.len()]);
        }
    }
}

/// Behind a bridge with range `[lo, hi]`, the scan of any bus `x` in that
/// range records only devices on buses in that range.
proof fn lemma_function_within(s: Seq<(u32, u32)>, k: nat, x: u8, d: u8, f: u8, lo: int, hi: int, bb: u8, bd: u8, bf: u8)
    requires
        well_numbered(s),
        is_bridge(s, bb, bd, bf),
        lo == secondary_bus_of(s, bb, bd, bf),
        hi == subordinate_bus_of(s, bb, bd, bf),
        lo <= x <= hi,
    ensures
        buses_within(function_list(s, x, d, f, k), lo, hi),
    decreases k, 0int, 0int,
{
    let sec = secondary_bus_of(s, x, d, f);
    let rest = if is_bridge(s, x, d, f) && k > 0 {
        bus_list(s, sec, (k - 1) as nat)
    } else {
        Seq::empty()
    };
    if is_bridge(s, x, d, f) && k > 0 {
        assert(behind(s, bb, bd, bf, x as int));
        lemma_bus_within(s, (k - 1) as nat, sec, lo, hi, bb, bd, bf);
    }
    lemma_within_concat(seq![found(s, x, d, f)], rest, lo, hi);
}

proof fn lemma_functions_within(s: Seq<(u32, u32)>, k: nat, x: u8, d: u8, f: int, lo: int, hi: int, bb: u8, bd: u8, bf: u8)
    requires
        well_numbered(s),
        is_bridge(s, bb, bd, bf),
        lo == secondary_bus_of(s, bb, bd, bf),
        hi == subordinate_bus_of(s, bb, bd, bf),
        lo <= x <= hi,
    ensures
        buses_within(functions_from(s, x, d, f, k), lo, hi),
    decreases k, 1int, 8 - f,
{
    if 1 <= f < 8 {
        let item = if present(s, x, d, f as u8) {
            function_list(s, x, d, f as u8, k)
        } else {
            Seq::empty()
        };
        if present(s, x, d, f as u8) {
            lemma_function_within(s, k, x, d, f as u8, lo, hi, bb, bd, bf);
        }
        lemma_functions_within(s, k, x, d, f + 1, lo, hi, bb, bd, bf);
        lemma_within_concat(item, functions_from(s, x, d, f + 1, k), lo, hi);
    }
}

proof fn lemma_device_within(s: Seq<(u32, u32)>, k: nat, x: u8, d: u8, lo: int, hi: int, bb: u8, bd: u8, bf: u8)
    requires
        well_numbered(s),
        is_bridge(s, bb, bd, bf),
        lo == secondary_bus_of(s, bb, bd, bf),
        hi == subordinate_bus_of(s, bb, bd, bf),
        lo <= x <= hi,
    ensures
        buses_within(device_list(s, x, d, k), lo, hi),
    decreases k, 2int, 0int,
{
    lemma_function_within(s, k, x, d, 0, lo, hi, bb, bd, bf);
    lemma_functions_within(s, k, x, d, 1, lo, hi, bb, bd, bf);
    let others = if single_function(header_type_of(s, x, d, 0)) {
        Seq::empty()
    } else {
        functions_from(s, x, d, 1, k)
    };
    lemma_within_concat(function_list(s, x, d, 0, k), others, lo, hi);
}

proof fn lemma_devices_within(s: Seq<(u32, u32)>, k: nat, x: u8, d: int, lo: int, hi: int, bb: u8, bd: u8, bf: u8)
    requires
        well_numbered(s),
        is_bridge(s, bb, bd, bf),
        lo == secondary_bus_of(s, bb, bd, bf),
        hi == subordinate_bus_of(s, bb, bd, bf),
        lo <= x <= hi,
    ensures
        buses_within(devices_from(s, x, d, k), lo, hi),
    decreases k, 3int, 32 - d,
{
    if 0 <= d < 32 {
        let item = if present(s, x, d as u8, 0) {
            device_list(s, x, d as u8, k)
        } else {
            Seq::empty()
        };
        if present(s, x, d as u8, 0) {
            lemma_device_within(s, k, x, d as u8, lo, hi, bb, bd, bf);
        }
        lemma_devices_within(s, k, x, d + 1, lo, hi, bb, bd, bf);
        lemma_within_concat(item, devices_from(s, x, d + 1, k), lo, hi);
    }
}

proof fn lemma_bus_within(s: Seq<(u32, u32)>, k: nat, x: u8, lo: int, hi: int, bb: u8, bd: u8, bf: u8)
    requires
        well_numbered(s),
        is_bridge(s, bb, bd, bf),
        lo == secondary_bus_of(s, bb, bd, bf),
        hi == subordinate_bus_of(s, bb, bd, bf),
        lo <= x <= hi,
    ensures
        buses_within(bus_list(s, x, k), lo, hi),
    decreases k, 4int, 0int,
{
    lemma_devices_within(s, k, x, 0, lo, hi, bb, bd, bf);
}

} // verus!

verus! {

/// Device `e` is recorded by the scan of function `(x, d, f)`: it is that
/// function, or lies on a bus behind it when it is a bridge.
pub open spec fn from_function(s: Seq<(u32, u32)>, x: u8, d: u8, f: u8, e: Device) -> bool {
    (e.bus == x && e.device == d && e.function == f) || (is_bridge(s, x, d, f) && behind(s, x, d, f, e.bus as int))
}

pub open spec fn from_functions(s: Seq<(u32, u32)>, x: u8, d: u8, f: int, e: Device) -> bool {
    exists|f2: u8| f <= f2 && #[trigger] from_function(s, x, d, f2, e)
}

pub open spec fn from_devices(s: Seq<(u32, u32)>, x: u8, d: int, e: Device) -> bool {
    exists|d2: u8, f2: u8| d <= d2 && #[trigger] from_function(s, x, d2, f2, e)
}

/// A device is recorded by at most one function of a bus.
proof fn lemma_unique_origin(s: Seq<(u32, u32)>, x: u8, d1: u8, f1: u8, d2: u8, f2: u8, e: Device)
    requires
        well_numbered(s),
        from_function(s, x, d1, f1, e),
        from_function(s, x, d2, f2, e),
    ensures
        d1 == d2 && f1 == f2,
{
    if is_bridge(s, x, d1, f1) {
        assert(x < secondary_bus_of(s, x, d1, f1));
    }
    if is_bridge(s, x, d2, f2) {
        assert(x < secondary_bus_of(s, x, d2, f2));
    }
    if is_bridge(s, x, d1, f1) && is_bridge(s, x, d2, f2) && (d1 != d2 || f1 != f2) {
        assert(subordinate_bus_of(s, x, d1, f1) < secondary_bus_of(s, x, d2, f2) || subordinate_bus_of(s, x, d2, f2)
            < secondary_bus_of(s, x, d1, f1));
    }
}

proof fn lemma_no_dup_concat(a: Seq<Device>, b: Seq<Device>)
    requires
        a.no_duplicates(),
        b.no_duplicates(),
        forall|i: int, j: int| 0 <= i < a.len() && 0 <= j < b.len() ==> a[i] != b[j],
    ensures
        (a + b).no_duplicates(),
{
    assert forall|i: int, j: int| 0 <= i < (a + b).len() && 0 <= j < (a + b).len() && i != j implies (a
        + b)[i] != (a + b)[j] by {
        if i < a.len() && j >= a.len() {
            assert((a + b)[j] == b[j - a.len()]);
        } else if i >= a.len() && j < a.len() {
            assert((a + b)[i] == b[i - a.len()]);
        } else if i >= a.len() && j >= a.len() {
            assert((a + b)[i] == b[i - a.len()]);
            assert((a + b)[j] == b[j - a.len()]);
        }
    }
}

proof fn lemma_function_once(s: Seq<(u32, u32)>, k: nat, x: u8, d: u8, f: u8)
    requires
        well_numbered(s),
    ensures
        function_list(s, x, d, f, k).no_duplicates(),
        forall|i: int|
            0 <= i < function_list(s, x, d, f, k).len() ==> from_function(s, x, d, f, #[trigger] function_list(s, x, d, f, k)[i]),
    decreases k, 0int, 0int,
{
    let sec = secondary_bus_of(s, x, d, f);
    let head = seq![found(s, x, d, f)];
    let rest = if is_bridge(s, x, d, f) && k > 0 {
        bus_list(s, sec, (k - 1) as nat)
    } else {
        Seq::empty()
    };
    let l = function_list(s, x, d, f, k);
    assert(l == head + rest);
    if is_bridge(s, x, d, f) && k > 0 {
        lemma_bus_once(s, (k - 1) as nat, sec);
        lemma_bus_within(s, (k - 1) as nat, sec, sec as int, subordinate_bus_of(s, x, d, f) as int, x, d, f);
    }
    assert forall|i: int, j: int| 0 <= i < head.len() && 0 <= j < rest.len() implies head[i] != rest[j] by {
        assert(rest[j].bus >= sec);
    }
    lemma_no_dup_concat(head, rest);
    assert forall|i: int| 0 <= i < l.len() implies from_function(s, x, d, f, #[trigger] l[i]) by {
        if i >= 1 {
            assert(l[i] == rest[i - 1]);
            assert(sec <= rest[i - 1].bus <= subordinate_bus_of(s, x, d, f));
        }
    }
}

proof fn lemma_functions_once(s: Seq<(u32, u32)>, k: nat, x: u8, d: u8, f: int)
    requires
        well_numbered(s),
    ensures
        functions_from(s, x, d, f, k).no_duplicates(),
        forall|i: int|
            0 <= i < functions_from(s, x, d, f, k).len() ==> from_functions(s, x, d, f, #[trigger] functions_from(s, x, d, f, k)[i]),
    decreases k, 1int, 8 - f,
{
    let l = functions_from(s, x, d, f, k);
    if 1 <= f < 8 {
        let item = if present(s, x, d, f as u8) {
            function_list(s, x, d, f as u8, k)
        } else {
            Seq::empty()
        };
        let tail = functions_from(s, x, d, f + 1, k);
        assert(l == item + tail);
        if present(s, x, d, f as u8) {
            lemma_function_once(s, k, x, d, f as u8);
        }
        lemma_functions_once(s, k, x, d, f + 1);
        assert forall|i: int, j: int| 0 <= i < item.len() && 0 <= j < tail.len() implies item[i] != tail[j] by {
            assert(from_function(s, x, d, f as u8, item[i]));
            assert(from_functions(s, x, d, f + 1, tail[j]));
            let f2 = choose|f2: u8| f + 1 <= f2 && #[trigger] from_function(s, x, d, f2, tail[j]);
            if item[i] == tail[j] {
                lemma_unique_origin(s, x, d, f as u8, d, f2, item[i]);
            }
        }
        lemma_no_dup_concat(item, tail);
        assert forall|i: int| 0 <= i < l.len() implies from_functions(s, x, d, f, #[trigger] l[i]) by {
            if i < item.len() {
                assert(l[i] == item[i]);
                assert(from_function(s, x, d, f as u8, item[i]));
            } else {
                assert(l[i] == tail[i - item.len()]);
                assert(from_functions(s, x, d, f + 1, tail[i - item.len()]));
            }
        }
    }
}

proof fn lemma_device_once(s: Seq<(u32, u32)>, k: nat, x: u8, d: u8)
    requires
        well_numbered(s),
    ensures
        device_list(s, x, d, k).no_duplicates(),
        forall|i: int| 0 <= i < device_list(s, x, d, k).len() ==> from_functions(s, x, d, 0, #[trigger] device_list(s, x, d, k)[i]),
    decreases k, 2int, 0int,
{
    let first = function_list(s, x, d, 0, k);
    let others = if single_function(header_type_of(s, x, d, 0)) {
        Seq::empty()
    } else {
        functions_from(s, x, d, 1, k)
    };
    let l = device_list(s, x, d, k);
    assert(l == first + others);
    lemma_function_once(s, k, x, d, 0);
    lemma_functions_once(s, k, x, d, 1);
    assert forall|i: int, j: int| 0 <= i < first.len() && 0 <= j < others.len() implies first[i] != others[j] by {
        assert(from_function(s, x, d, 0, first[i]));
        assert(from_functions(s, x, d, 1, others[j]));
        let f2 = choose|f2: u8| 1 <= f2 && #[trigger] from_function(s, x, d, f2, others[j]);
        if first[i] == others[j] {
            lemma_unique_origin(s, x, d, 0, d, f2, first[i]);
        }
    }
    lemma_no_dup_concat(first, others);
    assert forall|i: int| 0 <= i < l.len() implies from_functions(s, x, d, 0, #[trigger] l[i]) by {
        if i < first.len() {
            assert(l[i] == first[i]);
            assert(from_function(s, x, d, 0, first[i]));
        } else {
            assert(l[i] == others[i - first.len()]);
            assert(from_functions(s, x, d, 1, others[i - first.len()]));
            let f2 = choose|f2: u8| 1 <= f2 && #[trigger] from_function(s, x, d, f2, others[i - first.len()]);
            assert(from_function(s, x, d, f2, l[i]));
        }
    }
}

proof fn lemma_devices_once(s: Seq<(u32, u32)>, k: nat, x: u8, d: int)
    requires
        well_numbered(s),
    ensures
        devices_from(s, x, d, k).no_duplicates(),
        forall|i: int| 0 <= i < devices_from(s, x, d, k).len() ==> from_devices(s, x, d, #[trigger] devices_from(s, x, d, k)[i]),
    decreases k, 3int, 32 - d,
{
    let l = devices_from(s, x, d, k);
    if 0 <= d < 32 {
        let item = if present(s, x, d as u8, 0) {
            device_list(s, x, d as u8, k)
        } else {
            Seq::empty()
        };
        let tail = devices_from(s, x, d + 1, k);
        assert(l == item + tail);
        if present(s, x, d as u8, 0) {
            lemma_device_once(s, k, x, d as u8);
        }
        lemma_devices_once(s, k, x, d + 1);
        assert forall|i: int, j: int| 0 <= i < item.len() && 0 <= j < tail.len() implies item[i] != tail[j] by {
            assert(from_functions(s, x, d as u8, 0, item[i]));
            let f1 = choose|f1: u8| 0 <= f1 && #[trigger] from_function(s, x, d as u8, f1, item[i]);
            assert(from_devices(s, x, d + 1, tail[j]));
            let (d2, f2) = choose|d2: u8, f2: u8| d + 1 <= d2 && #[trigger] from_function(s, x, d2, f2, tail[j]);
            if item[i] == tail[j] {
                lemma_unique_origin(s, x, d as u8, f1, d2, f2, item[i]);
            }
        }
        lemma_no_dup_concat(item, tail);
        assert forall|i: int| 0 <= i < l.len() implies from_devices(s, x, d, #[trigger] l[i]) by {
            if i < item.len() {
                assert(l[i] == item[i]);
                assert(from_functions(s, x, d as u8, 0, item[i]));
                let f1 = choose|f1: u8| 0 <= f1 && #[trigger] from_function(s, x, d as u8, f1, item[i]);
                assert(from_function(s, x, d as u8, f1, l[i]));
            } else {
                assert(l[i] == tail[i - item.len()]);
                assert(from_devices(s, x, d + 1, tail[i - item.len()]));
                let (d2, f2) = choose|d2: u8, f2: u8| d + 1 <= d2 && #[trigger] from_function(s, x, d2, f2, tail[i - item.len()]);
                assert(from_function(s, x, d2, f2, l[i]));
            }
        }
    }
}

proof fn lemma_bus_once(s: Seq<(u32, u32)>, k: nat, x: u8)
    requires
        well_numbered(s),
    ensures
        bus_list(s, x, k).no_duplicates(),
        forall|i: int| 0 <= i < bus_list(s, x, k).len() ==> from_devices(s, x, 0, #[trigger] bus_list(s, x, k)[i]),
    decreases k, 4int, 0int,
{
    lemma_devices_once(s, k, x, 0);
}

/// No present function of the host bridge names a bus that lies behind a
/// bridge: the buses scanned from the host bridge are roots of the hierarchy.
pub open spec fn roots_apart(s: Seq<(u32, u32)>) -> bool {
    forall|f: u8, b: u8, d: u8, g: u8|
        f < 8 && #[trigger] present(s, 0, 0, f) && #[trigger] is_bridge(s, b, d, g) ==> !behind(s, b, d, g, f as int)
}

/// A device is recorded from at most one root bus.
proof fn lemma_roots_disjoint(s: Seq<(u32, u32)>, x1: u8, x2: u8, e: Device)
    requires
        well_numbered(s),
        roots_apart(s),
        x1 < 8,
        x2 < 8,
        present(s, 0, 0, x1),
        present(s, 0, 0, x2),
        from_devices(s, x1, 0, e),
        from_devices(s, x2, 0, e),
    ensures
        x1 == x2,
{
    let (d1, f1) = choose|d1: u8, f1: u8| 0 <= d1 && #[trigger] from_function(s, x1, d1, f1, e);
    let (d2, f2) = choose|d2: u8, f2: u8| 0 <= d2 && #[trigger] from_function(s, x2, d2, f2, e);
    if is_bridge(s, x1, d1, f1) {
        assert(!behind(s, x1, d1, f1, x2 as int));
    }
    if is_bridge(s, x2, d2, f2) {
        assert(!behind(s, x2, d2, f2, x1 as int));
    }
}

/// Device `e` is recorded from a root bus numbered `function` or above.
pub open spec fn from_roots(s: Seq<(u32, u32)>, function: int, e: Device) -> bool {
    exists|x: u8| function <= x < 8 && present(s, 0, 0, x) && #[trigger] from_devices(s, x, 0, e)
}

/// The buses `function..8` of the host bridge: entries come from root buses
/// from `function` on, and none is recorded twice.
proof fn lemma_roots_once(s: Seq<(u32, u32)>, k: nat, function: int)
    requires
        well_numbered(s),
        roots_apart(s),
    ensures
        root_buses_from(s, function, k).no_duplicates(),
        forall|i: int|
            0 <= i < root_buses_from(s, function, k).len() ==> from_roots(s, function, #[trigger] root_buses_from(s, function, k)[i]),
    decreases 8 - function,
{
    let l = root_buses_from(s, function, k);
    if 0 <= function < 8 {
        let x = function as u8;
        let item = if present(s, 0, 0, x) { bus_list(s, x, k) } else { Seq::empty() };
        let tail = root_buses_from(s, function + 1, k);
        assert(l == item + tail);
        if present(s, 0, 0, x) {
            lemma_bus_once(s, k, x);
        }
        lemma_roots_once(s, k, function + 1);
        assert forall|i: int, j: int| 0 <= i < item.len() && 0 <= j < tail.len() implies item[i] != tail[j] by {
            assert(from_devices(s, x, 0, item[i]));
            assert(from_roots(s, function + 1, tail[j]));
            let x2 = choose|x2: u8| function + 1 <= x2 < 8 && present(s, 0, 0, x2) && #[trigger] from_devices(s, x2, 0, tail[j]);
            if item[i] == tail[j] {
                lemma_roots_disjoint(s, x, x2, item[i]);
            }
        }
        lemma_no_dup_concat(item, tail);
        assert forall|i: int| 0 <= i < l.len() implies from_roots(s, function, #[trigger] l[i]) by {
            if i < item.len() {
                assert(l[i] == item[i]);
                assert(from_devices(s, x, 0, l[i]));
            } else {
                assert(l[i] == tail[i - item.len()]);
                assert(from_roots(s, function + 1, tail[i - item.len()]));
                let x2 = choose|x2: u8| function + 1 <= x2 < 8 && present(s, 0, 0, x2) && #[trigger] from_devices(s, x2, 0, tail[i - item.len()]);
                assert(from_devices(s, x2, 0, l[i]));
            }
        }
    } else {
        assert(l.len() == 0);
    }
}

/// With well-numbered bridges, and a single-function host bridge or host
/// bridge functions whose buses lie behind no bridge, a scan from an empty
/// registry records no function twice: every function is recorded once, up
/// to the registry's capacity.
pub proof fn lemma_scan_visits_once(s: Seq<(u32, u32)>, after: Seq<Device>, r: Error)
    requires
        well_numbered(s),
        single_function(header_type_of(s, 0, 0, 0)) || roots_apart(s),
        scan_outcome(Seq::empty(), all_devices(s, MAX_DEVICES as nat), after, r),
    ensures
        after.no_duplicates(),
        after.len() <= MAX_DEVICES,
        all_devices(s, MAX_DEVICES as nat).len() <= MAX_DEVICES ==> after == all_devices(s, MAX_DEVICES as nat)
            && r == error_of(Code::Success),
        all_devices(s, MAX_DEVICES as nat).len() > MAX_DEVICES ==> after.len() == MAX_DEVICES && r == error_of(
            Code::Full,
        ),
{
    let l = all_devices(s, MAX_DEVICES as nat);
    lemma_scan_counts(l, after, r);
    if single_function(header_type_of(s, 0, 0, 0)) {
        lemma_bus_once(s, MAX_DEVICES as nat, 0);
    } else {
        lemma_roots_once(s, MAX_DEVICES as nat, 0);
    }
    if l.len() > MAX_DEVICES {
        assert forall|i: int, j: int| 0 <= i < after.len() && 0 <= j < after.len() && i != j implies after[i]
            != after[j] by {
            assert(after[i] == l[i] && after[j] == l[j]);
        }
    }
}

} // verus!
