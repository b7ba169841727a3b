use std::sync::atomic::{AtomicI32, AtomicUsize, Ordering};

use kernel::error::{Code, Error};
use kernel::usb::{
    convert_to_code, is_defined_status, register_mouse_observer, ControllerState, MouseObserverSlot,
    XhciController,
};

#[test]
fn status_zero_is_success() {
    assert_eq!(convert_to_code(0), None);
}

#[test]
fn status_codes_map_to_errors() {
    assert_eq!(convert_to_code(1), Some(Error::new(Code::Full)));
    assert_eq!(convert_to_code(2), Some(Error::new(Code::Empty)));
    assert_eq!(convert_to_code(5), Some(Error::new(Code::HostControllerNotHalted)));
    assert_eq!(convert_to_code(10), Some(Error::new(Code::AlreadyAllocated)));
    assert_eq!(convert_to_code(14), Some(Error::new(Code::UnknownDevice)));
    assert_eq!(convert_to_code(19), Some(Error::new(Code::NoWaiter)));
    assert_eq!(convert_to_code(20), Some(Error::new(Code::LastOfCode)));
}

#[test]
fn defined_status_codes_are_distinct() {
    let mut seen: Vec<Error> = Vec::new();
    for code in 1..=20 {
        let e = convert_to_code(code).unwrap();
        assert!(!seen.contains(&e));
        seen.push(e);
    }
}

#[test]
fn undefined_status_codes_are_recognised() {
    assert!(is_defined_status(0));
    assert!(is_defined_status(20));
    assert!(!is_defined_status(21));
    assert!(!is_defined_status(-1));
}

#[test]
fn controller_lifecycle() {
    let mut c = XhciController::new(0xfe00_0000);
    assert_eq!(c.state, ControllerState::Constructed);
    assert_eq!(c.initialize(5), Err(Error::new(Code::HostControllerNotHalted)));
    assert_eq!(c.state, ControllerState::Constructed);
    assert_eq!(c.initialize(0), Ok(()));
    assert_eq!(c.state, ControllerState::Initialized);
    assert_eq!(c.run(0), Ok(()));
    assert_eq!(c.state, ControllerState::Running);
    c.configure_port();
    assert_eq!(c.state, ControllerState::PortsConfigured);
    assert_eq!(c.process_event(0), Ok(()));
    assert_eq!(c.process_event(16), Err(Error::new(Code::TransferFailed)));
    assert_eq!(c.mmio_base, 0xfe00_0000);
}

static FIRST_CALLS: AtomicUsize = AtomicUsize::new(0);
static SECOND_CALLS: AtomicUsize = AtomicUsize::new(0);
static LAST_X: AtomicI32 = AtomicI32::new(0);
static LAST_Y: AtomicI32 = AtomicI32::new(0);

fn first_observer(dx: i8, dy: i8) {
    FIRST_CALLS.fetch_add(1, Ordering::SeqCst);
    LAST_X.store(dx as i32, Ordering::SeqCst);
    LAST_Y.store(dy as i32, Ordering::SeqCst);
}

fn second_observer(dx: i8, dy: i8) {
    SECOND_CALLS.fetch_add(1, Ordering::SeqCst);
    LAST_X.store(dx as i32, Ordering::SeqCst);
    LAST_Y.store(dy as i32, Ordering::SeqCst);
}

#[test]
fn observer_gets_each_movement_once_and_is_replaced() {
    let mut slot: MouseObserverSlot<fn(i8, i8)> = MouseObserverSlot::new();
    assert!(!slot.dispatch(1, 1));
    register_mouse_observer(&mut slot, first_observer as fn(i8, i8));
    assert!(slot.dispatch(-3, 7));
    assert_eq!(FIRST_CALLS.load(Ordering::SeqCst), 1);
    assert_eq!(LAST_X.load(Ordering::SeqCst), -3);
    assert_eq!(LAST_Y.load(Ordering::SeqCst), 7);
    register_mouse_observer(&mut slot, second_observer as fn(i8, i8));
    assert!(slot.dispatch(127, -128));
    assert_eq!(FIRST_CALLS.load(Ordering::SeqCst), 1);
    assert_eq!(SECOND_CALLS.load(Ordering::SeqCst), 1);
    assert_eq!(LAST_X.load(Ordering::SeqCst), 127);
    assert_eq!(LAST_Y.load(Ordering::SeqCst), -128);
}

#[test]
fn named_error_values() {
    assert_eq!(Error::success(), Error::new(Code::Success));
    assert_eq!(Error::full(), Error::new(Code::Full));
    assert_eq!(Error::unknown_xhci_speed_id(), Error::new(Code::UnknownXHCISpeedID));
    assert_eq!(Error::last_of_code(), Error::new(Code::LastOfCode));
    assert_eq!(convert_to_code(3), Some(Error::no_enough_memory()));
}
