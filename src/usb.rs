//! The USB host-controller orchestration: the lifecycle of a controller
//! driven through an outside driver, the mapping of the driver's status codes
//! to errors, and the dispatch of mouse movements to a registered observer.
use vstd::prelude::*;
use crate::error::{error_of, Code, Error};

verus! {

/// The status codes that the driver can return: 0 for success, 1 to 20 for
/// failures.
pub open spec fn defined_status(code: i32) -> bool {
    0 <= code <= 20
}

/// The error that a driver status code stands for; none for success.
pub open spec fn status_error(code: i32) -> Option<Error> {
    if code == 0 {
        None
    } else {
        Some(
            error_of(
                if code == 1 {
                    Code::Full
                } else if code == 2 {
                    Code::Empty
                } else if code == 3 {
                    Code::NoEnoughMemory
                } else if code == 4 {
                    Code::IndexOutOfRange
                } else if code == 5 {
                    Code::HostControllerNotHalted
                } else if code == 6 {
                    Code::InvalidSlotID
                } else if code == 7 {
                    Code::PortNotConnected
                } else if code == 8 {
                    Code::InvalidEndpointNumber
                } else if code == 9 {
                    Code::TransferRingNotSet
                } else if code == 10 {
                    Code::AlreadyAllocated
                } else if code == 11 {
                    Code::NotImplemented
                } else if code == 12 {
                    Code::InvalidDescriptor
                } else if code == 13 {
                    Code::BufferTooSmall
                } else if code == 14 {
                    Code::UnknownDevice
                } else if code == 15 {
                    Code::NoCorrespondingSetupStage
                } else if code == 16 {
                    Code::TransferFailed
                } else if code == 17 {
                    Code::InvalidPhase
                } else if code == 18 {
                    Code::UnknownXHCISpeedID
                } else if code == 19 {
                    Code::NoWaiter
                } else {
                    Code::LastOfCode
                },
            ),
        )
    }
}

/// The outcome that a driver status code stands for.
pub open spec fn status_result(code: i32) -> Result<(), Error> {
    match status_error(code) {
        None => Ok(()),
        Some(e) => Err(e),
    }
}

/// Whether the driver can return `code`; any other code is a fault of the
/// driver.
pub fn is_defined_status(code: i32) -> (r: bool)
    ensures
        r == defined_status(code),
{
    0 <= code && code <= 20
}

/// The error for a driver status code, or nothing for success.
pub fn convert_to_code(code: i32) -> (r: Option<Error>)
    requires
        defined_status(code),
    ensures
        r == status_error(code),
{
    if code == 0 {
        return None;
    }
    let c = match code {
        1 => Code::Full,
        2 => Code::Empty,
        3 => Code::NoEnoughMemory,
        4 => Code::IndexOutOfRange,
        5 => Code::HostControllerNotHalted,
        6 => Code::InvalidSlotID,
        7 => Code::PortNotConnected,
        8 => Code::InvalidEndpointNumber,
        9 => Code::TransferRingNotSet,
        10 => Code::AlreadyAllocated,
        11 => Code::NotImplemented,
        12 => Code::InvalidDescriptor,
        13 => Code::BufferTooSmall,
        14 => Code::UnknownDevice,
        15 => Code::NoCorrespondingSetupStage,
        16 => Code::TransferFailed,
        17 => Code::InvalidPhase,
        18 => Code::UnknownXHCISpeedID,
        19 => Code::NoWaiter,
        _ => Code::LastOfCode,
    };
    Some(Error::new(c))
}

fn to_result(code: i32) -> (r: Result<(), Error>)
    requires
        defined_status(code),
    ensures
        r == status_result(code),
{
    match convert_to_code(code) {
        None => Ok(()),
        Some(e) => Err(e),
    }
}

/// Status 0 is success; every other defined status is a failure, and no two
/// of them stand for the same error.
pub proof fn lemma_status_mapping(a: i32, b: i32)
    requires
        defined_status(a),
        defined_status(b),
    ensures
        status_error(0) is None,
        a != 0 ==> status_error(a) is Some,
        a != 0 && b != 0 && a != b ==> status_error(a) != status_error(b),
{
}

/// Where a controller stands in its lifecycle.
#[derive(Debug, Clone, Copy, PartialEq, Eq, Structural)]
pub enum ControllerState {
    Constructed,
    Initialized,
    Running,
    PortsConfigured,
}

/// A host controller at a memory-mapped base address, driven through the
/// outside driver: the driver does the work, this tracks the lifecycle and
/// interprets the driver's status codes.
pub struct XhciController {
    pub mmio_base: u64,
    pub state: ControllerState,
}

impl XhciController {
    pub fn new(xhc_mmio_base: u64) -> (r: XhciController)
        ensures
            r.mmio_base == xhc_mmio_base,
            r.state == ControllerState::Constructed,
    {
        XhciController { mmio_base: xhc_mmio_base, state: ControllerState::Constructed }
    }

    /// Takes the status of the driver's initialization. Success moves the
    /// controller to `Initialized`; a failure leaves it where it was.
    pub fn initialize(&mut self, status: i32) -> (r: Result<(), Error>)
        requires
            old(self).state == ControllerState::Constructed,
            defined_status(status),
        ensures
            r == status_result(status),
            final(self).mmio_base == old(self).mmio_base,
            final(self).state == if status == 0 {
                ControllerState::Initialized
            } else {
                ControllerState::Constructed
            },
    {
        let r = to_result(status);
        if status == 0 {
            self.state = ControllerState::Initialized;
        }
        r
    }

    /// Takes the status of the driver's start. Success moves the controller
    /// to `Running`; a failure leaves it where it was.
    pub fn run(&mut self, status: i32) -> (r: Result<(), Error>)
        requires
            old(self).state == ControllerState::Initialized,
            defined_status(status),
        ensures
            r == status_result(status),
            final(self).mmio_base == old(self).mmio_base,
            final(self).state == if status == 0 {
                ControllerState::Running
            } else {
                ControllerState::Initialized
            },
    {
        let r = to_result(status);
        if status == 0 {
            self.state = ControllerState::Running;
        }
        r
    }

    /// Records that the driver has enabled and reset the ports.
    pub fn configure_port(&mut self)
        requires
            old(self).state == ControllerState::Running,
        ensures
            final(self).mmio_base == old(self).mmio_base,
            final(self).state == ControllerState::PortsConfigured,
    {
        self.state = ControllerState::PortsConfigured;
    }

    /// Takes the status of one round of event processing.
    pub fn process_event(&self, status: i32) -> (r: Result<(), Error>)
        requires
            self.state == ControllerState::Running || self.state == ControllerState::PortsConfigured,
            defined_status(status),
        ensures
            r == status_result(status),
    {
        to_result(status)
    }
}

/// The single mouse observer: registering replaces the one before.
pub struct MouseObserverSlot<F> {
    pub observer: Option<F>,
}

impl<F: Fn(i8, i8)> MouseObserverSlot<F> {
    pub fn new() -> (r: MouseObserverSlot<F>)
        ensures
            r.observer is None,
    {
        MouseObserverSlot { observer: None }
    }

    /// Hands a movement to the observer, if one is registered, and says
    /// whether there was one.
    pub fn dispatch(&self, displacement_x: i8, displacement_y: i8) -> (r: bool)
        requires
            self.observer matches Some(f) ==> f.requires((displacement_x, displacement_y)),
        ensures
            r == self.observer is Some,
            self.observer matches Some(f) ==> f.ensures((displacement_x, displacement_y), ()),
    {
        match &self.observer {
            Some(f) => {
                f(displacement_x, displacement_y);
                true
            },
            None => false,
        }
    }
}

/// Registers `cb` as the mouse observer, in place of any earlier one.
pub fn register_mouse_observer<F: Fn(i8, i8)>(slot: &mut MouseObserverSlot<F>, cb: F)
    ensures
        final(slot).observer == Some(cb),
{
    slot.observer = Some(cb);
}

} // verus!
