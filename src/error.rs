use vstd::prelude::*;

verus! {

/// The kinds of failure known to the system.
#[derive(Debug, Clone, Copy, PartialEq, Eq, Structural)]
pub enum Code {
    Success,
    Full,
    Empty,
    NoEnoughMemory,
    IndexOutOfRange,
    HostControllerNotHalted,
    InvalidSlotID,
    PortNotConnected,
    InvalidEndpointNumber,
    TransferRingNotSet,
    AlreadyAllocated,
    NotImplemented,
    InvalidDescriptor,
    BufferTooSmall,
    UnknownDevice,
    NoCorrespondingSetupStage,
    TransferFailed,
    InvalidPhase,
    UnknownXHCISpeedID,
    NoWaiter,
    NoPCIMSI,
    UnknownPixelFormat,
    NoSuchTask,
    InvalidFormat,
    FrameTooSmall,
    InvalidFile,
    IsDirectory,
    NoSuchEntry,
    FreeTypeError,
    EndpointNotInCharge,
    LastOfCode,
}

/// An error value: a tag without payload.
#[derive(Debug, Clone, Copy, PartialEq, Eq, Structural)]
pub struct Error {
    pub code: Code,
}

pub type Result<T> = core::result::Result<T, Error>;

/// The error value with tag `code`.
pub open spec fn error_of(code: Code) -> Error {
    Error { code }
}

/// The error values by name.
impl Error {
    pub fn success() -> (r: Error)
        ensures
            r == error_of(Code::Success),
    {
        Error { code: Code::Success }
    }

    pub fn full() -> (r: Error)
        ensures
            r == error_of(Code::Full),
    {
        Error { code: Code::Full }
    }

    pub fn empty() -> (r: Error)
        ensures
            r == error_of(Code::Empty),
    {
        Error { code: Code::Empty }
    }

    pub fn no_enough_memory() -> (r: Error)
        ensures
            r == error_of(Code::NoEnoughMemory),
    {
        Error { code: Code::NoEnoughMemory }
    }

    pub fn index_out_of_range() -> (r: Error)
        ensures
            r == error_of(Code::IndexOutOfRange),
    {
        Error { code: Code::IndexOutOfRange }
    }

    pub fn host_controller_not_halted() -> (r: Error)
        ensures
            r == error_of(Code::HostControllerNotHalted),
    {
        Error { code: Code::HostControllerNotHalted }
    }

    pub fn invalid_slot_id() -> (r: Error)
        ensures
            r == error_of(Code::InvalidSlotID),
    {
        Error { code: Code::InvalidSlotID }
    }

    pub fn port_not_connected() -> (r: Error)
        ensures
            r == error_of(Code::PortNotConnected),
    {
        Error { code: Code::PortNotConnected }
    }

    pub fn invalid_endpoint_number() -> (r: Error)
        ensures
            r == error_of(Code::InvalidEndpointNumber),
    {
        Error { code: Code::InvalidEndpointNumber }
    }

    pub fn transfer_ring_not_set() -> (r: Error)
        ensures
            r == error_of(Code::TransferRingNotSet),
    {
        Error { code: Code::TransferRingNotSet }
    }

    pub fn already_allocated() -> (r: Error)
        ensures
            r == error_of(Code::AlreadyAllocated),
    {
        Error { code: Code::AlreadyAllocated }
    }

    pub fn not_implemented() -> (r: Error)
        ensures
            r == error_of(Code::NotImplemented),
    {
        Error { code: Code::NotImplemented }
    }

    pub fn invalid_descriptor() -> (r: Error)
        ensures
            r == error_of(Code::InvalidDescriptor),
    {
        Error { code: Code::InvalidDescriptor }
    }

    pub fn buffer_too_small() -> (r: Error)
        ensures
            r == error_of(Code::BufferTooSmall),
    {
        Error { code: Code::BufferTooSmall }
    }

    pub fn unknown_device() -> (r: Error)
        ensures
            r == error_of(Code::UnknownDevice),
    {
        Error { code: Code::UnknownDevice }
    }

    pub fn no_corresponding_setup_stage() -> (r: Error)
        ensures
            r == error_of(Code::NoCorrespondingSetupStage),
    {
        Error { code: Code::NoCorrespondingSetupStage }
    }

    pub fn transfer_failed() -> (r: Error)
        ensures
            r == error_of(Code::TransferFailed),
    {
        Error { code: Code::TransferFailed }
    }

    pub fn invalid_phase() -> (r: Error)
        ensures
            r == error_of(Code::InvalidPhase),
    {
        Error { code: Code::InvalidPhase }
    }

    pub fn unknown_xhci_speed_id() -> (r: Error)
        ensures
            r == error_of(Code::UnknownXHCISpeedID),
    {
        Error { code: Code::UnknownXHCISpeedID }
    }

    pub fn no_waiter() -> (r: Error)
        ensures
            r == error_of(Code::NoWaiter),
    {
        Error { code: Code::NoWaiter }
    }

    pub fn no_pci_msi() -> (r: Error)
        ensures
            r == error_of(Code::NoPCIMSI),
    {
        Error { code: Code::NoPCIMSI }
    }

    pub fn unknown_pixel_format() -> (r: Error)
        ensures
            r == error_of(Code::UnknownPixelFormat),
    {
        Error { code: Code::UnknownPixelFormat }
    }

    pub fn no_such_task() -> (r: Error)
        ensures
            r == error_of(Code::NoSuchTask),
    {
        Error { code: Code::NoSuchTask }
    }

    pub fn invalid_format() -> (r: Error)
        ensures
            r == error_of(Code::InvalidFormat),
    {
        Error { code: Code::InvalidFormat }
    }

    pub fn frame_too_small() -> (r: Error)
        ensures
            r == error_of(Code::FrameTooSmall),
    {
        Error { code: Code::FrameTooSmall }
    }

    pub fn invalid_file() -> (r: Error)
        ensures
            r == error_of(Code::InvalidFile),
    {
        Error { code: Code::InvalidFile }
    }

    pub fn is_directory() -> (r: Error)
        ensures
            r == error_of(Code::IsDirectory),
    {
        Error { code: Code::IsDirectory }
    }

    pub fn no_such_entry() -> (r: Error)
        ensures
            r == error_of(Code::NoSuchEntry),
    {
        Error { code: Code::NoSuchEntry }
    }

    pub fn free_type_error() -> (r: Error)
        ensures
            r == error_of(Code::FreeTypeError),
    {
        Error { code: Code::FreeTypeError }
    }

    pub fn endpoint_not_in_charge() -> (r: Error)
        ensures
            r == error_of(Code::EndpointNotInCharge),
    {
        Error { code: Code::EndpointNotInCharge }
    }

    pub fn last_of_code() -> (r: Error)
        ensures
            r == error_of(Code::LastOfCode),
    {
        Error { code: Code::LastOfCode }
    }
}

impl Error {
    pub fn new(code: Code) -> (r: Error)
        ensures
            r == error_of(code),
    {
        Error { code }
    }
}

} // verus!
