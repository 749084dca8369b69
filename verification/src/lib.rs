//! Device-identity resolution and candidate-program selection for HID fixup
//! programs: parsing the fixed-width hexadecimal identity encoding, validating
//! logical device names, matching candidate program files against a device
//! identity, and the pure decision steps of the add/remove flows.

use vstd::prelude::*;

pub mod flows;
pub mod hex;
pub mod matcher;
pub mod modalias;
pub mod sysname;

verus! {

/// The error kinds of the engine. Resolution and parsing errors abort the
/// current flow; collaborator failures (loader, pin store) are surfaced by the
/// surrounding process and never reach the library.
#[derive(Clone, Copy, Debug, PartialEq, Eq, Structural)]
pub enum Error {
    /// Identity encoding has the wrong length or a non-hex field.
    MalformedIdentity,
    /// The path does not resolve to any device record.
    NoSuchDevice,
    /// Neither the device nor any ancestor belongs to the target class.
    NotATargetDevice,
    /// The logical name does not carry a valid trailing hex segment.
    MalformedSysname,
    /// Fallback name extraction found no valid logical name.
    InvalidInput,
}

} // verus!
