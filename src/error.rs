use vstd::prelude::*;

use crate::pins::GpioPins;

verus! {

/// Every way a registry or port operation can be refused.
#[derive(Debug)]
pub enum PinError {
    /// A port definition names the same pin more than once; one entry per repeated occurrence.
    DuplicatePins { duplicates: Vec<GpioPins> },
    /// Requested pins are already claimed by a live occupant.
    PinConflict { conflicts: Vec<GpioPins> },
    /// A frame write whose length differs from the port's width.
    LengthMismatch { expected: usize, found: usize },
    /// A positional write outside `0..len`.
    IndexOutOfRange { index: usize, len: usize },
    /// A number that identifies no pin.
    InvalidPinIdentifier { value: u8 },
}

} // verus!
