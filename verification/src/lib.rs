//! Differential flash synchronization for page-addressed embedded devices.
//!
//! The library extracts loadable segments from an executable image, computes
//! per-page checksums, diffs them against a device-reported checksum table,
//! and sequences the device protocol so that only changed pages are written.

use vstd::prelude::*;

pub mod checksum;
pub mod discovery;
pub mod elf;
pub mod engine;
pub mod hexparse;
pub mod plan;
pub mod range;

verus! {

/// Why a flashing run failed.
#[derive(Clone, Copy, PartialEq, Eq, Structural, Debug)]
pub enum SyncError {
    /// The host build step exited with a nonzero code.
    BuildFailed,
    /// No matching or responsive device was found.
    DeviceNotFound,
    /// The executable image could not be read safely: a header points
    /// outside the buffer.
    MalformedImage,
    /// The device reported a zero flash page size, or a maximum message
    /// size too small to carry a single page checksum.
    InvalidDeviceCapabilities,
    /// A device response had the wrong shape, e.g. a checksum table whose
    /// length differs from the requested page count.
    ProtocolError,
    /// The underlying transport failed (including timeouts).
    TransportError,
}

/// A contiguous block of firmware bytes plus its target flash address.
#[derive(Debug)]
pub struct Segment {
    pub target_address: u32,
    pub bytes: Vec<u8>,
}

/// The mathematical view of a [`Segment`].
pub ghost struct SegmentView {
    pub target_address: u32,
    pub bytes: Seq<u8>,
}

impl View for Segment {
    type V = SegmentView;

    open spec fn view(&self) -> SegmentView {
        SegmentView { target_address: self.target_address, bytes: self.bytes@ }
    }
}

} // verus!
