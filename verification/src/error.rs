//! Errors of the canvas operations.

use vstd::prelude::*;

verus! {

/// Why a canvas operation was refused.
#[derive(Debug, Clone, Copy, PartialEq, Eq, Structural)]
pub enum CanvasError {
    /// A width or height is zero or above the supported maximum.
    InvalidDimensions,
    /// No layer, stroke or texture has the given index or id.
    NotFound,
    /// The only remaining layer cannot be deleted.
    LastLayerProtected,
    /// An allocation does not fit under the memory budget, even after eviction.
    MemoryLimitExceeded,
    /// The graphics device or its queue is missing.
    DeviceUnavailable,
    /// Copying pixels back from the device did not complete.
    ReadbackFailed,
    /// A buffer does not have the size that the canvas or a layer asks for.
    SizeMismatch,
}

impl CanvasError {
    /// A short description of the error.
    pub fn message(&self) -> (text: &'static str)
        ensures
            text@ == match *self {
                CanvasError::InvalidDimensions => "Invalid dimensions"@,
                CanvasError::NotFound => "Layer index out of bounds"@,
                CanvasError::LastLayerProtected => "Cannot delete the last layer"@,
                CanvasError::MemoryLimitExceeded => "Memory limit exceeded"@,
                CanvasError::DeviceUnavailable => "Device unavailable"@,
                CanvasError::ReadbackFailed => "Readback failed"@,
                CanvasError::SizeMismatch => "Buffer size mismatch"@,
            },
    {
        match self {
            CanvasError::InvalidDimensions => "Invalid dimensions",
            CanvasError::NotFound => "Layer index out of bounds",
            CanvasError::LastLayerProtected => "Cannot delete the last layer",
            CanvasError::MemoryLimitExceeded => "Memory limit exceeded",
            CanvasError::DeviceUnavailable => "Device unavailable",
            CanvasError::ReadbackFailed => "Readback failed",
            CanvasError::SizeMismatch => "Buffer size mismatch",
        }
    }
}

} // verus!
