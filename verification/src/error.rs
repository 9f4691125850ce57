//! Typed errors of the quantization engine. Every failure is returned to the
//! immediate caller; nothing is swallowed or retried.

use vstd::prelude::*;

verus! {

/// The setting a rejected value was meant for.
#[derive(Clone, Copy, Debug, PartialEq, Eq, Structural)]
pub enum SettingField {
    MaxColors,
    Quality,
    Speed,
    MinPosterization,
}

/// Every error the engine can return.
#[derive(Clone, Copy, Debug, PartialEq, Eq, Structural)]
pub enum QuantError {
    /// Image dimensions are zero.
    InvalidDimensions,
    /// The raw buffer length is not `width * height * 4`.
    BufferLengthMismatch,
    /// A setting was given a value outside its domain.
    ValueOutOfRange { field: SettingField },
    /// The histogram holds no pixel at all.
    EmptyImage,
    /// The achieved quality fell below the caller's minimum.
    QualityTooLow { achieved: u8, required: u8 },
    /// The remapper was handed an empty palette.
    PaletteMismatch,
    /// The external encoder collaborator failed; never generated internally.
    EncodingFailed,
}

impl QuantError {
    /// A short human-readable name for the error.
    pub fn describe(&self) -> (s: &'static str)
    {
        match self {
            QuantError::InvalidDimensions => "invalid dimensions",
            QuantError::BufferLengthMismatch => "buffer length mismatch",
            QuantError::ValueOutOfRange { .. } => "value out of range",
            QuantError::EmptyImage => "empty image",
            QuantError::QualityTooLow { .. } => "quality too low",
            QuantError::PaletteMismatch => "palette mismatch",
            QuantError::EncodingFailed => "encoding failed",
        }
    }
}

} // verus!
