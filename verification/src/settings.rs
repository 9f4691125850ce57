//! Validated, bounded knobs of the quantizer. Immutable data once set;
//! every setter rejects an out-of-range value with a typed error and leaves
//! the previous value standing.

use vstd::prelude::*;

use crate::error::{QuantError, SettingField};

verus! {

/// The quantizer's knobs. `speed` 1 is the slowest, most exhaustive search;
/// 10 the fastest. `min_posterization` is the number of low bits of each
/// channel forced to zero before colors are compared.
#[derive(Clone, Copy, Debug, PartialEq, Eq, Structural)]
pub struct Settings {
    pub max_colors: u32,
    pub quality_min: u8,
    pub quality_target: u8,
    pub speed: i32,
    pub min_posterization: u8,
}

impl Settings {
    /// Every field inside its documented domain.
    pub open spec fn valid(self) -> bool {
        &&& 2 <= self.max_colors <= 256
        &&& self.quality_min <= self.quality_target <= 100
        &&& 1 <= self.speed <= 10
        &&& self.min_posterization <= 4
    }

    /// The defaults: largest palette, best effort, medium speed,
    /// no posterization.
    pub fn new() -> (s: Settings)
        ensures
            s == (Settings {
                max_colors: 256u32,
                quality_min: 0u8,
                quality_target: 100u8,
                speed: 4i32,
                min_posterization: 0u8,
            }),
            s.valid(),
    {
        Settings {
            max_colors: 256,
            quality_min: 0,
            quality_target: 100,
            speed: 4,
            min_posterization: 0,
        }
    }

    /// Bound the palette size; the domain is 2 to 256 colors.
    pub fn set_max_colors(&mut self, max_colors: u32) -> (r: Result<(), QuantError>)
        ensures
            r is Ok <==> 2 <= max_colors <= 256,
            r is Ok ==> *final(self) == (Settings { max_colors, ..*old(self) }),
            r is Err ==> *final(self) == *old(self) && r == Err::<(), QuantError>(
                QuantError::ValueOutOfRange { field: SettingField::MaxColors },
            ),
    {
        if 2 <= max_colors && max_colors <= 256 {
            self.max_colors = max_colors;
            Ok(())
        } else {
            Err(QuantError::ValueOutOfRange { field: SettingField::MaxColors })
        }
    }

    /// Quality window on the 0-100 scale: abort when the achieved quality
    /// falls under `minimum`; stop improving past `target`.
    pub fn set_quality(&mut self, minimum: u8, target: u8) -> (r: Result<(), QuantError>)
        ensures
            r is Ok <==> minimum <= target <= 100,
            r is Ok ==> *final(self) == (Settings {
                quality_min: minimum,
                quality_target: target,
                ..*old(self)
            }),
            r is Err ==> *final(self) == *old(self) && r == Err::<(), QuantError>(
                QuantError::ValueOutOfRange { field: SettingField::Quality },
            ),
    {
        if minimum <= target && target <= 100 {
            self.quality_min = minimum;
            self.quality_target = target;
            Ok(())
        } else {
            Err(QuantError::ValueOutOfRange { field: SettingField::Quality })
        }
    }

    /// Speed/quality trade-off; the domain is 1 (slowest) to 10 (fastest).
    pub fn set_speed(&mut self, value: i32) -> (r: Result<(), QuantError>)
        ensures
            r is Ok <==> 1 <= value <= 10,
            r is Ok ==> *final(self) == (Settings { speed: value, ..*old(self) }),
            r is Err ==> *final(self) == *old(self) && r == Err::<(), QuantError>(
                QuantError::ValueOutOfRange { field: SettingField::Speed },
            ),
    {
        if 1 <= value && value <= 10 {
            self.speed = value;
            Ok(())
        } else {
            Err(QuantError::ValueOutOfRange { field: SettingField::Speed })
        }
    }

    /// Number of low channel bits ignored before comparison; domain 0 to 4.
    pub fn set_min_posterization(&mut self, value: u8) -> (r: Result<(), QuantError>)
        ensures
            r is Ok <==> value <= 4,
            r is Ok ==> *final(self) == (Settings { min_posterization: value, ..*old(self) }),
            r is Err ==> *final(self) == *old(self) && r == Err::<(), QuantError>(
                QuantError::ValueOutOfRange { field: SettingField::MinPosterization },
            ),
    {
        if value <= 4 {
            self.min_posterization = value;
            Ok(())
        } else {
            Err(QuantError::ValueOutOfRange { field: SettingField::MinPosterization })
        }
    }
}

} // verus!
