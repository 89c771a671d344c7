use vstd::prelude::*;
use crate::text::ParseFailure;

verus! {

/// Why a backend refused a request.
#[derive(Debug, Clone, Copy, PartialEq, Eq, Structural)]
pub enum FanError {
    /// A hwmon fan id without the `device/chip/fanN` parts.
    InvalidHwmonId,
    /// The fan id does not name an NVIDIA fan.
    NotNvidia,
    /// The fan id does not name an AMD fan.
    NotAmd,
    /// The number in a fan id is not a valid unsigned integer.
    InvalidNumber(ParseFailure),
    /// WMI fan control is not implemented.
    WmiUnsupported,
    /// AMD fan control on Windows is not implemented.
    AmdWindowsUnsupported,
}

impl FanError {
    /// The text of this error.
    pub open spec fn message_spec(self) -> Seq<char> {
        match self {
            FanError::InvalidHwmonId => "invalid hwmon fan_id"@,
            FanError::NotNvidia => "not nvidia"@,
            FanError::NotAmd => "not amd"@,
            FanError::InvalidNumber(f) => f.message_spec(),
            FanError::WmiUnsupported => "WMI fan control not yet implemented"@,
            FanError::AmdWindowsUnsupported => "AMD Windows fan control not yet implemented"@,
        }
    }

    /// The text of this error.
    pub fn message(&self) -> (s: String)
        ensures
            s@ == self.message_spec(),
    {
        match self {
            FanError::InvalidHwmonId => String::from_str("invalid hwmon fan_id"),
            FanError::NotNvidia => String::from_str("not nvidia"),
            FanError::NotAmd => String::from_str("not amd"),
            FanError::InvalidNumber(f) => f.message(),
            FanError::WmiUnsupported => String::from_str("WMI fan control not yet implemented"),
            FanError::AmdWindowsUnsupported => String::from_str(
                "AMD Windows fan control not yet implemented",
            ),
        }
    }
}

} // verus!
