//! Protocol-level alert signals.

use vstd::prelude::*;

verus! {

/// Severity of an alert.
#[derive(Clone, Copy, Debug, PartialEq, Eq, Structural)]
pub enum AlertLevel {
    Warning,
    Fatal,
}

/// The alert descriptions this driver distinguishes. `CloseNotify` is the
/// graceful-shutdown signal; every other description, the unlisted ones
/// included (`Unknown` carries their wire byte), ends the connection with
/// a protocol error.
#[derive(Clone, Copy, Debug, PartialEq, Eq, Structural)]
pub enum AlertDescription {
    CloseNotify,
    UnexpectedMessage,
    HandshakeFailure,
    InternalError,
    Unknown(u8),
}

/// An alert message: a severity paired with a description.
#[derive(Clone, Copy, Debug, PartialEq, Eq, Structural)]
pub struct Alert {
    pub level: AlertLevel,
    pub description: AlertDescription,
}

impl AlertLevel {
    /// Wire encoding of the level.
    pub open spec fn spec_byte(self) -> u8 {
        match self {
            AlertLevel::Warning => 1,
            AlertLevel::Fatal => 2,
        }
    }

    /// Level carried by a wire byte, if the byte names one.
    pub open spec fn spec_from_byte(b: u8) -> Option<AlertLevel> {
        match b {
            1u8 => Some(AlertLevel::Warning),
            2u8 => Some(AlertLevel::Fatal),
            _ => None,
        }
    }

    pub fn byte(self) -> (b: u8)
        ensures
            b == self.spec_byte(),
    {
        match self {
            AlertLevel::Warning => 1,
            AlertLevel::Fatal => 2,
        }
    }

    pub fn from_byte(b: u8) -> (r: Option<AlertLevel>)
        ensures
            r == AlertLevel::spec_from_byte(b),
    {
        match b {
            1u8 => Some(AlertLevel::Warning),
            2u8 => Some(AlertLevel::Fatal),
            _ => None,
        }
    }
}

impl AlertDescription {
    /// Wire encoding of the description.
    pub open spec fn spec_byte(self) -> u8 {
        match self {
            AlertDescription::CloseNotify => 0,
            AlertDescription::UnexpectedMessage => 10,
            AlertDescription::HandshakeFailure => 40,
            AlertDescription::InternalError => 80,
            AlertDescription::Unknown(b) => b,
        }
    }

    /// Description carried by a wire byte; every byte names one, the
    /// unlisted ones as `Unknown`.
    pub open spec fn spec_from_byte(b: u8) -> AlertDescription {
        match b {
            0u8 => AlertDescription::CloseNotify,
            10u8 => AlertDescription::UnexpectedMessage,
            40u8 => AlertDescription::HandshakeFailure,
            80u8 => AlertDescription::InternalError,
            _ => AlertDescription::Unknown(b),
        }
    }

    pub fn byte(self) -> (b: u8)
        ensures
            b == self.spec_byte(),
    {
        match self {
            AlertDescription::CloseNotify => 0,
            AlertDescription::UnexpectedMessage => 10,
            AlertDescription::HandshakeFailure => 40,
            AlertDescription::InternalError => 80,
            AlertDescription::Unknown(b) => b,
        }
    }

    pub fn from_byte(b: u8) -> (r: AlertDescription)
        ensures
            r == AlertDescription::spec_from_byte(b),
    {
        match b {
            0u8 => AlertDescription::CloseNotify,
            10u8 => AlertDescription::UnexpectedMessage,
            40u8 => AlertDescription::HandshakeFailure,
            80u8 => AlertDescription::InternalError,
            _ => AlertDescription::Unknown(b),
        }
    }
}

impl Alert {
    /// Build an alert from a severity and a description.
    pub fn new(level: AlertLevel, description: AlertDescription) -> (a: Alert)
        ensures
            a.level == level,
            a.description == description,
    {
        Alert { level, description }
    }
}

} // verus!
