//! Error types of the rendering core.

use vstd::prelude::*;

verus! {

/// Error returned when a hex color string cannot be parsed.
#[derive(Debug, PartialEq, Eq, Structural, Clone, Copy)]
pub enum ParseColorError {
    InvalidLength,
    InvalidDigit,
}

impl ParseColorError {
    /// A human-readable description of the error.
    pub fn message(&self) -> (r: &'static str)
        ensures
            (*self is InvalidDigit) ==> r@ == "Invalid digit"@,
            (*self is InvalidLength) ==> r@ == "Invalid length"@,
    {
        match self {
            ParseColorError::InvalidDigit => "Invalid digit",
            ParseColorError::InvalidLength => "Invalid length",
        }
    }
}

/// Error for a line range whose end lies before its start.
#[derive(Debug, PartialEq, Eq, Structural, Clone, Copy)]
pub struct GetLocError;

impl GetLocError {
    /// A human-readable description of the error.
    pub fn message(&self) -> (r: &'static str)
        ensures
            r@ == "end cannot be smaller than start"@,
    {
        "end cannot be smaller than start"
    }
}

/// Error returned when a render would exceed the library's size limits.
#[derive(Debug, PartialEq, Eq, Structural, Clone, Copy)]
pub enum RenderError {
    TooLarge,
}

impl RenderError {
    /// A human-readable description of the error.
    pub fn message(&self) -> (r: &'static str)
        ensures
            r@ == "image dimensions exceed the supported limits"@,
    {
        "image dimensions exceed the supported limits"
    }
}

/// Error returned when no clipboard backend is available.
#[derive(Debug, PartialEq, Eq, Structural, Clone, Copy)]
pub enum ClipboardError {
    Unsupported,
}

impl ClipboardError {
    /// A human-readable description of the error.
    pub fn message(&self) -> (r: &'static str)
        ensures
            r@ == "This feature hasn't been implemented for your system"@,
    {
        "This feature hasn't been implemented for your system"
    }
}

} // verus!
