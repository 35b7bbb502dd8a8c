//! Error types of the platform and text layers.

use vstd::prelude::*;

verus! {

/// Errors raised while creating or driving a platform event loop or window.
#[derive(Debug)]
#[non_exhaustive]
pub enum PlatformError {
    /// No windowing backend is available for the current target.
    NoBackend(&'static str),
    /// The OS refused or failed a windowing request.
    Os(String),
}

impl PlatformError {
    /// The human-readable description.
    pub fn message(&self) -> (m: String)
        ensures
            m@ == match self {
                PlatformError::NoBackend(s) => "no windowing backend available: "@ + s@,
                PlatformError::Os(s) => "platform error: "@ + s@,
            },
    {
        match self {
            PlatformError::NoBackend(s) => {
                let mut m = String::from_str("no windowing backend available: ");
                m.append(s);
                m
            },
            PlatformError::Os(s) => {
                let mut m = String::from_str("platform error: ");
                m.append(s.as_str());
                m
            },
        }
    }
}

/// Error loading a font.
#[derive(Debug)]
pub struct FontError(pub String);

impl FontError {
    /// The human-readable description.
    pub fn message(&self) -> (m: String)
        ensures
            m@ == "font load error: "@ + self.0@,
    {
        let mut m = String::from_str("font load error: ");
        m.append(self.0.as_str());
        m
    }
}

} // verus!
