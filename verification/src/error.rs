//! Errors reported by the library and its native backend.
use vstd::prelude::*;

verus! {

/// An error of the native backend.
#[derive(Clone, Debug, PartialEq, Eq)]
pub enum Error {
    /// The current platform has no native backend.
    PlatformUnsupported,
    /// A Windows API call failed with the given error code.
    WindowsApi { operation: &'static str, code: u32 },
}

/// The result type of the library.
pub type Result<T> = std::result::Result<T, Error>;

} // verus!
