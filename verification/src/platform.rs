//! The operating-system families whose behaviour differs in the viewer.

use vstd::prelude::*;

verus! {

/// The operating system the viewer runs on, as far as its logic cares.
#[derive(Clone, Copy, Debug, PartialEq, Eq, Structural)]
pub enum Platform {
    MacOs,
    Windows,
    Linux,
    /// A Unix other than macOS and Linux (the BSDs, for instance).
    OtherUnix,
    /// Anything else.
    Other,
}

} // verus!
