//! Numeric user identity, as the broker's planners need it.

use vstd::prelude::*;

verus! {

/// A user and group id pair.  The binary fills it from the system; the
/// planners only compare and copy it.
#[derive(Debug, PartialEq, Eq, Structural, Copy, Clone)]
pub struct User {
    pub uid: u32,
    pub gid: u32,
}

impl User {
    /// Does this user have root privileges?
    pub fn is_root(&self) -> (r: bool)
        ensures
            r == (self.uid == 0),
    {
        self.uid == 0
    }
}

} // verus!
