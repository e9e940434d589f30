//! Named credentials for a backend. Storing and fetching them is the
//! platform keyring's business; it happens outside the library.
use vstd::prelude::*;

verus! {

/// A named key for a backend.
#[derive(Clone, Debug)]
pub struct Profile {
    pub name: String,
    pub key: String,
}

/// Why a profile operation could not be done.
#[derive(Clone, Copy, Debug, PartialEq, Eq, Structural)]
pub enum ProfileError {
    /// The credential store cannot enumerate its entries.
    ListingUnsupported,
}

impl Profile {
    /// The stored profiles. The credential store offers no way to enumerate
    /// its entries, so this always fails.
    pub fn list() -> (r: Result<Vec<Profile>, ProfileError>)
        ensures
            r == Err::<Vec<Profile>, ProfileError>(ProfileError::ListingUnsupported),
    {
        Err(ProfileError::ListingUnsupported)
    }
}

} // verus!
