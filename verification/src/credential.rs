use vstd::prelude::*;

verus! {

/// The account that an update is made with.
#[derive(Debug, Clone)]
pub struct Credential {
    pub username: String,
    pub password: String,
}

} // verus!
