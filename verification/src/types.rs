use vstd::prelude::*;

verus! {

/// An error of the update run, carrying its message.
#[derive(Debug, Clone)]
pub struct Ddns6Error(pub String);

impl Ddns6Error {
    /// The text that the error shows: its message as it stands.
    pub fn message(&self) -> (res: String)
        ensures
            res@ == self.0@,
    {
        self.0.clone()
    }
}

} // verus!
