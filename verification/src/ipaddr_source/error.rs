use vstd::prelude::*;

verus! {

/// The address that a source was asked for could not be determined.
#[derive(Debug, Clone)]
pub struct AddressDeterminationError(pub String);

/// The text that an `AddressDeterminationError` with message `msg` shows.
pub open spec fn address_error_text(msg: Seq<char>) -> Seq<char> {
    "Error determining IP address: "@ + msg
}

impl AddressDeterminationError {
    /// The text that the error shows: a fixed lead-in followed by its message.
    pub fn message(&self) -> (res: String)
        ensures
            res@ == address_error_text(self.0@),
    {
        let mut s = String::from_str("Error determining IP address: ");
        s.append(self.0.as_str());
        s
    }
}

} // verus!
