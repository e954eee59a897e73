//! Plain message-carrying error type shared by the tool's subsystems.

use vstd::prelude::*;

verus! {

use vstd::string::StringExecFns;

/// An error that carries a human-readable message.
pub struct Error {
    message: String,
}

/// An `Error` is its message.
impl View for Error {
    type V = Seq<char>;

    closed spec fn view(&self) -> Seq<char> {
        self.message@
    }
}

impl Error {
    /// Wraps a message into an `Error`.
    pub fn new(message: &str) -> (r: Error)
        ensures
            r@ == message@,
    {
        Error { message: message.to_owned() }
    }

    /// The stored message.
    pub fn message(&self) -> (r: &str)
        ensures
            r@ == self@,
    {
        self.message.as_str()
    }

    /// The message wrapped into a one-field JSON object.
    pub fn description_json(&self) -> (r: String)
        ensures
            r@ == "{\"error\": \""@ + self@ + "\"}"@,
    {
        let mut out: String = String::from_str("{\"error\": \"");
        out.append(self.message.as_str());
        out.append("\"}");
        out
    }
}

} // verus!
