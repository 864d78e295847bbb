//! The error of the multiplexer: a text.

use vstd::prelude::*;
#[allow(unused_imports)]
use vstd::string::*;

verus! {

#[derive(Debug, Clone)]
pub struct MultiplexerError {
    msg: String,
}

impl View for MultiplexerError {
    type V = Seq<char>;

    closed spec fn view(&self) -> Seq<char> {
        self.msg@
    }
}

impl MultiplexerError {
    /// The error of a message that could not be handed on.
    pub fn send_error(cause: &str) -> (e: MultiplexerError)
        ensures
            e@ == "senderror: "@ + cause@,
    {
        let mut msg = "senderror: ".to_string();
        msg.append(cause);
        MultiplexerError { msg }
    }

    /// The error of a task that did not finish.
    pub fn join_error(cause: &str) -> (e: MultiplexerError)
        ensures
            e@ == "join error: "@ + cause@,
    {
        let mut msg = "join error: ".to_string();
        msg.append(cause);
        MultiplexerError { msg }
    }

    /// The text of the error.
    pub fn description(&self) -> (s: &str)
        ensures
            s@ == self@,
    {
        self.msg.as_str()
    }

    /// The text of the error, marked as one.
    pub fn to_string(&self) -> (s: String)
        ensures
            s@ == "Error: "@ + self@,
    {
        let mut s = "Error: ".to_string();
        s.append(self.msg.as_str());
        s
    }
}

/// Two errors of one text need not be the same value, so what `from` returns is
/// said by its own `ensures`, over the view.
impl vstd::std_specs::convert::FromSpecImpl<&str> for MultiplexerError {
    open spec fn obeys_from_spec() -> bool {
        false
    }

    open spec fn from_spec(cause: &str) -> MultiplexerError {
        arbitrary()
    }
}

impl From<&str> for MultiplexerError {
    fn from(cause: &str) -> (e: MultiplexerError)
        ensures
            e@ == cause@,
    {
        MultiplexerError { msg: cause.to_string() }
    }
}

} // verus!
