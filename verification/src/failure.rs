//! The error type that every fallible operation of the library returns.
use vstd::prelude::*;
use crate::text::opt_text;

verus! {

/// What went wrong. `message` is the whole chain of causes, outermost first,
/// joined by `": "`. `network` holds the transport's own words where the request
/// never got an answer because of a connection, timeout or request fault.
#[derive(Debug)]
pub struct Failure {
    pub network: Option<String>,
    pub message: String,
}

#[verifier::ext_equal]
pub struct FailureV {
    pub network: Option<Seq<char>>,
    pub message: Seq<char>,
}

impl View for Failure {
    type V = FailureV;

    open spec fn view(&self) -> FailureV {
        FailureV { network: opt_text(self.network), message: self.message@ }
    }
}

/// A failure that is not the network's.
pub open spec fn plain(message: Seq<char>) -> FailureV {
    FailureV { network: None, message }
}

/// `f` with the outer cause `context` in front.
pub open spec fn in_context(f: FailureV, context: Seq<char>) -> FailureV {
    FailureV { network: f.network, message: context + ": "@ + f.message }
}

impl Failure {
    pub fn new(message: &str) -> (f: Failure)
        ensures
            f@ == plain(message@),
    {
        Failure { network: None, message: message.to_owned() }
    }

    pub fn from_message(message: String) -> (f: Failure)
        ensures
            f@ == plain(message@),
    {
        Failure { network: None, message }
    }

    /// Adds an outer cause.
    pub fn context(self, context: &str) -> (f: Failure)
        ensures
            f@ == in_context(self@, context@),
    {
        let mut message = context.to_owned();
        message.append(": ");
        message.append(self.message.as_str());
        Failure { network: self.network, message }
    }
}

} // verus!
