//! The error of a failed resolution.

use vstd::prelude::*;

verus! {

/// Why a resolution failed: a transport failure, or an upstream error handed
/// in as it stands.
#[derive(Debug)]
pub struct ResolveError {
    pub message: String,
}

impl View for ResolveError {
    type V = Seq<char>;

    open spec fn view(&self) -> Seq<char> {
        self.message@
    }
}

impl ResolveError {
    pub fn new(message: String) -> (r: ResolveError)
        ensures
            r.message@ == message@,
    {
        ResolveError { message }
    }

    pub fn clone_error(&self) -> (r: ResolveError)
        ensures
            r@ == self@,
    {
        ResolveError { message: self.message.clone() }
    }

    pub fn message(&self) -> (r: &str)
        ensures
            r@ == self.message@,
    {
        self.message.as_str()
    }
}

} // verus!
