//! Errors as texts: what failed, and what it failed because of.

use crate::text::texts;
use vstd::prelude::*;

verus! {

/// An error: its message, and the messages of its causes from the nearest on.
#[derive(Debug)]
pub struct Failure {
    /// What failed
    pub message: String,
    /// Why, the nearest cause first
    pub causes: Vec<String>,
}

impl View for Failure {
    type V = Seq<Seq<char>>;

    /// The message, then those of the causes.
    open spec fn view(&self) -> Seq<Seq<char>> {
        seq![self.message@] + texts(self.causes@)
    }
}

impl Failure {
    /// An error without a cause.
    pub fn new(message: String) -> (r: Self)
        ensures
            r@ == seq![message@],
    {
        let r = Failure { message, causes: Vec::new() };
        assert(r@ =~= seq![message@]);
        r
    }

    /// An error that is due to this one.
    pub fn within(self, message: String) -> (r: Self)
        ensures
            r@ == seq![message@] + self@,
    {
        let mut causes = self.causes;
        let ghost before = causes@;
        causes.insert(0, self.message);
        let r = Failure { message, causes };
        assert(texts(causes@) =~= seq![self.message@] + texts(before));
        assert(r@ =~= seq![message@] + self@);
        r
    }
}

} // verus!
