//! The end of a command chain.
use vstd::prelude::*;
use crate::task::TaskResult;

verus! {

/// The end of a command chain: the buffer it was recorded into, `P`, and the result of the
/// chain. Nothing can be chained past it.
pub struct EndCommand<P> {
    parent: P,
    response: TaskResult<()>,
}

impl<P> EndCommand<P> {
    pub closed spec fn spec_parent(&self) -> P {
        self.parent
    }

    pub closed spec fn spec_response(&self) -> TaskResult<()> {
        self.response
    }

    /// The end of a chain recorded into `parent`, whose result is `response`.
    pub fn new(parent: P, response: TaskResult<()>) -> (e: EndCommand<P>)
        ensures
            e.spec_parent() == parent,
            e.spec_response() == response,
    {
        EndCommand { parent, response }
    }

    /// The buffer the chain was recorded into.
    pub fn parent(&self) -> (r: &P)
        ensures
            *r == self.spec_parent(),
    {
        &self.parent
    }

    /// The result of the chain.
    pub fn response(self) -> (r: TaskResult<()>)
        ensures
            r == self.spec_response(),
    {
        self.response
    }
}

} // verus!
