//! Work that goes on in steps: what to ask for next, given the answers so far.

use vstd::prelude::*;

verus! {

/// What comes next: a request, or the end with what came of it all.
#[derive(Debug)]
pub enum Step<Q, O> {
    Request(Q),
    Done(O),
}

} // verus!
