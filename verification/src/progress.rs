//! How the procedures of this library run.
//!
//! They touch neither guest memory nor a connection themselves. Each one goes from a
//! state and an event to the next action that its caller has to perform, or to its
//! result.
use vstd::prelude::*;

verus! {

/// What a procedure wants: an action to be performed, after which it goes on in
/// `state` with the event that the action led to; or nothing more.
pub enum Progress<S, A, R> {
    Perform { action: A, state: S },
    Finished(R),
}

} // verus!
