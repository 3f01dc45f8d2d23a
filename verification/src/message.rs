//! Typed message channels: pushing a payload into the active state and
//! polling a payload from it.
//!
//! A channel is valid only while its target state is active; there is no
//! queueing.  A push against an inactive target hands the payload back to
//! the caller, so no data is lost; a poll against an inactive target fails
//! without a payload, which is distinct from the active state having
//! nothing to report (`Ok(None)`).

use vstd::prelude::*;

verus! {

/// The error a message operation reports when its target state is not
/// active.
#[derive(Debug, PartialEq, Eq, Structural)]
pub enum MessageError<M> {
    /// The target state is not active.  For a push, the variant carries the
    /// rejected payload back to the caller; for a poll it carries `()`.
    StateIsNotActive(M),
}

/// Receiving a pushed payload of type `M`.
///
/// The receive callback stores or reacts to the payload without moving the
/// data to another state.
pub trait ReceiveMessage<M>: crate::DispatchTag {
    /// What receiving the payload does to the data.
    spec fn receive_spec(self, message: M) -> Self;

    /// Receiving a payload leaves the data in the same state, well
    /// formed.
    proof fn receive_preserves_tag(s: Self, message: M)
        requires
            s.data_inv(),
        ensures
            s.receive_spec(message).tag() == s.tag(),
            s.receive_spec(message).data_inv(),
    ;

    /// Delivers a pushed payload to the data.
    fn receive_message(&mut self, message: M)
        requires
            old(self).data_inv(),
        ensures
            *final(self) == Self::receive_spec(*old(self), message),
    ;
}

/// Producing a polled payload of type `M`.
///
/// The return callback may yield a payload or report that there is nothing
/// yet; either way it does not move the data to another state.
pub trait ReturnMessage<M>: crate::DispatchTag {
    /// What polling does to the data and what it yields; `None` means
    /// nothing to report yet.
    spec fn return_spec(self) -> (Self, Option<M>);

    /// Polling leaves the data in the same state, well formed.
    proof fn return_preserves_tag(s: Self)
        requires
            s.data_inv(),
        ensures
            s.return_spec().0.tag() == s.tag(),
            s.return_spec().0.data_inv(),
    ;

    /// Extracts a payload from the data, if one is ready.
    fn return_message(&mut self) -> (r: Option<M>)
        requires
            old(self).data_inv(),
        ensures
            *final(self) == Self::return_spec(*old(self)).0,
            r == Self::return_spec(*old(self)).1,
    ;
}

} // verus!
