//! Lifecycle traits for machines whose hooks can fail, and the error a
//! fallible machine can report.
//!
//! The traits mirror the non-fallible ones, but every hook returns a
//! result.  A failure raised by any state other than the designated error
//! state is intercepted by the dispatcher and rerouted into the error
//! state; a failure raised by the error state itself is surfaced to the
//! caller as [`ExtendedSfsmError::Custom`].

use crate::TransitGuard;
use vstd::prelude::*;

verus! {

/// The error a fallible machine reports.
#[derive(Debug, PartialEq, Eq, Structural)]
pub enum ExtendedSfsmError<T> {
    /// The storage slot was empty when it should have held data: the
    /// machine was stepped or stopped before being started, started twice
    /// without an intervening stop, or stepped again after a failure
    /// escalated out of the error state.
    Internal,
    /// A failure the error state could not handle, bubbled up to the
    /// caller.
    Custom(T),
}

/// The per-state lifecycle of a fallible machine's data.
///
/// Each hook's specification gives both the data it leaves behind and the
/// failure it raises, if any; a hook that fails has still run, and still
/// leaves the data in the same state.
pub trait TryState: crate::DispatchTag {
    /// The failure type the states can raise.
    type Error;

    /// What the entry hook does to the data, and the failure it raises.
    spec fn try_entry_spec(self) -> (Self, Option<Self::Error>);

    /// What the execute hook does to the data, and the failure it raises.
    spec fn try_execute_spec(self) -> (Self, Option<Self::Error>);

    /// What the exit hook does to the data, and the failure it raises.
    spec fn try_exit_spec(self) -> (Self, Option<Self::Error>);

    /// The entry hook leaves the data in the same state, well formed.
    proof fn try_entry_preserves_tag(s: Self)
        requires
            s.data_inv(),
        ensures
            s.try_entry_spec().0.tag() == s.tag(),
            s.try_entry_spec().0.data_inv(),
    ;

    /// The execute hook leaves the data in the same state, well formed.
    proof fn try_execute_preserves_tag(s: Self)
        requires
            s.data_inv(),
        ensures
            s.try_execute_spec().0.tag() == s.tag(),
            s.try_execute_spec().0.data_inv(),
    ;

    /// The exit hook leaves the data in the same state, well formed.
    proof fn try_exit_preserves_tag(s: Self)
        requires
            s.data_inv(),
        ensures
            s.try_exit_spec().0.tag() == s.tag(),
            s.try_exit_spec().0.data_inv(),
    ;

    /// Runs once each time the state becomes active.
    fn try_entry(&mut self) -> (r: Result<(), Self::Error>)
        requires
            old(self).data_inv(),
        ensures
            *final(self) == Self::try_entry_spec(*old(self)).0,
            r == match Self::try_entry_spec(*old(self)).1 {
                Some(e) => Err::<(), Self::Error>(e),
                None => Ok(()),
            },
    ;

    /// Runs once per step while the state remains active.
    fn try_execute(&mut self) -> (r: Result<(), Self::Error>)
        requires
            old(self).data_inv(),
        ensures
            *final(self) == Self::try_execute_spec(*old(self)).0,
            r == match Self::try_execute_spec(*old(self)).1 {
                Some(e) => Err::<(), Self::Error>(e),
                None => Ok(()),
            },
    ;

    /// Runs once each time the state is left, including at stop.
    fn try_exit(&mut self) -> (r: Result<(), Self::Error>)
        requires
            old(self).data_inv(),
        ensures
            *final(self) == Self::try_exit_spec(*old(self)).0,
            r == match Self::try_exit_spec(*old(self)).1 {
                Some(e) => Err::<(), Self::Error>(e),
                None => Ok(()),
            },
    ;
}

/// The per-transition behaviour of a fallible machine's data.
///
/// The guard itself cannot fail; the action can, and the conversion — like
/// its non-fallible counterpart — consumes the source state's data.
pub trait TryTransition: TryState {
    /// Whether the transition towards `dst` wants to fire.
    spec fn guard_spec(self, dst: int) -> bool;

    /// What the transition action towards `dst` does to the data, and the
    /// failure it raises.
    spec fn try_action_spec(self, dst: int) -> (Self, Option<Self::Error>);

    /// On which destinations the conversion is defined.
    spec fn transformable(self, dst: int) -> bool;

    /// What the conversion into `dst` produces from the data.
    spec fn transform_spec(self, dst: int) -> Self;

    /// The action hook leaves the data in the same state, well formed.
    proof fn try_action_preserves_tag(s: Self, dst: int)
        requires
            s.data_inv(),
        ensures
            s.try_action_spec(dst).0.tag() == s.tag(),
            s.try_action_spec(dst).0.data_inv(),
    ;

    /// The conversion produces well-formed data of the destination state.
    proof fn transform_sets_tag(s: Self, dst: int)
        requires
            s.transformable(dst),
            s.data_inv(),
        ensures
            s.transform_spec(dst).tag() == dst,
            s.transform_spec(dst).data_inv(),
    ;

    /// Decides whether to move towards `dst`; evaluated without changing
    /// the data.
    fn guard(&self, dst: usize) -> (g: TransitGuard)
        ensures
            g == (if self.guard_spec(dst as int) {
                TransitGuard::Transit
            } else {
                TransitGuard::Remain
            }),
    ;

    /// Transition-local cleanup, run once for each of the state's outgoing
    /// transitions whenever the state is left.
    fn try_action(&mut self, dst: usize) -> (r: Result<(), Self::Error>)
        requires
            old(self).data_inv(),
        ensures
            *final(self) == Self::try_action_spec(*old(self), dst as int).0,
            r == match Self::try_action_spec(*old(self), dst as int).1 {
                Some(e) => Err::<(), Self::Error>(e),
                None => Ok(()),
            },
    ;

    /// Consumes the data and converts it into the destination state's
    /// data.
    fn transform(self, dst: usize) -> (r: Self)
        requires
            self.transformable(dst as int),
            self.data_inv(),
        ensures
            r == self.transform_spec(dst as int),
    ;
}

/// The behaviour of the designated error state: it is handed every failure
/// the dispatcher intercepts, before its own entry hook runs.
pub trait TryErrorState: TryState {
    /// What consuming a rerouted failure does to the data.
    spec fn consume_spec(self, err: Self::Error) -> Self;

    /// Consuming a failure leaves the data in the same state, well
    /// formed.
    proof fn consume_preserves_tag(s: Self, err: Self::Error)
        requires
            s.data_inv(),
        ensures
            s.consume_spec(err).tag() == s.tag(),
            s.consume_spec(err).data_inv(),
    ;

    /// Handles an incoming failure, typically by storing it for the error
    /// state's own hooks and guards to inspect.
    fn consume_error(&mut self, err: Self::Error)
        requires
            old(self).data_inv(),
        ensures
            *final(self) == Self::consume_spec(*old(self), err),
    ;
}

} // verus!
