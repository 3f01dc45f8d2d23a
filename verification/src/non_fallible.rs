//! Lifecycle traits for machines whose hooks cannot fail, and the error a
//! non-fallible machine can report.
//!
//! A running machine owns a single value of a user-chosen data type: the
//! union of all its states' data, tagged by which state is active.  The user
//! implements [`State`] and [`Transition`] for that type.  Every hook comes
//! with a specification function describing exactly what it does to the
//! data, and with a proof obligation that it keeps (or, for a conversion,
//! sets) the dispatch tag; this is what lets the dispatcher's contracts
//! pin down the machine's behaviour completely.

use crate::TransitGuard;
use vstd::prelude::*;

verus! {

/// The error a non-fallible machine reports.
#[derive(Clone, Copy, Debug, PartialEq, Eq, Structural)]
pub enum SfsmError {
    /// The storage slot was empty when it should have held data: the
    /// machine was stepped or stopped before being started, or started
    /// twice without an intervening stop.  This is a usage error, not a
    /// recoverable domain error.
    Internal,
}

/// The per-state lifecycle of a machine's data.
///
/// `tag` names which state the data currently represents, as an index into
/// the machine graph's state list.  Each hook is described by a
/// specification function; the executable hook must behave exactly as its
/// specification says, and a hook never moves the data to another state —
/// only a transition's conversion does that.
pub trait State: crate::DispatchTag {
    /// What the entry hook does to the data.
    spec fn entry_spec(self) -> Self;

    /// What the execute hook does to the data.
    spec fn execute_spec(self) -> Self;

    /// What the exit hook does to the data.
    spec fn exit_spec(self) -> Self;

    /// The entry hook leaves the data in the same state, well formed.
    proof fn entry_preserves_tag(s: Self)
        requires
            s.data_inv(),
        ensures
            s.entry_spec().tag() == s.tag(),
            s.entry_spec().data_inv(),
    ;

    /// The execute hook leaves the data in the same state, well formed.
    proof fn execute_preserves_tag(s: Self)
        requires
            s.data_inv(),
        ensures
            s.execute_spec().tag() == s.tag(),
            s.execute_spec().data_inv(),
    ;

    /// The exit hook leaves the data in the same state, well formed.
    proof fn exit_preserves_tag(s: Self)
        requires
            s.data_inv(),
        ensures
            s.exit_spec().tag() == s.tag(),
            s.exit_spec().data_inv(),
    ;

    /// Runs once each time the state becomes active.
    fn entry(&mut self)
        requires
            old(self).data_inv(),
        ensures
            *final(self) == Self::entry_spec(*old(self)),
    ;

    /// Runs once per step while the state remains active.
    fn execute(&mut self)
        requires
            old(self).data_inv(),
        ensures
            *final(self) == Self::execute_spec(*old(self)),
    ;

    /// Runs once each time the state is left, including at stop.
    fn exit(&mut self)
        requires
            old(self).data_inv(),
        ensures
            *final(self) == Self::exit_spec(*old(self)),
    ;
}

/// The per-transition behaviour of a machine's data.
///
/// Transitions are keyed by the destination state's index.  The guard
/// decides whether the transition fires; the action is transition-local
/// cleanup that runs whenever the state is left; the conversion consumes the
/// source state's data and produces the destination state's data.
pub trait Transition: State {
    /// Whether the transition towards `dst` wants to fire.
    spec fn guard_spec(self, dst: int) -> bool;

    /// What the transition action towards `dst` does to the data.
    spec fn action_spec(self, dst: int) -> Self;

    /// On which destinations the conversion is defined.
    spec fn transformable(self, dst: int) -> bool;

    /// What the conversion into `dst` produces from the data.
    spec fn transform_spec(self, dst: int) -> Self;

    /// The action hook leaves the data in the same state, well formed.
    proof fn action_preserves_tag(s: Self, dst: int)
        requires
            s.data_inv(),
        ensures
            s.action_spec(dst).tag() == s.tag(),
            s.action_spec(dst).data_inv(),
    ;

    /// The conversion produces well-formed data of the destination state.
    proof fn transform_sets_tag(s: Self, dst: int)
        requires
            s.transformable(dst),
            s.data_inv(),
        ensures
            s.transform_spec(dst).tag() == dst,
            s.transform_spec(dst).data_inv(),
    ;

    /// Decides whether to move towards `dst`; evaluated without changing
    /// the data.
    fn guard(&self, dst: usize) -> (g: TransitGuard)
        ensures
            g == (if self.guard_spec(dst as int) {
                TransitGuard::Transit
            } else {
                TransitGuard::Remain
            }),
    ;

    /// Transition-local cleanup, run once for each of the state's outgoing
    /// transitions whenever the state is left.
    fn action(&mut self, dst: usize)
        requires
            old(self).data_inv(),
        ensures
            *final(self) == Self::action_spec(*old(self), dst as int),
    ;

    /// Consumes the data and converts it into the destination state's data;
    /// ownership moves, the source data cannot be reused.
    fn transform(self, dst: usize) -> (r: Self)
        requires
            self.transformable(dst as int),
            self.data_inv(),
        ensures
            r == self.transform_spec(dst as int),
    ;
}

} // verus!
