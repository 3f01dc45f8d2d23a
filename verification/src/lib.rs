//! A compiler and dispatch engine for small, statically described state
//! machines.
//!
//! A machine is described once as text: a name, an initial state, the list of
//! states and the guarded transitions between them, optionally extended with a
//! designated error state and with typed message channels.  The library parses
//! that description into a grammar model, validates it (every transition
//! endpoint, the initial state and the error state must be declared states),
//! and runs the resulting graph as a run-to-completion dispatcher: one active
//! state at a time, lifecycle hooks invoked in a fixed order, ownership of the
//! state data moved across transitions by an explicit conversion.

use vstd::prelude::*;

pub mod fallible;
pub mod machine;
pub mod message;
pub mod non_fallible;
pub mod parsers;
pub mod samples;
pub mod trace;
pub mod try_machine;
pub mod types;

verus! {

/// The data of a running machine, tagged by which state it currently
/// represents.
///
/// The dispatcher stores one value of an implementing type — the union of
/// all the machine's states' data — and `tag` names the active state as an
/// index into the machine graph's state list.  Every lifecycle and message
/// trait refines this one, so that all of them speak about the same tag.
pub trait DispatchTag: Sized {
    /// Which state this data currently represents.
    spec fn tag(self) -> int;

    /// The data's own well-formedness.  Constructors establish it, every
    /// hook may rely on it and must preserve it, and the dispatcher keeps
    /// it for the data in its slot.  Data without an internal invariant
    /// declares it `true`.
    spec fn data_inv(self) -> bool;
}

/// Read-only introspection of which state is active.
///
/// Both dispatch engines implement this; `is_state` runs no hook and
/// changes nothing.
pub trait IsState {
    /// The tag of the active state.
    spec fn active(&self) -> int;

    /// Whether the given tag is the active one.
    fn is_state(&self, tag: usize) -> (b: bool)
        ensures
            b == (tag as int == self.active()),
    ;
}

/// Tells the dispatcher whether a guarded transition should fire.
///
/// A guard returns [`TransitGuard::Transit`] to move into the transition's
/// destination state and [`TransitGuard::Remain`] to stay where it is.
#[derive(Clone, Copy, Debug, PartialEq, Eq, Structural)]
pub enum TransitGuard {
    /// Remain in the current state.
    Remain,
    /// Transit into the destination state.
    Transit,
}


impl From<bool> for TransitGuard {
    /// `true` means transit, so a guard can end in a plain comparison.
    fn from(transit: bool) -> (r: TransitGuard) {
        if transit {
            TransitGuard::Transit
        } else {
            TransitGuard::Remain
        }
    }
}

impl vstd::std_specs::convert::FromSpecImpl<bool> for TransitGuard {
    open spec fn obeys_from_spec() -> bool {
        true
    }

    open spec fn from_spec(transit: bool) -> TransitGuard {
        if transit {
            TransitGuard::Transit
        } else {
            TransitGuard::Remain
        }
    }
}

} // verus!
