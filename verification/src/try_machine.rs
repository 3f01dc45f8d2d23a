//! The dispatch engine for fallible machines: the same sequencing as the
//! non-fallible engine, with every hook invocation wrapped so that a
//! failure raised outside the designated error state reroutes into it.
//!
//! Rerouting converts the current state's data into the error state's
//! data, delivers the failure to the error state's consume operation, runs
//! the error state's entry hook, and makes the error state active —
//! bypassing the guard-evaluated transition search for that step.  A
//! failure raised by a hook of the error state itself is not intercepted:
//! it escalates to the caller as `Custom`, and the machine halts (its slot
//! is left empty) until the caller re-synchronizes by starting again.

use crate::fallible::{ExtendedSfsmError, TryErrorState, TryState, TryTransition};
use crate::machine::{action_events, Event, MachineGraph};
use crate::message::{MessageError, ReceiveMessage, ReturnMessage};
use crate::DispatchTag;
use crate::TransitGuard;
use vstd::prelude::*;

verus! {

/// True when every conversion the graph or the rerouting can ask of the
/// data type is defined: edges as in the non-fallible engine, and in
/// addition every state other than the error state can be converted into
/// the error state, so no in-flight data is lost on a failure.
pub open spec fn try_compat<D: TryTransition>(g: MachineGraph, err: int) -> bool {
    &&& forall|s: D, dst: int| g.has_edge(s.tag(), dst) ==> #[trigger] s.transformable(dst)
    &&& forall|s: D|
        0 <= s.tag() < g.n() && s.tag() != err ==> #[trigger] s.transformable(err)
}

/// The index of the first destination, in declaration order, whose guard
/// wants to fire; `None` if no guard does.
pub open spec fn try_first_transit<D: TryTransition>(d: D, succ: Seq<int>) -> Option<int>
    decreases succ.len(),
{
    if succ.len() == 0 {
        None
    } else if d.guard_spec(succ[0]) {
        Some(0int)
    } else {
        match try_first_transit(d, succ.drop_first()) {
            Some(i) => Some(i + 1),
            None => None,
        }
    }
}

/// What the first matching index means: every guard before it stays, and
/// its own guard fires; with no match, every guard stays.
pub proof fn lemma_try_first_transit_props<D: TryTransition>(d: D, succ: Seq<int>)
    ensures
        match try_first_transit(d, succ) {
            Some(i) => 0 <= i < succ.len() && d.guard_spec(succ[i]) && forall|j: int|
                0 <= j < i ==> !(#[trigger] d.guard_spec(succ[j])),
            None => forall|j: int| 0 <= j < succ.len() ==> !(#[trigger] d.guard_spec(succ[j])),
        },
    decreases succ.len(),
{
    if succ.len() == 0 {
    } else if d.guard_spec(succ[0]) {
    } else {
        lemma_try_first_transit_props(d, succ.drop_first());
        assert forall|j: int| 0 <= j < succ.len() implies succ.drop_first()[j - 1] == succ[j]
            || j == 0 by {}
    }
}

/// A guard that fires at `i` with every earlier guard staying makes `i`
/// the first matching index.
pub proof fn lemma_try_first_transit_at<D: TryTransition>(d: D, succ: Seq<int>, i: int)
    requires
        0 <= i < succ.len(),
        d.guard_spec(succ[i]),
        forall|j: int| 0 <= j < i ==> !(#[trigger] d.guard_spec(succ[j])),
    ensures
        try_first_transit(d, succ) == Some(i),
    decreases succ.len(),
{
    if i == 0 {
    } else {
        assert(!d.guard_spec(succ[0]));
        assert forall|j: int| 0 <= j < i - 1 implies !(#[trigger] d.guard_spec(
            succ.drop_first()[j],
        )) by {
            assert(succ.drop_first()[j] == succ[j + 1]);
        }
        assert(succ.drop_first()[i - 1] == succ[i]);
        lemma_try_first_transit_at(d, succ.drop_first(), i - 1);
    }
}

/// With every guard staying there is no first matching index.
pub proof fn lemma_try_first_transit_is_none<D: TryTransition>(d: D, succ: Seq<int>)
    requires
        forall|j: int| 0 <= j < succ.len() ==> !(#[trigger] d.guard_spec(succ[j])),
    ensures
        try_first_transit(d, succ) is None,
    decreases succ.len(),
{
    if succ.len() == 0 {
    } else {
        assert(!d.guard_spec(succ[0]));
        assert forall|j: int| 0 <= j < succ.drop_first().len() implies !(
        #[trigger] d.guard_spec(succ.drop_first()[j])) by {
            assert(succ.drop_first()[j] == succ[j + 1]);
        }
        lemma_try_first_transit_is_none(d, succ.drop_first());
    }
}

/// What rerouting a failure into the error state does: convert the current
/// data into the error state's data, deliver the failure to the consume
/// operation, then run the error state's entry hook.  The result is the
/// rerouted data, or the failure the error state's own entry raised.
pub open spec fn redirect_spec<D: TryTransition + TryErrorState>(
    d: D,
    err: D::Error,
    err_tag: int,
) -> (Seq<Event>, Result<D, D::Error>) {
    let dc = d.transform_spec(err_tag).consume_spec(err);
    let (dn, e2) = dc.try_entry_spec();
    let ev = seq![Event::ConsumeError(err_tag), Event::Entry(err_tag)];
    match e2 {
        Some(e) => (ev, Err(e)),
        None => (ev, Ok(dn)),
    }
}

/// The outcome of a failure raised by a hook belonging to `owner_tag`:
/// the slot afterwards, the active tag afterwards, the hooks the handling
/// itself ran, and the failure that escalated to the caller, if any.
pub open spec fn fail_outcome<D: TryTransition + TryErrorState>(
    d: D,
    err: D::Error,
    owner_tag: int,
    err_tag: int,
    stay_tag: int,
) -> (Option<D>, int, Seq<Event>, Option<D::Error>) {
    if owner_tag == err_tag {
        (None, stay_tag, Seq::empty(), Some(err))
    } else {
        let (rev, res) = redirect_spec(d, err, err_tag);
        match res {
            Ok(dn) => (Some(dn), err_tag, rev, None),
            Err(e) => (None, stay_tag, rev, Some(e)),
        }
    }
}

/// Composes a failure outcome with the events that preceded the failure.
pub open spec fn after_events<D>(
    before: Seq<Event>,
    outcome: (Option<D>, int, Seq<Event>, Option<D::Error>),
) -> (Option<D>, int, Seq<Event>, Option<D::Error>) where D: TryState {
    (outcome.0, outcome.1, before + outcome.2, outcome.3)
}

/// The data after running the listed transition actions in order, stopping
/// at the first failure: the events of the actions that ran, the data they
/// left, and the failure, if any.
pub open spec fn try_run_actions<D: TryTransition>(src: int, d: D, succ: Seq<int>) -> (
    Seq<Event>,
    D,
    Option<D::Error>,
)
    decreases succ.len(),
{
    if succ.len() == 0 {
        (Seq::empty(), d, None)
    } else {
        let (d1, e) = d.try_action_spec(succ[0]);
        let ev = seq![Event::Action(src, succ[0])];
        match e {
            Some(_) => (ev, d1, e),
            None => {
                let (evr, d2, e2) = try_run_actions(src, d1, succ.drop_first());
                (ev + evr, d2, e2)
            },
        }
    }
}

/// Everything one fallible step does from data `d0` active at `tag`: the
/// slot afterwards, the active tag afterwards, the hooks that ran, and the
/// failure that escalated, if any.
///
/// The execute hook runs first; a failure there (or in the exit, action or
/// entry hooks of a taken transition) reroutes into the error state unless
/// the failing hook belongs to the error state itself, in which case it
/// escalates.  With no failure, the guards are evaluated in declaration
/// order exactly as in the non-fallible engine.
pub open spec fn try_step_spec<D: TryTransition + TryErrorState>(
    succ: Seq<int>,
    tag: int,
    err_tag: int,
    d0: D,
) -> (Option<D>, int, Seq<Event>, Option<D::Error>) {
    let (d1, e1) = d0.try_execute_spec();
    let ev0 = seq![Event::Execute(tag)];
    match e1 {
        Some(err) => after_events(ev0, fail_outcome(d1, err, tag, err_tag, tag)),
        None => match try_first_transit(d1, succ) {
            None => (Some(d1), tag, ev0, None),
            Some(i) => {
                let dst = succ[i];
                let (d2, e2) = d1.try_exit_spec();
                let ev1 = ev0 + seq![Event::Exit(tag)];
                match e2 {
                    Some(err) => after_events(ev1, fail_outcome(d2, err, tag, err_tag, tag)),
                    None => {
                        let (eva, d3, e3) = try_run_actions(tag, d2, succ);
                        let ev2 = ev1 + eva;
                        match e3 {
                            Some(err) => after_events(
                                ev2,
                                fail_outcome(d3, err, tag, err_tag, tag),
                            ),
                            None => {
                                let d4 = d3.transform_spec(dst);
                                let (d5, e5) = d4.try_entry_spec();
                                let ev3 = ev2 + seq![
                                    Event::Transform(tag, dst),
                                    Event::Entry(dst),
                                ];
                                match e5 {
                                    Some(err) => after_events(
                                        ev3,
                                        fail_outcome(d5, err, dst, err_tag, tag),
                                    ),
                                    None => (Some(d5), dst, ev3, None),
                                }
                            },
                        }
                    },
                }
            },
        },
    }
}

/// Everything starting a fallible machine does with initial data `d`: the
/// initial state's entry hook runs, and a failure there is rerouted or
/// escalated exactly as during a step.
pub open spec fn try_start_spec<D: TryTransition + TryErrorState>(
    init: int,
    err_tag: int,
    d: D,
) -> (Option<D>, int, Seq<Event>, Option<D::Error>) {
    let (d1, e1) = d.try_entry_spec();
    let ev = seq![Event::Entry(init)];
    match e1 {
        Some(err) => after_events(ev, fail_outcome(d1, err, init, err_tag, init)),
        None => (Some(d1), init, ev, None),
    }
}

/// Everything stopping a fallible machine does from data `d` active at
/// `tag`: the exit hook and the transition actions run as in a taken
/// transition; a failure reroutes into the error state, whose data is then
/// what the stop hands back, or escalates if the error state itself
/// failed.
pub open spec fn try_stop_spec<D: TryTransition + TryErrorState>(
    succ: Seq<int>,
    tag: int,
    err_tag: int,
    d: D,
) -> (Seq<Event>, Result<D, D::Error>) {
    let (d1, e1) = d.try_exit_spec();
    let ev = seq![Event::Exit(tag)];
    match e1 {
        Some(err) => stop_fail(d1, err, tag, err_tag, ev),
        None => {
            let (eva, d2, e2) = try_run_actions(tag, d1, succ);
            match e2 {
                Some(err) => stop_fail(d2, err, tag, err_tag, ev + eva),
                None => (ev + eva, Ok(d2)),
            }
        },
    }
}

/// The outcome of a failure during a stop: reroute and hand back the error
/// state's data, or escalate if the failure belongs to the error state.
pub open spec fn stop_fail<D: TryTransition + TryErrorState>(
    d: D,
    err: D::Error,
    owner_tag: int,
    err_tag: int,
    ev: Seq<Event>,
) -> (Seq<Event>, Result<D, D::Error>) {
    if owner_tag == err_tag {
        (ev, Err(err))
    } else {
        let (rev, res) = redirect_spec(d, err, err_tag);
        (ev + rev, res)
    }
}

/// A run-to-completion state machine over the data type `D`, with failure
/// rerouting into a designated error state.
pub struct TryStateMachine<D: TryTransition + TryErrorState> {
    graph: MachineGraph,
    error: usize,
    slot: Option<D>,
    active: usize,
    log: Ghost<Seq<Event>>,
}

impl<D: TryTransition + TryErrorState> TryStateMachine<D> {
    /// The machine's transition graph.
    pub closed spec fn graph_spec(self) -> MachineGraph {
        self.graph
    }

    /// The tag of the designated error state.
    pub closed spec fn error_tag(self) -> int {
        self.error as int
    }

    /// The tag of the active state (before `start`, of the initial state).
    pub closed spec fn active_tag(self) -> int {
        self.active as int
    }

    /// The data in the storage slot, if the machine is started.
    pub closed spec fn data(self) -> Option<D> {
        self.slot
    }

    /// Every hook invocation so far, oldest first.
    pub closed spec fn log(self) -> Seq<Event> {
        self.log@
    }

    /// Whether the machine is started and has not stopped or halted on an
    /// escalated failure since.
    pub open spec fn started(self) -> bool {
        self.data() is Some
    }

    /// The machine's invariant: the graph is well formed, the error state
    /// is a state and every needed conversion is defined, the active tag
    /// is a state, and the slot's data (when present) carries the active
    /// tag.
    pub closed spec fn wf(self) -> bool {
        &&& self.graph.wf()
        &&& try_compat::<D>(self.graph, self.error as int)
        &&& (self.error as int) < self.graph.n()
        &&& (self.active as int) < self.graph.n()
        &&& match self.slot {
            Some(d) => d.tag() == self.active as int && d.data_inv(),
            None => true,
        }
    }

    /// Creates a machine for the graph with the given error state; it must
    /// be started before it can step.
    pub fn new(graph: MachineGraph, error: usize) -> (r: TryStateMachine<D>)
        requires
            graph.wf(),
            (error as int) < graph.n(),
            try_compat::<D>(graph, error as int),
        ensures
            r.wf(),
            r.graph_spec() == graph,
            r.error_tag() == error as int,
            !r.started(),
            r.active_tag() == graph.init as int,
            r.log() == Seq::<Event>::empty(),
    {
        let active = graph.init;
        TryStateMachine { graph, error, slot: None, active, log: Ghost(Seq::empty()) }
    }

    /// The tag of the active state, without running any hook.
    pub fn peek_state(&self) -> (t: usize)
        ensures
            t as int == self.active_tag(),
    {
        self.active
    }

    /// Whether the given tag is the active one, without running any hook.
    pub fn is_state(&self, tag: usize) -> (b: bool)
        ensures
            b == (tag as int == self.active_tag()),
    {
        tag == self.active
    }

    /// Reroutes a failure into the error state.
    fn redirect(d: D, err: D::Error, err_tag: usize) -> (r: Result<D, D::Error>)
        requires
            d.transformable(err_tag as int),
            d.data_inv(),
        ensures
            r == redirect_spec(d, err, err_tag as int).1,
            r matches Ok(dn) ==> dn.tag() == err_tag as int && dn.data_inv(),
    {
        proof {
            D::transform_sets_tag(d, err_tag as int);
        }
        let mut de = d.transform(err_tag);
        proof {
            D::consume_preserves_tag(de, err);
        }
        de.consume_error(err);
        proof {
            D::try_entry_preserves_tag(de);
        }
        match de.try_entry() {
            Ok(()) => Ok(de),
            Err(e) => Err(e),
        }
    }

    /// Stores the initial state's data and runs its entry hook, rerouting
    /// or escalating a failure exactly as a step would.  Fails with
    /// `Internal` exactly when the machine is already started.
    pub fn start(&mut self, data: D) -> (r: Result<(), ExtendedSfsmError<D::Error>>)
        requires
            old(self).wf(),
            data.tag() == old(self).graph_spec().init as int,
            data.data_inv(),
        ensures
            final(self).wf(),
            final(self).graph_spec() == old(self).graph_spec(),
            final(self).error_tag() == old(self).error_tag(),
            ({
                let (sl, t, ev, esc) = try_start_spec(
                    old(self).graph_spec().init as int,
                    old(self).error_tag(),
                    data,
                );
                match r {
                    Ok(()) => {
                        &&& !old(self).started()
                        &&& esc is None
                        &&& final(self).data() == sl
                        &&& final(self).active_tag() == t
                        &&& final(self).log() == old(self).log() + ev
                    },
                    Err(ExtendedSfsmError::Internal) => {
                        &&& old(self).started()
                        &&& final(self).data() == old(self).data()
                        &&& final(self).active_tag() == old(self).active_tag()
                        &&& final(self).log() == old(self).log()
                    },
                    Err(ExtendedSfsmError::Custom(e)) => {
                        &&& !old(self).started()
                        &&& esc == Some(e)
                        &&& !final(self).started()
                        &&& final(self).active_tag() == t
                        &&& final(self).log() == old(self).log() + ev
                    },
                }
            }),
    {
        if self.slot.is_some() {
            return Err(ExtendedSfsmError::Internal);
        }
        let init = self.graph.init;
        proof {
            D::try_entry_preserves_tag(data);
        }
        let mut d1 = data;
        let entry_result = d1.try_entry();
        proof {
            self.log@ = self.log@ + seq![Event::Entry(init as int)];
        }
        match entry_result {
            Ok(()) => {
                self.active = init;
                self.slot = Some(d1);
                Ok(())
            },
            Err(err) => {
                if init == self.error {
                    self.active = init;
                    return Err(ExtendedSfsmError::Custom(err));
                }
                proof {
                    assert(d1.transformable(self.error as int));
                }
                match Self::redirect(d1, err, self.error) {
                    Ok(dn) => {
                        proof {
                            self.log@ = self.log@ + seq![
                                Event::ConsumeError(self.error as int),
                                Event::Entry(self.error as int),
                            ];
                        }
                        self.active = self.error;
                        self.slot = Some(dn);
                        Ok(())
                    },
                    Err(e) => {
                        proof {
                            self.log@ = self.log@ + seq![
                                Event::ConsumeError(self.error as int),
                                Event::Entry(self.error as int),
                            ];
                        }
                        self.active = init;
                        Err(ExtendedSfsmError::Custom(e))
                    },
                }
            },
        }
    }

    /// Handles a failure raised by a hook belonging to `owner_tag` while
    /// the slot is empty: reroutes into the error state, or escalates if
    /// the failure belongs to the error state, appending the handling's
    /// own events to the log.
    fn handle_failure(&mut self, d: D, err: D::Error, owner_tag: usize) -> (r: Result<
        (),
        ExtendedSfsmError<D::Error>,
    >)
        requires
            old(self).wf(),
            old(self).data() is None,
            d.tag() == owner_tag as int,
            d.data_inv(),
            owner_tag as int != old(self).error_tag() ==> d.transformable(
                old(self).error_tag(),
            ),
        ensures
            final(self).wf(),
            final(self).graph_spec() == old(self).graph_spec(),
            final(self).error_tag() == old(self).error_tag(),
            ({
                let (sl, t, ev, esc) = fail_outcome(
                    d,
                    err,
                    owner_tag as int,
                    old(self).error_tag(),
                    old(self).active_tag(),
                );
                &&& final(self).data() == sl
                &&& final(self).active_tag() == t
                &&& final(self).log() == old(self).log() + ev
                &&& r == match esc {
                    Some(e) => Err::<(), ExtendedSfsmError<D::Error>>(
                        ExtendedSfsmError::Custom(e),
                    ),
                    None => Ok(()),
                }
            }),
    {
        if owner_tag == self.error {
            proof {
                assert(self.log@ =~= old(self).log@ + Seq::<Event>::empty());
            }
            return Err(ExtendedSfsmError::Custom(err));
        }
        let rr = Self::redirect(d, err, self.error);
        proof {
            self.log@ = self.log@ + seq![
                Event::ConsumeError(self.error as int),
                Event::Entry(self.error as int),
            ];
        }
        match rr {
            Ok(dn) => {
                self.active = self.error;
                self.slot = Some(dn);
                Ok(())
            },
            Err(e) => Err(ExtendedSfsmError::Custom(e)),
        }
    }

    /// Runs one step with failure rerouting: the active state's execute
    /// hook, then — unless a failure rerouted or escalated — the guards in
    /// declaration order, and for the first match the exit hook, every
    /// outgoing action, the conversion and the destination's entry hook,
    /// each wrapped the same way.  Fails with `Internal` exactly when the
    /// machine is not started, and with `Custom` exactly when a hook of
    /// the error state itself failed, in which case the machine halts.
    pub fn step(&mut self) -> (r: Result<(), ExtendedSfsmError<D::Error>>)
        requires
            old(self).wf(),
        ensures
            final(self).wf(),
            final(self).graph_spec() == old(self).graph_spec(),
            final(self).error_tag() == old(self).error_tag(),
            ({
                let (sl, t, ev, esc) = try_step_spec(
                    old(self).graph_spec().succ(old(self).active_tag()),
                    old(self).active_tag(),
                    old(self).error_tag(),
                    old(self).data()->0,
                );
                match r {
                    Ok(()) => {
                        &&& old(self).started()
                        &&& esc is None
                        &&& final(self).data() == sl
                        &&& final(self).active_tag() == t
                        &&& final(self).log() == old(self).log() + ev
                    },
                    Err(ExtendedSfsmError::Internal) => {
                        &&& !old(self).started()
                        &&& final(self).data() == old(self).data()
                        &&& final(self).active_tag() == old(self).active_tag()
                        &&& final(self).log() == old(self).log()
                    },
                    Err(ExtendedSfsmError::Custom(e)) => {
                        &&& old(self).started()
                        &&& esc == Some(e)
                        &&& !final(self).started()
                        &&& final(self).active_tag() == t
                        &&& final(self).log() == old(self).log() + ev
                    },
                }
            }),
    {
        let d0 = match self.slot.take() {
            Some(d) => d,
            None => {
                return Err(ExtendedSfsmError::Internal);
            },
        };
        let tag = self.active;
        let ghost succ = self.graph.succ(tag as int);
        let n = self.graph.edges[tag].len();
        proof {
            assert(succ.len() == n);
            D::try_execute_preserves_tag(d0);
        }
        let mut d1 = d0;
        let exec_result = d1.try_execute();
        proof {
            self.log@ = self.log@ + seq![Event::Execute(tag as int)];
        }
        if let Err(err) = exec_result {
            let r = self.handle_failure(d1, err, tag);
            proof {
                assert(self.log@ =~= old(self).log@ + try_step_spec(
                    succ,
                    tag as int,
                    self.error as int,
                    d0,
                ).2);
            }
            return r;
        }
        let mut i: usize = 0;
        let mut chosen: Option<usize> = None;
        while i < n && chosen.is_none()
            invariant
                self.graph.wf(),
                (tag as int) < self.graph.n(),
                succ == self.graph.succ(tag as int),
                n == self.graph.edges@[tag as int]@.len(),
                i <= n,
                chosen is None ==> forall|j: int|
                    0 <= j < i ==> !(#[trigger] d1.guard_spec(succ[j])),
                match chosen {
                    Some(c) => c < n && d1.guard_spec(succ[c as int]) && forall|j: int|
                        0 <= j < c ==> !(#[trigger] d1.guard_spec(succ[j])),
                    None => true,
                },
            decreases n - i + (if chosen is None { 1int } else { 0int }),
        {
            let dst = self.graph.edges[tag][i];
            let g = d1.guard(dst);
            if g == TransitGuard::Transit {
                chosen = Some(i);
            } else {
                i = i + 1;
            }
        }
        let ghost d1g = d1;
        let c = match chosen {
            None => {
                proof {
                    lemma_try_first_transit_is_none(d1g, succ);
                }
                self.slot = Some(d1);
                return Ok(());
            },
            Some(c) => c,
        };
        proof {
            lemma_try_first_transit_at(d1g, succ, c as int);
        }
        let dst = self.graph.edges[tag][c];
        proof {
            D::try_exit_preserves_tag(d1);
        }
        let mut d2 = d1;
        let exit_result = d2.try_exit();
        proof {
            self.log@ = self.log@ + seq![Event::Exit(tag as int)];
        }
        if let Err(err) = exit_result {
            let r = self.handle_failure(d2, err, tag);
            proof {
                let (sl, t, ev, esc) = try_step_spec(succ, tag as int, self.error as int, d0);
                assert(self.log@ =~= old(self).log@ + ev);
            }
            return r;
        }
        let ghost log_mark = self.log@;
        let ghost d2g = d2;
        proof {
            assert(succ.skip(0) =~= succ);
            assert(succ.take(0int) =~= Seq::<int>::empty());
            assert(action_events(tag as int, succ.take(0int)) =~= Seq::<Event>::empty());
            assert(self.log@ =~= log_mark + Seq::<Event>::empty());
        }
        let mut k: usize = 0;
        let mut act_err: Option<D::Error> = None;
        while k < n && act_err.is_none()
            invariant
                self.graph.wf(),
                (tag as int) < self.graph.n(),
                succ == self.graph.succ(tag as int),
                n == self.graph.edges@[tag as int]@.len(),
                k <= n,
                self.graph == old(self).graph_spec(),
                self.error as int == old(self).error_tag(),
                self.active == tag,
                self.slot is None,
                act_err is None ==> {
                    &&& d2.tag() == tag as int
                    &&& d2.data_inv()
                    &&& try_run_actions(tag as int, d2g, succ) == ({
                        let (evr, dr, er) = try_run_actions(
                            tag as int,
                            d2,
                            succ.skip(k as int),
                        );
                        (action_events(tag as int, succ.take(k as int)) + evr, dr, er)
                    })
                    &&& self.log@ == log_mark + action_events(
                        tag as int,
                        succ.take(k as int),
                    )
                },
                match act_err {
                    Some(e) => ({
                        let (evr, dr, er) = try_run_actions(tag as int, d2g, succ);
                        &&& er == Some(e)
                        &&& dr == d2
                        &&& d2.tag() == tag as int
                        &&& d2.data_inv()
                        &&& self.log@ == log_mark + evr
                    }),
                    None => true,
                },
            decreases n - k + (if act_err is None { 1int } else { 0int }),
        {
            let adst = self.graph.edges[tag][k];
            proof {
                D::try_action_preserves_tag(d2, adst as int);
                assert(succ.skip(k as int)[0] == succ[k as int]);
                assert(succ.skip(k as int).drop_first() =~= succ.skip(k as int + 1));
            }
            let ghost pre = d2;
            let act_result = d2.try_action(adst);
            proof {
                self.log@ = self.log@ + seq![Event::Action(tag as int, adst as int)];
                assert(action_events(tag as int, succ.take(k as int + 1))
                    =~= action_events(tag as int, succ.take(k as int)) + seq![
                    Event::Action(tag as int, succ[k as int]),
                ]);
            }
            match act_result {
                Ok(()) => {
                    proof {
                        assert(self.log@ =~= log_mark + action_events(
                            tag as int,
                            succ.take(k as int + 1),
                        ));
                        let (evr1, dr1, er1) = try_run_actions(
                            tag as int,
                            d2,
                            succ.skip(k as int + 1),
                        );
                        assert((action_events(tag as int, succ.take(k as int)) + (seq![
                            Event::Action(tag as int, succ[k as int]),
                        ] + evr1)) =~= action_events(tag as int, succ.take(k as int + 1))
                            + evr1);
                    }
                    k = k + 1;
                },
                Err(e) => {
                    proof {
                        let (evr1, dr1, er1) = try_run_actions(
                            tag as int,
                            pre,
                            succ.skip(k as int),
                        );
                        assert(self.log@ =~= log_mark + (action_events(
                            tag as int,
                            succ.take(k as int),
                        ) + seq![Event::Action(tag as int, succ[k as int])]));
                    }
                    act_err = Some(e);
                },
            }
        }
        if let Some(err) = act_err {
            let r = self.handle_failure(d2, err, tag);
            proof {
                let (sl, t, ev, esc) = try_step_spec(succ, tag as int, self.error as int, d0);
                assert(self.log@ =~= old(self).log@ + ev);
            }
            return r;
        }
        proof {
            assert(succ.skip(n as int) =~= Seq::<int>::empty());
            assert(succ.take(n as int) =~= succ);
            let (evr, dr, er) = try_run_actions(tag as int, d2g, succ);
            assert(evr =~= action_events(tag as int, succ) + Seq::<Event>::empty());
            assert(dr == d2);
            assert(er is None);
            assert(succ[c as int] == dst as int);
            assert(self.graph.succ(tag as int).contains(dst as int));
            assert(self.graph.has_edge(d2.tag(), dst as int));
            assert(d2.transformable(dst as int));
            D::transform_sets_tag(d2, dst as int);
        }
        let d4 = d2.transform(dst);
        proof {
            D::try_entry_preserves_tag(d4);
        }
        let mut d5 = d4;
        let entry_result = d5.try_entry();
        proof {
            self.log@ = self.log@ + seq![
                Event::Transform(tag as int, dst as int),
                Event::Entry(dst as int),
            ];
        }
        match entry_result {
            Ok(()) => {
                self.active = dst;
                self.slot = Some(d5);
                proof {
                    let (sl, t, ev, esc) = try_step_spec(
                        succ,
                        tag as int,
                        self.error as int,
                        d0,
                    );
                    assert(self.log@ =~= old(self).log@ + ev);
                }
                Ok(())
            },
            Err(err) => {
                let r = self.handle_failure(d5, err, dst);
                proof {
                    let (sl, t, ev, esc) = try_step_spec(
                        succ,
                        tag as int,
                        self.error as int,
                        d0,
                    );
                    assert(self.log@ =~= old(self).log@ + ev);
                }
                r
            },
        }
    }

    /// Runs the active state's exit hook and its transitions' actions with
    /// failure rerouting, without transitioning, resets the machine to its
    /// unstarted state, and hands the state data back — the error state's
    /// data if a failure was rerouted while stopping.  Fails with
    /// `Internal` exactly when the machine is not started, and with
    /// `Custom` exactly when a hook of the error state itself failed.
    pub fn stop(&mut self) -> (r: Result<D, ExtendedSfsmError<D::Error>>)
        requires
            old(self).wf(),
        ensures
            final(self).wf(),
            final(self).graph_spec() == old(self).graph_spec(),
            final(self).error_tag() == old(self).error_tag(),
            !final(self).started(),
            ({
                let (ev, res) = try_stop_spec(
                    old(self).graph_spec().succ(old(self).active_tag()),
                    old(self).active_tag(),
                    old(self).error_tag(),
                    old(self).data()->0,
                );
                match r {
                    Ok(d) => {
                        &&& old(self).started()
                        &&& res == Ok::<D, D::Error>(d)
                        &&& final(self).log() == old(self).log() + ev
                        &&& final(self).active_tag() == old(self).graph_spec().init as int
                    },
                    Err(ExtendedSfsmError::Internal) => {
                        &&& !old(self).started()
                        &&& final(self).active_tag() == old(self).active_tag()
                        &&& final(self).log() == old(self).log()
                    },
                    Err(ExtendedSfsmError::Custom(e)) => {
                        &&& old(self).started()
                        &&& res == Err::<D, D::Error>(e)
                        &&& final(self).log() == old(self).log() + ev
                        &&& final(self).active_tag() == old(self).active_tag()
                    },
                }
            }),
    {
        let d0 = match self.slot.take() {
            Some(d) => d,
            None => {
                return Err(ExtendedSfsmError::Internal);
            },
        };
        let tag = self.active;
        let ghost succ = self.graph.succ(tag as int);
        let n = self.graph.edges[tag].len();
        proof {
            assert(succ.len() == n);
            D::try_exit_preserves_tag(d0);
        }
        let mut d1 = d0;
        let exit_result = d1.try_exit();
        proof {
            self.log@ = self.log@ + seq![Event::Exit(tag as int)];
        }
        if let Err(err) = exit_result {
            let r = self.stop_failure(d1, err, tag);
            proof {
                let (ev, res) = try_stop_spec(succ, tag as int, self.error as int, d0);
                assert(self.log@ =~= old(self).log@ + ev);
            }
            return r;
        }
        let ghost log_mark = self.log@;
        let ghost d1g = d1;
        proof {
            assert(succ.skip(0) =~= succ);
            assert(succ.take(0int) =~= Seq::<int>::empty());
            assert(action_events(tag as int, succ.take(0int)) =~= Seq::<Event>::empty());
            assert(self.log@ =~= log_mark + Seq::<Event>::empty());
        }
        let mut k: usize = 0;
        let mut act_err: Option<D::Error> = None;
        while k < n && act_err.is_none()
            invariant
                self.graph.wf(),
                (tag as int) < self.graph.n(),
                succ == self.graph.succ(tag as int),
                n == self.graph.edges@[tag as int]@.len(),
                k <= n,
                self.graph == old(self).graph_spec(),
                self.error as int == old(self).error_tag(),
                self.active == tag,
                self.slot is None,
                act_err is None ==> {
                    &&& d1.tag() == tag as int
                    &&& d1.data_inv()
                    &&& try_run_actions(tag as int, d1g, succ) == ({
                        let (evr, dr, er) = try_run_actions(
                            tag as int,
                            d1,
                            succ.skip(k as int),
                        );
                        (action_events(tag as int, succ.take(k as int)) + evr, dr, er)
                    })
                    &&& self.log@ == log_mark + action_events(
                        tag as int,
                        succ.take(k as int),
                    )
                },
                match act_err {
                    Some(e) => ({
                        let (evr, dr, er) = try_run_actions(tag as int, d1g, succ);
                        &&& er == Some(e)
                        &&& dr == d1
                        &&& d1.tag() == tag as int
                        &&& d1.data_inv()
                        &&& self.log@ == log_mark + evr
                    }),
                    None => true,
                },
            decreases n - k + (if act_err is None { 1int } else { 0int }),
        {
            let adst = self.graph.edges[tag][k];
            proof {
                D::try_action_preserves_tag(d1, adst as int);
                assert(succ.skip(k as int)[0] == succ[k as int]);
                assert(succ.skip(k as int).drop_first() =~= succ.skip(k as int + 1));
            }
            let ghost pre = d1;
            let act_result = d1.try_action(adst);
            proof {
                self.log@ = self.log@ + seq![Event::Action(tag as int, adst as int)];
                assert(action_events(tag as int, succ.take(k as int + 1)) =~= action_events(
                    tag as int,
                    succ.take(k as int),
                ) + seq![Event::Action(tag as int, succ[k as int])]);
            }
            match act_result {
                Ok(()) => {
                    proof {
                        assert(self.log@ =~= log_mark + action_events(
                            tag as int,
                            succ.take(k as int + 1),
                        ));
                        let (evr1, dr1, er1) = try_run_actions(
                            tag as int,
                            d1,
                            succ.skip(k as int + 1),
                        );
                        assert((action_events(tag as int, succ.take(k as int)) + (seq![
                            Event::Action(tag as int, succ[k as int]),
                        ] + evr1)) =~= action_events(tag as int, succ.take(k as int + 1))
                            + evr1);
                    }
                    k = k + 1;
                },
                Err(e) => {
                    proof {
                        let (evr1, dr1, er1) = try_run_actions(
                            tag as int,
                            pre,
                            succ.skip(k as int),
                        );
                        assert(self.log@ =~= log_mark + (action_events(
                            tag as int,
                            succ.take(k as int),
                        ) + seq![Event::Action(tag as int, succ[k as int])]));
                    }
                    act_err = Some(e);
                },
            }
        }
        if let Some(err) = act_err {
            let r = self.stop_failure(d1, err, tag);
            proof {
                let (ev, res) = try_stop_spec(succ, tag as int, self.error as int, d0);
                assert(self.log@ =~= old(self).log@ + ev);
            }
            return r;
        }
        proof {
            assert(succ.skip(n as int) =~= Seq::<int>::empty());
            assert(succ.take(n as int) =~= succ);
            let (evr, dr, er) = try_run_actions(tag as int, d1g, succ);
            assert(evr =~= action_events(tag as int, succ) + Seq::<Event>::empty());
            let (ev, res) = try_stop_spec(succ, tag as int, self.error as int, d0);
            assert(self.log@ =~= old(self).log@ + ev);
        }
        self.active = self.graph.init;
        Ok(d1)
    }

    /// Handles a failure raised while stopping: reroutes into the error
    /// state and hands its data back, or escalates if the failure belongs
    /// to the error state, appending the handling's own events to the log.
    fn stop_failure(&mut self, d: D, err: D::Error, owner_tag: usize) -> (r: Result<
        D,
        ExtendedSfsmError<D::Error>,
    >)
        requires
            old(self).wf(),
            old(self).data() is None,
            d.tag() == owner_tag as int,
            d.data_inv(),
            owner_tag as int != old(self).error_tag() ==> d.transformable(
                old(self).error_tag(),
            ),
        ensures
            final(self).wf(),
            final(self).graph_spec() == old(self).graph_spec(),
            final(self).error_tag() == old(self).error_tag(),
            !final(self).started(),
            ({
                let (ev, res) = stop_fail(
                    d,
                    err,
                    owner_tag as int,
                    old(self).error_tag(),
                    Seq::empty(),
                );
                &&& final(self).log() == old(self).log() + ev
                &&& r == match res {
                    Ok(dn) => Ok::<D, ExtendedSfsmError<D::Error>>(dn),
                    Err(e) => Err::<D, ExtendedSfsmError<D::Error>>(
                        ExtendedSfsmError::Custom(e),
                    ),
                }
                &&& (r is Ok ==> final(self).active_tag() == old(
                    self,
                ).graph_spec().init as int)
                &&& (r is Err ==> final(self).active_tag() == old(self).active_tag())
            }),
    {
        if owner_tag == self.error {
            proof {
                assert(self.log@ =~= old(self).log@ + Seq::<Event>::empty());
            }
            return Err(ExtendedSfsmError::Custom(err));
        }
        let rr = Self::redirect(d, err, self.error);
        proof {
            self.log@ = self.log@ + seq![
                Event::ConsumeError(self.error as int),
                Event::Entry(self.error as int),
            ];
            assert(self.log@ =~= old(self).log@ + (Seq::<Event>::empty() + seq![
                Event::ConsumeError(self.error as int),
                Event::Entry(self.error as int),
            ]));
        }
        match rr {
            Ok(dn) => {
                self.active = self.graph.init;
                Ok(dn)
            },
            Err(e) => Err(ExtendedSfsmError::Custom(e)),
        }
    }

    /// Delivers a payload to the target state if it is active; otherwise
    /// returns the payload unchanged inside the error, so no data is lost.
    /// No hook runs and the active tag does not change.
    pub fn push_message<M>(&mut self, target: usize, message: M) -> (r: Result<
        (),
        MessageError<M>,
    >) where D: ReceiveMessage<M>
        requires
            old(self).wf(),
        ensures
            final(self).wf(),
            final(self).graph_spec() == old(self).graph_spec(),
            final(self).error_tag() == old(self).error_tag(),
            final(self).active_tag() == old(self).active_tag(),
            final(self).log() == old(self).log(),
            if old(self).started() && old(self).active_tag() == target as int {
                r is Ok && final(self).data() == Some(
                    (old(self).data()->0).receive_spec(message),
                )
            } else {
                r == Err::<(), MessageError<M>>(MessageError::StateIsNotActive(message))
                    && final(self).data() == old(self).data()
            },
    {
        if target != self.active {
            return Err(MessageError::StateIsNotActive(message));
        }
        let d0 = match self.slot.take() {
            Some(d) => d,
            None => {
                return Err(MessageError::StateIsNotActive(message));
            },
        };
        proof {
            D::receive_preserves_tag(d0, message);
        }
        let mut d1 = d0;
        d1.receive_message(message);
        self.slot = Some(d1);
        Ok(())
    }

    /// Polls the target state for a payload if it is active: `Ok(None)`
    /// means the state has nothing to report yet.  Against an inactive
    /// target the poll fails, carrying no payload.  No hook runs and the
    /// active tag does not change.
    pub fn poll_message<M>(&mut self, target: usize) -> (r: Result<
        Option<M>,
        MessageError<()>,
    >) where D: ReturnMessage<M>
        requires
            old(self).wf(),
        ensures
            final(self).wf(),
            final(self).graph_spec() == old(self).graph_spec(),
            final(self).error_tag() == old(self).error_tag(),
            final(self).active_tag() == old(self).active_tag(),
            final(self).log() == old(self).log(),
            if old(self).started() && old(self).active_tag() == target as int {
                r == Ok::<Option<M>, MessageError<()>>((old(self).data()->0).return_spec().1)
                    && final(self).data() == Some((old(self).data()->0).return_spec().0)
            } else {
                r == Err::<Option<M>, MessageError<()>>(MessageError::StateIsNotActive(()))
                    && final(self).data() == old(self).data()
            },
    {
        if target != self.active {
            return Err(MessageError::StateIsNotActive(()));
        }
        let d0 = match self.slot.take() {
            Some(d) => d,
            None => {
                return Err(MessageError::StateIsNotActive(()));
            },
        };
        proof {
            D::return_preserves_tag(d0);
        }
        let mut d1 = d0;
        let out = d1.return_message();
        self.slot = Some(d1);
        Ok(out)
    }
}

impl<D: TryTransition + TryErrorState> crate::IsState for TryStateMachine<D> {
    open spec fn active(&self) -> int {
        self.active_tag()
    }

    fn is_state(&self, tag: usize) -> (b: bool) {
        tag == self.active
    }
}

/// Law: fallible redirection.  A failure raised by a hook of a non-error
/// state makes the error state active: the current data is converted into
/// the error state's data, the original failure is delivered to the
/// consume operation before the error state's entry hook runs, and
/// nothing escalates — shown here for a failing execute hook, whose
/// rerouted entry succeeds.
pub proof fn lemma_fallible_redirection<D: TryTransition + TryErrorState>(
    succ: Seq<int>,
    tag: int,
    err_tag: int,
    d0: D,
)
    requires
        tag != err_tag,
        d0.try_execute_spec().1 is Some,
        redirect_spec(d0.try_execute_spec().0, d0.try_execute_spec().1->0, err_tag).1 is Ok,
    ensures
        ({
            let (sl, t, ev, esc) = try_step_spec(succ, tag, err_tag, d0);
            let d1 = d0.try_execute_spec().0;
            let err = d0.try_execute_spec().1->0;
            &&& t == err_tag
            &&& esc is None
            &&& sl == Some(d1.transform_spec(err_tag).consume_spec(err).try_entry_spec().0)
            &&& ev == seq![
                Event::Execute(tag),
                Event::ConsumeError(err_tag),
                Event::Entry(err_tag),
            ]
        }),
{
    let (sl, t, ev, esc) = try_step_spec(succ, tag, err_tag, d0);
    assert(ev =~= seq![
        Event::Execute(tag),
        Event::ConsumeError(err_tag),
        Event::Entry(err_tag),
    ]);
}

/// Law: a failing hook on the designated error state escalates.  When the
/// error state is active and its execute hook fails, the step hands the
/// failure to the caller instead of transitioning anywhere, and the
/// machine halts.
pub proof fn lemma_error_state_escalation<D: TryTransition + TryErrorState>(
    succ: Seq<int>,
    tag: int,
    d0: D,
)
    requires
        d0.try_execute_spec().1 is Some,
    ensures
        ({
            let (sl, t, ev, esc) = try_step_spec(succ, tag, tag, d0);
            &&& esc == Some(d0.try_execute_spec().1->0)
            &&& sl is None
            &&& t == tag
        }),
{
}

/// Law: a failing entry hook on the error state during a start escalates
/// instead of storing any data.
pub proof fn lemma_error_state_escalation_start<D: TryTransition + TryErrorState>(
    init: int,
    d: D,
)
    requires
        d.try_entry_spec().1 is Some,
    ensures
        try_start_spec(init, init, d).3 == Some(d.try_entry_spec().1->0),
        try_start_spec(init, init, d).0 is None,
{
}

/// Law: a failing exit hook on the error state during a stop escalates
/// instead of handing data back.
pub proof fn lemma_error_state_escalation_stop<D: TryTransition + TryErrorState>(
    succ: Seq<int>,
    tag: int,
    d: D,
)
    requires
        d.try_exit_spec().1 is Some,
    ensures
        try_stop_spec(succ, tag, tag, d).1 == Err::<D, D::Error>(d.try_exit_spec().1->0),
{
}

/// Law: guard priority holds under failure rerouting too.  When the
/// guards towards two destinations both want to fire, the transition
/// taken is the one earlier in declaration order.
pub proof fn lemma_try_guard_priority<D: TryTransition>(d: D, succ: Seq<int>, i: int, k: int)
    requires
        0 <= i < k < succ.len(),
        d.guard_spec(succ[i]),
        d.guard_spec(succ[k]),
    ensures
        try_first_transit(d, succ) is Some,
        try_first_transit(d, succ)->0 <= i,
{
    lemma_try_first_transit_props(d, succ);
}

/// Law: with no failure and no matching guard, a fallible step does
/// exactly what the non-fallible engine would: the execute hook runs
/// once, the state stays active, nothing escalates.
pub proof fn lemma_try_step_no_failure_remain<D: TryTransition + TryErrorState>(
    succ: Seq<int>,
    tag: int,
    err_tag: int,
    d0: D,
)
    requires
        d0.try_execute_spec().1 is None,
        try_first_transit(d0.try_execute_spec().0, succ) is None,
    ensures
        try_step_spec(succ, tag, err_tag, d0).0 == Some(d0.try_execute_spec().0),
        try_step_spec(succ, tag, err_tag, d0).1 == tag,
        try_step_spec(succ, tag, err_tag, d0).2 == seq![Event::Execute(tag)],
        try_step_spec(succ, tag, err_tag, d0).3 is None,
{
}

/// Law: with no failure and a first matching guard towards `dst`, a
/// fallible step follows the non-fallible sequencing exactly: execute,
/// the source's exit, each outgoing action, the conversion into `dst`
/// and the destination's entry, once each, in that order, and `dst`
/// becomes active.
pub proof fn lemma_try_step_no_failure_transit<D: TryTransition + TryErrorState>(
    succ: Seq<int>,
    tag: int,
    err_tag: int,
    d0: D,
)
    requires
        d0.try_execute_spec().1 is None,
        try_first_transit(d0.try_execute_spec().0, succ) is Some,
        d0.try_execute_spec().0.try_exit_spec().1 is None,
        try_run_actions(tag, d0.try_execute_spec().0.try_exit_spec().0, succ).2 is None,
        ({
            let d1 = d0.try_execute_spec().0;
            let i = try_first_transit(d1, succ)->0;
            let d3 = try_run_actions(tag, d1.try_exit_spec().0, succ).1;
            d3.transform_spec(succ[i]).try_entry_spec().1 is None
        }),
    ensures
        ({
            let d1 = d0.try_execute_spec().0;
            let i = try_first_transit(d1, succ)->0;
            let dst = succ[i];
            let (eva, d3, e3) = try_run_actions(tag, d1.try_exit_spec().0, succ);
            let d5 = d3.transform_spec(dst).try_entry_spec().0;
            &&& try_step_spec(succ, tag, err_tag, d0).0 == Some(d5)
            &&& try_step_spec(succ, tag, err_tag, d0).1 == dst
            &&& try_step_spec(succ, tag, err_tag, d0).2 == seq![
                Event::Execute(tag),
                Event::Exit(tag),
            ] + eva + seq![Event::Transform(tag, dst), Event::Entry(dst)]
            &&& try_step_spec(succ, tag, err_tag, d0).3 is None
        }),
{
    let d1 = d0.try_execute_spec().0;
    let i = try_first_transit(d1, succ)->0;
    let dst = succ[i];
    let (eva, d3, e3) = try_run_actions(tag, d1.try_exit_spec().0, succ);
    assert(try_step_spec(succ, tag, err_tag, d0).2 =~= seq![
        Event::Execute(tag),
        Event::Exit(tag),
    ] + eva + seq![Event::Transform(tag, dst), Event::Entry(dst)]);
}

} // verus!
