//! The dispatch engine for non-fallible machines: the validated graph, the
//! run-to-completion dispatcher, and the sequencing laws it satisfies.
//!
//! The dispatcher owns exactly one active state's data at a time.  A step
//! runs the active state's execute hook, evaluates its outgoing guards in
//! declaration order, and on the first match runs the exit hook, every
//! outgoing transition's action, the conversion into the destination and
//! the destination's entry hook — each exactly once.  A ghost log records
//! every hook invocation, which is what the entry/exit pairing law is
//! stated over.

use crate::message::{MessageError, ReceiveMessage, ReturnMessage};
use crate::non_fallible::{SfsmError, State, Transition};
use crate::DispatchTag;
use crate::TransitGuard;
use vstd::prelude::*;

verus! {

/// A hook invocation recorded by the dispatcher, named by the dispatch
/// tags involved.
pub enum Event {
    /// The entry hook of the given state ran.
    Entry(int),
    /// The execute hook of the given state ran.
    Execute(int),
    /// The exit hook of the given state ran.
    Exit(int),
    /// The action hook of the transition from the first state towards the
    /// second ran.
    Action(int, int),
    /// The conversion from the first state's data into the second's ran.
    Transform(int, int),
    /// The error state consumed a rerouted failure.
    ConsumeError(int),
}

/// The validated transition graph a dispatcher runs: states are indices,
/// and each state has an ordered list of destination indices.
pub struct MachineGraph {
    /// Index of the initial state.
    pub init: usize,
    /// For each state, the destinations of its outgoing transitions, in
    /// declaration order (the guard-evaluation priority).
    pub edges: Vec<Vec<usize>>,
}

impl MachineGraph {
    /// The number of states.
    pub open spec fn n(self) -> int {
        self.edges@.len() as int
    }

    /// The destinations of a state's outgoing transitions, in order.
    pub open spec fn succ(self, src: int) -> Seq<int> {
        self.edges@[src]@.map_values(|d: usize| d as int)
    }

    /// Every edge endpoint is a declared state, and the initial state is
    /// one.
    pub open spec fn wf(self) -> bool {
        &&& (self.init as int) < self.n()
        &&& forall|i: int, k: int|
            0 <= i < self.n() && 0 <= k < self.edges@[i]@.len() ==> (
            #[trigger] self.edges@[i]@[k] as int) < self.n()
    }

    /// True when the graph has an edge from `src` to `dst`.
    pub open spec fn has_edge(self, src: int, dst: int) -> bool {
        0 <= src < self.n() && self.succ(src).contains(dst)
    }
}

/// True when every conversion the graph can ask of the data type is
/// defined: whenever the graph has an edge out of the data's state, the
/// data can be transformed into that edge's destination.
pub open spec fn compat<D: Transition>(g: MachineGraph) -> bool {
    forall|s: D, dst: int| g.has_edge(s.tag(), dst) ==> #[trigger] s.transformable(dst)
}

/// The index of the first destination, in declaration order, whose guard
/// wants to fire; `None` if no guard does.
pub open spec fn first_transit<D: Transition>(d: D, succ: Seq<int>) -> Option<int>
    decreases succ.len(),
{
    if succ.len() == 0 {
        None
    } else if d.guard_spec(succ[0]) {
        Some(0int)
    } else {
        match first_transit(d, succ.drop_first()) {
            Some(i) => Some(i + 1),
            None => None,
        }
    }
}

/// The data after running the action of each listed transition, in order.
pub open spec fn run_actions<D: Transition>(d: D, succ: Seq<int>) -> D
    decreases succ.len(),
{
    if succ.len() == 0 {
        d
    } else {
        run_actions(d.action_spec(succ[0]), succ.drop_first())
    }
}

/// The log entries for running every listed transition action of `src`.
pub open spec fn action_events(src: int, succ: Seq<int>) -> Seq<Event> {
    Seq::new(succ.len(), |k: int| Event::Action(src, succ[k]))
}

/// The log entries for taking a transition from `src` to `dst`: exit,
/// every action, the conversion, and the destination's entry.
pub open spec fn transit_events(src: int, dst: int, succ: Seq<int>) -> Seq<Event> {
    seq![Event::Exit(src)] + action_events(src, succ) + seq![
        Event::Transform(src, dst),
        Event::Entry(dst),
    ]
}

/// Everything one step does from data `d0` active at `tag` with outgoing
/// destinations `succ`: the resulting data, the resulting active tag, and
/// the hooks that ran.
///
/// The execute hook runs first; then the first matching guard, if any,
/// selects the transition that is taken.
pub open spec fn step_spec<D: Transition>(succ: Seq<int>, tag: int, d0: D) -> (D, int, Seq<
    Event,
>) {
    let d1 = d0.execute_spec();
    match first_transit(d1, succ) {
        None => (d1, tag, seq![Event::Execute(tag)]),
        Some(i) => {
            let dst = succ[i];
            let d2 = run_actions(d1.exit_spec(), succ);
            let d3 = d2.transform_spec(dst).entry_spec();
            (d3, dst, seq![Event::Execute(tag)] + transit_events(tag, dst, succ))
        },
    }
}

/// The log entries for stopping while active at `src`: exit and every
/// action, matching the exit sequencing of a taken transition.
pub open spec fn stop_events(src: int, succ: Seq<int>) -> Seq<Event> {
    seq![Event::Exit(src)] + action_events(src, succ)
}

/// How many times the log records an entry into state `s`.
pub open spec fn count_entries(log: Seq<Event>, s: int) -> nat
    decreases log.len(),
{
    if log.len() == 0 {
        0
    } else {
        count_entries(log.drop_last(), s) + (if log.last() == Event::Entry(s) {
            1nat
        } else {
            0nat
        })
    }
}

/// How many times the log records an exit from state `s`.
pub open spec fn count_exits(log: Seq<Event>, s: int) -> nat
    decreases log.len(),
{
    if log.len() == 0 {
        0
    } else {
        count_exits(log.drop_last(), s) + (if log.last() == Event::Exit(s) {
            1nat
        } else {
            0nat
        })
    }
}

/// Counting entries distributes over concatenation.
pub proof fn lemma_count_entries_add(a: Seq<Event>, b: Seq<Event>, s: int)
    ensures
        count_entries(a + b, s) == count_entries(a, s) + count_entries(b, s),
    decreases b.len(),
{
    if b.len() == 0 {
        assert(a + b =~= a);
    } else {
        assert((a + b).drop_last() =~= a + b.drop_last());
        lemma_count_entries_add(a, b.drop_last(), s);
    }
}

/// Counting exits distributes over concatenation.
pub proof fn lemma_count_exits_add(a: Seq<Event>, b: Seq<Event>, s: int)
    ensures
        count_exits(a + b, s) == count_exits(a, s) + count_exits(b, s),
    decreases b.len(),
{
    if b.len() == 0 {
        assert(a + b =~= a);
    } else {
        assert((a + b).drop_last() =~= a + b.drop_last());
        lemma_count_exits_add(a, b.drop_last(), s);
    }
}

/// Action log entries record no entry and no exit.
pub proof fn lemma_actions_count_nothing(src: int, succ: Seq<int>, s: int)
    ensures
        count_entries(action_events(src, succ), s) == 0,
        count_exits(action_events(src, succ), s) == 0,
    decreases succ.len(),
{
    if succ.len() == 0 {
    } else {
        assert(action_events(src, succ).drop_last() =~= action_events(src, succ.drop_last()));
        lemma_actions_count_nothing(src, succ.drop_last(), s);
    }
}

/// What the first matching index means: every guard before it stays, and
/// its own guard fires; with no match, every guard stays.
pub proof fn lemma_first_transit_props<D: Transition>(d: D, succ: Seq<int>)
    ensures
        match first_transit(d, succ) {
            Some(i) => 0 <= i < succ.len() && d.guard_spec(succ[i]) && forall|j: int|
                0 <= j < i ==> !(#[trigger] d.guard_spec(succ[j])),
            None => forall|j: int| 0 <= j < succ.len() ==> !(#[trigger] d.guard_spec(succ[j])),
        },
    decreases succ.len(),
{
    if succ.len() == 0 {
    } else if d.guard_spec(succ[0]) {
    } else {
        lemma_first_transit_props(d, succ.drop_first());
        assert forall|j: int| 0 <= j < succ.len() implies succ.drop_first()[j - 1] == succ[j]
            || j == 0 by {}
    }
}

/// A guard that fires at `i` with every earlier guard staying makes `i`
/// the first matching index.
pub proof fn lemma_first_transit_at<D: Transition>(d: D, succ: Seq<int>, i: int)
    requires
        0 <= i < succ.len(),
        d.guard_spec(succ[i]),
        forall|j: int| 0 <= j < i ==> !(#[trigger] d.guard_spec(succ[j])),
    ensures
        first_transit(d, succ) == Some(i),
    decreases succ.len(),
{
    if i == 0 {
    } else {
        assert(!d.guard_spec(succ[0]));
        assert forall|j: int| 0 <= j < i - 1 implies !(#[trigger] d.guard_spec(
            succ.drop_first()[j],
        )) by {
            assert(succ.drop_first()[j] == succ[j + 1]);
        }
        assert(succ.drop_first()[i - 1] == succ[i]);
        lemma_first_transit_at(d, succ.drop_first(), i - 1);
    }
}

/// With every guard staying there is no first matching index.
pub proof fn lemma_first_transit_is_none<D: Transition>(d: D, succ: Seq<int>)
    requires
        forall|j: int| 0 <= j < succ.len() ==> !(#[trigger] d.guard_spec(succ[j])),
    ensures
        first_transit(d, succ) is None,
    decreases succ.len(),
{
    if succ.len() == 0 {
    } else {
        assert(!d.guard_spec(succ[0]));
        assert forall|j: int| 0 <= j < succ.drop_first().len() implies !(#[trigger] d.guard_spec(
            succ.drop_first()[j],
        )) by {
            assert(succ.drop_first()[j] == succ[j + 1]);
        }
        lemma_first_transit_is_none(d, succ.drop_first());
    }
}

/// A run-to-completion state machine over the data type `D`.
///
/// The machine owns a validated graph, the single storage slot for the
/// active state's data, the active state's tag, and a ghost log of every
/// hook invocation.  The slot is `None` exactly while the machine is not
/// started.
pub struct StateMachine<D: Transition> {
    graph: MachineGraph,
    slot: Option<D>,
    active: usize,
    log: Ghost<Seq<Event>>,
}

impl<D: Transition> StateMachine<D> {
    /// The machine's transition graph.
    pub closed spec fn graph_spec(self) -> MachineGraph {
        self.graph
    }

    /// The tag of the active state (before `start`, of the initial state).
    pub closed spec fn active_tag(self) -> int {
        self.active as int
    }

    /// The data in the storage slot, if the machine is started.
    pub closed spec fn data(self) -> Option<D> {
        self.slot
    }

    /// Every hook invocation so far, oldest first.
    pub closed spec fn log(self) -> Seq<Event> {
        self.log@
    }

    /// Whether the machine has been started and not stopped since.
    pub open spec fn started(self) -> bool {
        self.data() is Some
    }

    /// The machine as it stands after one successful step, as a single
    /// value: the slot, active tag and log all advanced together.
    pub closed spec fn after_step(self) -> StateMachine<D> {
        let (d, t, ev) = step_spec(
            self.graph.succ(self.active as int),
            self.active as int,
            self.slot->0,
        );
        StateMachine {
            graph: self.graph,
            slot: Some(d),
            active: t as usize,
            log: Ghost(self.log@ + ev),
        }
    }

    /// The machine's invariant: the graph is well formed and compatible
    /// with `D`, the active tag is a state, the slot's data (when present)
    /// carries the active tag, and the log's entries and exits balance for
    /// every state, with one unmatched entry for the active state while
    /// the machine is started.
    pub closed spec fn wf(self) -> bool {
        &&& self.graph.wf()
        &&& compat::<D>(self.graph)
        &&& (self.active as int) < self.graph.n()
        &&& match self.slot {
            Some(d) => d.tag() == self.active as int && d.data_inv(),
            None => true,
        }
        &&& forall|s: int|
            #[trigger] count_entries(self.log@, s) == count_exits(self.log@, s) + (
            if self.started() && self.active as int == s {
                1nat
            } else {
                0nat
            })
    }

    /// Creates a machine for the graph; it must be started before it can
    /// step.
    pub fn new(graph: MachineGraph) -> (r: StateMachine<D>)
        requires
            graph.wf(),
            compat::<D>(graph),
        ensures
            r.wf(),
            r.graph_spec() == graph,
            !r.started(),
            r.active_tag() == graph.init as int,
            r.log() == Seq::<Event>::empty(),
    {
        let active = graph.init;
        StateMachine { graph, slot: None, active, log: Ghost(Seq::empty()) }
    }

    /// The tag of the active state, without running any hook.
    pub fn peek_state(&self) -> (t: usize)
        ensures
            t as int == self.active_tag(),
    {
        self.active
    }

    /// Whether the given tag is the active one, without running any hook.
    pub fn is_state(&self, tag: usize) -> (b: bool)
        ensures
            b == (tag as int == self.active_tag()),
    {
        tag == self.active
    }

    /// Stores the initial state's data and runs its entry hook — the only
    /// place the initial state's entry hook runs outside of a transition.
    /// Fails with `Internal` exactly when the machine is already started.
    pub fn start(&mut self, data: D) -> (r: Result<(), SfsmError>)
        requires
            old(self).wf(),
            data.tag() == old(self).graph_spec().init as int,
            data.data_inv(),
        ensures
            final(self).wf(),
            final(self).graph_spec() == old(self).graph_spec(),
            match r {
                Ok(()) => {
                    &&& !old(self).started()
                    &&& final(self).data() == Some(data.entry_spec())
                    &&& final(self).active_tag() == old(self).graph_spec().init as int
                    &&& final(self).log() == old(self).log() + seq![
                        Event::Entry(old(self).graph_spec().init as int),
                    ]
                },
                Err(SfsmError::Internal) => {
                    &&& old(self).started()
                    &&& final(self).data() == old(self).data()
                    &&& final(self).active_tag() == old(self).active_tag()
                    &&& final(self).log() == old(self).log()
                },
            },
    {
        if self.slot.is_some() {
            return Err(SfsmError::Internal);
        }
        let ghost init = self.graph.init as int;
        let mut data = data;
        proof {
            D::entry_preserves_tag(data);
        }
        data.entry();
        self.active = self.graph.init;
        self.slot = Some(data);
        let ghost appended = seq![Event::Entry(init)];
        proof {
            self.log@ = self.log@ + appended;
        }
        proof {
            assert forall|s: int| #[trigger]
                count_entries(self.log@, s) == count_exits(self.log@, s) + (
            if self.started() && self.active as int == s {
                1nat
            } else {
                0nat
            }) by {
                lemma_count_entries_add(old(self).log@, appended, s);
                lemma_count_exits_add(old(self).log@, appended, s);
                lemma_count_one(Event::Entry(init), s);
            }
        }
        Ok(())
    }

    /// Runs one step: the active state's execute hook, then its guards in
    /// declaration order.  The first matching guard wins: the state's exit
    /// hook, every outgoing transition's action, the conversion into the
    /// destination and the destination's entry hook each run exactly once,
    /// and the destination becomes active.  With no match the state stays
    /// active and only execute has run.  At most one transition is taken
    /// per step.  Fails with `Internal` exactly when the machine is not
    /// started.
    pub fn step(&mut self) -> (r: Result<(), SfsmError>)
        requires
            old(self).wf(),
        ensures
            final(self).wf(),
            final(self).graph_spec() == old(self).graph_spec(),
            match r {
                Ok(()) => {
                    &&& old(self).started()
                    &&& {
                        let (d, t, ev) = step_spec(
                            old(self).graph_spec().succ(old(self).active_tag()),
                            old(self).active_tag(),
                            old(self).data()->0,
                        );
                        &&& final(self).data() == Some(d)
                        &&& final(self).active_tag() == t
                        &&& final(self).log() == old(self).log() + ev
                        &&& *final(self) == old(self).after_step()
                    }
                },
                Err(SfsmError::Internal) => {
                    &&& !old(self).started()
                    &&& final(self).data() == old(self).data()
                    &&& final(self).active_tag() == old(self).active_tag()
                    &&& final(self).log() == old(self).log()
                },
            },
    {
        let d0 = match self.slot.take() {
            Some(d) => d,
            None => {
                return Err(SfsmError::Internal);
            },
        };
        let tag = self.active;
        let ghost succ = self.graph.succ(tag as int);
        let n = self.graph.edges[tag].len();
        proof {
            assert(succ.len() == n);
            D::execute_preserves_tag(d0);
        }
        let mut d1 = d0;
        d1.execute();
        let mut i: usize = 0;
        let mut chosen: Option<usize> = None;
        while i < n && chosen.is_none()
            invariant
                self.graph.wf(),
                (tag as int) < self.graph.n(),
                succ == self.graph.succ(tag as int),
                n == self.graph.edges@[tag as int]@.len(),
                i <= n,
                chosen is None ==> forall|j: int|
                    0 <= j < i ==> !(#[trigger] d1.guard_spec(succ[j])),
                match chosen {
                    Some(c) => c < n && d1.guard_spec(succ[c as int]) && forall|j: int|
                        0 <= j < c ==> !(#[trigger] d1.guard_spec(succ[j])),
                    None => true,
                },
            decreases n - i + (if chosen is None { 1int } else { 0int }),
        {
            let dst = self.graph.edges[tag][i];
            let g = d1.guard(dst);
            if g == TransitGuard::Transit {
                chosen = Some(i);
            } else {
                i = i + 1;
            }
        }
        let ghost d1g = d1;
        match chosen {
            None => {
                proof {
                    lemma_first_transit_is_none(d1g, succ);
                }
                self.slot = Some(d1);
                let ghost appended = seq![Event::Execute(tag as int)];
                proof {
                    self.log@ = self.log@ + appended;
                    assert forall|s: int| #[trigger]
                        count_entries(self.log@, s) == count_exits(self.log@, s) + (
                    if self.started() && self.active as int == s {
                        1nat
                    } else {
                        0nat
                    }) by {
                        lemma_count_entries_add(old(self).log@, appended, s);
                        lemma_count_exits_add(old(self).log@, appended, s);
                        lemma_count_one(Event::Execute(tag as int), s);
                    }
                }
                Ok(())
            },
            Some(c) => {
                proof {
                    lemma_first_transit_at(d1g, succ, c as int);
                }
                let dst = self.graph.edges[tag][c];
                proof {
                    D::exit_preserves_tag(d1);
                }
                let mut d2 = d1;
                d2.exit();
                let ghost d2g = d2;
                proof {
                    assert(succ.skip(0) =~= succ);
                }
                let mut k: usize = 0;
                while k < n
                    invariant
                        self.graph.wf(),
                        (tag as int) < self.graph.n(),
                        succ == self.graph.succ(tag as int),
                        n == self.graph.edges@[tag as int]@.len(),
                        k <= n,
                        d2.tag() == tag as int,
                        d2.data_inv(),
                        run_actions(d2g, succ) == run_actions(d2, succ.skip(k as int)),
                    decreases n - k,
                {
                    let adst = self.graph.edges[tag][k];
                    proof {
                        D::action_preserves_tag(d2, adst as int);
                        assert(succ.skip(k as int)[0] == succ[k as int]);
                        assert(succ.skip(k as int).drop_first() =~= succ.skip(k as int + 1));
                    }
                    d2.action(adst);
                    k = k + 1;
                }
                proof {
                    assert(succ.skip(n as int) =~= Seq::<int>::empty());
                    assert(run_actions(d2g, succ) == d2);
                    assert(succ[c as int] == dst as int);
                    assert(self.graph.succ(tag as int).contains(dst as int));
                    assert(self.graph.has_edge(d2.tag(), dst as int));
                    assert(d2.transformable(dst as int));
                    D::transform_sets_tag(d2, dst as int);
                }
                let d3 = d2.transform(dst);
                proof {
                    D::entry_preserves_tag(d3);
                }
                let mut d4 = d3;
                d4.entry();
                self.active = dst;
                self.slot = Some(d4);
                let ghost appended = seq![Event::Execute(tag as int)] + transit_events(
                    tag as int,
                    dst as int,
                    succ,
                );
                proof {
                    self.log@ = self.log@ + appended;
                }
                proof {
                    assert forall|s: int| #[trigger]
                        count_entries(self.log@, s) == count_exits(self.log@, s) + (
                    if self.started() && self.active as int == s {
                        1nat
                    } else {
                        0nat
                    }) by {
                        lemma_count_entries_add(old(self).log@, appended, s);
                        lemma_count_exits_add(old(self).log@, appended, s);
                        lemma_count_transit(tag as int, dst as int, succ, s);
                    }
                }
                Ok(())
            },
        }
    }

    /// Runs the active state's exit hook and its transitions' actions —
    /// the same exit sequencing a taken transition uses — without
    /// transitioning, resets the machine to its unstarted state, and hands
    /// the state data back for external recovery.  Fails with `Internal`
    /// exactly when the machine is not started.
    pub fn stop(&mut self) -> (r: Result<D, SfsmError>)
        requires
            old(self).wf(),
        ensures
            final(self).wf(),
            final(self).graph_spec() == old(self).graph_spec(),
            !final(self).started(),
            match r {
                Ok(d) => {
                    &&& old(self).started()
                    &&& d == run_actions(
                        (old(self).data()->0).exit_spec(),
                        old(self).graph_spec().succ(old(self).active_tag()),
                    )
                    &&& final(self).log() == old(self).log() + stop_events(
                        old(self).active_tag(),
                        old(self).graph_spec().succ(old(self).active_tag()),
                    )
                    &&& final(self).active_tag() == old(self).graph_spec().init as int
                },
                Err(SfsmError::Internal) => {
                    &&& !old(self).started()
                    &&& final(self).active_tag() == old(self).active_tag()
                    &&& final(self).log() == old(self).log()
                },
            },
    {
        let d0 = match self.slot.take() {
            Some(d) => d,
            None => {
                return Err(SfsmError::Internal);
            },
        };
        let tag = self.active;
        let ghost succ = self.graph.succ(tag as int);
        let n = self.graph.edges[tag].len();
        proof {
            assert(succ.len() == n);
            D::exit_preserves_tag(d0);
        }
        let mut d1 = d0;
        d1.exit();
        let ghost d1g = d1;
        proof {
            assert(succ.skip(0) =~= succ);
        }
        let mut k: usize = 0;
        while k < n
            invariant
                self.graph.wf(),
                (tag as int) < self.graph.n(),
                succ == self.graph.succ(tag as int),
                n == self.graph.edges@[tag as int]@.len(),
                k <= n,
                d1.tag() == tag as int,
                d1.data_inv(),
                run_actions(d1g, succ) == run_actions(d1, succ.skip(k as int)),
            decreases n - k,
        {
            let adst = self.graph.edges[tag][k];
            proof {
                D::action_preserves_tag(d1, adst as int);
                assert(succ.skip(k as int)[0] == succ[k as int]);
                assert(succ.skip(k as int).drop_first() =~= succ.skip(k as int + 1));
            }
            d1.action(adst);
            k = k + 1;
        }
        proof {
            assert(succ.skip(n as int) =~= Seq::<int>::empty());
            assert(run_actions(d1g, succ) == d1);
        }
        self.active = self.graph.init;
        let ghost appended = stop_events(tag as int, succ);
        proof {
            self.log@ = self.log@ + appended;
        }
        proof {
            assert forall|s: int| #[trigger]
                count_entries(self.log@, s) == count_exits(self.log@, s) + (
            if self.started() && self.active as int == s {
                1nat
            } else {
                0nat
            }) by {
                lemma_count_entries_add(old(self).log@, appended, s);
                lemma_count_exits_add(old(self).log@, appended, s);
                lemma_count_stop(tag as int, succ, s);
            }
        }
        Ok(d1)
    }

    /// Delivers a payload to the target state if it is active; otherwise
    /// returns the payload unchanged inside the error, so no data is lost.
    /// No hook runs and the active tag does not change.
    pub fn push_message<M>(&mut self, target: usize, message: M) -> (r: Result<
        (),
        MessageError<M>,
    >) where D: ReceiveMessage<M>
        requires
            old(self).wf(),
        ensures
            final(self).wf(),
            final(self).graph_spec() == old(self).graph_spec(),
            final(self).active_tag() == old(self).active_tag(),
            final(self).log() == old(self).log(),
            if old(self).started() && old(self).active_tag() == target as int {
                r is Ok && final(self).data() == Some(
                    (old(self).data()->0).receive_spec(message),
                )
            } else {
                r == Err::<(), MessageError<M>>(MessageError::StateIsNotActive(message))
                    && final(self).data() == old(self).data()
            },
    {
        if target != self.active {
            return Err(MessageError::StateIsNotActive(message));
        }
        let d0 = match self.slot.take() {
            Some(d) => d,
            None => {
                return Err(MessageError::StateIsNotActive(message));
            },
        };
        proof {
            D::receive_preserves_tag(d0, message);
        }
        let mut d1 = d0;
        d1.receive_message(message);
        self.slot = Some(d1);
        Ok(())
    }

    /// Polls the target state for a payload if it is active: `Ok(None)`
    /// means the state has nothing to report yet.  Against an inactive
    /// target the poll fails, carrying no payload.  No hook runs and the
    /// active tag does not change.
    pub fn poll_message<M>(&mut self, target: usize) -> (r: Result<
        Option<M>,
        MessageError<()>,
    >) where D: ReturnMessage<M>
        requires
            old(self).wf(),
        ensures
            final(self).wf(),
            final(self).graph_spec() == old(self).graph_spec(),
            final(self).active_tag() == old(self).active_tag(),
            final(self).log() == old(self).log(),
            if old(self).started() && old(self).active_tag() == target as int {
                r == Ok::<Option<M>, MessageError<()>>((old(self).data()->0).return_spec().1)
                    && final(self).data() == Some((old(self).data()->0).return_spec().0)
            } else {
                r == Err::<Option<M>, MessageError<()>>(MessageError::StateIsNotActive(()))
                    && final(self).data() == old(self).data()
            },
    {
        if target != self.active {
            return Err(MessageError::StateIsNotActive(()));
        }
        let d0 = match self.slot.take() {
            Some(d) => d,
            None => {
                return Err(MessageError::StateIsNotActive(()));
            },
        };
        proof {
            D::return_preserves_tag(d0);
        }
        let mut d1 = d0;
        let out = d1.return_message();
        self.slot = Some(d1);
        Ok(out)
    }
}

/// The entry and exit counts of a one-event log.
proof fn lemma_count_one(e: Event, s: int)
    ensures
        count_entries(seq![e], s) == if e == Event::Entry(s) {
            1nat
        } else {
            0nat
        },
        count_exits(seq![e], s) == if e == Event::Exit(s) {
            1nat
        } else {
            0nat
        },
{
    assert(count_entries(Seq::<Event>::empty(), s) == 0);
    assert(count_exits(Seq::<Event>::empty(), s) == 0);
    assert(seq![e].drop_last() =~= Seq::<Event>::empty());
}

/// The entry and exit counts of the events of one step that takes a
/// transition: exactly one exit from the source and one entry into the
/// destination.
proof fn lemma_count_transit(tag: int, dst: int, succ: Seq<int>, s: int)
    ensures
        count_entries(seq![Event::Execute(tag)] + transit_events(tag, dst, succ), s) == if s
            == dst {
            1nat
        } else {
            0nat
        },
        count_exits(seq![Event::Execute(tag)] + transit_events(tag, dst, succ), s) == if s
            == tag {
            1nat
        } else {
            0nat
        },
{
    let a = seq![Event::Execute(tag)];
    let b = seq![Event::Exit(tag)];
    let c = action_events(tag, succ);
    let e = seq![Event::Transform(tag, dst), Event::Entry(dst)];
    assert(a + transit_events(tag, dst, succ) =~= ((a + b) + c) + e);
    lemma_count_entries_add((a + b) + c, e, s);
    lemma_count_exits_add((a + b) + c, e, s);
    lemma_count_entries_add(a + b, c, s);
    lemma_count_exits_add(a + b, c, s);
    lemma_count_entries_add(a, b, s);
    lemma_count_exits_add(a, b, s);
    lemma_actions_count_nothing(tag, succ, s);
    lemma_count_one(Event::Execute(tag), s);
    lemma_count_one(Event::Exit(tag), s);
    assert(e =~= seq![Event::Transform(tag, dst)] + seq![Event::Entry(dst)]);
    lemma_count_entries_add(seq![Event::Transform(tag, dst)], seq![Event::Entry(dst)], s);
    lemma_count_exits_add(seq![Event::Transform(tag, dst)], seq![Event::Entry(dst)], s);
    lemma_count_one(Event::Transform(tag, dst), s);
    lemma_count_one(Event::Entry(dst), s);
}

/// The entry and exit counts of a stop's events: one exit from the
/// stopped state and no entry at all.
proof fn lemma_count_stop(tag: int, succ: Seq<int>, s: int)
    ensures
        count_entries(stop_events(tag, succ), s) == 0nat,
        count_exits(stop_events(tag, succ), s) == if s == tag {
            1nat
        } else {
            0nat
        },
{
    lemma_count_entries_add(seq![Event::Exit(tag)], action_events(tag, succ), s);
    lemma_count_exits_add(seq![Event::Exit(tag)], action_events(tag, succ), s);
    lemma_actions_count_nothing(tag, succ, s);
    lemma_count_one(Event::Exit(tag), s);
}

/// Law: with no matching guard, a step leaves the active tag unchanged and
/// runs the execute hook exactly once — no other hook.
pub proof fn lemma_step_remain<D: Transition>(succ: Seq<int>, tag: int, d0: D)
    requires
        first_transit(d0.execute_spec(), succ) is None,
    ensures
        step_spec(succ, tag, d0).0 == d0.execute_spec(),
        step_spec(succ, tag, d0).1 == tag,
        step_spec(succ, tag, d0).2 == seq![Event::Execute(tag)],
{
}

/// Law: with a first matching guard towards `dst`, a step runs execute, the
/// source's exit, each outgoing action, the conversion into `dst` and the
/// destination's entry exactly once each, in that order, and `dst` becomes
/// the active tag.
pub proof fn lemma_step_transit<D: Transition>(succ: Seq<int>, tag: int, d0: D)
    requires
        first_transit(d0.execute_spec(), succ) is Some,
    ensures
        ({
            let i = first_transit(d0.execute_spec(), succ)->0;
            let dst = succ[i];
            &&& step_spec(succ, tag, d0).0 == run_actions(
                d0.execute_spec().exit_spec(),
                succ,
            ).transform_spec(dst).entry_spec()
            &&& step_spec(succ, tag, d0).1 == dst
            &&& step_spec(succ, tag, d0).2 == seq![Event::Execute(tag), Event::Exit(tag)]
                + action_events(tag, succ) + seq![
                Event::Transform(tag, dst),
                Event::Entry(dst),
            ]
        }),
{
    let i = first_transit(d0.execute_spec(), succ)->0;
    let dst = succ[i];
    assert(step_spec(succ, tag, d0).2 =~= seq![Event::Execute(tag), Event::Exit(tag)]
        + action_events(tag, succ) + seq![Event::Transform(tag, dst), Event::Entry(dst)]);
}

/// Law: guard priority.  When the guards towards two destinations both want
/// to fire, the transition taken is the one earlier in declaration order;
/// in particular it is never the later of the two.
pub proof fn lemma_guard_priority<D: Transition>(d: D, succ: Seq<int>, i: int, k: int)
    requires
        0 <= i < k < succ.len(),
        d.guard_spec(succ[i]),
        d.guard_spec(succ[k]),
    ensures
        first_transit(d, succ) is Some,
        first_transit(d, succ)->0 <= i,
{
    lemma_first_transit_props(d, succ);
}

/// Law: entry/exit pairing.  In every reachable machine the log's entry
/// and exit counts balance for every state, with exactly one unmatched
/// entry for the active state while the machine is started; in particular,
/// after a stop every state's entries equal its exits.
pub proof fn lemma_entry_exit_pairing<D: Transition>(m: StateMachine<D>, s: int)
    requires
        m.wf(),
    ensures
        count_entries(m.log(), s) == count_exits(m.log(), s) + (
        if m.started() && m.active_tag() == s {
            1nat
        } else {
            0nat
        }),
{
}

impl<D: Transition> crate::IsState for StateMachine<D> {
    open spec fn active(&self) -> int {
        self.active_tag()
    }

    fn is_state(&self, tag: usize) -> (b: bool) {
        tag == self.active
    }
}

/// Transition actions leave the data in the same state, well formed.
pub proof fn lemma_run_actions_keeps<D: Transition>(d: D, succ: Seq<int>)
    requires
        d.data_inv(),
    ensures
        run_actions(d, succ).tag() == d.tag(),
        run_actions(d, succ).data_inv(),
    decreases succ.len(),
{
    if succ.len() == 0 {
    } else {
        D::action_preserves_tag(d, succ[0]);
        lemma_run_actions_keeps(d.action_spec(succ[0]), succ.drop_first());
    }
}

/// A well-formed, started machine is well formed and started again after
/// a step.  This is what lets one state's data embed a whole machine: the
/// embedding state's invariant can carry the nested machine's
/// well-formedness across its own execute hook.
pub proof fn lemma_after_step_wf<D: Transition>(m: StateMachine<D>)
    requires
        m.wf(),
        m.started(),
    ensures
        m.after_step().wf(),
        m.after_step().started(),
        m.after_step().graph_spec() == m.graph_spec(),
{
    let tag = m.active_tag();
    let succ = m.graph_spec().succ(tag);
    let d0 = m.data()->0;
    let d1 = d0.execute_spec();
    D::execute_preserves_tag(d0);
    lemma_first_transit_props(d1, succ);
    let (d, t, ev) = step_spec(succ, tag, d0);
    let lg = m.after_step().log();
    assert(lg == m.log() + ev);
    match first_transit(d1, succ) {
        None => {
            assert forall|s: int| #[trigger]
                count_entries(lg, s) == count_exits(lg, s) + (
            if m.after_step().started() && m.after_step().active_tag() == s {
                1nat
            } else {
                0nat
            }) by {
                lemma_count_entries_add(m.log(), ev, s);
                lemma_count_exits_add(m.log(), ev, s);
                lemma_count_one(Event::Execute(tag), s);
            }
        },
        Some(i) => {
            let dst = succ[i];
            assert(succ[i] == m.graph_spec().edges@[tag]@[i] as int);
            assert(0 <= dst < m.graph_spec().n());
            D::exit_preserves_tag(d1);
            lemma_run_actions_keeps(d1.exit_spec(), succ);
            let d3 = run_actions(d1.exit_spec(), succ);
            assert(m.graph_spec().has_edge(d3.tag(), dst));
            assert(d3.transformable(dst));
            D::transform_sets_tag(d3, dst);
            D::entry_preserves_tag(d3.transform_spec(dst));
            assert forall|s: int| #[trigger]
                count_entries(lg, s) == count_exits(lg, s) + (
            if m.after_step().started() && m.after_step().active_tag() == s {
                1nat
            } else {
                0nat
            }) by {
                lemma_count_entries_add(m.log(), ev, s);
                lemma_count_exits_add(m.log(), ev, s);
                lemma_count_transit(tag, dst, succ, s);
            }
        },
    }
}

/// Two machines over one data type with the same graph, slot, active tag
/// and log are the same machine.
pub proof fn lemma_machine_ext_eq<D: Transition>(a: StateMachine<D>, b: StateMachine<D>)
    requires
        a.graph_spec() == b.graph_spec(),
        a.data() == b.data(),
        a.active_tag() == b.active_tag(),
        a.log() == b.log(),
    ensures
        a == b,
{
    assert(a.log == b.log);
}

impl crate::types::Machine {
    /// Lowers a validated machine description to the runtime graph the
    /// dispatchers run: one edge list per state, in declaration order,
    /// and the initial state's index.
    pub fn to_graph(&self) -> (g: MachineGraph)
        requires
            self.wf(),
        ensures
            g.wf(),
            g.init == self.init,
            g.edges@.len() == self.states@.len(),
            forall|i: int|
                0 <= i < self.states@.len() ==> (#[trigger] g.edges@[i])@ == self.states@[
                    i
                ].transits@,
    {
        let n = self.states.len();
        let mut edges: Vec<Vec<usize>> = Vec::new();
        let mut i: usize = 0;
        while i < n
            invariant
                n == self.states@.len(),
                self.wf(),
                i <= n,
                edges@.len() == i,
                forall|i2: int|
                    0 <= i2 < i ==> (#[trigger] edges@[i2])@ == self.states@[i2].transits@,
            decreases n - i,
        {
            let row_len = self.states[i].transits.len();
            let mut row: Vec<usize> = Vec::new();
            let mut k: usize = 0;
            while k < row_len
                invariant
                    n == self.states@.len(),
                    i < n,
                    row_len == self.states@[i as int].transits@.len(),
                    k <= row_len,
                    row@ == self.states@[i as int].transits@.take(k as int),
                decreases row_len - k,
            {
                row.push(self.states[i].transits[k]);
                proof {
                    assert(row@ =~= self.states@[i as int].transits@.take(k + 1));
                }
                k = k + 1;
            }
            proof {
                assert(row@ =~= self.states@[i as int].transits@);
            }
            edges.push(row);
            i = i + 1;
        }
        let g = MachineGraph { init: self.init, edges };
        proof {
            assert(g.wf());
        }
        g
    }
}

} // verus!
