//! Small complete machines, wired to the dispatch engines.
//!
//! These serve two purposes: they show how a data type implements the
//! lifecycle traits (each hook with its specification and its
//! tag-preservation proof), and they give the integration tests concrete
//! machines whose hooks record what ran.
//!
//! `RouteData` drives the non-fallible engine: a short trek with one
//! always-firing fork and one never-firing guard, counting every hook.
//! `LaunchData` drives the fallible engine: a flight whose hooks can be
//! made to fail, with a recovery state that records the fault it
//! consumed.  `TripData` embeds a whole trek machine inside one state of
//! an outer machine, showing hierarchical composition.

use crate::fallible::{TryErrorState, TryState, TryTransition};
use crate::machine::{MachineGraph, StateMachine};
use crate::message::{ReceiveMessage, ReturnMessage};
use crate::non_fallible::{State, Transition};
use crate::try_machine::TryStateMachine;
use crate::DispatchTag;
use crate::TransitGuard;
use vstd::prelude::*;

verus! {

/// Increments a counter, stopping at the largest value instead of
/// wrapping.
pub open spec fn spec_bump(x: u32) -> u32 {
    if x == 0xffff_ffffu32 {
        x
    } else {
        (x + 1) as u32
    }
}

/// Increments a counter, stopping at the largest value instead of
/// wrapping.
pub fn bump(x: u32) -> (r: u32)
    ensures
        r == spec_bump(x),
{
    if x < 0xffff_ffff {
        x + 1
    } else {
        x
    }
}

/// What the trek's hooks have recorded so far; carried across every
/// conversion so the whole run stays countable.
#[derive(Debug, PartialEq, Eq)]
pub struct RouteStats {
    /// Entries into the climb.
    pub climb_entries: u32,
    /// Exits from the climb.
    pub climb_exits: u32,
    /// Entries into the summit.
    pub summit_entries: u32,
    /// Exits from the summit.
    pub summit_exits: u32,
    /// Entries into the descent.
    pub descent_entries: u32,
    /// Exits from the descent.
    pub descent_exits: u32,
    /// Execute hooks run, over all states.
    pub execs: u32,
    /// Transition actions run, over all states.
    pub actions: u32,
}

/// The trek's states: climbing (tag 0, forking to summit or descent),
/// at the summit (tag 1, with a never-firing guard towards the descent
/// and a message box), and descending (tag 2, terminal).
#[derive(Debug, PartialEq, Eq)]
pub enum RouteData {
    /// Tag 0.  Both outgoing guards report `go`.
    Climb { stats: RouteStats, go: bool },
    /// Tag 1.  Its one guard never fires; it can receive and return a
    /// `u32` message.
    Summit { stats: RouteStats, inbox: Option<u32> },
    /// Tag 2.  No outgoing transitions.
    Descent { stats: RouteStats },
}

impl DispatchTag for RouteData {
    open spec fn tag(self) -> int {
        match self {
            RouteData::Climb { .. } => 0,
            RouteData::Summit { .. } => 1,
            RouteData::Descent { .. } => 2,
        }
    }

    open spec fn data_inv(self) -> bool {
        true
    }
}

impl State for RouteData {
    open spec fn entry_spec(self) -> Self {
        match self {
            RouteData::Climb { stats, go } => RouteData::Climb {
                stats: RouteStats { climb_entries: spec_bump(stats.climb_entries), ..stats },
                go,
            },
            RouteData::Summit { stats, inbox } => RouteData::Summit {
                stats: RouteStats { summit_entries: spec_bump(stats.summit_entries), ..stats },
                inbox,
            },
            RouteData::Descent { stats } => RouteData::Descent {
                stats: RouteStats { descent_entries: spec_bump(stats.descent_entries), ..stats },
            },
        }
    }

    open spec fn execute_spec(self) -> Self {
        match self {
            RouteData::Climb { stats, go } => RouteData::Climb {
                stats: RouteStats { execs: spec_bump(stats.execs), ..stats },
                go,
            },
            RouteData::Summit { stats, inbox } => RouteData::Summit {
                stats: RouteStats { execs: spec_bump(stats.execs), ..stats },
                inbox,
            },
            RouteData::Descent { stats } => RouteData::Descent {
                stats: RouteStats { execs: spec_bump(stats.execs), ..stats },
            },
        }
    }

    open spec fn exit_spec(self) -> Self {
        match self {
            RouteData::Climb { stats, go } => RouteData::Climb {
                stats: RouteStats { climb_exits: spec_bump(stats.climb_exits), ..stats },
                go,
            },
            RouteData::Summit { stats, inbox } => RouteData::Summit {
                stats: RouteStats { summit_exits: spec_bump(stats.summit_exits), ..stats },
                inbox,
            },
            RouteData::Descent { stats } => RouteData::Descent {
                stats: RouteStats { descent_exits: spec_bump(stats.descent_exits), ..stats },
            },
        }
    }

    proof fn entry_preserves_tag(s: Self) {
    }

    proof fn execute_preserves_tag(s: Self) {
    }

    proof fn exit_preserves_tag(s: Self) {
    }

    fn entry(&mut self) {
        match self {
            RouteData::Climb { stats, .. } => {
                stats.climb_entries = bump(stats.climb_entries);
            },
            RouteData::Summit { stats, .. } => {
                stats.summit_entries = bump(stats.summit_entries);
            },
            RouteData::Descent { stats } => {
                stats.descent_entries = bump(stats.descent_entries);
            },
        }
    }

    fn execute(&mut self) {
        match self {
            RouteData::Climb { stats, .. } => {
                stats.execs = bump(stats.execs);
            },
            RouteData::Summit { stats, .. } => {
                stats.execs = bump(stats.execs);
            },
            RouteData::Descent { stats } => {
                stats.execs = bump(stats.execs);
            },
        }
    }

    fn exit(&mut self) {
        match self {
            RouteData::Climb { stats, .. } => {
                stats.climb_exits = bump(stats.climb_exits);
            },
            RouteData::Summit { stats, .. } => {
                stats.summit_exits = bump(stats.summit_exits);
            },
            RouteData::Descent { stats } => {
                stats.descent_exits = bump(stats.descent_exits);
            },
        }
    }
}

impl Transition for RouteData {
    open spec fn guard_spec(self, dst: int) -> bool {
        match self {
            RouteData::Climb { go, .. } => go,
            RouteData::Summit { .. } => false,
            RouteData::Descent { .. } => false,
        }
    }

    open spec fn action_spec(self, dst: int) -> Self {
        match self {
            RouteData::Climb { stats, go } => RouteData::Climb {
                stats: RouteStats { actions: spec_bump(stats.actions), ..stats },
                go,
            },
            RouteData::Summit { stats, inbox } => RouteData::Summit {
                stats: RouteStats { actions: spec_bump(stats.actions), ..stats },
                inbox,
            },
            RouteData::Descent { stats } => RouteData::Descent {
                stats: RouteStats { actions: spec_bump(stats.actions), ..stats },
            },
        }
    }

    open spec fn transformable(self, dst: int) -> bool {
        0 <= dst < 3
    }

    open spec fn transform_spec(self, dst: int) -> Self {
        let stats = match self {
            RouteData::Climb { stats, .. } => stats,
            RouteData::Summit { stats, .. } => stats,
            RouteData::Descent { stats } => stats,
        };
        if dst == 0 {
            RouteData::Climb { stats, go: false }
        } else if dst == 1 {
            RouteData::Summit { stats, inbox: None }
        } else {
            RouteData::Descent { stats }
        }
    }

    proof fn action_preserves_tag(s: Self, dst: int) {
    }

    proof fn transform_sets_tag(s: Self, dst: int) {
    }

    fn guard(&self, dst: usize) -> (g: TransitGuard) {
        match self {
            RouteData::Climb { go, .. } => if *go {
                TransitGuard::Transit
            } else {
                TransitGuard::Remain
            },
            RouteData::Summit { .. } => TransitGuard::Remain,
            RouteData::Descent { .. } => TransitGuard::Remain,
        }
    }

    fn action(&mut self, dst: usize) {
        match self {
            RouteData::Climb { stats, .. } => {
                stats.actions = bump(stats.actions);
            },
            RouteData::Summit { stats, .. } => {
                stats.actions = bump(stats.actions);
            },
            RouteData::Descent { stats } => {
                stats.actions = bump(stats.actions);
            },
        }
    }

    fn transform(self, dst: usize) -> (r: Self) {
        let stats = match self {
            RouteData::Climb { stats, .. } => stats,
            RouteData::Summit { stats, .. } => stats,
            RouteData::Descent { stats } => stats,
        };
        if dst == 0 {
            RouteData::Climb { stats, go: false }
        } else if dst == 1 {
            RouteData::Summit { stats, inbox: None }
        } else {
            RouteData::Descent { stats }
        }
    }
}

impl ReceiveMessage<u32> for RouteData {
    open spec fn receive_spec(self, message: u32) -> Self {
        match self {
            RouteData::Summit { stats, .. } => RouteData::Summit {
                stats,
                inbox: Some(message),
            },
            _ => self,
        }
    }

    proof fn receive_preserves_tag(s: Self, message: u32) {
    }

    fn receive_message(&mut self, message: u32) {
        match self {
            RouteData::Summit { inbox, .. } => {
                *inbox = Some(message);
            },
            _ => {},
        }
    }
}

impl ReturnMessage<u32> for RouteData {
    open spec fn return_spec(self) -> (Self, Option<u32>) {
        match self {
            RouteData::Summit { stats, inbox } => (
                RouteData::Summit { stats, inbox: None },
                inbox,
            ),
            _ => (self, None),
        }
    }

    proof fn return_preserves_tag(s: Self) {
    }

    fn return_message(&mut self) -> (r: Option<u32>) {
        match self {
            RouteData::Summit { inbox, .. } => {
                let out = inbox.take();
                out
            },
            _ => None,
        }
    }
}

/// Fresh, all-zero trek counters.
pub fn route_stats() -> (r: RouteStats)
    ensures
        r == (RouteStats {
            climb_entries: 0u32,
            climb_exits: 0u32,
            summit_entries: 0u32,
            summit_exits: 0u32,
            descent_entries: 0u32,
            descent_exits: 0u32,
            execs: 0u32,
            actions: 0u32,
        }),
{
    RouteStats {
        climb_entries: 0,
        climb_exits: 0,
        summit_entries: 0,
        summit_exits: 0,
        descent_entries: 0,
        descent_exits: 0,
        execs: 0,
        actions: 0,
    }
}

/// The trek's graph: the climb forks to summit then descent, the summit
/// has one never-taken edge to the descent, the descent is terminal.
pub fn route_graph() -> (g: MachineGraph)
    ensures
        g.wf(),
        g.init == 0usize,
        g.n() == 3,
        g.succ(0) == seq![1int, 2int],
        g.succ(1) == seq![2int],
        g.succ(2) == Seq::<int>::empty(),
{
    let e0: Vec<usize> = vec![1, 2];
    let e1: Vec<usize> = vec![2];
    let e2: Vec<usize> = Vec::new();
    let edges: Vec<Vec<usize>> = vec![e0, e1, e2];
    let g = MachineGraph { init: 0, edges };
    proof {
        assert(g.succ(0) =~= seq![1int, 2int]);
        assert(g.succ(1) =~= seq![2int]);
        assert(g.succ(2) =~= Seq::<int>::empty());
        assert(g.wf());
    }
    g
}

/// A fresh, unstarted trek machine.
pub fn route_machine() -> (r: StateMachine<RouteData>)
    ensures
        r.wf(),
        !r.started(),
        r.active_tag() == 0,
        r.graph_spec().init == 0usize,
        r.graph_spec().n() == 3,
        r.graph_spec().succ(0) == seq![1int, 2int],
        r.graph_spec().succ(1) == seq![2int],
        r.graph_spec().succ(2) == Seq::<int>::empty(),
        r.log() == Seq::<crate::machine::Event>::empty(),
    {
    let g = route_graph();
    proof {
        assert forall|s: RouteData, dst: int|
            g.has_edge(s.tag(), dst) implies #[trigger] s.transformable(dst) by {
            assert(0 <= dst < 3);
        }
    }
    StateMachine::new(g)
}

/// The fault a flight can raise.
#[derive(Clone, Copy, Debug, PartialEq, Eq)]
pub enum LaunchFault {
    /// Raised by a failing flight hook.
    Engine,
    /// Raised by a failing recovery hook.
    Guidance,
}

/// The flight's states: in flight (tag 0) and recovering (tag 1, the
/// designated error state).  Flags on each state make individual hooks
/// fail, so every rerouting and escalation path can be exercised.
#[derive(Debug, PartialEq, Eq)]
pub enum LaunchData {
    /// Tag 0.  `fail_exec` makes the execute hook raise `Engine`;
    /// `poison_recovery` is carried into recovery and makes the recovery
    /// state's own hooks fail.
    Flight { execs: u32, fail_exec: bool, poison_recovery: bool },
    /// Tag 1, the error state.  Records the fault it consumed; its own
    /// execute hook fails with `Guidance` while `failing` is set.
    Recovery { entries: u32, seen: Option<LaunchFault>, failing: bool },
}

impl DispatchTag for LaunchData {
    open spec fn tag(self) -> int {
        match self {
            LaunchData::Flight { .. } => 0,
            LaunchData::Recovery { .. } => 1,
        }
    }

    open spec fn data_inv(self) -> bool {
        true
    }
}

impl TryState for LaunchData {
    type Error = LaunchFault;

    open spec fn try_entry_spec(self) -> (Self, Option<LaunchFault>) {
        match self {
            LaunchData::Flight { .. } => (self, None),
            LaunchData::Recovery { entries, seen, failing } => (
                LaunchData::Recovery { entries: spec_bump(entries), seen, failing },
                None,
            ),
        }
    }

    open spec fn try_execute_spec(self) -> (Self, Option<LaunchFault>) {
        match self {
            LaunchData::Flight { execs, fail_exec, poison_recovery } => (
                LaunchData::Flight { execs: spec_bump(execs), fail_exec, poison_recovery },
                if fail_exec {
                    Some(LaunchFault::Engine)
                } else {
                    None
                },
            ),
            LaunchData::Recovery { .. } => (
                self,
                if self matches LaunchData::Recovery { failing: true, .. } {
                    Some(LaunchFault::Guidance)
                } else {
                    None
                },
            ),
        }
    }

    open spec fn try_exit_spec(self) -> (Self, Option<LaunchFault>) {
        (self, None)
    }

    proof fn try_entry_preserves_tag(s: Self) {
    }

    proof fn try_execute_preserves_tag(s: Self) {
    }

    proof fn try_exit_preserves_tag(s: Self) {
    }

    fn try_entry(&mut self) -> (r: Result<(), LaunchFault>) {
        match self {
            LaunchData::Flight { .. } => Ok(()),
            LaunchData::Recovery { entries, .. } => {
                *entries = bump(*entries);
                Ok(())
            },
        }
    }

    fn try_execute(&mut self) -> (r: Result<(), LaunchFault>) {
        match self {
            LaunchData::Flight { execs, fail_exec, .. } => {
                *execs = bump(*execs);
                if *fail_exec {
                    Err(LaunchFault::Engine)
                } else {
                    Ok(())
                }
            },
            LaunchData::Recovery { failing, .. } => {
                if *failing {
                    Err(LaunchFault::Guidance)
                } else {
                    Ok(())
                }
            },
        }
    }

    fn try_exit(&mut self) -> (r: Result<(), LaunchFault>) {
        Ok(())
    }
}

impl TryTransition for LaunchData {
    open spec fn guard_spec(self, dst: int) -> bool {
        match self {
            LaunchData::Flight { .. } => false,
            LaunchData::Recovery { seen, .. } => seen is Some,
        }
    }

    open spec fn try_action_spec(self, dst: int) -> (Self, Option<LaunchFault>) {
        (self, None)
    }

    open spec fn transformable(self, dst: int) -> bool {
        0 <= dst < 2
    }

    open spec fn transform_spec(self, dst: int) -> Self {
        if dst == 0 {
            match self {
                LaunchData::Flight { .. } => self,
                LaunchData::Recovery { .. } => LaunchData::Flight {
                    execs: 0,
                    fail_exec: false,
                    poison_recovery: false,
                },
            }
        } else {
            match self {
                LaunchData::Flight { poison_recovery, .. } => LaunchData::Recovery {
                    entries: 0,
                    seen: None,
                    failing: poison_recovery,
                },
                LaunchData::Recovery { .. } => self,
            }
        }
    }

    proof fn try_action_preserves_tag(s: Self, dst: int) {
    }

    proof fn transform_sets_tag(s: Self, dst: int) {
    }

    fn guard(&self, dst: usize) -> (g: TransitGuard) {
        match self {
            LaunchData::Flight { .. } => TransitGuard::Remain,
            LaunchData::Recovery { seen, .. } => if seen.is_some() {
                TransitGuard::Transit
            } else {
                TransitGuard::Remain
            },
        }
    }

    fn try_action(&mut self, dst: usize) -> (r: Result<(), LaunchFault>) {
        Ok(())
    }

    fn transform(self, dst: usize) -> (r: Self) {
        if dst == 0 {
            match self {
                LaunchData::Flight { .. } => self,
                LaunchData::Recovery { .. } => LaunchData::Flight {
                    execs: 0,
                    fail_exec: false,
                    poison_recovery: false,
                },
            }
        } else {
            match self {
                LaunchData::Flight { poison_recovery, .. } => LaunchData::Recovery {
                    entries: 0,
                    seen: None,
                    failing: poison_recovery,
                },
                LaunchData::Recovery { .. } => self,
            }
        }
    }
}

impl TryErrorState for LaunchData {
    open spec fn consume_spec(self, err: LaunchFault) -> Self {
        match self {
            LaunchData::Recovery { entries, failing, .. } => LaunchData::Recovery {
                entries,
                seen: Some(err),
                failing,
            },
            _ => self,
        }
    }

    proof fn consume_preserves_tag(s: Self, err: LaunchFault) {
    }

    fn consume_error(&mut self, err: LaunchFault) {
        match self {
            LaunchData::Recovery { seen, .. } => {
                *seen = Some(err);
            },
            _ => {},
        }
    }
}

/// A fresh, unstarted flight machine over the given two-state graph,
/// with recovery (tag 1) as the error state.  Returns `None` when the
/// graph does not have exactly the two states or points outside them.
pub fn launch_machine_for(graph: MachineGraph) -> (r: Option<TryStateMachine<LaunchData>>)
    ensures
        r is Some <==> graph.n() == 2 && graph.wf(),
        match r {
            Some(m) => {
                &&& m.wf()
                &&& !m.started()
                &&& m.graph_spec() == graph
                &&& m.error_tag() == 1
                &&& m.active_tag() == graph.init as int
            },
            None => true,
        },
{
    if graph.edges.len() != 2 {
        return None;
    }
    if graph.init >= 2 {
        return None;
    }
    let mut i: usize = 0;
    while i < 2
        invariant
            graph.edges@.len() == 2,
            i <= 2,
            forall|i2: int, k: int|
                0 <= i2 < i && 0 <= k < graph.edges@[i2]@.len() ==> ((#[trigger] graph.edges@[
                    i2
                ]@[k]) as int) < 2,
        decreases 2 - i,
    {
        let row_len = graph.edges[i].len();
        let mut k: usize = 0;
        while k < row_len
            invariant
                graph.edges@.len() == 2,
                i < 2,
                row_len == graph.edges@[i as int]@.len(),
                k <= row_len,
                forall|i2: int, k2: int|
                    0 <= i2 < i && 0 <= k2 < graph.edges@[i2]@.len() ==> ((#[trigger] graph.edges@[
                        i2
                    ]@[k2]) as int) < 2,
                forall|k2: int|
                    0 <= k2 < k ==> ((#[trigger] graph.edges@[i as int]@[k2]) as int) < 2,
            decreases row_len - k,
        {
            if graph.edges[i][k] >= 2 {
                proof {
                    assert(!graph.wf()) by {
                        if graph.wf() {
                            assert((graph.edges@[i as int]@[k as int] as int) < graph.n());
                        }
                    }
                }
                return None;
            }
            k = k + 1;
        }
        i = i + 1;
    }
    proof {
        assert(graph.wf());
        assert forall|s: LaunchData, dst: int|
            graph.has_edge(s.tag(), dst) implies #[trigger] s.transformable(dst) by {
            assert(0 <= dst < 2);
        }
        assert forall|s: LaunchData|
            0 <= s.tag() < graph.n() && s.tag() != 1 implies #[trigger] s.transformable(
            1,
        ) by {}
    }
    Some(TryStateMachine::new(graph, 1))
}

/// The canonical flight graph: flight (initial, no outgoing edges) and
/// recovery, which returns to flight once it has a fault to report.
pub fn launch_graph() -> (g: MachineGraph)
    ensures
        g.wf(),
        g.init == 0usize,
        g.n() == 2,
        g.succ(0) == Seq::<int>::empty(),
        g.succ(1) == seq![0int],
{
    let e0: Vec<usize> = Vec::new();
    let e1: Vec<usize> = vec![0];
    let edges: Vec<Vec<usize>> = vec![e0, e1];
    let g = MachineGraph { init: 0, edges };
    proof {
        assert(g.succ(0) =~= Seq::<int>::empty());
        assert(g.succ(1) =~= seq![0int]);
        assert(g.wf());
    }
    g
}

/// An expedition whose first state embeds a whole trek machine: the
/// outer execute hook steps the nested machine, and the outer guard
/// leaves for home once the nested machine has reached its summit.
/// Composition needs nothing from the engine beyond treating the outer
/// state's data as the owner of the nested instance; the data invariant
/// carries the nested machine's well-formedness across the hooks.
pub enum TripData {
    /// Tag 0: out on the trek, driving the nested machine.
    Trek { inner: StateMachine<RouteData> },
    /// Tag 1: back home; the nested machine has been retired.
    Home,
}

impl DispatchTag for TripData {
    open spec fn tag(self) -> int {
        match self {
            TripData::Trek { .. } => 0,
            TripData::Home => 1,
        }
    }

    open spec fn data_inv(self) -> bool {
        match self {
            TripData::Trek { inner } => inner.wf(),
            TripData::Home => true,
        }
    }
}

impl State for TripData {
    open spec fn entry_spec(self) -> Self {
        self
    }

    open spec fn execute_spec(self) -> Self {
        match self {
            TripData::Trek { inner } => TripData::Trek {
                inner: if inner.started() {
                    inner.after_step()
                } else {
                    inner
                },
            },
            TripData::Home => self,
        }
    }

    open spec fn exit_spec(self) -> Self {
        self
    }

    proof fn entry_preserves_tag(s: Self) {
    }

    proof fn execute_preserves_tag(s: Self) {
        match s {
            TripData::Trek { inner } => {
                if inner.started() {
                    crate::machine::lemma_after_step_wf(inner);
                }
            },
            TripData::Home => {},
        }
    }

    proof fn exit_preserves_tag(s: Self) {
    }

    fn entry(&mut self) {
    }

    fn execute(&mut self) {
        match self {
            TripData::Trek { inner } => {
                let ghost before = *inner;
                let outcome = inner.step();
                proof {
                    if outcome is Err {
                        crate::machine::lemma_machine_ext_eq(*inner, before);
                    }
                }
            },
            TripData::Home => {},
        }
    }

    fn exit(&mut self) {
    }
}

impl Transition for TripData {
    open spec fn guard_spec(self, dst: int) -> bool {
        match self {
            TripData::Trek { inner } => inner.active_tag() == 1,
            TripData::Home => false,
        }
    }

    open spec fn action_spec(self, dst: int) -> Self {
        self
    }

    open spec fn transformable(self, dst: int) -> bool {
        match self {
            TripData::Trek { .. } => dst == 1,
            TripData::Home => false,
        }
    }

    open spec fn transform_spec(self, dst: int) -> Self {
        match self {
            TripData::Trek { .. } => TripData::Home,
            TripData::Home => self,
        }
    }

    proof fn action_preserves_tag(s: Self, dst: int) {
    }

    proof fn transform_sets_tag(s: Self, dst: int) {
    }

    fn guard(&self, dst: usize) -> (g: TransitGuard) {
        match self {
            TripData::Trek { inner } => if inner.is_state(1) {
                TransitGuard::Transit
            } else {
                TransitGuard::Remain
            },
            TripData::Home => TransitGuard::Remain,
        }
    }

    fn action(&mut self, dst: usize) {
    }

    fn transform(self, dst: usize) -> (r: Self) {
        match self {
            TripData::Trek { .. } => TripData::Home,
            TripData::Home => TripData::Home,
        }
    }
}

/// Trek data for the expedition: a fresh trek machine, already started
/// on a climb whose guards fire, embedded in the outer state.
pub fn trek_data() -> (r: TripData)
    ensures
        r.tag() == 0,
        r.data_inv(),
{
    let mut inner = route_machine();
    let outcome = inner.start(RouteData::Climb { stats: route_stats(), go: true });
    proof {
        assert(outcome is Ok);
    }
    TripData::Trek { inner }
}

/// A fresh, unstarted expedition machine: the trek state forks home once
/// the nested machine reaches its summit.
pub fn trip_machine() -> (r: StateMachine<TripData>)
    ensures
        r.wf(),
        !r.started(),
        r.active_tag() == 0,
        r.graph_spec().init == 0usize,
{
    let e0: Vec<usize> = vec![1];
    let e1: Vec<usize> = Vec::new();
    let edges: Vec<Vec<usize>> = vec![e0, e1];
    let g = MachineGraph { init: 0, edges };
    proof {
        assert(g.succ(0) =~= seq![1int]);
        assert(g.succ(1) =~= Seq::<int>::empty());
        assert(g.wf());
        assert forall|s: TripData, dst: int|
            g.has_edge(s.tag(), dst) implies #[trigger] s.transformable(dst) by {
            if s.tag() == 0 {
                assert(g.succ(0).contains(dst) ==> dst == 1);
            }
        }
    }
    StateMachine::new(g)
}

} // verus!
