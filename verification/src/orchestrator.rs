use crate::artifact::OperationOutput;
use crate::error::ApplicationError;
use crate::graph::{BuildGraph, Edge, EdgeModel, GraphModel};
use vstd::prelude::*;

verus! {

/// Where one node stands during a run: untouched, registered for
/// execution, currently inside `execute`, or finished.
#[derive(Clone, Copy, Debug, PartialEq, Eq, Structural)]
pub enum BuildState {
    Idle,
    Triggered,
    Running,
    Succeeded,
    Failed,
}

/// One observable event of a run: a node's `execute` began, or it
/// returned with the given success.
pub enum EventModel {
    Start(int),
    Finish(int, bool),
}

/// How many times node `n` was started in this trace.
pub open spec fn count_starts(tr: Seq<EventModel>, n: int) -> int
    decreases tr.len(),
{
    if tr.len() == 0 {
        0
    } else {
        count_starts(tr.drop_last(), n) + if tr.last() == EventModel::Start(n) {
            1int
        } else {
            0int
        }
    }
}

/// How many `execute` calls a trace leaves running: starts minus
/// finishes.
pub open spec fn active(tr: Seq<EventModel>) -> int
    decreases tr.len(),
{
    if tr.len() == 0 {
        0
    } else {
        active(tr.drop_last()) + match tr.last() {
            EventModel::Start(_) => 1int,
            EventModel::Finish(_, _) => -1int,
        }
    }
}

/// How many nodes of this state vector are currently running.
pub open spec fn count_running(st: Seq<BuildState>) -> int
    decreases st.len(),
{
    if st.len() == 0 {
        0
    } else {
        count_running(st.drop_last()) + if st.last() is Running {
            1int
        } else {
            0int
        }
    }
}

/// Updating one entry changes the running count by the difference the
/// entry makes.
pub proof fn lemma_count_running_update(st: Seq<BuildState>, i: int, v: BuildState)
    requires
        0 <= i < st.len(),
    ensures
        count_running(st.update(i, v)) == count_running(st) - (if st[i] is Running {
            1int
        } else {
            0int
        }) + (if v is Running {
            1int
        } else {
            0int
        }),
    decreases st.len(),
{
    let st2 = st.update(i, v);
    if i == st.len() - 1 {
        assert(st2.drop_last() =~= st.drop_last());
    } else {
        assert(st2.drop_last() =~= st.drop_last().update(i, v));
        lemma_count_running_update(st.drop_last(), i, v);
    }
}

/// A running count is never negative.
pub proof fn lemma_count_running_nonneg(st: Seq<BuildState>)
    ensures
        count_running(st) >= 0,
    decreases st.len(),
{
    if st.len() > 0 {
        lemma_count_running_nonneg(st.drop_last());
    }
}

/// A state vector with a running entry has a positive running count.
pub proof fn lemma_count_running_at_least(st: Seq<BuildState>, i: int)
    requires
        0 <= i < st.len(),
        st[i] is Running,
    ensures
        count_running(st) >= 1,
    decreases st.len(),
{
    if i < st.len() - 1 {
        assert(st.drop_last()[i] == st[i]);
        lemma_count_running_at_least(st.drop_last(), i);
    } else {
        assert(st.last() is Running);
        lemma_count_running_nonneg(st.drop_last());
    }
}

/// A state vector without running entries has a zero running count.
pub proof fn lemma_count_running_zero(st: Seq<BuildState>)
    requires
        forall|i: int| 0 <= i < st.len() ==> !((#[trigger] st[i]) is Running),
    ensures
        count_running(st) == 0,
    decreases st.len(),
{
    if st.len() > 0 {
        lemma_count_running_zero(st.drop_last());
    }
}

/// Appending one event changes the start count of `n` exactly when the
/// event is a start of `n`.
pub proof fn lemma_count_starts_push(tr: Seq<EventModel>, x: EventModel, n: int)
    ensures
        count_starts(tr.push(x), n) == count_starts(tr, n) + if x == EventModel::Start(n) {
            1int
        } else {
            0int
        },
{
    assert(tr.push(x).drop_last() =~= tr);
}

/// Appending one event moves the active count by one, up for a start
/// and down for a finish.
pub proof fn lemma_active_push(tr: Seq<EventModel>, x: EventModel)
    ensures
        active(tr.push(x)) == active(tr) + match x {
            EventModel::Start(_) => 1int,
            EventModel::Finish(_, _) => -1int,
        },
{
    assert(tr.push(x).drop_last() =~= tr);
}

/// Whether this state means the node's `execute` has been entered.
pub open spec fn has_started(s: BuildState) -> bool {
    s is Running || s is Succeeded || s is Failed
}

/// Whether this state is final: the node will never run again.
pub open spec fn is_terminal(s: BuildState) -> bool {
    s is Succeeded || s is Failed
}

/// The run state of the orchestrator over one fixed graph: one state per
/// node, the number of permits in use, and the ghost trace of every
/// start and finish observed so far.
pub struct Context {
    job_limit: usize,
    states: Vec<BuildState>,
    running: usize,
    first_error: Option<ApplicationError>,
    trace: Ghost<Seq<EventModel>>,
    graph_model: Ghost<GraphModel>,
    marked: Ghost<bool>,
}

impl Context {
    pub closed spec fn spec_job_limit(self) -> int {
        self.job_limit as int
    }

    pub closed spec fn spec_states(self) -> Seq<BuildState> {
        self.states@
    }

    pub closed spec fn spec_running(self) -> int {
        self.running as int
    }

    pub closed spec fn spec_trace(self) -> Seq<EventModel> {
        self.trace@
    }

    pub closed spec fn spec_graph(self) -> GraphModel {
        self.graph_model@
    }

    /// Whether exactly the nodes that reach a final target are
    /// registered (set by `trigger_reachable`).
    pub closed spec fn spec_marked(self) -> bool {
        self.marked@
    }

    /// The first failure's own error, if one was recorded.
    pub closed spec fn spec_first_error(self) -> Option<ApplicationError> {
        self.first_error
    }

    /// The standing invariants of a run.
    ///
    /// Beside bookkeeping (states are one per node, `running` counts the
    /// nodes inside `execute`), the trace invariants carry the three
    /// scheduling guarantees: every node starts at most once; a start
    /// happens only after a successful finish of every predecessor; and
    /// no prefix of the trace leaves more than `job_limit` calls active.
    pub open spec fn wf(self) -> bool {
        let g = self.spec_graph();
        let st = self.spec_states();
        let tr = self.spec_trace();
        &&& g.wf()
        &&& st.len() == g.nodes.len()
        &&& forall|n: int|
            0 <= n < st.len() ==> count_starts(tr, n) == if has_started(#[trigger] st[n]) {
                1int
            } else {
                0int
            }
        &&& forall|i: int|
            0 <= i < tr.len() ==> match #[trigger] tr[i] {
                EventModel::Start(n) => 0 <= n < st.len(),
                EventModel::Finish(n, b) => 0 <= n < st.len(),
            }
        &&& forall|i: int, k: int|
            #![trigger tr[i], g.edges[k]]
            (0 <= i < tr.len() && 0 <= k < g.edges.len() && (tr[i] matches EventModel::Start(n)
                && g.edges[k].dst == n)) ==> exists|j: int|
                0 <= j < i && tr[j] == EventModel::Finish(g.edges[k].src, true)
        &&& forall|i: int| 0 <= i <= tr.len() ==> active(#[trigger] tr.take(i)) <= self.spec_job_limit()
        &&& active(tr) == self.spec_running()
        &&& count_running(st) == self.spec_running()
        &&& self.spec_running() <= self.spec_job_limit()
        &&& forall|n: int|
            0 <= n < st.len() && #[trigger] st[n] is Succeeded ==> exists|j: int|
                0 <= j < tr.len() && tr[j] == EventModel::Finish(n, true)
        &&& forall|n: int|
            0 <= n < st.len() && #[trigger] st[n] is Running ==> exists|j: int|
                0 <= j < tr.len() && tr[j] == EventModel::Start(n)
        &&& self.spec_marked() ==> forall|n: int|
            0 <= n < st.len() ==> (!((#[trigger] st[n]) is Idle) <==> reaches_sink(g, n))
    }

    /// A fresh run state for the given graph: nothing triggered, nothing
    /// running, an empty trace.
    pub fn new(graph: &BuildGraph, job_limit: usize) -> (r: Context)
        requires
            graph@.wf(),
        ensures
            r.wf(),
            r.spec_graph() == graph@,
            r.spec_job_limit() == job_limit as int,
            r.spec_trace() == Seq::<EventModel>::empty(),
            r.spec_running() == 0,
            r.spec_first_error() is None,
            forall|n: int| 0 <= n < r.spec_states().len() ==> r.spec_states()[n] is Idle,
    {
        let count = graph.node_count();
        let mut states: Vec<BuildState> = Vec::new();
        let mut i: usize = 0;
        while i < count
            invariant
                i <= count,
                states@.len() == i,
                forall|n: int| 0 <= n < i ==> states@[n] is Idle,
            decreases count - i,
        {
            states.push(BuildState::Idle);
            i += 1;
        }
        let r = Context {
            job_limit,
            states,
            running: 0,
            first_error: None,
            trace: Ghost(Seq::empty()),
            graph_model: Ghost(graph@),
            marked: Ghost(false),
        };
        proof {
            lemma_count_running_zero(r.spec_states());
            assert forall|n: int| 0 <= n < r.spec_states().len() implies count_starts(
                r.spec_trace(),
                n,
            ) == 0int by {}
            assert forall|i2: int| 0 <= i2 <= r.spec_trace().len() implies active(
                #[trigger] r.spec_trace().take(i2),
            ) <= r.spec_job_limit() by {
                assert(r.spec_trace().take(i2) =~= Seq::<EventModel>::empty());
            }
        }
        r
    }

    /// The state of node `n`.
    pub fn state_of(&self, n: usize) -> (r: BuildState)
        requires
            n < self.spec_states().len(),
        ensures
            r == self.spec_states()[n as int],
    {
        self.states[n]
    }

    /// How many `execute` calls are active now.
    pub fn running_count(&self) -> (r: usize)
        ensures
            r as int == self.spec_running(),
    {
        self.running
    }

    /// Register node `n` for execution. Registering is idempotent: a
    /// node already registered, running or finished is left as it is.
    pub fn trigger(&mut self, n: usize)
        requires
            old(self).wf(),
            n < old(self).spec_states().len(),
        ensures
            final(self).wf(),
            final(self).spec_graph() == old(self).spec_graph(),
            final(self).spec_job_limit() == old(self).spec_job_limit(),
            final(self).spec_trace() == old(self).spec_trace(),
            final(self).spec_running() == old(self).spec_running(),
            final(self).spec_first_error() == old(self).spec_first_error(),
            old(self).spec_states()[n as int] is Idle ==> final(self).spec_states() == old(
                self,
            ).spec_states().update(n as int, BuildState::Triggered),
            !(old(self).spec_states()[n as int] is Idle) ==> final(self).spec_states() == old(
                self,
            ).spec_states(),
    {
        proof {
            self.marked@ = false;
        }
        let s = self.states[n];
        match s {
            BuildState::Idle => {
                self.states[n] = BuildState::Triggered;
                proof {
                    assert(self.spec_states() =~= old(self).spec_states().update(
                        n as int,
                        BuildState::Triggered,
                    ));
                    lemma_count_running_update(
                        old(self).spec_states(),
                        n as int,
                        BuildState::Triggered,
                    );
                }
            },
            _ => {
                proof {
                    assert(self.spec_states() =~= old(self).spec_states());
                }
            },
        }
    }

    /// Begin node `n`'s `execute`: it must be registered, every
    /// predecessor must have succeeded, and a permit must be free.
    /// This is the only transition that starts a node, and it can fire
    /// at most once per node.
    pub fn start(&mut self, n: usize)
        requires
            old(self).wf(),
            n < old(self).spec_states().len(),
            old(self).spec_ready(n as int),
        ensures
            final(self).wf(),
            final(self).spec_graph() == old(self).spec_graph(),
            final(self).spec_job_limit() == old(self).spec_job_limit(),
            final(self).spec_states() == old(self).spec_states().update(
                n as int,
                BuildState::Running,
            ),
            final(self).spec_trace() == old(self).spec_trace().push(
                EventModel::Start(n as int),
            ),
            final(self).spec_running() == old(self).spec_running() + 1,
            final(self).spec_marked() == old(self).spec_marked(),
            final(self).spec_first_error() == old(self).spec_first_error(),
    {
        let ghost pre = *self;
        self.states[n] = BuildState::Running;
        self.running = self.running + 1;
        proof {
            self.trace@ = pre.spec_trace().push(EventModel::Start(n as int));
            let st2 = self.spec_states();
            let tr = pre.spec_trace();
            let tr2 = self.spec_trace();
            assert(st2 =~= pre.spec_states().update(n as int, BuildState::Running));
            lemma_count_running_update(pre.spec_states(), n as int, BuildState::Running);
            lemma_active_push(tr, EventModel::Start(n as int));
            assert forall|m: int| 0 <= m < st2.len() implies count_starts(tr2, m) == if has_started(
                #[trigger] st2[m],
            ) {
                1int
            } else {
                0int
            } by {
                lemma_count_starts_push(tr, EventModel::Start(n as int), m);
            }
            assert forall|i: int| 0 <= i <= tr2.len() implies active(#[trigger] tr2.take(i))
                <= self.spec_job_limit() by {
                if i <= tr.len() {
                    assert(tr2.take(i) =~= tr.take(i));
                } else {
                    assert(tr2.take(i) =~= tr2);
                }
            }
            assert forall|i: int, k: int|
                #![trigger tr2[i], self.spec_graph().edges[k]]
                (0 <= i < tr2.len() && 0 <= k < self.spec_graph().edges.len() && (tr2[i] matches
                    EventModel::Start(m) && self.spec_graph().edges[k].dst == m)) implies (exists|
                j: int,
            |
                0 <= j < i && tr2[j] == EventModel::Finish(
                    self.spec_graph().edges[k].src,
                    true,
                )) by {
                let g = self.spec_graph();
                if i < tr.len() {
                    assert(tr2[i] == tr[i]);
                    let j = choose|j: int|
                        0 <= j < i && tr[j] == EventModel::Finish(g.edges[k].src, true);
                    assert(tr2[j] == EventModel::Finish(g.edges[k].src, true));
                } else {
                    assert(tr2[i] == EventModel::Start(n as int));
                    assert(g.edges[k].dst == n as int);
                    assert(pre.spec_states()[g.edges[k].src] is Succeeded);
                    let j = choose|j: int|
                        0 <= j < tr.len() && tr[j] == EventModel::Finish(g.edges[k].src, true);
                    assert(tr2[j] == EventModel::Finish(g.edges[k].src, true));
                }
            }
            assert forall|m: int|
                0 <= m < st2.len() && #[trigger] st2[m] is Succeeded implies (exists|j: int|
                0 <= j < tr2.len() && tr2[j] == EventModel::Finish(m, true)) by {
                let j = choose|j: int| 0 <= j < tr.len() && tr[j] == EventModel::Finish(m, true);
                assert(tr2[j] == EventModel::Finish(m, true));
            }
            assert forall|m: int|
                0 <= m < st2.len() && #[trigger] st2[m] is Running implies (exists|j: int|
                0 <= j < tr2.len() && tr2[j] == EventModel::Start(m)) by {
                if m == n as int {
                    assert(tr2[tr.len() as int] == EventModel::Start(n as int));
                } else {
                    let j = choose|j: int| 0 <= j < tr.len() && tr[j] == EventModel::Start(m);
                    assert(tr2[j] == EventModel::Start(m));
                }
            }
        }
    }

    /// Record that node `n`'s `execute` returned, with the given
    /// success. The permit it held is released.
    pub fn finish(&mut self, n: usize, success: bool)
        requires
            old(self).wf(),
            n < old(self).spec_states().len(),
            old(self).spec_states()[n as int] is Running,
        ensures
            final(self).wf(),
            final(self).spec_graph() == old(self).spec_graph(),
            final(self).spec_job_limit() == old(self).spec_job_limit(),
            final(self).spec_states() == old(self).spec_states().update(
                n as int,
                if success {
                    BuildState::Succeeded
                } else {
                    BuildState::Failed
                },
            ),
            final(self).spec_trace() == old(self).spec_trace().push(
                EventModel::Finish(n as int, success),
            ),
            final(self).spec_running() == old(self).spec_running() - 1,
            final(self).spec_marked() == old(self).spec_marked(),
            final(self).spec_first_error() == old(self).spec_first_error(),
    {
        let ghost pre = *self;
        proof {
            lemma_count_running_at_least(pre.spec_states(), n as int);
        }
        let v = if success {
            BuildState::Succeeded
        } else {
            BuildState::Failed
        };
        self.states[n] = v;
        self.running = self.running - 1;
        proof {
            self.trace@ = pre.spec_trace().push(EventModel::Finish(n as int, success));
            let st2 = self.spec_states();
            let tr = pre.spec_trace();
            let tr2 = self.spec_trace();
            assert(st2 =~= pre.spec_states().update(n as int, v));
            lemma_count_running_update(pre.spec_states(), n as int, v);
            lemma_active_push(tr, EventModel::Finish(n as int, success));
            assert forall|m: int| 0 <= m < st2.len() implies count_starts(tr2, m) == if has_started(
                #[trigger] st2[m],
            ) {
                1int
            } else {
                0int
            } by {
                lemma_count_starts_push(tr, EventModel::Finish(n as int, success), m);
            }
            assert forall|i: int| 0 <= i <= tr2.len() implies active(#[trigger] tr2.take(i))
                <= self.spec_job_limit() by {
                if i <= tr.len() {
                    assert(tr2.take(i) =~= tr.take(i));
                } else {
                    assert(tr2.take(i) =~= tr2);
                }
            }
            assert forall|i: int, k: int|
                #![trigger tr2[i], self.spec_graph().edges[k]]
                (0 <= i < tr2.len() && 0 <= k < self.spec_graph().edges.len() && (tr2[i] matches
                    EventModel::Start(m) && self.spec_graph().edges[k].dst == m)) implies (exists|
                j: int,
            |
                0 <= j < i && tr2[j] == EventModel::Finish(
                    self.spec_graph().edges[k].src,
                    true,
                )) by {
                let g = self.spec_graph();
                if i < tr.len() {
                    assert(tr2[i] == tr[i]);
                    let j = choose|j: int|
                        0 <= j < i && tr[j] == EventModel::Finish(g.edges[k].src, true);
                    assert(tr2[j] == EventModel::Finish(g.edges[k].src, true));
                }
            }
            assert forall|m: int|
                0 <= m < st2.len() && #[trigger] st2[m] is Succeeded implies (exists|j: int|
                0 <= j < tr2.len() && tr2[j] == EventModel::Finish(m, true)) by {
                if m == n as int {
                    assert(tr2[tr.len() as int] == EventModel::Finish(n as int, true));
                } else {
                    let j = choose|j: int|
                        0 <= j < tr.len() && tr[j] == EventModel::Finish(m, true);
                    assert(tr2[j] == EventModel::Finish(m, true));
                }
            }
            assert forall|m: int|
                0 <= m < st2.len() && #[trigger] st2[m] is Running implies (exists|j: int|
                0 <= j < tr2.len() && tr2[j] == EventModel::Start(m)) by {
                let j = choose|j: int| 0 <= j < tr.len() && tr[j] == EventModel::Start(m);
                assert(tr2[j] == EventModel::Start(m));
            }
        }
    }

    /// Some node that may start now, if any: the driver's work-finding
    /// step.
    #[verifier::loop_isolation(false)]
    pub fn next_ready(&self, graph: &BuildGraph) -> (r: Option<usize>)
        requires
            self.wf(),
            graph@ == self.spec_graph(),
        ensures
            match r {
                Some(n) => n < self.spec_states().len() && self.spec_ready(n as int),
                None => forall|n: int| 0 <= n < self.spec_states().len() ==> !self.spec_ready(n),
            },
    {
        let mut n: usize = 0;
        while n < self.states.len()
            invariant
                n <= self.spec_states().len(),
                forall|m: int| 0 <= m < n ==> !self.spec_ready(m),
            decreases self.spec_states().len() - n,
        {
            if self.ready(graph, n) {
                return Some(n);
            }
            n += 1;
        }
        None
    }

    /// Whether node `n` may start now: it is registered, every
    /// predecessor has succeeded, and a permit is free.
    pub open spec fn spec_ready(self, n: int) -> bool {
        let g = self.spec_graph();
        &&& self.spec_states()[n] is Triggered
        &&& forall|k: int|
            0 <= k < g.edges.len() && (#[trigger] g.edges[k]).dst == n ==> self.spec_states()[g.edges[k].src] is Succeeded
        &&& self.spec_running() < self.spec_job_limit()
    }

    /// Whether node `n` may start now.
    #[verifier::loop_isolation(false)]
    pub fn ready(&self, graph: &BuildGraph, n: usize) -> (r: bool)
        requires
            self.wf(),
            graph@ == self.spec_graph(),
            n < self.spec_states().len(),
        ensures
            r == self.spec_ready(n as int),
    {
        let s = self.states[n];
        match s {
            BuildState::Triggered => {},
            _ => {
                return false;
            },
        }
        if self.running >= self.job_limit {
            return false;
        }
        let in_edges = graph.edges_directed(n, false);
        let ghost inm = graph@.in_edges(n as int);
        let mut i: usize = 0;
        while i < in_edges.len()
            invariant
                i <= in_edges@.len(),
                in_edges@.map(|k: int, e: Edge| e@) == inm,
                forall|k: int| 0 <= k < i ==> self.spec_states()[inm[k].src] is Succeeded,
            decreases in_edges@.len() - i,
        {
            let e = in_edges[i];
            proof {
                assert(inm[i as int] == e@);
                graph@.lemma_in_edges_props(n as int);
                assert(0 <= e@.src < self.spec_states().len());
            }
            let ps = self.states[e.src];
            match ps {
                BuildState::Succeeded => {},
                _ => {
                    proof {
                        assert(graph@.edges.contains(e@));
                        let k = choose|k: int|
                            0 <= k < graph@.edges.len() && graph@.edges[k] == e@;
                        assert(graph@.edges[k].dst == n as int && !(self.spec_states()[graph@.edges[k].src] is Succeeded));
                    }
                    return false;
                },
            }
            i += 1;
        }
        proof {
            assert forall|k: int|
                0 <= k < graph@.edges.len() && (#[trigger] graph@.edges[k]).dst
                    == n as int implies self.spec_states()[graph@.edges[k].src] is Succeeded by {
                graph@.lemma_in_edges_complete(n as int, k);
            }
        }
        true
    }
}


impl Context {
    /// Record the error a failing node's `execute` returned. Only the
    /// first recorded error is kept: it is the one `run_result`
    /// propagates.
    pub fn record_error(&mut self, e: ApplicationError)
        ensures
            final(self).spec_first_error() == (match old(self).spec_first_error() {
                Some(prev) => Some(prev),
                None => Some(e),
            }),
            final(self).spec_states() == old(self).spec_states(),
            final(self).spec_trace() == old(self).spec_trace(),
            final(self).spec_running() == old(self).spec_running(),
            final(self).spec_job_limit() == old(self).spec_job_limit(),
            final(self).spec_graph() == old(self).spec_graph(),
            final(self).spec_marked() == old(self).spec_marked(),
            old(self).wf() ==> final(self).wf(),
    {
        if self.first_error.is_none() {
            self.first_error = Some(e);
        }
    }

    /// The run's overall outcome: success exactly when no node failed;
    /// otherwise the first failure's own recorded error, or `Build`
    /// when the failure was an unsuccessful exit with no error value.
    /// The driver calls this once no more work can start.
    #[verifier::loop_isolation(false)]
    pub fn run_result(&self) -> (r: Result<(), ApplicationError>)
        ensures
            r is Ok <==> (forall|n: int|
                0 <= n < self.spec_states().len() ==> !((#[trigger] self.spec_states()[n])
                    is Failed)),
            r matches Err(e) ==> e == (match self.spec_first_error() {
                Some(first) => first,
                None => ApplicationError::Build,
            }),
    {
        let mut n: usize = 0;
        while n < self.states.len()
            invariant
                n <= self.spec_states().len(),
                forall|m: int| 0 <= m < n ==> !((#[trigger] self.spec_states()[m]) is Failed),
            decreases self.spec_states().len() - n,
        {
            let s = self.states[n];
            match s {
                BuildState::Failed => {
                    match &self.first_error {
                        Some(first) => {
                            return Err(first.clone());
                        },
                        None => {
                            return Err(ApplicationError::Build);
                        },
                    }
                },
                _ => {},
            }
            n += 1;
        }
        Ok(())
    }
}

/// A walk through the graph that ends at a node with no outgoing edges:
/// the witness that its first node feeds some final target.
pub open spec fn is_sink_path(g: GraphModel, p: Seq<int>) -> bool {
    &&& p.len() > 0
    &&& forall|i: int| 0 <= i < p.len() ==> 0 <= #[trigger] p[i] < g.nodes.len()
    &&& forall|i: int|
        #![trigger p[i]]
        0 <= i < p.len() - 1 ==> exists|k: int|
            0 <= k < g.edges.len() && (#[trigger] g.edges[k]).src == p[i] && g.edges[k].dst == p[
                i + 1
            ]
    &&& g.out_edges(p.last()).len() == 0
}

/// Whether node `n` feeds some final target: some walk leads from it to
/// a node with no outgoing edges.
pub open spec fn reaches_sink(g: GraphModel, n: int) -> bool {
    exists|p: Seq<int>| is_sink_path(g, p) && p[0] == n
}

/// A node with no outgoing edges reaches a final target: itself.
pub proof fn lemma_extern_reaches(g: GraphModel, n: int)
    requires
        g.wf(),
        0 <= n < g.nodes.len(),
        g.out_edges(n).len() == 0,
    ensures
        reaches_sink(g, n),
{
    let p = seq![n];
    assert(is_sink_path(g, p));
}

/// Reaching a final target propagates backward over an edge.
pub proof fn lemma_reach_step(g: GraphModel, k: int)
    requires
        g.wf(),
        0 <= k < g.edges.len(),
        reaches_sink(g, g.edges[k].dst),
    ensures
        reaches_sink(g, g.edges[k].src),
{
    let p = choose|p: Seq<int>| is_sink_path(g, p) && p[0] == g.edges[k].dst;
    let p2 = seq![g.edges[k].src] + p;
    assert(p2.last() == p.last());
    assert forall|i: int| #![trigger p2[i]] 0 <= i < p2.len() - 1 implies exists|k2: int|
        0 <= k2 < g.edges.len() && (#[trigger] g.edges[k2]).src == p2[i] && g.edges[k2].dst == p2[
            i + 1
        ] by {
        if i == 0 {
            assert(g.edges[k].src == p2[0] && g.edges[k].dst == p2[1]);
        } else {
            assert(p2[i] == p[i - 1] && p2[i + 1] == p[i]);
            let k2 = choose|k2: int|
                0 <= k2 < g.edges.len() && (#[trigger] g.edges[k2]).src == p[i - 1]
                    && g.edges[k2].dst == p[i];
            assert(g.edges[k2].src == p2[i] && g.edges[k2].dst == p2[i + 1]);
        }
    }
    assert(is_sink_path(g, p2));
    assert(p2[0] == g.edges[k].src);
}

/// In a state closed under following edges backward from registered
/// nodes, with every terminal node registered, every node that reaches a
/// final target is registered.
pub proof fn lemma_closure_covers(g: GraphModel, st: Seq<BuildState>, p: Seq<int>)
    requires
        g.wf(),
        st.len() == g.nodes.len(),
        forall|n: int|
            0 <= n < st.len() && g.out_edges(n).len() == 0 ==> !((#[trigger] st[n]) is Idle),
        forall|k: int|
            0 <= k < g.edges.len() && !(st[(#[trigger] g.edges[k]).dst] is Idle) ==> !(st[g.edges[k].src] is Idle),
        is_sink_path(g, p),
    ensures
        !(st[p[0]] is Idle),
    decreases p.len(),
{
    if p.len() == 1 {
        assert(p.last() == p[0]);
    } else {
        let tail = p.drop_first();
        assert(tail.last() == p.last());
        assert forall|i: int| #![trigger tail[i]] 0 <= i < tail.len() - 1 implies exists|k: int|
            0 <= k < g.edges.len() && (#[trigger] g.edges[k]).src == tail[i] && g.edges[k].dst
                == tail[i + 1] by {
            assert(tail[i] == p[i + 1] && tail[i + 1] == p[i + 2]);
            let k = choose|k: int|
                0 <= k < g.edges.len() && (#[trigger] g.edges[k]).src == p[i + 1] && g.edges[k].dst
                    == p[i + 2];
            assert(g.edges[k].src == tail[i] && g.edges[k].dst == tail[i + 1]);
        }
        assert(is_sink_path(g, tail));
        lemma_closure_covers(g, st, tail);
        let k = choose|k: int|
            0 <= k < g.edges.len() && (#[trigger] g.edges[k]).src == p[0] && g.edges[k].dst == p[1];
        assert(!(st[g.edges[k].dst] is Idle));
    }
}

impl Context {
    /// Register every node that feeds some final target: the terminal
    /// nodes themselves, then transitively every node with an edge into
    /// a registered node. After this call a node is registered exactly
    /// when it reaches a final target.
    #[verifier::loop_isolation(false)]
    #[verifier::rlimit(50)]
    pub fn trigger_reachable(&mut self, graph: &BuildGraph)
        requires
            old(self).wf(),
            graph@ == old(self).spec_graph(),
            forall|n: int|
                0 <= n < old(self).spec_states().len() ==> (#[trigger] old(self).spec_states()[n])
                    is Idle,
        ensures
            final(self).wf(),
            final(self).spec_graph() == old(self).spec_graph(),
            final(self).spec_job_limit() == old(self).spec_job_limit(),
            final(self).spec_trace() == old(self).spec_trace(),
            final(self).spec_running() == old(self).spec_running(),
            final(self).spec_first_error() == old(self).spec_first_error(),
            final(self).spec_marked(),
            forall|n: int|
                0 <= n < final(self).spec_states().len() ==> ((#[trigger] final(self).spec_states()[n]) == if reaches_sink(graph@, n) {
                    BuildState::Triggered
                } else {
                    BuildState::Idle
                }),
    {
        let ghost g = graph@;
        let node_total = self.states.len();
        let mut n: usize = 0;
        while n < node_total
            invariant
                n <= node_total,
                node_total == self.spec_states().len(),
                self.spec_states().len() == g.nodes.len(),
                self.spec_graph() == g,
                self.spec_trace() == old(self).spec_trace(),
                self.spec_running() == old(self).spec_running(),
                self.spec_job_limit() == old(self).spec_job_limit(),
                self.spec_first_error() == old(self).spec_first_error(),
                forall|m: int|
                    0 <= m < self.spec_states().len() ==> ((#[trigger] self.spec_states()[m])
                        is Idle || self.spec_states()[m] is Triggered),
                forall|m: int|
                    0 <= m < self.spec_states().len() && !((#[trigger] self.spec_states()[m])
                        is Idle) ==> reaches_sink(g, m),
                forall|m: int|
                    0 <= m < n && g.out_edges(m).len() == 0 ==> !((#[trigger] self.spec_states()[m])
                        is Idle),
            decreases node_total - n,
        {
            let outs = graph.edges_directed(n, true);
            if outs.len() == 0 {
                proof {
                    assert(g.out_edges(n as int).len() == 0);
                    lemma_extern_reaches(g, n as int);
                }
                let ghost stpre = self.spec_states();
                self.states[n] = BuildState::Triggered;
                proof {
                    assert(self.spec_states() =~= stpre.update(n as int, BuildState::Triggered));
                }
            }
            n += 1;
        }
        let edge_total = graph.edge_count();
        let mut pass_again = true;
        while pass_again
            invariant
                node_total == self.spec_states().len(),
                self.spec_states().len() == g.nodes.len(),
                edge_total == g.edges.len(),
                self.spec_graph() == g,
                self.spec_trace() == old(self).spec_trace(),
                self.spec_running() == old(self).spec_running(),
                self.spec_job_limit() == old(self).spec_job_limit(),
                self.spec_first_error() == old(self).spec_first_error(),
                forall|m: int|
                    0 <= m < self.spec_states().len() ==> ((#[trigger] self.spec_states()[m])
                        is Idle || self.spec_states()[m] is Triggered),
                forall|m: int|
                    0 <= m < self.spec_states().len() && !((#[trigger] self.spec_states()[m])
                        is Idle) ==> reaches_sink(g, m),
                forall|m: int|
                    0 <= m < self.spec_states().len() && g.out_edges(m).len() == 0 ==> !((
                    #[trigger] self.spec_states()[m]) is Idle),
                !pass_again ==> forall|k: int|
                    0 <= k < g.edges.len() && !(self.spec_states()[(#[trigger] g.edges[k]).dst]
                        is Idle) ==> !(self.spec_states()[g.edges[k].src] is Idle),
            decreases count_idle(self.spec_states()) + if pass_again {
                1int
            } else {
                0int
            },
        {
            proof {
                lemma_count_idle_nonneg(self.spec_states());
            }
            pass_again = false;
            let ghost pass_start = self.spec_states();
            let mut k: usize = 0;
            while k < edge_total
                invariant
                    k <= edge_total,
                    node_total == self.spec_states().len(),
                    self.spec_states().len() == g.nodes.len(),
                    edge_total == g.edges.len(),
                    self.spec_graph() == g,
                    self.spec_trace() == old(self).spec_trace(),
                    self.spec_running() == old(self).spec_running(),
                    self.spec_job_limit() == old(self).spec_job_limit(),
                    self.spec_first_error() == old(self).spec_first_error(),
                    forall|m: int|
                        0 <= m < self.spec_states().len() ==> ((#[trigger] self.spec_states()[m])
                            is Idle || self.spec_states()[m] is Triggered),
                    forall|m: int|
                        0 <= m < self.spec_states().len() && !((#[trigger] self.spec_states()[m])
                            is Idle) ==> reaches_sink(g, m),
                    forall|m: int|
                        0 <= m < self.spec_states().len() && g.out_edges(m).len() == 0 ==> !((
                        #[trigger] self.spec_states()[m]) is Idle),
                    forall|m: int|
                        0 <= m < self.spec_states().len() && !((#[trigger] pass_start[m]) is Idle)
                            ==> !(self.spec_states()[m] is Idle),
                    !pass_again ==> self.spec_states() == pass_start,
                    !pass_again ==> count_idle(self.spec_states()) == count_idle(pass_start),
                    pass_again ==> count_idle(self.spec_states()) < count_idle(pass_start),
                    !pass_again ==> forall|k2: int|
                        0 <= k2 < k && !(self.spec_states()[(#[trigger] g.edges[k2]).dst] is Idle)
                            ==> !(self.spec_states()[g.edges[k2].src] is Idle),
                decreases edge_total - k,
            {
                let e = graph.edge_record(k);
                proof {
                    assert(0 <= g.edges[k as int].src);
                }
                let dst_state = self.states[e.dst];
                let src_state = self.states[e.src];
                let dst_marked = match dst_state {
                    BuildState::Idle => false,
                    _ => true,
                };
                let src_idle = match src_state {
                    BuildState::Idle => true,
                    _ => false,
                };
                if dst_marked && src_idle {
                    proof {
                        assert(g.edges[k as int].dst == e.dst as int);
                        lemma_reach_step(g, k as int);
                    }
                    let ghost stpre = self.spec_states();
                    self.states[e.src] = BuildState::Triggered;
                    proof {
                        assert(self.spec_states() =~= stpre.update(
                            e.src as int,
                            BuildState::Triggered,
                        ));
                        lemma_count_idle_update(stpre, e.src as int, BuildState::Triggered);
                        if !pass_again {
                            assert(count_idle(self.spec_states()) < count_idle(pass_start));
                        }
                    }
                    pass_again = true;
                }
                k += 1;
            }
            proof {
                lemma_count_idle_nonneg(self.spec_states());
                if pass_again {
                    assert(count_idle(self.spec_states()) < count_idle(pass_start));
                } else {
                    assert(count_idle(self.spec_states()) == count_idle(pass_start));
                }
            }
        }
        proof {
            self.marked@ = true;
            assert forall|m: int| 0 <= m < self.spec_states().len() implies ((
            #[trigger] self.spec_states()[m]) == if reaches_sink(g, m) {
                BuildState::Triggered
            } else {
                BuildState::Idle
            }) by {
                if reaches_sink(g, m) {
                    let p = choose|p: Seq<int>| is_sink_path(g, p) && p[0] == m;
                    lemma_closure_covers(g, self.spec_states(), p);
                }
            }
            lemma_count_running_zero(old(self).spec_states());
            lemma_count_running_zero(self.spec_states());
            assert forall|m: int| 0 <= m < self.spec_states().len() implies count_starts(
                self.spec_trace(),
                m,
            ) == if has_started(#[trigger] self.spec_states()[m]) {
                1int
            } else {
                0int
            } by {
                assert(!has_started(old(self).spec_states()[m]));
            }
        }
    }
}

/// How many nodes are untouched.
pub open spec fn count_idle(st: Seq<BuildState>) -> int
    decreases st.len(),
{
    if st.len() == 0 {
        0
    } else {
        count_idle(st.drop_last()) + if st.last() is Idle {
            1int
        } else {
            0int
        }
    }
}

/// An idle count is never negative.
pub proof fn lemma_count_idle_nonneg(st: Seq<BuildState>)
    ensures
        count_idle(st) >= 0,
    decreases st.len(),
{
    if st.len() > 0 {
        lemma_count_idle_nonneg(st.drop_last());
    }
}

/// Updating one entry changes the idle count by the difference the
/// entry makes.
pub proof fn lemma_count_idle_update(st: Seq<BuildState>, i: int, v: BuildState)
    requires
        0 <= i < st.len(),
    ensures
        count_idle(st.update(i, v)) == count_idle(st) - (if st[i] is Idle {
            1int
        } else {
            0int
        }) + (if v is Idle {
            1int
        } else {
            0int
        }),
    decreases st.len(),
{
    let st2 = st.update(i, v);
    if i == st.len() - 1 {
        assert(st2.drop_last() =~= st.drop_last());
    } else {
        assert(st2.drop_last() =~= st.drop_last().update(i, v));
        lemma_count_idle_update(st.drop_last(), i, v);
    }
}


/// The orchestrator's input: the finished graph it consumes read-only.
pub struct Configuration {
    graph: BuildGraph,
}

impl Configuration {
    pub closed spec fn spec_graph_model(self) -> crate::graph::GraphModel {
        self.graph@
    }

    pub fn new(graph: BuildGraph) -> (r: Self)
        ensures
            r.spec_graph_model() == graph@,
    {
        Configuration { graph }
    }

    pub fn graph(&self) -> (r: &BuildGraph)
        ensures
            r@ == self.spec_graph_model(),
    {
        &self.graph
    }
}

/// The predicate picking the edges of one output slot.
pub open spec fn slot_pred(s: int) -> spec_fn(EdgeModel) -> bool {
    |e: EdgeModel| e.slot == s
}

/// The highest output slot among these edges, 0 when there are none.
pub open spec fn max_slot(oes: Seq<EdgeModel>) -> int
    decreases oes.len(),
{
    if oes.len() == 0 {
        0
    } else {
        let m = max_slot(oes.drop_last());
        if oes.last().slot > m {
            oes.last().slot
        } else {
            m
        }
    }
}

/// The artifact of the first edge tagged slot `k`. The fallback value of
/// the unused-slot arm never reaches a caller: `collect_outputs` requires
/// every slot up to the highest one to be used.
pub open spec fn slot_art(oes: Seq<EdgeModel>, k: int) -> int {
    match crate::graph::first_match(oes, 0, slot_pred(k)) {
        Some(j) => oes[j].art,
        None => 0,
    }
}

/// Whether every output slot up to the highest used one is carried by
/// some edge: the well-formedness the output-slot vector presumes.
pub open spec fn slots_filled(oes: Seq<EdgeModel>) -> bool {
    oes.len() == 0 || forall|k: int|
        0 <= k <= max_slot(oes) ==> crate::graph::first_match(oes, 0, slot_pred(k)) is Some
}

/// The output artifact vector a node's `execute` receives: sized
/// `max_slot + 1`, with the artifact of slot `k` at index `k`. Edges that
/// share a slot share their artifact's first occurrence. A node with no
/// outgoing edges gets an empty vector.
pub open spec fn outputs_model(oes: Seq<EdgeModel>) -> Seq<int> {
    if oes.len() == 0 {
        Seq::empty()
    } else {
        Seq::new((max_slot(oes) + 1) as nat, |k: int| slot_art(oes, k))
    }
}

/// Whether node `n`'s outgoing edges use every output slot up to the
/// highest one: the test a driver makes before asking for the node's
/// output vector.
#[verifier::loop_isolation(false)]
pub fn output_slots_filled(graph: &BuildGraph, n: usize) -> (r: bool)
    requires
        graph@.wf(),
    ensures
        r == slots_filled(graph@.out_edges(n as int)),
{
    let oes = graph.edges_directed(n, true);
    let ghost oem = graph@.out_edges(n as int);
    if oes.len() == 0 {
        return true;
    }
    let mut maxs: usize = 0;
    let mut i: usize = 0;
    proof {
        assert(oem.take(0) =~= Seq::<EdgeModel>::empty());
    }
    while i < oes.len()
        invariant
            i <= oes@.len(),
            oes@.map(|k: int, e: Edge| e@) == oem,
            maxs as int == max_slot(oem.take(i as int)),
        decreases oes@.len() - i,
    {
        let e = oes[i];
        proof {
            assert(oem[i as int] == e@);
            assert(oem.take(i as int + 1).drop_last() =~= oem.take(i as int));
            assert(oem.take(i as int + 1).last() == e@);
        }
        if e.output_slot > maxs {
            maxs = e.output_slot;
        }
        i += 1;
    }
    proof {
        assert(oem.take(oes@.len() as int) =~= oem);
    }
    let mut s: usize = 0;
    loop
        invariant
            s <= maxs,
            oes@.map(|k: int, e: Edge| e@) == oem,
            oem.len() > 0,
            maxs as int == max_slot(oem),
            forall|k: int|
                0 <= k < s ==> crate::graph::first_match(oem, 0, slot_pred(k)) is Some,
        decreases maxs - s,
    {
        let ghost p = slot_pred(s as int);
        let mut j: usize = 0;
        let mut used = false;
        while j < oes.len()
            invariant
                j <= oes@.len(),
                oes@.map(|k: int, e: Edge| e@) == oem,
                !used,
                crate::graph::first_match(oem, 0, p) == crate::graph::first_match(
                    oem,
                    j as int,
                    p,
                ),
            decreases oes@.len() - j,
        {
            let e = oes[j];
            proof {
                assert(oem[j as int] == e@);
            }
            if e.output_slot == s {
                proof {
                    assert(crate::graph::first_match(oem, j as int, p) == Some(j as int));
                }
                used = true;
                break ;
            }
            proof {
                assert(!p(oem[j as int]));
            }
            j += 1;
        }
        if !used {
            proof {
                assert(crate::graph::first_match(oem, 0, p) is None);
            }
            return false;
        }
        if s == maxs {
            break ;
        }
        s += 1;
    }
    true
}

/// The output artifacts of node `n`, exactly as `outputs_model` says:
/// index `k` holds the artifact of output slot `k`.
#[verifier::loop_isolation(false)]
pub fn collect_outputs(graph: &BuildGraph, n: usize) -> (r: Vec<OperationOutput>)
    requires
        graph@.wf(),
        slots_filled(graph@.out_edges(n as int)),
    ensures
        r@.map(|i: int, a: OperationOutput| a.id as int) == outputs_model(
            graph@.out_edges(n as int),
        ),
{
    let oes = graph.edges_directed(n, true);
    let ghost oem = graph@.out_edges(n as int);
    let mut r: Vec<OperationOutput> = Vec::new();
    if oes.len() == 0 {
        proof {
            assert(r@.map(|i: int, a: OperationOutput| a.id as int) =~= outputs_model(oem));
        }
        return r;
    }
    let mut maxs: usize = 0;
    let mut i: usize = 0;
    proof {
        assert(oem.take(0) =~= Seq::<EdgeModel>::empty());
    }
    while i < oes.len()
        invariant
            i <= oes@.len(),
            oes@.map(|k: int, e: Edge| e@) == oem,
            maxs as int == max_slot(oem.take(i as int)),
        decreases oes@.len() - i,
    {
        let e = oes[i];
        proof {
            assert(oem[i as int] == e@);
            assert(oem.take(i as int + 1).drop_last() =~= oem.take(i as int));
            assert(oem.take(i as int + 1).last() == e@);
        }
        if e.output_slot > maxs {
            maxs = e.output_slot;
        }
        i += 1;
    }
    proof {
        assert(oem.take(oes@.len() as int) =~= oem);
    }
    let mut s: usize = 0;
    loop
        invariant
            s <= maxs,
            oes@.map(|k: int, e: Edge| e@) == oem,
            oem.len() > 0,
            maxs as int == max_slot(oem),
            r@.len() == s,
            forall|k: int|
                0 <= k < s ==> (#[trigger] r@[k]).id as int == slot_art(oem, k),
        decreases maxs - s,
    {
        let ghost p = slot_pred(s as int);
        let mut j: usize = 0;
        let mut found: Option<OperationOutput> = None;
        while j < oes.len()
            invariant
                j <= oes@.len(),
                oes@.map(|k: int, e: Edge| e@) == oem,
                found is None,
                crate::graph::first_match(oem, 0, p) == crate::graph::first_match(
                    oem,
                    j as int,
                    p,
                ),
            decreases oes@.len() - j,
        {
            let e = oes[j];
            proof {
                assert(oem[j as int] == e@);
            }
            if e.output_slot == s {
                proof {
                    assert(crate::graph::first_match(oem, j as int, p) == Some(j as int));
                }
                found = Some(e.output);
                break ;
            }
            proof {
                assert(!p(oem[j as int]));
            }
            j += 1;
        }
        let ghost rpre = r@;
        match found {
            Some(a) => {
                r.push(a);
                proof {
                    assert(r@[s as int].id as int == slot_art(oem, s as int));
                }
            },
            None => {
                // Unreachable: the slot-vector precondition says every
                // slot up to the highest one is used.
                proof {
                    assert(crate::graph::first_match(oem, 0, p) is None);
                    assert(false);
                }
            },
        }
        if s == maxs {
            break ;
        }
        s += 1;
    }
    proof {
        assert(r@.map(|i: int, a: OperationOutput| a.id as int) =~= Seq::new(
            (max_slot(oem) + 1) as nat,
            |k: int| slot_art(oem, k),
        ));
    }
    r
}

/// The input side a node's `execute` receives: the predecessor of each
/// incoming edge and the artifact that edge carries, both in edge order.
#[verifier::loop_isolation(false)]
pub fn collect_inputs(graph: &BuildGraph, n: usize) -> (r: (Vec<usize>, Vec<OperationOutput>))
    requires
        graph@.wf(),
    ensures
        r.0@.map(|i: int, x: usize| x as int) == graph@.in_edges(n as int).map(
            |i: int, e: EdgeModel| e.src,
        ),
        r.1@.map(|i: int, a: OperationOutput| a.id as int) == graph@.in_edges(n as int).map(
            |i: int, e: EdgeModel| e.art,
        ),
        r.0@.len() == r.1@.len(),
        forall|i: int| 0 <= i < r.0@.len() ==> (#[trigger] r.0@[i]) < graph@.nodes.len(),
    {
    let ies = graph.edges_directed(n, false);
    let ghost iem = graph@.in_edges(n as int);
    let mut preds: Vec<usize> = Vec::new();
    let mut arts: Vec<OperationOutput> = Vec::new();
    let mut i: usize = 0;
    proof {
        graph@.lemma_in_edges_props(n as int);
        assert(preds@.map(|k: int, x: usize| x as int) =~= iem.take(0).map(
            |k: int, e: EdgeModel| e.src,
        ));
        assert(arts@.map(|k: int, a: OperationOutput| a.id as int) =~= iem.take(0).map(
            |k: int, e: EdgeModel| e.art,
        ));
        assert(iem.take(0) =~= Seq::<EdgeModel>::empty());
    }
    while i < ies.len()
        invariant
            i <= ies@.len(),
            ies@.map(|k: int, e: Edge| e@) == iem,
            preds@.map(|k: int, x: usize| x as int) == iem.take(i as int).map(
                |k: int, e: EdgeModel| e.src,
            ),
            arts@.map(|k: int, a: OperationOutput| a.id as int) == iem.take(i as int).map(
                |k: int, e: EdgeModel| e.art,
            ),
            preds@.len() == arts@.len(),
            forall|k: int| 0 <= k < preds@.len() ==> (#[trigger] preds@[k]) < graph@.nodes.len(),
        decreases ies@.len() - i,
    {
        let e = ies[i];
        proof {
            assert(iem[i as int] == e@);
        }
        let ghost ppre = preds@;
        let ghost apre = arts@;
        preds.push(e.src);
        arts.push(e.output);
        proof {
            assert(iem.take(i as int + 1) =~= iem.take(i as int).push(e@));
            assert(preds@.map(|k: int, x: usize| x as int) =~= ppre.map(
                |k: int, x: usize| x as int,
            ).push(e@.src));
            assert(arts@.map(|k: int, a: OperationOutput| a.id as int) =~= apre.map(
                |k: int, a: OperationOutput| a.id as int,
            ).push(e@.art));
            assert(iem.take(i as int + 1).map(|k: int, em: EdgeModel| em.src) =~= iem.take(
                i as int,
            ).map(|k: int, em: EdgeModel| em.src).push(e@.src));
            assert(iem.take(i as int + 1).map(|k: int, em: EdgeModel| em.art) =~= iem.take(
                i as int,
            ).map(|k: int, em: EdgeModel| em.art).push(e@.art));
        }
        i += 1;
    }
    proof {
        assert(iem.take(ies@.len() as int) =~= iem);
    }
    (preds, arts)
}

/// Every node's `execute` is entered at most once during a run.
pub proof fn lemma_at_most_once(c: Context, n: int)
    requires
        c.wf(),
        0 <= n < c.spec_states().len(),
    ensures
        count_starts(c.spec_trace(), n) <= 1,
{
    let st = c.spec_states();
    assert(count_starts(c.spec_trace(), n) == if has_started(st[n]) {
        1int
    } else {
        0int
    });
}

/// After the reachable nodes were registered and the run has come to
/// rest, a node's `execute` was entered exactly once if the node feeds
/// some final target, and never otherwise.
pub proof fn lemma_exactly_once_when_quiescent(c: Context, n: int)
    requires
        c.wf(),
        c.spec_marked(),
        0 <= n < c.spec_states().len(),
        forall|m: int|
            0 <= m < c.spec_states().len() ==> ((#[trigger] c.spec_states()[m]) is Idle
                || is_terminal(c.spec_states()[m])),
    ensures
        count_starts(c.spec_trace(), n) == if reaches_sink(c.spec_graph(), n) {
            1int
        } else {
            0int
        },
{
    let st = c.spec_states();
    assert(count_starts(c.spec_trace(), n) == if has_started(st[n]) {
        1int
    } else {
        0int
    });
    assert(st[n] is Idle || is_terminal(st[n]));
    assert(!(st[n] is Idle) <==> reaches_sink(c.spec_graph(), n));
}

/// No successor's `execute` is entered before every one of its
/// predecessors' `execute` calls has returned successfully.
pub proof fn lemma_dependency_ordering(c: Context, i: int, k: int)
    requires
        c.wf(),
        0 <= i < c.spec_trace().len(),
        0 <= k < c.spec_graph().edges.len(),
        c.spec_trace()[i] == EventModel::Start(c.spec_graph().edges[k].dst),
    ensures
        exists|j: int|
            0 <= j < i && c.spec_trace()[j] == EventModel::Finish(
                c.spec_graph().edges[k].src,
                true,
            ),
{
}

/// At no point of a run are more than `job_limit` `execute` calls
/// active at once.
pub proof fn lemma_job_limit_bound(c: Context, i: int)
    requires
        c.wf(),
        0 <= i <= c.spec_trace().len(),
    ensures
        active(c.spec_trace().take(i)) <= c.spec_job_limit(),
{
}

} // verus!
