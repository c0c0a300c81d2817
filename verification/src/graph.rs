use crate::artifact::{art_eq, ArtifactStore, ArtifactValue, OperationOutput, RawOperationOutput};
use crate::convert::{bytes_to_temp_file_model, file_to_bytes_model, BytesToTempFile, FileToBytes};
use crate::error::ApplicationError;
use crate::operation::{BuildNode, DataKind, NodeModel, OpDesc, OpDescModel};
use vstd::prelude::*;
use vstd::string::*;

verus! {

/// Whether two strings hold the same characters.
pub fn str_eq(a: &str, b: &str) -> (r: bool)
    ensures
        r == (a@ == b@),
{
    let sa = a.to_owned();
    let sb = b.to_owned();
    sa.eq(&sb)
}

/// An edge of the build graph: data flows from `src` to `dst`, carried by
/// the artifact cell `output`, which is the producer's output slot
/// `output_slot`.
#[derive(Clone, Copy, Debug)]
pub struct Edge {
    pub src: usize,
    pub dst: usize,
    pub output: OperationOutput,
    pub output_slot: usize,
}

/// The ghost image of an `Edge`.
pub struct EdgeModel {
    pub src: int,
    pub dst: int,
    pub art: int,
    pub slot: int,
}

impl View for Edge {
    type V = EdgeModel;

    open spec fn view(&self) -> EdgeModel {
        EdgeModel {
            src: self.src as int,
            dst: self.dst as int,
            art: self.output.id as int,
            slot: self.output_slot as int,
        }
    }
}

/// The ghost image of a `BuildGraph`: nodes and edges in insertion order,
/// the artifact cells, the sink nodes, and the map from target name to the
/// node that produces it.
#[verifier::ext_equal]
pub struct GraphModel {
    pub nodes: Seq<NodeModel>,
    pub edges: Seq<EdgeModel>,
    pub arts: Seq<ArtifactValue>,
    pub sinks: Seq<int>,
    pub targets: Seq<(Seq<char>, int)>,
}

impl GraphModel {
    /// Structural sanity: the shared Source sentinel is node 0, and every
    /// index an edge, sink or target entry mentions is in range.
    pub open spec fn wf(self) -> bool {
        &&& self.nodes.len() > 0
        &&& self.nodes[0] is Source
        &&& forall|i: int|
            0 <= i < self.edges.len() ==> (0 <= #[trigger] self.edges[i].src < self.nodes.len()
                && 0 <= self.edges[i].dst < self.nodes.len() && 0 <= self.edges[i].art
                < self.arts.len() && 0 <= self.edges[i].slot)
        &&& forall|i: int|
            0 <= i < self.sinks.len() ==> 0 <= #[trigger] self.sinks[i] < self.nodes.len()
        &&& forall|i: int|
            0 <= i < self.targets.len() ==> 0 <= (#[trigger] self.targets[i]).1
                < self.nodes.len()
    }

    /// The edges leaving node `n`, in insertion order.
    pub open spec fn out_edges(self, n: int) -> Seq<EdgeModel> {
        self.edges.filter(|e: EdgeModel| e.src == n)
    }

    /// The edges entering node `n`, in insertion order.
    pub open spec fn in_edges(self, n: int) -> Seq<EdgeModel> {
        self.edges.filter(|e: EdgeModel| e.dst == n)
    }
}

/// Filtering after appending one element keeps the filtered prefix and
/// appends the element exactly when it satisfies the predicate.
pub proof fn lemma_filter_push<A>(s: Seq<A>, x: A, p: spec_fn(A) -> bool)
    ensures
        p(x) ==> s.push(x).filter(p) == s.filter(p).push(x),
        !p(x) ==> s.push(x).filter(p) == s.filter(p),
{
    reveal_with_fuel(Seq::filter, 2);
    assert(s.push(x).drop_last() =~= s);
    assert(s.push(x).last() == x);
}

/// The first index at or after `i` whose edge satisfies `p`, if any.
pub open spec fn first_match(s: Seq<EdgeModel>, i: int, p: spec_fn(EdgeModel) -> bool) -> Option<
    int,
>
    decreases s.len() - i,
{
    if i >= s.len() {
        None
    } else if p(s[i]) {
        Some(i)
    } else {
        first_match(s, i + 1, p)
    }
}

/// What `first_match` promises: a hit is the least match, a miss means
/// there is none.
pub proof fn lemma_first_match(s: Seq<EdgeModel>, i: int, p: spec_fn(EdgeModel) -> bool)
    requires
        0 <= i <= s.len(),
    ensures
        match first_match(s, i, p) {
            Some(j) => i <= j < s.len() && p(s[j]) && forall|k: int| i <= k < j ==> !p(s[k]),
            None => forall|k: int| i <= k < s.len() ==> !p(s[k]),
        },
    decreases s.len() - i,
{
    if i < s.len() && !p(s[i]) {
        lemma_first_match(s, i + 1, p);
    }
}

/// The predicate picking the edges that leave node `n`.
pub open spec fn out_pred(n: int) -> spec_fn(EdgeModel) -> bool {
    |e: EdgeModel| e.src == n
}

/// The predicate picking the edges from `n` into a node with the given
/// short name.
pub open spec fn conv_pred(g: GraphModel, n: int, sname: Seq<char>) -> spec_fn(EdgeModel) -> bool {
    |e: EdgeModel| e.src == n && g.nodes[e.dst].shortname() == sname
}

/// The predicate picking the edges from `n` into an operation with the
/// given identifier, also requiring (when `chk` is set, that is when `n`
/// is the Source) that the edge's artifact equals `cval` in contents.
pub open spec fn coalesce_pred(
    g: GraphModel,
    n: int,
    ident: Seq<char>,
    chk: bool,
    cval: ArtifactValue,
) -> spec_fn(EdgeModel) -> bool {
    |e: EdgeModel|
        e.src == n && g.nodes[e.dst].is_op_with_identifier(ident) && (chk ==> art_eq(
            g.arts[e.art],
            cval,
        ))
}

/// The first index at or after `i` whose target entry has the given name.
pub open spec fn target_find(ts: Seq<(Seq<char>, int)>, name: Seq<char>, i: int) -> Option<int>
    decreases ts.len() - i,
{
    if i >= ts.len() {
        None
    } else if ts[i].0 == name {
        Some(i)
    } else {
        target_find(ts, name, i + 1)
    }
}

/// Record `name -> v`, replacing the first entry for `name` if one exists.
pub open spec fn target_upsert(ts: Seq<(Seq<char>, int)>, name: Seq<char>, v: int) -> Seq<
    (Seq<char>, int),
> {
    match target_find(ts, name, 0) {
        Some(i) => ts.update(i, (name, v)),
        None => ts.push((name, v)),
    }
}

/// The build DAG. Nodes are operations plus the synthetic Source and Sink
/// sentinels; edges carry an artifact cell and the producer's output slot.
/// Paths are inserted with node coalescing and automatic kind-conversion
/// insertion; late cross-target dependencies rewire sink edges.
pub struct BuildGraph {
    nodes: Vec<BuildNode>,
    edges: Vec<Edge>,
    artifacts: ArtifactStore,
    sinks: Vec<usize>,
    target_nodes: Vec<(String, usize)>,
}

impl View for BuildGraph {
    type V = GraphModel;

    closed spec fn view(&self) -> GraphModel {
        GraphModel {
            nodes: self.nodes@.map(|i: int, n: BuildNode| n@),
            edges: self.edges@.map(|i: int, e: Edge| e@),
            arts: self.artifacts@,
            sinks: self.sinks@.map(|i: int, s: usize| s as int),
            targets: self.target_nodes@.map(|i: int, t: (String, usize)| (t.0@, t.1 as int)),
        }
    }
}

/// The model of a graph holding only the Source sentinel.
pub open spec fn init_model() -> GraphModel {
    GraphModel {
        nodes: seq![NodeModel::Source],
        edges: Seq::empty(),
        arts: Seq::empty(),
        sinks: Seq::empty(),
        targets: Seq::empty(),
    }
}

impl BuildGraph {
    /// A graph holding only the shared Source sentinel, which is node 0.
    pub fn new() -> (r: Self)
        ensures
            r@ == init_model(),
            r@.wf(),
    {
        let r = BuildGraph {
            nodes: vec![BuildNode::Source],
            edges: Vec::new(),
            artifacts: ArtifactStore::new(),
            sinks: Vec::new(),
            target_nodes: Vec::new(),
        };
        proof {
            assert(r@.nodes =~= seq![NodeModel::Source]);
            assert(r@.edges =~= Seq::<EdgeModel>::empty());
            assert(r@.sinks =~= Seq::<int>::empty());
            assert(r@.targets =~= Seq::<(Seq<char>, int)>::empty());
        }
        r
    }

    /// The index of the Source sentinel.
    pub fn source(&self) -> (r: usize)
        ensures
            r == 0,
    {
        0
    }

    pub fn node_count(&self) -> (r: usize)
        ensures
            r == self@.nodes.len(),
    {
        self.nodes.len()
    }

    pub fn edge_count(&self) -> (r: usize)
        ensures
            r == self@.edges.len(),
    {
        self.edges.len()
    }

    /// The node at `index`, if it exists.
    pub fn node_weight(&self, index: usize) -> (r: Option<&BuildNode>)
        ensures
            match r {
                Some(n) => index < self@.nodes.len() && n@ == self@.nodes[index as int],
                None => index >= self@.nodes.len(),
            },
    {
        if index < self.nodes.len() {
            Some(&self.nodes[index])
        } else {
            None
        }
    }

    /// The sink nodes, one per declared final target, in declaration order.
    pub fn sinks(&self) -> (r: &Vec<usize>)
        ensures
            r@.map(|i: int, s: usize| s as int) == self@.sinks,
    {
        &self.sinks
    }

    /// The artifact table, read-only.
    pub fn artifacts(&self) -> (r: &ArtifactStore)
        ensures
            r@ == self@.arts,
    {
        &self.artifacts
    }

    /// The artifact table, for materialization and for storing produced
    /// results while the graph structure stays untouched.
    pub fn artifacts_mut(&mut self) -> (r: &mut ArtifactStore)
        ensures
            (*r)@ == old(self)@.arts,
            final(self)@ == (GraphModel { arts: (*final(r))@, ..old(self)@ }),
    {
        &mut self.artifacts
    }

    /// The nodes with no outgoing (or no incoming) edges: the outward
    /// (or inward) externals of the graph, in index order. The outward
    /// externals are the nodes the orchestrator starts from.
    #[verifier::loop_isolation(false)]
    pub fn externals(&self, outgoing: bool) -> (r: Vec<usize>)
        ensures
            r@.map(|i: int, x: usize| x as int) == externals_upto(
                self@,
                self@.nodes.len() as int,
                outgoing,
            ),
    {
        let mut r: Vec<usize> = Vec::new();
        let mut n: usize = 0;
        proof {
            assert(r@.map(|i: int, x: usize| x as int) =~= externals_upto(self@, 0, outgoing));
        }
        while n < self.nodes.len()
            invariant
                n <= self.nodes@.len(),
                r@.map(|i: int, x: usize| x as int) == externals_upto(self@, n as int, outgoing),
            decreases self.nodes@.len() - n,
        {
            let es = self.edges_directed(n, outgoing);
            if es.len() == 0 {
                let ghost rpre = r@;
                r.push(n);
                proof {
                    assert(r@.map(|i: int, x: usize| x as int) =~= rpre.map(
                        |i: int, x: usize| x as int,
                    ).push(n as int));
                }
            }
            n += 1;
        }
        r
    }

    /// The edge at position `k` of the edge list.
    pub fn edge_record(&self, k: usize) -> (r: Edge)
        requires
            k < self@.edges.len(),
        ensures
            r@ == self@.edges[k as int],
    {
        self.edges[k]
    }

    /// The edges leaving (or entering) node `index`, in insertion order.
    pub fn edges_directed(&self, index: usize, outgoing: bool) -> (r: Vec<Edge>)
        ensures
            outgoing ==> r@.map(|i: int, e: Edge| e@) == self@.out_edges(index as int),
            !outgoing ==> r@.map(|i: int, e: Edge| e@) == self@.in_edges(index as int),
    {
        let ghost n = index as int;
        let ghost p: spec_fn(EdgeModel) -> bool = if outgoing {
            |e: EdgeModel| e.src == n
        } else {
            |e: EdgeModel| e.dst == n
        };
        let mut r: Vec<Edge> = Vec::new();
        let mut i: usize = 0;
        while i < self.edges.len()
            invariant
                i <= self.edges.len(),
                n == index as int,
                r@.map(|k: int, e: Edge| e@) == self@.edges.take(i as int).filter(p),
                p == (if outgoing {
                    |e: EdgeModel| e.src == n
                } else {
                    |e: EdgeModel| e.dst == n
                }),
                self@.edges.len() == self.edges@.len(),
            decreases self.edges.len() - i,
        {
            let ghost prefix = self@.edges.take(i as int);
            let e = self.edges[i];
            let keep = if outgoing {
                e.src == index
            } else {
                e.dst == index
            };
            proof {
                assert(self@.edges[i as int] == e@);
                assert(self@.edges.take(i as int + 1) =~= prefix.push(e@));
                lemma_filter_push(prefix, e@, p);
                if outgoing {
                    assert(p == (|em: EdgeModel| em.src == n));
                    assert(p(e@) == (e@.src == n));
                } else {
                    assert(p == (|em: EdgeModel| em.dst == n));
                    assert(p(e@) == (e@.dst == n));
                }
                assert(keep == p(e@));
            }
            if keep {
                let ghost rpre = r@;
                r.push(e);
                proof {
                    assert(r@.map(|k: int, x: Edge| x@) =~= rpre.map(|k: int, x: Edge| x@).push(
                        e@,
                    ));
                }
            }
            i += 1;
        }
        proof {
            assert(self@.edges.take(self.edges@.len() as int) =~= self@.edges);
        }
        r
    }
}


/// The running state of one `add_path` call: the graph so far, the node
/// the cursor stands on, the data kind flowing out of it, and the
/// operation nodes recorded so far.
#[verifier::ext_equal]
pub struct PathState {
    pub g: GraphModel,
    pub cur: int,
    pub kind: DataKind,
    pub result: Seq<int>,
}

/// The placeholder artifact synthesized for an intermediate step of the
/// given kind: an unmaterialized temporary file for paths, empty bytes
/// for everything else.
pub open spec fn default_value_for_kind(k: DataKind) -> ArtifactValue {
    match k {
        DataKind::Path => ArtifactValue::Temp(None),
        _ => ArtifactValue::Bytes(Seq::empty()),
    }
}

/// The artifact synthesized for step `idx` of a path: an explicit input
/// override wins, the first step defaults to the path's source file, and
/// later steps get a placeholder for the current kind.
pub open spec fn computed_value(
    over: Option<Seq<char>>,
    idx: int,
    src_name: Seq<char>,
    kind: DataKind,
) -> ArtifactValue {
    match over {
        Some(f) => ArtifactValue::File(f),
        None => if idx == 0 {
            ArtifactValue::File(src_name)
        } else {
            default_value_for_kind(kind)
        },
    }
}

/// The converter bridging `have` to `want`, with the kind it produces.
/// Only the two byte/path bridges exist; other mismatches are left
/// unresolved.
pub open spec fn converter_for(have: DataKind, want: DataKind) -> Option<(OpDescModel, DataKind)> {
    if have == DataKind::Path && want == DataKind::Bytes {
        Some((file_to_bytes_model(), DataKind::Bytes))
    } else if have == DataKind::Bytes && want == DataKind::Path {
        Some((bytes_to_temp_file_model(), DataKind::Path))
    } else {
        None
    }
}

/// One step of `add_path`: synthesize the incoming artifact, pick the
/// broadcast artifact, insert or reuse a converter on a kind mismatch,
/// then coalesce with an equivalent existing child or add a new node.
pub open spec fn step_op(
    s: PathState,
    over: Option<Seq<char>>,
    op: OpDescModel,
    idx: int,
    src_name: Seq<char>,
) -> PathState {
    let cval = computed_value(over, idx, src_name, s.kind);
    let cid = s.g.arts.len() as int;
    let g1 = GraphModel { arts: s.g.arts.push(cval), ..s.g };
    let is_source = s.cur == 0;
    let bcast: int = if is_source {
        cid
    } else {
        match first_match(g1.edges, 0, out_pred(s.cur)) {
            Some(j) => g1.edges[j].art,
            None => cid,
        }
    };
    let want = if op.input_kinds.len() > 0 {
        op.input_kinds[0]
    } else {
        DataKind::Any
    };
    let conv = if want != DataKind::Any && want != s.kind {
        converter_for(s.kind, want)
    } else {
        None
    };
    let (g2, cur2, kind2): (GraphModel, int, DataKind) = match conv {
        Some((cdesc, ckind)) => {
            match first_match(g1.edges, 0, conv_pred(g1, s.cur, cdesc.shortname)) {
                Some(j) => (g1, g1.edges[j].dst, ckind),
                None => {
                    let nn = g1.nodes.len() as int;
                    (
                        GraphModel {
                            nodes: g1.nodes.push(NodeModel::Op(cdesc)),
                            edges: g1.edges.push(
                                EdgeModel { src: s.cur, dst: nn, art: bcast, slot: 0 },
                            ),
                            ..g1
                        },
                        nn,
                        ckind,
                    )
                },
            }
        },
        None => (g1, s.cur, s.kind),
    };
    match first_match(g2.edges, 0, coalesce_pred(g2, cur2, op.identifier, is_source, cval)) {
        Some(j) => {
            let t = g2.edges[j].dst;
            let kind3 = match g2.nodes[t].first_output_kind() {
                Some(k) => if k != DataKind::Any {
                    k
                } else {
                    kind2
                },
                None => kind2,
            };
            PathState { g: g2, cur: t, kind: kind3, result: s.result.push(t) }
        },
        None => {
            let nn = g2.nodes.len() as int;
            let g3 = GraphModel {
                nodes: g2.nodes.push(NodeModel::Op(op)),
                edges: g2.edges.push(EdgeModel { src: cur2, dst: nn, art: bcast, slot: 0 }),
                ..g2
            };
            let kind3 = if op.output_kinds.len() > 0 && op.output_kinds[0] != DataKind::Any {
                op.output_kinds[0]
            } else {
                kind2
            };
            PathState { g: g3, cur: nn, kind: kind3, result: s.result.push(nn) }
        },
    }
}

/// Run the steps for the remaining operations; `next_idx` is the absolute
/// position of the first of them in the recipe.
pub open spec fn run_ops(
    s: PathState,
    items: Seq<(Option<Seq<char>>, OpDescModel)>,
    next_idx: int,
    src_name: Seq<char>,
) -> PathState
    decreases items.len(),
{
    if items.len() == 0 {
        s
    } else {
        run_ops(
            step_op(s, items[0].0, items[0].1, next_idx, src_name),
            items.drop_first(),
            next_idx + 1,
            src_name,
        )
    }
}

/// The terminal sink handling: the sink filename becomes the
/// authoritative artifact on every edge leaving the cursor, a fresh Sink
/// node consumes it at slot 0, and the cursor is recorded as the target's
/// producer.
pub open spec fn finish_path(g: GraphModel, cur: int, sink_name: Seq<char>) -> GraphModel {
    let fid = g.arts.len() as int;
    let arts2 = g.arts.push(ArtifactValue::File(sink_name));
    let edges2 = Seq::new(
        g.edges.len(),
        |i: int|
            if g.edges[i].src == cur {
                EdgeModel { art: fid, ..g.edges[i] }
            } else {
                g.edges[i]
            },
    );
    let sink_idx = g.nodes.len() as int;
    GraphModel {
        nodes: g.nodes.push(NodeModel::Sink),
        edges: edges2.push(EdgeModel { src: cur, dst: sink_idx, art: fid, slot: 0 }),
        arts: arts2,
        sinks: g.sinks.push(sink_idx),
        targets: target_upsert(g.targets, sink_name, cur),
    }
}

/// The model of the items handed to `add_path`.
pub open spec fn items_model(s: Seq<(Option<String>, OpDesc)>) -> Seq<
    (Option<Seq<char>>, OpDescModel),
> {
    s.map(
        |i: int, t: (Option<String>, OpDesc)|
            (
                match t.0 {
                    Some(f) => Some(f@),
                    None => None,
                },
                t.1@,
            ),
    )
}

/// The whole effect of one `add_path` call on the graph model, with the
/// recorded operation nodes.
pub open spec fn add_path_model(
    g: GraphModel,
    src_name: Seq<char>,
    items: Seq<(Option<Seq<char>>, OpDescModel)>,
    sink_name: Seq<char>,
) -> (GraphModel, Seq<int>) {
    let s = run_ops(
        PathState { g, cur: 0, kind: DataKind::Path, result: Seq::empty() },
        items,
        0,
        src_name,
    );
    (finish_path(s.g, s.cur, sink_name), s.result)
}

impl BuildGraph {
    /// The first edge leaving `n`, in insertion order, if any.
    #[verifier::loop_isolation(false)]
    fn first_out_edge(&self, n: usize) -> (r: Option<Edge>)
        ensures
            match first_match(self@.edges, 0, out_pred(n as int)) {
                Some(j) => r matches Some(e) && e@ == self@.edges[j],
                None => r is None,
            },
    {
        let ghost p: spec_fn(EdgeModel) -> bool = out_pred(n as int);
        let mut i: usize = 0;
        while i < self.edges.len()
            invariant
                i <= self.edges@.len(),
                first_match(self@.edges, 0, p) == first_match(self@.edges, i as int, p),
            decreases self.edges@.len() - i,
        {
            let e = self.edges[i];
            if e.src == n {
                proof {
                    assert(p(self@.edges[i as int]));
                    assert(first_match(self@.edges, i as int, p) == Some(i as int));
                }
                return Some(e);
            }
            proof {
                assert(!p(self@.edges[i as int]));
            }
            i += 1;
        }
        None
    }

    /// The first child of `n` (in edge insertion order) whose node reports
    /// the given short name, if any.
    #[verifier::loop_isolation(false)]
    fn find_child_by_shortname(&self, n: usize, sname: &String) -> (r: Option<usize>)
        requires
            self@.wf(),
        ensures
            match first_match(self@.edges, 0, conv_pred(self@, n as int, sname@)) {
                Some(j) => r matches Some(t) && t as int == self@.edges[j].dst,
                None => r is None,
            },
    {
        let ghost p: spec_fn(EdgeModel) -> bool = conv_pred(self@, n as int, sname@);
        let mut i: usize = 0;
        while i < self.edges.len()
            invariant
                i <= self.edges@.len(),
                first_match(self@.edges, 0, p) == first_match(self@.edges, i as int, p),
            decreases self.edges@.len() - i,
        {
            let e = self.edges[i];
            proof {
                assert(self@.edges[i as int] == e@);
                assert(0 <= self@.edges[i as int].src);
                assert(self@.nodes[e.dst as int] == self.nodes@[e.dst as int]@);
            }
            if e.src == n {
                let named = self.nodes[e.dst].shortname();
                if str_eq(named, sname.as_str()) {
                    proof {
                        assert(p(self@.edges[i as int]));
                        assert(first_match(self@.edges, i as int, p) == Some(i as int));
                    }
                    return Some(e.dst);
                }
            }
            proof {
                assert(!p(self@.edges[i as int]));
            }
            i += 1;
        }
        None
    }

    /// The first child of `n` (in edge insertion order) that is an
    /// operation with the given identifier — and, when `check_art` is set,
    /// whose incoming edge carries an artifact equal in contents to the
    /// cell behind `cand` — if any.
    #[verifier::loop_isolation(false)]
    fn find_coalesce_child(
        &self,
        n: usize,
        ident: &String,
        check_art: bool,
        cand: OperationOutput,
    ) -> (r: Option<usize>)
        requires
            self@.wf(),
            (cand.id as int) < self@.arts.len(),
        ensures
            match first_match(
                self@.edges,
                0,
                coalesce_pred(self@, n as int, ident@, check_art, self@.arts[cand.id as int]),
            ) {
                Some(j) => r matches Some(t) && t as int == self@.edges[j].dst,
                None => r is None,
            },
    {
        let ghost p: spec_fn(EdgeModel) -> bool = coalesce_pred(
            self@,
            n as int,
            ident@,
            check_art,
            self@.arts[cand.id as int],
        );
        let mut i: usize = 0;
        while i < self.edges.len()
            invariant
                i <= self.edges@.len(),
                first_match(self@.edges, 0, p) == first_match(self@.edges, i as int, p),
            decreases self.edges@.len() - i,
        {
            let e = self.edges[i];
            proof {
                assert(self@.edges[i as int] == e@);
                assert(0 <= self@.edges[i as int].src);
                assert(self@.nodes[e.dst as int] == self.nodes@[e.dst as int]@);
            }
            if e.src == n {
                let same_op = match &self.nodes[e.dst] {
                    BuildNode::Op(d) => d.identifier.eq(ident),
                    _ => false,
                };
                if same_op {
                    let art_ok = if check_art {
                        self.artifacts.outputs_equal(e.output, cand)
                    } else {
                        true
                    };
                    if art_ok {
                        proof {
                            assert(p(self@.edges[i as int]));
                            assert(first_match(self@.edges, i as int, p) == Some(i as int));
                        }
                        return Some(e.dst);
                    }
                }
            }
            proof {
                assert(!p(self@.edges[i as int]));
            }
            i += 1;
        }
        None
    }

    /// The declared output kind of the first slot of node `t`, if any.
    fn first_output_kind_of(&self, t: usize) -> (r: Option<DataKind>)
        requires
            t < self@.nodes.len(),
        ensures
            r == self@.nodes[t as int].first_output_kind(),
    {
        match &self.nodes[t] {
            BuildNode::Op(d) => {
                if d.output_kinds.len() > 0 {
                    Some(d.output_kinds[0])
                } else {
                    None
                }
            },
            _ => None,
        }
    }

    /// Append a node, returning its index.
    fn push_node(&mut self, n: BuildNode) -> (r: usize)
        ensures
            final(self)@ == (GraphModel { nodes: old(self)@.nodes.push(n@), ..old(self)@ }),
            r == old(self)@.nodes.len(),
    {
        let r = self.nodes.len();
        let ghost pre = self@;
        self.nodes.push(n);
        proof {
            assert(self@.nodes =~= pre.nodes.push(n@));
            assert(self@ =~= (GraphModel { nodes: pre.nodes.push(n@), ..pre }));
        }
        r
    }

    /// Append an edge.
    fn push_edge(&mut self, src: usize, dst: usize, art: OperationOutput, slot: usize)
        ensures
            final(self)@ == (GraphModel {
                edges: old(self)@.edges.push(
                    EdgeModel {
                        src: src as int,
                        dst: dst as int,
                        art: art.id as int,
                        slot: slot as int,
                    },
                ),
                ..old(self)@
            }),
    {
        let ghost pre = self@;
        self.edges.push(Edge { src, dst, output: art, output_slot: slot });
        proof {
            assert(self@.edges =~= pre.edges.push(
                EdgeModel {
                    src: src as int,
                    dst: dst as int,
                    art: art.id as int,
                    slot: slot as int,
                },
            ));
            assert(self@ =~= (GraphModel {
                edges: pre.edges.push(
                    EdgeModel {
                        src: src as int,
                        dst: dst as int,
                        art: art.id as int,
                        slot: slot as int,
                    },
                ),
                ..pre
            }));
        }
    }
}


impl BuildGraph {
    /// One `add_path` step: synthesize the incoming artifact, reuse or
    /// insert a converter on a kind mismatch, then coalesce with an
    /// equivalent existing child of the cursor or add a fresh node for
    /// the operation. Returns the new cursor (also the recorded operation
    /// node) and the data kind now flowing out of it.
    #[verifier::rlimit(50)]
    fn path_step(
        &mut self,
        cur: usize,
        kind: DataKind,
        over: Option<String>,
        op: OpDesc,
        idx: usize,
        source_filename: &str,
    ) -> (r: (usize, DataKind))
        requires
            old(self)@.wf(),
            cur < old(self)@.nodes.len(),
        ensures
            ({
                let s2 = step_op(
                    PathState { g: old(self)@, cur: cur as int, kind, result: Seq::empty() },
                    match over {
                        Some(f) => Some(f@),
                        None => None,
                    },
                    op@,
                    idx as int,
                    source_filename@,
                );
                &&& final(self)@ == s2.g
                &&& r.0 as int == s2.cur
                &&& r.1 == s2.kind
                &&& s2.result == seq![r.0 as int]
                &&& final(self)@.wf()
                &&& r.0 < final(self)@.nodes.len()
            }),
    {
        let ghost s0 = PathState { g: self@, cur: cur as int, kind, result: Seq::empty() };
        let ghost overm: Option<Seq<char>> = match &over {
            Some(f) => Some(f@),
            None => None,
        };
        let ghost cval = computed_value(overm, idx as int, source_filename@, kind);
        let ghost s2 = step_op(s0, overm, op@, idx as int, source_filename@);

        let computed_raw = match &over {
            Some(f) => RawOperationOutput::from_str(f.as_str()),
            None => {
                if idx == 0 {
                    RawOperationOutput::from_str(source_filename)
                } else {
                    match kind {
                        DataKind::Path => RawOperationOutput::TemporaryFile(None),
                        _ => RawOperationOutput::InMemoryBytes(Vec::new()),
                    }
                }
            },
        };
        proof {
            assert(computed_raw@ == cval);
        }
        let computed = self.artifacts.add_cell(computed_raw);
        let ghost g1 = GraphModel { arts: s0.g.arts.push(cval), ..s0.g };
        proof {
            assert(self@ =~= g1);
            assert(g1.wf());
        }

        let is_source = cur == 0;
        let bcast = if is_source {
            computed
        } else {
            match self.first_out_edge(cur) {
                Some(e) => e.output,
                None => computed,
            }
        };
        proof {
            lemma_first_match(g1.edges, 0, out_pred(cur as int));
            assert((bcast.id as int) < g1.arts.len());
        }

        let mut cur2: usize = cur;
        let mut kind2: DataKind = kind;
        let want = if op.input_kinds.len() > 0 {
            op.input_kinds[0]
        } else {
            DataKind::Any
        };
        if want != DataKind::Any && want != kind {
            let convopt: Option<(OpDesc, DataKind)> = if kind == DataKind::Path && want
                == DataKind::Bytes {
                Some((FileToBytes::descriptor(), DataKind::Bytes))
            } else if kind == DataKind::Bytes && want == DataKind::Path {
                Some((BytesToTempFile::descriptor(), DataKind::Path))
            } else {
                None
            };
            match convopt {
                Some((cdesc, ckind)) => {
                    match self.find_child_by_shortname(cur, &cdesc.shortname) {
                        Some(t) => {
                            proof {
                                lemma_first_match(
                                    g1.edges,
                                    0,
                                    conv_pred(g1, cur as int, cdesc.shortname@),
                                );
                            }
                            cur2 = t;
                            kind2 = ckind;
                        },
                        None => {
                            let nn = self.push_node(BuildNode::Op(cdesc));
                            self.push_edge(cur, nn, bcast, 0);
                            cur2 = nn;
                            kind2 = ckind;
                        },
                    }
                },
                None => {},
            }
        }
        let ghost g2 = self@;
        proof {
            assert(g2.wf());
            assert(cur2 < g2.nodes.len());
        }

        let k3pre: DataKind = kind2;
        match self.find_coalesce_child(cur2, &op.identifier, is_source, computed) {
            Some(t) => {
                proof {
                    lemma_first_match(
                        g2.edges,
                        0,
                        coalesce_pred(g2, cur2 as int, op.identifier@, is_source, cval),
                    );
                }
                let k3 = match self.first_output_kind_of(t) {
                    Some(k) => {
                        if k != DataKind::Any {
                            k
                        } else {
                            k3pre
                        }
                    },
                    None => k3pre,
                };
                proof {
                    assert(self@ =~= s2.g);
                }
                (t, k3)
            },
            None => {
                let k3 = if op.output_kinds.len() > 0 {
                    let k = op.output_kinds[0];
                    if k != DataKind::Any {
                        k
                    } else {
                        k3pre
                    }
                } else {
                    k3pre
                };
                let nn = self.push_node(BuildNode::Op(op));
                self.push_edge(cur2, nn, bcast, 0);
                proof {
                    assert(self@ =~= s2.g);
                    assert(self@.wf());
                }
                (nn, k3)
            },
        }
    }
}


/// Processing one more recipe item is one more step of the fold.
pub proof fn lemma_run_ops_snoc(
    s: PathState,
    items: Seq<(Option<Seq<char>>, OpDescModel)>,
    i: int,
    n0: int,
    src: Seq<char>,
)
    requires
        0 <= i < items.len(),
    ensures
        run_ops(s, items.take(i + 1), n0, src) == step_op(
            run_ops(s, items.take(i), n0, src),
            items[i].0,
            items[i].1,
            n0 + i,
            src,
        ),
    decreases i,
{
    if i == 0 {
        let one = items.take(1);
        assert(one.len() == 1);
        assert(one[0] == items[0]);
        assert(one.drop_first() =~= Seq::<(Option<Seq<char>>, OpDescModel)>::empty());
        assert(items.take(0) =~= Seq::<(Option<Seq<char>>, OpDescModel)>::empty());
        assert(run_ops(step_op(s, one[0].0, one[0].1, n0, src), one.drop_first(), n0 + 1, src)
            == step_op(s, items[0].0, items[0].1, n0, src));
    } else {
        let tail = items.drop_first();
        assert(items.take(i + 1).drop_first() =~= tail.take(i));
        assert(items.take(i).drop_first() =~= tail.take(i - 1));
        assert(items.take(i + 1)[0] == items[0]);
        assert(items.take(i)[0] == items[0]);
        let s1 = step_op(s, items[0].0, items[0].1, n0, src);
        lemma_run_ops_snoc(s1, tail, i - 1, n0 + 1, src);
        assert(tail[i - 1] == items[i]);
    }
}

impl BuildGraph {
    /// Replace the first target entry for `name`, or append a new one.
    #[verifier::loop_isolation(false)]
    fn upsert_target(&mut self, name: &str, v: usize)
        requires
            v < old(self)@.nodes.len(),
    ensures
            final(self)@ == (GraphModel {
                targets: target_upsert(old(self)@.targets, name@, v as int),
                ..old(self)@
            }),
    {
        let ghost pre = self@;
        let mut i: usize = 0;
        while i < self.target_nodes.len()
            invariant
                i <= self.target_nodes@.len(),
                self@ == pre,
                target_find(pre.targets, name@, 0) == target_find(pre.targets, name@, i as int),
            decreases self.target_nodes@.len() - i,
        {
            proof {
                assert(pre.targets[i as int]
                    == (self.target_nodes@[i as int].0@, self.target_nodes@[i as int].1 as int));
            }
            if str_eq(self.target_nodes[i].0.as_str(), name) {
                proof {
                    assert(target_find(pre.targets, name@, i as int) == Some(i as int));
                }
                let entry = (name.to_owned(), v);
                self.target_nodes[i] = entry;
                proof {
                    assert(self@.targets =~= pre.targets.update(i as int, (name@, v as int)));
                    assert(self@ =~= (GraphModel {
                        targets: target_upsert(pre.targets, name@, v as int),
                        ..pre
                    }));
                }
                return ;
            }
            i += 1;
        }
        proof {
            assert(target_find(pre.targets, name@, 0) is None);
        }
        let entry = (name.to_owned(), v);
        self.target_nodes.push(entry);
        proof {
            assert(self@.targets =~= pre.targets.push((name@, v as int)));
            assert(self@ =~= (GraphModel {
                targets: target_upsert(pre.targets, name@, v as int),
                ..pre
            }));
        }
    }

    /// The terminal sink handling of `add_path`: the sink filename
    /// becomes the authoritative artifact on every edge leaving the
    /// cursor, a fresh Sink node consumes it at slot 0, and the cursor is
    /// recorded as the producer of the target.
    #[verifier::rlimit(50)]
    #[verifier::loop_isolation(false)]
    fn finish_sink(&mut self, cur: usize, sink_filename: &str)
        requires
            old(self)@.wf(),
            cur < old(self)@.nodes.len(),
        ensures
            final(self)@ == finish_path(old(self)@, cur as int, sink_filename@),
            final(self)@.wf(),
    {
        let ghost pre = self@;
        let ghost fid = pre.arts.len() as int;
        let fa = self.artifacts.add_cell(RawOperationOutput::from_str(sink_filename));
        proof {
            assert(self@ =~= (GraphModel {
                arts: pre.arts.push(ArtifactValue::File(sink_filename@)),
                ..pre
            }));
        }
        let ghost edges2 = Seq::new(
            pre.edges.len(),
            |i: int|
                if pre.edges[i].src == cur as int {
                    EdgeModel { art: fid, ..pre.edges[i] }
                } else {
                    pre.edges[i]
                },
        );
        let mut i: usize = 0;
        while i < self.edges.len()
            invariant
                i <= self.edges@.len(),
                self@.edges.len() == pre.edges.len(),
                self.edges@.len() == pre.edges.len(),
                fa.id as int == fid,
                fid < self@.arts.len(),
                cur < self@.nodes.len(),
                self@.nodes == pre.nodes,
                self@.arts == pre.arts.push(ArtifactValue::File(sink_filename@)),
                self@.sinks == pre.sinks,
                self@.targets == pre.targets,
                forall|j: int| 0 <= j < i ==> #[trigger] self@.edges[j] == edges2[j],
                forall|j: int| i <= j < pre.edges.len() ==> #[trigger] self@.edges[j]
                    == pre.edges[j],
                self@.wf(),
            decreases self.edges@.len() - i,
        {
            let e = self.edges[i];
            proof {
                assert(self@.edges[i as int] == e@);
                assert(e@ == pre.edges[i as int]);
            }
            if e.src == cur {
                let e2 = Edge { output: fa, ..e };
                let ghost epre = self@.edges;
                self.edges[i] = e2;
                proof {
                    assert(self@.edges =~= epre.update(i as int, e2@));
                    assert(e2@ == (EdgeModel { art: fid, ..pre.edges[i as int] }));
                    assert(self@.edges[i as int] == edges2[i as int]);
                }
            } else {
                proof {
                    assert(self@.edges[i as int] == edges2[i as int]);
                }
            }
            i += 1;
        }
        proof {
            assert(self@.edges =~= edges2);
        }
        let sink_idx = self.push_node(BuildNode::Sink);
        self.push_edge(cur, sink_idx, fa, 0);
        let ghost mid = self@;
        self.sinks.push(sink_idx);
        proof {
            assert(self@.sinks =~= mid.sinks.push(sink_idx as int));
            assert(self@ =~= (GraphModel { sinks: mid.sinks.push(sink_idx as int), ..mid }));
        }
        self.upsert_target(sink_filename, cur);
        proof {
            assert(self@ =~= finish_path(pre, cur as int, sink_filename@));
            lemma_target_upsert_wf(pre.targets, sink_filename@, cur as int, self@.nodes.len() as int);
            assert(self@.wf());
        }
    }

    /// Construct a linear chain from the shared Source sentinel through
    /// the given operations to a fresh Sink for `sink_filename`.
    ///
    /// Each operation may carry an explicit input filename that overrides
    /// the artifact flowing into it. Equivalent nodes are coalesced and
    /// converters are inserted on kind mismatches, as `step_op` says;
    /// the returned list holds the node of each operation in recipe
    /// order (converters are not included).
    #[verifier::rlimit(50)]
    #[verifier::loop_isolation(false)]
    pub fn add_path(
        &mut self,
        source_filename: &str,
        operations: Vec<(Option<String>, OpDesc)>,
        sink_filename: &str,
    ) -> (r: Vec<usize>)
        requires
            old(self)@.wf(),
        ensures
            final(self)@ == add_path_model(
                old(self)@,
                source_filename@,
                items_model(operations@),
                sink_filename@,
            ).0,
            r@.map(|i: int, x: usize| x as int) == add_path_model(
                old(self)@,
                source_filename@,
                items_model(operations@),
                sink_filename@,
            ).1,
            final(self)@.wf(),
    {
        let ghost items = items_model(operations@);
        let ghost init = PathState {
            g: old(self)@,
            cur: 0,
            kind: DataKind::Path,
            result: Seq::empty(),
        };
        let mut cur: usize = 0;
        let mut kind = DataKind::Path;
        let mut result: Vec<usize> = Vec::new();
        let mut i: usize = 0;
        proof {
            assert(items.take(0) =~= Seq::<(Option<Seq<char>>, OpDescModel)>::empty());
            assert(result@.map(|k: int, x: usize| x as int) =~= Seq::<int>::empty());
        }
        while i < operations.len()
            invariant
                i <= operations@.len(),
                self@.wf(),
                cur < self@.nodes.len(),
                (PathState {
                    g: self@,
                    cur: cur as int,
                    kind,
                    result: result@.map(|k: int, x: usize| x as int),
                }) == run_ops(init, items.take(i as int), 0, source_filename@),
            decreases operations@.len() - i,
        {
            let over: Option<String> = match &operations[i].0 {
                Some(f) => Some(f.clone()),
                None => None,
            };
            let op = operations[i].1.clone();
            proof {
                lemma_run_ops_snoc(init, items, i as int, 0, source_filename@);
                assert(items[i as int] == (
                    match &operations@[i as int].0 {
                        Some(f) => Some(f@),
                        None => None,
                    },
                    operations@[i as int].1@,
                ));
            }
            let ghost rpre = result@;
            let (ncur, nkind) = self.path_step(cur, kind, over, op, i, source_filename);
            cur = ncur;
            kind = nkind;
            result.push(ncur);
            proof {
                assert(result@.map(|k: int, x: usize| x as int) =~= rpre.map(
                    |k: int, x: usize| x as int,
                ).push(ncur as int));
                assert(PathState {
                    g: self@,
                    cur: cur as int,
                    kind,
                    result: result@.map(|k: int, x: usize| x as int),
                } =~= run_ops(init, items.take(i + 1), 0, source_filename@));
            }
            i += 1;
        }
        proof {
            assert(items.take(i as int) =~= items);
        }
        self.finish_sink(cur, sink_filename);
        result
    }
}

/// Recording one more target keeps every entry's node in range.
pub proof fn lemma_target_upsert_wf(
    ts: Seq<(Seq<char>, int)>,
    name: Seq<char>,
    v: int,
    nlen: int,
)
    requires
        forall|i: int| 0 <= i < ts.len() ==> 0 <= (#[trigger] ts[i]).1 < nlen,
        0 <= v < nlen,
    ensures
        forall|i: int|
            0 <= i < target_upsert(ts, name, v).len() ==> 0 <= (#[trigger] target_upsert(
                ts,
                name,
                v,
            )[i]).1 < nlen,
{
    lemma_target_find(ts, name, 0);
}

/// What `target_find` promises about a hit.
pub proof fn lemma_target_find(ts: Seq<(Seq<char>, int)>, name: Seq<char>, i: int)
    requires
        0 <= i <= ts.len(),
    ensures
        match target_find(ts, name, i) {
            Some(j) => i <= j < ts.len() && ts[j].0 == name && forall|k: int|
                i <= k < j ==> (#[trigger] ts[k]).0 != name,
            None => forall|k: int| i <= k < ts.len() ==> (#[trigger] ts[k]).0 != name,
        },
    decreases ts.len() - i,
{
    if i < ts.len() && ts[i].0 != name {
        lemma_target_find(ts, name, i + 1);
    }
}


/// The predicate picking the edges from `a` to `b`.
pub open spec fn between_pred(a: int, b: int) -> spec_fn(EdgeModel) -> bool {
    |e: EdgeModel| e.src == a && e.dst == b
}

/// The predicate picking the sink edges of `producer` whose artifact is
/// the named target file: these are rerouted by `add_dependency`.
pub open spec fn sink_edge_pred(
    nodes: Seq<NodeModel>,
    arts: Seq<ArtifactValue>,
    producer: int,
    target: Seq<char>,
) -> spec_fn(EdgeModel) -> bool {
    |e: EdgeModel|
        e.src == producer && 0 <= e.dst < nodes.len() && nodes[e.dst] is Sink && 0 <= e.art
            < arts.len() && art_eq(arts[e.art], ArtifactValue::File(target))
}

/// The complement of `sink_edge_pred`: the edges `add_dependency` keeps.
pub open spec fn keep_edge_pred(
    nodes: Seq<NodeModel>,
    arts: Seq<ArtifactValue>,
    producer: int,
    target: Seq<char>,
) -> spec_fn(EdgeModel) -> bool {
    |e: EdgeModel| !(sink_edge_pred(nodes, arts, producer, target)(e))
}

/// Rerouted sink edges: each now leaves `dep` at slot `slot`, keeping its
/// sink and its artifact.
pub open spec fn reroute_edges(s: Seq<EdgeModel>, dep: int, slot: int) -> Seq<EdgeModel> {
    s.map(|i: int, e: EdgeModel| EdgeModel { src: dep, dst: e.dst, art: e.art, slot })
}

/// The whole effect of `add_dependency` on the graph model, or `None`
/// when the target was never added.
///
/// The producer of `target` gains an edge into `dep` at `slot`, carrying
/// the producer's broadcast artifact (or a fresh named file when the
/// producer has no edge yet); every sink edge of the producer for the
/// target is removed and replaced by an edge from `dep` to that sink,
/// carrying the same artifact at `slot`.
pub open spec fn add_dependency_model(
    g: GraphModel,
    target: Seq<char>,
    dep: int,
    slot: int,
) -> Option<GraphModel> {
    match target_find(g.targets, target, 0) {
        None => None,
        Some(ti) => {
            let producer = g.targets[ti].1;
            let (arts2, pout): (Seq<ArtifactValue>, int) = match first_match(
                g.edges,
                0,
                out_pred(producer),
            ) {
                Some(j) => (g.arts, g.edges[j].art),
                None => (g.arts.push(ArtifactValue::File(target)), g.arts.len() as int),
            };
            let e_new = EdgeModel { src: producer, dst: dep, art: pout, slot };
            let edges2 = match first_match(g.edges, 0, between_pred(producer, dep)) {
                Some(j) => g.edges.update(j, e_new),
                None => g.edges.push(e_new),
            };
            let moved = edges2.filter(sink_edge_pred(g.nodes, arts2, producer, target));
            let kept = edges2.filter(keep_edge_pred(g.nodes, arts2, producer, target));
            Some(
                GraphModel {
                    edges: kept + reroute_edges(moved, dep, slot),
                    arts: arts2,
                    ..g
                },
            )
        },
    }
}

impl BuildGraph {
    /// The producer node recorded for `name`, if any.
    #[verifier::loop_isolation(false)]
    fn lookup_target(&self, name: &str) -> (r: Option<usize>)
        ensures
            match target_find(self@.targets, name@, 0) {
                Some(i) => r matches Some(v) && v as int == self@.targets[i].1,
                None => r is None,
            },
    {
        let mut i: usize = 0;
        while i < self.target_nodes.len()
            invariant
                i <= self.target_nodes@.len(),
                target_find(self@.targets, name@, 0) == target_find(
                    self@.targets,
                    name@,
                    i as int,
                ),
            decreases self.target_nodes@.len() - i,
        {
            proof {
                assert(self@.targets[i as int] == (
                    self.target_nodes@[i as int].0@,
                    self.target_nodes@[i as int].1 as int,
                ));
            }
            if str_eq(self.target_nodes[i].0.as_str(), name) {
                proof {
                    assert(target_find(self@.targets, name@, i as int) == Some(i as int));
                }
                return Some(self.target_nodes[i].1);
            }
            i += 1;
        }
        None
    }

    /// Add an edge from `a` to `b`, or update the first existing one.
    #[verifier::loop_isolation(false)]
    fn update_edge(&mut self, a: usize, b: usize, art: OperationOutput, slot: usize)
        ensures
            ({
                let e_new = EdgeModel {
                    src: a as int,
                    dst: b as int,
                    art: art.id as int,
                    slot: slot as int,
                };
                final(self)@ == (GraphModel {
                    edges: match first_match(old(self)@.edges, 0, between_pred(a as int, b as int)) {
                        Some(j) => old(self)@.edges.update(j, e_new),
                        None => old(self)@.edges.push(e_new),
                    },
                    ..old(self)@
                })
            }),
    {
        let ghost pre = self@;
        let ghost p = between_pred(a as int, b as int);
        let ghost e_new = EdgeModel {
            src: a as int,
            dst: b as int,
            art: art.id as int,
            slot: slot as int,
        };
        let mut i: usize = 0;
        while i < self.edges.len()
            invariant
                i <= self.edges@.len(),
                self@ == pre,
                first_match(pre.edges, 0, p) == first_match(pre.edges, i as int, p),
            decreases self.edges@.len() - i,
        {
            let e = self.edges[i];
            proof {
                assert(pre.edges[i as int] == e@);
            }
            if e.src == a && e.dst == b {
                proof {
                    assert(first_match(pre.edges, i as int, p) == Some(i as int));
                }
                let ghost epre = self@.edges;
                self.edges[i] = Edge { src: a, dst: b, output: art, output_slot: slot };
                proof {
                    assert(self@.edges =~= epre.update(i as int, e_new));
                    assert(self@ =~= (GraphModel { edges: pre.edges.update(i as int, e_new), ..pre }));
                }
                return ;
            }
            i += 1;
        }
        proof {
            assert(first_match(pre.edges, 0, p) is None);
        }
        self.push_edge(a, b, art, slot);
    }

    /// Wire a cross-target dependency: the artifact produced for
    /// `target_name` must also flow into `dependent_node` at `input_slot`,
    /// and every sink edge for that target is rerouted to leave
    /// `dependent_node`, which now produces the target in its place.
    ///
    /// Fails with `InvalidRecipe` exactly when `target_name` was never
    /// added as a path's sink.
    #[verifier::rlimit(50)]
    #[verifier::loop_isolation(false)]
    pub fn add_dependency(
        &mut self,
        target_name: &str,
        dependent_node: usize,
        input_slot: usize,
    ) -> (r: Result<(), ApplicationError>)
        requires
            old(self)@.wf(),
            dependent_node < old(self)@.nodes.len(),
        ensures
            match add_dependency_model(
                old(self)@,
                target_name@,
                dependent_node as int,
                input_slot as int,
            ) {
                Some(m) => r is Ok && final(self)@ == m && final(self)@.wf(),
                None => {
                    &&& r matches Err(e) && e matches ApplicationError::InvalidRecipe(s) && s@
                        == "Dependency target '"@ + target_name@
                        + "' not found. Make sure it appears in the recipe before it's referenced."@
                    &&& final(self)@ == old(self)@
                },
            },
    {
        let ghost pre = self@;
        let producer = match self.lookup_target(target_name) {
            Some(v) => v,
            None => {
                let msg = String::from_str("Dependency target '").concat(target_name).concat(
                    "' not found. Make sure it appears in the recipe before it's referenced.",
                );
                return Err(ApplicationError::InvalidRecipe(msg));
            },
        };
        proof {
            lemma_target_find(pre.targets, target_name@, 0);
            assert(producer < pre.nodes.len());
        }
        let pout = match self.first_out_edge(producer) {
            Some(e) => {
                proof {
                    lemma_first_match(pre.edges, 0, out_pred(producer as int));
                }
                e.output
            },
            None => self.artifacts.add_cell(RawOperationOutput::from_str(target_name)),
        };
        let ghost arts2 = self@.arts;
        let ghost g1 = GraphModel { arts: arts2, ..pre };
        proof {
            assert(self@ =~= g1);
            assert((pout.id as int) < arts2.len());
        }
        self.update_edge(producer, dependent_node, pout, input_slot);
        let ghost edges2 = self@.edges;
        proof {
            assert(first_match(g1.edges, 0, between_pred(producer as int, dependent_node as int))
                == first_match(pre.edges, 0, between_pred(producer as int, dependent_node as int)));
            lemma_first_match(pre.edges, 0, between_pred(producer as int, dependent_node as int));
            assert(self@ =~= (GraphModel { edges: edges2, arts: arts2, ..pre }));
        }
        proof {
            assert forall|i2: int| 0 <= i2 < self@.edges.len() implies (0 <= (
            #[trigger] self@.edges[i2]).src < self@.nodes.len() && 0 <= self@.edges[i2].dst
                < self@.nodes.len() && 0 <= self@.edges[i2].art < self@.arts.len() && 0
                <= self@.edges[i2].slot) by {
                let e_new = EdgeModel {
                    src: producer as int,
                    dst: dependent_node as int,
                    art: pout.id as int,
                    slot: input_slot as int,
                };
                match first_match(pre.edges, 0, between_pred(producer as int, dependent_node as int)) {
                    Some(j) => {
                        assert(edges2 == pre.edges.update(j, e_new));
                        if i2 != j {
                            assert(edges2[i2] == pre.edges[i2]);
                            assert(0 <= pre.edges[i2].src);
                        }
                    },
                    None => {
                        assert(edges2 == pre.edges.push(e_new));
                        if i2 < pre.edges.len() {
                            assert(edges2[i2] == pre.edges[i2]);
                            assert(0 <= pre.edges[i2].src);
                        }
                    },
                }
            }
            assert(self@.wf());
        }
        let ghost sp = sink_edge_pred(pre.nodes, arts2, producer as int, target_name@);
        let ghost kp = keep_edge_pred(pre.nodes, arts2, producer as int, target_name@);
        let probe = RawOperationOutput::from_str(target_name);
        let mut kept: Vec<Edge> = Vec::new();
        let mut moved: Vec<Edge> = Vec::new();
        let mut i: usize = 0;
        proof {
            assert(edges2.take(0) =~= Seq::<EdgeModel>::empty());
            assert(kept@.map(|k: int, e: Edge| e@) =~= Seq::<EdgeModel>::empty());
            assert(moved@.map(|k: int, e: Edge| e@) =~= Seq::<EdgeModel>::empty());
        }
        while i < self.edges.len()
            invariant
                i <= self.edges@.len(),
                self@.edges == edges2,
                self@.edges.len() == self.edges@.len(),
                self@.nodes == pre.nodes,
                self@.arts == arts2,
                self@.sinks == pre.sinks,
                self@.targets == pre.targets,
                self@.wf(),
                probe@ == ArtifactValue::File(target_name@),
                kept@.map(|k: int, e: Edge| e@) == edges2.take(i as int).filter(kp),
                moved@.map(|k: int, e: Edge| e@) == edges2.take(i as int).filter(sp),
                forall|k: int| 0 <= k < kept@.len() ==> (0 <= (#[trigger] kept@[k])@.src
                    < pre.nodes.len() && 0 <= kept@[k]@.dst < pre.nodes.len() && 0 <= kept@[k]@.art
                    < arts2.len()),
                forall|k: int| 0 <= k < moved@.len() ==> (0 <= (#[trigger] moved@[k])@.dst
                    < pre.nodes.len() && 0 <= moved@[k]@.art < arts2.len()),
            decreases self.edges@.len() - i,
        {
            let e = self.edges[i];
            let ghost prefix = edges2.take(i as int);
            proof {
                assert(self@.edges[i as int] == e@);
                assert(0 <= self@.edges[i as int].src);
                assert(self@.edges.take(i as int + 1) =~= prefix.push(e@));
                lemma_filter_push(prefix, e@, kp);
                lemma_filter_push(prefix, e@, sp);
                assert(self@.nodes[e.dst as int] == self.nodes@[e.dst as int]@);
            }
            let is_sink = match &self.nodes[e.dst] {
                BuildNode::Sink => true,
                _ => false,
            };
            let is_match = e.src == producer && is_sink && self.artifacts.equals_raw(
                e.output,
                &probe,
            );
            proof {
                assert(is_match == sp(e@));
                assert(kp(e@) == !sp(e@));
            }
            if is_match {
                let ghost mpre = moved@;
                moved.push(e);
                proof {
                    assert(moved@.map(|k: int, x: Edge| x@) =~= mpre.map(
                        |k: int, x: Edge| x@,
                    ).push(e@));
                }
            } else {
                let ghost kpre = kept@;
                kept.push(e);
                proof {
                    assert(kept@.map(|k: int, x: Edge| x@) =~= kpre.map(
                        |k: int, x: Edge| x@,
                    ).push(e@));
                }
            }
            i += 1;
        }
        proof {
            assert(edges2.take(self.edges@.len() as int) =~= edges2);
        }
        let mut j: usize = 0;
        let ghost kn = kept@.len() as int;
        let ghost movedm = moved@.map(|k: int, e: Edge| e@);
        while j < moved.len()
            invariant
                j <= moved@.len(),
                movedm == moved@.map(|k: int, e: Edge| e@),
                movedm == edges2.filter(sp),
                kept@.len() == kn + j,
                kept@.map(|k: int, e: Edge| e@) == edges2.filter(kp) + reroute_edges(
                    movedm.take(j as int),
                    dependent_node as int,
                    input_slot as int,
                ),
                forall|k: int| 0 <= k < kept@.len() ==> (0 <= (#[trigger] kept@[k])@.src
                    < pre.nodes.len() && 0 <= kept@[k]@.dst < pre.nodes.len() && 0 <= kept@[k]@.art
                    < arts2.len()),
                forall|k: int| 0 <= k < moved@.len() ==> (0 <= (#[trigger] moved@[k])@.dst
                    < pre.nodes.len() && 0 <= moved@[k]@.art < arts2.len()),
            decreases moved@.len() - j,
        {
            let e = moved[j];
            let e2 = Edge {
                src: dependent_node,
                dst: e.dst,
                output: e.output,
                output_slot: input_slot,
            };
            let ghost kpre = kept@;
            kept.push(e2);
            proof {
                assert(moved@[j as int] == e);
                assert(movedm[j as int] == e@);
                assert(kept@.map(|k: int, x: Edge| x@) =~= kpre.map(|k: int, x: Edge| x@).push(
                    e2@,
                ));
                assert(movedm.take(j as int + 1) =~= movedm.take(j as int).push(e@));
                assert(reroute_edges(movedm.take(j as int + 1), dependent_node as int, input_slot as int)
                    =~= reroute_edges(movedm.take(j as int), dependent_node as int, input_slot as int).push(e2@));
            }
            j += 1;
        }
        proof {
            assert(movedm.take(moved@.len() as int) =~= movedm);
        }
        self.edges = kept;
        proof {
            let m = add_dependency_model(
                pre,
                target_name@,
                dependent_node as int,
                input_slot as int,
            );
            assert(self@ =~= m.unwrap());
            assert(self@.wf());
        }
        Ok(())
    }
}


/// The external nodes among the first `n`, in index order: those with
/// no outgoing edges (`outgoing`) or no incoming edges (`!outgoing`).
pub open spec fn externals_upto(g: GraphModel, n: int, outgoing: bool) -> Seq<int>
    decreases n,
{
    if n <= 0 {
        Seq::empty()
    } else {
        let rest = externals_upto(g, n - 1, outgoing);
        if (outgoing && g.out_edges(n - 1).len() == 0) || (!outgoing && g.in_edges(n - 1).len()
            == 0) {
            rest.push(n - 1)
        } else {
            rest
        }
    }
}

/// The named-file paths on the first `i` edges, in edge order: the files
/// whose parent directories must exist before execution starts.
pub open spec fn named_paths_upto(g: GraphModel, i: int) -> Seq<Seq<char>>
    decreases i,
{
    if i <= 0 {
        Seq::empty()
    } else {
        let rest = named_paths_upto(g, i - 1);
        match g.arts[g.edges[i - 1].art] {
            ArtifactValue::File(p) => rest.push(p),
            _ => rest,
        }
    }
}

impl BuildGraph {
    /// The path of every named-file artifact on an edge, in edge order.
    /// The caller creates each path's parent directory before the build
    /// starts; the graph itself touches no directory.
    #[verifier::loop_isolation(false)]
    pub fn named_file_paths(&self) -> (r: Vec<String>)
        requires
            self@.wf(),
        ensures
            r@.map(|i: int, s: String| s@) == named_paths_upto(self@, self@.edges.len() as int),
    {
        let mut r: Vec<String> = Vec::new();
        let mut i: usize = 0;
        proof {
            assert(r@.map(|k: int, s: String| s@) =~= Seq::<Seq<char>>::empty());
        }
        while i < self.edges.len()
            invariant
                i <= self.edges@.len(),
                r@.map(|k: int, s: String| s@) == named_paths_upto(self@, i as int),
            decreases self.edges@.len() - i,
        {
            let e = self.edges[i];
            proof {
                assert(self@.edges[i as int] == e@);
                assert(0 <= self@.edges[i as int].src);
            }
            match self.artifacts.cell_path(e.output) {
                Some(p) => {
                    let ghost rpre = r@;
                    r.push(p);
                    proof {
                        assert(r@.map(|k: int, s: String| s@) =~= rpre.map(
                            |k: int, s: String| s@,
                        ).push(p@));
                    }
                },
                None => {},
            }
            i += 1;
        }
        r
    }
}


/// Every element of a filtered sequence is an element of the sequence
/// that was filtered.
pub proof fn lemma_filter_sub<A>(s: Seq<A>, p: spec_fn(A) -> bool)
    ensures
        forall|i: int| 0 <= i < s.filter(p).len() ==> s.contains(#[trigger] s.filter(p)[i]),
    decreases s.len(),
{
    reveal(Seq::filter);
    if s.len() > 0 {
        lemma_filter_sub(s.drop_last(), p);
        assert forall|i: int| 0 <= i < s.filter(p).len() implies s.contains(
            #[trigger] s.filter(p)[i],
        ) by {
            let f = s.filter(p);
            let fd = s.drop_last().filter(p);
            if i < fd.len() {
                assert(fd[i] == f[i]);
                assert(s.drop_last().contains(fd[i]));
                let j = choose|j: int| 0 <= j < s.drop_last().len() && s.drop_last()[j] == fd[i];
                assert(s[j] == f[i]);
            } else {
                assert(p(s.last()));
                assert(f[i] == s.last());
                assert(s[s.len() - 1] == s.last());
            }
        }
    }
}

impl GraphModel {
    /// Every in-edge of `n` is one of the graph's edges, enters `n`, and
    /// respects the graph's index bounds.
    pub proof fn lemma_in_edges_props(self, n: int)
        requires
            self.wf(),
        ensures
            forall|i: int|
                0 <= i < self.in_edges(n).len() ==> ((#[trigger] self.in_edges(n)[i]).dst == n && 0
                    <= self.in_edges(n)[i].src < self.nodes.len() && self.edges.contains(
                    self.in_edges(n)[i],
                )),
    {
        lemma_filter_sub(self.edges, |e: EdgeModel| e.dst == n);
        self.edges.filter_lemma(|e: EdgeModel| e.dst == n);
        assert forall|i: int| 0 <= i < self.in_edges(n).len() implies ((#[trigger] self.in_edges(
            n,
        )[i]).dst == n && 0 <= self.in_edges(n)[i].src < self.nodes.len() && self.edges.contains(
            self.in_edges(n)[i],
        )) by {
            let x = self.in_edges(n)[i];
            assert(self.edges.contains(x));
            let j = choose|j: int| 0 <= j < self.edges.len() && self.edges[j] == x;
            assert(0 <= self.edges[j].src);
        }
    }

    /// Every edge of the graph that enters `n` appears among the
    /// in-edges of `n`.
    pub proof fn lemma_in_edges_complete(self, n: int, k: int)
        requires
            self.wf(),
            0 <= k < self.edges.len(),
            self.edges[k].dst == n,
        ensures
            self.in_edges(n).contains(self.edges[k]),
    {
        self.edges.filter_lemma(|e: EdgeModel| e.dst == n);
    }

}

} // verus!
