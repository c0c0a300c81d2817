use crate::artifact::{art_eq, ArtifactValue};
use crate::convert::{bytes_to_temp_file_model, file_to_bytes_model};
use crate::graph::{
    add_path_model, finish_path, first_match, init_model, lemma_first_match, out_pred, run_ops,
    step_op, target_find, EdgeModel, GraphModel, PathState,
};
use crate::operation::{DataKind, NodeModel, OpDescModel};
use vstd::prelude::*;

verus! {

/// An operation descriptor that triggers no conversion: its first input
/// kind (if any) is the wildcard.
pub open spec fn plain_op(d: OpDescModel) -> bool {
    &&& d.input_kinds == seq![DataKind::Any]
    &&& d.output_kinds == seq![DataKind::Any]
}

/// The exact shape of a graph holding one path `Source -> a -> b -> T`:
/// what one `add_path` call builds from a fresh graph.
pub proof fn lemma_single_path_shape(
    a: OpDescModel,
    b: OpDescModel,
    src: Seq<char>,
    t1: Seq<char>,
)
    requires
        plain_op(a),
        plain_op(b),
    ensures
        ({
            let r = add_path_model(init_model(), src, seq![(None, a), (None, b)], t1);
            &&& r.1 == seq![1int, 2int]
            &&& r.0.nodes == seq![
                NodeModel::Source,
                NodeModel::Op(a),
                NodeModel::Op(b),
                NodeModel::Sink,
            ]
            &&& r.0.edges == seq![
                EdgeModel { src: 0, dst: 1, art: 0, slot: 0 },
                EdgeModel { src: 1, dst: 2, art: 1, slot: 0 },
                EdgeModel { src: 2, dst: 3, art: 2, slot: 0 },
            ]
            &&& r.0.arts == seq![
                ArtifactValue::File(src),
                ArtifactValue::Temp(None),
                ArtifactValue::File(t1),
            ]
            &&& r.0.sinks == seq![3int]
            &&& r.0.targets == seq![(t1, 2int)]
        }),
{
    reveal_with_fuel(first_match, 8);
    reveal_with_fuel(run_ops, 4);
    reveal_with_fuel(target_find, 4);
    let items = seq![(None::<Seq<char>>, a), (None::<Seq<char>>, b)];
    let s0 = PathState { g: init_model(), cur: 0, kind: DataKind::Path, result: Seq::empty() };
    let s1 = step_op(s0, None, a, 0, src);
    let s2 = step_op(s1, None, b, 1, src);
    assert(items.drop_first() =~= seq![(None::<Seq<char>>, b)]);
    assert(items.drop_first().drop_first() =~= Seq::<(Option<Seq<char>>, OpDescModel)>::empty());
    assert(run_ops(s0, items, 0, src) == s2);

    assert(s1.g.arts =~= seq![ArtifactValue::File(src)]);
    assert(s1.g.nodes =~= seq![NodeModel::Source, NodeModel::Op(a)]);
    assert(s1.g.edges =~= seq![EdgeModel { src: 0, dst: 1, art: 0, slot: 0 }]);
    assert(s1.cur == 1 && s1.kind == DataKind::Path);
    assert(s1.result =~= seq![1int]);

    assert(s2.g.arts =~= seq![ArtifactValue::File(src), ArtifactValue::Temp(None)]);
    assert(s2.g.nodes =~= seq![NodeModel::Source, NodeModel::Op(a), NodeModel::Op(b)]);
    assert(s2.g.edges =~= seq![
        EdgeModel { src: 0, dst: 1, art: 0, slot: 0 },
        EdgeModel { src: 1, dst: 2, art: 1, slot: 0 },
    ]);
    assert(s2.cur == 2 && s2.kind == DataKind::Path);
    assert(s2.result =~= seq![1int, 2int]);

    let gf = finish_path(s2.g, 2, t1);
    assert(gf.arts =~= seq![
        ArtifactValue::File(src),
        ArtifactValue::Temp(None),
        ArtifactValue::File(t1),
    ]);
    assert(gf.nodes =~= seq![
        NodeModel::Source,
        NodeModel::Op(a),
        NodeModel::Op(b),
        NodeModel::Sink,
    ]);
    assert(gf.edges =~= seq![
        EdgeModel { src: 0, dst: 1, art: 0, slot: 0 },
        EdgeModel { src: 1, dst: 2, art: 1, slot: 0 },
        EdgeModel { src: 2, dst: 3, art: 2, slot: 0 },
    ]);
    assert(gf.sinks =~= seq![3int]);
    assert(gf.targets =~= seq![(t1, 2int)]);
}

/// Coalescing: two paths from the same source file whose first operation
/// has the same identifier share that operation's node. After building
/// `S -> a -> b -> T1` and `S -> a2 -> c -> T2` (where `a2` names the
/// same operation as `a`), exactly one node carries `a`'s identifier; it
/// has exactly two outgoing edges, and both carry the same artifact —
/// the broadcast that scenario work shares.
pub proof fn lemma_coalescing(
    a: OpDescModel,
    b: OpDescModel,
    a2: OpDescModel,
    c: OpDescModel,
    src: Seq<char>,
    t1: Seq<char>,
    t2: Seq<char>,
)
    requires
        plain_op(a),
        plain_op(b),
        plain_op(a2),
        plain_op(c),
        a2.identifier == a.identifier,
        b.identifier != a.identifier,
        c.identifier != a.identifier,
        c.identifier != b.identifier,
    ensures
        ({
            let r1 = add_path_model(init_model(), src, seq![(None, a), (None, b)], t1);
            let r2 = add_path_model(r1.0, src, seq![(None, a2), (None, c)], t2);
            &&& r1.1 == seq![1int, 2int]
            &&& r2.1 == seq![1int, 4int]
            &&& r2.1[0] == r1.1[0]
            &&& forall|m: int|
                0 <= m < r2.0.nodes.len() ==> ((#[trigger] r2.0.nodes[m]).is_op_with_identifier(
                    a.identifier,
                ) <==> m == 1)
            &&& r2.0.out_edges(1).len() == 2
            &&& r2.0.out_edges(1)[0].art == r2.0.out_edges(1)[1].art
        }),
{
    reveal_with_fuel(first_match, 8);
    reveal_with_fuel(run_ops, 4);
    reveal_with_fuel(target_find, 4);
    reveal_with_fuel(Seq::filter, 8);
    lemma_single_path_shape(a, b, src, t1);
    let r1 = add_path_model(init_model(), src, seq![(None, a), (None, b)], t1);
    let g1 = r1.0;
    let items = seq![(None::<Seq<char>>, a2), (None::<Seq<char>>, c)];
    let s0 = PathState { g: g1, cur: 0, kind: DataKind::Path, result: Seq::empty() };
    let sa = step_op(s0, None, a2, 0, src);
    let sc = step_op(sa, None, c, 1, src);
    assert(items.drop_first() =~= seq![(None::<Seq<char>>, c)]);
    assert(items.drop_first().drop_first() =~= Seq::<(Option<Seq<char>>, OpDescModel)>::empty());
    assert(run_ops(s0, items, 0, src) == sc);

    // The first step coalesces with node 1: the source's only child
    // carries `a`'s identifier and an equal artifact.
    assert(art_eq(g1.arts[0], ArtifactValue::File(src)));
    assert(g1.nodes[1].is_op_with_identifier(a2.identifier));
    assert(sa.cur == 1);
    assert(sa.kind == DataKind::Path);
    assert(sa.result =~= seq![1int]);
    assert(sa.g.nodes == g1.nodes);
    assert(sa.g.edges == g1.edges);
    assert(sa.g.arts =~= g1.arts.push(ArtifactValue::File(src)));

    // The second step hangs a fresh `c` node off node 1, reusing node
    // 1's broadcast artifact.
    assert(!sa.g.nodes[2].is_op_with_identifier(c.identifier));
    assert(sc.cur == 4);
    assert(sc.result =~= seq![1int, 4int]);
    assert(sc.g.nodes =~= g1.nodes.push(NodeModel::Op(c)));
    assert(sc.g.edges =~= g1.edges.push(EdgeModel { src: 1, dst: 4, art: 1, slot: 0 }));

    let gf = finish_path(sc.g, 4, t2);
    assert(gf.nodes =~= g1.nodes.push(NodeModel::Op(c)).push(NodeModel::Sink));
    assert(gf.edges =~= seq![
        EdgeModel { src: 0, dst: 1, art: 0, slot: 0 },
        EdgeModel { src: 1, dst: 2, art: 1, slot: 0 },
        EdgeModel { src: 2, dst: 3, art: 2, slot: 0 },
        EdgeModel { src: 1, dst: 4, art: 1, slot: 0 },
        EdgeModel { src: 4, dst: 5, art: 5, slot: 0 },
    ]);

    assert(gf.out_edges(1) =~= seq![
        EdgeModel { src: 1, dst: 2, art: 1, slot: 0 },
        EdgeModel { src: 1, dst: 4, art: 1, slot: 0 },
    ]);
}

/// Distinct sources: two paths whose first operation has the same
/// identifier but whose source files differ do not share that
/// operation's node. After `S1 -> a -> b -> T1` and `S2 -> a2 -> c ->
/// T2` with `S1 != S2`, the two recipes' first nodes differ, and both
/// carry `a`'s identifier.
pub proof fn lemma_distinct_sources(
    a: OpDescModel,
    b: OpDescModel,
    a2: OpDescModel,
    c: OpDescModel,
    src1: Seq<char>,
    src2: Seq<char>,
    t1: Seq<char>,
    t2: Seq<char>,
)
    requires
        plain_op(a),
        plain_op(b),
        plain_op(a2),
        plain_op(c),
        a2.identifier == a.identifier,
        src1 != src2,
    ensures
        ({
            let r1 = add_path_model(init_model(), src1, seq![(None, a), (None, b)], t1);
            let r2 = add_path_model(r1.0, src2, seq![(None, a2), (None, c)], t2);
            &&& r1.1[0] == 1
            &&& r2.1[0] == 4
            &&& r2.1[0] != r1.1[0]
            &&& r2.0.nodes[1].is_op_with_identifier(a.identifier)
            &&& r2.0.nodes[4].is_op_with_identifier(a.identifier)
            &&& r2.0.edges[0] == (EdgeModel { src: 0, dst: 1, art: 0, slot: 0 })
            &&& r2.0.edges[3] == (EdgeModel { src: 0, dst: 4, art: 3, slot: 0 })
            &&& r2.0.arts[0] == ArtifactValue::File(src1)
            &&& r2.0.arts[3] == ArtifactValue::File(src2)
        }),
{
    reveal_with_fuel(first_match, 8);
    reveal_with_fuel(run_ops, 4);
    reveal_with_fuel(target_find, 4);
    lemma_single_path_shape(a, b, src1, t1);
    let r1 = add_path_model(init_model(), src1, seq![(None, a), (None, b)], t1);
    let g1 = r1.0;
    let items = seq![(None::<Seq<char>>, a2), (None::<Seq<char>>, c)];
    let s0 = PathState { g: g1, cur: 0, kind: DataKind::Path, result: Seq::empty() };
    let sa = step_op(s0, None, a2, 0, src2);
    let sc = step_op(sa, None, c, 1, src2);
    assert(items.drop_first() =~= seq![(None::<Seq<char>>, c)]);
    assert(items.drop_first().drop_first() =~= Seq::<(Option<Seq<char>>, OpDescModel)>::empty());
    assert(run_ops(s0, items, 0, src2) == sc);

    // The source's only child carries an artifact for `src1`, not
    // `src2`, so no coalescing happens: a fresh node 4 is added.
    assert(!art_eq(g1.arts[0], ArtifactValue::File(src2)));
    assert(sa.cur == 4);
    assert(sa.result =~= seq![4int]);
    assert(sa.g.nodes =~= g1.nodes.push(NodeModel::Op(a2)));
    assert(sa.g.edges =~= g1.edges.push(EdgeModel { src: 0, dst: 4, art: 3, slot: 0 }));

    assert(sc.result =~= seq![4int, 5int]);
    let gf = finish_path(sc.g, sc.cur, t2);
    assert(gf.nodes[1] == NodeModel::Op(a));
    assert(gf.nodes[4] == NodeModel::Op(a2));

    // Each shares nothing: its own Source edge carries its own named
    // source file.
    assert(sc.g.edges[0] == (EdgeModel { src: 0, dst: 1, art: 0, slot: 0 }));
    assert(sc.g.edges[3] == (EdgeModel { src: 0, dst: 4, art: 3, slot: 0 }));
    assert(gf.edges[0] == (EdgeModel { src: 0, dst: 1, art: 0, slot: 0 }));
    assert(gf.edges[3] == (EdgeModel { src: 0, dst: 4, art: 3, slot: 0 }));
    assert(gf.arts[0] == ArtifactValue::File(src1));
    assert(gf.arts[3] == ArtifactValue::File(src2));
}


/// Conversion insertion: an operation that wants `Path` input appended
/// after a producer of `Bytes` gets exactly one `Bytes` to `Path`
/// converter between them, and a second such consumer on the same
/// producer reuses that converter instead of gaining another.
///
/// After `S -> f -> x -> T1` and `S -> f2 -> y -> T2` (where `f`
/// produces `Bytes`, `x` and `y` want `Path`, and `f2` names the same
/// operation as `f`), exactly one node is the `ToTempFile` converter; it
/// is fed by the shared `f` node alone and feeds both `x` and `y`, with
/// one artifact broadcast to both.
pub proof fn lemma_conversion_insertion(
    f: OpDescModel,
    x: OpDescModel,
    f2: OpDescModel,
    y: OpDescModel,
    src: Seq<char>,
    t1: Seq<char>,
    t2: Seq<char>,
)
    requires
        f.input_kinds == seq![DataKind::Any],
        f.output_kinds == seq![DataKind::Bytes],
        f2.input_kinds == seq![DataKind::Any],
        f2.identifier == f.identifier,
        x.input_kinds == seq![DataKind::Path],
        x.output_kinds == seq![DataKind::Any],
        y.input_kinds == seq![DataKind::Path],
        y.output_kinds == seq![DataKind::Any],
        y.identifier != x.identifier,
        f.shortname != "ToTempFile"@,
        x.shortname != "ToTempFile"@,
        y.shortname != "ToTempFile"@,
    ensures
        ({
            let r1 = add_path_model(init_model(), src, seq![(None, f), (None, x)], t1);
            let r2 = add_path_model(r1.0, src, seq![(None, f2), (None, y)], t2);
            &&& forall|m: int|
                0 <= m < r2.0.nodes.len() ==> ((#[trigger] r2.0.nodes[m]).shortname()
                    == "ToTempFile"@ <==> m == 2)
            &&& r2.0.nodes[2] == NodeModel::Op(bytes_to_temp_file_model())
            &&& r2.0.in_edges(2) == seq![EdgeModel { src: 1, dst: 2, art: 1, slot: 0 }]
            &&& r2.0.out_edges(2) == seq![
                EdgeModel { src: 2, dst: 3, art: 1, slot: 0 },
                EdgeModel { src: 2, dst: 5, art: 1, slot: 0 },
            ]
            &&& r1.1 == seq![1int, 3int]
            &&& r2.1 == seq![1int, 5int]
        }),
{
    reveal_with_fuel(first_match, 10);
    reveal_with_fuel(run_ops, 4);
    reveal_with_fuel(target_find, 4);
    reveal_with_fuel(Seq::filter, 10);
    reveal_strlit("Source");
    reveal_strlit("Sink");
    reveal_strlit("ToTempFile");
    assert("Source"@.len() == 6 && "Sink"@.len() == 4 && "ToTempFile"@.len() == 10);

    let items1 = seq![(None::<Seq<char>>, f), (None::<Seq<char>>, x)];
    let s0 = PathState { g: init_model(), cur: 0, kind: DataKind::Path, result: Seq::empty() };
    let s1 = step_op(s0, None, f, 0, src);
    let s2 = step_op(s1, None, x, 1, src);
    assert(items1.drop_first() =~= seq![(None::<Seq<char>>, x)]);
    assert(items1.drop_first().drop_first() =~= Seq::<(Option<Seq<char>>, OpDescModel)>::empty());
    assert(run_ops(s0, items1, 0, src) == s2);

    assert(s1.g.nodes =~= seq![NodeModel::Source, NodeModel::Op(f)]);
    assert(s1.g.edges =~= seq![EdgeModel { src: 0, dst: 1, art: 0, slot: 0 }]);
    assert(s1.g.arts =~= seq![ArtifactValue::File(src)]);
    assert(s1.cur == 1 && s1.kind == DataKind::Bytes);
    assert(s1.result =~= seq![1int]);

    let conv = bytes_to_temp_file_model();
    assert(s2.g.nodes =~= seq![
        NodeModel::Source,
        NodeModel::Op(f),
        NodeModel::Op(conv),
        NodeModel::Op(x),
    ]);
    assert(s2.g.edges =~= seq![
        EdgeModel { src: 0, dst: 1, art: 0, slot: 0 },
        EdgeModel { src: 1, dst: 2, art: 1, slot: 0 },
        EdgeModel { src: 2, dst: 3, art: 1, slot: 0 },
    ]);
    assert(s2.g.arts =~= seq![ArtifactValue::File(src), ArtifactValue::Bytes(Seq::empty())]);
    assert(s2.cur == 3 && s2.kind == DataKind::Path);
    assert(s2.result =~= seq![1int, 3int]);

    let g1 = finish_path(s2.g, 3, t1);
    assert(g1.nodes =~= seq![
        NodeModel::Source,
        NodeModel::Op(f),
        NodeModel::Op(conv),
        NodeModel::Op(x),
        NodeModel::Sink,
    ]);
    assert(g1.edges =~= seq![
        EdgeModel { src: 0, dst: 1, art: 0, slot: 0 },
        EdgeModel { src: 1, dst: 2, art: 1, slot: 0 },
        EdgeModel { src: 2, dst: 3, art: 1, slot: 0 },
        EdgeModel { src: 3, dst: 4, art: 2, slot: 0 },
    ]);
    assert(g1.arts =~= seq![
        ArtifactValue::File(src),
        ArtifactValue::Bytes(Seq::empty()),
        ArtifactValue::File(t1),
    ]);

    let items2 = seq![(None::<Seq<char>>, f2), (None::<Seq<char>>, y)];
    let s0b = PathState { g: g1, cur: 0, kind: DataKind::Path, result: Seq::empty() };
    let sf = step_op(s0b, None, f2, 0, src);
    let sy = step_op(sf, None, y, 1, src);
    assert(items2.drop_first() =~= seq![(None::<Seq<char>>, y)]);
    assert(items2.drop_first().drop_first() =~= Seq::<(Option<Seq<char>>, OpDescModel)>::empty());
    assert(run_ops(s0b, items2, 0, src) == sy);

    // The first step coalesces with the shared `f` node.
    assert(art_eq(g1.arts[0], ArtifactValue::File(src)));
    assert(sf.cur == 1 && sf.kind == DataKind::Bytes);
    assert(sf.result =~= seq![1int]);
    assert(sf.g.nodes == g1.nodes);
    assert(sf.g.edges == g1.edges);

    // The second step reuses the converter: node 1's child with the
    // converter's short name is node 2.
    assert(sf.g.nodes[2].shortname() == "ToTempFile"@);
    assert(sy.cur == 5);
    assert(sy.result =~= seq![1int, 5int]);
    assert(sy.g.nodes =~= g1.nodes.push(NodeModel::Op(y)));
    assert(sy.g.edges =~= g1.edges.push(EdgeModel { src: 2, dst: 5, art: 1, slot: 0 }));

    let g2 = finish_path(sy.g, 5, t2);
    assert(g2.nodes =~= g1.nodes.push(NodeModel::Op(y)).push(NodeModel::Sink));
    assert(g2.edges =~= seq![
        EdgeModel { src: 0, dst: 1, art: 0, slot: 0 },
        EdgeModel { src: 1, dst: 2, art: 1, slot: 0 },
        EdgeModel { src: 2, dst: 3, art: 1, slot: 0 },
        EdgeModel { src: 3, dst: 4, art: 2, slot: 0 },
        EdgeModel { src: 2, dst: 5, art: 1, slot: 0 },
        EdgeModel { src: 5, dst: 6, art: 5, slot: 0 },
    ]);

    assert(g2.in_edges(2) =~= seq![EdgeModel { src: 1, dst: 2, art: 1, slot: 0 }]);
    assert(g2.out_edges(2) =~= seq![
        EdgeModel { src: 2, dst: 3, art: 1, slot: 0 },
        EdgeModel { src: 2, dst: 5, art: 1, slot: 0 },
    ]);
    assert(g2.nodes[0].shortname() == "Source"@);
    assert(g2.nodes[4].shortname() == "Sink"@);
    assert(g2.nodes[6].shortname() == "Sink"@);
}

/// Conversion insertion, the other direction: an operation that wants
/// `Bytes` input appended after a producer of `Path` gets exactly one
/// `Path` to `Bytes` converter between them, and a second such consumer
/// on the same producer reuses it.
///
/// After `S -> f -> x -> T1` and `S -> f2 -> y -> T2` (where `f`
/// produces `Path`, `x` and `y` want `Bytes`, and `f2` names the same
/// operation as `f`), exactly one node is the `ToBytes` converter; it is
/// fed by the shared `f` node alone and feeds both `x` and `y`, with one
/// artifact broadcast to both.
pub proof fn lemma_conversion_insertion_to_bytes(
    f: OpDescModel,
    x: OpDescModel,
    f2: OpDescModel,
    y: OpDescModel,
    src: Seq<char>,
    t1: Seq<char>,
    t2: Seq<char>,
)
    requires
        f.input_kinds == seq![DataKind::Any],
        f.output_kinds == seq![DataKind::Path],
        f2.input_kinds == seq![DataKind::Any],
        f2.identifier == f.identifier,
        x.input_kinds == seq![DataKind::Bytes],
        x.output_kinds == seq![DataKind::Any],
        y.input_kinds == seq![DataKind::Bytes],
        y.output_kinds == seq![DataKind::Any],
        y.identifier != x.identifier,
        f.shortname != "ToBytes"@,
        x.shortname != "ToBytes"@,
        y.shortname != "ToBytes"@,
    ensures
        ({
            let r1 = add_path_model(init_model(), src, seq![(None, f), (None, x)], t1);
            let r2 = add_path_model(r1.0, src, seq![(None, f2), (None, y)], t2);
            &&& forall|m: int|
                0 <= m < r2.0.nodes.len() ==> ((#[trigger] r2.0.nodes[m]).shortname()
                    == "ToBytes"@ <==> m == 2)
            &&& r2.0.nodes[2] == NodeModel::Op(file_to_bytes_model())
            &&& r2.0.in_edges(2) == seq![EdgeModel { src: 1, dst: 2, art: 1, slot: 0 }]
            &&& r2.0.out_edges(2) == seq![
                EdgeModel { src: 2, dst: 3, art: 1, slot: 0 },
                EdgeModel { src: 2, dst: 5, art: 1, slot: 0 },
            ]
            &&& r1.1 == seq![1int, 3int]
            &&& r2.1 == seq![1int, 5int]
        }),
{
    reveal_with_fuel(first_match, 10);
    reveal_with_fuel(run_ops, 4);
    reveal_with_fuel(target_find, 4);
    reveal_with_fuel(Seq::filter, 10);
    reveal_strlit("Source");
    reveal_strlit("Sink");
    reveal_strlit("ToBytes");
    assert("Source"@.len() == 6 && "Sink"@.len() == 4 && "ToBytes"@.len() == 7);

    let items1 = seq![(None::<Seq<char>>, f), (None::<Seq<char>>, x)];
    let s0 = PathState { g: init_model(), cur: 0, kind: DataKind::Path, result: Seq::empty() };
    let s1 = step_op(s0, None, f, 0, src);
    let s2 = step_op(s1, None, x, 1, src);
    assert(items1.drop_first() =~= seq![(None::<Seq<char>>, x)]);
    assert(items1.drop_first().drop_first() =~= Seq::<(Option<Seq<char>>, OpDescModel)>::empty());
    assert(run_ops(s0, items1, 0, src) == s2);

    assert(s1.g.nodes =~= seq![NodeModel::Source, NodeModel::Op(f)]);
    assert(s1.g.edges =~= seq![EdgeModel { src: 0, dst: 1, art: 0, slot: 0 }]);
    assert(s1.g.arts =~= seq![ArtifactValue::File(src)]);
    assert(s1.cur == 1 && s1.kind == DataKind::Path);
    assert(s1.result =~= seq![1int]);

    let conv = file_to_bytes_model();
    assert(s2.g.nodes =~= seq![
        NodeModel::Source,
        NodeModel::Op(f),
        NodeModel::Op(conv),
        NodeModel::Op(x),
    ]);
    assert(s2.g.edges =~= seq![
        EdgeModel { src: 0, dst: 1, art: 0, slot: 0 },
        EdgeModel { src: 1, dst: 2, art: 1, slot: 0 },
        EdgeModel { src: 2, dst: 3, art: 1, slot: 0 },
    ]);
    assert(s2.g.arts =~= seq![ArtifactValue::File(src), ArtifactValue::Temp(None)]);
    assert(s2.cur == 3 && s2.kind == DataKind::Bytes);
    assert(s2.result =~= seq![1int, 3int]);

    let g1 = finish_path(s2.g, 3, t1);
    assert(g1.nodes =~= seq![
        NodeModel::Source,
        NodeModel::Op(f),
        NodeModel::Op(conv),
        NodeModel::Op(x),
        NodeModel::Sink,
    ]);
    assert(g1.edges =~= seq![
        EdgeModel { src: 0, dst: 1, art: 0, slot: 0 },
        EdgeModel { src: 1, dst: 2, art: 1, slot: 0 },
        EdgeModel { src: 2, dst: 3, art: 1, slot: 0 },
        EdgeModel { src: 3, dst: 4, art: 2, slot: 0 },
    ]);
    assert(g1.arts =~= seq![
        ArtifactValue::File(src),
        ArtifactValue::Temp(None),
        ArtifactValue::File(t1),
    ]);

    let items2 = seq![(None::<Seq<char>>, f2), (None::<Seq<char>>, y)];
    let s0b = PathState { g: g1, cur: 0, kind: DataKind::Path, result: Seq::empty() };
    let sf = step_op(s0b, None, f2, 0, src);
    let sy = step_op(sf, None, y, 1, src);
    assert(items2.drop_first() =~= seq![(None::<Seq<char>>, y)]);
    assert(items2.drop_first().drop_first() =~= Seq::<(Option<Seq<char>>, OpDescModel)>::empty());
    assert(run_ops(s0b, items2, 0, src) == sy);

    // The first step coalesces with the shared `f` node.
    assert(art_eq(g1.arts[0], ArtifactValue::File(src)));
    assert(sf.cur == 1 && sf.kind == DataKind::Path);
    assert(sf.result =~= seq![1int]);
    assert(sf.g.nodes == g1.nodes);
    assert(sf.g.edges == g1.edges);

    // The second step reuses the converter: node 1's child with the
    // converter's short name is node 2.
    assert(sf.g.nodes[2].shortname() == "ToBytes"@);
    assert(sy.cur == 5);
    assert(sy.result =~= seq![1int, 5int]);
    assert(sy.g.nodes =~= g1.nodes.push(NodeModel::Op(y)));
    assert(sy.g.edges =~= g1.edges.push(EdgeModel { src: 2, dst: 5, art: 1, slot: 0 }));

    let g2 = finish_path(sy.g, 5, t2);
    assert(g2.nodes =~= g1.nodes.push(NodeModel::Op(y)).push(NodeModel::Sink));
    assert(g2.edges =~= seq![
        EdgeModel { src: 0, dst: 1, art: 0, slot: 0 },
        EdgeModel { src: 1, dst: 2, art: 1, slot: 0 },
        EdgeModel { src: 2, dst: 3, art: 1, slot: 0 },
        EdgeModel { src: 3, dst: 4, art: 2, slot: 0 },
        EdgeModel { src: 2, dst: 5, art: 1, slot: 0 },
        EdgeModel { src: 5, dst: 6, art: 5, slot: 0 },
    ]);

    assert(g2.in_edges(2) =~= seq![EdgeModel { src: 1, dst: 2, art: 1, slot: 0 }]);
    assert(g2.out_edges(2) =~= seq![
        EdgeModel { src: 2, dst: 3, art: 1, slot: 0 },
        EdgeModel { src: 2, dst: 5, art: 1, slot: 0 },
    ]);
    assert(g2.nodes[0].shortname() == "Source"@);
    assert(g2.nodes[4].shortname() == "Sink"@);
    assert(g2.nodes[6].shortname() == "Sink"@);
}

/// Broadcast: all edges leaving one non-Source node carry the same
/// artifact cell.
pub open spec fn broadcast_ok(g: GraphModel) -> bool {
    forall|i: int, j: int|
        #![trigger g.edges[i], g.edges[j]]
        0 <= i < g.edges.len() && 0 <= j < g.edges.len() && g.edges[i].src == g.edges[j].src
            && g.edges[i].src != 0 ==> g.edges[i].art == g.edges[j].art
}

/// One `add_path` step preserves the broadcast property when the
/// operation triggers no conversion (its first input kind, if any, is
/// the wildcard).
proof fn lemma_step_broadcast(
    s: PathState,
    over: Option<Seq<char>>,
    op: OpDescModel,
    idx: int,
    src: Seq<char>,
)
    requires
        broadcast_ok(s.g),
        op.input_kinds.len() == 0 || op.input_kinds[0] == DataKind::Any,
    ensures
        broadcast_ok(step_op(s, over, op, idx, src).g),
{
    let s2 = step_op(s, over, op, idx, src);
    let cval = crate::graph::computed_value(over, idx, src, s.kind);
    let g1 = GraphModel { arts: s.g.arts.push(cval), ..s.g };
    let cid = s.g.arts.len() as int;
    match first_match(
        g1.edges,
        0,
        crate::graph::coalesce_pred(g1, s.cur, op.identifier, s.cur == 0, cval),
    ) {
        Some(_) => {
            assert(s2.g.edges == s.g.edges);
        },
        None => {
            let bcast: int = if s.cur == 0 {
                cid
            } else {
                match first_match(g1.edges, 0, out_pred(s.cur)) {
                    Some(j) => g1.edges[j].art,
                    None => cid,
                }
            };
            let nn = g1.nodes.len() as int;
            let e_new = EdgeModel { src: s.cur, dst: nn, art: bcast, slot: 0 };
            assert(s2.g.edges == s.g.edges.push(e_new));
            lemma_first_match(g1.edges, 0, out_pred(s.cur));
            assert forall|i: int, j: int|
                #![trigger s2.g.edges[i], s2.g.edges[j]]
                0 <= i < s2.g.edges.len() && 0 <= j < s2.g.edges.len() && s2.g.edges[i].src
                    == s2.g.edges[j].src && s2.g.edges[i].src != 0 implies s2.g.edges[i].art
                == s2.g.edges[j].art by {
                let n = s.g.edges.len() as int;
                if i < n && j < n {
                    assert(s.g.edges[i].art == s.g.edges[j].art);
                } else if i == n && j < n {
                    assert(s.g.edges[j].src == s.cur && s.cur != 0);
                    let j0 = choose|j0: int|
                        first_match(g1.edges, 0, out_pred(s.cur)) == Some(j0);
                    assert(out_pred(s.cur)(g1.edges[j0]));
                    assert(s.g.edges[j].art == s.g.edges[j0].art);
                } else if j == n && i < n {
                    assert(s.g.edges[i].src == s.cur && s.cur != 0);
                    let j0 = choose|j0: int|
                        first_match(g1.edges, 0, out_pred(s.cur)) == Some(j0);
                    assert(out_pred(s.cur)(g1.edges[j0]));
                    assert(s.g.edges[i].art == s.g.edges[j0].art);
                }
            }
        },
    }
}

/// A whole run of conversion-free steps preserves the broadcast
/// property.
proof fn lemma_run_broadcast(
    s: PathState,
    items: Seq<(Option<Seq<char>>, OpDescModel)>,
    n0: int,
    src: Seq<char>,
)
    requires
        broadcast_ok(s.g),
        forall|i: int|
            0 <= i < items.len() ==> ((#[trigger] items[i]).1.input_kinds.len() == 0
                || items[i].1.input_kinds[0] == DataKind::Any),
    ensures
        broadcast_ok(run_ops(s, items, n0, src).g),
    decreases items.len(),
{
    if items.len() > 0 {
        lemma_step_broadcast(s, items[0].0, items[0].1, n0, src);
        lemma_run_broadcast(step_op(s, items[0].0, items[0].1, n0, src), items.drop_first(), n0
            + 1, src);
    }
}

/// The terminal sink handling preserves the broadcast property: every
/// edge leaving the cursor is rewritten to the one sink artifact.
proof fn lemma_finish_broadcast(g: GraphModel, cur: int, sink: Seq<char>)
    requires
        broadcast_ok(g),
    ensures
        broadcast_ok(finish_path(g, cur, sink)),
{
    let gf = finish_path(g, cur, sink);
    let fid = g.arts.len() as int;
    assert forall|i: int, j: int|
        #![trigger gf.edges[i], gf.edges[j]]
        0 <= i < gf.edges.len() && 0 <= j < gf.edges.len() && gf.edges[i].src == gf.edges[j].src
            && gf.edges[i].src != 0 implies gf.edges[i].art == gf.edges[j].art by {
        let n = g.edges.len() as int;
        if i < n && j < n {
            if g.edges[i].src == cur {
                assert(gf.edges[i].art == fid && gf.edges[j].art == fid);
            } else {
                assert(gf.edges[i] == g.edges[i] && gf.edges[j] == g.edges[j]);
            }
        } else if i == n && j < n {
            assert(gf.edges[i].src == cur);
            assert(gf.edges[j].art == fid);
        } else if j == n && i < n {
            assert(gf.edges[j].src == cur);
            assert(gf.edges[i].art == fid);
        }
    }
}

/// Broadcast: `add_path` keeps the property that every edge leaving one
/// non-Source node carries the same artifact cell, provided none of the
/// appended operations triggers a conversion. A fresh graph has the
/// property trivially, so every graph built from such paths has it.
///
/// (A reused converter can break the global form of the property when
/// its producer is later re-finalized as another target's producer, so
/// conversion-triggering recipes are left out here.)
pub proof fn lemma_add_path_broadcast(
    g: GraphModel,
    src: Seq<char>,
    items: Seq<(Option<Seq<char>>, OpDescModel)>,
    sink: Seq<char>,
)
    requires
        broadcast_ok(g),
        forall|i: int|
            0 <= i < items.len() ==> ((#[trigger] items[i]).1.input_kinds.len() == 0
                || items[i].1.input_kinds[0] == DataKind::Any),
    ensures
        broadcast_ok(add_path_model(g, src, items, sink).0),
{
    let s0 = PathState { g, cur: 0, kind: DataKind::Path, result: Seq::empty() };
    lemma_run_broadcast(s0, items, 0, src);
    let s = run_ops(s0, items, 0, src);
    lemma_finish_broadcast(s.g, s.cur, sink);
}

} // verus!
