use gftools_builder::artifact::ByteSource;
use gftools_builder::error::ApplicationError;
use gftools_builder::graph::BuildGraph;
use gftools_builder::operation::{BuildNode, DataKind, OpDesc};

fn op(name: &str) -> OpDesc {
    OpDesc {
        shortname: name.to_string(),
        identifier: name.to_string(),
        description: name.to_string(),
        input_kinds: vec![DataKind::Any],
        output_kinds: vec![DataKind::Any],
        hidden: false,
    }
}

fn op_kinds(name: &str, input: DataKind, output: DataKind) -> OpDesc {
    OpDesc {
        shortname: name.to_string(),
        identifier: name.to_string(),
        description: name.to_string(),
        input_kinds: vec![input],
        output_kinds: vec![output],
        hidden: false,
    }
}

#[test]
fn coalescing_shares_the_common_prefix_node() {
    // S -> A -> B -> T1 and S -> A -> C -> T2: exactly one A node.
    let mut g = BuildGraph::new();
    let r1 = g.add_path("Nunito.glyphs", vec![(None, op("glyphs2ufo")), (None, op("fontcA"))], "A.ttf");
    let r2 = g.add_path("Nunito.glyphs", vec![(None, op("glyphs2ufo")), (None, op("fontcB"))], "B.ttf");
    assert_eq!(r1[0], r2[0]);
    let mut a_nodes = 0;
    for n in 0..g.node_count() {
        if let Some(BuildNode::Op(d)) = g.node_weight(n) {
            if d.identifier == "glyphs2ufo" {
                a_nodes += 1;
            }
        }
    }
    assert_eq!(a_nodes, 1);
    // Broadcast: the shared node has two outgoing edges carrying the
    // same artifact cell.
    let outs = g.edges_directed(r1[0], true);
    assert_eq!(outs.len(), 2);
    assert_eq!(outs[0].output.id, outs[1].output.id);
    // Both fontc nodes read that same artifact as their input.
    let in_a = g.edges_directed(r1[1], false);
    let in_b = g.edges_directed(r2[1], false);
    assert_eq!(in_a[0].output.id, outs[0].output.id);
    assert_eq!(in_b[0].output.id, outs[0].output.id);
}

#[test]
fn distinct_sources_do_not_coalesce() {
    let mut g = BuildGraph::new();
    let r1 = g.add_path("One.glyphs", vec![(None, op("glyphs2ufo"))], "one.ttf");
    let r2 = g.add_path("Two.glyphs", vec![(None, op("glyphs2ufo"))], "two.ttf");
    assert_ne!(r1[0], r2[0]);
    let mut a_nodes = 0;
    for n in 0..g.node_count() {
        if let Some(BuildNode::Op(d)) = g.node_weight(n) {
            if d.identifier == "glyphs2ufo" {
                a_nodes += 1;
            }
        }
    }
    assert_eq!(a_nodes, 2);
}

#[test]
fn conversion_inserted_and_reused() {
    // fontc produces Bytes; fix wants Path: one ToTempFile converter
    // appears between them, and a second consumer reuses it.
    let mut g = BuildGraph::new();
    let r1 = g.add_path(
        "Nunito.glyphs",
        vec![
            (None, op_kinds("fontc", DataKind::Any, DataKind::Bytes)),
            (None, op_kinds("fixA", DataKind::Path, DataKind::Any)),
        ],
        "A.ttf",
    );
    let r2 = g.add_path(
        "Nunito.glyphs",
        vec![
            (None, op_kinds("fontc", DataKind::Any, DataKind::Bytes)),
            (None, op_kinds("fixB", DataKind::Path, DataKind::Any)),
        ],
        "B.ttf",
    );
    assert_eq!(r1[0], r2[0]);
    let mut converters = vec![];
    for n in 0..g.node_count() {
        if let Some(BuildNode::Op(d)) = g.node_weight(n) {
            if d.shortname == "ToTempFile" {
                converters.push(n);
            }
        }
    }
    assert_eq!(converters.len(), 1);
    let conv = converters[0];
    // The converter is fed by the shared fontc node and feeds both fix
    // nodes.
    let ins = g.edges_directed(conv, false);
    assert_eq!(ins.len(), 1);
    assert_eq!(ins[0].src, r1[0]);
    let outs = g.edges_directed(conv, true);
    assert_eq!(outs.len(), 2);
    let dsts: Vec<usize> = outs.iter().map(|e| e.dst).collect();
    assert!(dsts.contains(&r1[1]));
    assert!(dsts.contains(&r2[1]));
}

#[test]
fn sink_edge_carries_the_target_name() {
    let mut g = BuildGraph::new();
    let r = g.add_path("in.txt", vec![(None, op("copy"))], "out.bin");
    let sinks = g.sinks().clone();
    assert_eq!(sinks.len(), 1);
    let sink_in = g.edges_directed(sinks[0], false);
    assert_eq!(sink_in.len(), 1);
    assert_eq!(sink_in[0].src, r[0]);
    let store = g.artifacts();
    assert!(store.is_named_file(sink_in[0].output));
    match store.to_bytes(sink_in[0].output).unwrap() {
        ByteSource::FromFile(p) => assert_eq!(p, "out.bin"),
        _ => panic!("sink artifact should be the named target file"),
    }
}

#[test]
fn add_dependency_reroutes_the_sink() {
    // Scenario: Reg.ttf and Italic.ttf are built; a STAT-building step
    // on Reg's path also needs Italic and then produces it in place.
    let mut g = BuildGraph::new();
    let reg = g.add_path(
        "F.glyphs",
        vec![(None, op("fontcReg")), (None, op("buildStat"))],
        "Reg.ttf",
    );
    let italic = g.add_path("F.glyphs", vec![(None, op("fontcItalic"))], "Italic.ttf");
    let buildstat = reg[1];
    g.add_dependency("Italic.ttf", buildstat, 1).unwrap();

    // The Italic producer now feeds the BuildStat node at slot 1.
    let stat_ins = g.edges_directed(buildstat, false);
    assert!(stat_ins.iter().any(|e| e.src == italic[0] && e.output_slot == 1));
    // The Italic sink's incoming edge now comes from the BuildStat node.
    let italic_outs = g.edges_directed(italic[0], true);
    assert!(italic_outs.iter().all(|e| {
        match g.node_weight(e.dst) {
            Some(BuildNode::Sink) => false,
            _ => true,
        }
    }));
    let stat_outs = g.edges_directed(buildstat, true);
    let mut rerouted = 0;
    for e in stat_outs.iter() {
        if let Some(BuildNode::Sink) = g.node_weight(e.dst) {
            if let ByteSource::FromFile(p) = g.artifacts().to_bytes(e.output).unwrap() {
                if p == "Italic.ttf" {
                    rerouted += 1;
                    assert_eq!(e.output_slot, 1);
                }
            }
        }
    }
    assert_eq!(rerouted, 1);
}

#[test]
fn add_dependency_unknown_target_is_invalid_recipe() {
    let mut g = BuildGraph::new();
    let r = g.add_path("a.txt", vec![(None, op("x"))], "a.bin");
    let e = g.add_dependency("missing.ttf", r[0], 1).unwrap_err();
    match &e {
        ApplicationError::InvalidRecipe(msg) => {
            assert_eq!(
                msg,
                "Dependency target 'missing.ttf' not found. Make sure it appears in the recipe before it's referenced."
            );
        }
        _ => panic!("expected InvalidRecipe"),
    }
}

#[test]
fn named_file_paths_lists_every_named_edge() {
    let mut g = BuildGraph::new();
    g.add_path("dir/in.txt", vec![(None, op("x"))], "out/a.bin");
    let paths = g.named_file_paths();
    assert!(paths.contains(&"dir/in.txt".to_string()));
    assert!(paths.contains(&"out/a.bin".to_string()));
}

#[test]
fn input_override_wins_over_source_name() {
    let mut g = BuildGraph::new();
    let r = g.add_path(
        "ignored.glyphs",
        vec![(Some("actual.designspace".to_string()), op("fontmake"))],
        "out.ttf",
    );
    let ins = g.edges_directed(r[0], false);
    match g.artifacts().to_bytes(ins[0].output).unwrap() {
        ByteSource::FromFile(p) => assert_eq!(p, "actual.designspace"),
        _ => panic!("expected a named file input"),
    }
}
