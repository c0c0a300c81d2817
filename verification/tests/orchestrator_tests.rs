use gftools_builder::artifact::ByteSource;
use gftools_builder::error::ApplicationError;
use gftools_builder::convert::{apply_read, ConvertStep, FileToBytes};
use gftools_builder::graph::BuildGraph;
use gftools_builder::operation::{BuildNode, DataKind, OpDesc};
use gftools_builder::orchestrator::{
    collect_inputs, collect_outputs, BuildState, Configuration, Context,
};

fn op(name: &str) -> OpDesc {
    OpDesc {
        shortname: name.to_string(),
        identifier: name.to_string(),
        description: name.to_string(),
        input_kinds: vec![DataKind::Any],
        output_kinds: vec![DataKind::Any],
        hidden: false,
    }
}

/// Drive a whole run to completion sequentially, recording how many
/// times each node started and the largest number of simultaneously
/// running nodes a parallel driver would have been allowed.
fn run_to_completion(g: &BuildGraph, job_limit: usize) -> (Vec<usize>, usize) {
    let mut ctx = Context::new(g, job_limit);
    ctx.trigger_reachable(g);
    let mut starts = vec![0usize; g.node_count()];
    let mut peak = 0usize;
    while let Some(n) = ctx.next_ready(g) {
        ctx.start(n);
        starts[n] += 1;
        if ctx.running_count() > peak {
            peak = ctx.running_count();
        }
        ctx.finish(n, true);
    }
    (starts, peak)
}

#[test]
fn every_reachable_node_executes_exactly_once() {
    let mut g = BuildGraph::new();
    g.add_path("S.glyphs", vec![(None, op("a")), (None, op("b"))], "T1.ttf");
    g.add_path("S.glyphs", vec![(None, op("a")), (None, op("c"))], "T2.ttf");
    let (starts, _) = run_to_completion(&g, 4);
    // Every node of this graph feeds a sink, so each ran exactly once —
    // the shared prefix node included.
    for n in 0..g.node_count() {
        assert_eq!(starts[n], 1, "node {} must run exactly once", n);
    }
}

#[test]
fn predecessors_finish_before_successors_start() {
    let mut g = BuildGraph::new();
    let r = g.add_path("S.glyphs", vec![(None, op("a")), (None, op("b")), (None, op("c"))], "T.ttf");
    let mut ctx = Context::new(&g, 2);
    ctx.trigger_reachable(&g);
    // b is not ready while a has not finished.
    assert!(!ctx.ready(&g, r[1]));
    // Run nodes in dependency order, checking readiness gating.
    let mut order = vec![];
    while let Some(n) = ctx.next_ready(&g) {
        let (preds, _) = collect_inputs(&g, n);
        for p in preds {
            assert!(matches!(ctx.state_of(p), BuildState::Succeeded));
        }
        ctx.start(n);
        ctx.finish(n, true);
        order.push(n);
    }
    // a before b before c in the observed order.
    let pos = |x: usize| order.iter().position(|&m| m == x).unwrap();
    assert!(pos(r[0]) < pos(r[1]));
    assert!(pos(r[1]) < pos(r[2]));
}

#[test]
fn job_limit_bounds_simultaneous_execution() {
    // Ten independent targets, one slow operation each.
    let mut g = BuildGraph::new();
    for i in 0..10 {
        let name = format!("slow{}", i);
        let sink = format!("out{}.ttf", i);
        let src = format!("src{}.glyphs", i);
        g.add_path(&src, vec![(None, op(&name))], &sink);
    }
    let mut ctx = Context::new(&g, 3);
    ctx.trigger_reachable(&g);
    // The shared Source sentinel runs first; the ten operations then
    // all become ready at once.
    let s = ctx.next_ready(&g).unwrap();
    ctx.start(s);
    ctx.finish(s, true);
    // Start as many as the scheduler allows at once: it must stop at 3.
    let mut active = vec![];
    while let Some(n) = ctx.next_ready(&g) {
        ctx.start(n);
        active.push(n);
    }
    assert_eq!(ctx.running_count(), 3);
    assert_eq!(active.len(), 3);
    // As each finishes, exactly one more may start.
    let done = active.remove(0);
    ctx.finish(done, true);
    assert_eq!(ctx.running_count(), 2);
    let n = ctx.next_ready(&g).unwrap();
    ctx.start(n);
    assert_eq!(ctx.running_count(), 3);
    assert!(ctx.next_ready(&g).is_none());
}

#[test]
fn a_failed_dependency_blocks_its_dependents() {
    let mut g = BuildGraph::new();
    let r = g.add_path("S.glyphs", vec![(None, op("a")), (None, op("b"))], "T.ttf");
    let mut ctx = Context::new(&g, 2);
    ctx.trigger_reachable(&g);
    // Source sentinel and then a run; a fails.
    let mut failed = false;
    while let Some(n) = ctx.next_ready(&g) {
        ctx.start(n);
        let ok = n != r[0];
        if !ok {
            failed = true;
        }
        ctx.finish(n, ok);
    }
    assert!(failed);
    // b never became ready, so it never started.
    assert!(matches!(ctx.state_of(r[1]), BuildState::Triggered));
}

#[test]
fn unreachable_nodes_never_run() {
    // A graph with one path; a second context where nothing was
    // registered runs nothing.
    let mut g = BuildGraph::new();
    g.add_path("S.glyphs", vec![(None, op("a"))], "T.ttf");
    let ctx = Context::new(&g, 2);
    // Without registration nothing is ready.
    assert!(ctx.next_ready(&g).is_none());
}

#[test]
fn outputs_are_collected_by_slot() {
    let mut g = BuildGraph::new();
    let r = g.add_path("S.glyphs", vec![(None, op("a")), (None, op("stat"))], "Reg.ttf");
    g.add_path("S2.glyphs", vec![(None, op("i"))], "Italic.ttf");
    g.add_dependency("Italic.ttf", r[1], 1).unwrap();
    // The stat node now produces Reg.ttf at slot 0 and Italic.ttf at
    // slot 1: positional slot integrity, index k holds slot k.
    let outs = collect_outputs(&g, r[1]);
    assert_eq!(outs.len(), 2);
    let store = g.artifacts();
    match store.to_bytes(outs[0]).unwrap() {
        ByteSource::FromFile(p) => assert_eq!(p, "Reg.ttf"),
        _ => panic!("slot 0 must be the Reg target"),
    }
    match store.to_bytes(outs[1]).unwrap() {
        ByteSource::FromFile(p) => assert_eq!(p, "Italic.ttf"),
        _ => panic!("slot 1 must be the Italic target"),
    }
    assert!(!store.outputs_equal(outs[0], outs[1]));
}

#[test]
fn run_result_reflects_failures() {
    let mut g = BuildGraph::new();
    let r = g.add_path("S.glyphs", vec![(None, op("a"))], "T.ttf");
    let mut ctx = Context::new(&g, 2);
    ctx.trigger_reachable(&g);
    while let Some(n) = ctx.next_ready(&g) {
        ctx.start(n);
        ctx.finish(n, true);
    }
    assert!(ctx.run_result().is_ok());

    let mut ctx2 = Context::new(&g, 2);
    ctx2.trigger_reachable(&g);
    while let Some(n) = ctx2.next_ready(&g) {
        ctx2.start(n);
        ctx2.finish(n, n != r[0]);
    }
    match ctx2.run_result() {
        Err(ApplicationError::Build) => {}
        _ => panic!("a failed node fails the run"),
    }
}

#[test]
fn the_first_recorded_error_is_propagated() {
    let mut g = BuildGraph::new();
    g.add_path("S.glyphs", vec![(None, op("a"))], "T.ttf");
    let mut ctx = Context::new(&g, 2);
    ctx.trigger_reachable(&g);
    let mut first = true;
    while let Some(n) = ctx.next_ready(&g) {
        ctx.start(n);
        if first {
            ctx.record_error(ApplicationError::Other("fontc crashed".to_string()));
            ctx.record_error(ApplicationError::MutexPoisoned);
            ctx.finish(n, false);
            first = false;
        } else {
            ctx.finish(n, true);
        }
    }
    // The first recorded error comes back out, not the later one and
    // not the bare Build default.
    match ctx.run_result() {
        Err(ApplicationError::Other(m)) => assert_eq!(m, "fontc crashed"),
        _ => panic!("the first recorded error must be propagated"),
    }
}

#[test]
fn configuration_hands_the_graph_back() {
    let mut g = BuildGraph::new();
    g.add_path("S.glyphs", vec![(None, op("a"))], "T.ttf");
    let nodes = g.node_count();
    let config = Configuration::new(g);
    assert_eq!(config.graph().node_count(), nodes);
}

#[test]
fn linear_chain_with_conversion_runs_end_to_end() {
    // Source file -> (inserted ToBytes converter) -> identity over
    // bytes -> out.bin. The driver below simulates the disk: reading
    // "in.txt" yields fixed bytes.
    let mut g = BuildGraph::new();
    let r = g.add_path(
        "in.txt",
        vec![(None, op_kinds_local("identity", DataKind::Bytes, DataKind::Bytes))],
        "out.bin",
    );
    let mut ctx = Context::new(&g, 2);
    ctx.trigger_reachable(&g);
    let mut written: Option<(String, Vec<u8>)> = None;
    while let Some(n) = ctx.next_ready(&g) {
        ctx.start(n);
        let shortname = match g.node_weight(n) {
            Some(BuildNode::Op(d)) => d.shortname.clone(),
            _ => String::new(),
        };
        let (_preds, inputs) = collect_inputs(&g, n);
        let outputs = collect_outputs(&g, n);
        if shortname == "ToBytes" {
            let step = FileToBytes::execute(g.artifacts_mut(), &inputs, &outputs).unwrap();
            match step {
                ConvertStep::ReadInto { path, dest } => {
                    assert_eq!(path, "in.txt");
                    apply_read(g.artifacts_mut(), dest, b"file contents".to_vec());
                }
                ConvertStep::Done => {}
                _ => panic!("unexpected converter step"),
            }
        } else if shortname == "identity" {
            let store = g.artifacts_mut();
            let bytes = match store.to_bytes(inputs[0]).unwrap() {
                ByteSource::Ready(b) => b,
                ByteSource::FromFile(_) => panic!("identity input should be in memory"),
            };
            match store.set_contents(outputs[0], bytes) {
                gftools_builder::artifact::IoAction::WriteFile { path, bytes } => {
                    written = Some((path, bytes));
                }
                gftools_builder::artifact::IoAction::Done => {}
            }
        }
        ctx.finish(n, true);
    }
    // Every node ran; the final write targets the sink file with the
    // source bytes, passed through in memory.
    for n in 0..g.node_count() {
        assert!(matches!(ctx.state_of(n), BuildState::Succeeded));
    }
    let _ = r;
    let (path, bytes) = written.expect("the identity step must publish to the named target");
    assert_eq!(path, "out.bin");
    assert_eq!(bytes, b"file contents".to_vec());
}

fn op_kinds_local(name: &str, input: DataKind, output: DataKind) -> OpDesc {
    OpDesc {
        shortname: name.to_string(),
        identifier: name.to_string(),
        description: name.to_string(),
        input_kinds: vec![input],
        output_kinds: vec![output],
        hidden: false,
    }
}
