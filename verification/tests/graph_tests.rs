use shadergarden::NodeId;
use shadergarden::graph::RenderStep;
use shadergarden::graph::ShaderGraph;
use shadergarden::node::Buffer;
use shadergarden::node::ComputeNode;
use shadergarden::node::NodeKind;
use shadergarden::node::TexHandle;
use shadergarden::uniform::Uniform;
use shadergarden::uniform::UniformMap;

fn supplied(id: u64) -> TexHandle {
    TexHandle::Supplied { id }
}

fn no_compute(_fid: u64, _uniforms: UniformMap) -> Uniform {
    Uniform::Number(0)
}

#[test]
fn empty_graph_forward_is_empty() {
    let mut g = ShaderGraph::new();
    let (outs, steps) = g.forward(&vec![], 0, no_compute);
    assert!(outs.is_empty());
    assert!(steps.is_empty());
}

#[test]
fn input_passthrough_forward() {
    // One input marked as output: the pass returns exactly the supplied
    // resource under the input's id.
    let mut g = ShaderGraph::new();
    let a = g.add_input();
    assert_eq!(a, NodeId(0));
    assert_eq!(g.mark_output(a), Some(a));
    let (outs, steps) = g.forward(&vec![(a, supplied(7))], 0, no_compute);
    assert_eq!(outs.len(), 1);
    assert_eq!(outs[0], (a, supplied(7)));
    assert!(steps.is_empty());
}

#[test]
fn deps_ok_rejects_forward_reference() {
    let mut g = ShaderGraph::new();
    let a = g.add_input();
    assert!(g.deps_ok(&vec![a]));
    assert!(!g.deps_ok(&vec![NodeId(1)]));
    assert!(!g.deps_ok(&vec![a, NodeId(5)]));
    // The node table is untouched by the check.
    assert_eq!(g.nodes.len(), 1);
}

#[test]
fn try_add_node_refuses_forward_reference_unchanged() {
    // Topological safety, decided at run time: a node with a forward or
    // self reference is refused and every table is exactly as it was.
    let mut g = ShaderGraph::new();
    let a = g.add_input();
    let bad = shadergarden::node::ShaderNode {
        shader: "src".to_string(),
        inputs: vec![NodeId(5)],
        width: 4,
        height: 4,
        buffer: Buffer::Single(TexHandle::Owned { node: 1, back: false }),
    };
    assert_eq!(g.try_add_node(Some(NodeKind::Shader(bad))), None);
    assert_eq!(g.nodes.len(), 1);
    assert_eq!(g.get_inputs(), &vec![a]);
    assert!(g.get_outputs().is_empty());
    let good = shadergarden::node::ShaderNode {
        shader: "src".to_string(),
        inputs: vec![a],
        width: 4,
        height: 4,
        buffer: Buffer::Single(TexHandle::Owned { node: 1, back: false }),
    };
    assert_eq!(g.try_add_node(Some(NodeKind::Shader(good))), Some(NodeId(1)));
    assert_eq!(g.nodes.len(), 2);
}

#[test]
fn add_shader_allocates_single_buffer() {
    let mut g = ShaderGraph::new();
    let a = g.add_input();
    let s = g.add_shader("void main(){}", vec![a], 64, 32).unwrap();
    assert_eq!(s, NodeId(1));
    match &g.nodes[1] {
        Some(NodeKind::Shader(node)) => {
            assert_eq!(node.shader, "void main(){}");
            assert_eq!(node.inputs, vec![a]);
            assert_eq!(node.width, 64);
            assert_eq!(node.height, 32);
            assert_eq!(node.buffer, Buffer::Single(TexHandle::Owned { node: 1, back: false }));
        },
        other => panic!("expected a shader node, found {:?}", other),
    }
}

#[test]
fn mark_output_is_idempotent_and_checks_eligibility() {
    let mut g = ShaderGraph::new();
    let a = g.add_input();
    let s = g.add_shader("src", vec![a], 8, 8).unwrap();
    let c = g
        .add_compute(ComputeNode { func: 0, input: s, output: Uniform::Number(0) })
        .unwrap();
    assert_eq!(g.mark_output(s), Some(s));
    assert_eq!(g.mark_output(s), Some(s));
    assert_eq!(g.get_outputs().len(), 1);
    // A compute node produces no pixel resource: not an eligible output.
    assert_eq!(g.mark_output(c), None);
    assert_eq!(g.get_outputs().len(), 1);
}

#[test]
fn forward_determinism_for_single_buffered_nodes() {
    // Two consecutive passes with the same inputs return the same
    // resource identity for a non-feedback shader output.
    let mut g = ShaderGraph::new();
    let a = g.add_input();
    let s = g.add_shader("src", vec![a], 8, 8).unwrap();
    g.mark_output(s);
    let input_map = vec![(a, supplied(3))];
    let (outs1, _) = g.forward(&input_map, 100, no_compute);
    let (outs2, _) = g.forward(&input_map, 100, no_compute);
    assert_eq!(outs1, outs2);
    assert_eq!(outs1[0].1, TexHandle::Owned { node: 1, back: false });
}

#[test]
fn feedback_swap_exposes_previous_frame() {
    // For a feedback node, the resource bound under "previous" on pass N
    // must be the render target of pass N-1.
    let mut g = ShaderGraph::new();
    let a = g.add_input();
    let s = g.add_rec_shader("src", vec![a], 8, 8).unwrap();
    g.mark_output(s);
    let input_map = vec![(a, supplied(3))];
    let (_, steps1) = g.forward(&input_map, 0, no_compute);
    let (_, steps2) = g.forward(&input_map, 0, no_compute);
    assert_eq!(steps1.len(), 1);
    assert_eq!(steps2.len(), 1);
    let target1 = steps1[0].target;
    let prev2 = steps2[0].uniforms.get("previous", 0).copied();
    assert_eq!(prev2, Some(Uniform::Texture(target1)));
    // And the swap alternates the two owned resources.
    assert_ne!(steps2[0].target, target1);
    let (_, steps3) = g.forward(&input_map, 0, no_compute);
    assert_eq!(steps3[0].target, target1);
}

#[test]
fn forward_binds_time_dependencies_and_resolution() {
    let mut g = ShaderGraph::new();
    let a = g.add_input();
    let s = g.add_shader("src", vec![a], 64, 32).unwrap();
    g.mark_output(s);
    let time_bits = 1.5f32.to_bits();
    let (_, steps) = g.forward(&vec![(a, supplied(9))], time_bits, no_compute);
    assert_eq!(steps.len(), 1);
    let step: &RenderStep = &steps[0];
    assert_eq!(step.node, s);
    assert_eq!(step.uniforms.get("time", 0), Some(&Uniform::Float(time_bits)));
    assert_eq!(step.uniforms.get("texture", 0), Some(&Uniform::Texture(supplied(9))));
    assert_eq!(step.uniforms.get("resolution", 0), Some(&Uniform::Size(64, 32)));
    assert_eq!(step.uniforms.get("previous", 0), None);
}

#[test]
fn forward_runs_compute_nodes_through_the_host_function() {
    let mut g = ShaderGraph::new();
    let a = g.add_input();
    let c = g
        .add_compute(ComputeNode { func: 42, input: a, output: Uniform::Number(0) })
        .unwrap();
    let s = g.add_shader("src", vec![c], 8, 8).unwrap();
    g.mark_output(s);
    let five = 5.0f64.to_bits();
    let (_, steps) = g.forward(
        &vec![(a, supplied(1))],
        0,
        move |fid: u64, _uniforms: UniformMap| {
            assert_eq!(fid, 42);
            Uniform::Number(five)
        },
    );
    match &g.nodes[1] {
        Some(NodeKind::Compute(node)) => assert_eq!(node.output, Uniform::Number(five)),
        other => panic!("expected a compute node, found {:?}", other),
    }
    // The shader after it sees the computed value under the "compute" kind.
    assert_eq!(steps[0].uniforms.get("compute", 0), Some(&Uniform::Number(five)));
}

#[test]
fn buffer_swap_only_exchanges_pairs() {
    let mut single = Buffer::Single(supplied(1));
    single.swap();
    assert_eq!(single, Buffer::Single(supplied(1)));
    let mut pair = Buffer::new_double(supplied(1), supplied(2));
    assert_eq!(pair.front(), supplied(1));
    assert_eq!(pair.back(), Some(supplied(2)));
    pair.swap();
    assert_eq!(pair.front(), supplied(2));
    assert_eq!(pair.back(), Some(supplied(1)));
}
