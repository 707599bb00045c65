//! The shader graph: an insertion-ordered table of optional nodes whose
//! dependencies only ever point backwards, so insertion order is a
//! topological order, and the per-frame forward pass over it.
use vstd::prelude::*;
use vstd::pervasive::unreached;

use crate::NodeId;
use crate::node::Buffer;
use crate::node::ComputeNode;
use crate::node::NodeKind;
use crate::node::ShaderNode;
use crate::node::TexHandle;
use crate::node::spec_back;
use crate::node::spec_front;
use crate::node::spec_inputs;
use crate::node::spec_output;
use crate::node::spec_swapped;
use crate::node::spec_texture;
use crate::uniform::MapView;
use crate::uniform::Uniform;
use crate::uniform::lookup_kind;
use crate::uniform::UniformMap;
use crate::uniform::map_add;

verus! {

/// Whether every dependency points strictly before position `n`: the
/// invariant that keeps the graph acyclic.
pub open spec fn deps_in_range(deps: Seq<NodeId>, n: int) -> bool {
    forall|k: int| 0 <= k < deps.len() ==> (#[trigger] deps[k]).0 < n
}

/// Whether a slot may be marked as a graph output: an absent slot (an
/// input, passed through) always may; a present node may when it
/// produces a pixel resource.
pub open spec fn slot_eligible(slot: Option<NodeKind>) -> bool {
    match slot {
        None => true,
        Some(n) => spec_texture(n) is Some,
    }
}

/// Well-formedness of a graph's three tables: every present node only
/// depends on strictly earlier slots, every recorded input is an absent
/// slot, and every recorded output is eligible.
pub open spec fn graph_wf(
    nodes: Seq<Option<NodeKind>>,
    inputs: Seq<NodeId>,
    outputs: Seq<NodeId>,
) -> bool {
    &&& forall|i: int|
        0 <= i < nodes.len() ==> match #[trigger] nodes[i] {
            Some(n) => deps_in_range(spec_inputs(n), i),
            None => true,
        }
    &&& forall|k: int|
        0 <= k < inputs.len() ==> (#[trigger] inputs[k]).0 < nodes.len() && nodes[inputs[k].0
            as int] is None
    &&& forall|k: int|
        0 <= k < outputs.len() ==> (#[trigger] outputs[k]).0 < nodes.len() && slot_eligible(
            nodes[outputs[k].0 as int],
        )
}

/// The resource supplied for an input slot: the first entry for the id.
pub open spec fn lookup_tex(m: Seq<(NodeId, TexHandle)>, id: NodeId) -> Option<TexHandle>
    decreases m.len(),
{
    if m.len() == 0 {
        None
    } else if m[0].0 == id {
        Some(m[0].1)
    } else {
        lookup_tex(m.skip(1), id)
    }
}

/// Represents a Directed Acyclic Graph of shaders. Each node runs once
/// per forward pass, in table order, and can consume the outputs of
/// nodes earlier in the table. An absent slot is an input supplied by
/// the caller on every pass.
#[derive(Debug)]
pub struct ShaderGraph {
    /// `None` is an input node.
    pub nodes: Vec<Option<NodeKind>>,
    pub inputs: Vec<NodeId>,
    pub outputs: Vec<NodeId>,
}

impl ShaderGraph {
    /// Well-formedness: see [`graph_wf`].
    pub open spec fn wf(&self) -> bool {
        graph_wf(self.nodes@, self.inputs@, self.outputs@)
    }

    /// Creates a new, empty shader graph.
    pub fn new() -> (g: ShaderGraph)
        ensures
            g.wf(),
            g.nodes@ =~= Seq::<Option<NodeKind>>::empty(),
            g.inputs@ =~= Seq::<NodeId>::empty(),
            g.outputs@ =~= Seq::<NodeId>::empty(),
    {
        ShaderGraph { nodes: Vec::new(), inputs: Vec::new(), outputs: Vec::new() }
    }

    /// The slots that must be supplied externally on every forward pass.
    pub fn get_inputs(&self) -> (r: &Vec<NodeId>)
        ensures
            r == &self.inputs,
    {
        &self.inputs
    }

    /// The slots whose resources a forward pass returns.
    pub fn get_outputs(&self) -> (r: &Vec<NodeId>)
        ensures
            r == &self.outputs,
    {
        &self.outputs
    }

    /// Whether every id in `deps` points into the current table: what a
    /// node to be added must satisfy. A caller of [`Self::add_node`]
    /// that cannot show the bound statically checks it with this.
    pub fn deps_ok(&self, deps: &Vec<NodeId>) -> (r: bool)
        ensures
            r == deps_in_range(deps@, self.nodes@.len() as int),
    {
        let mut k: usize = 0;
        let n = deps.len();
        while k < n
            invariant
                0 <= k <= n,
                n == deps@.len(),
                forall|j: int| 0 <= j < k ==> (#[trigger] deps@[j]).0 < self.nodes@.len(),
            decreases n - k,
        {
            if deps[k].0 >= self.nodes.len() {
                return false;
            }
            k += 1;
        }
        true
    }

    /// Adds a node (or an absent slot, for `None`) to the graph. The
    /// node's dependencies must point strictly before the new slot: a
    /// forward or self reference is a programming-contract fault, ruled
    /// out here rather than reported.
    pub fn add_node(&mut self, node: Option<NodeKind>) -> (id: NodeId)
        requires
            old(self).wf(),
            match node {
                Some(n) => deps_in_range(spec_inputs(n), old(self).nodes@.len() as int),
                None => true,
            },
        ensures
            final(self).wf(),
            id.0 == old(self).nodes@.len(),
            final(self).nodes@ == old(self).nodes@.push(node),
            final(self).inputs@ == old(self).inputs@,
            final(self).outputs@ == old(self).outputs@,
    {
        let id = NodeId(self.nodes.len());
        self.nodes.push(node);
        proof {
            assert forall|k: int| 0 <= k < self.outputs@.len() implies (
            #[trigger] self.outputs@[k]).0 < self.nodes@.len() && slot_eligible(
                self.nodes@[self.outputs@[k].0 as int],
            ) by {
                assert(self.nodes@[self.outputs@[k].0 as int] == old(
                    self,
                ).nodes@[self.outputs@[k].0 as int]);
            }
        }
        id
    }

    /// The checked counterpart of [`Self::add_node`]: topological safety,
    /// decided at run time. A node whose dependencies include an index at
    /// or past the table's current length is refused — `None` comes back
    /// and the graph, all three tables, is exactly as it was. Only a node
    /// whose dependencies all point strictly backwards is appended.
    pub fn try_add_node(&mut self, node: Option<NodeKind>) -> (r: Option<NodeId>)
        requires
            old(self).wf(),
        ensures
            final(self).wf(),
            (r is Some <==> match node {
                Some(n) => deps_in_range(spec_inputs(n), old(self).nodes@.len() as int),
                None => true,
            }),
            r matches Some(id) ==> id.0 == old(self).nodes@.len() && final(self).nodes@ == old(
                self,
            ).nodes@.push(node) && final(self).inputs@ == old(self).inputs@ && final(self).outputs@
                == old(self).outputs@,
            r is None ==> *final(self) == *old(self),
    {
        let ok = match &node {
            Some(n) => {
                let deps = n.inputs();
                self.deps_ok(&deps)
            },
            None => true,
        };
        if ok {
            Some(self.add_node(node))
        } else {
            None
        }
    }

    /// Adds an input slot to the graph and records it. Use the returned
    /// id to mark it as a resource consumed by later nodes.
    pub fn add_input(&mut self) -> (id: NodeId)
        requires
            old(self).wf(),
        ensures
            final(self).wf(),
            id.0 == old(self).nodes@.len(),
            final(self).nodes@ == old(self).nodes@.push(None),
            final(self).inputs@ == old(self).inputs@.push(id),
            final(self).outputs@ == old(self).outputs@,
    {
        let id = self.add_node(None);
        self.inputs.push(id);
        id
    }

    /// Adds a shader stage over a single buffer of the given size. The
    /// shading source is kept with the node; compiling it is the
    /// rendering layer's work, done once the whole graph is built.
    pub fn add_shader(&mut self, source: &str, inputs: Vec<NodeId>, width: u32, height: u32) -> (r:
        Result<NodeId, String>)
        requires
            old(self).wf(),
            deps_in_range(inputs@, old(self).nodes@.len() as int),
        ensures
            final(self).wf(),
            r == Ok::<NodeId, String>(NodeId(old(self).nodes@.len() as usize)),
            final(self).nodes@.len() == old(self).nodes@.len() + 1,
            final(self).nodes@.take(old(self).nodes@.len() as int) == old(self).nodes@,
            shader_slot(
                final(self).nodes@.last(),
                source@,
                inputs@,
                width,
                height,
                old(self).nodes@.len() as usize,
                false,
            ),
            final(self).inputs@ == old(self).inputs@,
            final(self).outputs@ == old(self).outputs@,
    {
        let idx = self.nodes.len();
        let node = ShaderNode {
            shader: source.to_owned(),
            inputs,
            width,
            height,
            buffer: Buffer::Single(TexHandle::Owned { node: idx, back: false }),
        };
        let id = self.add_node(Some(NodeKind::Shader(node)));
        proof {
            assert(self.nodes@.take(old(self).nodes@.len() as int) =~= old(self).nodes@);
        }
        Ok(id)
    }

    /// Adds a feedback shader stage: the same as [`Self::add_shader`],
    /// but over a front/back buffer pair, so the shading program can read
    /// its own previous frame under the reserved "previous" kind.
    pub fn add_rec_shader(
        &mut self,
        source: &str,
        inputs: Vec<NodeId>,
        width: u32,
        height: u32,
    ) -> (r: Result<NodeId, String>)
        requires
            old(self).wf(),
            deps_in_range(inputs@, old(self).nodes@.len() as int),
        ensures
            final(self).wf(),
            r == Ok::<NodeId, String>(NodeId(old(self).nodes@.len() as usize)),
            final(self).nodes@.len() == old(self).nodes@.len() + 1,
            final(self).nodes@.take(old(self).nodes@.len() as int) == old(self).nodes@,
            shader_slot(
                final(self).nodes@.last(),
                source@,
                inputs@,
                width,
                height,
                old(self).nodes@.len() as usize,
                true,
            ),
            final(self).inputs@ == old(self).inputs@,
            final(self).outputs@ == old(self).outputs@,
    {
        let idx = self.nodes.len();
        let node = ShaderNode {
            shader: source.to_owned(),
            inputs,
            width,
            height,
            buffer: Buffer::new_double(
                TexHandle::Owned { node: idx, back: false },
                TexHandle::Owned { node: idx, back: true },
            ),
        };
        let id = self.add_node(Some(NodeKind::Shader(node)));
        proof {
            assert(self.nodes@.take(old(self).nodes@.len() as int) =~= old(self).nodes@);
        }
        Ok(id)
    }

    /// Adds a compute node, which runs a host-registered function over
    /// its uniforms each pass to produce a single value for later nodes.
    pub fn add_compute(&mut self, compute_node: ComputeNode) -> (r: Result<NodeId, String>)
        requires
            old(self).wf(),
            compute_node.input.0 < old(self).nodes@.len(),
        ensures
            final(self).wf(),
            r == Ok::<NodeId, String>(NodeId(old(self).nodes@.len() as usize)),
            final(self).nodes@ == old(self).nodes@.push(Some(NodeKind::Compute(compute_node))),
            final(self).inputs@ == old(self).inputs@,
            final(self).outputs@ == old(self).outputs@,
    {
        let id = self.add_node(Some(NodeKind::Compute(compute_node)));
        Ok(id)
    }

    /// Marks a node as a graph output, so each forward pass returns its
    /// resource. Idempotent. Returns `None`, changing nothing, when the
    /// node does not produce a pixel resource (an absent slot, being a
    /// pass-through of a supplied resource, always qualifies).
    pub fn mark_output(&mut self, id: NodeId) -> (r: Option<NodeId>)
        requires
            old(self).wf(),
            id.0 < old(self).nodes@.len(),
        ensures
            final(self).wf(),
            final(self).nodes@ == old(self).nodes@,
            final(self).inputs@ == old(self).inputs@,
            if slot_eligible(old(self).nodes@[id.0 as int]) {
                r == Some(id) && final(self).outputs@ == (if old(self).outputs@.contains(id) {
                    old(self).outputs@
                } else {
                    old(self).outputs@.push(id)
                })
            } else {
                r is None && final(self).outputs@ == old(self).outputs@
            },
    {
        match &self.nodes[id.0] {
            Some(node) => {
                if node.texture().is_none() {
                    return None;
                }
            },
            None => {},
        }
        let mut k: usize = 0;
        let n = self.outputs.len();
        let mut found = false;
        while k < n
            invariant
                0 <= k <= n,
                n == self.outputs@.len(),
                found == exists|j: int| 0 <= j < k && self.outputs@[j] == id,
            decreases n - k,
        {
            if self.outputs[k] == id {
                found = true;
            }
            k += 1;
        }
        if !found {
            self.outputs.push(id);
        }
        Some(id)
    }
}

/// One render action of a forward pass, for the rendering layer to play
/// back: which node, the resource to render into, and every uniform bound
/// for the node's shading program.
#[derive(Debug)]
pub struct RenderStep {
    pub node: NodeId,
    pub target: TexHandle,
    pub uniforms: UniformMap,
}

/// The uniform map before any dependency is bound: the frame time alone,
/// under the reserved "time" kind.
pub open spec fn time_base(time: u32) -> MapView {
    map_add(MapView::empty(), "time"@, Uniform::Float(time))
}

/// A uniform map after one dependency's output is bound: a present node
/// contributes the kind and value it describes, an absent slot the
/// externally supplied resource under the reserved "texture" kind.
pub open spec fn add_dep(
    m: MapView,
    nodes: Seq<Option<NodeKind>>,
    dep: NodeId,
    im: Seq<(NodeId, TexHandle)>,
) -> MapView {
    match nodes[dep.0 as int] {
        Some(n) => map_add(m, spec_output(n).0, spec_output(n).1),
        None => match lookup_tex(im, dep) {
            Some(t) => map_add(m, "texture"@, Uniform::Texture(t)),
            None => m,
        },
    }
}

/// A uniform map after each dependency's output is bound, in order.
pub open spec fn add_deps(
    m: MapView,
    nodes: Seq<Option<NodeKind>>,
    deps: Seq<NodeId>,
    im: Seq<(NodeId, TexHandle)>,
) -> MapView
    decreases deps.len(),
{
    if deps.len() == 0 {
        m
    } else {
        add_deps(add_dep(m, nodes, deps[0], im), nodes, deps.skip(1), im)
    }
}

/// The uniform map a node receives: the frame time, then each declared
/// dependency's output, in declaration order.
pub open spec fn spec_inbound(
    nodes: Seq<Option<NodeKind>>,
    deps: Seq<NodeId>,
    time: u32,
    im: Seq<(NodeId, TexHandle)>,
) -> MapView {
    add_deps(time_base(time), nodes, deps, im)
}

/// The full map bound for a shader node's program, given the node's state
/// after its buffers swapped: the inbound map, then the node's own
/// resolution, then — for a feedback node — the previous frame's resource
/// under the reserved "previous" kind.
pub open spec fn shader_bound_map(
    nodes: Seq<Option<NodeKind>>,
    s: ShaderNode,
    time: u32,
    im: Seq<(NodeId, TexHandle)>,
) -> MapView {
    let base = spec_inbound(nodes, s.inputs@, time, im);
    let with_res = map_add(base, "resolution"@, Uniform::Size(s.width, s.height));
    match spec_back(s.buffer) {
        None => with_res,
        Some(b) => map_add(with_res, "previous"@, Uniform::Texture(b)),
    }
}

/// What one render step of a pass must say, against the node table as the
/// pass left it: the step's node is a shader node, the target is its
/// (swapped-in) front resource, and the bound uniforms are exactly the
/// node's inbound map plus its resolution and previous-frame bindings.
pub open spec fn valid_step(
    step: RenderStep,
    nodes: Seq<Option<NodeKind>>,
    time: u32,
    im: Seq<(NodeId, TexHandle)>,
) -> bool {
    &&& step.node.0 < nodes.len()
    &&& match nodes[step.node.0 as int] {
        Some(NodeKind::Shader(s)) => step.target == spec_front(s.buffer) && step.uniforms@
            == shader_bound_map(nodes, s, time, im),
        _ => false,
    }
}

/// How one pass changes one slot: an input slot is untouched, a shader
/// node's buffers swap (everything else kept), and a compute node holds a
/// value its host-registered function returned for the node's inbound map.
pub open spec fn advanced_slot<C: Fn(u64, UniformMap) -> Uniform>(
    old_slot: Option<NodeKind>,
    new_slot: Option<NodeKind>,
    nodes_after: Seq<Option<NodeKind>>,
    time: u32,
    im: Seq<(NodeId, TexHandle)>,
    cf: C,
) -> bool {
    match old_slot {
        None => new_slot is None,
        Some(NodeKind::Shader(s)) => new_slot == Some(
            NodeKind::Shader(ShaderNode { buffer: spec_swapped(s.buffer), ..s }),
        ),
        Some(NodeKind::Compute(c)) => exists|m: UniformMap, out: Uniform|
            m@ == spec_inbound(nodes_after, seq![c.input], time, im) && call_ensures(
                cf,
                (c.func, m),
                out,
            ) && new_slot == Some(NodeKind::Compute(ComputeNode { output: out, ..c })),
    }
}

/// The resource a pass returns for an output id: a present node's own
/// resource, or the supplied resource of an input slot.
pub open spec fn out_tex(
    nodes: Seq<Option<NodeKind>>,
    im: Seq<(NodeId, TexHandle)>,
    id: NodeId,
) -> TexHandle {
    match nodes[id.0 as int] {
        Some(n) => match spec_texture(n) {
            Some(t) => t,
            None => TexHandle::Supplied { id: 0 },
        },
        None => match lookup_tex(im, id) {
            Some(t) => t,
            None => TexHandle::Supplied { id: 0 },
        },
    }
}

/// What a freshly added shader slot holds: the given source, the given
/// dependencies and size, and a buffer of fresh resources named after the
/// slot's own index (a pair when `feedback` is set, one otherwise).
pub open spec fn shader_slot(
    slot: Option<NodeKind>,
    src: Seq<char>,
    deps: Seq<NodeId>,
    width: u32,
    height: u32,
    idx: usize,
    feedback: bool,
) -> bool {
    match slot {
        Some(NodeKind::Shader(s)) => {
            &&& s.shader@ == src
            &&& s.inputs@ == deps
            &&& s.width == width
            &&& s.height == height
            &&& s.buffer == if feedback {
                Buffer::Double(
                    TexHandle::Owned { node: idx, back: false },
                    TexHandle::Owned { node: idx, back: true },
                )
            } else {
                Buffer::Single(TexHandle::Owned { node: idx, back: false })
            }
        },
        _ => false,
    }
}

/// Every externally supplied resource a pass will ask for is present: one
/// for each recorded input, one for each absent slot some node depends
/// on, and one for each absent slot marked as an output.
pub open spec fn inputs_supplied(
    nodes: Seq<Option<NodeKind>>,
    inputs: Seq<NodeId>,
    outputs: Seq<NodeId>,
    im: Seq<(NodeId, TexHandle)>,
) -> bool {
    &&& forall|k: int| 0 <= k < inputs.len() ==> lookup_tex(im, #[trigger] inputs[k]) is Some
    &&& forall|i: int|
        0 <= i < nodes.len() ==> match #[trigger] nodes[i] {
            Some(n) => forall|k: int|
                0 <= k < spec_inputs(n).len() && nodes[(#[trigger] spec_inputs(n)[k]).0 as int]
                    is None ==> lookup_tex(im, spec_inputs(n)[k]) is Some,
            None => true,
        }
    &&& forall|k: int|
        0 <= k < outputs.len() ==> (nodes[(#[trigger] outputs[k]).0 as int] is None ==> lookup_tex(
            im,
            outputs[k],
        ) is Some)
}

impl ShaderGraph {
    /// Does a forward pass of the entire shader graph: every present node
    /// runs once, in table order, which the insertion invariant makes a
    /// valid dependency order. Takes the externally supplied resource for
    /// each input slot, the frame time (bits of a single-precision
    /// second count, computed once so all nodes observe the same time),
    /// and the host's compute dispatcher. Returns the resource for each
    /// marked output, and the render steps — one per shader node, in
    /// order, with all bound uniforms — for the rendering layer to play
    /// back.
    pub fn forward<C: Fn(u64, UniformMap) -> Uniform>(
        &mut self,
        input_map: &Vec<(NodeId, TexHandle)>,
        time: u32,
        compute: C,
    ) -> (r: (Vec<(NodeId, TexHandle)>, Vec<RenderStep>))
        requires
            old(self).wf(),
            forall|fid: u64, m: UniformMap| call_requires(compute, (fid, m)),
            inputs_supplied(old(self).nodes@, old(self).inputs@, old(self).outputs@, input_map@),
        ensures
            final(self).wf(),
            final(self).inputs@ == old(self).inputs@,
            final(self).outputs@ == old(self).outputs@,
            final(self).nodes@.len() == old(self).nodes@.len(),
            forall|j: int|
                0 <= j < old(self).nodes@.len() ==> advanced_slot(
                    old(self).nodes@[j],
                    #[trigger] final(self).nodes@[j],
                    final(self).nodes@,
                    time,
                    input_map@,
                    compute,
                ),
            forall|k: int|
                0 <= k < r.1@.len() ==> valid_step(
                    #[trigger] r.1@[k],
                    final(self).nodes@,
                    time,
                    input_map@,
                ),
            forall|k1: int, k2: int|
                0 <= k1 < k2 < r.1@.len() ==> r.1@[k1].node.0 < r.1@[k2].node.0,
            forall|j: int|
                0 <= j < final(self).nodes@.len() && ((#[trigger] final(self).nodes@[j]) matches Some(
                    NodeKind::Shader(_),
                )) ==> exists|k: int| 0 <= k < r.1@.len() && r.1@[k].node.0 == j,
            r.0@.len() == old(self).outputs@.len(),
            forall|k: int|
                0 <= k < r.0@.len() ==> (#[trigger] r.0@[k]).0 == old(self).outputs@[k]
                    && r.0@[k].1 == out_tex(final(self).nodes@, input_map@, old(self).outputs@[k]),
    {
        let ghost im = input_map@;
        let ghost onodes = old(self).nodes@;
        let n = self.nodes.len();
        let mut steps: Vec<RenderStep> = Vec::new();
        let mut i: usize = 0;
        while i < n
            invariant
                0 <= i <= n,
                n == self.nodes@.len(),
                n == onodes.len(),
                onodes == old(self).nodes@,
                im == input_map@,
                self.inputs@ == old(self).inputs@,
                self.outputs@ == old(self).outputs@,
                old(self).wf(),
                self.wf(),
                inputs_supplied(onodes, old(self).inputs@, old(self).outputs@, im),
                forall|fid: u64, m: UniformMap| call_requires(compute, (fid, m)),
                forall|j: int| i <= j < n ==> self.nodes@[j] == onodes[j],
                forall|j: int| 0 <= j < n ==> (self.nodes@[j] is None <==> onodes[j] is None),
                forall|j: int|
                    0 <= j < i ==> advanced_slot(
                        onodes[j],
                        #[trigger] self.nodes@[j],
                        self.nodes@,
                        time,
                        im,
                        compute,
                    ),
                forall|k: int|
                    0 <= k < steps@.len() ==> valid_step(#[trigger] steps@[k], self.nodes@, time, im)
                        && steps@[k].node.0 < i,
                forall|k1: int, k2: int|
                    0 <= k1 < k2 < steps@.len() ==> steps@[k1].node.0 < steps@[k2].node.0,
                forall|j: int|
                    0 <= j < i && ((#[trigger] self.nodes@[j]) matches Some(NodeKind::Shader(_))) ==> exists|
                        k: int,
                    | 0 <= k < steps@.len() && steps@[k].node.0 == j,
            decreases n - i,
        {
            let ghost pre = self.nodes@;
            if self.nodes[i].is_some() {
                let slot = self.nodes.remove(i);
                let node = match slot {
                    Some(nd) => nd,
                    None => unreached(),
                };
                let ghost gnode = node;
                let deps = node.inputs();
                proof {
                    assert(pre[i as int] == onodes[i as int]);
                    assert(deps_in_range(deps@, i as int));
                    assert(forall|j: int|
                        0 <= j < deps@.len() ==> (pre[(#[trigger] deps@[j]).0 as int]
                            is None ==> lookup_tex(im, deps@[j]) is Some)) by {
                        assert(forall|j: int|
                            0 <= j < deps@.len() ==> pre[(#[trigger] deps@[j]).0 as int]
                                is None ==> onodes[deps@[j].0 as int] is None);
                    }
                }
                let mut uniforms = UniformMap::new();
                uniforms.add("time", Uniform::Float(time));
                proof {
                    assert(uniforms@ == time_base(time));
                    assert(deps@.take(0) =~= Seq::<NodeId>::empty());
                }
                let mut k: usize = 0;
                let dn = deps.len();
                while k < dn
                    invariant
                        0 <= k <= dn,
                        dn == deps@.len(),
                        i < n,
                        n == onodes.len(),
                        pre.len() == n,
                        self.nodes@.len() == n - 1,
                        im == input_map@,
                        deps_in_range(deps@, i as int),
                        forall|j: int| 0 <= j < i ==> self.nodes@[j] == pre[j],
                        forall|j: int|
                            0 <= j < dn ==> (pre[(#[trigger] deps@[j]).0 as int]
                                is None ==> lookup_tex(im, deps@[j]) is Some),
                        uniforms@ == add_deps(time_base(time), pre, deps@.take(k as int), im),
                    decreases dn - k,
                {
                    let dep = deps[k];
                    proof {
                        assert(self.nodes@[dep.0 as int] == pre[dep.0 as int]);
                    }
                    let ghost u0 = uniforms@;
                    match &self.nodes[dep.0] {
                        Some(dnode) => {
                            let (kind, val) = dnode.outputs();
                            uniforms.add(kind, val);
                        },
                        None => {
                            let t = match lookup_input(input_map, dep) {
                                Some(t) => t,
                                None => unreached(),
                            };
                            uniforms.add("texture", Uniform::Texture(t));
                        },
                    }
                    proof {
                        assert(uniforms@ == add_dep(u0, pre, dep, im));
                        assert(deps@.take(k as int + 1) =~= deps@.take(k as int).push(dep));
                        lemma_add_deps_snoc(time_base(time), pre, deps@.take(k as int), dep, im);
                    }
                    k += 1;
                }
                proof {
                    assert(deps@.take(dn as int) =~= deps@);
                    assert(uniforms@ == spec_inbound(pre, deps@, time, im));
                }
                match node {
                    NodeKind::Shader(s_taken) => {
                        let mut s = s_taken;
                        let ghost s_old = s;
                        s.buffer.swap();
                        let target = s.buffer.front();
                        uniforms.add("resolution", Uniform::Size(s.width, s.height));
                        match s.buffer.back() {
                            Some(b) => {
                                uniforms.add("previous", Uniform::Texture(b));
                            },
                            None => {},
                        }
                        let ghost s_new = s;
                        let ghost ub = uniforms@;
                        self.nodes.insert(i, Some(NodeKind::Shader(s)));
                        let step = RenderStep { node: NodeId(i), target, uniforms };
                        let ghost gstep = step;
                        let ghost steps0 = steps@;
                        steps.push(step);
                        proof {
                            assert(self.nodes@ =~= pre.update(
                                i as int,
                                Some(NodeKind::Shader(s_new)),
                            ));
                            lemma_forward_step_shader(
                                pre,
                                self.nodes@,
                                onodes,
                                steps0,
                                steps@,
                                gstep,
                                s_old,
                                s_new,
                                ub,
                                self.inputs@,
                                self.outputs@,
                                i as int,
                                time,
                                im,
                                compute,
                            );
                        }
                    },
                    NodeKind::Compute(c) => {
                        let ghost um = uniforms;
                        let out = compute(c.func, uniforms);
                        self.nodes.insert(
                            i,
                            Some(NodeKind::Compute(ComputeNode { func: c.func, input: c.input, output: out })),
                        );
                        proof {
                            assert(self.nodes@ =~= pre.update(
                                i as int,
                                Some(
                                    NodeKind::Compute(
                                        ComputeNode { func: c.func, input: c.input, output: out },
                                    ),
                                ),
                            ));
                            assert(call_ensures(compute, (c.func, um), out));
                            lemma_forward_step_compute(
                                pre,
                                self.nodes@,
                                onodes,
                                steps@,
                                c,
                                um,
                                out,
                                self.inputs@,
                                self.outputs@,
                                i as int,
                                time,
                                im,
                                compute,
                            );
                        }
                    },
                }
            }
            i += 1;
        }
        let mut outs: Vec<(NodeId, TexHandle)> = Vec::new();
        let mut q: usize = 0;
        let on = self.outputs.len();
        while q < on
            invariant
                0 <= q <= on,
                on == self.outputs@.len(),
                self.wf(),
                im == input_map@,
                onodes == old(self).nodes@,
                onodes.len() == self.nodes@.len(),
                self.outputs@ == old(self).outputs@,
                inputs_supplied(onodes, old(self).inputs@, old(self).outputs@, im),
                forall|j: int|
                    0 <= j < self.nodes@.len() ==> (self.nodes@[j] is None <==> onodes[j] is None),
                outs@.len() == q,
                forall|k: int|
                    0 <= k < q ==> (#[trigger] outs@[k]).0 == self.outputs@[k] && outs@[k].1
                        == out_tex(self.nodes@, im, self.outputs@[k]),
            decreases on - q,
        {
            let id = self.outputs[q];
            proof {
                assert(id.0 < self.nodes@.len() && slot_eligible(self.nodes@[id.0 as int]));
            }
            let t = match &self.nodes[id.0] {
                Some(nd) => match nd.texture() {
                    Some(t) => t,
                    None => unreached(),
                },
                None => match lookup_input(input_map, id) {
                    Some(t) => t,
                    None => unreached(),
                },
            };
            outs.push((id, t));
            q += 1;
        }
        (outs, steps)
    }
}

/// A lookup finds the resource of the first entry carrying the id.
proof fn lemma_lookup_tex_found(m: Seq<(NodeId, TexHandle)>, id: NodeId, i: int)
    requires
        0 <= i < m.len(),
        m[i].0 == id,
        forall|j: int| 0 <= j < i ==> (#[trigger] m[j]).0 != id,
    ensures
        lookup_tex(m, id) == Some(m[i].1),
    decreases i,
{
    if i > 0 {
        lemma_lookup_tex_found(m.skip(1), id, i - 1);
    }
}

/// A lookup misses when no entry carries the id.
proof fn lemma_lookup_tex_missing(m: Seq<(NodeId, TexHandle)>, id: NodeId)
    requires
        forall|j: int| 0 <= j < m.len() ==> (#[trigger] m[j]).0 != id,
    ensures
        lookup_tex(m, id) is None,
    decreases m.len(),
{
    if m.len() > 0 {
        lemma_lookup_tex_missing(m.skip(1), id);
    }
}

/// The resource supplied for an input slot, by a scan of the mapping.
pub fn lookup_input(input_map: &Vec<(NodeId, TexHandle)>, id: NodeId) -> (r: Option<TexHandle>)
    ensures
        r == lookup_tex(input_map@, id),
{
    let mut k: usize = 0;
    let n = input_map.len();
    while k < n
        invariant
            0 <= k <= n,
            n == input_map@.len(),
            forall|j: int| 0 <= j < k ==> (#[trigger] input_map@[j]).0 != id,
        decreases n - k,
    {
        if input_map[k].0 == id {
            proof {
                lemma_lookup_tex_found(input_map@, id, k as int);
            }
            return Some(input_map[k].1);
        }
        k += 1;
    }
    proof {
        lemma_lookup_tex_missing(input_map@, id);
    }
    None
}

/// Binding one more dependency extends the bound prefix.
proof fn lemma_add_deps_snoc(
    m: MapView,
    nodes: Seq<Option<NodeKind>>,
    deps: Seq<NodeId>,
    x: NodeId,
    im: Seq<(NodeId, TexHandle)>,
)
    ensures
        add_deps(m, nodes, deps.push(x), im) == add_dep(add_deps(m, nodes, deps, im), nodes, x, im),
    decreases deps.len(),
{
    if deps.len() == 0 {
        assert(deps.push(x)[0] == x);
        assert(deps.push(x).skip(1) =~= Seq::<NodeId>::empty());
        assert(add_deps(m, nodes, deps.push(x), im) == add_deps(
            add_dep(m, nodes, x, im),
            nodes,
            Seq::<NodeId>::empty(),
            im,
        ));
        assert(add_deps(m, nodes, deps, im) == m);
    } else {
        assert(deps.push(x)[0] == deps[0]);
        assert(deps.push(x).skip(1) =~= deps.skip(1).push(x));
        assert(add_deps(m, nodes, deps.push(x), im) == add_deps(
            add_dep(m, nodes, deps[0], im),
            nodes,
            deps.skip(1).push(x),
            im,
        ));
        lemma_add_deps_snoc(add_dep(m, nodes, deps[0], im), nodes, deps.skip(1), x, im);
        assert(add_deps(m, nodes, deps, im) == add_deps(
            add_dep(m, nodes, deps[0], im),
            nodes,
            deps.skip(1),
            im,
        ));
    }
}

/// The facts the pass carries from one advanced slot to the next, shared
/// by the per-variant step lemmas below.
proof fn lemma_forward_step_common<C: Fn(u64, UniformMap) -> Uniform>(
    pre: Seq<Option<NodeKind>>,
    cur: Seq<Option<NodeKind>>,
    onodes: Seq<Option<NodeKind>>,
    steps: Seq<RenderStep>,
    gin: Seq<NodeId>,
    gout: Seq<NodeId>,
    i: int,
    time: u32,
    im: Seq<(NodeId, TexHandle)>,
    cf: C,
)
    requires
        0 <= i < pre.len(),
        pre.len() == onodes.len(),
        cur.len() == pre.len(),
        graph_wf(pre, gin, gout),
        graph_wf(onodes, gin, gout),
        forall|j: int| i <= j < pre.len() ==> pre[j] == onodes[j],
        forall|j: int| 0 <= j < pre.len() ==> (pre[j] is None <==> onodes[j] is None),
        forall|j: int|
            0 <= j < i ==> advanced_slot(onodes[j], #[trigger] pre[j], pre, time, im, cf),
        forall|k: int|
            0 <= k < steps.len() ==> valid_step(#[trigger] steps[k], pre, time, im)
                && steps[k].node.0 < i,
        forall|j: int| 0 <= j < cur.len() && j != i ==> cur[j] == pre[j],
        cur[i] is Some,
        pre[i] is Some,
        match (pre[i], cur[i]) {
            (Some(np), Some(nc)) => spec_inputs(nc) == spec_inputs(np) && (spec_texture(nc)
                is Some <==> spec_texture(np) is Some),
            _ => false,
        },
    ensures
        graph_wf(cur, gin, gout),
        forall|j: int| 0 <= j < cur.len() ==> (cur[j] is None <==> onodes[j] is None),
        forall|j: int| i + 1 <= j < cur.len() ==> cur[j] == onodes[j],
        forall|j: int|
            0 <= j < i ==> advanced_slot(onodes[j], #[trigger] cur[j], cur, time, im, cf),
        forall|k: int|
            0 <= k < steps.len() ==> valid_step(#[trigger] steps[k], cur, time, im)
                && steps[k].node.0 < i + 1,
{
    assert(graph_wf(cur, gin, gout)) by {
        assert(forall|j: int|
            0 <= j < cur.len() ==> match #[trigger] cur[j] {
                Some(n) => deps_in_range(spec_inputs(n), j),
                None => true,
            });
        assert(forall|k: int|
            0 <= k < gout.len() ==> (#[trigger] gout[k]).0 < cur.len() && slot_eligible(
                cur[gout[k].0 as int],
            ));
    }
    assert forall|j: int| 0 <= j < i implies advanced_slot(
        onodes[j],
        #[trigger] cur[j],
        cur,
        time,
        im,
        cf,
    ) by {
        assert(cur[j] == pre[j]);
        match onodes[j] {
            None => {},
            Some(NodeKind::Shader(_)) => {},
            Some(NodeKind::Compute(c)) => {
                let (m, out): (UniformMap, Uniform) = choose|m: UniformMap, out: Uniform|
                    m@ == spec_inbound(pre, seq![c.input], time, im) && call_ensures(
                        cf,
                        (c.func, m),
                        out,
                    ) && pre[j] == Some(NodeKind::Compute(ComputeNode { output: out, ..c }));
                assert(deps_in_range(spec_inputs(pre[j]->0), j));
                assert(seq![c.input][0] == c.input);
                assert(c.input.0 < j);
                lemma_add_deps_agree(time_base(time), pre, cur, seq![c.input], im);
                assert(m@ == spec_inbound(cur, seq![c.input], time, im));
            },
        }
    }
    assert forall|k: int| 0 <= k < steps.len() implies valid_step(
        #[trigger] steps[k],
        cur,
        time,
        im,
    ) && steps[k].node.0 < i + 1 by {
        let j = steps[k].node.0 as int;
        assert(valid_step(steps[k], pre, time, im));
        assert(j < i);
        assert(cur[j] == pre[j]);
        match pre[j] {
            Some(NodeKind::Shader(s)) => {
                assert(deps_in_range(spec_inputs(pre[j]->0), j));
                lemma_add_deps_agree(time_base(time), pre, cur, s.inputs@, im);
                assert(shader_bound_map(cur, s, time, im) == shader_bound_map(pre, s, time, im));
            },
            _ => {
                assert(false);
            },
        }
    }
}

/// One pass step on a shader node: the loop's facts carry over, the node
/// stands advanced, and the pushed render step is the node's own.
proof fn lemma_forward_step_shader<C: Fn(u64, UniformMap) -> Uniform>(
    pre: Seq<Option<NodeKind>>,
    cur: Seq<Option<NodeKind>>,
    onodes: Seq<Option<NodeKind>>,
    steps0: Seq<RenderStep>,
    steps1: Seq<RenderStep>,
    step: RenderStep,
    s_old: ShaderNode,
    s_new: ShaderNode,
    ub: MapView,
    gin: Seq<NodeId>,
    gout: Seq<NodeId>,
    i: int,
    time: u32,
    im: Seq<(NodeId, TexHandle)>,
    cf: C,
)
    requires
        0 <= i < pre.len(),
        pre.len() == onodes.len(),
        cur.len() == pre.len(),
        graph_wf(pre, gin, gout),
        graph_wf(onodes, gin, gout),
        forall|j: int| i <= j < pre.len() ==> pre[j] == onodes[j],
        forall|j: int| 0 <= j < pre.len() ==> (pre[j] is None <==> onodes[j] is None),
        forall|j: int|
            0 <= j < i ==> advanced_slot(onodes[j], #[trigger] pre[j], pre, time, im, cf),
        forall|k: int|
            0 <= k < steps0.len() ==> valid_step(#[trigger] steps0[k], pre, time, im)
                && steps0[k].node.0 < i,
        forall|k1: int, k2: int|
            0 <= k1 < k2 < steps0.len() ==> steps0[k1].node.0 < steps0[k2].node.0,
        forall|j: int|
            0 <= j < i && ((#[trigger] pre[j]) matches Some(NodeKind::Shader(_))) ==> exists|k: int|
                0 <= k < steps0.len() && steps0[k].node.0 == j,
        pre[i] == Some(NodeKind::Shader(s_old)),
        s_new == (ShaderNode { buffer: spec_swapped(s_old.buffer), ..s_old }),
        cur == pre.update(i, Some(NodeKind::Shader(s_new))),
        step.node.0 == i,
        step.target == spec_front(s_new.buffer),
        step.uniforms@ == ub,
        ub == ({
            let with_res = map_add(
                spec_inbound(pre, s_old.inputs@, time, im),
                "resolution"@,
                Uniform::Size(s_old.width, s_old.height),
            );
            match spec_back(s_new.buffer) {
                None => with_res,
                Some(b) => map_add(with_res, "previous"@, Uniform::Texture(b)),
            }
        }),
        steps1 == steps0.push(step),
    ensures
        graph_wf(cur, gin, gout),
        forall|j: int| 0 <= j < cur.len() ==> (cur[j] is None <==> onodes[j] is None),
        forall|j: int| i + 1 <= j < cur.len() ==> cur[j] == onodes[j],
        forall|j: int|
            0 <= j < i + 1 ==> advanced_slot(onodes[j], #[trigger] cur[j], cur, time, im, cf),
        forall|k: int|
            0 <= k < steps1.len() ==> valid_step(#[trigger] steps1[k], cur, time, im)
                && steps1[k].node.0 < i + 1,
        forall|k1: int, k2: int|
            0 <= k1 < k2 < steps1.len() ==> steps1[k1].node.0 < steps1[k2].node.0,
        forall|j: int|
            0 <= j < i + 1 && ((#[trigger] cur[j]) matches Some(NodeKind::Shader(_))) ==> exists|k: int|
                0 <= k < steps1.len() && steps1[k].node.0 == j,
{
    lemma_forward_step_common(pre, cur, onodes, steps0, gin, gout, i, time, im, cf);
    assert(advanced_slot(onodes[i], cur[i], cur, time, im, cf));
    assert(valid_step(step, cur, time, im)) by {
        assert(deps_in_range(spec_inputs(pre[i]->0), i));
        assert(s_new.inputs@ == s_old.inputs@);
        lemma_add_deps_agree(time_base(time), pre, cur, s_old.inputs@, im);
        assert(spec_inbound(cur, s_new.inputs@, time, im) == spec_inbound(
            pre,
            s_old.inputs@,
            time,
            im,
        ));
        assert(step.uniforms@ == shader_bound_map(cur, s_new, time, im));
    }
    assert forall|j: int|
        0 <= j < i + 1 && ((#[trigger] cur[j]) matches Some(NodeKind::Shader(_))) implies exists|k: int|
        0 <= k < steps1.len() && steps1[k].node.0 == j by {
        if j == i {
            assert(steps1[steps0.len() as int] == step);
            assert(0 <= steps0.len() < steps1.len() && steps1[steps0.len() as int].node.0 == j);
        } else {
            assert(cur[j] == pre[j]);
            let k = choose|k: int| 0 <= k < steps0.len() && (#[trigger] steps0[k]).node.0 == j;
            assert(steps1[k] == steps0[k]);
            assert(0 <= k < steps1.len() && steps1[k].node.0 == j);
        }
    }
}

/// One pass step on a compute node: the loop's facts carry over and the
/// node stands advanced, holding what the host's function returned.
proof fn lemma_forward_step_compute<C: Fn(u64, UniformMap) -> Uniform>(
    pre: Seq<Option<NodeKind>>,
    cur: Seq<Option<NodeKind>>,
    onodes: Seq<Option<NodeKind>>,
    steps: Seq<RenderStep>,
    c: ComputeNode,
    um: UniformMap,
    out: Uniform,
    gin: Seq<NodeId>,
    gout: Seq<NodeId>,
    i: int,
    time: u32,
    im: Seq<(NodeId, TexHandle)>,
    cf: C,
)
    requires
        0 <= i < pre.len(),
        pre.len() == onodes.len(),
        cur.len() == pre.len(),
        graph_wf(pre, gin, gout),
        graph_wf(onodes, gin, gout),
        forall|j: int| i <= j < pre.len() ==> pre[j] == onodes[j],
        forall|j: int| 0 <= j < pre.len() ==> (pre[j] is None <==> onodes[j] is None),
        forall|j: int|
            0 <= j < i ==> advanced_slot(onodes[j], #[trigger] pre[j], pre, time, im, cf),
        forall|k: int|
            0 <= k < steps.len() ==> valid_step(#[trigger] steps[k], pre, time, im)
                && steps[k].node.0 < i,
        pre[i] == Some(NodeKind::Compute(c)),
        um@ == spec_inbound(pre, seq![c.input], time, im),
        call_ensures(cf, (c.func, um), out),
        cur == pre.update(i, Some(NodeKind::Compute((ComputeNode { output: out, ..c })))),
    ensures
        graph_wf(cur, gin, gout),
        forall|j: int| 0 <= j < cur.len() ==> (cur[j] is None <==> onodes[j] is None),
        forall|j: int| i + 1 <= j < cur.len() ==> cur[j] == onodes[j],
        forall|j: int|
            0 <= j < i + 1 ==> advanced_slot(onodes[j], #[trigger] cur[j], cur, time, im, cf),
        forall|k: int|
            0 <= k < steps.len() ==> valid_step(#[trigger] steps[k], cur, time, im)
                && steps[k].node.0 < i + 1,
{
    lemma_forward_step_common(pre, cur, onodes, steps, gin, gout, i, time, im, cf);
    assert(advanced_slot(onodes[i], cur[i], cur, time, im, cf)) by {
        assert(deps_in_range(spec_inputs(pre[i]->0), i));
        assert(seq![c.input][0] == c.input);
        assert(c.input.0 < i);
        lemma_add_deps_agree(time_base(time), pre, cur, seq![c.input], im);
        assert(um@ == spec_inbound(cur, seq![c.input], time, im));
    }
}

/// Topological safety: in a well-formed graph, every dependency of a
/// present node points strictly before the node itself, so table order is
/// a topological order. A node whose dependencies would break this is
/// never admitted: [`ShaderGraph::add_node`] rules it out by contract,
/// and [`ShaderGraph::deps_ok`] is the runtime check for callers that
/// cannot establish the bound statically.
pub proof fn lemma_topological_order(g: ShaderGraph, i: int, k: int)
    requires
        g.wf(),
        0 <= i < g.nodes@.len(),
        g.nodes@[i] is Some,
        0 <= k < spec_inputs(g.nodes@[i]->0).len(),
    ensures
        spec_inputs(g.nodes@[i]->0)[k].0 < i,
{
}

/// Dependencies bind only under the reserved "texture" and "compute"
/// kinds, so any other kind absent before stays absent.
proof fn lemma_add_deps_no_other(
    m: MapView,
    nodes: Seq<Option<NodeKind>>,
    deps: Seq<NodeId>,
    im: Seq<(NodeId, TexHandle)>,
    kind: Seq<char>,
)
    requires
        lookup_kind(m, kind) is None,
        kind != "texture"@,
        kind != "compute"@,
    ensures
        lookup_kind(add_deps(m, nodes, deps, im), kind) is None,
    decreases deps.len(),
{
    if deps.len() > 0 {
        let m1 = add_dep(m, nodes, deps[0], im);
        assert(lookup_kind(m1, kind) is None) by {
            match nodes[deps[0].0 as int] {
                Some(n) => {
                    crate::uniform::lemma_lookup_map_add(m, spec_output(n).0, spec_output(n).1, kind);
                },
                None => {
                    match lookup_tex(im, deps[0]) {
                        Some(t) => {
                            crate::uniform::lemma_lookup_map_add(
                                m,
                                "texture"@,
                                Uniform::Texture(t),
                                kind,
                            );
                        },
                        None => {},
                    }
                },
            }
        }
        lemma_add_deps_no_other(m1, nodes, deps.skip(1), im, kind);
    }
}

/// No node's inbound uniforms carry the reserved "previous" kind: it is
/// bound only by a feedback shader node itself, after its buffers swap.
proof fn lemma_inbound_no_previous(
    nodes: Seq<Option<NodeKind>>,
    deps: Seq<NodeId>,
    time: u32,
    im: Seq<(NodeId, TexHandle)>,
)
    ensures
        lookup_kind(spec_inbound(nodes, deps, time, im), "previous"@) is None,
{
    reveal_strlit("previous");
    reveal_strlit("time");
    reveal_strlit("texture");
    reveal_strlit("compute");
    assert("previous"@.len() == 8 && "time"@.len() == 4 && "texture"@.len() == 7 && "compute"@.len()
        == 7);
    crate::uniform::lemma_lookup_map_add(
        MapView::empty(),
        "time"@,
        Uniform::Float(time),
        "previous"@,
    );
    lemma_add_deps_no_other(time_base(time), nodes, deps, im, "previous"@);
}

/// Forward-pass determinism: over two passes on the same input-resource
/// mapping, the resource returned for an output id whose slot is an input
/// or a single-buffered shader node is the same in both passes. Only
/// feedback nodes expose a different (the swapped) resource.
pub proof fn lemma_forward_determinism<C1: Fn(u64, UniformMap) -> Uniform, C2: Fn(u64, UniformMap) -> Uniform>(
    nodes0: Seq<Option<NodeKind>>,
    nodes1: Seq<Option<NodeKind>>,
    nodes2: Seq<Option<NodeKind>>,
    time1: u32,
    time2: u32,
    im: Seq<(NodeId, TexHandle)>,
    cf1: C1,
    cf2: C2,
    id: NodeId,
)
    requires
        nodes0.len() == nodes1.len(),
        nodes1.len() == nodes2.len(),
        forall|j: int|
            0 <= j < nodes0.len() ==> advanced_slot(
                nodes0[j],
                #[trigger] nodes1[j],
                nodes1,
                time1,
                im,
                cf1,
            ),
        forall|j: int|
            0 <= j < nodes1.len() ==> advanced_slot(
                nodes1[j],
                #[trigger] nodes2[j],
                nodes2,
                time2,
                im,
                cf2,
            ),
        0 <= id.0 < nodes0.len(),
        match nodes0[id.0 as int] {
            None => true,
            Some(NodeKind::Shader(s)) => s.buffer is Single,
            Some(NodeKind::Compute(_)) => false,
        },
    ensures
        out_tex(nodes2, im, id) == out_tex(nodes1, im, id),
{
    assert(advanced_slot(nodes0[id.0 as int], nodes1[id.0 as int], nodes1, time1, im, cf1));
    assert(advanced_slot(nodes1[id.0 as int], nodes2[id.0 as int], nodes2, time2, im, cf2));
}

/// The feedback swap law: for a feedback node, the resource bound under
/// "previous" on one pass is exactly the resource that was the render
/// target on the pass before.
pub proof fn lemma_feedback_swap<C1: Fn(u64, UniformMap) -> Uniform, C2: Fn(u64, UniformMap) -> Uniform>(
    nodes0: Seq<Option<NodeKind>>,
    nodes1: Seq<Option<NodeKind>>,
    nodes2: Seq<Option<NodeKind>>,
    steps1: Seq<RenderStep>,
    steps2: Seq<RenderStep>,
    k1: int,
    k2: int,
    time1: u32,
    time2: u32,
    im: Seq<(NodeId, TexHandle)>,
    cf1: C1,
    cf2: C2,
)
    requires
        nodes0.len() == nodes1.len(),
        nodes1.len() == nodes2.len(),
        forall|j: int|
            0 <= j < nodes0.len() ==> advanced_slot(
                nodes0[j],
                #[trigger] nodes1[j],
                nodes1,
                time1,
                im,
                cf1,
            ),
        forall|j: int|
            0 <= j < nodes1.len() ==> advanced_slot(
                nodes1[j],
                #[trigger] nodes2[j],
                nodes2,
                time2,
                im,
                cf2,
            ),
        0 <= k1 < steps1.len(),
        0 <= k2 < steps2.len(),
        valid_step(steps1[k1], nodes1, time1, im),
        valid_step(steps2[k2], nodes2, time2, im),
        steps1[k1].node == steps2[k2].node,
        match nodes0[steps1[k1].node.0 as int] {
            Some(NodeKind::Shader(s)) => s.buffer is Double,
            _ => false,
        },
    ensures
        lookup_kind(steps2[k2].uniforms@, "previous"@) == Some(
            seq![Uniform::Texture(steps1[k1].target)],
        ),
{
    let i = steps1[k1].node.0 as int;
    assert(advanced_slot(nodes0[i], nodes1[i], nodes1, time1, im, cf1));
    assert(advanced_slot(nodes1[i], nodes2[i], nodes2, time2, im, cf2));
    let s0 = nodes0[i]->0->Shader_0;
    let s1 = nodes1[i]->0->Shader_0;
    let s2 = nodes2[i]->0->Shader_0;
    assert(s1.buffer == spec_swapped(s0.buffer));
    assert(s2.buffer == spec_swapped(s1.buffer));
    assert(steps1[k1].target == spec_front(s1.buffer));
    assert(spec_back(s2.buffer) == Some(spec_front(s1.buffer)));
    let base = spec_inbound(nodes2, s2.inputs@, time2, im);
    let with_res = map_add(base, "resolution"@, Uniform::Size(s2.width, s2.height));
    assert(steps2[k2].uniforms@ == map_add(
        with_res,
        "previous"@,
        Uniform::Texture(spec_front(s1.buffer)),
    ));
    lemma_inbound_no_previous(nodes2, s2.inputs@, time2, im);
    assert(lookup_kind(with_res, "previous"@) is None) by {
        reveal_strlit("previous");
        reveal_strlit("resolution");
        assert("previous"@.len() == 8 && "resolution"@.len() == 10);
        crate::uniform::lemma_lookup_map_add(
            base,
            "resolution"@,
            Uniform::Size(s2.width, s2.height),
            "previous"@,
        );
    }
    crate::uniform::lemma_lookup_map_add(
        with_res,
        "previous"@,
        Uniform::Texture(spec_front(s1.buffer)),
        "previous"@,
    );
}

/// Binding dependencies reads only the dependencies' own slots: two node
/// tables that agree there bind the same map.
proof fn lemma_add_deps_agree(
    m: MapView,
    n1: Seq<Option<NodeKind>>,
    n2: Seq<Option<NodeKind>>,
    deps: Seq<NodeId>,
    im: Seq<(NodeId, TexHandle)>,
)
    requires
        forall|k: int|
            0 <= k < deps.len() ==> 0 <= (#[trigger] deps[k]).0 < n1.len() && deps[k].0 < n2.len()
                && n1[deps[k].0 as int] == n2[deps[k].0 as int],
    ensures
        add_deps(m, n1, deps, im) == add_deps(m, n2, deps, im),
    decreases deps.len(),
{
    if deps.len() > 0 {
        assert(forall|k: int| 0 <= k < deps.skip(1).len() ==> deps.skip(1)[k] == deps[k + 1]);
        lemma_add_deps_agree(add_dep(m, n1, deps[0], im), n1, n2, deps.skip(1), im);
    }
}

} // verus!
