//! The node variants of a shader graph and the buffers shader nodes own.
use vstd::prelude::*;

use crate::NodeId;
use crate::uniform::Uniform;

verus! {

/// A pixel resource, by identity: either one a shader node owns (named by
/// the node's table index and which of its two slots it is), or one the
/// embedding application supplied for an input slot.
#[derive(Debug, Clone, Copy, PartialEq, Eq, Structural)]
pub enum TexHandle {
    Owned { node: usize, back: bool },
    Supplied { id: u64 },
}

/// The pixel resource or resource pair a shader node renders into: a
/// single buffer for a stateless shader, a front/back pair for a shader
/// that reads its own previous frame.
#[derive(Debug, Clone, Copy, PartialEq, Eq, Structural)]
pub enum Buffer {
    Single(TexHandle),
    Double(TexHandle, TexHandle),
}

/// A buffer after one swap: the pair exchanged, a single buffer unchanged.
pub open spec fn spec_swapped(b: Buffer) -> Buffer {
    match b {
        Buffer::Single(t) => Buffer::Single(t),
        Buffer::Double(front, back) => Buffer::Double(back, front),
    }
}

/// The resource currently rendered into and shown to consumers.
pub open spec fn spec_front(b: Buffer) -> TexHandle {
    match b {
        Buffer::Single(t) => t,
        Buffer::Double(front, _) => front,
    }
}

/// The resource holding the previous frame, if the buffer keeps one.
pub open spec fn spec_back(b: Buffer) -> Option<TexHandle> {
    match b {
        Buffer::Single(_) => None,
        Buffer::Double(_, back) => Some(back),
    }
}

impl Buffer {
    /// A double buffer from its two resources.
    pub fn new_double(front: TexHandle, back: TexHandle) -> (r: Buffer)
        ensures
            r == Buffer::Double(front, back),
    {
        Buffer::Double(front, back)
    }

    /// The resource currently rendered into.
    pub fn front(&self) -> (r: TexHandle)
        ensures
            r == spec_front(*self),
    {
        match self {
            Buffer::Single(texture) => *texture,
            Buffer::Double(front, _) => *front,
        }
    }

    /// The resource holding the previous frame, if the buffer keeps one.
    pub fn back(&self) -> (r: Option<TexHandle>)
        ensures
            r == spec_back(*self),
    {
        match self {
            Buffer::Single(_) => None,
            Buffer::Double(_, back) => Some(*back),
        }
    }

    /// Exchanges front and back; the only mutation a buffer admits.
    pub fn swap(&mut self)
        ensures
            *final(self) == spec_swapped(*old(self)),
    {
        if let Buffer::Double(front, back) = *self {
            *self = Buffer::Double(back, front);
        }
    }
}

/// A single shader stage: its shading source (parameter substitutions
/// already applied; the rendering layer compiles it), the nodes whose
/// outputs it consumes, its output size, and the buffer it renders into.
#[derive(Debug)]
pub struct ShaderNode {
    pub shader: String,
    pub inputs: Vec<NodeId>,
    pub width: u32,
    pub height: u32,
    pub buffer: Buffer,
}

/// A compute stage: the host-registered function it runs (by the identity
/// the embedding application gave it), the single node whose output it
/// consumes, and the value it produced last.
#[derive(Debug)]
pub struct ComputeNode {
    pub func: u64,
    pub input: NodeId,
    pub output: Uniform,
}

/// A present node of the graph: a closed set of variants, since input
/// slots are absent entries of the node table.
#[derive(Debug)]
pub enum NodeKind {
    Shader(ShaderNode),
    Compute(ComputeNode),
}

/// The dependencies a node declares, in binding order.
pub open spec fn spec_inputs(n: NodeKind) -> Seq<NodeId> {
    match n {
        NodeKind::Shader(s) => s.inputs@,
        NodeKind::Compute(c) => seq![c.input],
    }
}

/// The kind and value a node contributes to a consumer's uniform map.
pub open spec fn spec_output(n: NodeKind) -> (Seq<char>, Uniform) {
    match n {
        NodeKind::Shader(s) => ("texture"@, Uniform::Texture(spec_front(s.buffer))),
        NodeKind::Compute(c) => ("compute"@, c.output),
    }
}

/// The pixel resource a node produces, if its variant produces one. This
/// never changes variant after construction: a shader node always answers
/// `Some`, a compute node always `None`.
pub open spec fn spec_texture(n: NodeKind) -> Option<TexHandle> {
    match n {
        NodeKind::Shader(s) => Some(spec_front(s.buffer)),
        NodeKind::Compute(_) => None,
    }
}

impl NodeKind {
    /// The dependencies this node declares, in binding order.
    pub fn inputs(&self) -> (r: Vec<NodeId>)
        ensures
            r@ == spec_inputs(*self),
    {
        let mut r: Vec<NodeId> = Vec::new();
        match self {
            NodeKind::Shader(s) => {
                let mut i: usize = 0;
                let n = s.inputs.len();
                while i < n
                    invariant
                        0 <= i <= n,
                        n == s.inputs.len(),
                        r@ == s.inputs@.take(i as int),
                    decreases n - i,
                {
                    r.push(s.inputs[i]);
                    proof {
                        assert(r@ =~= s.inputs@.take(i as int + 1));
                    }
                    i += 1;
                }
                proof {
                    assert(s.inputs@.take(n as int) =~= s.inputs@);
                }
            },
            NodeKind::Compute(c) => {
                r.push(c.input);
                proof {
                    assert(r@ =~= seq![c.input]);
                }
            },
        }
        r
    }

    /// The kind and value this node contributes to a consumer.
    pub fn outputs(&self) -> (r: (&'static str, Uniform))
        ensures
            (r.0@, r.1) == spec_output(*self),
    {
        match self {
            NodeKind::Shader(s) => ("texture", Uniform::Texture(s.buffer.front())),
            NodeKind::Compute(c) => ("compute", c.output),
        }
    }

    /// The pixel resource this node produces, if its variant produces one.
    pub fn texture(&self) -> (r: Option<TexHandle>)
        ensures
            r == spec_texture(*self),
    {
        match self {
            NodeKind::Shader(s) => Some(s.buffer.front()),
            NodeKind::Compute(_) => None,
        }
    }
}

} // verus!
