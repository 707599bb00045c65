//! A directory of shading sources with a graph description, and the
//! debounced hot-reload state machine: a change notification marks the
//! state dirty; once the debounce window has passed, a rebuild is
//! attempted; a failed rebuild keeps the previous graph live.
use vstd::prelude::*;

use crate::graph::ShaderGraph;

verus! {

/// The debounce window between reload attempts, in milliseconds.
pub const DEBOUNCE_MS: u64 = 300;

/// Represents a directory of shaders, and a shader graph description.
#[derive(Debug)]
pub struct ShaderDir {
    pub lisp: String,
    pub shaders: Vec<(String, String)>,
}

impl ShaderDir {
    /// Creates a new `ShaderDir` from component parts.
    pub fn new(lisp_graph: String, shaders: Vec<(String, String)>) -> (r: ShaderDir)
        ensures
            r.lisp == lisp_graph,
            r.shaders == shaders,
    {
        ShaderDir { lisp: lisp_graph, shaders }
    }
}

/// What one poll of the reload controller found.
#[derive(Debug)]
pub enum WatchResult {
    /// No changes were made.
    NoChange,
    /// Changes were made and the graph was rebuilt.
    Rebuilt,
    /// Changes were made but the graph could not be rebuilt.
    Failed(String),
}

/// The live graph and the debounce clock. The embedding application
/// watches for changes and rebuilds descriptions; this state machine
/// decides when a rebuild is due and guarantees that a failed rebuild
/// leaves the live graph exactly as it was.
#[derive(Debug)]
pub struct ReloadController {
    /// The graph forward passes run against.
    pub graph: ShaderGraph,
    /// When the last rebuild attempt finished, in milliseconds.
    pub last_reload_ms: u64,
}

impl ReloadController {
    /// A controller over a freshly built graph.
    pub fn new(graph: ShaderGraph, now_ms: u64) -> (r: ReloadController)
        ensures
            r.graph == graph,
            r.last_reload_ms == now_ms,
    {
        ReloadController { graph, last_reload_ms: now_ms }
    }

    /// Whether a rebuild is due: a change is pending and the debounce
    /// window since the last attempt has passed.
    pub fn should_reload(&self, now_ms: u64, changed: bool) -> (r: bool)
        requires
            now_ms >= self.last_reload_ms,
        ensures
            r == (now_ms - self.last_reload_ms > DEBOUNCE_MS && changed),
    {
        now_ms - self.last_reload_ms > DEBOUNCE_MS && changed
    }

    /// Takes the outcome of a rebuild attempt. A successful build
    /// replaces the live graph; a failed one leaves it untouched, byte
    /// for byte, and only reports the message. Either way the debounce
    /// clock restarts.
    pub fn apply_reload(&mut self, now_ms: u64, built: Result<ShaderGraph, String>) -> (r:
        WatchResult)
        ensures
            final(self).last_reload_ms == now_ms,
            match built {
                Ok(g) => final(self).graph == g && r is Rebuilt,
                Err(e) => final(self).graph == old(self).graph && r == WatchResult::Failed(e),
            },
    {
        let result = match built {
            Ok(graph) => {
                self.graph = graph;
                WatchResult::Rebuilt
            },
            Err(error) => WatchResult::Failed(error),
        };
        self.last_reload_ms = now_ms;
        result
    }
}

/// Whitespace, as the description reader treats single bytes.
pub open spec fn byte_ws(b: u8) -> bool {
    b == 32 || b == 9 || b == 10 || b == 13 || b == 11 || b == 12 || b == 133 || b == 160
}

/// Whitespace, decided.
fn ws_byte(b: u8) -> (r: bool)
    ensures
        r == byte_ws(b),
{
    b == 32 || b == 9 || b == 10 || b == 13 || b == 11 || b == 12 || b == 133 || b == 160
}

/// The first position at or after `i` holding an opening parenthesis.
pub open spec fn first_open(bytes: Seq<u8>, i: int) -> int
    decreases bytes.len() - i,
{
    if i < 0 || i >= bytes.len() {
        i
    } else if bytes[i] == 40 {
        i
    } else {
        first_open(bytes, i + 1)
    }
}

/// The first position at or after `i` holding a non-whitespace byte.
pub open spec fn first_nonws(bytes: Seq<u8>, i: int) -> int
    decreases bytes.len() - i,
{
    if i < 0 || i >= bytes.len() {
        i
    } else if byte_ws(bytes[i]) {
        first_nonws(bytes, i + 1)
    } else {
        i
    }
}

/// The bytes of the keyword that opens an output declaration.
pub open spec fn output_keyword() -> Seq<u8> {
    seq![111u8, 117u8, 116u8, 112u8, 117u8, 116u8]
}

/// Whether the form starting at `start` is an output declaration: an
/// opening parenthesis, whitespace, then the word `output`.
pub open spec fn spec_output_sexpr(bytes: Seq<u8>, start: int) -> bool {
    let p = first_open(bytes, start);
    let q = first_nonws(bytes, p + 1);
    q + 6 <= bytes.len() && bytes.subrange(q, q + 6) == output_keyword()
}

/// The number of opening parentheses in a byte range: how the stream
/// reader tracks whether a whole form has arrived.
pub open spec fn spec_open_count(bytes: Seq<u8>, from: int, to: int) -> int
    decreases to - from,
{
    if from < 0 || from >= to || to > bytes.len() {
        0
    } else {
        (if bytes[from] == 40 {
            1int
        } else {
            0int
        }) + spec_open_count(bytes, from + 1, to)
    }
}

/// Counts the opening parentheses in a byte range.
pub fn count_open_parens(bytes: &Vec<u8>, from: usize, to: usize) -> (n: usize)
    requires
        from <= to <= bytes@.len(),
    ensures
        n == spec_open_count(bytes@, from as int, to as int),
{
    let mut n: usize = 0;
    let mut i = from;
    proof {
        lemma_open_count_bound(bytes@, from as int, to as int);
    }
    while i < to
        invariant
            from <= i <= to <= bytes@.len(),
            n == spec_open_count(bytes@, from as int, i as int),
            n <= i - from,
        decreases to - i,
    {
        proof {
            lemma_open_count_step(bytes@, from as int, i as int);
        }
        if bytes[i] == 40 {
            n += 1;
        }
        i += 1;
    }
    n
}

/// A count over a range is at most the range's width.
proof fn lemma_open_count_bound(bytes: Seq<u8>, from: int, to: int)
    ensures
        0 <= spec_open_count(bytes, from, to) <= (if to >= from {
            to - from
        } else {
            0
        }),
    decreases to - from,
{
    if !(from < 0 || from >= to || to > bytes.len()) {
        lemma_open_count_bound(bytes, from + 1, to);
    }
}

/// A count grows by the new byte alone.
proof fn lemma_open_count_step(bytes: Seq<u8>, from: int, i: int)
    requires
        0 <= from <= i < bytes.len(),
    ensures
        spec_open_count(bytes, from, i + 1) == spec_open_count(bytes, from, i) + (if bytes[i] == 40 {
            1int
        } else {
            0int
        }),
    decreases i - from,
{
    if from < i {
        lemma_open_count_step(bytes, from + 1, i);
        assert(spec_open_count(bytes, from, i + 1) == (if bytes[from] == 40 {
            1int
        } else {
            0int
        }) + spec_open_count(bytes, from + 1, i + 1));
        assert(spec_open_count(bytes, from, i) == (if bytes[from] == 40 {
            1int
        } else {
            0int
        }) + spec_open_count(bytes, from + 1, i));
    } else {
        assert(spec_open_count(bytes, i, i + 1) == (if bytes[i] == 40 {
            1int
        } else {
            0int
        }) + spec_open_count(bytes, i + 1, i + 1));
        assert(spec_open_count(bytes, i + 1, i + 1) == 0);
        assert(spec_open_count(bytes, i, i) == 0);
    }
}

/// Whether the form read last is an output declaration: how the stream
/// reader decides that the description's final form has arrived. The
/// bytes must hold an opening parenthesis at or after `start`, and a
/// non-whitespace byte after it.
pub fn did_read_output_sexpr(bytes: &Vec<u8>, start: usize) -> (r: bool)
    requires
        start <= bytes@.len(),
        exists|p: int| start <= p < bytes@.len() && bytes@[p] == 40,
        exists|q: int|
            first_open(bytes@, start as int) < q < bytes@.len() && !byte_ws(bytes@[q]),
    ensures
        r == spec_output_sexpr(bytes@, start as int),
{
    let n = bytes.len();
    let mut i = start;
    while bytes[i] != 40
        invariant
            start <= i < n,
            n == bytes@.len(),
            first_open(bytes@, start as int) == first_open(bytes@, i as int),
            exists|p: int| i <= p < bytes@.len() && bytes@[p] == 40,
            exists|q: int|
                first_open(bytes@, start as int) < q < bytes@.len() && !byte_ws(bytes@[q]),
        decreases n - i,
    {
        i += 1;
        proof {
            let p = choose|p: int| i - 1 <= p < bytes@.len() && bytes@[p] == 40;
            assert(i <= p < bytes@.len() && bytes@[p] == 40);
        }
    }
    proof {
        assert(first_open(bytes@, start as int) == i);
    }
    i += 1;
    let ghost p0 = i - 1;
    while i < n && ws_byte(bytes[i])
        invariant
            p0 + 1 <= i <= n,
            n == bytes@.len(),
            first_open(bytes@, start as int) == p0,
            first_nonws(bytes@, p0 + 1) == first_nonws(bytes@, i as int),
            exists|q: int| p0 < q < bytes@.len() && !byte_ws(bytes@[q]),
        decreases n - i,
    {
        i += 1;
    }
    proof {
        if i < n {
            assert(first_nonws(bytes@, i as int) == i);
        } else {
            let q = choose|q: int| p0 < q < bytes@.len() && !byte_ws(bytes@[q]);
            assert(first_nonws(bytes@, q) == q);
            assert(false) by {
                lemma_first_nonws_le(bytes@, p0 + 1, q);
            }
        }
        assert(first_nonws(bytes@, p0 + 1) == i);
    }
    if n - i < 6 {
        return false;
    }
    let r = bytes[i] == 111 && bytes[i + 1] == 117 && bytes[i + 2] == 116 && bytes[i + 3] == 112
        && bytes[i + 4] == 117 && bytes[i + 5] == 116;
    proof {
        if r {
            assert(bytes@.subrange(i as int, i as int + 6) =~= output_keyword());
        } else {
            assert(bytes@.subrange(i as int, i as int + 6) != output_keyword()) by {
                if bytes@.subrange(i as int, i as int + 6) == output_keyword() {
                    assert(bytes@[i as int] == output_keyword()[0]);
                    assert(bytes@[i as int + 1] == output_keyword()[1]);
                    assert(bytes@[i as int + 2] == output_keyword()[2]);
                    assert(bytes@[i as int + 3] == output_keyword()[3]);
                    assert(bytes@[i as int + 4] == output_keyword()[4]);
                    assert(bytes@[i as int + 5] == output_keyword()[5]);
                }
            }
        }
    }
    r
}

/// A whitespace scan never lands before a non-whitespace byte it passes.
proof fn lemma_first_nonws_le(bytes: Seq<u8>, i: int, q: int)
    requires
        0 <= i <= q < bytes.len(),
        !byte_ws(bytes[q]),
    ensures
        first_nonws(bytes, i) <= q,
    decreases q - i,
{
    if i < q && byte_ws(bytes[i]) {
        lemma_first_nonws_le(bytes, i + 1, q);
    }
}

} // verus!
