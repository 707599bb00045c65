//! The interpreter: compiles a parsed graph description into graph
//! mutations. Declarations are `input`, `output`, `define`, `let` and
//! `repeat`; expressions are literals, variables, graph-building forms,
//! arithmetic builtins and user-defined procedure calls.
use vstd::prelude::*;

use std::rc::Rc;

use crate::NodeId;
use crate::env::Env;
use crate::env::clone_fndef;
use crate::env::frame_find;
use crate::env::table_find;
use crate::env::scope_find;
use crate::graph::ShaderGraph;
use crate::graph::deps_in_range;
use crate::graph::shader_slot;
use crate::graph::slot_eligible;
use crate::numeric::ONE_BITS;
use crate::numeric::ZERO_BITS;
use crate::numeric::dbl_add;
use crate::numeric::dbl_div;
use crate::numeric::dbl_mul;
use crate::numeric::dbl_sub;
use crate::numeric::fold_add;
use crate::numeric::fold_div;
use crate::numeric::fold_mul;
use crate::numeric::fold_sub;
use crate::reload::ShaderDir;
use crate::sexp::GSexp;
use crate::sexp::views_of;
use crate::sexp::Sexp;
use crate::sexp::parse_sexps;
use crate::strings::concat2;
use crate::strings::concat3;
use crate::strings::replace_all;
use crate::strings::spec_replace;
use crate::strings::str_eq;
use crate::strings::usize_to_string;
use crate::val::GVal;
use crate::val::Val;
use crate::val::spec_nat_of;
use crate::val::spec_number_string;

verus! {

/// How deeply forms may nest, counted in interpreter steps: the
/// interpreter reports an error beyond this depth instead of exhausting
/// the call stack on a runaway recursive procedure.
pub const BUILD_DEPTH: u64 = 4096;

/// A graph extends another: the node table, the input list and the
/// output list have only grown at the end.
pub open spec fn graph_extends(g1: ShaderGraph, g2: ShaderGraph) -> bool {
    &&& g2.nodes@.len() >= g1.nodes@.len()
    &&& g2.nodes@.take(g1.nodes@.len() as int) == g1.nodes@
    &&& g1.inputs@.is_prefix_of(g2.inputs@)
    &&& g1.outputs@.is_prefix_of(g2.outputs@)
}

/// Extension composes.
pub proof fn lemma_extends_trans(g1: ShaderGraph, g2: ShaderGraph, g3: ShaderGraph)
    requires
        graph_extends(g1, g2),
        graph_extends(g2, g3),
    ensures
        graph_extends(g1, g3),
{
    assert(g3.nodes@.take(g1.nodes@.len() as int) =~= g2.nodes@.take(g1.nodes@.len() as int));
    assert(g1.inputs@.is_prefix_of(g3.inputs@)) by {
        assert(g3.inputs@.take(g1.inputs@.len() as int) =~= g2.inputs@.take(
            g1.inputs@.len() as int,
        ));
    }
    assert(g1.outputs@.is_prefix_of(g3.outputs@)) by {
        assert(g3.outputs@.take(g1.outputs@.len() as int) =~= g2.outputs@.take(
            g1.outputs@.len() as int,
        ));
    }
}

/// Every graph extends itself.
pub proof fn lemma_extends_refl(g: ShaderGraph)
    ensures
        graph_extends(g, g),
{
    assert(g.nodes@.take(g.nodes@.len() as int) =~= g.nodes@);
    assert(g.inputs@.take(g.inputs@.len() as int) =~= g.inputs@);
    assert(g.outputs@.take(g.outputs@.len() as int) =~= g.outputs@);
}

/// A value's node reference, if it is one, lies below `n`.
pub open spec fn node_val_lt(v: Val, n: int) -> bool {
    match v@ {
        GVal::Node(id) => id.0 < n,
        _ => true,
    }
}

/// Every node reference bound anywhere in the variable scopes lies below
/// `n`: what makes a variable's node usable as a dependency.
pub open spec fn vars_nodes_ok(frames: Seq<Vec<(String, Val)>>, n: int) -> bool {
    forall|f: int, e: int|
        0 <= f < frames.len() && 0 <= e < frames[f]@.len() ==> #[trigger] node_val_lt(
            frames[f]@[e].1,
            n,
        )
}

/// Every node reference in a list of values lies below `n`.
pub open spec fn vals_nodes_ok(vals: Seq<Val>, n: int) -> bool {
    forall|e: int| 0 <= e < vals.len() ==> #[trigger] node_val_lt(vals[e], n)
}

/// Every absent slot is recorded in the input list, so a caller knows
/// which resources a forward pass will ask for.
pub open spec fn inputs_recorded(g: ShaderGraph) -> bool {
    forall|i: int|
        0 <= i < g.nodes@.len() && (#[trigger] g.nodes@[i]) is None ==> g.inputs@.contains(
            NodeId(i as usize),
        )
}

/// What holds of the graph and environment between interpreter steps.
pub open spec fn interp_inv(g: ShaderGraph, env: Env) -> bool {
    &&& g.wf()
    &&& inputs_recorded(g)
    &&& env.wf()
    &&& vars_nodes_ok(env.vars_view(), g.nodes@.len() as int)
}

/// Node references stay valid as the graph grows.
pub proof fn lemma_nodes_ok_mono(frames: Seq<Vec<(String, Val)>>, n: int, m: int)
    requires
        vars_nodes_ok(frames, n),
        n <= m,
    ensures
        vars_nodes_ok(frames, m),
{
    assert forall|f: int, e: int|
        0 <= f < frames.len() && 0 <= e < frames[f]@.len() implies #[trigger] node_val_lt(
        frames[f]@[e].1,
        m,
    ) by {
        assert(node_val_lt(frames[f]@[e].1, n));
    }
}

/// Value-list node references stay valid as the graph grows.
pub proof fn lemma_vals_ok_mono(vals: Seq<Val>, n: int, m: int)
    requires
        vals_nodes_ok(vals, n),
        n <= m,
    ensures
        vals_nodes_ok(vals, m),
{
    assert forall|e: int| 0 <= e < vals.len() implies #[trigger] node_val_lt(vals[e], m) by {
        assert(node_val_lt(vals[e], n));
    }
}

/// An interpreter step may add bindings to the innermost frame and may
/// push frames, but never touches a frame below the caller's innermost.
pub open spec fn keeps_below_top<T>(
    olds: Seq<Vec<(String, T)>>,
    news: Seq<Vec<(String, T)>>,
) -> bool {
    news.len() >= olds.len() && forall|i: int|
        0 <= i < olds.len() - 1 ==> #[trigger] news[i] == olds[i]
}

/// An expression step leaves every frame the caller had untouched; new
/// frames may remain only on an error path, which aborts the build.
pub open spec fn keeps_all<T>(olds: Seq<Vec<(String, T)>>, news: Seq<Vec<(String, T)>>) -> bool {
    news.len() >= olds.len() && news.take(olds.len() as int) == olds
}

/// What a host-registered external builder may do to a graph it is
/// handed: extend it, keep it well-formed with its inputs recorded, and
/// return — on success — a node of the extended graph.
pub open spec fn ext_builder_ok(
    g1: ShaderGraph,
    g2: ShaderGraph,
    r: Result<NodeId, String>,
) -> bool {
    &&& graph_extends(g1, g2)
    &&& (g1.wf() ==> g2.wf())
    &&& (inputs_recorded(g1) ==> inputs_recorded(g2))
    &&& (g1.wf() ==> match r {
        Ok(id) => id.0 < g2.nodes@.len(),
        Err(_) => true,
    })
}

/// What the interpreter demands of the host's dispatcher for external
/// builders: callable on anything, and every outcome an
/// [`ext_builder_ok`] one.
pub open spec fn dispatcher_ok<F: Fn(u64, ShaderGraph, Vec<NodeId>) -> (
    ShaderGraph,
    Result<NodeId, String>,
)>(f: F) -> bool {
    &&& forall|args: (u64, ShaderGraph, Vec<NodeId>)| #[trigger] call_requires(f, args)
    &&& forall|args: (u64, ShaderGraph, Vec<NodeId>), out: (ShaderGraph, Result<NodeId, String>)|
        #[trigger] call_ensures(f, args, out) ==> ext_builder_ok(args.1, out.0, out.1)
}

/// The dimension a literal number denotes: truncated toward zero to a
/// count, then to the 32 bits a dimension holds.
pub open spec fn lit_dim(b: u64) -> u32 {
    spec_nat_of(b) as u32
}

/// The placeholder a substitution name marks in a shading source.
pub open spec fn angle_pat(n: Seq<char>) -> Seq<char> {
    seq!['<'] + n + seq!['>']
}

/// The line a `define` substitution writes for a name and a value.
pub open spec fn define_line(n: Seq<char>, v: Seq<char>) -> Seq<char> {
    "#define "@ + n + " "@ + v
}

/// The line an enabled `ifdef` substitution writes for a name.
pub open spec fn ifdef_line(n: Seq<char>) -> Seq<char> {
    "#define "@ + n + " 1"@
}

/// The message reported for a definition with an empty body.
pub open spec fn empty_body_msg(n: Seq<char>) -> Seq<char> {
    "Definition `"@ + n + "` must have at least one expression in body"@
}

/// The keywords that head a declaration.
pub open spec fn decl_keyword(k: Seq<char>) -> bool {
    k == "input"@ || k == "output"@ || k == "define"@ || k == "let"@ || k == "repeat"@
}

/// A form that can stand as a top-level declaration: a list headed by a
/// declaration keyword. Nothing else ever declares successfully.
pub open spec fn decl_shaped(x: GSexp) -> bool {
    match x {
        GSexp::List(items) => items.len() >= 1 && (match items[0] {
            GSexp::Sym(k) => decl_keyword(k),
            _ => false,
        }),
        _ => false,
    }
}

/// The form names that build graph nodes directly.
pub open spec fn node_form_keyword(k: Seq<char>) -> bool {
    k == "shader"@ || k == "shader-inline"@ || k == "shader-rec"@ || k == "shader-rec-inline"@ || k
        == "shader-param"@ || k == "extern"@
}

/// The bits of each number in a value list; `None` at the first value
/// that is not a number.
pub open spec fn nums_of(vals: Seq<Val>) -> Option<Seq<u64>>
    decreases vals.len(),
{
    if vals.len() == 0 {
        Some(Seq::empty())
    } else {
        match vals[0]@ {
            GVal::Number(b) => match nums_of(vals.skip(1)) {
                Some(rest) => Some(seq![b] + rest),
                None => None,
            },
            _ => None,
        }
    }
}

/// One more number extends the list.
proof fn lemma_nums_of_push(vals: Seq<Val>, x: Val, b: u64)
    requires
        x@ == GVal::Number(b),
        nums_of(vals) is Some,
    ensures
        nums_of(vals.push(x)) == Some(nums_of(vals)->0.push(b)),
    decreases vals.len(),
{
    if vals.len() == 0 {
        assert(vals.push(x)[0] == x);
        assert(vals.push(x).skip(1) =~= Seq::<Val>::empty());
        assert(nums_of(Seq::<Val>::empty()) == Some(Seq::<u64>::empty()));
        assert(nums_of(vals.push(x)) == Some(seq![b] + Seq::<u64>::empty()));
        assert(seq![b] + Seq::<u64>::empty() =~= Seq::<u64>::empty().push(b));
    } else {
        assert(vals.push(x)[0] == vals[0]);
        assert(vals.push(x).skip(1) =~= vals.skip(1).push(x));
        lemma_nums_of_push(vals.skip(1), x, b);
        let ns = nums_of(vals.skip(1))->0;
        assert(nums_of(vals.push(x)) == Some(seq![vals[0]@->Number_0] + ns.push(b)));
        assert(seq![vals[0]@->Number_0] + ns.push(b) =~= (seq![vals[0]@->Number_0] + ns).push(b));
    }
}

/// A non-number anywhere sinks the list.
proof fn lemma_nums_of_none(vals: Seq<Val>, i: int)
    requires
        0 <= i < vals.len(),
        !(vals[i]@ is Number),
    ensures
        nums_of(vals) is None,
    decreases vals.len(),
{
    if i > 0 {
        lemma_nums_of_none(vals.skip(1), i - 1);
    }
}

/// The result of a variadic arithmetic builtin over the bits of its
/// arguments: a left fold of the double operation, with the operation's
/// identity for an empty sum or product and the first argument leading a
/// difference or quotient.
pub open spec fn spec_arith(name: Seq<char>, ns: Seq<u64>) -> u64 {
    if name == "+"@ {
        fold_add(ZERO_BITS, ns)
    } else if name == "*"@ {
        fold_mul(ONE_BITS, ns)
    } else if name == "-"@ {
        if ns.len() == 0 {
            ZERO_BITS
        } else {
            fold_sub(ns[0], ns.skip(1))
        }
    } else {
        if ns.len() == 0 {
            ONE_BITS
        } else {
            fold_div(ns[0], ns.skip(1))
        }
    }
}

/// Whether a name is an arithmetic builtin.
pub open spec fn is_builtin_name(name: Seq<char>) -> bool {
    name == "+"@ || name == "-"@ || name == "*"@ || name == "/"@
}

/// The arithmetic builtins: `None` for any other name; an error where an
/// argument is not a number; otherwise the folded result.
pub fn builtin(name: &str, args: &Vec<Val>) -> (r: Option<Result<Val, String>>)
    ensures
        r is Some <==> is_builtin_name(name@),
        match r {
            Some(res) => match nums_of(args@) {
                Some(ns) => res matches Ok(v) && v@ == GVal::Number(spec_arith(name@, ns)),
                None => res is Err,
            },
            None => true,
        },
{
    let is_add = str_eq(name, "+");
    let is_sub = str_eq(name, "-");
    let is_mul = str_eq(name, "*");
    let is_div = str_eq(name, "/");
    if !is_add && !is_sub && !is_mul && !is_div {
        return None;
    }
    let mut nums: Vec<u64> = Vec::new();
    let mut i: usize = 0;
    let n = args.len();
    proof {
        assert(args@.take(0) =~= Seq::<Val>::empty());
    }
    while i < n
        invariant
            0 <= i <= n,
            n == args@.len(),
            is_builtin_name(name@),
            nums_of(args@.take(i as int)) == Some(nums@),
        decreases n - i,
    {
        match args[i].to_float() {
            Ok(b) => {
                proof {
                    assert(args@.take(i as int + 1) =~= args@.take(i as int).push(args@[i as int]));
                    lemma_nums_of_push(args@.take(i as int), args@[i as int], b);
                }
                nums.push(b);
            },
            Err(e) => {
                proof {
                    lemma_nums_of_none(args@, i as int);
                }
                return Some(Err(e));
            },
        }
        i += 1;
    }
    proof {
        assert(args@.take(n as int) =~= args@);
    }
    let result: u64 = if is_add {
        let mut acc = ZERO_BITS;
        let mut k: usize = 0;
        let m = nums.len();
        proof {
            assert(nums@.skip(0) =~= nums@);
        }
        while k < m
            invariant
                0 <= k <= m,
                m == nums@.len(),
                fold_add(ZERO_BITS, nums@) == fold_add(acc, nums@.skip(k as int)),
            decreases m - k,
        {
            acc = dbl_add(acc, nums[k]);
            proof {
                assert(nums@.skip(k as int)[0] == nums@[k as int]);
                assert(nums@.skip(k as int).skip(1) =~= nums@.skip(k as int + 1));
            }
            k += 1;
        }
        proof {
            assert(nums@.skip(m as int) =~= Seq::<u64>::empty());
        }
        acc
    } else if is_mul {
        let mut acc = ONE_BITS;
        let mut k: usize = 0;
        let m = nums.len();
        proof {
            assert(nums@.skip(0) =~= nums@);
        }
        while k < m
            invariant
                0 <= k <= m,
                m == nums@.len(),
                fold_mul(ONE_BITS, nums@) == fold_mul(acc, nums@.skip(k as int)),
            decreases m - k,
        {
            acc = dbl_mul(acc, nums[k]);
            proof {
                assert(nums@.skip(k as int)[0] == nums@[k as int]);
                assert(nums@.skip(k as int).skip(1) =~= nums@.skip(k as int + 1));
            }
            k += 1;
        }
        proof {
            assert(nums@.skip(m as int) =~= Seq::<u64>::empty());
        }
        acc
    } else if is_sub {
        if nums.len() == 0 {
            ZERO_BITS
        } else {
            let mut acc = nums[0];
            let mut k: usize = 1;
            let m = nums.len();
            proof {
                assert(nums@.skip(1).skip(0) =~= nums@.skip(1));
            }
            while k < m
                invariant
                    1 <= k <= m,
                    m == nums@.len(),
                    fold_sub(nums@[0], nums@.skip(1)) == fold_sub(acc, nums@.skip(k as int)),
                decreases m - k,
            {
                acc = dbl_sub(acc, nums[k]);
                proof {
                    assert(nums@.skip(k as int)[0] == nums@[k as int]);
                    assert(nums@.skip(k as int).skip(1) =~= nums@.skip(k as int + 1));
                }
                k += 1;
            }
            proof {
                assert(nums@.skip(m as int) =~= Seq::<u64>::empty());
            }
            acc
        }
    } else {
        if nums.len() == 0 {
            ONE_BITS
        } else {
            let mut acc = nums[0];
            let mut k: usize = 1;
            let m = nums.len();
            proof {
                assert(nums@.skip(1).skip(0) =~= nums@.skip(1));
            }
            while k < m
                invariant
                    1 <= k <= m,
                    m == nums@.len(),
                    fold_div(nums@[0], nums@.skip(1)) == fold_div(acc, nums@.skip(k as int)),
                decreases m - k,
            {
                acc = dbl_div(acc, nums[k]);
                proof {
                    assert(nums@.skip(k as int)[0] == nums@[k as int]);
                    assert(nums@.skip(k as int).skip(1) =~= nums@.skip(k as int + 1));
                }
                k += 1;
            }
            proof {
                assert(nums@.skip(m as int) =~= Seq::<u64>::empty());
            }
            acc
        }
    };
    Some(Ok(Val::Number(result)))
}

/// A stack is its own prefix.
proof fn lemma_keeps_all_refl<T>(v: Seq<Vec<(String, T)>>)
    ensures
        keeps_all(v, v),
{
    assert(v.take(v.len() as int) =~= v);
}

/// Prefix preservation composes.
proof fn lemma_keeps_all_trans<T>(
    a: Seq<Vec<(String, T)>>,
    b: Seq<Vec<(String, T)>>,
    c: Seq<Vec<(String, T)>>,
)
    requires
        keeps_all(a, b),
        keeps_all(b, c),
    ensures
        keeps_all(a, c),
{
    assert forall|i: int| 0 <= i < a.len() implies c.take(a.len() as int)[i] == a[i] by {
        assert(c.take(b.len() as int)[i] == b[i]);
        assert(b.take(a.len() as int)[i] == a[i]);
    }
    assert(c.take(a.len() as int) =~= a);
}

/// A sequence is a prefix of itself.
proof fn lemma_prefix_refl<T>(s: Seq<T>)
    ensures
        s.is_prefix_of(s),
{
    assert(s =~= s.subrange(0, s.len() as int));
}

/// A sequence is a prefix of itself with one more element.
proof fn lemma_prefix_push<T>(s: Seq<T>, x: T)
    ensures
        s.is_prefix_of(s.push(x)),
{
    assert(s =~= s.push(x).subrange(0, s.len() as int));
}

/// A value a frame lookup finds stands in the frame.
proof fn lemma_frame_find_elem<T>(frame: Seq<(String, T)>, name: Seq<char>, v: T)
    requires
        frame_find(frame, name) == Some(v),
    ensures
        exists|e: int| 0 <= e < frame.len() && (#[trigger] frame[e]).1 == v,
    decreases frame.len(),
{
    if frame.last().0@ == name {
        assert(frame[frame.len() - 1].1 == v);
    } else {
        lemma_frame_find_elem(frame.drop_last(), name, v);
        let e = choose|e: int| 0 <= e < frame.drop_last().len() && (#[trigger] frame.drop_last()[e]).1 == v;
        assert(frame[e].1 == v);
    }
}

/// A value a scope lookup finds is bound in some frame, so it satisfies
/// whatever every binding satisfies: here, a node bound.
proof fn lemma_scope_find_node_ok(frames: Seq<Vec<(String, Val)>>, name: Seq<char>, v: Val, n: int)
    requires
        vars_nodes_ok(frames, n),
        scope_find(frames, name) == Some(v),
    ensures
        node_val_lt(v, n),
    decreases frames.len(),
{
    if frame_find(frames.last()@, name) == Some(v) {
        lemma_frame_find_elem(frames.last()@, name, v);
        let e = choose|e: int|
            0 <= e < frames.last()@.len() && (#[trigger] frames.last()@[e]).1 == v;
        assert(node_val_lt(frames[frames.len() - 1]@[e].1, n));
    } else {
        assert(vars_nodes_ok(frames.drop_last(), n)) by {
            assert forall|f: int, e: int|
                0 <= f < frames.drop_last().len() && 0 <= e
                    < frames.drop_last()[f]@.len() implies #[trigger] node_val_lt(
                frames.drop_last()[f]@[e].1,
                n,
            ) by {
                assert(frames.drop_last()[f] == frames[f]);
                assert(node_val_lt(frames[f]@[e].1, n));
            }
        }
        lemma_scope_find_node_ok(frames.drop_last(), name, v, n);
    }
}

/// Inputs stay recorded when one slot is appended, provided a fresh
/// absent slot is recorded with it.
proof fn lemma_recorded_after_add(g1: ShaderGraph, g2: ShaderGraph)
    requires
        inputs_recorded(g1),
        g2.nodes@.len() == g1.nodes@.len() + 1,
        g2.nodes@.take(g1.nodes@.len() as int) == g1.nodes@,
        g2.nodes@.last() is None ==> g2.inputs@.contains(NodeId(g1.nodes@.len() as usize)),
        g1.inputs@.is_prefix_of(g2.inputs@),
    ensures
        inputs_recorded(g2),
{
    assert forall|i: int|
        0 <= i < g2.nodes@.len() && (#[trigger] g2.nodes@[i]) is None implies g2.inputs@.contains(
        NodeId(i as usize),
    ) by {
        if i < g1.nodes@.len() {
            assert(g2.nodes@.take(g1.nodes@.len() as int)[i] == g2.nodes@[i]);
            assert(g1.nodes@[i] is None);
            assert(g1.inputs@.contains(NodeId(i as usize)));
            let k = choose|k: int|
                0 <= k < g1.inputs@.len() && (#[trigger] g1.inputs@[k]) == NodeId(i as usize);
            assert(g2.inputs@.subrange(0, g1.inputs@.len() as int)[k] == g2.inputs@[k]);
            assert(g2.inputs@[k] == NodeId(i as usize));
        }
    }
}

/// Reports the extra arguments of a form that should have ended.
fn iter_finish(items: &Vec<Sexp>, pos: usize) -> (r: Result<(), String>)
    ensures
        r is Ok <==> items@.len() <= pos,
{
    if items.len() > pos {
        Err("Unexpected extra args while parsing form".to_owned())
    } else {
        Ok(())
    }
}

/// One declaration, run against the graph and environment: `input`,
/// `output`, `define`, `let` or `repeat`.
fn declare<F: Fn(u64, ShaderGraph, Vec<NodeId>) -> (ShaderGraph, Result<NodeId, String>)>(
    g: &mut ShaderGraph,
    env: &mut Env,
    sexp: &Sexp,
    f: &F,
    fuel: u64,
) -> (r: Result<(), String>)
    requires
        interp_inv(*old(g), *old(env)),
        dispatcher_ok(f),
    ensures
        interp_inv(*final(g), *final(env)),
        graph_extends(*old(g), *final(g)),
        keeps_below_top(old(env).vars_view(), final(env).vars_view()),
        keeps_below_top(old(env).fns_view(), final(env).fns_view()),
        r is Ok ==> final(env).vars_view().len() == old(env).vars_view().len() && final(env).fns_view().len() == old(env).fns_view().len(),
        final(env).shaders_view() == old(env).shaders_view(),
        final(env).external_view() == old(env).external_view(),
        sexp@ matches GSexp::List(items) ==> (fuel >= 1 && items.len() >= 2 && items[0]
            == GSexp::Sym("input"@) ==> (items[1] matches GSexp::Sym(vn) ==> ({
            &&& final(g).nodes@ == old(g).nodes@.push(None)
            &&& final(g).inputs@ == old(g).inputs@.push(NodeId(old(g).nodes@.len() as usize))
            &&& final(g).outputs@ == old(g).outputs@
            &&& (r is Ok <==> items.len() == 2)
            &&& (exists|bound: Val|
                scope_find(final(env).vars_view(), vn) == Some(bound) && bound@ == GVal::Node(
                    NodeId(old(g).nodes@.len() as usize),
                ))
        }))),
        sexp@ matches GSexp::List(items) ==> (fuel >= 1 && items.len() == 2 && items[0]
            == GSexp::Sym("output"@) ==> (items[1] matches GSexp::Sym(vn) ==> ({
            &&& final(g).nodes@ == old(g).nodes@
            &&& (match scope_find(old(env).vars_view(), vn) {
                Some(bound) => (match bound@ {
                    GVal::Node(id) => (if slot_eligible(old(g).nodes@[id.0 as int]) {
                        r is Ok && final(g).outputs@ == (if old(g).outputs@.contains(id) {
                            old(g).outputs@
                        } else {
                            old(g).outputs@.push(id)
                        })
                    } else {
                        r is Err && final(g).outputs@ == old(g).outputs@
                    }),
                    _ => r is Err,
                }),
                None => r is Err,
            })
        }))),
        sexp@ matches GSexp::List(items) ==> (fuel >= 2 && items.len() == 3 && items[0]
            == GSexp::Sym("let"@) ==> (items[1] matches GSexp::Sym(vn) ==> (items[2]
            matches GSexp::Num(b) ==> (r is Ok && (exists|bound: Val|
            scope_find(final(env).vars_view(), vn) == Some(bound) && bound@ == GVal::Number(
                b,
            )))))),
        sexp@ matches GSexp::List(items) ==> (fuel >= 1 && items.len() == 3 && items[0]
            == GSexp::Sym("let"@) ==> (items[1] matches GSexp::Sym(vn) ==> (r is Ok ==> scope_find(
            final(env).vars_view(),
            vn,
        ) is Some))),
        r is Ok ==> decl_shaped(sexp@),
        sexp@ matches GSexp::List(items) ==> (fuel >= 1 && items.len() >= 2 && items[0]
            == GSexp::Sym("define"@) ==> (items[1] matches GSexp::List(sitems) ==> (sitems.len()
            >= 1 ==> (sitems[0] matches GSexp::Sym(fname) ==> ((forall|j: int|
            1 <= j < sitems.len() ==> (#[trigger] sitems[j]) is Sym) ==> ({
            &&& items.len() == 2 ==> (r matches Err(m) && m@ == empty_body_msg(fname) && *final(g)
                == *old(g) && final(env).vars_view() == old(env).vars_view()
                && final(env).fns_view() == old(env).fns_view())
            &&& items.len() >= 3 ==> ({
                &&& r is Ok
                &&& scope_find(final(env).fns_view(), fname) is Some
                &&& ({
                    let def = (scope_find(final(env).fns_view(), fname))->0;
                    &&& def.0@.len() == sitems.len() - 1
                    &&& (forall|j: int|
                        0 <= j < def.0@.len() ==> sitems[j + 1] == GSexp::Sym(
                            (#[trigger] def.0@[j])@,
                        ))
                    &&& views_of(def.1@) == items.skip(2)
                })
            })
        })))))),
        sexp@ matches GSexp::List(items) ==> (fuel >= 2 && items.len() >= 2 && items[0]
            == GSexp::Sym("repeat"@) ==> (items[1] matches GSexp::Num(b) ==> (spec_nat_of(b) == 0
            ==> (r is Ok && *final(g) == *old(g) && final(env).vars_view() == old(
            env,
        ).vars_view() && final(env).fns_view() == old(env).fns_view())))),
    decreases fuel,
{
    proof {
        lemma_extends_refl(*g);
    }
    if fuel == 0 {
        return Err("Maximum form depth exceeded".to_owned());
    }
    let items = match sexp {
        Sexp::List(v) => v,
        _ => {
            return Err("Expected a form".to_owned());
        },
    };
    proof {
        crate::sexp::lemma_views_of(items@);
        assert(sexp@ == GSexp::List(views_of(items@)));
        reveal_strlit("input");
        reveal_strlit("output");
        reveal_strlit("define");
        reveal_strlit("let");
        reveal_strlit("repeat");
        assert("input"@.len() == 5 && "output"@.len() == 6 && "define"@.len() == 6 && "let"@.len()
            == 3 && "repeat"@.len() == 6);
        assert("output"@ != "input"@ && "output"@ != "let"@);
        assert("define"@ != "input"@ && "define"@ != "let"@ && "define"@ != "output"@) by {
            assert("define"@[0] == 'd' && "output"@[0] == 'o');
        }
        assert("repeat"@ != "input"@ && "repeat"@ != "let"@ && "repeat"@ != "output"@
            && "repeat"@ != "define"@) by {
            assert("repeat"@[0] == 'r' && "output"@[0] == 'o' && "define"@[0] == 'd');
        }
    }
    if items.len() < 1 {
        return Err("Expected a non-empty form".to_owned());
    }
    let keyword = match &items[0] {
        Sexp::Sym(s) => s,
        _ => {
            proof {
                assert(views_of(items@)[0] == items@[0]@);
            }
            return Err("Expected a symbol".to_owned());
        },
    };
    proof {
        assert(views_of(items@)[0] == GSexp::Sym(keyword@));
    }
    if str_eq(keyword.as_str(), "input") {
        if items.len() < 2 {
            return Err("Expected a non-empty form".to_owned());
        }
        let var = match &items[1] {
            Sexp::Sym(s) => s,
            _ => {
                return Err("Expected a symbol".to_owned());
            },
        };
        let ghost g0 = *g;
        let id = g.add_input();
        proof {
            assert(g.nodes@.take(g0.nodes@.len() as int) =~= g0.nodes@);
            lemma_prefix_push(g0.inputs@, id);
            lemma_prefix_refl(g0.outputs@);
            assert(g.inputs@.contains(NodeId(g0.nodes@.len() as usize))) by {
                assert(g.inputs@.last() == id);
            }
            lemma_recorded_after_add(g0, *g);
            lemma_nodes_ok_mono(
                env.vars_view(),
                g0.nodes@.len() as int,
                g.nodes@.len() as int,
            );
        }
        let owned_var = var.clone();
        let ghost gvn = owned_var@;
        env.set(owned_var, Val::Node(id));
        proof {
            assert(env.vars_view().last()@.last() == (
                env.vars_view().last()@.last().0,
                Val::Node(id),
            ));
            assert(env.vars_view().last()@.last().0@ == gvn && gvn == var@);
            assert(frame_find(env.vars_view().last()@, var@) == Some(Val::Node(id)));
            assert(scope_find(env.vars_view(), var@) == Some(Val::Node(id)));
        }
        proof {
            assert(vars_nodes_ok(env.vars_view(), g.nodes@.len() as int)) by {
                assert forall|fi: int, e: int|
                    0 <= fi < env.vars_view().len() && 0 <= e
                        < env.vars_view()[fi]@.len() implies #[trigger] node_val_lt(
                    env.vars_view()[fi]@[e].1,
                    g.nodes@.len() as int,
                ) by {
                    if fi < env.vars_view().len() - 1 {
                        assert(env.vars_view()[fi] == old(env).vars_view()[fi]);
                        assert(node_val_lt(old(env).vars_view()[fi]@[e].1, g.nodes@.len() as int));
                    } else {
                        if e < env.vars_view()[fi]@.len() - 1 {
                            assert(env.vars_view()[fi]@[e] == old(env).vars_view()[fi]@[e]);
                            assert(node_val_lt(
                                old(env).vars_view()[fi]@[e].1,
                                g.nodes@.len() as int,
                            ));
                        } else {
                            assert(env.vars_view()[fi]@[e].1 == Val::Node(id));
                        }
                    }
                }
            }
        }
        iter_finish(items, 2)
    } else if str_eq(keyword.as_str(), "output") {
        if items.len() < 2 {
            return Err("Expected a non-empty form".to_owned());
        }
        let name = match &items[1] {
            Sexp::Sym(s) => s,
            _ => {
                return Err("Expected a symbol".to_owned());
            },
        };
        let bound = match env.get(name.as_str()) {
            Ok(v) => v,
            Err(e) => {
                return Err(e);
            },
        };
        let ghost bv = *bound;
        let id = match bound.to_node() {
            Ok(id) => id,
            Err(e) => {
                return Err(e);
            },
        };
        proof {
            lemma_scope_find_node_ok(
                env.vars_view(),
                name@,
                bv,
                g.nodes@.len() as int,
            );
        }
        let ghost g0 = *g;
        let marked = g.mark_output(id);
        proof {
            lemma_prefix_refl(g0.inputs@);
            if slot_eligible(g0.nodes@[id.0 as int]) {
                if g0.outputs@.contains(id) {
                    lemma_prefix_refl(g0.outputs@);
                } else {
                    lemma_prefix_push(g0.outputs@, id);
                }
            } else {
                lemma_prefix_refl(g0.outputs@);
            }
            assert(g.nodes@.take(g0.nodes@.len() as int) =~= g0.nodes@);
        }
        if marked.is_none() {
            return Err(concat3("Output `", name.as_str(), "` does not produce a pixel resource"));
        }
        iter_finish(items, 2)
    } else if str_eq(keyword.as_str(), "define") {
        if items.len() < 2 {
            return Err("Expected a non-empty form".to_owned());
        }
        let sig = match &items[1] {
            Sexp::List(v) => v,
            _ => {
                return Err("Expected a form".to_owned());
            },
        };
        proof {
            crate::sexp::lemma_views_of(sig@);
        }
        if sig.len() < 1 {
            return Err("Expected a non-empty form".to_owned());
        }
        let name = match &sig[0] {
            Sexp::Sym(s) => s,
            _ => {
                return Err("Expected a symbol".to_owned());
            },
        };
        let mut params: Vec<String> = Vec::new();
        let mut k: usize = 1;
        let sn = sig.len();
        while k < sn
            invariant
                1 <= k <= sn,
                sn == sig@.len(),
                *g == *old(g),
                *env == *old(env),
                interp_inv(*g, *env),
                graph_extends(*old(g), *g),
                sexp@ == GSexp::List(views_of(items@)),
                views_of(items@).len() == items@.len(),
                views_of(items@)[0] == GSexp::Sym(keyword@),
                keyword@ != "input"@ && keyword@ != "output"@ && keyword@ != "let"@,
                keyword@ != "repeat"@,
                decl_keyword(keyword@),
                items@.len() >= 2,
                views_of(items@)[1] == GSexp::List(views_of(sig@)),
                views_of(sig@).len() == sig@.len(),
                views_of(sig@)[0] == GSexp::Sym(name@),
                params@.len() == k - 1,
                forall|j: int|
                    0 <= j < k - 1 ==> views_of(sig@)[j + 1] == GSexp::Sym(
                        (#[trigger] params@[j])@,
                    ),
            decreases sn - k,
        {
            proof {
                crate::sexp::lemma_views_of(sig@);
            }
            match &sig[k] {
                Sexp::Sym(s) => {
                    params.push(s.clone());
                },
                _ => {
                    return Err("Expected symbol in signature".to_owned());
                },
            }
            k += 1;
        }
        let ghost gparams = params@;
        let mut forms: Vec<Sexp> = Vec::new();
        let mut q: usize = 2;
        let inum = items.len();
        while q < inum
            invariant
                2 <= q <= inum,
                inum == items@.len(),
                *g == *old(g),
                *env == *old(env),
                interp_inv(*g, *env),
                graph_extends(*old(g), *g),
                sexp@ == GSexp::List(views_of(items@)),
                views_of(items@).len() == items@.len(),
                views_of(items@)[0] == GSexp::Sym(keyword@),
                keyword@ != "input"@ && keyword@ != "output"@ && keyword@ != "let"@,
                keyword@ != "repeat"@,
                decl_keyword(keyword@),
                views_of(items@)[1] == GSexp::List(views_of(sig@)),
                views_of(sig@).len() == sig@.len(),
                views_of(sig@)[0] == GSexp::Sym(name@),
                params@ == gparams,
                gparams.len() == sig@.len() - 1,
                forall|j: int|
                    0 <= j < gparams.len() ==> views_of(sig@)[j + 1] == GSexp::Sym(
                        (#[trigger] gparams[j])@,
                    ),
                forms@.len() == q - 2,
                forall|j: int|
                    0 <= j < q - 2 ==> (#[trigger] forms@[j])@ == views_of(items@)[j + 2],
            decreases inum - q,
        {
            proof {
                crate::sexp::lemma_views_of(items@);
            }
            forms.push(items[q].clone());
            q += 1;
        }
        if forms.len() == 0 {
            return Err(
                concat3(
                    "Definition `",
                    name.as_str(),
                    "` must have at least one expression in body",
                ),
            );
        }
        let ghost gforms = forms@;
        let owned_name = name.clone();
        let ghost gdname = owned_name@;
        let def_rc = Rc::new((params, forms));
        let ghost gdef = def_rc;
        env.set_fn(owned_name, def_rc);
        proof {
            assert(env.fns_view().last()@.last().0@ == gdname && gdname == name@);
            assert(env.fns_view().last()@.last().1 == gdef);
            assert(frame_find(env.fns_view().last()@, name@) == Some(gdef));
            assert(scope_find(env.fns_view(), name@) == Some(gdef));
            assert(gdef.0@ == gparams && gdef.1@ == gforms);
            crate::sexp::lemma_views_of(gforms);
            crate::sexp::lemma_views_of(items@);
            assert(views_of(gforms).len() == gforms.len());
            assert forall|j: int| 0 <= j < views_of(gforms).len() implies views_of(gforms)[j]
                == views_of(items@).skip(2)[j] by {
                assert(views_of(gforms)[j] == gforms[j]@);
                assert(gforms[j]@ == views_of(items@)[j + 2]);
            }
            assert(views_of(gdef.1@) =~= views_of(items@).skip(2));
            assert forall|j: int| 0 <= j < gdef.0@.len() implies views_of(sig@)[j + 1]
                == GSexp::Sym((#[trigger] gdef.0@[j])@) by {
                assert(gdef.0@[j] == gparams[j]);
                assert(views_of(sig@)[j + 1] == GSexp::Sym(gparams[j]@));
            }
        }
        Ok(())
    } else if str_eq(keyword.as_str(), "let") {
        if items.len() < 3 {
            return Err("Expected a non-empty form".to_owned());
        }
        let var = match &items[1] {
            Sexp::Sym(s) => s,
            _ => {
                return Err("Expected a symbol".to_owned());
            },
        };
        let val = match expr(g, env, &items[2], f, fuel - 1) {
            Ok(v) => v,
            Err(e) => {
                return Err(e);
            },
        };
        let ghost gval = val;
        let owned_var = var.clone();
        let ghost gvn = owned_var@;
        env.set(owned_var, val);
        proof {
            assert(env.vars_view().last()@.last().0@ == gvn && gvn == var@);
            assert(env.vars_view().last()@.last().1 == gval);
            assert(frame_find(env.vars_view().last()@, var@) == Some(gval));
            assert(scope_find(env.vars_view(), var@) == Some(gval));
        }
        proof {
            assert(vars_nodes_ok(env.vars_view(), g.nodes@.len() as int)) by {
                assert forall|fi: int, e: int|
                    0 <= fi < env.vars_view().len() && 0 <= e
                        < env.vars_view()[fi]@.len() implies #[trigger] node_val_lt(
                    env.vars_view()[fi]@[e].1,
                    g.nodes@.len() as int,
                ) by {
                    let mid = old(env).vars_view();
                    if fi < env.vars_view().len() - 1 || e < env.vars_view()[fi]@.len() - 1 {
                        assert(env.vars_view()[fi]@[e] == mid[fi]@[e]);
                        assert(node_val_lt(mid[fi]@[e].1, g.nodes@.len() as int));
                    }
                }
            }
        }
        iter_finish(items, 3)
    } else if str_eq(keyword.as_str(), "repeat") {
        if items.len() < 2 {
            return Err("Expected a non-empty form".to_owned());
        }
        let count_val = match expr(g, env, &items[1], f, fuel - 1) {
            Ok(v) => v,
            Err(e) => {
                return Err(e);
            },
        };
        let times = match count_val.to_nat() {
            Ok(n) => n,
            Err(e) => {
                return Err(e);
            },
        };
        let inum = items.len();
        let mut it: usize = 0;
        while it < times
            invariant
                0 <= it <= times,
                inum == items@.len(),
                inum >= 2,
                fuel >= 1,
                fuel >= 2 ==> (items@[1]@ matches GSexp::Num(cb) ==> times == spec_nat_of(cb)),
                fuel >= 2 ==> ((items@[1]@ matches GSexp::Num(_)) ==> (times == 0 ==> *g == *old(
                    g,
                ) && env.vars_view() == old(env).vars_view() && env.fns_view() == old(
                    env,
                ).fns_view())),
                sexp@ == GSexp::List(views_of(items@)),
                views_of(items@).len() == items@.len(),
                views_of(items@)[0] == GSexp::Sym(keyword@),
                keyword@ != "input"@ && keyword@ != "output"@ && keyword@ != "let"@,
                keyword@ != "define"@,
                decl_keyword(keyword@),
                dispatcher_ok(f),
                interp_inv(*g, *env),
                graph_extends(*old(g), *g),
                keeps_below_top(old(env).vars_view(), env.vars_view()),
                keeps_below_top(old(env).fns_view(), env.fns_view()),
                env.vars_view().len() == old(env).vars_view().len(),
                env.fns_view().len() == old(env).fns_view().len(),
                env.shaders_view() == old(env).shaders_view(),
                env.external_view() == old(env).external_view(),
            decreases times - it,
        {
            let mut q: usize = 2;
            while q < inum
                invariant
                    2 <= q <= inum,
                    inum == items@.len(),
                    inum >= 2,
                    fuel >= 1,
                    sexp@ == GSexp::List(views_of(items@)),
                    views_of(items@).len() == items@.len(),
                    views_of(items@)[0] == GSexp::Sym(keyword@),
                    keyword@ != "input"@ && keyword@ != "output"@ && keyword@ != "let"@,
                    keyword@ != "define"@,
                    decl_keyword(keyword@),
                    it < times,
                    fuel >= 2 ==> (items@[1]@ matches GSexp::Num(cb) ==> times == spec_nat_of(
                        cb,
                    )),
                    dispatcher_ok(f),
                    interp_inv(*g, *env),
                    graph_extends(*old(g), *g),
                    keeps_below_top(old(env).vars_view(), env.vars_view()),
                    keeps_below_top(old(env).fns_view(), env.fns_view()),
                    env.vars_view().len() == old(env).vars_view().len(),
                    env.fns_view().len() == old(env).fns_view().len(),
                    env.shaders_view() == old(env).shaders_view(),
                    env.external_view() == old(env).external_view(),
                decreases inum - q,
            {
                let ghost gm = *g;
                match declare(g, env, &items[q], f, fuel - 1) {
                    Ok(()) => {},
                    Err(e) => {
                        proof {
                            lemma_extends_trans(*old(g), gm, *g);
                            crate::sexp::lemma_views_of(items@);
                        }
                        return Err(e);
                    },
                }
                proof {
                    lemma_extends_trans(*old(g), gm, *g);
                }
                q += 1;
            }
            it += 1;
        }
        proof {
            crate::sexp::lemma_views_of(items@);
        }
        Ok(())
    } else {
        Err(concat3("Expected a statement keyword, found `", keyword.as_str(), "`"))
    }
}

/// One expression, evaluated in the current scope: a literal, a variable
/// reference, or a graph-building form.
fn expr<F: Fn(u64, ShaderGraph, Vec<NodeId>) -> (ShaderGraph, Result<NodeId, String>)>(
    g: &mut ShaderGraph,
    env: &mut Env,
    sexp: &Sexp,
    f: &F,
    fuel: u64,
) -> (r: Result<Val, String>)
    requires
        interp_inv(*old(g), *old(env)),
        dispatcher_ok(f),
    ensures
        interp_inv(*final(g), *final(env)),
        graph_extends(*old(g), *final(g)),
        keeps_all(old(env).vars_view(), final(env).vars_view()),
        keeps_all(old(env).fns_view(), final(env).fns_view()),
        r is Ok ==> final(env).vars_view() == old(env).vars_view() && final(env).fns_view() == old(env).fns_view(),
        (r matches Ok(v) ==> node_val_lt(v, final(g).nodes@.len() as int)),
        final(env).shaders_view() == old(env).shaders_view(),
        final(env).external_view() == old(env).external_view(),
        fuel >= 1 ==> (match sexp@ {
            GSexp::Num(b) => (r matches Ok(v) && v@ == GVal::Number(b) && *final(g) == *old(g)),
            GSexp::Bool(b) => (r matches Ok(v) && v@ == GVal::Bool(b) && *final(g) == *old(g)),
            GSexp::Str(t) => (r matches Ok(v) && v@ == GVal::Str(t) && *final(g) == *old(g)),
            GSexp::Sym(name) => (*final(g) == *old(g) && (match scope_find(
                old(env).vars_view(),
                name,
            ) {
                Some(bound) => (r matches Ok(v) && v@ == bound@),
                None => r is Err,
            })),
            GSexp::List(_) => true,
        }),
    decreases fuel,
{
    proof {
        lemma_extends_refl(*g);
        lemma_keeps_all_refl(env.vars_view());
        lemma_keeps_all_refl(env.fns_view());
    }
    if fuel == 0 {
        return Err("Maximum form depth exceeded".to_owned());
    }
    match sexp {
        Sexp::Num(b) => Ok(Val::Number(*b)),
        Sexp::Bool(b) => Ok(Val::Bool(*b)),
        Sexp::Str(s) => Ok(Val::Str(s.clone())),
        Sexp::Sym(s) => {
            let bound = match env.get(s.as_str()) {
                Ok(v) => v,
                Err(e) => {
                    return Err(e);
                },
            };
            let ghost bv = *bound;
            let out = bound.clone();
            proof {
                lemma_scope_find_node_ok(env.vars_view(), s@, bv, g.nodes@.len() as int);
                assert(node_val_lt(out, g.nodes@.len() as int));
            }
            Ok(out)
        },
        Sexp::List(items) => node(g, env, items, f, fuel - 1),
    }
}

/// The header of a shader form: the shader name or inline source, the
/// output width and height, and the evaluated dependency list.
fn shader<F: Fn(u64, ShaderGraph, Vec<NodeId>) -> (ShaderGraph, Result<NodeId, String>)>(
    g: &mut ShaderGraph,
    env: &mut Env,
    items: &Vec<Sexp>,
    start: usize,
    f: &F,
    fuel: u64,
) -> (r: Result<(String, u32, u32, Vec<NodeId>), String>)
    requires
        interp_inv(*old(g), *old(env)),
        dispatcher_ok(f),
    ensures
        interp_inv(*final(g), *final(env)),
        graph_extends(*old(g), *final(g)),
        keeps_all(old(env).vars_view(), final(env).vars_view()),
        keeps_all(old(env).fns_view(), final(env).fns_view()),
        r is Ok ==> final(env).vars_view() == old(env).vars_view() && final(env).fns_view() == old(env).fns_view(),
        (r matches Ok(p) ==> deps_in_range(p.3@, final(g).nodes@.len() as int)),
        (r matches Ok(p) ==> (fuel >= 2 ==> ({
            &&& items@[start as int]@ matches GSexp::Str(nm) ==> p.0@ == nm
            &&& items@[start as int + 1]@ matches GSexp::Num(wb) ==> p.1 == lit_dim(wb)
            &&& items@[start as int + 2]@ matches GSexp::Num(hb) ==> p.2 == lit_dim(hb)
        }))),
        final(env).shaders_view() == old(env).shaders_view(),
        final(env).external_view() == old(env).external_view(),
    decreases fuel,
{
    proof {
        lemma_extends_refl(*g);
        lemma_keeps_all_refl(env.vars_view());
        lemma_keeps_all_refl(env.fns_view());
    }
    if fuel == 0 {
        return Err("Maximum form depth exceeded".to_owned());
    }
    let inum = items.len();
    if inum < start || inum - start < 3 {
        return Err("Expected a non-empty form".to_owned());
    }
    let name_val = match expr(g, env, &items[start], f, fuel - 1) {
        Ok(v) => v,
        Err(e) => {
            return Err(e);
        },
    };
    let name = match name_val.to_string() {
        Ok(s) => s,
        Err(e) => {
            return Err(e);
        },
    };
    let ghost gma = *g;
    let width_val = match expr(g, env, &items[start + 1], f, fuel - 1) {
        Ok(v) => v,
        Err(e) => {
            proof {
                lemma_extends_trans(*old(g), gma, *g);
            }
            return Err(e);
        },
    };
    proof {
        lemma_extends_trans(*old(g), gma, *g);
    }
    let width_nat = match width_val.to_nat() {
        Ok(n) => n,
        Err(e) => {
            return Err(e);
        },
    };
    let ghost gmb = *g;
    let height_val = match expr(g, env, &items[start + 2], f, fuel - 1) {
        Ok(v) => v,
        Err(e) => {
            proof {
                lemma_extends_trans(*old(g), gmb, *g);
            }
            return Err(e);
        },
    };
    proof {
        lemma_extends_trans(*old(g), gmb, *g);
    }
    let height_nat = match height_val.to_nat() {
        Ok(n) => n,
        Err(e) => {
            return Err(e);
        },
    };
    let mut inputs: Vec<NodeId> = Vec::new();
    let mut q = start + 3;
    while q < inum
        invariant
            start + 3 <= q <= inum,
            inum == items@.len(),
            fuel >= 1,
            dispatcher_ok(f),
            interp_inv(*g, *env),
            graph_extends(*old(g), *g),
            env.vars_view() == old(env).vars_view(),
            env.fns_view() == old(env).fns_view(),
            env.shaders_view() == old(env).shaders_view(),
            env.external_view() == old(env).external_view(),
            deps_in_range(inputs@, g.nodes@.len() as int),
        decreases inum - q,
    {
        let ghost gm = *g;
        let v = match expr(g, env, &items[q], f, fuel - 1) {
            Ok(v) => v,
            Err(e) => {
                proof {
                    lemma_extends_trans(*old(g), gm, *g);
                }
                return Err(e);
            },
        };
        proof {
            lemma_extends_trans(*old(g), gm, *g);
        }
        let id = match v.to_node() {
            Ok(id) => id,
            Err(e) => {
                return Err(e);
            },
        };
        inputs.push(id);
        proof {
            assert(deps_in_range(inputs@, g.nodes@.len() as int)) by {
                assert forall|k: int| 0 <= k < inputs@.len() implies (#[trigger] inputs@[k]).0
                    < g.nodes@.len() by {
                    if k < inputs@.len() - 1 {
                        assert(inputs@[k].0 < gm.nodes@.len());
                    } else {
                        assert(node_val_lt(v, g.nodes@.len() as int));
                    }
                }
            }
        }
        q += 1;
    }
    let width = #[verifier::truncate] (width_nat as u32);
    let height = #[verifier::truncate] (height_nat as u32);
    Ok((name, width, height, inputs))
}

/// The header of an extern form: the registered name and the evaluated
/// dependency list.
fn external<F: Fn(u64, ShaderGraph, Vec<NodeId>) -> (ShaderGraph, Result<NodeId, String>)>(
    g: &mut ShaderGraph,
    env: &mut Env,
    items: &Vec<Sexp>,
    start: usize,
    f: &F,
    fuel: u64,
) -> (r: Result<(String, Vec<NodeId>), String>)
    requires
        interp_inv(*old(g), *old(env)),
        dispatcher_ok(f),
    ensures
        interp_inv(*final(g), *final(env)),
        graph_extends(*old(g), *final(g)),
        keeps_all(old(env).vars_view(), final(env).vars_view()),
        keeps_all(old(env).fns_view(), final(env).fns_view()),
        r is Ok ==> final(env).vars_view() == old(env).vars_view() && final(env).fns_view() == old(env).fns_view(),
        (r matches Ok(p) ==> deps_in_range(p.1@, final(g).nodes@.len() as int)),
        (r matches Ok(p) ==> (fuel >= 2 ==> ({
            &&& items@[start as int]@ matches GSexp::Str(nm) ==> p.0@ == nm
        }))),
        final(env).shaders_view() == old(env).shaders_view(),
        final(env).external_view() == old(env).external_view(),
    decreases fuel,
{
    proof {
        lemma_extends_refl(*g);
        lemma_keeps_all_refl(env.vars_view());
        lemma_keeps_all_refl(env.fns_view());
    }
    if fuel == 0 {
        return Err("Maximum form depth exceeded".to_owned());
    }
    let inum = items.len();
    if inum < start || inum - start < 1 {
        return Err("Expected a non-empty form".to_owned());
    }
    let name_val = match expr(g, env, &items[start], f, fuel - 1) {
        Ok(v) => v,
        Err(e) => {
            return Err(e);
        },
    };
    let name = match name_val.to_string() {
        Ok(s) => s,
        Err(e) => {
            return Err(e);
        },
    };
    let mut inputs: Vec<NodeId> = Vec::new();
    let mut q = start + 1;
    while q < inum
        invariant
            start + 1 <= q <= inum,
            inum == items@.len(),
            fuel >= 1,
            dispatcher_ok(f),
            interp_inv(*g, *env),
            graph_extends(*old(g), *g),
            env.vars_view() == old(env).vars_view(),
            env.fns_view() == old(env).fns_view(),
            env.shaders_view() == old(env).shaders_view(),
            env.external_view() == old(env).external_view(),
            deps_in_range(inputs@, g.nodes@.len() as int),
        decreases inum - q,
    {
        let ghost gm = *g;
        let v = match expr(g, env, &items[q], f, fuel - 1) {
            Ok(v) => v,
            Err(e) => {
                proof {
                    lemma_extends_trans(*old(g), gm, *g);
                }
                return Err(e);
            },
        };
        proof {
            lemma_extends_trans(*old(g), gm, *g);
        }
        let id = match v.to_node() {
            Ok(id) => id,
            Err(e) => {
                return Err(e);
            },
        };
        inputs.push(id);
        proof {
            assert(deps_in_range(inputs@, g.nodes@.len() as int)) by {
                assert forall|k: int| 0 <= k < inputs@.len() implies (#[trigger] inputs@[k]).0
                    < g.nodes@.len() by {
                    if k < inputs@.len() - 1 {
                        assert(inputs@[k].0 < gm.nodes@.len());
                    } else {
                        assert(node_val_lt(v, g.nodes@.len() as int));
                    }
                }
            }
        }
        q += 1;
    }
    Ok((name, inputs))
}

/// One textual substitution applied to a shading source: a `define` form
/// replaces the source-level `<name>` placeholder with a `#define` line,
/// an `ifdef` form with a `#define <name> 1` line or nothing.
fn subst<F: Fn(u64, ShaderGraph, Vec<NodeId>) -> (ShaderGraph, Result<NodeId, String>)>(
    g: &mut ShaderGraph,
    env: &mut Env,
    form: &Sexp,
    source: String,
    f: &F,
    fuel: u64,
) -> (r: Result<String, String>)
    requires
        interp_inv(*old(g), *old(env)),
        dispatcher_ok(f),
    ensures
        interp_inv(*final(g), *final(env)),
        graph_extends(*old(g), *final(g)),
        keeps_all(old(env).vars_view(), final(env).vars_view()),
        keeps_all(old(env).fns_view(), final(env).fns_view()),
        r is Ok ==> final(env).vars_view() == old(env).vars_view() && final(env).fns_view() == old(env).fns_view(),
        final(env).shaders_view() == old(env).shaders_view(),
        final(env).external_view() == old(env).external_view(),
        form@ matches GSexp::List(parts) ==> (fuel >= 2 && parts.len() == 3 && parts[0]
            == GSexp::Sym("define"@) ==> (parts[1] matches GSexp::Str(n) ==> ({
            &&& parts[2] matches GSexp::Str(v) ==> (r matches Ok(s) && s@ == spec_replace(
                source@,
                angle_pat(n),
                define_line(n, v),
            ))
            &&& parts[2] matches GSexp::Num(b) ==> (r matches Ok(s) && s@ == spec_replace(
                source@,
                angle_pat(n),
                define_line(n, spec_number_string(b)),
            ))
        }))),
        form@ matches GSexp::List(parts) ==> (fuel >= 2 && parts.len() == 3 && parts[0]
            == GSexp::Sym("ifdef"@) ==> (parts[1] matches GSexp::Str(n) ==> (parts[2]
            matches GSexp::Bool(bv) ==> (r matches Ok(s) && s@ == spec_replace(
            source@,
            angle_pat(n),
            if bv {
                ifdef_line(n)
            } else {
                Seq::<char>::empty()
            },
        ))))),
    decreases fuel,
{
    proof {
        lemma_extends_refl(*g);
        lemma_keeps_all_refl(env.vars_view());
        lemma_keeps_all_refl(env.fns_view());
    }
    if fuel == 0 {
        return Err("Maximum form depth exceeded".to_owned());
    }
    let parts = match form {
        Sexp::List(v) => v,
        _ => {
            return Err("Expected a form".to_owned());
        },
    };
    if parts.len() < 1 {
        return Err("Expected a non-empty form".to_owned());
    }
    proof {
        crate::sexp::lemma_views_of(parts@);
        assert(form@ == GSexp::List(views_of(parts@)));
    }
    let op = match &parts[0] {
        Sexp::Sym(s) => s,
        _ => {
            return Err("Expected a symbol".to_owned());
        },
    };
    proof {
        assert(views_of(parts@)[0] == GSexp::Sym(op@));
        reveal_strlit("define");
        reveal_strlit("ifdef");
        assert("define"@.len() == 6 && "ifdef"@.len() == 5);
    }
    let pair: (String, String) = if str_eq(op.as_str(), "define") {
        if parts.len() < 3 {
            return Err("Expected a non-empty form".to_owned());
        }
        let name_val = match expr(g, env, &parts[1], f, fuel - 1) {
            Ok(v) => v,
            Err(e) => {
                return Err(e);
            },
        };
        let name = match name_val.to_string() {
            Ok(s) => s,
            Err(e) => {
                return Err(e);
            },
        };
        let ghost gm = *g;
        let val_val = match expr(g, env, &parts[2], f, fuel - 1) {
            Ok(v) => v,
            Err(e) => {
                proof {
                    lemma_extends_trans(*old(g), gm, *g);
                }
                return Err(e);
            },
        };
        proof {
            lemma_extends_trans(*old(g), gm, *g);
        }
        let val = match val_val.to_string() {
            Ok(s) => s,
            Err(e) => {
                return Err(e);
            },
        };
        let mut line = concat2("#define ", name.as_str());
        line.append(" ");
        line.append(val.as_str());
        proof {
            assert(line@ =~= define_line(name@, val@));
        }
        (name, line)
    } else if str_eq(op.as_str(), "ifdef") {
        if parts.len() < 3 {
            return Err("Expected a non-empty form".to_owned());
        }
        let name_val = match expr(g, env, &parts[1], f, fuel - 1) {
            Ok(v) => v,
            Err(e) => {
                return Err(e);
            },
        };
        let name = match name_val.to_string() {
            Ok(s) => s,
            Err(e) => {
                return Err(e);
            },
        };
        let ghost gm = *g;
        let flag_val = match expr(g, env, &parts[2], f, fuel - 1) {
            Ok(v) => v,
            Err(e) => {
                proof {
                    lemma_extends_trans(*old(g), gm, *g);
                }
                return Err(e);
            },
        };
        proof {
            lemma_extends_trans(*old(g), gm, *g);
        }
        let should_define = match flag_val.to_bool() {
            Ok(b) => b,
            Err(e) => {
                return Err(e);
            },
        };
        if should_define {
            let line = concat3("#define ", name.as_str(), " 1");
            proof {
                assert(line@ =~= ifdef_line(name@));
            }
            (name, line)
        } else {
            let line = String::new();
            proof {
                assert(line@ =~= Seq::<char>::empty());
            }
            (name, line)
        }
    } else {
        return Err(concat3("Invalid param substitution type `", op.as_str(), "`"));
    };
    match iter_finish(parts, 3) {
        Ok(()) => {},
        Err(e) => {
            return Err(e);
        },
    }
    let pat = concat3("<", pair.0.as_str(), ">");
    proof {
        reveal_strlit("<");
        reveal_strlit(">");
        assert(pat@ =~= angle_pat(pair.0@));
    }
    Ok(replace_all(source.as_str(), pat.as_str(), pair.1.as_str()))
}

/// Inputs stay recorded and node references stay valid across one
/// node-table extension whose new slot is present.
proof fn lemma_after_present_add(g0: ShaderGraph, g1: ShaderGraph, env: Env)
    requires
        inputs_recorded(g0),
        vars_nodes_ok(env.vars_view(), g0.nodes@.len() as int),
        g1.nodes@.len() == g0.nodes@.len() + 1,
        g1.nodes@.take(g0.nodes@.len() as int) == g0.nodes@,
        !(g1.nodes@.last() is None),
        g1.inputs@ == g0.inputs@,
        g1.outputs@ == g0.outputs@,
    ensures
        inputs_recorded(g1),
        vars_nodes_ok(env.vars_view(), g1.nodes@.len() as int),
        graph_extends(g0, g1),
{
    lemma_prefix_refl(g0.inputs@);
    lemma_prefix_refl(g0.outputs@);
    lemma_recorded_after_add(g0, g1);
    lemma_nodes_ok_mono(env.vars_view(), g0.nodes@.len() as int, g1.nodes@.len() as int);
}

/// A graph-building list form: a shader form, a feedback shader form, a
/// parameter-substituting shader form, an external call, an arithmetic
/// builtin, or a user-defined procedure call.
#[verifier::rlimit(60)]
fn node<F: Fn(u64, ShaderGraph, Vec<NodeId>) -> (ShaderGraph, Result<NodeId, String>)>(
    g: &mut ShaderGraph,
    env: &mut Env,
    items: &Vec<Sexp>,
    f: &F,
    fuel: u64,
) -> (r: Result<Val, String>)
    requires
        interp_inv(*old(g), *old(env)),
        dispatcher_ok(f),
    ensures
        interp_inv(*final(g), *final(env)),
        graph_extends(*old(g), *final(g)),
        keeps_all(old(env).vars_view(), final(env).vars_view()),
        keeps_all(old(env).fns_view(), final(env).fns_view()),
        r is Ok ==> final(env).vars_view() == old(env).vars_view() && final(env).fns_view() == old(env).fns_view(),
        (r matches Ok(v) ==> node_val_lt(v, final(g).nodes@.len() as int)),
        final(env).shaders_view() == old(env).shaders_view(),
        final(env).external_view() == old(env).external_view(),
        items@[0]@ matches GSexp::Sym(fname) ==> (is_builtin_name(fname) ==> (r matches Ok(v) ==> (
        v@ matches GVal::Number(_)))),
        items@[0]@ matches GSexp::Sym(fname) ==> (!is_builtin_name(fname) && !node_form_keyword(
            fname,
        ) ==> ({
            &&& r matches Ok(v) ==> (v@ matches GVal::Node(_))
            &&& (scope_find(old(env).fns_view(), fname) is None ==> r is Err)
            &&& scope_find(old(env).fns_view(), fname) matches Some(def) ==> (def.0@.len()
                != items@.len() - 1 ==> r is Err)
        })),
        items@.len() >= 2 ==> (fuel >= 3 && items@[0]@ == GSexp::Sym("extern"@) ==> (items@[1]@
            matches GSexp::Str(nm) ==> ({
            &&& (table_find(old(env).external_view(), nm) is None ==> r is Err)
            &&& r matches Ok(v) ==> (table_find(old(env).external_view(), nm) is Some && (exists|
                gin: ShaderGraph,
                deps: Vec<NodeId>,
                gout: ShaderGraph,
                id: NodeId,
            |
                call_ensures(
                    f,
                    ((table_find(old(env).external_view(), nm))->0, gin, deps),
                    (gout, Ok::<NodeId, String>(id)),
                ) && v == Val::Node(id)))
        }))),
        items@.len() >= 4 ==> (fuel >= 3 && (items@[0]@ == GSexp::Sym("shader-inline"@)
            || items@[0]@ == GSexp::Sym("shader-rec-inline"@)) ==> (items@[1]@ matches GSexp::Str(
            src,
        ) ==> (items@[2]@ matches GSexp::Num(wb) ==> (items@[3]@ matches GSexp::Num(hb) ==> (
        r matches Ok(v) ==> ({
            &&& final(g).nodes@.len() >= 1
            &&& ({
                let fb = (items@[0]@ == GSexp::Sym("shader-rec-inline"@));
                exists|deps: Seq<NodeId>|
                    #[trigger] shader_slot(
                        final(g).nodes@.last(),
                        src,
                        deps,
                        lit_dim(wb),
                        lit_dim(hb),
                        (final(g).nodes@.len() - 1) as usize,
                        fb,
                    )
            })
            &&& v == Val::Node(NodeId((final(g).nodes@.len() - 1) as usize))
        })))))),
        items@.len() >= 4 ==> (fuel >= 3 && (items@[0]@ == GSexp::Sym("shader"@) || items@[0]@
            == GSexp::Sym("shader-rec"@)) ==> (items@[1]@ matches GSexp::Str(nm) ==> ({
            &&& (table_find(old(env).shaders_view(), nm) is None ==> r is Err)
            &&& r matches Ok(v) ==> (items@[2]@ matches GSexp::Num(wb) ==> (items@[3]@
                matches GSexp::Num(hb) ==> ({
                &&& table_find(old(env).shaders_view(), nm) is Some
                &&& final(g).nodes@.len() >= 1
                &&& ({
                    let fb = (items@[0]@ == GSexp::Sym("shader-rec"@));
                    let srcs = (table_find(old(env).shaders_view(), nm))->0;
                    exists|deps: Seq<NodeId>|
                        #[trigger] shader_slot(
                            final(g).nodes@.last(),
                            srcs@,
                            deps,
                            lit_dim(wb),
                            lit_dim(hb),
                            (final(g).nodes@.len() - 1) as usize,
                            fb,
                        )
                })
                &&& v == Val::Node(NodeId((final(g).nodes@.len() - 1) as usize))
            })))
        }))),
    decreases fuel,
{
    proof {
        lemma_extends_refl(*g);
        lemma_keeps_all_refl(env.vars_view());
        lemma_keeps_all_refl(env.fns_view());
    }
    if fuel == 0 {
        return Err("Maximum form depth exceeded".to_owned());
    }
    if items.len() < 1 {
        return Err("Expected a non-empty form".to_owned());
    }
    let function = match &items[0] {
        Sexp::Sym(s) => s,
        _ => {
            return Err("Expected a symbol".to_owned());
        },
    };
    let is_plain = str_eq(function.as_str(), "shader");
    let is_inline = str_eq(function.as_str(), "shader-inline");
    let is_rec = str_eq(function.as_str(), "shader-rec");
    let is_rec_inline = str_eq(function.as_str(), "shader-rec-inline");
    let is_param = str_eq(function.as_str(), "shader-param");
    let is_ext = str_eq(function.as_str(), "extern");
    proof {
        reveal_strlit("shader");
        reveal_strlit("shader-inline");
        reveal_strlit("shader-rec");
        reveal_strlit("shader-rec-inline");
        reveal_strlit("shader-param");
        reveal_strlit("extern");
        reveal_strlit("+");
        reveal_strlit("-");
        reveal_strlit("*");
        reveal_strlit("/");
        assert("shader"@.len() == 6 && "shader-inline"@.len() == 13 && "shader-rec"@.len() == 10
            && "shader-rec-inline"@.len() == 17 && "shader-param"@.len() == 12 && "extern"@.len()
            == 6 && "+"@.len() == 1 && "-"@.len() == 1 && "*"@.len() == 1 && "/"@.len() == 1);
        assert("shader"@ != "extern"@) by {
            assert("shader"@[0] == 's' && "extern"@[0] == 'e');
        }
    }
    if is_plain || is_inline || is_rec || is_rec_inline {
        let (name, width, height, inputs) = match shader(g, env, items, 1, f, fuel - 1) {
            Ok(p) => p,
            Err(e) => {
                return Err(e);
            },
        };
        let ghost gm = *g;
        let ghost gdeps = inputs@;
        let ghost mut gsrc: Seq<char> = name@;
        let ghost mut gfound: String = name;
        let added = if is_plain || is_rec {
            let source = match env.shader(name.as_str()) {
                Ok(s) => s,
                Err(e) => {
                    return Err(e);
                },
            };
            proof {
                gsrc = source@;
                gfound = *source;
                assert(table_find(old(env).shaders_view(), name@) == Some(gfound));
            }
            if is_plain {
                g.add_shader(source.as_str(), inputs, width, height)
            } else {
                g.add_rec_shader(source.as_str(), inputs, width, height)
            }
        } else {
            if is_inline {
                g.add_shader(name.as_str(), inputs, width, height)
            } else {
                g.add_rec_shader(name.as_str(), inputs, width, height)
            }
        };
        let id = match added {
            Ok(id) => id,
            Err(e) => {
                return Err(e);
            },
        };
        proof {
            lemma_after_present_add(gm, *g, *env);
            lemma_extends_trans(*old(g), gm, *g);
            assert(shader_slot(
                g.nodes@.last(),
                gsrc,
                gdeps,
                width,
                height,
                (g.nodes@.len() - 1) as usize,
                is_rec || is_rec_inline,
            ));
            if is_plain || is_rec {
                assert(table_find(old(env).shaders_view(), name@) == Some(gfound) && gfound@
                    == gsrc);
            } else {
                assert(gsrc == name@);
            }
            assert(items@[0]@ != GSexp::Sym("extern"@));
            if fuel >= 3 && items@.len() >= 4 {
                match (items@[2]@, items@[3]@) {
                    (GSexp::Num(wb), GSexp::Num(hb)) => {
                        if items@[0]@ == GSexp::Sym("shader"@) || items@[0]@ == GSexp::Sym(
                            "shader-rec"@,
                        ) {
                            match items@[1]@ {
                                GSexp::Str(pnm) => {
                                    assert(pnm == name@);
                                    assert(((table_find(old(env).shaders_view(), pnm))->0)@
                                        == gsrc);
                                    assert(width == lit_dim(wb) && height == lit_dim(hb));
                                    assert(shader_slot(
                                        g.nodes@.last(),
                                        ((table_find(old(env).shaders_view(), pnm))->0)@,
                                        gdeps,
                                        lit_dim(wb),
                                        lit_dim(hb),
                                        (g.nodes@.len() - 1) as usize,
                                        (items@[0]@ == GSexp::Sym("shader-rec"@)),
                                    ));
                                },
                                _ => {},
                            }
                        }
                        if items@[0]@ == GSexp::Sym("shader-inline"@) || items@[0]@ == GSexp::Sym(
                            "shader-rec-inline"@,
                        ) {
                            match items@[1]@ {
                                GSexp::Str(psrc) => {
                                    assert(psrc == gsrc);
                                    assert(shader_slot(
                                        g.nodes@.last(),
                                        psrc,
                                        gdeps,
                                        lit_dim(wb),
                                        lit_dim(hb),
                                        (g.nodes@.len() - 1) as usize,
                                        (items@[0]@ == GSexp::Sym("shader-rec-inline"@)),
                                    ));
                                },
                                _ => {},
                            }
                        }
                    },
                    _ => {},
                }
            }
        }
        Ok(Val::Node(id))
    } else if is_param {
        if items.len() < 2 {
            return Err("Expected a non-empty form".to_owned());
        }
        let decl = match &items[1] {
            Sexp::List(v) => v,
            _ => {
                return Err("Expected a form".to_owned());
            },
        };
        let (name, width, height, inputs) = match shader(g, env, decl, 0, f, fuel - 1) {
            Ok(p) => p,
            Err(e) => {
                return Err(e);
            },
        };
        let mut source = match env.shader(name.as_str()) {
            Ok(s) => s.clone(),
            Err(e) => {
                return Err(e);
            },
        };
        let inum = items.len();
        let mut q: usize = 2;
        while q < inum
            invariant
                2 <= q <= inum,
                inum == items@.len(),
                fuel >= 1,
                dispatcher_ok(f),
                interp_inv(*g, *env),
                graph_extends(*old(g), *g),
                env.vars_view() == old(env).vars_view(),
                env.fns_view() == old(env).fns_view(),
                env.shaders_view() == old(env).shaders_view(),
                env.external_view() == old(env).external_view(),
                deps_in_range(inputs@, g.nodes@.len() as int),
                items@[0]@ == GSexp::Sym(function@),
                node_form_keyword(function@),
                !is_builtin_name(function@),
                function@ != "shader"@ && function@ != "shader-inline"@ && function@
                    != "shader-rec"@ && function@ != "shader-rec-inline"@ && function@
                    != "extern"@,
            decreases inum - q,
        {
            let ghost gm = *g;
            source = match subst(g, env, &items[q], source, f, fuel - 1) {
                Ok(s) => s,
                Err(e) => {
                    proof {
                        lemma_extends_trans(*old(g), gm, *g);
                    }
                    return Err(e);
                },
            };
            proof {
                lemma_extends_trans(*old(g), gm, *g);
                assert(deps_in_range(inputs@, g.nodes@.len() as int)) by {
                    assert forall|k: int| 0 <= k < inputs@.len() implies (#[trigger] inputs@[k]).0
                        < g.nodes@.len() by {
                        assert(inputs@[k].0 < gm.nodes@.len());
                    }
                }
            }
            q += 1;
        }
        let ghost gm = *g;
        let id = match g.add_shader(source.as_str(), inputs, width, height) {
            Ok(id) => id,
            Err(e) => {
                return Err(e);
            },
        };
        proof {
            lemma_after_present_add(gm, *g, *env);
            lemma_extends_trans(*old(g), gm, *g);
            assert(items@[0]@ != GSexp::Sym("extern"@) && items@[0]@ != GSexp::Sym("shader"@)
                && items@[0]@ != GSexp::Sym("shader-rec"@) && items@[0]@ != GSexp::Sym(
                "shader-inline"@,
            ) && items@[0]@ != GSexp::Sym("shader-rec-inline"@));
        }
        Ok(Val::Node(id))
    } else if is_ext {
        let (name, inputs) = match external(g, env, items, 1, f, fuel - 1) {
            Ok(p) => p,
            Err(e) => {
                return Err(e);
            },
        };
        let fid = match env.external(name.as_str()) {
            Ok(v) => v,
            Err(e) => {
                return Err(e);
            },
        };
        let mut handed = ShaderGraph::new();
        core::mem::swap(g, &mut handed);
        let ghost gm = handed;
        let ghost gdeps2 = inputs;
        let (built, res) = f(fid, handed, inputs);
        *g = built;
        proof {
            assert(ext_builder_ok(gm, *g, res));
            lemma_extends_trans(*old(g), gm, *g);
            lemma_nodes_ok_mono(env.vars_view(), gm.nodes@.len() as int, g.nodes@.len() as int);
        }
        match res {
            Ok(id) => {
                proof {
                    assert(call_ensures(f, (fid, gm, gdeps2), (*g, Ok::<NodeId, String>(id))));
                    if items@.len() >= 2 && fuel >= 3 {
                        match items@[1]@ {
                            GSexp::Str(pnm) => {
                                assert(name@ == pnm);
                                assert(table_find(old(env).external_view(), pnm) == Some(fid));
                                assert((table_find(old(env).external_view(), pnm))->0 == fid);
                                assert(call_ensures(
                                    f,
                                    ((table_find(old(env).external_view(), pnm))->0, gm, gdeps2),
                                    (*g, Ok::<NodeId, String>(id)),
                                ));
                            },
                            _ => {},
                        }
                    }
                }
                Ok(Val::Node(id))
            },
            Err(e) => {
                let mut msg = concat3("While adding external function `", name.as_str(), "`: ");
                msg.append(e.as_str());
                Err(msg)
            },
        }
    } else {
        let mut args: Vec<Val> = Vec::new();
        let inum = items.len();
        let mut q: usize = 1;
        while q < inum
            invariant
                1 <= q <= inum,
                inum == items@.len(),
                fuel >= 1,
                dispatcher_ok(f),
                interp_inv(*g, *env),
                graph_extends(*old(g), *g),
                env.vars_view() == old(env).vars_view(),
                env.fns_view() == old(env).fns_view(),
                env.shaders_view() == old(env).shaders_view(),
                env.external_view() == old(env).external_view(),
                vals_nodes_ok(args@, g.nodes@.len() as int),
                args@.len() == q - 1,
                items@[0]@ == GSexp::Sym(function@),
                !node_form_keyword(function@),
            decreases inum - q,
        {
            let ghost gm = *g;
            let ghost args0 = args@;
            let v = match expr(g, env, &items[q], f, fuel - 1) {
                Ok(v) => v,
                Err(e) => {
                    proof {
                        lemma_extends_trans(*old(g), gm, *g);
                    }
                    return Err(e);
                },
            };
            args.push(v);
            proof {
                lemma_extends_trans(*old(g), gm, *g);
                assert(vals_nodes_ok(args@, g.nodes@.len() as int)) by {
                    lemma_vals_ok_mono(args0, gm.nodes@.len() as int, g.nodes@.len() as int);
                    assert forall|e: int| 0 <= e < args@.len() implies #[trigger] node_val_lt(
                        args@[e],
                        g.nodes@.len() as int,
                    ) by {
                        if e < args@.len() - 1 {
                            assert(args@[e] == args0[e]);
                            assert(node_val_lt(args0[e], g.nodes@.len() as int));
                        }
                    }
                }
            }
            q += 1;
        }
        match builtin(function.as_str(), &args) {
            Some(res) => {
                proof {
                    assert(items@[0]@ != GSexp::Sym("extern"@) && items@[0]@ != GSexp::Sym(
                        "shader"@,
                    ) && items@[0]@ != GSexp::Sym("shader-rec"@)) by {
                        assert(!node_form_keyword(function@));
                    }
                }
                return res;
            },
            None => {},
        }
        let fndef = match env.get_fn(function.as_str()) {
            Ok(d) => clone_fndef(d),
            Err(e) => {
                return Err(e);
            },
        };
        if fndef.0.len() != args.len() {
            let mut msg = concat3("function `", function.as_str(), "` expected ");
            msg.append(usize_to_string(fndef.0.len()).as_str());
            msg.append(" args, but found ");
            msg.append(usize_to_string(args.len()).as_str());
            return Err(msg);
        }
        if fndef.1.len() == 0 {
            return Err(
                concat3(
                    "Definition `",
                    function.as_str(),
                    "` must have at least one expression in body",
                ),
            );
        }
        let ghost vars_at_call = env.vars_view();
        let ghost fns_at_call = env.fns_view();
        env.enter_scope();
        proof {
            assert(env.vars_view().take(vars_at_call.len() as int) =~= vars_at_call);
            assert(env.fns_view().take(fns_at_call.len() as int) =~= fns_at_call);
            assert(vars_nodes_ok(env.vars_view(), g.nodes@.len() as int)) by {
                assert forall|fi: int, e: int|
                    0 <= fi < env.vars_view().len() && 0 <= e
                        < env.vars_view()[fi]@.len() implies #[trigger] node_val_lt(
                    env.vars_view()[fi]@[e].1,
                    g.nodes@.len() as int,
                ) by {
                    assert(fi < env.vars_view().len() - 1);
                    assert(env.vars_view()[fi] == env.vars_view().drop_last()[fi]);
                    assert(node_val_lt(vars_at_call[fi]@[e].1, g.nodes@.len() as int));
                }
            }
        }
        let pn = fndef.0.len();
        let mut k: usize = 0;
        while k < pn
            invariant
                0 <= k <= pn,
                pn == fndef.0@.len(),
                pn == args@.len(),
                pn == items@.len() - 1,
                interp_inv(*g, *env),
                graph_extends(*old(g), *g),
                vals_nodes_ok(args@, g.nodes@.len() as int),
                vars_at_call == old(env).vars_view(),
                fns_at_call == old(env).fns_view(),
                items@[0]@ == GSexp::Sym(function@),
                !node_form_keyword(function@),
                !is_builtin_name(function@),
                scope_find(old(env).fns_view(), function@) == Some(fndef),
                env.vars_view().len() == vars_at_call.len() + 1,
                env.vars_view().take(vars_at_call.len() as int) == vars_at_call,
                env.fns_view().len() == fns_at_call.len() + 1,
                env.fns_view().take(fns_at_call.len() as int) == fns_at_call,
                env.shaders_view() == old(env).shaders_view(),
                env.external_view() == old(env).external_view(),
            decreases pn - k,
        {
            let ghost vm = env.vars_view();
            let arg_copy = args[k].clone();
            let ghost gc = arg_copy;
            env.set(fndef.0[k].clone(), arg_copy);
            proof {
                assert(env.vars_view().take(vars_at_call.len() as int) =~= vars_at_call);
                assert(vars_nodes_ok(env.vars_view(), g.nodes@.len() as int)) by {
                    assert forall|fi: int, e: int|
                        0 <= fi < env.vars_view().len() && 0 <= e
                            < env.vars_view()[fi]@.len() implies #[trigger] node_val_lt(
                        env.vars_view()[fi]@[e].1,
                        g.nodes@.len() as int,
                    ) by {
                        if fi < env.vars_view().len() - 1 || e < env.vars_view()[fi]@.len() - 1 {
                            assert(env.vars_view()[fi]@[e] == vm[fi]@[e]);
                            assert(node_val_lt(vm[fi]@[e].1, g.nodes@.len() as int));
                        } else {
                            assert(env.vars_view()[fi]@[e].1 == gc);
                            assert(node_val_lt(args@[k as int], g.nodes@.len() as int));
                            assert(gc@ == args@[k as int]@);
                        }
                    }
                }
            }
            k += 1;
        }
        let bn = fndef.1.len();
        let mut b: usize = 0;
        while b + 1 < bn
            invariant
                0 <= b < bn,
                bn == fndef.1@.len(),
                fuel >= 1,
                dispatcher_ok(f),
                interp_inv(*g, *env),
                graph_extends(*old(g), *g),
                vars_at_call == old(env).vars_view(),
                fns_at_call == old(env).fns_view(),
                items@[0]@ == GSexp::Sym(function@),
                !node_form_keyword(function@),
                !is_builtin_name(function@),
                scope_find(old(env).fns_view(), function@) == Some(fndef),
                fndef.0@.len() == items@.len() - 1,
                env.vars_view().len() == vars_at_call.len() + 1,
                env.vars_view().take(vars_at_call.len() as int) == vars_at_call,
                env.fns_view().len() == fns_at_call.len() + 1,
                env.fns_view().take(fns_at_call.len() as int) == fns_at_call,
                env.shaders_view() == old(env).shaders_view(),
                env.external_view() == old(env).external_view(),
            decreases bn - b,
        {
            let ghost gm = *g;
            let ghost vm = env.vars_view();
            let ghost fm = env.fns_view();
            match declare(g, env, &fndef.1[b], f, fuel - 1) {
                Ok(()) => {},
                Err(e) => {
                    proof {
                        lemma_extends_trans(*old(g), gm, *g);
                        assert(env.vars_view().take(vars_at_call.len() as int)
                            =~= vars_at_call) by {
                            assert(forall|i: int|
                                0 <= i < vm.len() - 1 ==> #[trigger] env.vars_view()[i] == vm[i]);
                        }
                        assert(env.fns_view().take(fns_at_call.len() as int) =~= fns_at_call) by {
                            assert(forall|i: int|
                                0 <= i < fm.len() - 1 ==> #[trigger] env.fns_view()[i] == fm[i]);
                        }
                    }
                    return Err(e);
                },
            }
            proof {
                lemma_extends_trans(*old(g), gm, *g);
                assert(env.vars_view().take(vars_at_call.len() as int) =~= vars_at_call) by {
                    assert(forall|i: int|
                        0 <= i < vm.len() - 1 ==> #[trigger] env.vars_view()[i] == vm[i]);
                }
                assert(env.fns_view().take(fns_at_call.len() as int) =~= fns_at_call) by {
                    assert(forall|i: int|
                        0 <= i < fm.len() - 1 ==> #[trigger] env.fns_view()[i] == fm[i]);
                }
            }
            b += 1;
        }
        let ghost gm = *g;
        let ghost vm = env.vars_view();
        let ghost fm = env.fns_view();
        let last_val = match expr(g, env, &fndef.1[bn - 1], f, fuel - 1) {
            Ok(v) => v,
            Err(e) => {
                proof {
                    lemma_extends_trans(*old(g), gm, *g);
                    assert(env.vars_view().take(vars_at_call.len() as int) =~= vars_at_call) by {
                        assert(env.vars_view().take(vm.len() as int) == vm);
                        assert(forall|i: int|
                            0 <= i < vm.len() ==> #[trigger] env.vars_view()[i] == vm[i]);
                    }
                    assert(env.fns_view().take(fns_at_call.len() as int) =~= fns_at_call) by {
                        assert(env.fns_view().take(fm.len() as int) == fm);
                        assert(forall|i: int|
                            0 <= i < fm.len() ==> #[trigger] env.fns_view()[i] == fm[i]);
                    }
                }
                return Err(e);
            },
        };
        proof {
            lemma_extends_trans(*old(g), gm, *g);
        }
        let ret = match last_val.to_node() {
            Ok(id) => id,
            Err(e) => {
                return Err(e);
            },
        };
        env.exit_scope();
        proof {
            assert(items@[0]@ != GSexp::Sym("extern"@) && items@[0]@ != GSexp::Sym("shader"@)
                && items@[0]@ != GSexp::Sym("shader-rec"@) && items@[0]@ != GSexp::Sym(
                "shader-inline"@,
            ) && items@[0]@ != GSexp::Sym("shader-rec-inline"@)) by {
                assert(!node_form_keyword(function@));
            }
            assert(env.vars_view() =~= vars_at_call);
            assert(env.fns_view() =~= fns_at_call);
            assert(vars_nodes_ok(env.vars_view(), g.nodes@.len() as int)) by {
                assert forall|fi: int, e: int|
                    0 <= fi < env.vars_view().len() && 0 <= e
                        < env.vars_view()[fi]@.len() implies #[trigger] node_val_lt(
                    env.vars_view()[fi]@[e].1,
                    g.nodes@.len() as int,
                ) by {
                    assert(env.vars_view()[fi] == old(env).vars_view()[fi]);
                    assert(node_val_lt(old(env).vars_view()[fi]@[e].1, g.nodes@.len() as int));
                }
            }
            assert(keeps_all(old(env).vars_view(), env.vars_view())) by {
                lemma_keeps_all_refl(env.vars_view());
            }
            assert(keeps_all(old(env).fns_view(), env.fns_view())) by {
                lemma_keeps_all_refl(env.fns_view());
            }
        }
        Ok(Val::Node(ret))
    }
}

/// Builds the shader graph a description denotes, inside a fresh
/// environment over the given shading sources and host-registered
/// external procedures (`f` runs the procedure with a given identity on
/// the graph). On any error — a malformed description, an undefined
/// name, a wrongly typed value, an ineligible output, a failing external
/// builder, or a form nested beyond [`BUILD_DEPTH`] — the whole build is
/// abandoned and the message is returned; no partial graph escapes.
pub fn graph_from_sexp<F: Fn(u64, ShaderGraph, Vec<NodeId>) -> (ShaderGraph, Result<NodeId, String>)>(
    shader_dir: ShaderDir,
    external_fns: Vec<(String, u64)>,
    f: &F,
) -> (r: Result<ShaderGraph, String>)
    requires
        dispatcher_ok(f),
    ensures
        (r matches Ok(g) ==> g.wf() && inputs_recorded(g)),
        crate::sexp::spec_parse_all(shader_dir.lisp@, 0) is None ==> r is Err,
        r is Ok ==> (crate::sexp::spec_parse_all(shader_dir.lisp@, 0) matches Some(forms)
            && forall|i: int| 0 <= i < forms.len() ==> decl_shaped(#[trigger] forms[i])),
{
    let ghost glisp = shader_dir.lisp@;
    let decls = match parse_sexps(shader_dir.lisp.as_str()) {
        Ok(v) => v,
        Err(e) => {
            return Err(e);
        },
    };
    let mut graph = ShaderGraph::new();
    let mut env = Env::new(shader_dir.shaders, external_fns);
    let dn = decls.len();
    let mut i: usize = 0;
    proof {
        crate::sexp::lemma_views_of(decls@);
    }
    while i < dn
        invariant
            0 <= i <= dn,
            dn == decls@.len(),
            dispatcher_ok(f),
            interp_inv(graph, env),
            crate::sexp::spec_parse_all(glisp, 0) == Some(views_of(decls@)),
            forall|j: int| 0 <= j < i ==> decl_shaped(#[trigger] views_of(decls@)[j]),
        decreases dn - i,
    {
        match declare(&mut graph, &mut env, &decls[i], f, BUILD_DEPTH) {
            Ok(()) => {},
            Err(e) => {
                return Err(e);
            },
        }
        proof {
            crate::sexp::lemma_views_of(decls@);
            assert(views_of(decls@)[i as int] == decls@[i as int]@);
        }
        i += 1;
    }
    proof {
        crate::sexp::lemma_views_of(decls@);
    }
    Ok(graph)
}

} // verus!
