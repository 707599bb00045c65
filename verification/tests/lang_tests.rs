use shadergarden::NodeId;
use shadergarden::graph::ShaderGraph;
use shadergarden::interp::graph_from_sexp;
use shadergarden::node::Buffer;
use shadergarden::node::NodeKind;
use shadergarden::node::TexHandle;
use shadergarden::reload::ReloadController;
use shadergarden::reload::ShaderDir;
use shadergarden::reload::WatchResult;
use shadergarden::sexp::Sexp;
use shadergarden::sexp::parse_sexps;
use shadergarden::uniform::Uniform;
use shadergarden::uniform::UniformMap;

type ExtResult = (ShaderGraph, Result<NodeId, String>);

fn no_extern(_fid: u64, g: ShaderGraph, _deps: Vec<NodeId>) -> ExtResult {
    (g, Err("unregistered".to_string()))
}

fn build(lisp: &str) -> Result<ShaderGraph, String> {
    build_with(lisp, vec![])
}

fn build_with(lisp: &str, shaders: Vec<(String, String)>) -> Result<ShaderGraph, String> {
    let dir = ShaderDir::new(lisp.to_string(), shaders);
    graph_from_sexp(dir, vec![], &no_extern)
}

fn no_compute(_fid: u64, _uniforms: UniformMap) -> Uniform {
    Uniform::Number(0)
}

fn shader_node(g: &ShaderGraph, i: usize) -> &shadergarden::node::ShaderNode {
    match &g.nodes[i] {
        Some(NodeKind::Shader(s)) => s,
        other => panic!("expected a shader node at {}, found {:?}", i, other),
    }
}

#[test]
fn parse_atoms_lists_and_comments() {
    let forms = parse_sexps("; a comment\n(input a) (let x 2.5) \"s\" #t #f sym").unwrap();
    assert_eq!(forms.len(), 6);
    match &forms[0] {
        Sexp::List(items) => {
            assert!(matches!(&items[0], Sexp::Sym(s) if s == "input"));
            assert!(matches!(&items[1], Sexp::Sym(s) if s == "a"));
        },
        other => panic!("expected a list, found {:?}", other),
    }
    match &forms[1] {
        Sexp::List(items) => match &items[2] {
            Sexp::Num(bits) => assert_eq!(*bits, 2.5f64.to_bits()),
            other => panic!("expected a number, found {:?}", other),
        },
        other => panic!("expected a list, found {:?}", other),
    }
    assert!(matches!(&forms[2], Sexp::Str(s) if s == "s"));
    assert!(matches!(&forms[3], Sexp::Bool(true)));
    assert!(matches!(&forms[4], Sexp::Bool(false)));
    assert!(matches!(&forms[5], Sexp::Sym(s) if s == "sym"));
}

#[test]
fn parse_string_escapes() {
    let forms = parse_sexps("\"a\\\"b\\\\c\\nd\"").unwrap();
    match &forms[0] {
        Sexp::Str(s) => assert_eq!(s, "a\"b\\c\nd"),
        other => panic!("expected a string, found {:?}", other),
    }
}

#[test]
fn parse_rejects_malformed_forms() {
    assert!(parse_sexps("(input a").is_err());
    assert!(parse_sexps(")").is_err());
    assert!(parse_sexps("\"open").is_err());
    assert!(parse_sexps("(let x 1.2.3)").is_err());
}

#[test]
fn passthrough_description() {
    // `(input a)(output a)` with one supplied resource returns exactly
    // that resource under the input's id.
    let mut g = build("(input a)(output a)").unwrap();
    assert_eq!(g.get_inputs(), &vec![NodeId(0)]);
    assert_eq!(g.get_outputs(), &vec![NodeId(0)]);
    let tex = TexHandle::Supplied { id: 11 };
    let (outs, steps) = g.forward(&vec![(NodeId(0), tex)], 0, no_compute);
    assert_eq!(outs, vec![(NodeId(0), tex)]);
    assert!(steps.is_empty());
}

#[test]
fn procedure_call_passes_arguments_by_value() {
    // A call binds parameters positionally and returns the node its last
    // body expression builds.
    let g = build(
        "(input a)(define (mk w) (shader-inline \"src\" w w a))(let n (mk 5))(output n)",
    )
    .unwrap();
    assert_eq!(shader_node(&g, 1).width, 5);
    assert_eq!(g.get_outputs(), &vec![NodeId(1)]);
}

#[test]
fn procedure_result_must_be_a_node() {
    // The last body expression of a call must resolve to a node: a
    // number is reported, not passed through.
    let err = build("(define (id x) x)(let y (id 5))").unwrap_err();
    assert_eq!(err, "Type mismatch: expected a Node, found a Number");
}

#[test]
fn numbers_render_with_a_decimal_point() {
    // A whole number substituted into a source renders as `5.0`.
    let g = build_with(
        "(input a)(let n (shader-param (\"s\" 8 8 a) (define \"G\" 5)))(output n)",
        vec![("s".to_string(), "A<G>B".to_string())],
    )
    .unwrap();
    assert_eq!(shader_node(&g, 1).shader, "A#define G 5.0B");
}

#[test]
fn procedure_scope_is_popped_and_shadows() {
    // A parameter binding shadows an outer binding during the call and
    // is gone afterwards: the outer `x` must still be 3 for the second
    // shader's width.
    let g = build(
        "(input a)(let x 3)(define (f x) (shader-inline \"s1\" x x a))(let p (f 9))(let q (shader-inline \"s2\" x x a))(output q)",
    )
    .unwrap();
    assert_eq!(shader_node(&g, 1).width, 9);
    assert_eq!(shader_node(&g, 2).width, 3);
}

#[test]
fn repeat_without_binding_fails_with_scope_error() {
    // `(repeat 3 (let z (+ z 1)))` with `z` unbound fails on the first
    // iteration instead of defaulting to zero.
    let err = build("(repeat 3 (let z (+ z 1)))").unwrap_err();
    assert_eq!(err, "Item `z` is not defined");
}

#[test]
fn repeat_accumulates_bindings() {
    // Bindings persist across iterations: `z` counts to three, and every
    // iteration adds one shader node.
    let g = build(
        "(input a)(let z 0)(repeat 3 (let z (+ z 1)))(let n (shader-inline \"s\" z z a))(output n)",
    )
    .unwrap();
    assert_eq!(shader_node(&g, 1).width, 3);
}

#[test]
fn arithmetic_builtins_fold() {
    let g = build(
        "(input a)(let n (shader-inline \"s\" (+ 1 2 3) (* 2 3) a))(let m (shader-inline \"t\" (- 10 3 2) (/ 20 2 2) a))(output n)(output m)",
    )
    .unwrap();
    assert_eq!(shader_node(&g, 1).width, 6);
    assert_eq!(shader_node(&g, 1).height, 6);
    assert_eq!(shader_node(&g, 2).width, 5);
    assert_eq!(shader_node(&g, 2).height, 5);
}

#[test]
fn arithmetic_identity_fallbacks() {
    // A zero-argument difference folds to zero; a zero-argument quotient
    // to one.
    let g = build("(input a)(let n (shader-inline \"s\" (/) (+ (-) 2) a))(output n)").unwrap();
    assert_eq!(shader_node(&g, 1).width, 1);
    assert_eq!(shader_node(&g, 1).height, 2);
}

#[test]
fn arithmetic_rejects_non_numbers() {
    let err = build("(let x (+ 1 \"two\"))").unwrap_err();
    assert_eq!(err, "Type mismatch: expected a Number, found a String");
}

#[test]
fn shader_param_substitutes_placeholders() {
    // `<GAIN>` becomes a `#define` line, with no placeholder left.
    let g = build_with(
        "(input a)(let n (shader-param (\"my_shader\" 64 64 a) (define \"GAIN\" 2.0)))(output n)",
        vec![("my_shader".to_string(), "x = <GAIN>; y = <GAIN>;".to_string())],
    )
    .unwrap();
    let src = &shader_node(&g, 1).shader;
    assert!(src.contains("#define GAIN 2.0"));
    assert!(!src.contains("<GAIN>"));
    assert_eq!(src, "x = #define GAIN 2.0; y = #define GAIN 2.0;");
}

#[test]
fn shader_param_ifdef_substitutes_flag() {
    let g = build_with(
        "(input a)(let n (shader-param (\"s\" 8 8 a) (ifdef \"FAST\" #t) (ifdef \"SLOW\" #f)))(output n)",
        vec![("s".to_string(), "<FAST>|<SLOW>".to_string())],
    )
    .unwrap();
    assert_eq!(shader_node(&g, 1).shader, "#define FAST 1|");
}

#[test]
fn shader_rec_builds_double_buffer() {
    let g = build("(input a)(let n (shader-rec-inline \"s\" 8 8 a))(output n)").unwrap();
    match shader_node(&g, 1).buffer {
        Buffer::Double(front, back) => {
            assert_eq!(front, TexHandle::Owned { node: 1, back: false });
            assert_eq!(back, TexHandle::Owned { node: 1, back: true });
        },
        other => panic!("expected a double buffer, found {:?}", other),
    }
}

#[test]
fn undefined_shader_name_is_reported() {
    let err = build("(input a)(let n (shader \"nope\" 8 8 a))(output n)").unwrap_err();
    assert_eq!(err, "Could not load shader `nope`, it is not defined");
}

#[test]
fn undefined_output_is_reported() {
    let err = build("(output ghostly)").unwrap_err();
    assert_eq!(err, "Item `ghostly` is not defined");
}

#[test]
fn ineligible_output_is_reported() {
    let err = build("(let x 1)(output x)").unwrap_err();
    assert_eq!(err, "Type mismatch: expected a Node, found a Number");
}

#[test]
fn empty_definition_body_is_reported() {
    // A definition must carry at least one body expression, and a
    // failed definition records nothing.
    let err = build("(define (f x))(let y (f 1))").unwrap_err();
    assert_eq!(err, "Definition `f` must have at least one expression in body");
}

#[test]
fn arity_mismatch_is_reported() {
    let err = build("(define (f x y) x)(let z (f 1))").unwrap_err();
    assert_eq!(err, "function `f` expected 2 args, but found 1");
}

#[test]
fn unknown_keyword_is_reported() {
    let err = build("(frobnicate a)").unwrap_err();
    assert_eq!(err, "Expected a statement keyword, found `frobnicate`");
}

#[test]
fn runaway_recursion_is_reported() {
    let err = build("(define (f) (f))(let x (f))").unwrap_err();
    assert_eq!(err, "Maximum form depth exceeded");
}

#[test]
fn extern_dispatch_builds_through_the_host() {
    let dir = ShaderDir::new(
        "(input a)(let n (extern \"mk\" a))(output n)".to_string(),
        vec![],
    );
    let builder = |fid: u64, mut g: ShaderGraph, deps: Vec<NodeId>| -> ExtResult {
        assert_eq!(fid, 7);
        let id = g.add_shader("made outside", deps, 4, 4).unwrap();
        (g, Ok(id))
    };
    let g = graph_from_sexp(dir, vec![("mk".to_string(), 7)], &builder).unwrap();
    assert_eq!(shader_node(&g, 1).shader, "made outside");
    assert_eq!(g.get_outputs(), &vec![NodeId(1)]);
}

#[test]
fn extern_failure_is_wrapped() {
    let err = build("(input a)(let n (extern \"mk\" a))(output n)").unwrap_err();
    assert_eq!(err, "Could not load external function `mk`, it is not defined");
    let dir = ShaderDir::new("(input a)(let n (extern \"mk\" a))".to_string(), vec![]);
    let failing = |_fid: u64, g: ShaderGraph, _deps: Vec<NodeId>| -> ExtResult {
        (g, Err("boom".to_string()))
    };
    let err = graph_from_sexp(dir, vec![("mk".to_string(), 7)], &failing).unwrap_err();
    assert_eq!(err, "While adding external function `mk`: boom");
}

#[test]
fn rebuild_failure_keeps_old_graph() {
    // Rebuild atomicity: after a failed rebuild, the observable graph is
    // the same as before the attempt.
    let g1 = build("(input a)(output a)").unwrap();
    let mut controller = ReloadController::new(g1, 1000);
    assert!(!controller.should_reload(1200, true));
    assert!(!controller.should_reload(2000, false));
    assert!(controller.should_reload(1301, true));
    let bad = build("(output nope)");
    assert!(bad.is_err());
    let result = controller.apply_reload(2000, bad);
    match result {
        WatchResult::Failed(msg) => assert_eq!(msg, "Item `nope` is not defined"),
        other => panic!("expected a failed reload, found {:?}", other),
    }
    assert_eq!(controller.last_reload_ms, 2000);
    // The old graph is still live and behaves identically.
    let tex = TexHandle::Supplied { id: 5 };
    let (outs, _) = controller.graph.forward(&vec![(NodeId(0), tex)], 0, no_compute);
    assert_eq!(outs, vec![(NodeId(0), tex)]);
    // A successful rebuild replaces it.
    let g2 = build("(input a)(input b)(output b)").unwrap();
    let result = controller.apply_reload(3000, Ok(g2));
    assert!(matches!(result, WatchResult::Rebuilt));
    assert_eq!(controller.graph.get_inputs().len(), 2);
}
