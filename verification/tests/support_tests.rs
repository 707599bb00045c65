use shadergarden::env::Env;
use shadergarden::env::Scope;
use shadergarden::node::TexHandle;
use shadergarden::numeric::dbl_add;
use shadergarden::numeric::dbl_div;
use shadergarden::numeric::dbl_mul;
use shadergarden::numeric::dbl_parse;
use shadergarden::numeric::dbl_sub;
use shadergarden::numeric::dbl_to_string;
use shadergarden::numeric::dbl_trunc;
use shadergarden::reload::count_open_parens;
use shadergarden::reload::did_read_output_sexpr;
use shadergarden::strings::replace_all;
use shadergarden::strings::str_eq;
use shadergarden::strings::u64_to_string;
use shadergarden::uniform::Uniform;
use shadergarden::uniform::UniformMap;
use shadergarden::val::Val;

#[test]
fn binding_names_single_and_multi() {
    // A kind with exactly one value is bound under `u_foo` and `u_foo_0`;
    // a kind with two values only under `u_bar_0` and `u_bar_1`.
    let mut m = UniformMap::new();
    assert_eq!(m.add("foo", Uniform::Number(1)), 0);
    assert_eq!(m.add("bar", Uniform::Number(2)), 0);
    assert_eq!(m.add("bar", Uniform::Number(3)), 1);
    let names: Vec<String> = m.bindings().into_iter().map(|(n, _)| n).collect();
    assert!(names.contains(&"u_foo".to_string()));
    assert!(names.contains(&"u_foo_0".to_string()));
    assert!(names.contains(&"u_bar_0".to_string()));
    assert!(names.contains(&"u_bar_1".to_string()));
    assert!(!names.contains(&"u_bar".to_string()));
}

#[test]
fn uniform_map_lookup_and_append() {
    let mut m = UniformMap::new();
    m.add("kind", Uniform::Number(1));
    m.add("kind", Uniform::Number(2));
    assert_eq!(m.get("kind", 0), Some(&Uniform::Number(1)));
    assert_eq!(m.get("kind", 1), Some(&Uniform::Number(2)));
    assert_eq!(m.get("kind", 2), None);
    assert_eq!(m.get("none", 0), None);
    assert_eq!(m.get_kind_all("kind").map(|v| v.len()), Some(2));
    assert!(m.get_kind_all("none").is_none());
    let mut other = UniformMap::new();
    other.add("kind", Uniform::Number(3));
    other.add("new", Uniform::Number(4));
    m.append(other);
    assert_eq!(m.get("kind", 2), Some(&Uniform::Number(3)));
    assert_eq!(m.get("new", 0), Some(&Uniform::Number(4)));
}

#[test]
fn scope_shadowing_inner_binding_wins_and_vanishes() {
    let mut s: Scope<u32> = Scope::new();
    s.set("x".to_string(), 1);
    s.enter_scope();
    s.set("x".to_string(), 2);
    s.set("y".to_string(), 9);
    assert_eq!(s.get("x"), Ok(&2));
    assert_eq!(s.get("y"), Ok(&9));
    s.exit_scope();
    assert_eq!(s.get("x"), Ok(&1));
    assert_eq!(s.get("y"), Err("Item `y` is not defined".to_string()));
}

#[test]
fn env_separates_variables_and_procedures() {
    let mut env = Env::new(
        vec![("glow".to_string(), "source text".to_string())],
        vec![("mk".to_string(), 3)],
    );
    env.set("x".to_string(), Val::Bool(true));
    assert!(env.get("x").is_ok());
    assert!(env.get_fn("x").is_err());
    assert_eq!(env.shader("glow"), Ok(&"source text".to_string()));
    assert_eq!(
        env.shader("dim"),
        Err("Could not load shader `dim`, it is not defined".to_string())
    );
    assert_eq!(env.external("mk"), Ok(3));
    assert_eq!(
        env.external("rm"),
        Err("Could not load external function `rm`, it is not defined".to_string())
    );
}

#[test]
fn double_arithmetic_matches_hardware() {
    let b = |x: f64| x.to_bits();
    assert_eq!(dbl_add(b(2.0), b(3.0)), b(5.0));
    assert_eq!(dbl_sub(b(10.0), b(3.5)), b(6.5));
    assert_eq!(dbl_mul(b(2.5), b(4.0)), b(10.0));
    assert_eq!(dbl_div(b(1.0), b(8.0)), b(0.125));
    assert_eq!(dbl_add(b(0.1), b(0.2)), b(0.1 + 0.2));
    assert_eq!(dbl_div(b(1.0), b(3.0)), b(1.0 / 3.0));
}

#[test]
fn double_parse_and_truncate() {
    assert_eq!(dbl_parse("5"), Some(5.0f64.to_bits()));
    assert_eq!(dbl_parse("2.5"), Some(2.5f64.to_bits()));
    assert_eq!(dbl_parse("-0.25"), Some((-0.25f64).to_bits()));
    assert_eq!(dbl_parse("1e3"), Some(1000.0f64.to_bits()));
    assert_eq!(dbl_parse("x"), None);
    assert_eq!(dbl_trunc(7.9f64.to_bits()), 7);
    assert_eq!(dbl_trunc((-3.0f64).to_bits()), 0);
    assert_eq!(dbl_trunc(0.0f64.to_bits()), 0);
}

#[test]
fn number_rendering_keeps_a_decimal_point() {
    let v = Val::Number(5.0f64.to_bits());
    assert_eq!(v.to_string(), Ok("5.0".to_string()));
    let v = Val::Number(2.5f64.to_bits());
    assert_eq!(v.to_string(), Ok("2.5".to_string()));
    let raw = dbl_to_string(2.0f64.to_bits());
    assert!(raw == "2" || raw == "2.0");
}

#[test]
fn value_conversions_report_mismatches() {
    let v = Val::Number(1.0f64.to_bits());
    assert_eq!(
        v.to_node().unwrap_err(),
        "Type mismatch: expected a Node, found a Number".to_string()
    );
    let v = Val::Str("hi".to_string());
    assert_eq!(v.to_string(), Ok("hi".to_string()));
    assert_eq!(
        v.to_bool().unwrap_err(),
        "Type mismatch: expected a Boolean, found a String".to_string()
    );
    let v = Val::Bool(true);
    assert_eq!(v.to_bool(), Ok(true));
    assert_eq!(
        v.to_nat().unwrap_err(),
        "Type mismatch: expected a Number, found a Boolean".to_string()
    );
    assert_eq!(Val::Number(3.7f64.to_bits()).to_nat(), Ok(3));
}

#[test]
fn string_helpers() {
    assert_eq!(u64_to_string(0), "0".to_string());
    assert_eq!(u64_to_string(90107), "90107".to_string());
    assert!(str_eq("abc", "abc"));
    assert!(!str_eq("abc", "abd"));
    assert!(!str_eq("abc", "ab"));
    assert_eq!(replace_all("a<X>b<X>c", "<X>", "1"), "a1b1c".to_string());
    assert_eq!(replace_all("aaa", "aa", "b"), "ba".to_string());
    assert_eq!(replace_all("abc", "zz", "1"), "abc".to_string());
}

#[test]
fn stream_reader_decisions() {
    assert_eq!(count_open_parens(&b"((a) (b".to_vec(), 0, 7), 3);
    assert_eq!(count_open_parens(&b"((a) (b".to_vec(), 1, 4), 1);
    assert!(did_read_output_sexpr(&b"(output x)".to_vec(), 0));
    assert!(did_read_output_sexpr(&b"  ( \n output x)".to_vec(), 0));
    assert!(!did_read_output_sexpr(&b"(let x 1)".to_vec(), 0));
    assert!(!did_read_output_sexpr(&b"(input a)(output a)".to_vec(), 0));
    assert!(did_read_output_sexpr(&b"(input a)(output a)".to_vec(), 9));
}

#[test]
fn texture_handles_compare_by_identity() {
    assert_eq!(TexHandle::Supplied { id: 1 }, TexHandle::Supplied { id: 1 });
    assert_ne!(TexHandle::Supplied { id: 1 }, TexHandle::Supplied { id: 2 });
    assert_ne!(
        TexHandle::Owned { node: 1, back: false },
        TexHandle::Owned { node: 1, back: true }
    );
}
