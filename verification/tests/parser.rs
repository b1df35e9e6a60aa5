use docscan::access::Access;
use docscan::entry::Entry;
use docscan::parse::{parse_access, parse_base_type, parse_detail_lines, parse_export_line,
    parse_signal_line, parse_type, parse_type_line};
use docscan::strutil::chars_of;
use docscan::ty::Type;

fn cv(s: &str) -> Vec<char> {
    chars_of(s)
}

fn export(s: &str) -> Entry {
    match parse_export_line(&cv(s)) {
        Some(e) => e,
        None => panic!("export line did not parse: {}", s),
    }
}

#[test]
fn export_roundtrip_simple_signature() {
    let e = export("EXPORT: ns.sub(x, y): ns:Foo");
    let ty = match &e.ty {
        Some(t) => t,
        None => panic!("no type"),
    };
    let sig = format!("{} -> {}", e.display(), ty.simple_display());
    assert_eq!(sig, "sub(x, y) -> Foo");
}

#[test]
fn export_property_has_no_params() {
    let e = export("EXPORT: a.b: deai:module");
    assert!(e.params.is_none());
    assert!(e.path.is_ancestry());
    assert_eq!(e.path.display(), "a.b");
    assert_eq!(e.role(), "lua:attr");
    assert_eq!(e.directive(), "lua:attribute");
}

#[test]
fn export_method_roles() {
    let e = export("EXPORT: a.f(x): ns:T");
    assert_eq!(e.role(), "lua:meth");
    assert_eq!(e.directive(), "lua:method");
}

#[test]
fn export_member_access() {
    let e = export("EXPORT: ns:Foo.bar(x): :int");
    match &e.path {
        Access::Member { ty, member } => {
            assert_eq!(ty.display(), "ns:Foo");
            assert_eq!(member, "bar");
        },
        Access::Ancestry { .. } => panic!("expected a member access"),
    }
    assert_eq!(e.path.base_name(), "bar");
}

#[test]
fn export_variadic_markers() {
    let e = export("EXPORT: a.f(x, ...): :int");
    match &e.params {
        Some((ps, dots)) => {
            assert_eq!(ps.len(), 1);
            assert!(*dots);
        },
        None => panic!("expected parameters"),
    }
    assert_eq!(e.display(), "f(x, ...)");
}

#[test]
fn export_typed_parameters() {
    let e = export("EXPORT: a.f(x: ns:T, y): :int");
    match &e.params {
        Some((ps, dots)) => {
            assert_eq!(ps.len(), 2);
            assert!(!*dots);
            assert_eq!(ps[0].name, "x");
            assert_eq!(ps[0].ty.as_ref().map(|t| t.display()), Some("ns:T".to_string()));
            assert_eq!(ps[1].name, "y");
            assert!(ps[1].ty.is_none());
        },
        None => panic!("expected parameters"),
    }
}

#[test]
fn export_rejects_missing_type() {
    assert!(parse_export_line(&cv("EXPORT: a.b")).is_none());
    assert!(parse_export_line(&cv("EXPORT: a.b(x)")).is_none());
    assert!(parse_export_line(&cv("EXPORT: : :int")).is_none());
}

#[test]
fn signal_line_and_remainder() {
    let s = "SIGNAL: ns.ev(a, b)   fires on\nchange";
    let (j, e) = match parse_signal_line(&cv(s)) {
        Some(r) => r,
        None => panic!("signal line did not parse"),
    };
    assert!(e.ty.is_none());
    assert_eq!(e.role(), "lua:sgnl");
    assert_eq!(e.display(), "ev(a, b)");
    let brief = docscan::strutil::trim_flatten(&cv(s), j, s.chars().count());
    assert_eq!(brief, "fires on change");
}

#[test]
fn signal_rejects_bad_access() {
    assert!(parse_signal_line(&cv("SIGNAL: .bad")).is_none());
}

#[test]
fn signal_requires_parameter_group() {
    assert!(parse_signal_line(&cv("SIGNAL: a.b")).is_none());
}

#[test]
fn type_line_parses_base_type() {
    let t = match parse_type_line(&cv("TYPE: deai:module")) {
        Some(t) => t,
        None => panic!("type line did not parse"),
    };
    assert_eq!(t.display(), "deai:module");
    assert_eq!(t.rst_display(), "deai.module");
    assert_eq!(t.simple_display(), "module");
}

#[test]
fn type_line_rejects_garbage() {
    assert!(parse_type_line(&cv("TYPE: ???")).is_none());
}

#[test]
fn array_types_parse_and_display() {
    let (_, t) = parse_type(&cv("[ns:Foo]"), 0).expect("array type");
    match &t {
        Type::Array(inner) => {
            assert_eq!(inner.display(), "ns:Foo");
        },
        Type::Base { .. } => panic!("expected an array"),
    }
    assert_eq!(t.simple_display(), "[Foo]");
    assert_eq!(t.rst_display(), "ns.Foo");
    assert_eq!(t.display(), "[ns:Foo]");
    assert_eq!(t.base_type().display(), "ns:Foo");
}

#[test]
fn nested_array_types_parse() {
    let (_, t) = parse_type(&cv("[[ns:Foo]]"), 0).expect("nested array type");
    assert_eq!(t.display(), "[[ns:Foo]]");
    assert_eq!(t.base_type().display(), "ns:Foo");
}

#[test]
fn base_type_without_namespace() {
    let (_, t) = parse_base_type(&cv(":int"), 0).expect("fundamental type");
    assert_eq!(t.display(), ":int");
    assert_eq!(t.simple_display(), "int");
    match &t {
        Type::Base { namespace, .. } => assert!(namespace.is_none()),
        Type::Array(_) => panic!("expected a base type"),
    }
}

#[test]
fn idents_allow_hyphen_and_underscore() {
    let (_, a) = parse_access(&cv("a-b._c.x2"), 0).expect("access");
    assert_eq!(a.display(), "a-b._c.x2");
}

#[test]
fn detail_block_parses_types_and_docs() {
    let block = "- a(ns:Int)\n  doc for a\n- b\n  doc for b";
    let params = parse_detail_lines(&cv(block));
    assert_eq!(params.len(), 2);
    assert_eq!(params[0].name, "a");
    assert_eq!(params[0].ty.as_ref().map(|t| t.display()), Some("ns:Int".to_string()));
    assert_eq!(params[0].doc, "doc for a");
    assert_eq!(params[1].name, "b");
    assert!(params[1].ty.is_none());
    assert_eq!(params[1].doc, "doc for b");
}

#[test]
fn detail_block_last_line_wins_per_name() {
    let block = "- a\n  first\n- a\n  second";
    let params = parse_detail_lines(&cv(block));
    assert_eq!(params.len(), 1);
    assert_eq!(params[0].doc, "second");
}

#[test]
fn detail_doc_continues_across_lines() {
    let block = "- a\n  one\n  two";
    let params = parse_detail_lines(&cv(block));
    assert_eq!(params.len(), 1);
    assert_eq!(params[0].doc, "one two");
}

#[test]
fn variadic_only_parameter_list() {
    let e = export("EXPORT: a.f(...): :int");
    match &e.params {
        Some((ps, dots)) => {
            assert_eq!(ps.len(), 0);
            assert!(*dots);
        },
        None => panic!("expected parameters"),
    }
    assert_eq!(e.display(), "f(...)");
    let (_, s) = match parse_signal_line(&cv("SIGNAL: ns.fire( ... )")) {
        Some(r) => r,
        None => panic!("bare variadic signal did not parse"),
    };
    assert_eq!(s.display(), "fire(...)");
}

#[test]
fn empty_parameter_list() {
    let e = export("EXPORT: a.f(): :int");
    match &e.params {
        Some((ps, dots)) => {
            assert_eq!(ps.len(), 0);
            assert!(!*dots);
        },
        None => panic!("expected parameters"),
    }
    assert_eq!(e.display(), "f()");
}

#[test]
fn whitespace_tolerated_around_punctuation() {
    let e = export("EXPORT: a.f( x , y ) : ns:T");
    match &e.params {
        Some((ps, _)) => {
            assert_eq!(ps.len(), 2);
            assert_eq!(ps[0].name, "x");
            assert_eq!(ps[1].name, "y");
        },
        None => panic!("expected parameters"),
    }
}
