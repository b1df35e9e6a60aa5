use docscan::access::Access;
use docscan::docs::{Docs, ScanErr};
use docscan::namespace::Namespace;
use docscan::order::Rel;
use docscan::ty::Type;

fn paras(ps: &[&str]) -> Vec<String> {
    ps.iter().map(|s| s.to_string()).collect()
}

fn ancestry(path: &str) -> Access {
    Access::Ancestry { path: path.to_string() }
}

fn base(ns: Option<&str>, member: &str) -> Type {
    Type::Base { namespace: ns.map(|s| s.to_string()), member: member.to_string() }
}

#[test]
fn duplicate_access_surfaces_as_error() {
    let mut docs = Docs::new();
    docs.handle_comment(&paras(&["EXPORT: a.b: :int", "first"]));
    assert!(!docs.has_error);
    docs.handle_comment(&paras(&["EXPORT: a.b: :int", "second"]));
    assert!(docs.has_error);
    assert_eq!(docs.entries.len(), 1);
    // the first entry is kept, not silently overwritten
    let j = docs.find_entry(&ancestry("a.b")).expect("entry");
    match &docs.entries[j].doc {
        Some(d) => assert_eq!(d.brief, "first"),
        None => panic!("entry lost its documentation"),
    }
}

#[test]
fn type_index_merges_references() {
    let mut docs = Docs::new();
    docs.handle_comment(&paras(&["EXPORT: a: deai:module"]));
    docs.handle_comment(&paras(&["EXPORT: a.x: ns:Foo"]));
    docs.handle_comment(&paras(&["EXPORT: a.y(q): ns:Foo"]));
    docs.build_tree();
    assert!(!docs.has_error);
    let j = docs.find_type(&base(Some("ns"), "Foo")).expect("one ns:Foo node");
    let refs: Vec<String> = docs.types[j].1.references.iter().map(|a| a.display()).collect();
    assert_eq!(refs, vec!["a.x".to_string(), "a.y".to_string()]);
    // array results share the node of their element type
    let mut more = Docs::new();
    more.handle_comment(&paras(&["EXPORT: a: deai:module"]));
    more.handle_comment(&paras(&["EXPORT: a.z: [ns:Foo]"]));
    more.build_tree();
    let k = more.find_type(&base(Some("ns"), "Foo")).expect("base-reduced key");
    assert_eq!(more.types[k].1.references.len(), 1);
}

#[test]
fn ancestor_set_only_by_paramless_ancestry() {
    let mut docs = Docs::new();
    docs.handle_comment(&paras(&["EXPORT: a: ns:Foo"]));
    docs.handle_comment(&paras(&["EXPORT: ns:Bar.m: ns:Bar"]));
    docs.build_tree();
    let foo = docs.find_type(&base(Some("ns"), "Foo")).expect("ns:Foo");
    match &docs.types[foo].1.ancestor {
        Some(a) => assert_eq!(a.display(), "a"),
        None => panic!("ancestor not set by the paramless ancestry entry"),
    }
    let bar = docs.find_type(&base(Some("ns"), "Bar")).expect("ns:Bar");
    assert!(docs.types[bar].1.ancestor.is_none());
}

#[test]
fn parameter_merge_takes_types_and_docs() {
    let mut docs = Docs::new();
    docs.handle_comment(&paras(&[
        "SIGNAL: ns.ev(a, b)",
        "Arguments:",
        "- a(ns:Int)\n  doc for a\n- b\n  doc for b",
    ]));
    assert!(!docs.has_error);
    let j = docs.find_entry(&ancestry("ns.ev")).expect("signal entry");
    let (ps, dots) = docs.entries[j].params.as_ref().expect("parameters");
    assert!(!*dots);
    assert_eq!(ps.len(), 2);
    assert_eq!(ps[0].name, "a");
    assert_eq!(ps[0].ty.as_ref().map(|t| t.display()), Some("ns:Int".to_string()));
    assert_eq!(ps[0].doc, "doc for a");
    assert_eq!(ps[1].name, "b");
    assert!(ps[1].ty.is_none());
    assert_eq!(ps[1].doc, "doc for b");
}

#[test]
fn inline_type_plus_detail_type_is_an_error() {
    let mut docs = Docs::new();
    docs.handle_comment(&paras(&[
        "SIGNAL: a.e(x: ns:T)",
        "Arguments:",
        "- x(ns:U)\n  doubled",
    ]));
    assert!(docs.has_error);
}

#[test]
fn arguments_without_block_is_an_error() {
    let mut docs = Docs::new();
    docs.handle_comment(&paras(&["SIGNAL: a.e(x)", "Arguments:"]));
    assert!(docs.has_error);
}

#[test]
fn arguments_on_property_is_an_error() {
    let mut docs = Docs::new();
    docs.handle_comment(&paras(&["EXPORT: a.b: :int", "Arguments:", "- x\n  d"]));
    assert!(docs.has_error);
}

#[test]
fn arguments_without_declaration_is_an_error() {
    let mut docs = Docs::new();
    docs.handle_comment(&paras(&["some prose", "Arguments:", "- x\n  d"]));
    assert!(docs.has_error);
    assert_eq!(docs.entries.len(), 0);
}

#[test]
fn handle_comment_inner_reports_the_error_kind() {
    let mut docs = Docs::new();
    assert_eq!(docs.handle_comment_inner(&paras(&["EXPORT: broken(("])), Err(ScanErr::InvalidExport));
    assert_eq!(docs.handle_comment_inner(&paras(&["SIGNAL: .bad"])), Err(ScanErr::InvalidSignal));
    assert_eq!(
        docs.handle_comment_inner(&paras(&["SIGNAL: a.e(x)", "Arguments:"])),
        Err(ScanErr::MissingParamBlock)
    );
    assert_eq!(
        docs.handle_comment_inner(&paras(&["prose", "Arguments:", "- x\n  d"])),
        Err(ScanErr::StrayParamBlock)
    );
    assert_eq!(
        docs.handle_comment_inner(&paras(&["EXPORT: p.q: :int", "Arguments:", "- x\n  d"])),
        Err(ScanErr::ParamBlockOnProperty)
    );
    assert_eq!(
        docs.handle_comment_inner(&paras(&["SIGNAL: a.f(x: ns:T)", "Arguments:", "- x(ns:U)\n  d"])),
        Err(ScanErr::DupParamDoc)
    );
    assert_eq!(ScanErr::InvalidExport.describe(), "invalid export line");
    let mut fine = Docs::new();
    assert_eq!(fine.handle_comment_inner(&paras(&["EXPORT: ok.one: :int"])), Ok(()));
    assert!(!fine.has_error);
}

#[test]
fn invalid_export_is_recoverable() {
    let mut docs = Docs::new();
    for i in 0..10 {
        if i == 4 {
            docs.handle_comment(&paras(&["EXPORT: broken(("]));
        } else {
            docs.handle_comment(&vec![format!("EXPORT: m{}: deai:module", i)]);
        }
    }
    assert!(docs.has_error);
    assert_eq!(docs.entries.len(), 9);
    docs.build_tree();
    let pages = docs.generate();
    // one page per surviving module, plus the two index pages
    assert_eq!(pages.len(), 9 + 2);
}

#[test]
fn multiple_declarations_in_one_comment() {
    let mut docs = Docs::new();
    docs.handle_comment(&paras(&[
        "EXPORT: a: deai:module",
        "first brief",
        "EXPORT: a.x: :int",
        "second brief",
    ]));
    assert!(!docs.has_error);
    assert_eq!(docs.entries.len(), 2);
    let j = docs.find_entry(&ancestry("a")).expect("module entry");
    assert_eq!(docs.entries[j].doc.as_ref().expect("doc").brief, "first brief");
    let k = docs.find_entry(&ancestry("a.x")).expect("property entry");
    assert_eq!(docs.entries[k].doc.as_ref().expect("doc").brief, "second brief");
}

#[test]
fn missing_parent_is_a_graph_error() {
    let mut docs = Docs::new();
    docs.handle_comment(&paras(&["EXPORT: nowhere.child: :int"]));
    docs.build_tree();
    assert!(docs.has_error);
}

#[test]
fn duplicate_child_name_is_a_graph_error() {
    let mut docs = Docs::new();
    docs.handle_comment(&paras(&["EXPORT: a: deai:module"]));
    docs.handle_comment(&paras(&["EXPORT: a.x: :int"]));
    docs.handle_comment(&paras(&["EXPORT: deai:module.x: :int"]));
    docs.build_tree();
    // the ancestry child a.x and the member child deai:module.x both hang
    // below nodes of their own; no name collides, so no error
    assert!(!docs.has_error);
    let mut cl = Docs::new();
    cl.handle_comment(&paras(&["EXPORT: b: ns:T"]));
    cl.handle_comment(&paras(&["EXPORT: b.c: ns:T"]));
    cl.handle_comment(&paras(&["EXPORT: ns:T.c: ns:T"]));
    cl.build_tree();
    // b.c links under the entry b; ns:T.c links under the type node ns:T:
    // still two different parents, no error
    assert!(!cl.has_error);
}

#[test]
fn type_comment_binds_documentation() {
    let mut docs = Docs::new();
    let idx = docs
        .handle_type_comment(&paras(&["TYPE: ns:Foo", "Foo brief", "Foo body"]))
        .expect("type node");
    assert!(!docs.has_error);
    assert_eq!(docs.types[idx].0.display(), "ns:Foo");
    assert_eq!(docs.types[idx].1.doc.brief, "Foo brief");
    assert_eq!(docs.types[idx].1.doc.body, vec!["Foo body".to_string()]);
}

#[test]
fn second_type_binding_flags_error_but_keeps_first() {
    let mut docs = Docs::new();
    let idx = docs
        .handle_type_comment(&paras(&["TYPE: ns:A", "TYPE: ns:B"]))
        .expect("type node");
    assert!(docs.has_error);
    assert_eq!(docs.types[idx].0.display(), "ns:A");
}

#[test]
fn invalid_type_binding_aborts_comment() {
    let mut docs = Docs::new();
    let r = docs.handle_type_comment(&paras(&["TYPE: ???", "lost brief"]));
    assert!(r.is_none());
    assert!(docs.has_error);
    assert_eq!(docs.types.len(), 0);
}

#[test]
fn collect_paragraphs_strips_and_joins() {
    let raw: Vec<Vec<String>> = vec![
        vec![" one".to_string(), "".to_string(), " two".to_string()],
        vec!["bare".to_string()],
    ];
    let out = Docs::collect_paragraphs(&raw);
    assert_eq!(out, vec!["one\ntwo".to_string(), "bare".to_string()]);
}

#[test]
fn namespace_splitting_and_ancestry() {
    assert_eq!("a.b.c".parent(), Some("a.b"));
    assert_eq!("a".parent(), None);
    assert_eq!("a.b.c".last(), "c");
    assert_eq!("a".last(), "a");
    assert!("a.b".validate());
    assert!(!"".validate());
    assert!(!".a".validate());
    assert!(!"a.".validate());
    assert!(!"a..b".validate());
    assert!("a".is_ancestor("a.b"));
    assert!(!"a".is_ancestor("ab"));
    assert!(!"a.b".is_ancestor("a"));
}

#[test]
fn access_ordering_is_total_and_stable() {
    let a1 = ancestry("a");
    let a2 = ancestry("b");
    let m = Access::Member { ty: base(Some("ns"), "T"), member: "x".to_string() };
    assert_eq!(docscan::access::cmp_access(&a1, &a2), Rel::Less);
    assert_eq!(docscan::access::cmp_access(&a2, &a1), Rel::Greater);
    assert_eq!(docscan::access::cmp_access(&a1, &a1), Rel::Equal);
    assert_eq!(docscan::access::cmp_access(&a2, &m), Rel::Less);
    assert_eq!(docscan::access::cmp_access(&m, &a1), Rel::Greater);
}
