use docscan::access::{Access, AccessOrType};
use docscan::docs::Docs;
use docscan::strutil::{join_strings, repeat_char, string_of_range, chars_of, trim_flatten};

fn paras(ps: &[&str]) -> Vec<String> {
    ps.iter().map(|s| s.to_string()).collect()
}

fn small_graph() -> Docs {
    let mut docs = Docs::new();
    docs.handle_comment(&paras(&["EXPORT: a: deai:module", "Root module"]));
    docs.handle_comment(&paras(&["EXPORT: a.x: ns:Foo", "X brief"]));
    docs.build_tree();
    assert!(!docs.has_error);
    docs
}

#[test]
fn module_page_renders_exactly() {
    let docs = small_graph();
    let page = docs.generate_single(&AccessOrType::Access(Access::Ancestry {
        path: "a".to_string(),
    }));
    let expected = "========\nModule a\n========\n\n.. lua:module:: a\n\nRoot module\n\nSee :lua:meth:`a <a>` for more information about this type\n\nProperties\n==========\n\n.. list-table::\n   :header-rows: 0\n\n   * - :lua:attr:`x <x>`\n     - X brief\n\n.. lua:attribute:: x: Foo\n\n   :type: :lua:mod:`Foo <ns.Foo>`\n\n   X brief \n\n";
    assert_eq!(page, expected);
}

#[test]
fn type_page_lists_references() {
    let docs = small_graph();
    let j = docs
        .find_type(&docscan::ty::Type::Base {
            namespace: Some("ns".to_string()),
            member: "Foo".to_string(),
        })
        .expect("ns:Foo node");
    let refline = docs.generate_references(&docs.types[j].1);
    assert_eq!(refline, "See :lua:meth:`a.x <a.x>` for more information about this type\n\n");
    let empty = docscan::entry::TypeEntry::new();
    assert_eq!(docs.generate_references(&empty), "");
}

#[test]
fn generated_artifacts_and_their_names() {
    let docs = small_graph();
    let pages = docs.generate();
    let names: Vec<&str> = pages.iter().map(|(n, _)| n.as_str()).collect();
    // every paramless ancestry entry gets a page; a.x is the ancestor of
    // ns:Foo, so the type folds into a.x's page instead of one of its own
    assert_eq!(names, vec!["a.rst", "a.x.rst", "types.rst", "modules.rst"]);
    let types_toc = &pages[2].1;
    assert_eq!(
        types_toc,
        "=====\nType\n=====\n\n.. toctree::\n   :maxdepth: 2\n\n   ns:Foo <a.x>\n"
    );
    let index = &pages[3].1;
    assert!(index.starts_with(
        "=============================\nModules and Top-level Methods\n=============================\n\n"
    ));
    assert!(index.contains("   a <a>\n"));
    assert!(index.contains("   * - :doc:`a <a>`\n     - Root module\n"));
}

#[test]
fn rendering_is_deterministic_across_input_orders() {
    let mut d1 = Docs::new();
    d1.handle_comment(&paras(&["EXPORT: a: deai:module", "Root"]));
    d1.handle_comment(&paras(&["EXPORT: a.x: ns:Foo", "X"]));
    d1.handle_comment(&paras(&["EXPORT: ns:Foo.m(q): :int", "M"]));
    d1.handle_type_comment(&paras(&["TYPE: ns:Foo", "Foo brief"]));
    d1.build_tree();
    let mut d2 = Docs::new();
    d2.handle_type_comment(&paras(&["TYPE: ns:Foo", "Foo brief"]));
    d2.handle_comment(&paras(&["EXPORT: ns:Foo.m(q): :int", "M"]));
    d2.handle_comment(&paras(&["EXPORT: a.x: ns:Foo", "X"]));
    d2.handle_comment(&paras(&["EXPORT: a: deai:module", "Root"]));
    d2.build_tree();
    let p1 = d1.generate();
    let p2 = d2.generate();
    assert_eq!(p1.len(), p2.len());
    for (a, b) in p1.iter().zip(p2.iter()) {
        assert_eq!(a.0, b.0);
        assert_eq!(a.1, b.1);
    }
}

#[test]
fn signal_blocks_render_parameters() {
    let mut docs = Docs::new();
    docs.handle_comment(&paras(&["EXPORT: a: deai:module", "Root"]));
    docs.handle_comment(&paras(&[
        "SIGNAL: a.changed(v: ns:Val, w)  fired on change",
        "Arguments:",
        "- w\n  the witness",
    ]));
    docs.build_tree();
    assert!(!docs.has_error);
    let page = docs.generate_single(&AccessOrType::Access(Access::Ancestry {
        path: "a".to_string(),
    }));
    assert!(page.contains("Signals\n==========\n\n.. list-table::\n   :header-rows: 0\n\n"));
    assert!(page.contains("   * - :lua:sgnl:`changed(v, w) <changed>`\n     - fired on change\n"));
    assert!(page.contains(".. lua:signal:: changed(v, w)\n\n"));
    assert!(page.contains("   :param w: the witness\n"));
    assert!(page.contains("   :type v: :lua:mod:`Val <ns.Val>`\n"));
    assert!(page.contains("   :param v:\n"));
}

#[test]
fn top_level_methods_listed_in_index() {
    let mut docs = Docs::new();
    docs.handle_comment(&paras(&["EXPORT: run(job): :int", "Runs a job"]));
    docs.build_tree();
    let pages = docs.generate();
    let index = &pages[pages.len() - 1].1;
    assert!(index.contains("\nMethods\n=======\n\n"));
    assert!(index.contains("   * - :lua:meth:`run(job) <run>`\n     - Runs a job\n"));
}

#[test]
fn string_helpers_behave() {
    assert_eq!(repeat_char('=', 4), "====");
    assert_eq!(repeat_char('x', 0), "");
    let v = chars_of("hello");
    assert_eq!(string_of_range(&v, 1, 4), "ell");
    let items = vec!["a".to_string(), "b".to_string(), "c".to_string()];
    assert_eq!(join_strings(&items, ", "), "a, b, c");
    assert_eq!(join_strings(&Vec::new(), ", "), "");
    let t = chars_of("  a\nb\t ");
    assert_eq!(trim_flatten(&t, 0, t.len()), "a b");
}
