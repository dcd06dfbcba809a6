use deno_node_transform::graph::GraphError;
use deno_node_transform::graph_builder::GraphBuilder;
use deno_node_transform::module_specifiers::{ModuleItem, StrLit};
use deno_node_transform::resolve::get_module_dependencies;

fn s(v: &str) -> String {
    v.to_string()
}

fn import(text: &str) -> ModuleItem {
    ModuleItem::ImportDecl(StrLit { value: s(text), lo: 0, hi: text.len() + 2 })
}

#[test]
fn dependencies_resolve_against_the_module() {
    let items = vec![
        import("./util.ts"),
        ModuleItem::Other,
        ModuleItem::ExportAll(StrLit { value: s("../lib/a.ts"), lo: 0, hi: 13 }),
        ModuleItem::NamedExport(None),
        import("https://example.com/x.ts"),
    ];
    let deps = get_module_dependencies(&s("file:///src/mod.ts"), &items);
    assert_eq!(
        deps,
        vec![
            (s("./util.ts"), s("file:///src/util.ts")),
            (s("../lib/a.ts"), s("file:///lib/a.ts")),
            (s("https://example.com/x.ts"), s("https://example.com/x.ts")),
        ]
    );
}

#[test]
fn unresolvable_text_is_not_a_dependency() {
    let deps = get_module_dependencies(&s("file:///mod.ts"), &vec![import("http://[bad")]);
    assert!(deps.is_empty());
}

#[test]
fn builder_loads_each_specifier_once() {
    let mut b = GraphBuilder::new(
        &vec![s("file:///mod.ts"), s("file:///test.ts"), s("file:///mod.ts")],
        vec![s("https://mapped.com/lib.ts")],
        vec![(s("https://a.com/old.ts"), s("https://a.com/new.ts"))],
    )
    .unwrap();
    let mut order = Vec::new();
    while let Some(next) = b.next_to_load() {
        let next = next.clone();
        order.push(next.clone());
        let deps = match next.as_str() {
            "file:///mod.ts" => vec![
                (s("./util.ts"), s("file:///util.ts")),
                (s("https://a.com/old.ts"), s("https://a.com/old.ts")),
                (s("https://mapped.com/lib.ts"), s("https://mapped.com/lib.ts")),
            ],
            "file:///test.ts" => vec![(s("./mod.ts"), s("file:///mod.ts")), (s("./util.ts"), s("file:///util.ts"))],
            "file:///util.ts" => vec![(s("./mod.ts"), s("file:///mod.ts"))],
            _ => vec![],
        };
        b.module_loaded(deps).unwrap();
    }
    assert_eq!(
        order,
        vec![s("file:///mod.ts"), s("file:///test.ts"), s("file:///util.ts"), s("https://a.com/new.ts")]
    );
    assert_eq!(b.module_loaded(vec![]), Err(GraphError::NothingPending));
    let g = b.finish().unwrap();
    assert_eq!(g.resolve_dependency(&s("https://a.com/old.ts"), &s("file:///mod.ts")), Some(s("https://a.com/new.ts")));
    assert_eq!(g.resolve_dependency(&s("./util.ts"), &s("file:///test.ts")), Some(s("file:///util.ts")));
    assert_eq!(
        g.resolve_dependency(&s("https://mapped.com/lib.ts"), &s("file:///mod.ts")),
        Some(s("https://mapped.com/lib.ts"))
    );
    assert_eq!(g.resolve_dependency(&s("./other.ts"), &s("file:///test.ts")), None);
}

#[test]
fn builder_refuses_redirect_cycle_and_early_finish() {
    let r = GraphBuilder::new(&vec![s("file:///a.ts")], vec![], vec![(s("file:///a.ts"), s("file:///a.ts"))]);
    assert_eq!(r.unwrap_err(), GraphError::RedirectCycle(s("file:///a.ts")));
    let b = GraphBuilder::new(&vec![s("file:///a.ts")], vec![], vec![]).unwrap();
    assert_eq!(b.finish().unwrap_err(), GraphError::Incomplete);
}

#[test]
fn excluded_entry_point_is_never_loaded() {
    let b = GraphBuilder::new(&vec![s("https://mapped.com/lib.ts")], vec![s("https://mapped.com/lib.ts")], vec![]).unwrap();
    assert!(b.next_to_load().is_none());
    assert!(b.finish().is_ok());
}

#[test]
fn unknown_scheme_import_is_not_a_dependency() {
    let items = vec![import("node:fs"), import("npm:chalk@5"), import("data:text/javascript,1"), import("./a.ts")];
    let deps = get_module_dependencies(&s("file:///mod.ts"), &items);
    assert_eq!(deps, vec![(s("./a.ts"), s("file:///a.ts"))]);
    let mut b = GraphBuilder::new(&vec![s("file:///mod.ts")], vec![], vec![]).unwrap();
    b.module_loaded(deps).unwrap();
    assert_eq!(b.next_to_load(), Some(&s("file:///a.ts")));
    b.module_loaded(vec![]).unwrap();
    assert!(b.next_to_load().is_none());
    let g = b.finish().unwrap();
    assert_eq!(g.resolve_dependency(&s("node:fs"), &s("file:///mod.ts")), None);
}
