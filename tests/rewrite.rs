use deno_node_transform::graph::{GraphError, ModuleGraph, ModuleRecord};
use deno_node_transform::graph_builder::GraphBuilder;
use deno_node_transform::resolve::get_module_dependencies;
use deno_node_transform::mappings::{Mappings, MappingsError};
use deno_node_transform::module_specifiers::{get_import_insert_offset, ModuleItem, StrLit, TextChangeError};
use deno_node_transform::path::get_relative_specifier;
use deno_node_transform::output_path::get_output_path;
use deno_node_transform::shims::{get_shim_imports, get_shim_text_change, shim_packages_distinct, GlobalName, Shim};
use deno_node_transform::specifier::MappedSpecifier;
use deno_node_transform::text_changes::{apply_text_changes, ApplyError, TextChange};
use deno_node_transform::{get_module_specifier_text_changes, GetModuleSpecifierTextChangesParams};

fn s(v: &str) -> String {
    v.to_string()
}

fn path(v: &[&str]) -> Vec<String> {
    v.iter().map(|p| p.to_string()).collect()
}

fn mapped(name: &str, version: Option<&str>, sub_path: Option<&str>) -> MappedSpecifier {
    MappedSpecifier {
        name: s(name),
        version: version.map(s),
        sub_path: sub_path.map(s),
    }
}

/// The literal `"text"` as it stands in `source`, with its span.
fn lit(source: &str, text: &str) -> StrLit {
    let quoted = format!("\"{}\"", text);
    let lo = source.find(&quoted).unwrap();
    StrLit {
        value: s(text),
        lo,
        hi: lo + quoted.len(),
    }
}

fn import(source: &str, text: &str) -> ModuleItem {
    ModuleItem::ImportDecl(lit(source, text))
}

struct Setup {
    graph: ModuleGraph,
    mappings: Mappings,
    bare: Vec<(String, MappedSpecifier)>,
}

fn rewrite(setup: &Setup, specifier: &str, source: &str, items: Vec<ModuleItem>) -> Result<String, TextChangeError> {
    let specifier = s(specifier);
    let params = GetModuleSpecifierTextChangesParams {
        specifier: &specifier,
        module_graph: &setup.graph,
        mappings: &setup.mappings,
        items: &items,
        specifier_mappings: &setup.bare,
    };
    let changes = get_module_specifier_text_changes(&params)?;
    let out = apply_text_changes(source.as_bytes(), &changes).unwrap();
    Ok(String::from_utf8(out).unwrap())
}

const MOD_SOURCE: &str = "import \"./util.ts\";\nimport lib from \"https://example.com/lib.ts\";\nconsole.log(lib);\n";

fn scenario() -> Setup {
    let graph = ModuleGraph::new(
        vec![
            ModuleRecord {
                specifier: s("file:///mod.ts"),
                dependencies: vec![
                    (s("./util.ts"), s("file:///util.ts")),
                    (s("https://example.com/lib.ts"), s("https://example.com/lib.ts")),
                ],
            },
            ModuleRecord { specifier: s("file:///util.ts"), dependencies: vec![] },
        ],
        vec![],
    )
    .unwrap();
    let mappings = Mappings::from_specifiers(&vec![s("file:///mod.ts"), s("file:///util.ts")]).unwrap();
    Setup {
        graph,
        mappings,
        bare: vec![(s("https://example.com/lib.ts"), mapped("my-lib", Some("^1.0.0"), None))],
    }
}

#[test]
fn end_to_end_local_and_mapped_imports() {
    let setup = scenario();
    let items = vec![import(MOD_SOURCE, "./util.ts"), import(MOD_SOURCE, "https://example.com/lib.ts"), ModuleItem::Other];
    let out = rewrite(&setup, "file:///mod.ts", MOD_SOURCE, items).unwrap();
    assert_eq!(out, "import \"./util.js\";\nimport lib from \"my-lib\";\nconsole.log(lib);\n");
    let util = s("file:///util.ts");
    assert_eq!(setup.mappings.get_file_path(&util).unwrap(), &path(&["src", "util.js"]));
}

#[test]
fn one_change_per_source_string_inside_quotes() {
    let setup = scenario();
    let specifier = s("file:///mod.ts");
    let items = vec![
        ModuleItem::Other,
        import(MOD_SOURCE, "./util.ts"),
        ModuleItem::NamedExport(None),
        ModuleItem::ExportAll(lit(MOD_SOURCE, "https://example.com/lib.ts")),
    ];
    let params = GetModuleSpecifierTextChangesParams {
        specifier: &specifier,
        module_graph: &setup.graph,
        mappings: &setup.mappings,
        items: &items,
        specifier_mappings: &setup.bare,
    };
    let changes = get_module_specifier_text_changes(&params).unwrap();
    assert_eq!(changes.len(), 2);
    assert_eq!(changes[0].start, 8);
    assert_eq!(changes[0].end, 17);
    assert_eq!(&MOD_SOURCE[changes[0].start..changes[0].end], "./util.ts");
    assert_eq!(changes[0].new_text, "./util.js");
    assert_eq!(&MOD_SOURCE[changes[1].start..changes[1].end], "https://example.com/lib.ts");
    assert_eq!(changes[1].new_text, "my-lib");
    assert!(changes[0].end <= changes[1].start);
}

#[test]
fn rewriting_twice_gives_identical_output() {
    let setup = scenario();
    let items = || vec![import(MOD_SOURCE, "./util.ts"), import(MOD_SOURCE, "https://example.com/lib.ts")];
    let first = rewrite(&setup, "file:///mod.ts", MOD_SOURCE, items()).unwrap();
    let second = rewrite(&setup, "file:///mod.ts", MOD_SOURCE, items()).unwrap();
    assert_eq!(first, second);
}

#[test]
fn mapped_specifier_emits_name_without_version() {
    assert_eq!(mapped("p", Some("^1.0.0"), None).to_specifier_text(), "p");
}

#[test]
fn mapped_specifier_with_sub_path() {
    assert_eq!(mapped("p", Some("^1.0.0"), Some("sub")).to_specifier_text(), "p/sub");
    assert_eq!(mapped("p", None, Some("a/b.js")).to_specifier_text(), "p/a/b.js");
}

#[test]
fn relative_specifier_same_directory() {
    assert_eq!(get_relative_specifier(&path(&["mod.js"]), &path(&["util.js"])), "./util.js");
}

#[test]
fn relative_specifier_into_subdirectory() {
    assert_eq!(
        get_relative_specifier(&path(&["mod.js"]), &path(&["deps", "example.com", "lib.js"])),
        "./deps/example.com/lib.js"
    );
}

#[test]
fn relative_specifier_up_and_across() {
    assert_eq!(
        get_relative_specifier(&path(&["deps", "a.com", "x", "m.js"]), &path(&["deps", "b.com", "n.js"])),
        "../../b.com/n.js"
    );
    assert_eq!(get_relative_specifier(&path(&["src", "a.js"]), &path(&["b.js"])), "../b.js");
}

#[test]
fn relative_specifier_to_itself() {
    assert_eq!(get_relative_specifier(&path(&["src", "a.js"]), &path(&["src", "a.js"])), "./a.js");
}

#[test]
fn redirect_is_followed_to_canonical_target() {
    let graph = ModuleGraph::new(
        vec![ModuleRecord {
            specifier: s("file:///mod.ts"),
            dependencies: vec![(s("https://a.com/x.ts"), s("https://a.com/x.ts"))],
        }],
        vec![
            (s("https://a.com/x.ts"), s("https://a.com/y.ts")),
            (s("https://a.com/y.ts"), s("https://b.com/z.ts")),
        ],
    )
    .unwrap();
    let r = graph.resolve_dependency(&s("https://a.com/x.ts"), &s("file:///mod.ts"));
    assert_eq!(r, Some(s("https://b.com/z.ts")));
    let mappings = Mappings::new(vec![
        (s("file:///mod.ts"), path(&["mod.js"])),
        (s("https://a.com/x.ts"), path(&["deps", "a.com", "x.js"])),
        (s("https://b.com/z.ts"), path(&["deps", "b.com", "z.js"])),
    ])
    .unwrap();
    let setup = Setup { graph, mappings, bare: vec![] };
    let source = "export * from \"https://a.com/x.ts\";";
    let items = vec![ModuleItem::ExportAll(lit(source, "https://a.com/x.ts"))];
    let out = rewrite(&setup, "file:///mod.ts", source, items).unwrap();
    assert_eq!(out, "export * from \"./deps/b.com/z.js\";");
}

#[test]
fn redirect_cycle_is_refused() {
    let r = ModuleGraph::new(
        vec![],
        vec![(s("https://a.com/x.ts"), s("https://a.com/y.ts")), (s("https://a.com/y.ts"), s("https://a.com/x.ts"))],
    );
    assert_eq!(r.unwrap_err(), GraphError::RedirectCycle(s("https://a.com/x.ts")));
}

#[test]
fn unresolved_specifier_is_left_alone() {
    let setup = scenario();
    let source = "import \"./missing.ts\";\nimport \"./util.ts\";\n";
    let items = vec![import(source, "./missing.ts"), import(source, "./util.ts")];
    let out = rewrite(&setup, "file:///mod.ts", source, items).unwrap();
    assert_eq!(out, "import \"./missing.ts\";\nimport \"./util.js\";\n");
}

#[test]
fn nothing_resolves_leaves_source_unchanged() {
    let setup = scenario();
    let source = "export { a } from \"npm:thing\";\n";
    let items = vec![ModuleItem::NamedExport(Some(lit(source, "npm:thing")))];
    let out = rewrite(&setup, "file:///mod.ts", source, items).unwrap();
    assert_eq!(out, source);
}

#[test]
fn malformed_literal_is_an_error() {
    let setup = scenario();
    let items = vec![ModuleItem::ImportDecl(StrLit { value: s("./util.ts"), lo: 5, hi: 6 })];
    let r = rewrite(&setup, "file:///mod.ts", "abcdefgh", items);
    assert_eq!(r, Err(TextChangeError::MalformedLiteral(5, 6)));
}

#[test]
fn missing_output_path_is_an_error() {
    let setup = scenario();
    let r = rewrite(&setup, "file:///other.ts", "", vec![]);
    assert_eq!(r, Err(TextChangeError::MissingOutputPath(s("file:///other.ts"))));
    let graph = ModuleGraph::new(
        vec![ModuleRecord {
            specifier: s("file:///mod.ts"),
            dependencies: vec![(s("./a.ts"), s("file:///a.ts"))],
        }],
        vec![],
    )
    .unwrap();
    let setup = Setup { graph, mappings: scenario().mappings, bare: vec![] };
    let source = "import \"./a.ts\";";
    let r = rewrite(&setup, "file:///mod.ts", source, vec![import(source, "./a.ts")]);
    assert_eq!(r, Err(TextChangeError::MissingOutputPath(s("file:///a.ts"))));
}

#[test]
fn mappings_refuse_collisions_and_empty_paths() {
    let r = Mappings::new(vec![(s("file:///a.ts"), path(&["a.js"])), (s("file:///a.js"), path(&["a.js"]))]);
    assert_eq!(r.unwrap_err(), MappingsError::PathCollision(s("file:///a.ts"), s("file:///a.js")));
    let r = Mappings::new(vec![(s("file:///a.ts"), vec![])]);
    assert_eq!(r.unwrap_err(), MappingsError::EmptyPath(s("file:///a.ts")));
}

fn change(start: usize, end: usize, text: &str) -> TextChange {
    TextChange { start, end, new_text: s(text) }
}

#[test]
fn apply_in_any_order() {
    let source = b"0123456789";
    let a = vec![change(1, 3, "ab"), change(5, 5, "X"), change(8, 10, "")];
    let b = vec![change(8, 10, ""), change(1, 3, "ab"), change(5, 5, "X")];
    let ra = apply_text_changes(source, &a).unwrap();
    let rb = apply_text_changes(source, &b).unwrap();
    assert_eq!(ra, b"0ab34X567".to_vec());
    assert_eq!(ra, rb);
}

#[test]
fn apply_insert_at_end_and_multibyte_text() {
    let out = apply_text_changes(b"ab", &vec![change(2, 2, "é")]).unwrap();
    assert_eq!(String::from_utf8(out).unwrap(), "abé");
    assert_eq!(apply_text_changes(b"ab", &vec![]).unwrap(), b"ab".to_vec());
}

#[test]
fn apply_refuses_overlap_and_out_of_bounds() {
    let source = b"0123456789";
    assert_eq!(
        apply_text_changes(source, &vec![change(1, 4, "a"), change(3, 5, "b")]).unwrap_err(),
        ApplyError::Overlap(0, 1)
    );
    assert_eq!(
        apply_text_changes(source, &vec![change(2, 2, "a"), change(2, 4, "b")]).unwrap_err(),
        ApplyError::Overlap(0, 1)
    );
    assert_eq!(apply_text_changes(source, &vec![change(4, 11, "a")]).unwrap_err(), ApplyError::OutOfBounds(0));
    assert_eq!(apply_text_changes(source, &vec![change(4, 3, "a")]).unwrap_err(), ApplyError::OutOfBounds(0));
}

fn global(name: &str) -> GlobalName {
    GlobalName { name: s(name), export_name: None, type_only: false }
}

fn deno_shim() -> Shim {
    Shim { package: mapped("@x/shim-deno", Some("^0.1.0"), None), global_names: vec![global("Deno")] }
}

#[test]
fn shim_imported_once_however_often_used() {
    let shims = vec![deno_shim()];
    let once = get_shim_imports(&shims, &path(&["Deno"]));
    let many = get_shim_imports(&shims, &path(&["Deno", "console", "Deno", "Deno"]));
    assert_eq!(once, vec![s("import { Deno } from \"@x/shim-deno\";\n")]);
    assert_eq!(many, once);
}

#[test]
fn shim_not_imported_when_unused() {
    let shims = vec![deno_shim()];
    assert!(get_shim_imports(&shims, &path(&["console", "setTimeout"])).is_empty());
    assert!(get_shim_imports(&shims, &vec![]).is_empty());
}

#[test]
fn shim_import_names_every_used_global() {
    let timers = Shim {
        package: mapped("@deno/shim-timers", Some("^0.1.0"), None),
        global_names: vec![
            global("setTimeout"),
            global("setInterval"),
            GlobalName { name: s("Timer"), export_name: Some(s("TimerType")), type_only: true },
        ],
    };
    let shims = vec![deno_shim(), timers];
    let r = get_shim_imports(&shims, &path(&["setInterval", "Timer", "setTimeout", "Deno"]));
    assert_eq!(
        r,
        vec![
            s("import { Deno } from \"@x/shim-deno\";\n"),
            s("import { setTimeout, setInterval, type TimerType as Timer } from \"@deno/shim-timers\";\n"),
        ]
    );
    let r = get_shim_imports(&shims, &path(&["setInterval"]));
    assert_eq!(r, vec![s("import { setInterval } from \"@deno/shim-timers\";\n")]);
}

#[test]
fn output_paths_of_local_and_remote_specifiers() {
    assert_eq!(get_output_path(&s("file:///mod.ts")), Some(path(&["src", "mod.js"])));
    assert_eq!(get_output_path(&s("file:///src/a/b.tsx")), Some(path(&["src", "src", "a", "b.js"])));
    assert_eq!(get_output_path(&s("file:///types.d.ts")), Some(path(&["src", "types.d.ts"])));
    assert_eq!(get_output_path(&s("file:///data.json")), Some(path(&["src", "data.json"])));
    assert_eq!(get_output_path(&s("file:///x.mjs")), Some(path(&["src", "x.js"])));
    assert_eq!(
        get_output_path(&s("https://example.com/std/mod.ts")),
        Some(path(&["deps", "https", "example.com", "std", "mod.js"]))
    );
    assert_eq!(get_output_path(&s("http://localhost:8000/a.js")), Some(path(&["deps", "http", "localhost:8000", "a.js"])));
}

#[test]
fn output_path_refuses_other_schemes_and_empty_segments() {
    assert_eq!(get_output_path(&s("npm:chalk")), None);
    assert_eq!(get_output_path(&s("file:///dir/")), None);
    assert_eq!(get_output_path(&s("https://a.com//b.ts")), None);
}

#[test]
fn mappings_from_specifiers() {
    let m = Mappings::from_specifiers(&vec![s("file:///mod.ts"), s("https://example.com/lib.ts")]).unwrap();
    assert_eq!(m.get_file_path(&s("https://example.com/lib.ts")), Some(&path(&["deps", "https", "example.com", "lib.js"])));
    assert_eq!(m.get_file_path(&s("file:///other.ts")), None);
    let r = Mappings::from_specifiers(&vec![s("file:///a.ts"), s("file:///a.js")]);
    assert_eq!(r.unwrap_err(), MappingsError::PathCollision(s("file:///a.ts"), s("file:///a.js")));
    let r = Mappings::from_specifiers(&vec![s("file:///a.ts"), s("data:text/plain,x")]);
    assert_eq!(r.unwrap_err(), MappingsError::UnsupportedSpecifier(s("data:text/plain,x")));
}

#[test]
fn remote_import_from_local_module_is_relative() {
    let graph = ModuleGraph::new(
        vec![ModuleRecord {
            specifier: s("file:///src/mod.ts"),
            dependencies: vec![(s("https://example.com/lib.ts"), s("https://example.com/lib.ts"))],
        }],
        vec![],
    )
    .unwrap();
    let mappings = Mappings::from_specifiers(&vec![s("file:///src/mod.ts"), s("https://example.com/lib.ts")]).unwrap();
    let setup = Setup { graph, mappings, bare: vec![] };
    let source = "import { x } from \"https://example.com/lib.ts\";";
    let out = rewrite(&setup, "file:///src/mod.ts", source, vec![import(source, "https://example.com/lib.ts")]).unwrap();
    assert_eq!(out, "import { x } from \"../../deps/https/example.com/lib.js\";");
}

#[test]
fn shim_imports_injected_as_one_insertion() {
    let shims = vec![deno_shim()];
    let source = "Deno.exit(0);\n";
    let change = get_shim_text_change(&shims, &path(&["Deno"]), 0).unwrap();
    assert_eq!((change.start, change.end), (0, 0));
    let out = apply_text_changes(source.as_bytes(), &vec![change]).unwrap();
    assert_eq!(String::from_utf8(out).unwrap(), "import { Deno } from \"@x/shim-deno\";\nDeno.exit(0);\n");
    assert!(get_shim_text_change(&shims, &path(&["console"]), 0).is_none());
}

#[test]
fn imports_go_after_leading_directives() {
    let source = "\"use strict\";\n\"use client\";\nDeno.exit(0);\n\"late\";\n";
    let items = vec![ModuleItem::Directive(13), ModuleItem::Directive(27), ModuleItem::Other, ModuleItem::Directive(50)];
    let at = get_import_insert_offset(&items);
    assert_eq!(at, 27);
    let change = get_shim_text_change(&vec![deno_shim()], &path(&["Deno"]), at).unwrap();
    let out = apply_text_changes(source.as_bytes(), &vec![change]).unwrap();
    assert_eq!(
        String::from_utf8(out).unwrap(),
        "\"use strict\";\n\"use client\";import { Deno } from \"@x/shim-deno\";\n\nDeno.exit(0);\n\"late\";\n"
    );
    assert_eq!(get_import_insert_offset(&vec![ModuleItem::Other, ModuleItem::Directive(5)]), 0);
    assert_eq!(get_import_insert_offset(&vec![]), 0);
}

#[test]
fn remote_and_local_paths_kept_apart() {
    let m = Mappings::from_specifiers(&vec![
        s("http://h.com/a.ts"),
        s("https://h.com/a.ts"),
        s("file:///deps/h.com/a.ts"),
        s("file:///deps/https/h.com/a.ts"),
    ])
    .unwrap();
    assert_eq!(m.get_file_path(&s("http://h.com/a.ts")), Some(&path(&["deps", "http", "h.com", "a.js"])));
    assert_eq!(m.get_file_path(&s("file:///deps/https/h.com/a.ts")), Some(&path(&["src", "deps", "https", "h.com", "a.js"])));
}

#[test]
fn shim_packages_must_differ() {
    assert!(shim_packages_distinct(&vec![deno_shim()]));
    assert!(!shim_packages_distinct(&vec![deno_shim(), deno_shim()]));
    let other = Shim { package: mapped("@x/shim-deno", Some("^0.1.0"), Some("timers")), global_names: vec![] };
    assert!(shim_packages_distinct(&vec![deno_shim(), other]));
}

#[test]
fn node_builtin_import_is_left_alone() {
    let source = "import fs from \"node:fs\";\nimport \"./util.ts\";\n";
    let items = || vec![import(source, "node:fs"), import(source, "./util.ts")];
    let mut b = GraphBuilder::new(&vec![s("file:///mod.ts")], vec![], vec![]).unwrap();
    let mut loaded = Vec::new();
    while let Some(next) = b.next_to_load() {
        let next = next.clone();
        let deps = if next == "file:///mod.ts" { get_module_dependencies(&next, &items()) } else { vec![] };
        loaded.push(next);
        b.module_loaded(deps).unwrap();
    }
    assert_eq!(loaded, vec![s("file:///mod.ts"), s("file:///util.ts")]);
    let setup = Setup { graph: b.finish().unwrap(), mappings: Mappings::from_specifiers(&loaded).unwrap(), bare: vec![] };
    let out = rewrite(&setup, "file:///mod.ts", source, items()).unwrap();
    assert_eq!(out, "import fs from \"node:fs\";\nimport \"./util.js\";\n");
}

#[test]
fn mappings_refuse_segments_with_separators() {
    let r = Mappings::new(vec![(s("file:///a.ts"), path(&["src", "a\\b.js"]))]);
    assert_eq!(r.unwrap_err(), MappingsError::BadSegment(s("file:///a.ts")));
    let r = Mappings::new(vec![(s("file:///a.ts"), path(&["src/x", "a.js"]))]);
    assert_eq!(r.unwrap_err(), MappingsError::BadSegment(s("file:///a.ts")));
    let r = Mappings::new(vec![(s("file:///a.ts"), path(&["", "a.js"]))]);
    assert_eq!(r.unwrap_err(), MappingsError::BadSegment(s("file:///a.ts")));
}
