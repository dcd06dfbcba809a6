use vstd::prelude::*;

use crate::graph::resolve_spec;
use crate::mappings::{lemma_valid_table_paths, mappings_valid, path_of};
use crate::path::{
    descent,
    dir_of,
    follow_reference,
    lemma_relative_reference_reaches_target,
    lemma_relative_text_slash_only,
    relative_text,
    ups,
};
use crate::graph::GraphView;
use crate::specifier::{bare_text, MappedSpecifier};
use crate::module_specifiers::{
    item_changes,
    module_changes,
    literal_change,
    mapped_of,
    replacement_text,
    sources,
    ModuleItem,
    RewriteContext,
    StrLit,
};

verus! {

/// A source string whose span holds its quotes, and whose text resolves to a
/// target that is mapped or has an output path.
pub open spec fn rewritable(ctx: RewriteContext, lit: StrLit) -> bool {
    &&& lit.lo + 2 <= lit.hi
    &&& resolve_spec(ctx.graph, lit.value@, ctx.containing) matches Some(t) && (mapped_of(ctx.bare, t) is Some
        || path_of(ctx.paths, t) is Some)
}

/// When every source string among a module's items is rewritable and their
/// spans come in order, the module gets exactly one change per source string,
/// each covering just the text between that string's quotes, and no two
/// changes overlap.
pub proof fn lemma_one_change_per_source(ctx: RewriteContext, items: Seq<ModuleItem>)
    requires
        forall|k: int| 0 <= k < sources(items).len() ==> rewritable(ctx, #[trigger] sources(items)[k]),
        forall|k: int, l: int|
            0 <= k < l < sources(items).len() ==> (#[trigger] sources(items)[k]).hi <= (#[trigger] sources(
                items,
            )[l]).lo,
    ensures
        item_changes(ctx, items) is Ok,
        item_changes(ctx, items)->Ok_0.len() == sources(items).len(),
        forall|k: int|
            0 <= k < sources(items).len() ==> (#[trigger] item_changes(ctx, items)->Ok_0[k]).0 == sources(items)[k].lo
                + 1 && item_changes(ctx, items)->Ok_0[k].1 == sources(items)[k].hi - 1,
        forall|k: int, l: int|
            0 <= k < l < sources(items).len() ==> (#[trigger] item_changes(ctx, items)->Ok_0[k]).0
                <= item_changes(ctx, items)->Ok_0[k].1 <= (#[trigger] item_changes(ctx, items)->Ok_0[l]).0,
    decreases items.len(),
{
    if items.len() > 0 {
        let prev = items.drop_last();
        let sp = sources(prev);
        let s = sources(items);
        assert forall|k: int| 0 <= k < sp.len() implies rewritable(ctx, #[trigger] sp[k]) by {
            assert(sp[k] == s[k]);
        }
        assert forall|k: int, l: int| 0 <= k < l < sp.len() implies (#[trigger] sp[k]).hi <= (#[trigger] sp[l]).lo by {
            assert(sp[k] == s[k] && sp[l] == s[l]);
        }
        lemma_one_change_per_source(ctx, prev);
        match items.last().source() {
            None => {},
            Some(lit) => {
                let last = s.len() - 1;
                assert(s[last] == lit);
                assert(rewritable(ctx, lit));
                let cs = item_changes(ctx, items)->Ok_0;
                assert forall|k: int| 0 <= k < s.len() implies (#[trigger] cs[k]).0 == s[k].lo + 1 && cs[k].1
                    == s[k].hi - 1 by {
                    if k < last {
                        assert(sp[k] == s[k]);
                    }
                }
                assert forall|k: int, l: int| 0 <= k < l < s.len() implies (#[trigger] cs[k]).0 <= cs[k].1 <= (
                #[trigger] cs[l]).0 by {
                    assert(cs[k].0 == s[k].lo + 1 && cs[k].1 == s[k].hi - 1);
                    assert(cs[l].0 == s[l].lo + 1 && cs[l].1 == s[l].hi - 1);
                    assert(rewritable(ctx, s[k]));
                    assert(s[k].hi <= s[l].lo);
                }
            },
        }
    }
}

/// A source string that the graph cannot resolve gets no change: the module's
/// changes are those of the other items.
pub proof fn lemma_unresolved_left_alone(ctx: RewriteContext, items: Seq<ModuleItem>, item: ModuleItem)
    requires
        item.source() matches Some(lit) && lit.lo + 2 <= lit.hi && resolve_spec(
            ctx.graph,
            lit.value@,
            ctx.containing,
        ) is None,
    ensures
        literal_change(ctx, item.source()->0) == Ok::<_, crate::module_specifiers::RewriteFailure>(
            None::<(int, int, Seq<char>)>,
        ),
        item_changes(ctx, items.push(item)) == item_changes(ctx, items),
{
    assert(items.push(item).drop_last() =~= items);
}

/// A specifier text that resolves to a mapped target is rewritten to the bare
/// reference: exactly the package name without a sub-path, the name, `/` and
/// the sub-path with one, and never the version.
pub proof fn lemma_mapped_target_emits_bare_reference(ctx: RewriteContext, raw: Seq<char>)
    requires
        resolve_spec(ctx.graph, raw, ctx.containing) matches Some(t) && mapped_of(ctx.bare, t) is Some,
    ensures
        ({
            let m = mapped_of(ctx.bare, resolve_spec(ctx.graph, raw, ctx.containing)->0)->0;
            &&& replacement_text(ctx, raw) == Ok::<_, crate::module_specifiers::RewriteFailure>(
                Some(bare_text(m.name@, m.spec_sub_path())),
            )
            &&& m.sub_path is None ==> bare_text(m.name@, m.spec_sub_path()) == m.name@
            &&& m.sub_path matches Some(sub) ==> bare_text(m.name@, m.spec_sub_path()) == m.name@ + seq!['/']
                + sub@
        }),
{
}

/// A specifier text that resolves to an unmapped target with an output path
/// is rewritten to an explicitly relative reference with `/` as its only
/// separator which, followed from the containing module's directory, reaches
/// exactly the target's output path.
pub proof fn lemma_local_target_reached(ctx: RewriteContext, raw: Seq<char>)
    requires
        ctx.from_path.len() > 0,
        resolve_spec(ctx.graph, raw, ctx.containing) matches Some(t) && (mapped_of(ctx.bare, t) is None
            && path_of(ctx.paths, t) is Some),
        mappings_valid(ctx.paths),
    ensures
        ({
            let p = path_of(ctx.paths, resolve_spec(ctx.graph, raw, ctx.containing)->0)->0;
            let text = relative_text(ctx.from_path, p);
            &&& replacement_text(ctx, raw) == Ok::<_, crate::module_specifiers::RewriteFailure>(Some(text))
            &&& text.subrange(0, 2) == seq!['.', '/'] || text.subrange(0, 3) == seq!['.', '.', '/']
            &&& follow_reference(dir_of(ctx.from_path), ups(ctx.from_path, p), descent(ctx.from_path, p)) == p
            &&& forall|k: int| 0 <= k < text.len() ==> text[k] != '\\'
        }),
{
    let p = path_of(ctx.paths, resolve_spec(ctx.graph, raw, ctx.containing)->0)->0;
    lemma_valid_table_paths(ctx.paths, resolve_spec(ctx.graph, raw, ctx.containing)->0);
    lemma_relative_reference_reaches_target(ctx.from_path, p);
    lemma_relative_text_slash_only(ctx.from_path, p);
}

/// What `get_module_specifier_text_changes` returns, for a containing
/// module with an output path whose source strings are all rewritable and
/// come in order: one change per source string, covering just the inside of
/// its quotes, none overlapping.
pub proof fn lemma_module_one_change_per_source(
    graph: GraphView,
    paths: Seq<(Seq<char>, Seq<Seq<char>>)>,
    bare: Seq<(String, MappedSpecifier)>,
    containing: Seq<char>,
    items: Seq<ModuleItem>,
)
    requires
        path_of(paths, containing) is Some,
        forall|k: int|
            0 <= k < sources(items).len() ==> rewritable(
                RewriteContext { graph, paths, bare, containing, from_path: path_of(paths, containing)->0 },
                #[trigger] sources(items)[k],
            ),
        forall|k: int, l: int|
            0 <= k < l < sources(items).len() ==> (#[trigger] sources(items)[k]).hi <= (#[trigger] sources(
                items,
            )[l]).lo,
    ensures
        module_changes(graph, paths, bare, containing, items) is Ok,
        module_changes(graph, paths, bare, containing, items)->Ok_0.len() == sources(items).len(),
        forall|k: int|
            0 <= k < sources(items).len() ==> (#[trigger] module_changes(graph, paths, bare, containing, items)->Ok_0[k]).0
                == sources(items)[k].lo + 1 && module_changes(graph, paths, bare, containing, items)->Ok_0[k].1
                == sources(items)[k].hi - 1,
        forall|k: int, l: int|
            0 <= k < l < sources(items).len() ==> (#[trigger] module_changes(graph, paths, bare, containing, items)->Ok_0[k]).1
                <= (#[trigger] module_changes(graph, paths, bare, containing, items)->Ok_0[l]).0,
{
    let ctx = RewriteContext { graph, paths, bare, containing, from_path: path_of(paths, containing)->0 };
    lemma_one_change_per_source(ctx, items);
}

/// For `get_module_specifier_text_changes`: a well-formed source string that
/// the graph cannot resolve adds no change to the module's result.
pub proof fn lemma_module_unresolved_left_alone(
    graph: GraphView,
    paths: Seq<(Seq<char>, Seq<Seq<char>>)>,
    bare: Seq<(String, MappedSpecifier)>,
    containing: Seq<char>,
    items: Seq<ModuleItem>,
    item: ModuleItem,
)
    requires
        item.source() matches Some(lit) && lit.lo + 2 <= lit.hi && resolve_spec(graph, lit.value@, containing) is None,
    ensures
        module_changes(graph, paths, bare, containing, items.push(item)) == module_changes(
            graph,
            paths,
            bare,
            containing,
            items,
        ),
{
    if path_of(paths, containing) is Some {
        let ctx = RewriteContext { graph, paths, bare, containing, from_path: path_of(paths, containing)->0 };
        lemma_unresolved_left_alone(ctx, items, item);
    }
}

} // verus!
