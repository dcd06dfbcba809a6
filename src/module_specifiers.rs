use vstd::prelude::*;

use crate::graph::{resolve_spec, GraphView, ModuleGraph};
use crate::mappings::{path_of, Mappings};
use crate::path::{get_relative_specifier, relative_text, segs_view};
use crate::specifier::{bare_text, MappedSpecifier};
use crate::text_changes::{change_view, TextChange};

verus! {

/// A string literal of the source, with the byte span that it covers,
/// quotes included.
#[derive(Debug)]
pub struct StrLit {
    pub value: String,
    pub lo: usize,
    pub hi: usize,
}

/// A top-level item of a parsed module, as far as specifier rewriting is
/// concerned: the three forms that carry a source string, directives, and
/// the rest.
#[derive(Debug)]
pub enum ModuleItem {
    ImportDecl(StrLit),
    ExportAll(StrLit),
    NamedExport(Option<StrLit>),
    /// A directive statement such as `"use strict";`, with the byte offset
    /// where it ends.
    Directive(usize),
    Other,
}

impl ModuleItem {
    /// The source string that the item carries, if any.
    pub open spec fn source(&self) -> Option<StrLit> {
        match self {
            ModuleItem::ImportDecl(s) => Some(*s),
            ModuleItem::ExportAll(s) => Some(*s),
            ModuleItem::NamedExport(s) => *s,
            ModuleItem::Directive(_) => None,
            ModuleItem::Other => None,
        }
    }
}

/// Why the specifiers of a module could not be rewritten.
#[derive(Debug, PartialEq, Eq)]
pub enum TextChangeError {
    /// A source string whose span cannot hold its two quotes.
    MalformedLiteral(usize, usize),
    /// A specifier that needs an output path has none.
    MissingOutputPath(String),
}

/// A rewrite failure, in terms of views.
pub enum RewriteFailure {
    MalformedLiteral(int, int),
    MissingOutputPath(Seq<char>),
}

impl TextChangeError {
    pub open spec fn failure(&self) -> RewriteFailure {
        match self {
            TextChangeError::MalformedLiteral(lo, hi) => RewriteFailure::MalformedLiteral(*lo as int, *hi as int),
            TextChangeError::MissingOutputPath(s) => RewriteFailure::MissingOutputPath(s@),
        }
    }
}

/// The bare reference that the given specifier maps to. The table is read
/// front to back: where two entries have one specifier, the first one wins.
pub open spec fn mapped_of(t: Seq<(String, MappedSpecifier)>, specifier: Seq<char>) -> Option<MappedSpecifier>
    decreases t.len(),
{
    if t.len() == 0 {
        None
    } else if t[0].0@ == specifier {
        Some(t[0].1)
    } else {
        mapped_of(t.drop_first(), specifier)
    }
}

/// What the rewrite of one module reads.
pub struct RewriteContext {
    pub graph: GraphView,
    pub paths: Seq<(Seq<char>, Seq<Seq<char>>)>,
    pub bare: Seq<(String, MappedSpecifier)>,
    pub containing: Seq<char>,
    pub from_path: Seq<Seq<char>>,
}

/// The text that the specifier text `raw` is rewritten to: `None` when the
/// graph does not resolve it; the bare reference when its target is mapped;
/// else the relative reference to the target's output path.
pub open spec fn replacement_text(ctx: RewriteContext, raw: Seq<char>) -> Result<Option<Seq<char>>, RewriteFailure> {
    match resolve_spec(ctx.graph, raw, ctx.containing) {
        None => Ok(None),
        Some(target) => match mapped_of(ctx.bare, target) {
            Some(m) => Ok(Some(bare_text(m.name@, m.spec_sub_path()))),
            None => match path_of(ctx.paths, target) {
                Some(p) => Ok(Some(relative_text(ctx.from_path, p))),
                None => Err(RewriteFailure::MissingOutputPath(target)),
            },
        },
    }
}

/// The change for one source string: it covers the text between the quotes.
pub open spec fn literal_change(ctx: RewriteContext, lit: StrLit) -> Result<Option<(int, int, Seq<char>)>, RewriteFailure> {
    if lit.hi < lit.lo + 2 {
        Err(RewriteFailure::MalformedLiteral(lit.lo as int, lit.hi as int))
    } else {
        match replacement_text(ctx, lit.value@) {
            Err(e) => Err(e),
            Ok(None) => Ok(None),
            Ok(Some(t)) => Ok(Some((lit.lo + 1, lit.hi - 1, t))),
        }
    }
}

/// The changes for a sequence of items, in item order; the first failure wins.
pub open spec fn item_changes(ctx: RewriteContext, items: Seq<ModuleItem>) -> Result<Seq<(int, int, Seq<char>)>, RewriteFailure>
    decreases items.len(),
{
    if items.len() == 0 {
        Ok(Seq::empty())
    } else {
        match item_changes(ctx, items.drop_last()) {
            Err(e) => Err(e),
            Ok(cs) => match items.last().source() {
                None => Ok(cs),
                Some(lit) => match literal_change(ctx, lit) {
                    Err(e) => Err(e),
                    Ok(None) => Ok(cs),
                    Ok(Some(c)) => Ok(cs.push(c)),
                },
            },
        }
    }
}

/// The source strings of a sequence of items, in item order.
pub open spec fn sources(items: Seq<ModuleItem>) -> Seq<StrLit>
    decreases items.len(),
{
    if items.len() == 0 {
        Seq::empty()
    } else {
        match items.last().source() {
            None => sources(items.drop_last()),
            Some(lit) => sources(items.drop_last()).push(lit),
        }
    }
}

/// Everything the rewrite of a module reads. In `specifier_mappings` the
/// first entry for a specifier wins.
pub struct GetModuleSpecifierTextChangesParams<'a> {
    pub specifier: &'a String,
    pub module_graph: &'a ModuleGraph,
    pub mappings: &'a Mappings,
    pub items: &'a Vec<ModuleItem>,
    pub specifier_mappings: &'a Vec<(String, MappedSpecifier)>,
}

/// The changes that rewrite a module: the containing module must have an
/// output path; then the items' changes in order.
pub open spec fn module_changes(
    graph: GraphView,
    paths: Seq<(Seq<char>, Seq<Seq<char>>)>,
    bare: Seq<(String, MappedSpecifier)>,
    containing: Seq<char>,
    items: Seq<ModuleItem>,
) -> Result<Seq<(int, int, Seq<char>)>, RewriteFailure> {
    match path_of(paths, containing) {
        None => Err(RewriteFailure::MissingOutputPath(containing)),
        Some(from_path) => item_changes(
            RewriteContext { graph, paths, bare, containing, from_path },
            items,
        ),
    }
}

impl<'a> GetModuleSpecifierTextChangesParams<'a> {
    /// What the rewrite reads, with the containing module's output path.
    pub open spec fn context(&self, from_path: Seq<Seq<char>>) -> RewriteContext {
        RewriteContext {
            graph: self.module_graph.view(),
            paths: self.mappings@,
            bare: self.specifier_mappings@,
            containing: self.specifier@,
            from_path,
        }
    }

    pub open spec fn spec_changes(&self) -> Result<Seq<(int, int, Seq<char>)>, RewriteFailure> {
        module_changes(
            self.module_graph.view(),
            self.mappings@,
            self.specifier_mappings@,
            self.specifier@,
            self.items@,
        )
    }
}

proof fn lemma_failure_sticks(ctx: RewriteContext, items: Seq<ModuleItem>, j: int, k: int)
    requires
        0 <= j <= k <= items.len(),
        item_changes(ctx, items.subrange(0, j)) is Err,
    ensures
        item_changes(ctx, items.subrange(0, k)) == item_changes(ctx, items.subrange(0, j)),
    decreases k - j,
{
    if k > j {
        lemma_failure_sticks(ctx, items, j, k - 1);
        assert(items.subrange(0, k).drop_last() =~= items.subrange(0, k - 1));
    }
}

fn mapped_lookup<'b>(t: &'b Vec<(String, MappedSpecifier)>, key: &String) -> (r: Option<&'b MappedSpecifier>)
    ensures
        match r {
            Some(m) => mapped_of(t@, key@) == Some(*m),
            None => mapped_of(t@, key@) is None,
        },
{
    let mut i: usize = 0;
    assert(t@.subrange(0, t@.len() as int) =~= t@);
    while i < t.len()
        invariant
            i <= t@.len(),
            mapped_of(t@, key@) == mapped_of(t@.subrange(i as int, t@.len() as int), key@),
        decreases t@.len() - i,
    {
        assert(t@.subrange(i as int, t@.len() as int).drop_first() =~= t@.subrange(i + 1 as int, t@.len() as int));
        if t[i].0 == *key {
            return Some(&t[i].1);
        }
        i = i + 1;
    }
    None
}

/// The change for one source string, or `None` when it stays as it is.
fn visit_module_specifier(
    lit: &StrLit,
    params: &GetModuleSpecifierTextChangesParams,
    from_path: &Vec<String>,
) -> (r: Result<Option<TextChange>, TextChangeError>)
    requires
        params.module_graph.wf(),
        params.mappings.wf(),
        from_path@.len() > 0,
    ensures
        match r {
            Ok(Some(c)) => literal_change(
                params.context(segs_view(from_path@)),
                *lit,
            ) == Ok::<_, RewriteFailure>(Some(change_view(c))),
            Ok(None) => literal_change(
                params.context(segs_view(from_path@)),
                *lit,
            ) == Ok::<_, RewriteFailure>(None::<(int, int, Seq<char>)>),
            Err(e) => literal_change(
                params.context(segs_view(from_path@)),
                *lit,
            ) == Err::<Option<(int, int, Seq<char>)>, _>(e.failure()),
        },
{
    if lit.hi < 2 || lit.hi - 2 < lit.lo {
        return Err(TextChangeError::MalformedLiteral(lit.lo, lit.hi));
    }
    let target = match params.module_graph.resolve_dependency(&lit.value, params.specifier) {
        None => {
            return Ok(None);
        },
        Some(t) => t,
    };
    let new_text = match mapped_lookup(params.specifier_mappings, &target) {
        Some(m) => m.to_specifier_text(),
        None => match params.mappings.get_file_path(&target) {
            Some(p) => get_relative_specifier(from_path, p),
            None => {
                return Err(TextChangeError::MissingOutputPath(target));
            },
        },
    };
    Ok(Some(TextChange { start: lit.lo + 1, end: lit.hi - 1, new_text }))
}

/// The changes that retarget every source string among the module's
/// top-level items, in item order. A source string that the graph does not
/// resolve gets no change.
pub fn get_module_specifier_text_changes(params: &GetModuleSpecifierTextChangesParams) -> (r: Result<
    Vec<TextChange>,
    TextChangeError,
>)
    requires
        params.module_graph.wf(),
        params.mappings.wf(),
    ensures
        match r {
            Ok(cs) => params.spec_changes() == Ok::<_, RewriteFailure>(cs@.map_values(|c: TextChange| change_view(c))),
            Err(e) => params.spec_changes() == Err::<Seq<(int, int, Seq<char>)>, _>(e.failure()),
        },
{
    let from_path = match params.mappings.get_file_path(params.specifier) {
        Some(p) => p,
        None => {
            return Err(TextChangeError::MissingOutputPath(params.specifier.clone()));
        },
    };
    let ghost ctx = params.context(segs_view(from_path@));
    let items = params.items;
    let mut text_changes: Vec<TextChange> = Vec::new();
    let mut i: usize = 0;
    assert(items@.subrange(0, 0) =~= Seq::<ModuleItem>::empty());
    assert(text_changes@.map_values(|c: TextChange| change_view(c)) =~= Seq::empty());
    while i < items.len()
        invariant
            i <= items@.len(),
            items@ == params.items@,
            from_path@.len() > 0,
            params.module_graph.wf(),
            params.mappings.wf(),
            ctx.from_path == segs_view(from_path@),
            path_of(params.mappings@, params.specifier@) == Some(segs_view(from_path@)),
            ctx == params.context(segs_view(from_path@)),
            item_changes(ctx, items@.subrange(0, i as int)) == Ok::<_, RewriteFailure>(
                text_changes@.map_values(|c: TextChange| change_view(c)),
            ),
        decreases items@.len() - i,
    {
        let ghost before = text_changes@;
        assert(items@.subrange(0, i + 1 as int).drop_last() =~= items@.subrange(0, i as int));
        let src = match &items[i] {
            ModuleItem::ImportDecl(s) => Some(s),
            ModuleItem::ExportAll(s) => Some(s),
            ModuleItem::NamedExport(s) => s.as_ref(),
            ModuleItem::Directive(_) => None,
            ModuleItem::Other => None,
        };
        assert(items@.subrange(0, i + 1 as int).last() == items@[i as int]);
        match src {
            None => {},
            Some(lit) => match visit_module_specifier(lit, params, from_path) {
                Err(e) => {
                    assert(item_changes(ctx, items@.subrange(0, i + 1 as int)) == Err::<Seq<(int, int, Seq<char>)>, _>(e.failure()));
                    proof {
                        lemma_failure_sticks(ctx, items@, i + 1, items@.len() as int);
                        assert(items@.subrange(0, items@.len() as int) =~= items@);
                        assert(item_changes(ctx, items@) == Err::<Seq<(int, int, Seq<char>)>, _>(e.failure()));
                    }
                    return Err(e);
                },
                Ok(None) => {},
                Ok(Some(c)) => {
                    text_changes.push(c);
                    assert(text_changes@.map_values(|c: TextChange| change_view(c)) =~= before.map_values(
                        |c: TextChange| change_view(c),
                    ).push(change_view(c)));
                },
            },
        }
        i = i + 1;
    }
    assert(items@.subrange(0, items@.len() as int) =~= items@);
    Ok(text_changes)
}

/// Where the run of directives that opens a module ends: the end of its last
/// directive, or `start` when the items open with something else.
pub open spec fn leading_directives_end(items: Seq<ModuleItem>, start: int) -> int
    decreases items.len(),
{
    if items.len() == 0 {
        start
    } else {
        match items[0] {
            ModuleItem::Directive(end) => leading_directives_end(items.drop_first(), end as int),
            _ => start,
        }
    }
}

/// The offset where injected imports go: after the directives that open the
/// module, else at its start.
pub fn get_import_insert_offset(items: &Vec<ModuleItem>) -> (r: usize)
    ensures
        r == leading_directives_end(items@, 0),
{
    let mut offset: usize = 0;
    let mut i: usize = 0;
    assert(items@.subrange(0, items@.len() as int) =~= items@);
    while i < items.len()
        invariant
            i <= items@.len(),
            leading_directives_end(items@, 0) == leading_directives_end(
                items@.subrange(i as int, items@.len() as int),
                offset as int,
            ),
        decreases items@.len() - i,
    {
        let ghost rest = items@.subrange(i as int, items@.len() as int);
        assert(rest[0] == items@[i as int]);
        assert(rest.drop_first() =~= items@.subrange(i + 1 as int, items@.len() as int));
        match &items[i] {
            ModuleItem::Directive(end) => {
                offset = *end;
            },
            _ => {
                return offset;
            },
        }
        i = i + 1;
    }
    offset
}

} // verus!
