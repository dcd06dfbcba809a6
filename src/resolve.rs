use vstd::prelude::*;

use crate::module_specifiers::{sources, ModuleItem, StrLit};
use crate::output_path::{get_output_path, output_path};

verus! {

/// The specifier that the text `raw` names when it is written in the module
/// `base`, as URL resolution gives it; `None` when it names none.
pub uninterp spec fn resolved_import(base: Seq<char>, raw: Seq<char>) -> Option<Seq<char>>;

/// Relies on `url::Url::join` (deno_ast's `ModuleSpecifier`): resolves `raw`
/// against the URL that `Url::parse` reads from `base`, and gives the
/// serialization of the result.
#[verifier::external_body]
fn resolve_import(raw: &str, base: &str) -> (r: Option<String>)
    ensures
        match r {
            Some(s) => resolved_import(base@, raw@) == Some(s@),
            None => resolved_import(base@, raw@) is None,
        },
{
    match deno_ast::ModuleSpecifier::parse(base) {
        Ok(b) => b.join(raw).ok().map(|u| u.to_string()),
        Err(_) => None,
    }
}

/// Each source string of the items that resolves to a specifier with an
/// output path, in order, with what it resolves to. A string that resolves to
/// a scheme without one (`node:`, `npm:`, `data:`) is not a dependency: it is
/// left as it is in the output.
pub open spec fn dependencies_of(base: Seq<char>, lits: Seq<StrLit>) -> Seq<(Seq<char>, Seq<char>)>
    decreases lits.len(),
{
    if lits.len() == 0 {
        Seq::empty()
    } else {
        let prev = dependencies_of(base, lits.drop_last());
        match resolved_import(base, lits.last().value@) {
            Some(t) => if output_path(t) is Some {
                prev.push((lits.last().value@, t))
            } else {
                prev
            },
            None => prev,
        }
    }
}

/// What each source string among a module's items resolves to, for the
/// module record of the graph. A string that names no specifier, or one
/// without an output path, is left out.
pub fn get_module_dependencies(specifier: &String, items: &Vec<ModuleItem>) -> (r: Vec<(String, String)>)
    ensures
        r@.map_values(|p: (String, String)| (p.0@, p.1@)) == dependencies_of(specifier@, sources(items@)),
{
    let mut r: Vec<(String, String)> = Vec::new();
    let mut i: usize = 0;
    assert(items@.subrange(0, 0) =~= Seq::<ModuleItem>::empty());
    assert(r@.map_values(|p: (String, String)| (p.0@, p.1@)) =~= Seq::empty());
    while i < items.len()
        invariant
            i <= items@.len(),
            r@.map_values(|p: (String, String)| (p.0@, p.1@)) == dependencies_of(
                specifier@,
                sources(items@.subrange(0, i as int)),
            ),
        decreases items@.len() - i,
    {
        let ghost before = r@;
        let ghost prefix = items@.subrange(0, i + 1 as int);
        assert(prefix.drop_last() =~= items@.subrange(0, i as int));
        assert(prefix.last() == items@[i as int]);
        let src = match &items[i] {
            ModuleItem::ImportDecl(s) => Some(s),
            ModuleItem::ExportAll(s) => Some(s),
            ModuleItem::NamedExport(s) => s.as_ref(),
            ModuleItem::Directive(_) => None,
            ModuleItem::Other => None,
        };
        match src {
            None => {},
            Some(lit) => {
                assert(sources(prefix).drop_last() =~= sources(items@.subrange(0, i as int)));
                assert(sources(prefix).last() == *lit);
                match resolve_import(lit.value.as_str(), specifier.as_str()) {
                    Some(t) => if get_output_path(&t).is_some() {
                        r.push((lit.value.clone(), t));
                        assert(r@.map_values(|p: (String, String)| (p.0@, p.1@)) =~= before.map_values(
                            |p: (String, String)| (p.0@, p.1@),
                        ).push((lit.value@, t@)));
                    },
                    None => {},
                }
            },
        }
        i = i + 1;
    }
    assert(items@.subrange(0, items@.len() as int) =~= items@);
    r
}

} // verus!
