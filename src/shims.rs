use vstd::prelude::*;

use crate::specifier::{bare_text, MappedSpecifier};
use crate::text_changes::TextChange;

verus! {

/// A global name that a shim package supplies.
#[derive(Debug)]
pub struct GlobalName {
    pub name: String,
    /// The package's export for it, when that differs from `name`.
    pub export_name: Option<String>,
    pub type_only: bool,
}

/// A package that backs a set of global names in the rewritten output.
#[derive(Debug)]
pub struct Shim {
    pub package: MappedSpecifier,
    pub global_names: Vec<GlobalName>,
}

/// How a used global is named inside the braces of its import.
pub open spec fn name_text(g: GlobalName) -> Seq<char> {
    let base = match g.export_name {
        Some(e) => e@ + seq![' ', 'a', 's', ' '] + g.name@,
        None => g.name@,
    };
    if g.type_only {
        seq!['t', 'y', 'p', 'e', ' '] + base
    } else {
        base
    }
}

/// The globals, in declaration order, that the module references.
pub open spec fn used_globals(globals: Seq<GlobalName>, referenced: Seq<Seq<char>>) -> Seq<GlobalName>
    decreases globals.len(),
{
    if globals.len() == 0 {
        Seq::empty()
    } else if referenced.contains(globals.last().name@) {
        used_globals(globals.drop_last(), referenced).push(globals.last())
    } else {
        used_globals(globals.drop_last(), referenced)
    }
}

/// The names of the used globals, separated by `, `.
pub open spec fn join_names(used: Seq<GlobalName>) -> Seq<char>
    decreases used.len(),
{
    if used.len() == 0 {
        Seq::empty()
    } else if used.len() == 1 {
        name_text(used[0])
    } else {
        join_names(used.drop_last()) + seq![',', ' '] + name_text(used.last())
    }
}

/// The import statement that brings a shim package's used globals in.
pub open spec fn import_statement(package: MappedSpecifier, used: Seq<GlobalName>) -> Seq<char> {
    seq!['i', 'm', 'p', 'o', 'r', 't', ' ', '{', ' '] + join_names(used) + seq![
        ' ',
        '}',
        ' ',
        'f',
        'r',
        'o',
        'm',
        ' ',
        '"',
    ] + bare_text(package.name@, package.spec_sub_path()) + seq!['"', ';', '\n']
}

/// One import statement for each shim, in order, of which the module
/// references at least one global; none for the others.
pub open spec fn shim_imports(shims: Seq<Shim>, referenced: Seq<Seq<char>>) -> Seq<Seq<char>>
    decreases shims.len(),
{
    if shims.len() == 0 {
        Seq::empty()
    } else {
        let used = used_globals(shims.last().global_names@, referenced);
        if used.len() > 0 {
            shim_imports(shims.drop_last(), referenced).push(import_statement(shims.last().package, used))
        } else {
            shim_imports(shims.drop_last(), referenced)
        }
    }
}

proof fn lemma_used_globals_nonempty(globals: Seq<GlobalName>, referenced: Seq<Seq<char>>)
    ensures
        used_globals(globals, referenced).len() > 0 <==> exists|i: int|
            0 <= i < globals.len() && referenced.contains(#[trigger] globals[i].name@),
    decreases globals.len(),
{
    if globals.len() > 0 {
        let prev = globals.drop_last();
        lemma_used_globals_nonempty(prev, referenced);
        if exists|i: int| 0 <= i < prev.len() && referenced.contains(#[trigger] prev[i].name@) {
            let i = choose|i: int| 0 <= i < prev.len() && referenced.contains(#[trigger] prev[i].name@);
            assert(globals[i] == prev[i]);
        }
        if exists|i: int| 0 <= i < globals.len() && referenced.contains(#[trigger] globals[i].name@) {
            let i = choose|i: int| 0 <= i < globals.len() && referenced.contains(#[trigger] globals[i].name@);
            if i < prev.len() {
                assert(globals[i] == prev[i]);
            }
        }
    }
}

proof fn lemma_used_globals_same_names(globals: Seq<GlobalName>, a: Seq<Seq<char>>, b: Seq<Seq<char>>)
    requires
        forall|n: Seq<char>| a.contains(n) <==> b.contains(n),
    ensures
        used_globals(globals, a) == used_globals(globals, b),
    decreases globals.len(),
{
    if globals.len() > 0 {
        lemma_used_globals_same_names(globals.drop_last(), a, b);
    }
}

proof fn lemma_shim_imports_same_names(shims: Seq<Shim>, a: Seq<Seq<char>>, b: Seq<Seq<char>>)
    requires
        forall|n: Seq<char>| a.contains(n) <==> b.contains(n),
    ensures
        shim_imports(shims, a) == shim_imports(shims, b),
    decreases shims.len(),
{
    if shims.len() > 0 {
        lemma_shim_imports_same_names(shims.drop_last(), a, b);
        lemma_used_globals_same_names(shims.last().global_names@, a, b);
    }
}

/// A shim is imported into a module exactly once when the module references
/// any of its globals, however often, and not at all when it references
/// none; a further reference to a name already referenced changes nothing.
pub proof fn lemma_shim_scoping(shim: Shim, referenced: Seq<Seq<char>>, again: Seq<char>)
    requires
        referenced.contains(again),
    ensures
        shim_imports(seq![shim], referenced).len() == (if exists|i: int|
            0 <= i < shim.global_names@.len() && referenced.contains(#[trigger] shim.global_names@[i].name@) {
            1int
        } else {
            0int
        }),
        shim_imports(seq![shim], referenced).len() == 1 ==> shim_imports(seq![shim], referenced)[0]
            == import_statement(shim.package, used_globals(shim.global_names@, referenced)),
        forall|shims: Seq<Shim>| #[trigger] shim_imports(shims, referenced.push(again)) == shim_imports(shims, referenced),
{
    lemma_used_globals_nonempty(shim.global_names@, referenced);
    assert(seq![shim].drop_last() =~= Seq::<Shim>::empty());
    assert(seq![shim].last() == shim);
    assert(shim_imports(Seq::<Shim>::empty(), referenced) == Seq::<Seq<char>>::empty());
    let used = used_globals(shim.global_names@, referenced);
    if used.len() > 0 {
        assert(shim_imports(seq![shim], referenced) == Seq::<Seq<char>>::empty().push(
            import_statement(shim.package, used),
        ));
    } else {
        assert(shim_imports(seq![shim], referenced) == Seq::<Seq<char>>::empty());
    }
    assert forall|shims: Seq<Shim>| #[trigger] shim_imports(shims, referenced.push(again)) == shim_imports(shims, referenced) by {
        assert forall|n: Seq<char>| referenced.push(again).contains(n) <==> referenced.contains(n) by {
            if referenced.push(again).contains(n) {
                let k = choose|k: int| 0 <= k < referenced.push(again).len() && referenced.push(again)[k] == n;
                if k == referenced.len() {
                    assert(n == again);
                } else {
                    assert(referenced[k] == n);
                }
            }
            if referenced.contains(n) {
                let k = choose|k: int| 0 <= k < referenced.len() && referenced[k] == n;
                assert(referenced.push(again)[k] == n);
            }
        }
        lemma_shim_imports_same_names(shims, referenced.push(again), referenced);
    }
}

pub open spec fn names_view(v: Seq<String>) -> Seq<Seq<char>> {
    v.map_values(|s: String| s@)
}

fn is_referenced(referenced: &Vec<String>, name: &String) -> (r: bool)
    ensures
        r == names_view(referenced@).contains(name@),
{
    let ghost rv = names_view(referenced@);
    let mut i: usize = 0;
    while i < referenced.len()
        invariant
            i <= referenced@.len(),
            rv == names_view(referenced@),
            forall|j: int| 0 <= j < i ==> rv[j] != name@,
        decreases referenced@.len() - i,
    {
        if referenced[i] == *name {
            assert(rv[i as int] == name@);
            return true;
        }
        i = i + 1;
    }
    false
}

fn append_name(out: &mut String, g: &GlobalName)
    ensures
        final(out)@ == old(out)@ + name_text(*g),
{
    proof {
        reveal_strlit("type ");
        reveal_strlit(" as ");
    }
    if g.type_only {
        out.append("type ");
    }
    match &g.export_name {
        Some(e) => {
            out.append(e.as_str());
            out.append(" as ");
            out.append(g.name.as_str());
        },
        None => {
            out.append(g.name.as_str());
        },
    }
}

/// The import statement for one shim, when the module references any of its
/// globals.
fn shim_import(shim: &Shim, referenced: &Vec<String>) -> (r: Option<String>)
    ensures
        ({
            let used = used_globals(shim.global_names@, names_view(referenced@));
            match r {
                Some(s) => used.len() > 0 && s@ == import_statement(shim.package, used),
                None => used.len() == 0,
            }
        }),
{
    let ghost rv = names_view(referenced@);
    let globals = &shim.global_names;
    let mut names = String::new();
    let mut count: usize = 0;
    let mut i: usize = 0;
    assert(globals@.subrange(0, 0) =~= Seq::<GlobalName>::empty());
    while i < globals.len()
        invariant
            i <= globals@.len(),
            globals@ == shim.global_names@,
            rv == names_view(referenced@),
            count == used_globals(globals@.subrange(0, i as int), rv).len(),
            names@ == join_names(used_globals(globals@.subrange(0, i as int), rv)),
            count <= i,
        decreases globals@.len() - i,
    {
        assert(globals@.subrange(0, i + 1 as int).drop_last() =~= globals@.subrange(0, i as int));
        if is_referenced(referenced, &globals[i].name) {
            let ghost before = used_globals(globals@.subrange(0, i as int), rv);
            proof {
                reveal_strlit(", ");
            }
            if count > 0 {
                names.append(", ");
            }
            append_name(&mut names, &globals[i]);
            count = count + 1;
            proof {
                let after = before.push(globals@[i as int]);
                assert(after.drop_last() =~= before);
            }
        }
        i = i + 1;
    }
    assert(globals@.subrange(0, globals@.len() as int) =~= globals@);
    if count == 0 {
        return None;
    }
    let mut r = String::new();
    proof {
        reveal_strlit("import { ");
        reveal_strlit(" } from \"");
        reveal_strlit("\";\n");
    }
    r.append("import { ");
    r.append(names.as_str());
    r.append(" } from \"");
    let package = shim.package.to_specifier_text();
    r.append(package.as_str());
    r.append("\";\n");
    assert(r@ =~= import_statement(shim.package, used_globals(globals@, rv)));
    Some(r)
}

/// The import statements to inject into a module that references the given
/// global names: one per shim package of which it uses a global, naming all
/// the globals it uses, in shim order. No two shims may name one package
/// (`shim_packages_distinct` tells).
pub fn get_shim_imports(shims: &Vec<Shim>, referenced: &Vec<String>) -> (r: Vec<String>)
    requires
        packages_distinct(shims@),
    ensures
        r@.map_values(|s: String| s@) == shim_imports(shims@, names_view(referenced@)),
{
    let ghost rv = names_view(referenced@);
    let mut r: Vec<String> = Vec::new();
    let mut i: usize = 0;
    assert(shims@.subrange(0, 0) =~= Seq::<Shim>::empty());
    assert(r@.map_values(|s: String| s@) =~= Seq::empty());
    while i < shims.len()
        invariant
            i <= shims@.len(),
            rv == names_view(referenced@),
            r@.map_values(|s: String| s@) == shim_imports(shims@.subrange(0, i as int), rv),
        decreases shims@.len() - i,
    {
        assert(shims@.subrange(0, i + 1 as int).drop_last() =~= shims@.subrange(0, i as int));
        let ghost before = r@;
        match shim_import(&shims[i], referenced) {
            Some(s) => {
                r.push(s);
                assert(r@.map_values(|s: String| s@) =~= before.map_values(|s: String| s@).push(s@));
            },
            None => {},
        }
        i = i + 1;
    }
    assert(shims@.subrange(0, shims@.len() as int) =~= shims@);
    r
}

pub open spec fn package_text(shim: Shim) -> Seq<char> {
    bare_text(shim.package.name@, shim.package.spec_sub_path())
}

/// No two shims name one package, so each package is imported at most once.
pub open spec fn packages_distinct(shims: Seq<Shim>) -> bool {
    forall|i: int, j: int| 0 <= i < j < shims.len() ==> package_text(#[trigger] shims[i]) != package_text(#[trigger] shims[j])
}

/// Whether no two shims name one package.
pub fn shim_packages_distinct(shims: &Vec<Shim>) -> (r: bool)
    ensures
        r == packages_distinct(shims@),
{
    let n = shims.len();
    let mut texts: Vec<String> = Vec::new();
    let mut i: usize = 0;
    while i < n
        invariant
            n == shims@.len(),
            i <= n,
            texts@.len() == i,
            forall|k: int| 0 <= k < i ==> (#[trigger] texts@[k])@ == package_text(shims@[k]),
        decreases n - i,
    {
        texts.push(shims[i].package.to_specifier_text());
        i = i + 1;
    }
    let mut i: usize = 0;
    while i < n
        invariant
            n == shims@.len(),
            texts@.len() == n,
            i <= n,
            forall|k: int| 0 <= k < n ==> (#[trigger] texts@[k])@ == package_text(shims@[k]),
            forall|k: int, l: int| 0 <= k < l < n && k < i ==> package_text(#[trigger] shims@[k]) != package_text(#[trigger] shims@[l]),
        decreases n - i,
    {
        let mut j: usize = i + 1;
        while j < n
            invariant
                n == shims@.len(),
                texts@.len() == n,
                i < n,
                i < j <= n,
                forall|k: int| 0 <= k < n ==> (#[trigger] texts@[k])@ == package_text(shims@[k]),
                forall|k: int, l: int| 0 <= k < l < n && k < i ==> package_text(#[trigger] shims@[k]) != package_text(#[trigger] shims@[l]),
                forall|l: int| i < l < j ==> package_text(shims@[i as int]) != package_text(#[trigger] shims@[l]),
            decreases n - j,
        {
            if texts[i] == texts[j] {
                assert(texts@[i as int]@ == package_text(shims@[i as int]));
                assert(texts@[j as int]@ == package_text(shims@[j as int]));
                return false;
            }
            assert(texts@[i as int]@ == package_text(shims@[i as int]));
            assert(texts@[j as int]@ == package_text(shims@[j as int]));
            j = j + 1;
        }
        i = i + 1;
    }
    true
}

/// The parts, one after the other.
pub open spec fn concat_all(parts: Seq<Seq<char>>) -> Seq<char>
    decreases parts.len(),
{
    if parts.len() == 0 {
        Seq::empty()
    } else {
        concat_all(parts.drop_last()) + parts.last()
    }
}

/// The change that injects the shim imports that a module needs, all at the
/// offset `insert_at`; `None` when it needs none.
pub fn get_shim_text_change(shims: &Vec<Shim>, referenced: &Vec<String>, insert_at: usize) -> (r: Option<
    TextChange,
>)
    requires
        packages_distinct(shims@),
    ensures
        r is None <==> shim_imports(shims@, names_view(referenced@)).len() == 0,
        r matches Some(c) ==> c.start == insert_at && c.end == insert_at && c.new_text@ == concat_all(
            shim_imports(shims@, names_view(referenced@)),
        ),
{
    let imports = get_shim_imports(shims, referenced);
    let ghost parts = imports@.map_values(|s: String| s@);
    if imports.len() == 0 {
        return None;
    }
    let mut text = String::new();
    let mut i: usize = 0;
    assert(parts.subrange(0, 0) =~= Seq::<Seq<char>>::empty());
    while i < imports.len()
        invariant
            i <= imports@.len(),
            parts == imports@.map_values(|s: String| s@),
            text@ == concat_all(parts.subrange(0, i as int)),
        decreases imports@.len() - i,
    {
        assert(parts.subrange(0, i + 1 as int).drop_last() =~= parts.subrange(0, i as int));
        text.append(imports[i].as_str());
        i = i + 1;
    }
    assert(parts.subrange(0, parts.len() as int) =~= parts);
    Some(TextChange { start: insert_at, end: insert_at, new_text: text })
}

} // verus!
