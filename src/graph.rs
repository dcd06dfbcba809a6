use vstd::prelude::*;

verus! {

/// A table of pairs of texts, as its view: the first pair with a given key wins.
pub open spec fn pairs_view(t: Seq<(String, String)>) -> Seq<(Seq<char>, Seq<char>)> {
    t.map_values(|p: (String, String)| (p.0@, p.1@))
}

/// The value that a table of pairs gives a key: that of its first pair with it.
pub open spec fn lookup(t: Seq<(Seq<char>, Seq<char>)>, key: Seq<char>) -> Option<Seq<char>>
    decreases t.len(),
{
    if t.len() == 0 {
        None
    } else if t[0].0 == key {
        Some(t[0].1)
    } else {
        lookup(t.drop_first(), key)
    }
}

/// Following redirects from `s` for at most `fuel` hops: the specifier where
/// the chain ends, or `None` when it is still going after `fuel` hops.
pub open spec fn follow_redirects(redirects: Seq<(Seq<char>, Seq<char>)>, s: Seq<char>, fuel: nat) -> Option<Seq<char>>
    decreases fuel,
{
    match lookup(redirects, s) {
        None => Some(s),
        Some(t) => if fuel == 0 {
            None
        } else {
            follow_redirects(redirects, t, (fuel - 1) as nat)
        },
    }
}

/// The canonical specifier that `s` stands for. A chain of redirects longer
/// than the table must come back to a specifier it passed: that is a cycle,
/// and `s` has no canonical specifier.
pub open spec fn canonical(redirects: Seq<(Seq<char>, Seq<char>)>, s: Seq<char>) -> Option<Seq<char>> {
    follow_redirects(redirects, s, redirects.len())
}

/// A module of the graph: its canonical specifier, and what each specifier
/// text written in it was resolved to when the graph was built.
#[derive(Debug)]
pub struct ModuleRecord {
    pub specifier: String,
    pub dependencies: Vec<(String, String)>,
}

pub open spec fn module_view(m: ModuleRecord) -> (Seq<char>, Seq<(Seq<char>, Seq<char>)>) {
    (m.specifier@, pairs_view(m.dependencies@))
}

/// The dependency table of the first module with the given specifier.
pub open spec fn module_dependencies(
    modules: Seq<(Seq<char>, Seq<(Seq<char>, Seq<char>)>)>,
    specifier: Seq<char>,
) -> Option<Seq<(Seq<char>, Seq<char>)>>
    decreases modules.len(),
{
    if modules.len() == 0 {
        None
    } else if modules[0].0 == specifier {
        Some(modules[0].1)
    } else {
        module_dependencies(modules.drop_first(), specifier)
    }
}

/// The resolution table's view of a module graph.
pub struct GraphView {
    pub modules: Seq<(Seq<char>, Seq<(Seq<char>, Seq<char>)>)>,
    pub redirects: Seq<(Seq<char>, Seq<char>)>,
}

/// What the specifier text `raw`, written in the module `containing`,
/// resolves to: the recorded target, with redirects followed to the end.
pub open spec fn resolve_spec(g: GraphView, raw: Seq<char>, containing: Seq<char>) -> Option<Seq<char>> {
    match module_dependencies(g.modules, containing) {
        None => None,
        Some(deps) => match lookup(deps, raw) {
            None => None,
            Some(target) => canonical(g.redirects, target),
        },
    }
}

/// Why a module graph could not be built.
#[derive(Debug, PartialEq, Eq)]
pub enum GraphError {
    /// Following redirects from this specifier never ends.
    RedirectCycle(String),
    /// A module was reported loaded while none was waiting to be.
    NothingPending,
    /// The graph was asked for while modules were still waiting to be loaded.
    Incomplete,
}

/// The resolved dependency closure of a set of entry points, with the
/// redirects that were declared for it.
#[derive(Debug)]
pub struct ModuleGraph {
    modules: Vec<ModuleRecord>,
    redirects: Vec<(String, String)>,
}

/// No chain of redirects cycles.
pub open spec fn redirects_acyclic(redirects: Seq<(Seq<char>, Seq<char>)>) -> bool {
    forall|s: Seq<char>| #[trigger] canonical(redirects, s) is Some
}

proof fn lemma_lookup_found(t: Seq<(Seq<char>, Seq<char>)>, key: Seq<char>)
    requires
        lookup(t, key) is Some,
    ensures
        exists|i: int| 0 <= i < t.len() && #[trigger] t[i].0 == key,
    decreases t.len(),
{
    if t[0].0 != key {
        lemma_lookup_found(t.drop_first(), key);
        let i = choose|i: int| 0 <= i < t.drop_first().len() && #[trigger] t.drop_first()[i].0 == key;
        assert(t[i + 1].0 == key);
    }
}

/// Once the chain from `s` ends within `fuel` hops, more fuel changes nothing.
pub proof fn lemma_follow_more_fuel(r: Seq<(Seq<char>, Seq<char>)>, s: Seq<char>, fuel: nat, more: nat)
    requires
        follow_redirects(r, s, fuel) is Some,
        fuel <= more,
    ensures
        follow_redirects(r, s, more) == follow_redirects(r, s, fuel),
    decreases fuel,
{
    match lookup(r, s) {
        None => {},
        Some(t) => {
            lemma_follow_more_fuel(r, t, (fuel - 1) as nat, (more - 1) as nat);
        },
    }
}

/// The canonical specifier has no redirect of its own.
pub proof fn lemma_follow_ends_unredirected(r: Seq<(Seq<char>, Seq<char>)>, s: Seq<char>, fuel: nat)
    requires
        follow_redirects(r, s, fuel) is Some,
    ensures
        lookup(r, follow_redirects(r, s, fuel)->0) is None,
    decreases fuel,
{
    match lookup(r, s) {
        None => {},
        Some(t) => {
            lemma_follow_ends_unredirected(r, t, (fuel - 1) as nat);
        },
    }
}

fn lookup_exec(t: &Vec<(String, String)>, key: &String) -> (r: Option<String>)
    ensures
        match r {
            Some(v) => lookup(pairs_view(t@), key@) == Some(v@),
            None => lookup(pairs_view(t@), key@) is None,
        },
{
    let ghost tv = pairs_view(t@);
    let mut i: usize = 0;
    assert(tv.subrange(0, tv.len() as int) =~= tv);
    while i < t.len()
        invariant
            i <= t@.len(),
            tv == pairs_view(t@),
            lookup(tv, key@) == lookup(tv.subrange(i as int, tv.len() as int), key@),
        decreases t@.len() - i,
    {
        let ghost rest = tv.subrange(i as int, tv.len() as int);
        assert(rest[0] == tv[i as int]);
        assert(rest.drop_first() =~= tv.subrange(i + 1 as int, tv.len() as int));
        if t[i].0 == *key {
            return Some(t[i].1.clone());
        }
        i = i + 1;
    }
    None
}

/// The specifier that `s` ends at after following redirects, at most `fuel` hops.
pub(crate) fn follow_redirects_exec(redirects: &Vec<(String, String)>, s: &String, fuel: usize) -> (r: Option<String>)
    ensures
        match r {
            Some(v) => follow_redirects(pairs_view(redirects@), s@, fuel as nat) == Some(v@),
            None => follow_redirects(pairs_view(redirects@), s@, fuel as nat) is None,
        },
{
    let mut current = s.clone();
    let mut left: usize = fuel;
    loop
        invariant
            left <= fuel,
            follow_redirects(pairs_view(redirects@), s@, fuel as nat) == follow_redirects(
                pairs_view(redirects@),
                current@,
                left as nat,
            ),
        decreases left,
    {
        match lookup_exec(redirects, &current) {
            None => {
                return Some(current);
            },
            Some(next) => {
                if left == 0 {
                    return None;
                }
                current = next;
                left = left - 1;
            },
        }
    }
}

/// Redirect transparency: when the text `raw` in `containing` was recorded as
/// `a`, and `a` redirects to `b`, the text resolves to where `b` leads, and
/// never to `a` itself.
pub proof fn lemma_redirect_transparency(
    g: GraphView,
    raw: Seq<char>,
    containing: Seq<char>,
    a: Seq<char>,
    b: Seq<char>,
)
    requires
        redirects_acyclic(g.redirects),
        module_dependencies(g.modules, containing) is Some,
        lookup(module_dependencies(g.modules, containing)->0, raw) == Some(a),
        lookup(g.redirects, a) == Some(b),
    ensures
        resolve_spec(g, raw, containing) == canonical(g.redirects, b),
        resolve_spec(g, raw, containing) != Some(a),
        resolve_spec(g, raw, containing) is Some,
{
    let r = g.redirects;
    let n = r.len();
    assert(canonical(r, a) is Some);
    assert(canonical(r, a) == follow_redirects(r, b, (n - 1) as nat));
    lemma_follow_more_fuel(r, b, (n - 1) as nat, n);
    lemma_follow_ends_unredirected(r, b, n);
}

/// Checks that no chain of the redirects cycles; names the first redirect
/// source whose chain does.
pub(crate) fn check_redirects(redirects: &Vec<(String, String)>) -> (r: Result<(), GraphError>)
    ensures
        r is Ok <==> redirects_acyclic(pairs_view(redirects@)),
        match r {
            Err(GraphError::RedirectCycle(s)) => canonical(pairs_view(redirects@), s@) is None,
            Err(_) => false,
            Ok(()) => true,
        },
{
    let ghost rv = pairs_view(redirects@);
    let n = redirects.len();
    let mut i: usize = 0;
    while i < n
        invariant
            n == redirects@.len(),
            rv == pairs_view(redirects@),
            i <= n,
            forall|j: int| 0 <= j < i ==> #[trigger] canonical(rv, rv[j].0) is Some,
        decreases n - i,
    {
        let source = &redirects[i].0;
        match follow_redirects_exec(redirects, source, n) {
            None => {
                return Err(GraphError::RedirectCycle(source.clone()));
            },
            Some(_) => {},
        }
        i = i + 1;
    }
    proof {
        assert forall|s: Seq<char>| #[trigger] canonical(rv, s) is Some by {
            if lookup(rv, s) is Some {
                lemma_lookup_found(rv, s);
                let j = choose|j: int| 0 <= j < rv.len() && #[trigger] rv[j].0 == s;
                assert(canonical(rv, rv[j].0) is Some);
            }
        }
    }
    Ok(())
}

impl ModuleGraph {
    pub closed spec fn view(&self) -> GraphView {
        GraphView {
            modules: self.modules@.map_values(|m: ModuleRecord| module_view(m)),
            redirects: pairs_view(self.redirects@),
        }
    }

    /// A graph is well formed when no chain of its redirects cycles.
    pub closed spec fn wf(&self) -> bool {
        redirects_acyclic(self.view().redirects)
    }

    /// Builds a graph from its modules and the declared redirects; fails on
    /// the first redirect whose chain cycles.
    pub fn new(modules: Vec<ModuleRecord>, redirects: Vec<(String, String)>) -> (r: Result<ModuleGraph, GraphError>)
        ensures
            match r {
                Ok(g) => g.wf() && g.view() == (GraphView {
                    modules: modules@.map_values(|m: ModuleRecord| module_view(m)),
                    redirects: pairs_view(redirects@),
                }),
                Err(GraphError::RedirectCycle(s)) => canonical(pairs_view(redirects@), s@) is None,
                Err(_) => false,
            },
            r is Ok <==> redirects_acyclic(pairs_view(redirects@)),
    {
        match check_redirects(&redirects) {
            Err(e) => Err(e),
            Ok(()) => Ok(ModuleGraph { modules, redirects }),
        }
    }

    /// The canonical target of the specifier text `raw` written in the module
    /// `containing`, or `None` when the graph did not resolve it.
    pub fn resolve_dependency(&self, raw: &String, containing: &String) -> (r: Option<String>)
        requires
            self.wf(),
        ensures
            match r {
                Some(v) => resolve_spec(self.view(), raw@, containing@) == Some(v@),
                None => resolve_spec(self.view(), raw@, containing@) is None,
            },
    {
        let ghost mv = self.view().modules;
        let mut i: usize = 0;
        assert(mv.subrange(0, mv.len() as int) =~= mv);
        while i < self.modules.len()
            invariant
                i <= self.modules@.len(),
                mv == self.view().modules,
                module_dependencies(mv, containing@) == module_dependencies(
                    mv.subrange(i as int, mv.len() as int),
                    containing@,
                ),
            decreases self.modules@.len() - i,
        {
            let ghost rest = mv.subrange(i as int, mv.len() as int);
            assert(rest[0] == mv[i as int]);
            assert(rest.drop_first() =~= mv.subrange(i + 1 as int, mv.len() as int));
            if self.modules[i].specifier == *containing {
                let target = match lookup_exec(&self.modules[i].dependencies, raw) {
                    None => {
                        return None;
                    },
                    Some(t) => t,
                };
                return follow_redirects_exec(&self.redirects, &target, self.redirects.len());
            }
            i = i + 1;
        }
        None
    }
}

} // verus!
