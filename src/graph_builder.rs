use vstd::prelude::*;

use crate::graph::{
    canonical,
    check_redirects,
    follow_redirects_exec,
    module_view,
    pairs_view,
    redirects_acyclic,
    GraphError,
    GraphView,
    ModuleGraph,
    ModuleRecord,
};

verus! {

pub open spec fn strs_view(v: Seq<String>) -> Seq<Seq<char>> {
    v.map_values(|s: String| s@)
}

/// The queue after offering it each target in turn: a target joins at the
/// end unless it is already known or already queued.
pub open spec fn enqueue(known: Seq<Seq<char>>, queue: Seq<Seq<char>>, targets: Seq<Seq<char>>) -> Seq<Seq<char>>
    decreases targets.len(),
{
    if targets.len() == 0 {
        queue
    } else {
        let q = enqueue(known, queue, targets.drop_last());
        let t = targets.last();
        if known.contains(t) || q.contains(t) {
            q
        } else {
            q.push(t)
        }
    }
}

/// The canonical specifier of each recorded dependency target.
pub open spec fn canonical_targets(
    redirects: Seq<(Seq<char>, Seq<char>)>,
    deps: Seq<(Seq<char>, Seq<char>)>,
) -> Seq<Seq<char>> {
    deps.map_values(|d: (Seq<char>, Seq<char>)| canonical(redirects, d.1)->0)
}

/// No specifier is queued twice, and none that was loaded is queued.
pub open spec fn queue_fresh(known: Seq<Seq<char>>, queue: Seq<Seq<char>>) -> bool {
    &&& queue.no_duplicates()
    &&& forall|i: int| 0 <= i < queue.len() ==> !known.contains(#[trigger] queue[i])
}

proof fn lemma_enqueue_fresh(known: Seq<Seq<char>>, queue: Seq<Seq<char>>, targets: Seq<Seq<char>>)
    requires
        queue_fresh(known, queue),
    ensures
        queue_fresh(known, enqueue(known, queue, targets)),
        forall|i: int| 0 <= i < queue.len() ==> enqueue(known, queue, targets)[i] == queue[i],
        queue.len() <= enqueue(known, queue, targets).len(),
    decreases targets.len(),
{
    if targets.len() > 0 {
        lemma_enqueue_fresh(known, queue, targets.drop_last());
        let q = enqueue(known, queue, targets.drop_last());
        let t = targets.last();
        if !(known.contains(t) || q.contains(t)) {
            let q2 = q.push(t);
            assert forall|i: int, j: int| 0 <= i < q2.len() && 0 <= j < q2.len() && i != j implies q2[i] != q2[j] by {
                if i < q.len() && j < q.len() {
                } else if i == q.len() {
                    assert(q.contains(q[j]));
                } else {
                    assert(q.contains(q[i]));
                }
            }
        }
    }
}

/// The state of building a module graph from its entry points: the modules
/// loaded so far, the canonical specifiers waiting to be loaded, and those
/// that are never loaded (the targets rewritten to bare references).
#[derive(Debug)]
pub struct GraphBuilder {
    modules: Vec<ModuleRecord>,
    pending: Vec<String>,
    excluded: Vec<String>,
    redirects: Vec<(String, String)>,
}

impl GraphBuilder {
    pub closed spec fn loaded(&self) -> Seq<Seq<char>> {
        self.modules@.map_values(|m: ModuleRecord| m.specifier@)
    }

    pub closed spec fn modules_view(&self) -> Seq<(Seq<char>, Seq<(Seq<char>, Seq<char>)>)> {
        self.modules@.map_values(|m: ModuleRecord| module_view(m))
    }

    pub closed spec fn queue(&self) -> Seq<Seq<char>> {
        strs_view(self.pending@)
    }

    pub closed spec fn excluded(&self) -> Seq<Seq<char>> {
        strs_view(self.excluded@)
    }

    /// The specifiers that are never queued again: the loaded and the excluded.
    pub open spec fn known(&self) -> Seq<Seq<char>> {
        self.loaded() + self.excluded()
    }

    pub closed spec fn redirects_view(&self) -> Seq<(Seq<char>, Seq<char>)> {
        pairs_view(self.redirects@)
    }

    /// The redirects do not cycle, and each specifier is loaded at most once.
    pub closed spec fn wf(&self) -> bool {
        &&& redirects_acyclic(self.redirects_view())
        &&& queue_fresh(self.known(), self.queue())
    }

    /// In a well-formed build no queued specifier is loaded or excluded, and
    /// none is queued twice: each specifier is loaded at most once.
    pub proof fn lemma_loaded_at_most_once(&self)
        requires
            self.wf(),
        ensures
            queue_fresh(self.known(), self.queue()),
            redirects_acyclic(self.redirects_view()),
    {
    }

    /// Whether `s` is known or queued.
    fn is_known(&self, s: &String) -> (r: bool)
        ensures
            r == (self.known().contains(s@) || self.queue().contains(s@)),
    {
        let mut i: usize = 0;
        while i < self.excluded.len()
            invariant
                i <= self.excluded@.len(),
                forall|j: int| 0 <= j < i ==> self.excluded()[j] != s@,
            decreases self.excluded@.len() - i,
        {
            if self.excluded[i] == *s {
                assert(self.known()[self.loaded().len() + i] == s@);
                return true;
            }
            i = i + 1;
        }
        let mut i: usize = 0;
        while i < self.modules.len()
            invariant
                i <= self.modules@.len(),
                forall|j: int| 0 <= j < self.excluded@.len() ==> self.excluded()[j] != s@,
                forall|j: int| 0 <= j < i ==> self.loaded()[j] != s@,
            decreases self.modules@.len() - i,
        {
            if self.modules[i].specifier == *s {
                assert(self.known()[i as int] == s@);
                return true;
            }
            i = i + 1;
        }
        let mut i: usize = 0;
        while i < self.pending.len()
            invariant
                i <= self.pending@.len(),
                forall|j: int| 0 <= j < self.excluded@.len() ==> self.excluded()[j] != s@,
                forall|j: int| 0 <= j < self.modules@.len() ==> self.loaded()[j] != s@,
                forall|j: int| 0 <= j < i ==> self.queue()[j] != s@,
            decreases self.pending@.len() - i,
        {
            if self.pending[i] == *s {
                assert(self.queue()[i as int] == s@);
                return true;
            }
            i = i + 1;
        }
        assert(!self.known().contains(s@)) by {
            if self.known().contains(s@) {
                let k = choose|k: int| 0 <= k < self.known().len() && self.known()[k] == s@;
                if k < self.loaded().len() {
                    assert(self.loaded()[k] == s@);
                } else {
                    assert(self.excluded()[k - self.loaded().len()] == s@);
                }
            }
        }
        false
    }

    /// Queues the canonical form of each target that is not known yet.
    fn enqueue_targets(&mut self, targets: &Vec<(String, String)>)
        requires
            old(self).wf(),
        ensures
            final(self).wf(),
            final(self).modules == old(self).modules,
            final(self).excluded == old(self).excluded,
            final(self).redirects == old(self).redirects,
            final(self).queue() == enqueue(
                old(self).known(),
                old(self).queue(),
                canonical_targets(old(self).redirects_view(), pairs_view(targets@)),
            ),
    {
        let ghost ts = canonical_targets(self.redirects_view(), pairs_view(targets@));
        let ghost known = self.known();
        let ghost start = self.queue();
        let n = self.redirects.len();
        let mut i: usize = 0;
        assert(ts.subrange(0, 0) =~= Seq::<Seq<char>>::empty());
        while i < targets.len()
            invariant
                i <= targets@.len(),
                self.wf(),
                n == self.redirects@.len(),
                self.modules == old(self).modules,
                self.excluded == old(self).excluded,
                self.redirects == old(self).redirects,
                known == self.known(),
                ts == canonical_targets(self.redirects_view(), pairs_view(targets@)),
                self.queue() == enqueue(known, start, ts.subrange(0, i as int)),
            decreases targets@.len() - i,
        {
            assert(ts.subrange(0, i + 1 as int).drop_last() =~= ts.subrange(0, i as int));
            assert(canonical(self.redirects_view(), targets@[i as int].1@) is Some);
            match follow_redirects_exec(&self.redirects, &targets[i].1, n) {
                None => {},
                Some(c) => {
                    assert(c@ == ts[i as int]);
                    if !self.is_known(&c) {
                        let ghost before = self.queue();
                        self.pending.push(c);
                        assert(self.queue() =~= before.push(ts[i as int]));
                        proof {
                            lemma_enqueue_fresh(known, before, seq![ts[i as int]]);
                            assert(seq![ts[i as int]].drop_last() =~= Seq::<Seq<char>>::empty());
                        }
                    }
                },
            }
            i = i + 1;
        }
        assert(ts.subrange(0, targets@.len() as int) =~= ts);
    }

    /// Starts a build from the ordinary and test entry points; the excluded
    /// specifiers are never loaded. Fails when a chain of the redirects cycles.
    pub fn new(entry_points: &Vec<String>, excluded: Vec<String>, redirects: Vec<(String, String)>) -> (r: Result<
        GraphBuilder,
        GraphError,
    >)
        ensures
            r is Ok <==> redirects_acyclic(pairs_view(redirects@)),
            r matches Err(GraphError::RedirectCycle(s)) ==> canonical(pairs_view(redirects@), s@) is None,
            r matches Ok(b) ==> b.wf() && b.loaded() == Seq::<Seq<char>>::empty() && b.excluded() == strs_view(
                excluded@,
            ) && b.redirects_view() == pairs_view(redirects@) && b.queue() == enqueue(
                strs_view(excluded@),
                Seq::empty(),
                entry_points@.map_values(|s: String| canonical(pairs_view(redirects@), s@)->0),
            ),
    {
        match check_redirects(&redirects) {
            Err(e) => {
                return Err(e);
            },
            Ok(()) => {},
        }
        let mut b = GraphBuilder { modules: Vec::new(), pending: Vec::new(), excluded, redirects };
        assert(b.loaded() =~= Seq::<Seq<char>>::empty());
        assert(b.known() =~= b.excluded());
        assert(b.queue() =~= Seq::<Seq<char>>::empty());
        b.add_entry_points(entry_points);
        Ok(b)
    }

    /// Queues the canonical form of each entry point that is not known yet.
    /// Loading what is queued before adding the test entry points keeps the
    /// closure of the ordinary entry points apart from the test-only modules.
    pub fn add_entry_points(&mut self, entry_points: &Vec<String>)
        requires
            old(self).wf(),
        ensures
            final(self).wf(),
            final(self).modules_view() == old(self).modules_view(),
            final(self).loaded() == old(self).loaded(),
            final(self).excluded() == old(self).excluded(),
            final(self).redirects_view() == old(self).redirects_view(),
            final(self).queue() == enqueue(
                old(self).known(),
                old(self).queue(),
                entry_points@.map_values(|s: String| canonical(old(self).redirects_view(), s@)->0),
            ),
    {
        let mut targets: Vec<(String, String)> = Vec::new();
        let mut i: usize = 0;
        while i < entry_points.len()
            invariant
                i <= entry_points@.len(),
                targets@.len() == i,
                forall|j: int| 0 <= j < i ==> (#[trigger] targets@[j]).1@ == entry_points@[j]@,
            decreases entry_points@.len() - i,
        {
            targets.push((entry_points[i].clone(), entry_points[i].clone()));
            i = i + 1;
        }
        self.enqueue_targets(&targets);
        assert(canonical_targets(self.redirects_view(), pairs_view(targets@)) =~= entry_points@.map_values(
            |s: String| canonical(self.redirects_view(), s@)->0,
        ));
    }

    /// How many modules are loaded.
    pub fn loaded_count(&self) -> (r: usize)
        ensures
            r == self.loaded().len(),
    {
        self.modules.len()
    }

    /// The specifier to load next, if any is waiting.
    pub fn next_to_load(&self) -> (r: Option<&String>)
        ensures
            match r {
                Some(s) => self.queue().len() > 0 && s@ == self.queue()[0],
                None => self.queue().len() == 0,
            },
    {
        if self.pending.len() == 0 {
            None
        } else {
            Some(&self.pending[0])
        }
    }

    /// Records the module that `next_to_load` named, with what each
    /// specifier text in it was resolved to, and queues the canonical targets
    /// that are not known yet. A specifier is never queued twice.
    pub fn module_loaded(&mut self, dependencies: Vec<(String, String)>) -> (r: Result<(), GraphError>)
        requires
            old(self).wf(),
        ensures
            final(self).wf(),
            r is Err <==> old(self).queue().len() == 0,
            r matches Err(e) ==> e == GraphError::NothingPending && *final(self) == *old(self),
            r is Ok ==> final(self).modules_view() == old(self).modules_view().push(
                (old(self).queue()[0], pairs_view(dependencies@)),
            ) && final(self).loaded() == old(self).loaded().push(old(self).queue()[0]) && final(self).excluded()
                == old(self).excluded() && final(self).redirects_view() == old(self).redirects_view()
                && final(self).queue() == enqueue(
                old(self).loaded().push(old(self).queue()[0]) + old(self).excluded(),
                old(self).queue().drop_first(),
                canonical_targets(old(self).redirects_view(), pairs_view(dependencies@)),
            ),
    {
        if self.pending.len() == 0 {
            return Err(GraphError::NothingPending);
        }
        let ghost q = self.queue();
        let ghost known = self.loaded();
        let ghost mv = self.modules_view();
        let specifier = self.pending.remove(0);
        assert(self.queue() =~= q.drop_first());
        self.modules.push(ModuleRecord { specifier, dependencies: Vec::new() });
        assert(self.loaded() =~= known.push(q[0]));
        proof {
            let old_known = known + self.excluded();
            assert forall|i: int| 0 <= i < self.queue().len() implies !self.known().contains(
                #[trigger] self.queue()[i],
            ) by {
                let x = q[i + 1];
                assert(self.queue()[i] == x);
                assert(x != q[0]);
                assert(!old_known.contains(x));
                if self.known().contains(x) {
                    let k = choose|k: int| 0 <= k < self.known().len() && self.known()[k] == x;
                    if k < known.len() {
                        assert(old_known[k] == x);
                    } else if k == known.len() {
                        assert(self.known()[k] == q[0]);
                    } else {
                        assert(old_known[k - 1] == self.known()[k]);
                    }
                }
            }
        }
        let last = self.modules.len() - 1;
        self.enqueue_targets(&dependencies);
        let ghost loaded_now = self.loaded();
        let ghost queue_now = self.queue();
        assert(self.known() == known.push(q[0]) + self.excluded());
        let record = ModuleRecord { specifier: self.modules[last].specifier.clone(), dependencies };
        self.modules.set(last, record);
        assert(self.loaded() =~= loaded_now);
        assert(self.queue() == queue_now);
        assert(self.modules_view() =~= mv.push((q[0], pairs_view(dependencies@))));
        Ok(())
    }

    /// The finished graph, once no module waits to be loaded.
    pub fn finish(self) -> (r: Result<ModuleGraph, GraphError>)
        requires
            self.wf(),
        ensures
            r is Ok <==> self.queue().len() == 0,
            r matches Err(e) ==> e == GraphError::Incomplete,
            r matches Ok(g) ==> g.wf() && g.view() == (GraphView {
                modules: self.modules_view(),
                redirects: self.redirects_view(),
            }),
    {
        if self.pending.len() > 0 {
            return Err(GraphError::Incomplete);
        }
        match ModuleGraph::new(self.modules, self.redirects) {
            Ok(g) => Ok(g),
            Err(_) => Err(GraphError::Incomplete),
        }
    }
}

} // verus!
