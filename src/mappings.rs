use vstd::prelude::*;

use crate::output_path::{get_output_path, output_path};
use crate::path::{check_segments, segments_ok, segs_view};

verus! {

/// The view of a mapping table: each specifier with its output path's segments.
pub open spec fn entries_view(e: Seq<(String, Vec<String>)>) -> Seq<(Seq<char>, Seq<Seq<char>>)> {
    e.map_values(|p: (String, Vec<String>)| (p.0@, segs_view(p.1@)))
}

/// The output path of the first entry with the given specifier.
pub open spec fn path_of(e: Seq<(Seq<char>, Seq<Seq<char>>)>, specifier: Seq<char>) -> Option<Seq<Seq<char>>>
    decreases e.len(),
{
    if e.len() == 0 {
        None
    } else if e[0].0 == specifier {
        Some(e[0].1)
    } else {
        path_of(e.drop_first(), specifier)
    }
}

/// Every path names a file through proper segments, and no two distinct
/// specifiers share a path.
pub open spec fn mappings_valid(e: Seq<(Seq<char>, Seq<Seq<char>>)>) -> bool {
    &&& forall|i: int| 0 <= i < e.len() ==> (#[trigger] e[i]).1.len() > 0 && segments_ok(e[i].1)
    &&& forall|i: int, j: int|
        0 <= i < j < e.len() && (#[trigger] e[i]).1 == (#[trigger] e[j]).1 ==> e[i].0 == e[j].0
}

/// A path that a valid table gives names a file through proper segments.
pub proof fn lemma_valid_table_paths(e: Seq<(Seq<char>, Seq<Seq<char>>)>, specifier: Seq<char>)
    requires
        forall|i: int| 0 <= i < e.len() ==> (#[trigger] e[i]).1.len() > 0 && segments_ok(e[i].1),
        path_of(e, specifier) is Some,
    ensures
        path_of(e, specifier)->0.len() > 0,
        segments_ok(path_of(e, specifier)->0),
    decreases e.len(),
{
    assert(e[0].1.len() > 0 && segments_ok(e[0].1));
    if e[0].0 != specifier {
        let rest = e.drop_first();
        assert forall|i: int| 0 <= i < rest.len() implies (#[trigger] rest[i]).1.len() > 0 && segments_ok(rest[i].1) by {
            assert(rest[i] == e[i + 1]);
        }
        lemma_valid_table_paths(rest, specifier);
    }
}

/// Why a mapping table was refused.
#[derive(Debug, PartialEq, Eq)]
pub enum MappingsError {
    /// The specifier was given an empty output path.
    EmptyPath(String),
    /// The specifier's output path has an empty segment, or one holding `/`
    /// or `\\`.
    BadSegment(String),
    /// Two distinct specifiers were given the same output path.
    PathCollision(String, String),
    /// No output path can be derived from the specifier.
    UnsupportedSpecifier(String),
}

/// Each specifier with the output path derived from it.
pub open spec fn derived_entries(specifiers: Seq<String>) -> Seq<(Seq<char>, Seq<Seq<char>>)> {
    specifiers.map_values(|s: String| (s@, output_path(s@)->0))
}

/// The output file path of every specifier of the graph, fixed before any
/// module is rewritten.
#[derive(Debug)]
pub struct Mappings {
    entries: Vec<(String, Vec<String>)>,
}

fn paths_equal(a: &Vec<String>, b: &Vec<String>) -> (r: bool)
    ensures
        r == (segs_view(a@) == segs_view(b@)),
{
    if a.len() != b.len() {
        assert(segs_view(a@).len() != segs_view(b@).len());
        return false;
    }
    let mut i: usize = 0;
    while i < a.len()
        invariant
            a@.len() == b@.len(),
            i <= a@.len(),
            forall|j: int| 0 <= j < i ==> #[trigger] a@[j]@ == b@[j]@,
        decreases a@.len() - i,
    {
        if a[i] != b[i] {
            assert(segs_view(a@)[i as int] != segs_view(b@)[i as int]);
            return false;
        }
        i = i + 1;
    }
    assert(segs_view(a@) =~= segs_view(b@));
    true
}

impl Mappings {
    pub closed spec fn view(&self) -> Seq<(Seq<char>, Seq<Seq<char>>)> {
        entries_view(self.entries@)
    }

    /// A table that `new` accepted.
    pub closed spec fn wf(&self) -> bool {
        mappings_valid(self@)
    }

    /// Builds the table; refuses an empty path, and two distinct specifiers
    /// with one path.
    pub fn new(entries: Vec<(String, Vec<String>)>) -> (r: Result<Mappings, MappingsError>)
        ensures
            r is Ok <==> mappings_valid(entries_view(entries@)),
            r matches Ok(m) ==> m@ == entries_view(entries@) && m.wf(),
            !(r matches Err(MappingsError::UnsupportedSpecifier(_))),
            r matches Err(MappingsError::EmptyPath(s)) ==> exists|i: int|
                0 <= i < entries@.len() && entries@[i].0@ == s@ && (#[trigger] entries@[i]).1@.len() == 0,
            r matches Err(MappingsError::BadSegment(s)) ==> exists|i: int|
                0 <= i < entries@.len() && entries@[i].0@ == s@ && !segments_ok(segs_view((#[trigger] entries@[i]).1@)),
            r matches Err(MappingsError::PathCollision(a, b)) ==> exists|i: int, j: int|
                0 <= i < j < entries@.len() && (#[trigger] entries@[i]).0@ == a@ && (#[trigger] entries@[j]).0@
                    == b@ && a@ != b@ && segs_view(entries@[i].1@) == segs_view(entries@[j].1@),
    {
        let ghost ev = entries_view(entries@);
        let n = entries.len();
        let mut i: usize = 0;
        while i < n
            invariant
                n == entries@.len(),
                ev == entries_view(entries@),
                i <= n,
                forall|k: int| 0 <= k < i ==> (#[trigger] ev[k]).1.len() > 0 && segments_ok(ev[k].1),
                forall|k: int, l: int|
                    0 <= k < l < n && k < i && (#[trigger] ev[k]).1 == (#[trigger] ev[l]).1 ==> ev[k].0 == ev[l].0,
            decreases n - i,
        {
            if entries[i].1.len() == 0 {
                assert(ev[i as int].1.len() == 0);
                return Err(MappingsError::EmptyPath(entries[i].0.clone()));
            }
            if !check_segments(&entries[i].1) {
                assert(!segments_ok(ev[i as int].1));
                return Err(MappingsError::BadSegment(entries[i].0.clone()));
            }
            let mut j: usize = i + 1;
            while j < n
                invariant
                    n == entries@.len(),
                    ev == entries_view(entries@),
                    i < n,
                    i < j <= n,
                    forall|l: int| i < l < j && ev[i as int].1 == (#[trigger] ev[l]).1 ==> ev[i as int].0 == ev[l].0,
                decreases n - j,
            {
                if paths_equal(&entries[i].1, &entries[j].1) && entries[i].0 != entries[j].0 {
                    let a = entries[i].0.clone();
                    let b = entries[j].0.clone();
                    assert(ev[i as int].1 == ev[j as int].1 && ev[i as int].0 != ev[j as int].0);
                    return Err(MappingsError::PathCollision(a, b));
                }
                j = j + 1;
            }
            i = i + 1;
        }
        Ok(Mappings { entries })
    }

    /// The table that gives each specifier the output path derived from it.
    pub fn from_specifiers(specifiers: &Vec<String>) -> (r: Result<Mappings, MappingsError>)
        ensures
            r is Ok <==> (forall|i: int| 0 <= i < specifiers@.len() ==> output_path(#[trigger] specifiers@[i]@) is Some)
                && mappings_valid(derived_entries(specifiers@)),
            r matches Ok(m) ==> m@ == derived_entries(specifiers@) && m.wf(),
            r matches Err(MappingsError::UnsupportedSpecifier(s)) ==> output_path(s@) is None && exists|i: int|
                0 <= i < specifiers@.len() && (#[trigger] specifiers@[i])@ == s@,
    {
        let mut entries: Vec<(String, Vec<String>)> = Vec::new();
        let mut i: usize = 0;
        while i < specifiers.len()
            invariant
                i <= specifiers@.len(),
                entries_view(entries@) == derived_entries(specifiers@.subrange(0, i as int)),
                forall|j: int| 0 <= j < i ==> output_path(#[trigger] specifiers@[j]@) is Some,
            decreases specifiers@.len() - i,
        {
            let ghost before = entries@;
            match get_output_path(&specifiers[i]) {
                None => {
                    return Err(MappingsError::UnsupportedSpecifier(specifiers[i].clone()));
                },
                Some(p) => {
                    let ghost pv = segs_view(p@);
                    entries.push((specifiers[i].clone(), p));
                    assert(entries_view(entries@) =~= entries_view(before).push((specifiers@[i as int]@, pv)));
                    assert(derived_entries(specifiers@.subrange(0, i + 1 as int)) =~= derived_entries(
                        specifiers@.subrange(0, i as int),
                    ).push((specifiers@[i as int]@, pv)));
                    assert(entries_view(entries@) =~= derived_entries(specifiers@.subrange(0, i + 1 as int)));
                },
            }
            i = i + 1;
        }
        assert(specifiers@.subrange(0, specifiers@.len() as int) =~= specifiers@);
        Mappings::new(entries)
    }

    /// The output path of `specifier`, if the table has one.
    pub fn get_file_path(&self, specifier: &String) -> (r: Option<&Vec<String>>)
        ensures
            match r {
                Some(p) => path_of(self@, specifier@) == Some(segs_view(p@)),
                None => path_of(self@, specifier@) is None,
            },
            self.wf() ==> (r matches Some(p) ==> p@.len() > 0),
    {
        let ghost ev = self@;
        let mut i: usize = 0;
        assert(ev.subrange(0, ev.len() as int) =~= ev);
        while i < self.entries.len()
            invariant
                i <= self.entries@.len(),
                ev == self@,
                self.wf() ==> forall|k: int| 0 <= k < ev.len() ==> (#[trigger] ev[k]).1.len() > 0,
                path_of(ev, specifier@) == path_of(ev.subrange(i as int, ev.len() as int), specifier@),
            decreases self.entries@.len() - i,
        {
            let ghost rest = ev.subrange(i as int, ev.len() as int);
            assert(rest[0] == ev[i as int]);
            assert(rest.drop_first() =~= ev.subrange(i + 1 as int, ev.len() as int));
            if self.entries[i].0 == *specifier {
                assert(ev[i as int].1 == segs_view(self.entries@[i as int].1@));
                return Some(&self.entries[i].1);
            }
            i = i + 1;
        }
        None
    }
}

} // verus!
